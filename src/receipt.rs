//! Locating, in an executed transaction, the instruction whose output a caller
//! wants decoded.
use vstd::prelude::*;

verus! {

/// What an instruction of a transaction calls, as far as locating its output
/// needs.
pub enum Instruction {
    CallFunction { blueprint_name: String },
    CallMethod { method: String },
    Other,
}

/// Whether an instruction calls a function of the named blueprint.
pub open spec fn calls_function_of(i: Instruction, blueprint_name: Seq<char>) -> bool {
    match i {
        Instruction::CallFunction { blueprint_name: b } => b@ == blueprint_name,
        _ => false,
    }
}

/// Whether an instruction calls the named method.
pub open spec fn calls_method(i: Instruction, method: Seq<char>) -> bool {
    match i {
        Instruction::CallMethod { method: m } => m@ == method,
        _ => false,
    }
}

/// The position of the first instruction that calls a function of the named
/// blueprint.
pub fn position_of_call_function(instructions: &Vec<Instruction>, blueprint_name: &str) -> (r:
    Option<usize>)
    ensures
        match r {
            Some(p) => {
                &&& p < instructions@.len()
                &&& calls_function_of(instructions@[p as int], blueprint_name@)
                &&& forall|j: int|
                    0 <= j < p ==> !calls_function_of(#[trigger] instructions@[j], blueprint_name@)
            },
            None => forall|j: int|
                0 <= j < instructions@.len() ==> !calls_function_of(
                    #[trigger] instructions@[j],
                    blueprint_name@,
                ),
        },
{
    let target = blueprint_name.to_owned();
    let mut i: usize = 0;
    while i < instructions.len()
        invariant
            i <= instructions@.len(),
            target@ == blueprint_name@,
            forall|j: int|
                0 <= j < i ==> !calls_function_of(#[trigger] instructions@[j], blueprint_name@),
        decreases instructions.len() - i,
    {
        if let Instruction::CallFunction { blueprint_name: b } = &instructions[i] {
            if *b == target {
                return Some(i);
            }
        }
        i = i + 1;
    }
    None
}

/// The position of the first instruction that calls the named method.
pub fn position_of_call_method(instructions: &Vec<Instruction>, method_name: &str) -> (r: Option<
    usize,
>)
    ensures
        match r {
            Some(p) => {
                &&& p < instructions@.len()
                &&& calls_method(instructions@[p as int], method_name@)
                &&& forall|j: int|
                    0 <= j < p ==> !calls_method(#[trigger] instructions@[j], method_name@)
            },
            None => forall|j: int|
                0 <= j < instructions@.len() ==> !calls_method(
                    #[trigger] instructions@[j],
                    method_name@,
                ),
        },
{
    let target = method_name.to_owned();
    let mut i: usize = 0;
    while i < instructions.len()
        invariant
            i <= instructions@.len(),
            target@ == method_name@,
            forall|j: int| 0 <= j < i ==> !calls_method(#[trigger] instructions@[j], method_name@),
        decreases instructions.len() - i,
    {
        if let Instruction::CallMethod { method: m } = &instructions[i] {
            if *m == target {
                return Some(i);
            }
        }
        i = i + 1;
    }
    None
}

} // verus!
