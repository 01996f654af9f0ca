use scrypto_unit::receipt::{position_of_call_function, position_of_call_method, Instruction};

fn instructions() -> Vec<Instruction> {
    vec![
        Instruction::Other,
        Instruction::CallMethod { method: "deposit_batch".to_string() },
        Instruction::CallFunction { blueprint_name: "Hello".to_string() },
        Instruction::CallMethod { method: "update_state".to_string() },
        Instruction::CallFunction { blueprint_name: "Hello".to_string() },
    ]
}

#[test]
fn finds_first_call_of_blueprint() {
    assert_eq!(position_of_call_function(&instructions(), "Hello"), Some(2));
    assert_eq!(position_of_call_function(&instructions(), "Bye"), None);
    assert_eq!(position_of_call_function(&instructions(), "update_state"), None);
}

#[test]
fn finds_first_call_of_method() {
    assert_eq!(position_of_call_method(&instructions(), "update_state"), Some(3));
    assert_eq!(position_of_call_method(&instructions(), "deposit_batch"), Some(1));
    assert_eq!(position_of_call_method(&instructions(), "Hello"), None);
    assert_eq!(position_of_call_method(&vec![], "update_state"), None);
}
