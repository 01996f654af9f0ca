//! The transactions that the test environment submits on behalf of its acting
//! user: what each one does, step by step, and who signs it.
use vstd::prelude::*;

use crate::env::{TestEnv, User};
use crate::ledger::{Address, Decimal};

verus! {

/// One step of a transaction.
#[derive(Debug, PartialEq, Eq)]
pub enum Step {
    /// Mints a new fungible token with a fixed supply into the worktop.
    NewTokenFixed { supply: Decimal },
    /// Calls a function of a blueprint of a package, paying from `account`.
    CallFunction {
        package: Address,
        blueprint_name: String,
        function_name: String,
        params: Vec<String>,
        account: Address,
    },
    /// Calls a method of a component, paying from `account`.
    CallMethod { component: Address, method_name: String, params: Vec<String>, account: Address },
    /// Withdraws an amount of a fungible resource from an account.
    WithdrawFromAccount { amount: Decimal, resource: Address, account: Address },
    /// Deposits everything left on the worktop into an account.
    DepositAll { account: Address },
}

/// A transaction: its steps, in order, and the public key that signs it.
#[derive(Debug, PartialEq, Eq)]
pub struct Transaction {
    pub steps: Vec<Step>,
    pub signer: Vec<u8>,
}

/// Whether a step deposits everything left into the given account.
pub open spec fn deposits_into(s: Step, account: Seq<u8>) -> bool {
    s matches Step::DepositAll { account: a } && a@ == account
}

impl TestEnv {
    /// The transaction that mints `max_supply` of a new fungible token and
    /// deposits it into the acting user's account, signed by that user.
    pub fn create_token(&self, max_supply: Decimal) -> (r: Transaction)
        requires
            self.current_user is Some,
        ensures
            r.signer@ == self.current_user.unwrap().key@,
            r.steps@.len() == 2,
            r.steps@[0] matches Step::NewTokenFixed { supply } && supply == max_supply,
            deposits_into(r.steps@[1], self.current_user.unwrap().account@),
    {
        let user = self.get_current_user();
        let steps = vec![
            Step::NewTokenFixed { supply: max_supply },
            Step::DepositAll { account: user.account },
        ];
        Transaction { steps, signer: user.key }
    }

    /// The transaction that calls a function of a blueprint of the package in
    /// use and deposits what it returns into the acting user's account.
    pub fn call_function(
        &self,
        blueprint_name: &str,
        function_name: &str,
        params: Vec<String>,
    ) -> (r: Transaction)
        requires
            self.current_user is Some,
            self.current_package is Some,
        ensures
            r.signer@ == self.current_user.unwrap().key@,
            r.steps@.len() == 2,
            r.steps@[0] matches Step::CallFunction {
                package,
                blueprint_name: b,
                function_name: f,
                params: p,
                account,
            } && package@ == self.current_package.unwrap()@ && b@ == blueprint_name@ && f@
                == function_name@ && p == params && account@ == self.current_user.unwrap().account@,
            deposits_into(r.steps@[1], self.current_user.unwrap().account@),
    {
        let user = self.get_current_user();
        let package = self.get_current_package();
        let steps = vec![
            Step::CallFunction {
                package,
                blueprint_name: blueprint_name.to_owned(),
                function_name: function_name.to_owned(),
                params,
                account: user.account.duplicate(),
            },
            Step::DepositAll { account: user.account },
        ];
        Transaction { steps, signer: user.key }
    }

    /// The transaction that calls a method of a component and deposits what it
    /// returns into the acting user's account.
    pub fn call_method(&self, component: &Address, method_name: &str, params: Vec<String>) -> (r:
        Transaction)
        requires
            self.current_user is Some,
        ensures
            r.signer@ == self.current_user.unwrap().key@,
            r.steps@.len() == 2,
            r.steps@[0] matches Step::CallMethod { component: c, method_name: m, params: p, account }
                && c@ == component@ && m@ == method_name@ && p == params && account@
                == self.current_user.unwrap().account@,
            deposits_into(r.steps@[1], self.current_user.unwrap().account@),
    {
        let user = self.get_current_user();
        let steps = vec![
            Step::CallMethod {
                component: component.duplicate(),
                method_name: method_name.to_owned(),
                params,
                account: user.account.duplicate(),
            },
            Step::DepositAll { account: user.account },
        ];
        Transaction { steps, signer: user.key }
    }

    /// The transaction that moves `amount` of a fungible resource from the
    /// acting user's account into `to_user`'s, signed by the acting user.
    pub fn transfer_resource(&self, amount: Decimal, resource_def: &Address, to_user: &User) -> (r:
        Transaction)
        requires
            self.current_user is Some,
        ensures
            r.signer@ == self.current_user.unwrap().key@,
            r.steps@.len() == 2,
            r.steps@[0] matches Step::WithdrawFromAccount { amount: a, resource, account } && a
                == amount && resource@ == resource_def@ && account@
                == self.current_user.unwrap().account@,
            deposits_into(r.steps@[1], to_user.account@),
    {
        let user = self.get_current_user();
        let steps = vec![
            Step::WithdrawFromAccount {
                amount,
                resource: resource_def.duplicate(),
                account: user.account,
            },
            Step::DepositAll { account: to_user.account.duplicate() },
        ];
        Transaction { steps, signer: user.key }
    }
}

} // verus!
