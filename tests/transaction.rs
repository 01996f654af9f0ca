use scrypto_unit::env::TestEnv;
use scrypto_unit::ledger::{Address, Decimal, Ledger};
use scrypto_unit::transaction::{Step, Transaction};

fn account(n: u8) -> Address {
    Address::new(vec![n; 30])
}

fn env_with_user() -> TestEnv {
    let mut env = TestEnv::new(Ledger::new());
    env.create_user("acc1", vec![7, 7], account(1));
    env.publish_package("package", account(40));
    env
}

#[test]
fn token_creation_deposits_into_acting_account() {
    let env = env_with_user();
    let tx = env.create_token(Decimal { attos: 10000 });
    assert_eq!(
        tx,
        Transaction {
            steps: vec![
                Step::NewTokenFixed { supply: Decimal { attos: 10000 } },
                Step::DepositAll { account: account(1) },
            ],
            signer: vec![7, 7],
        }
    );
}

#[test]
fn function_call_uses_current_package() {
    let env = env_with_user();
    let tx = env.call_function("Hello", "new", vec!["1".to_owned()]);
    assert_eq!(
        tx.steps,
        vec![
            Step::CallFunction {
                package: account(40),
                blueprint_name: "Hello".to_owned(),
                function_name: "new".to_owned(),
                params: vec!["1".to_owned()],
                account: account(1),
            },
            Step::DepositAll { account: account(1) },
        ]
    );
    assert_eq!(tx.signer, vec![7, 7]);
}

#[test]
fn method_call_pays_from_acting_account() {
    let env = env_with_user();
    let tx = env.call_method(&account(50), "update_state", vec!["2".to_owned()]);
    assert_eq!(
        tx.steps,
        vec![
            Step::CallMethod {
                component: account(50),
                method_name: "update_state".to_owned(),
                params: vec!["2".to_owned()],
                account: account(1),
            },
            Step::DepositAll { account: account(1) },
        ]
    );
}

#[test]
fn transfer_moves_to_other_user() {
    let mut env = env_with_user();
    let user2 = env.create_user("user2", vec![8], account(2));
    let tx = env.transfer_resource(Decimal { attos: 10 }, &account(60), &user2);
    assert_eq!(
        tx.steps,
        vec![
            Step::WithdrawFromAccount {
                amount: Decimal { attos: 10 },
                resource: account(60),
                account: account(1),
            },
            Step::DepositAll { account: account(2) },
        ]
    );
    assert_eq!(tx.signer, vec![7, 7]);
}
