use scrypto_unit::env::{TestEnv, User};
use scrypto_unit::ledger::{Address, Decimal, Ledger};
use scrypto_unit::query::QueryError;
use scrypto_unit::ledger::Fault;

fn account(n: u8) -> Address {
    Address::new(vec![n; 30])
}

#[test]
fn first_user_becomes_current() {
    let mut env = TestEnv::new(Ledger::new());
    let u1 = env.create_user("acc1", vec![1, 1], account(1));
    let u2 = env.create_user("acc2", vec![2, 2], account(2));
    assert_eq!(env.get_current_user(), u1);
    assert_eq!(env.get_user("acc2"), &u2);
    env.acting_as("acc2");
    assert_eq!(env.get_current_user(), *env.get_user("acc2"));
}

#[test]
fn user_registered_again_is_replaced() {
    let mut env = TestEnv::new(Ledger::new());
    env.create_user("acc", vec![1], account(1));
    let newer = env.create_user("acc", vec![2], account(2));
    assert_eq!(env.get_user("acc"), &newer);
    assert_eq!(env.get_user("acc"), &User { key: vec![2], account: account(2) });
}

#[test]
fn first_package_becomes_current() {
    let mut env = TestEnv::new(Ledger::new());
    env.publish_package("package", account(10));
    env.publish_package("other", account(11));
    assert_eq!(env.get_current_package(), account(10));
    assert_eq!(env.get_package("other"), account(11));
    env.using_package("other");
    assert_eq!(env.get_current_package(), account(11));
}

#[test]
fn env_queries_run_against_its_ledger() {
    let env = TestEnv::new(Ledger::new());
    let c = account(3);
    assert_eq!(env.get_account_vaults(&c).err(), Some(Fault::NotFound));
    assert_eq!(env.get_amount_for_rd(&c, &account(4)), Err(QueryError::Ledger(Fault::NotFound)));
    assert_eq!(
        env.get_non_fungible_keys_for_rd(&c, &account(4)),
        Err(QueryError::Ledger(Fault::NotFound))
    );
    let _ = Decimal::zero();
}
