use desmos_test_tube::runner::{Coin, DesmosTestApp};
use desmos_test_tube::subspaces::{MsgCreateSubspace, Subspaces};

fn coins(amount: u128, denom: &str) -> Vec<Coin> {
    vec![Coin { denom: denom.as_bytes().to_vec(), amount }]
}

#[test]
fn test_init_accounts() {
    let mut app = DesmosTestApp::default();
    let accounts = app
        .init_accounts(&coins(100_000_000_000, "udsm"), 3)
        .unwrap();

    assert!(accounts.get(0).is_some());
    assert!(accounts.get(1).is_some());
    assert!(accounts.get(2).is_some());
    assert!(accounts.get(3).is_none());
}

#[test]
fn test_init_accounts_distinct_addresses() {
    let mut app = DesmosTestApp::new();
    let accounts = app
        .init_accounts(&coins(100_000_000_000, "udsm"), 3)
        .unwrap();

    assert_ne!(accounts[0].address(), accounts[1].address());
    assert_ne!(accounts[1].address(), accounts[2].address());
    assert!(accounts[0].address().starts_with(b"desmos1"));
}

#[test]
fn test_get_and_set_block_timestamp() {
    let mut app = DesmosTestApp::default();

    let block_time_nanos = app.get_block_time_nanos();
    let block_time_seconds = app.get_block_time_seconds();

    app.increase_time(10u64);

    assert_eq!(
        app.get_block_time_nanos(),
        block_time_nanos + 10_000_000_000
    );
    assert_eq!(app.get_block_time_seconds(), block_time_seconds + 10);
}

#[test]
fn test_get_block_height() {
    let mut app = DesmosTestApp::default();

    assert_eq!(app.get_block_height(), 1i64);

    app.increase_time(10u64);

    assert_eq!(app.get_block_height(), 2i64);
}

#[test]
fn test_execute_commits_a_block() {
    let mut app = DesmosTestApp::new();
    let account = app.init_account(&coins(100_000_000_000, "udsm")).unwrap();
    let height = app.get_block_height();

    Subspaces::create_subspace(
        &mut app,
        MsgCreateSubspace {
            name: b"test".to_vec(),
            description: Vec::new(),
            owner: Vec::new(),
            creator: account.address(),
        },
        &account,
    )
    .unwrap();

    assert_eq!(app.get_block_height(), height + 1);
}

#[test]
fn test_rejected_execute_commits_nothing() {
    let mut app = DesmosTestApp::new();
    let account = app.init_account(&coins(100_000_000_000, "udsm")).unwrap();
    let height = app.get_block_height();

    let res = Subspaces::create_subspace(
        &mut app,
        MsgCreateSubspace {
            name: Vec::new(),
            description: Vec::new(),
            owner: Vec::new(),
            creator: account.address(),
        },
        &account,
    );

    assert!(res.is_err());
    assert_eq!(app.get_block_height(), height);
}
