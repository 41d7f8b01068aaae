use casperflow_protocol::token::{Error, StCSPRToken};

const POOL: u64 = 10;

fn token_with_minted(account: u64, amount: u128) -> StCSPRToken {
    let mut token = StCSPRToken::init(POOL);
    token.mint(POOL, account, amount).unwrap();
    token
}

#[test]
fn init_sets_metadata() {
    let token = StCSPRToken::init(POOL);
    assert_eq!(token.name(), "Staked CSPR");
    assert_eq!(token.symbol(), "stCSPR");
    assert_eq!(token.decimals(), 9);
    assert_eq!(token.total_supply(), 0);
    assert_eq!(token.balance_of(1), 0);
}

#[test]
fn mint_requires_the_pool() {
    let mut token = StCSPRToken::init(POOL);
    assert_eq!(token.mint(11, 1, 100), Err(Error::Unauthorized));
    assert_eq!(token.total_supply(), 0);
    token.mint(POOL, 1, 100).unwrap();
    assert_eq!(token.total_supply(), 100);
    assert_eq!(token.balance_of(1), 100);
}

#[test]
fn burn_requires_the_pool_and_a_balance() {
    let mut token = token_with_minted(1, 100);
    assert_eq!(token.burn(11, 1, 50), Err(Error::Unauthorized));
    assert_eq!(token.burn(POOL, 1, 101), Err(Error::InsufficientBalance));
    assert_eq!(token.balance_of(1), 100);
    token.burn(POOL, 1, 60).unwrap();
    assert_eq!(token.balance_of(1), 40);
    assert_eq!(token.total_supply(), 40);
}

#[test]
fn transfer_moves_balance() {
    let mut token = token_with_minted(1, 100);
    token.transfer(1, 2, 30).unwrap();
    assert_eq!(token.balance_of(1), 70);
    assert_eq!(token.balance_of(2), 30);
    assert_eq!(token.total_supply(), 100);
}

#[test]
fn transfer_fails_on_short_balance() {
    let mut token = token_with_minted(1, 100);
    assert_eq!(token.transfer(1, 2, 101), Err(Error::InsufficientBalance));
    assert_eq!(token.balance_of(1), 100);
    assert_eq!(token.balance_of(2), 0);
}

#[test]
fn transfer_to_self_changes_nothing() {
    let mut token = token_with_minted(1, 100);
    token.transfer(1, 1, 40).unwrap();
    assert_eq!(token.balance_of(1), 100);
    assert_eq!(token.total_supply(), 100);
}

#[test]
fn approve_sets_allowance_per_pair() {
    let mut token = StCSPRToken::init(POOL);
    token.approve(1, 2, 500);
    assert_eq!(token.allowance(1, 2), 500);
    assert_eq!(token.allowance(2, 1), 0);
    assert_eq!(token.allowance(1, 3), 0);
    token.approve(1, 2, 200);
    assert_eq!(token.allowance(1, 2), 200);
}

#[test]
fn transfer_from_spends_the_allowance() {
    let mut token = token_with_minted(1, 100);
    token.approve(1, 2, 50);
    token.transfer_from(2, 1, 3, 30).unwrap();
    assert_eq!(token.balance_of(1), 70);
    assert_eq!(token.balance_of(3), 30);
    assert_eq!(token.allowance(1, 2), 20);
    assert_eq!(token.total_supply(), 100);
}

#[test]
fn transfer_from_checks_allowance_before_balance() {
    let mut token = token_with_minted(1, 100);
    token.approve(1, 2, 50);
    assert_eq!(
        token.transfer_from(2, 1, 3, 51),
        Err(Error::InsufficientAllowance)
    );
    token.approve(1, 2, 200);
    assert_eq!(
        token.transfer_from(2, 1, 3, 150),
        Err(Error::InsufficientBalance)
    );
    assert_eq!(token.allowance(1, 2), 200);
    assert_eq!(token.balance_of(1), 100);
    assert_eq!(token.balance_of(3), 0);
}
