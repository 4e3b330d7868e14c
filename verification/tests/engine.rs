use pallet_cex::pallet::{Bootstrap, Pallet, Payout};
use pallet_cex::pool::LiquidityPool;
use pallet_cex::types::{Credit, Error, Event, Settlement, Transfer};

const ROOT: u64 = 1;
const SUB: u64 = 2;
const ALICE: u64 = 10;
const BOB: u64 = 11;
const STRANGER: u64 = 99;
const WALLET: u64 = 1000;

/// Root admin, one sub-admin, two users and one pool of tokens 7 and 8.
fn engine() -> Pallet {
    let mut p = Pallet::new();
    p.register_admin(ROOT, WALLET).unwrap();
    p.register_sub_admin(ROOT, SUB).unwrap();
    p.register_user(ROOT, ALICE).unwrap();
    p.register_user(SUB, BOB).unwrap();
    assert_eq!(p.register_liquidity(ROOT, 7, 8), Ok(1));
    p
}

fn pool(reserve1: u128, reserve2: u128, total_liquidity: u128) -> LiquidityPool {
    LiquidityPool { token1: 7, token2: 8, reserve1, reserve2, total_liquidity }
}

fn same_state(a: &Pallet, b: &Pallet) -> bool {
    let accounts = [ROOT, SUB, ALICE, BOB, STRANGER, WALLET];
    a.admin_account() == b.admin_account() && a.admin_wallet() == b.admin_wallet()
        && a.next_pool_id() == b.next_pool_id()
        && accounts.iter().all(|x| a.admins(*x) == b.admins(*x) && a.users(*x) == b.users(*x))
        && (0..a.next_pool_id() + 1).all(|id| {
            a.pools(id) == b.pools(id)
                && accounts.iter().all(|x| a.user_balances(id, *x) == b.user_balances(id, *x))
        })
}

#[test]
fn new_engine_is_empty() {
    let p = Pallet::new();
    assert_eq!(p.admin_account(), None);
    assert_eq!(p.admin_wallet(), None);
    assert_eq!(p.next_pool_id(), 1);
    assert!(!p.admins(ROOT));
    assert!(!p.users(ALICE));
    assert_eq!(p.pools(1), None);
    assert_eq!(p.pools(0), None);
    assert_eq!(p.user_balances(1, ALICE), 0);
    assert!(!p.registred_pairs(7, 8));
}

#[test]
fn register_admin_sets_root_wallet_and_credit() {
    let mut p = Pallet::new();
    assert_eq!(
        p.register_admin(ROOT, WALLET),
        Ok(Bootstrap {
            credit: Credit { account: WALLET, amount: 10000 },
            event: Event::AdminRegistred { admin_account: ROOT, exchange_wallet: WALLET },
        })
    );
    assert_eq!(p.admin_account(), Some(ROOT));
    assert_eq!(p.admin_wallet(), Some(WALLET));
    assert!(p.admins(ROOT));
    assert!(p.is_root(ROOT));
    assert!(!p.admins(WALLET));
}

#[test]
fn register_admin_twice_is_refused() {
    let mut p = engine();
    let before = p.clone();
    assert_eq!(p.register_admin(STRANGER, 5), Err(Error::AlreadyInitialized));
    assert_eq!(p.register_admin(ROOT, WALLET), Err(Error::AlreadyInitialized));
    assert!(same_state(&p, &before));
    assert_eq!(p.admin_account(), Some(ROOT));
}

#[test]
fn register_sub_admin_is_for_the_root_admin() {
    let mut p = engine();
    let before = p.clone();
    assert_eq!(p.register_sub_admin(SUB, STRANGER), Err(Error::PermissionDenied));
    assert_eq!(p.register_sub_admin(STRANGER, STRANGER), Err(Error::PermissionDenied));
    assert_eq!(p.register_sub_admin(ROOT, SUB), Err(Error::AlreadyRegistered));
    assert_eq!(p.register_sub_admin(ROOT, ROOT), Err(Error::AlreadyRegistered));
    assert!(same_state(&p, &before));
    assert_eq!(p.register_sub_admin(ROOT, STRANGER), Ok(Event::NewAdmin { who: STRANGER }));
    assert!(p.admins(STRANGER));
    assert!(!p.is_root(STRANGER));
}

#[test]
fn register_sub_admin_before_any_root_is_refused() {
    let mut p = Pallet::new();
    assert_eq!(p.register_sub_admin(ROOT, SUB), Err(Error::PermissionDenied));
    assert!(!p.admins(SUB));
}

#[test]
fn register_user_credits_the_bootstrap_amount() {
    let mut p = engine();
    assert_eq!(p.register_user(SUB, 55), Ok(Credit { account: 55, amount: 10000 }));
    assert!(p.users(55));
    assert_eq!(p.register_user(ROOT, 55), Err(Error::AlreadyRegistered));
    assert_eq!(p.register_user(STRANGER, 56), Err(Error::PermissionDenied));
    assert!(!p.users(56));
}

#[test]
fn register_liquidity_issues_ids_from_one() {
    let mut p = engine();
    assert_eq!(p.next_pool_id(), 2);
    assert_eq!(p.register_liquidity(SUB, 8, 9), Ok(2));
    assert_eq!(p.register_liquidity(ROOT, 1, 2), Ok(3));
    assert_eq!(p.next_pool_id(), 4);
    assert_eq!(p.pools(1), Some(pool(0, 0, 0)));
    assert_eq!(
        p.pools(2),
        Some(LiquidityPool { token1: 8, token2: 9, reserve1: 0, reserve2: 0, total_liquidity: 0 })
    );
    assert_eq!(p.pools(4), None);
    assert!(p.registred_pairs(9, 8));
    assert!(!p.registred_pairs(7, 9));
}

#[test]
fn register_liquidity_refuses_a_pair_in_either_order() {
    let mut p = engine();
    let before = p.clone();
    assert_eq!(p.register_liquidity(ROOT, 8, 7), Err(Error::AlreadyRegistered));
    assert_eq!(p.register_liquidity(ROOT, 7, 8), Err(Error::AlreadyRegistered));
    assert_eq!(p.register_liquidity(SUB, 8, 7), Err(Error::AlreadyRegistered));
    assert!(same_state(&p, &before));
    assert_eq!(p.next_pool_id(), 2);
}

#[test]
fn register_liquidity_refuses_equal_tokens() {
    let mut p = engine();
    assert_eq!(p.register_liquidity(ROOT, 5, 5), Err(Error::DuplicateToken));
    assert_eq!(p.register_liquidity(ROOT, 7, 7), Err(Error::DuplicateToken));
    assert_eq!(p.next_pool_id(), 2);
}

#[test]
fn add_liquidity_to_an_empty_pool() {
    let mut p = engine();
    assert_eq!(
        p.add_liquidity(ROOT, 1, ALICE, 1000, 1000),
        Ok(Settlement {
            first: Transfer { from: ALICE, to: WALLET, token: 7, amount: 1000 },
            second: Transfer { from: ALICE, to: WALLET, token: 8, amount: 1000 },
            event: Event::AddLiquidity {
                id: 1,
                amount: 1000,
                by: ALICE,
                token1_balance: 1000,
                token2_balance: 1000,
            },
        })
    );
    assert_eq!(p.pools(1), Some(pool(1000, 1000, 1000)));
    assert_eq!(p.user_balances(1, ALICE), 1000);
    assert_eq!(p.user_balances(1, BOB), 0);
}

#[test]
fn add_liquidity_adds_to_the_shares_held() {
    let mut p = engine();
    p.add_liquidity(ROOT, 1, ALICE, 1000, 4000).unwrap();
    p.add_liquidity(SUB, 1, BOB, 500, 2000).unwrap();
    p.add_liquidity(SUB, 1, ALICE, 250, 1000).unwrap();
    assert_eq!(p.user_balances(1, ALICE), 2500);
    assert_eq!(p.user_balances(1, BOB), 1000);
    assert_eq!(p.pools(1), Some(pool(1750, 7000, 3500)));
}

#[test]
fn add_liquidity_keeps_pools_apart() {
    let mut p = engine();
    p.register_liquidity(ROOT, 8, 9).unwrap();
    p.add_liquidity(ROOT, 2, ALICE, 16, 4).unwrap();
    assert_eq!(p.user_balances(2, ALICE), 8);
    assert_eq!(p.user_balances(1, ALICE), 0);
    assert_eq!(p.pools(1), Some(pool(0, 0, 0)));
}

#[test]
fn add_liquidity_checks_in_order() {
    let mut p = engine();
    p.add_liquidity(ROOT, 1, ALICE, 1000, 1000).unwrap();
    let before = p.clone();
    assert_eq!(p.add_liquidity(STRANGER, 9, STRANGER, 0, 0), Err(Error::PermissionDenied));
    assert_eq!(p.add_liquidity(ROOT, 9, STRANGER, 0, 0), Err(Error::AccountNotFound));
    assert_eq!(p.add_liquidity(ROOT, 9, ALICE, 0, 0), Err(Error::NotFound));
    assert_eq!(p.add_liquidity(ROOT, 0, ALICE, 5, 5), Err(Error::NotFound));
    assert_eq!(p.add_liquidity(ROOT, 1, ALICE, 0, 5), Err(Error::InsufficientBalance));
    assert_eq!(p.add_liquidity(ROOT, 1, ALICE, 100, 50), Err(Error::UnbalancedDeposit));
    assert!(same_state(&p, &before));
}

#[test]
fn add_liquidity_that_overflows_is_refused() {
    let mut p = engine();
    p.add_liquidity(ROOT, 1, ALICE, u128::MAX, u128::MAX).unwrap();
    let before = p.clone();
    assert_eq!(p.add_liquidity(ROOT, 1, BOB, 1, 1), Err(Error::StorageOverflow));
    assert!(same_state(&p, &before));
}

#[test]
fn remove_liquidity_pays_the_whole_share_and_deletes_it() {
    let mut p = engine();
    p.add_liquidity(ROOT, 1, ALICE, 1000, 4000).unwrap();
    p.add_liquidity(ROOT, 1, BOB, 500, 2000).unwrap();
    assert_eq!(
        p.remove_liquidity(SUB, 1, BOB),
        Ok(Settlement {
            first: Transfer { from: WALLET, to: BOB, token: 7, amount: 500 },
            second: Transfer { from: WALLET, to: BOB, token: 8, amount: 2000 },
            event: Event::RemoveLiquidity {
                id: 1,
                amount: 1000,
                by: BOB,
                token1_balance: 500,
                token2_balance: 2000,
            },
        })
    );
    assert_eq!(p.user_balances(1, BOB), 0);
    assert_eq!(p.user_balances(1, ALICE), 2000);
    assert_eq!(p.pools(1), Some(pool(1000, 4000, 2000)));
}

#[test]
fn remove_liquidity_without_shares_pays_nothing() {
    let mut p = engine();
    p.add_liquidity(ROOT, 1, ALICE, 1000, 4000).unwrap();
    let before = p.clone();
    let s = p.remove_liquidity(ROOT, 1, BOB).unwrap();
    assert_eq!(s.first.amount, 0);
    assert_eq!(s.second.amount, 0);
    assert!(same_state(&p, &before));
    let mut e = engine();
    let s = e.remove_liquidity(ROOT, 1, BOB).unwrap();
    assert_eq!((s.first.amount, s.second.amount), (0, 0));
}

#[test]
fn remove_liquidity_checks_in_order() {
    let mut p = engine();
    p.add_liquidity(ROOT, 1, ALICE, 1000, 1000).unwrap();
    let before = p.clone();
    assert_eq!(p.remove_liquidity(STRANGER, 9, STRANGER), Err(Error::PermissionDenied));
    assert_eq!(p.remove_liquidity(ROOT, 9, STRANGER), Err(Error::AccountNotFound));
    assert_eq!(p.remove_liquidity(ROOT, 9, ALICE), Err(Error::NotFound));
    assert!(same_state(&p, &before));
}

#[test]
fn deposit_then_removal_returns_the_deposit() {
    let mut p = engine();
    p.add_liquidity(ROOT, 1, ALICE, 3, 5).unwrap();
    let s = p.remove_liquidity(ROOT, 1, ALICE).unwrap();
    assert_eq!((s.first.amount, s.second.amount), (3, 5));
    assert_eq!(p.pools(1), Some(pool(0, 0, 0)));
    assert_eq!(p.user_balances(1, ALICE), 0);
}

#[test]
fn swap_token_prices_and_settles() {
    let mut p = engine();
    p.add_liquidity(ROOT, 1, ALICE, 1000, 1000).unwrap();
    assert_eq!(
        p.swap_token(SUB, 1, BOB, 1, 100),
        Ok(Settlement {
            first: Transfer { from: BOB, to: WALLET, token: 7, amount: 100 },
            second: Transfer { from: WALLET, to: BOB, token: 8, amount: 89 },
            event: Event::TokenSwaped {
                pool_id: 1,
                token_in: 7,
                token_out: 8,
                amount_in: 100,
                amount_out: 89,
                account: BOB,
            },
        })
    );
    assert_eq!(p.pools(1), Some(pool(1100, 911, 1000)));
    assert_eq!(p.user_balances(1, ALICE), 1000);
}

#[test]
fn swap_token_the_other_way() {
    let mut p = engine();
    p.add_liquidity(ROOT, 1, ALICE, 1000, 1000).unwrap();
    let s = p.swap_token(ROOT, 1, BOB, 2, 100).unwrap();
    assert_eq!(s.first, Transfer { from: BOB, to: WALLET, token: 8, amount: 100 });
    assert_eq!(s.second, Transfer { from: WALLET, to: BOB, token: 7, amount: 89 });
    assert_eq!(p.pools(1), Some(pool(911, 1100, 1000)));
}

#[test]
fn swap_token_checks_in_order() {
    let mut p = engine();
    p.add_liquidity(ROOT, 1, ALICE, 1000, 1000).unwrap();
    let before = p.clone();
    assert_eq!(p.swap_token(STRANGER, 9, STRANGER, 1, 0), Err(Error::PermissionDenied));
    assert_eq!(p.swap_token(ROOT, 9, STRANGER, 1, 0), Err(Error::AccountNotFound));
    assert_eq!(p.swap_token(ROOT, 9, ALICE, 1, 0), Err(Error::InsufficientBalance));
    assert_eq!(p.swap_token(ROOT, 9, ALICE, 1, 5), Err(Error::NotFound));
    assert!(same_state(&p, &before));
}

#[test]
fn swap_token_on_an_empty_pool_is_refused() {
    let mut p = engine();
    let before = p.clone();
    assert_eq!(p.swap_token(ROOT, 1, ALICE, 1, 100), Err(Error::InsufficientLiquidity));
    assert!(same_state(&p, &before));
}

#[test]
fn non_admin_is_denied_everywhere() {
    let mut p = engine();
    p.add_liquidity(ROOT, 1, ALICE, 1000, 1000).unwrap();
    let before = p.clone();
    for who in [ALICE, STRANGER, WALLET] {
        assert_eq!(p.register_sub_admin(who, 77), Err(Error::PermissionDenied));
        assert_eq!(p.register_user(who, 77), Err(Error::PermissionDenied));
        assert_eq!(p.register_liquidity(who, 1, 2), Err(Error::PermissionDenied));
        assert_eq!(p.add_liquidity(who, 1, ALICE, 10, 10), Err(Error::PermissionDenied));
        assert_eq!(p.remove_liquidity(who, 1, ALICE), Err(Error::PermissionDenied));
        assert_eq!(p.swap_token(who, 1, ALICE, 1, 10), Err(Error::PermissionDenied));
        assert_eq!(p.withdraw_token(who, ALICE, BOB, 7, 10), Err(Error::PermissionDenied));
        assert_eq!(p.add_fund(who), Err(Error::PermissionDenied));
        assert_eq!(p.transfer_token_to(who, 10, 7, BOB), Err(Error::PermissionDenied));
        assert!(same_state(&p, &before));
    }
}

#[test]
fn withdraw_token_moves_from_a_user() {
    let p = engine();
    assert_eq!(
        p.withdraw_token(SUB, ALICE, STRANGER, 7, 25),
        Ok(Transfer { from: ALICE, to: STRANGER, token: 7, amount: 25 })
    );
    assert_eq!(p.withdraw_token(ROOT, STRANGER, ALICE, 7, 25), Err(Error::AccountNotFound));
}

#[test]
fn add_fund_is_for_the_root_admin() {
    let p = engine();
    assert_eq!(p.add_fund(ROOT), Ok(Credit { account: ROOT, amount: 1_000_000_000_000_000_000 }));
    assert_eq!(p.add_fund(SUB), Err(Error::PermissionDenied));
    assert_eq!(Pallet::new().add_fund(ROOT), Err(Error::PermissionDenied));
}

#[test]
fn transfer_token_to_pays_out_of_the_wallet() {
    let p = engine();
    assert_eq!(
        p.transfer_token_to(ROOT, 40, 8, BOB),
        Ok(Payout {
            transfer: Transfer { from: WALLET, to: BOB, token: 8, amount: 40 },
            event: Event::TransferAmount { who: ROOT, to: BOB, amount: 40, token_id: 8 },
        })
    );
    assert_eq!(p.transfer_token_to(SUB, 40, 8, BOB), Err(Error::PermissionDenied));
}

#[test]
fn every_pool_stays_consistent_over_a_sequence() {
    let mut p = engine();
    p.register_liquidity(ROOT, 1, 2).unwrap();
    let check = |p: &Pallet| {
        for id in 1..p.next_pool_id() {
            let x = p.pools(id).unwrap();
            assert_eq!(x.reserve1 == 0, x.total_liquidity == 0);
            assert_eq!(x.reserve2 == 0, x.total_liquidity == 0);
        }
    };
    check(&p);
    p.add_liquidity(ROOT, 1, ALICE, 10, 1000).unwrap();
    check(&p);
    p.add_liquidity(ROOT, 1, BOB, 20, 2000).unwrap();
    check(&p);
    p.swap_token(ROOT, 1, BOB, 1, 7).unwrap();
    check(&p);
    p.swap_token(ROOT, 1, ALICE, 2, 700).unwrap();
    check(&p);
    p.remove_liquidity(ROOT, 1, ALICE).unwrap();
    check(&p);
    p.remove_liquidity(ROOT, 1, BOB).unwrap();
    check(&p);
    assert_eq!(p.pools(1), Some(pool(0, 0, 0)));
}
