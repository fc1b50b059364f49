use polymesh_sto::registry;
use polymesh_sto::registry::RegistryEntry;
use polymesh_sto::sto_capped::{Event, Module, StoError};

const OWNER: u64 = 1;
const STRANGER: u64 = 2;
const BUYER: u64 = 3;
const BENEFICIARY: u64 = 9;
const START: u64 = 100;
const END: u64 = 200;

fn registry_with_acme() -> registry::Module {
    let mut reg = registry::Module::new();
    let entry = RegistryEntry { token_type: 0, owner: OWNER };
    assert!(reg.put(b"ACME".to_vec(), &entry).is_ok());
    reg
}

/// A registry where OWNER holds ACME, and an engine with sale ACME/0:
/// cap 1000, rate 2, open from START to END.
fn launched() -> (registry::Module, Module) {
    let reg = registry_with_acme();
    let mut sto = Module::new();
    let id = sto.launch_sto(&reg, OWNER, b"ACME".to_vec(), BENEFICIARY, 1000, 2, START, END);
    assert_eq!(id, Ok(0));
    (reg, sto)
}

fn sold(sto: &Module) -> u128 {
    sto.stos_by_token(b"ACME".to_vec(), 0).unwrap().sold
}

#[test]
fn capped_sale_rejects_purchase_past_cap() {
    let (_reg, mut sto) = launched();
    let p = sto.buy_tokens(BUYER, b"ACME".to_vec(), 0, 400, START, 10_000).unwrap();
    assert_eq!(p.tokens, 800);
    assert_eq!(p.beneficiary, BENEFICIARY);
    assert!(sto.settle_purchase(&p, true, true).is_ok());
    assert_eq!(sold(&sto), 800);
    assert_eq!(
        sto.buy_tokens(BUYER, b"ACME".to_vec(), 0, 200, START, 10_000).unwrap_err(),
        StoError::CapExceeded
    );
    assert_eq!(sold(&sto), 800);
}

#[test]
fn disabled_currency_no_longer_pays() {
    let (reg, mut sto) = launched();
    let ev = sto
        .modify_allowed_tokens(&reg, OWNER, b"ACME".to_vec(), 0, b"X".to_vec(), true, START - 1)
        .unwrap();
    assert_eq!(ev, Event::ModifyAllowedTokens(b"ACME".to_vec(), b"X".to_vec(), 0, true));
    assert_eq!(sto.token_index_for_sto(b"ACME".to_vec(), 0, b"X".to_vec()), Some(1));
    assert!(sto
        .modify_allowed_tokens(&reg, OWNER, b"ACME".to_vec(), 0, b"X".to_vec(), false, START - 1)
        .is_ok());
    assert_eq!(sto.token_index_for_sto(b"ACME".to_vec(), 0, b"X".to_vec()), None);
    assert_eq!(
        sto.buy_tokens_by_erc20(BUYER, b"ACME".to_vec(), 0, 10, b"X".to_vec(), START, 1000)
            .unwrap_err(),
        StoError::CurrencyNotAllowed
    );
}

#[test]
fn sold_never_passes_cap_over_many_purchases() {
    let (_reg, mut sto) = launched();
    let mut accepted = 0;
    for _ in 0..20 {
        match sto.buy_tokens(BUYER, b"ACME".to_vec(), 0, 60, START + 1, 10_000) {
            Ok(p) => {
                assert!(sto.settle_purchase(&p, true, true).is_ok());
                accepted += 1;
            }
            Err(e) => assert_eq!(e, StoError::CapExceeded),
        }
        assert!(sold(&sto) <= 1000);
    }
    assert_eq!(accepted, 8);
    assert_eq!(sold(&sto), 960);
}

#[test]
fn sold_grows_by_tokens_bought() {
    let (_reg, mut sto) = launched();
    let mut before = sold(&sto);
    for value in [1u128, 5, 0, 17] {
        let p = sto.buy_tokens(BUYER, b"ACME".to_vec(), 0, value, START, 10_000).unwrap();
        assert!(sto.settle_purchase(&p, true, true).is_ok());
        assert_eq!(sold(&sto), before + 2 * value);
        before = sold(&sto);
    }
    assert_eq!(sto.investment_count(b"ACME".to_vec(), 0), 4);
    let inv = sto.investment(b"acme".to_vec(), 0, 3).unwrap();
    assert_eq!(inv.investor, BUYER);
    assert_eq!(inv.amount_payed, 17);
    assert_eq!(inv.tokens_purchased, 34);
    assert_eq!(inv.purchase_date, START);
    assert_eq!(sto.investment(b"ACME".to_vec(), 0, 4), None);
}

#[test]
fn purchases_outside_window_are_refused() {
    let (reg, mut sto) = launched();
    assert!(sto
        .modify_allowed_tokens(&reg, OWNER, b"ACME".to_vec(), 0, b"X".to_vec(), true, 0)
        .is_ok());
    for now in [0, START - 1, END + 1, u64::MAX] {
        assert_eq!(
            sto.buy_tokens(BUYER, b"ACME".to_vec(), 0, 1, now, 10).unwrap_err(),
            StoError::NotOpen
        );
        assert_eq!(
            sto.buy_tokens_by_erc20(BUYER, b"ACME".to_vec(), 0, 1, b"X".to_vec(), now, 10)
                .unwrap_err(),
            StoError::NotOpen
        );
    }
    assert!(sto.buy_tokens(BUYER, b"ACME".to_vec(), 0, 1, START, 10).is_ok());
    assert!(sto.buy_tokens(BUYER, b"ACME".to_vec(), 0, 1, END, 10).is_ok());
    assert_eq!(sold(&sto), 0);
}

#[test]
fn enabling_twice_is_no_change() {
    let (reg, mut sto) = launched();
    assert!(sto
        .modify_allowed_tokens(&reg, OWNER, b"ACME".to_vec(), 0, b"X".to_vec(), true, 0)
        .is_ok());
    assert_eq!(
        sto.modify_allowed_tokens(&reg, OWNER, b"ACME".to_vec(), 0, b"x".to_vec(), true, 0),
        Err(StoError::NoChange)
    );
    assert!(sto
        .modify_allowed_tokens(&reg, OWNER, b"ACME".to_vec(), 0, b"X".to_vec(), false, 0)
        .is_ok());
    assert_eq!(
        sto.modify_allowed_tokens(&reg, OWNER, b"ACME".to_vec(), 0, b"X".to_vec(), false, 0),
        Err(StoError::NoChange)
    );
    assert_eq!(sto.tokens_count_for_sto(b"ACME".to_vec(), 0), 0);
}

#[test]
fn failed_payment_commits_nothing() {
    let (_reg, mut sto) = launched();
    let p = sto.buy_tokens(BUYER, b"ACME".to_vec(), 0, 100, START, 10_000).unwrap();
    assert_eq!(sto.settle_purchase(&p, true, false), Err(StoError::PaymentFailed));
    assert_eq!(sold(&sto), 0);
    assert_eq!(sto.settle_purchase(&p, false, true), Err(StoError::MintFailed));
    assert_eq!(sold(&sto), 0);
    assert_eq!(sto.investment_count(b"ACME".to_vec(), 0), 0);
}

#[test]
fn non_owner_cannot_launch_or_edit() {
    let (reg, mut sto) = launched();
    assert_eq!(
        sto.launch_sto(&reg, STRANGER, b"ACME".to_vec(), STRANGER, 5, 1, 0, 10),
        Err(StoError::Unauthorized)
    );
    assert_eq!(sto.sto_count(b"ACME".to_vec()), 1);
    assert_eq!(
        sto.modify_allowed_tokens(&reg, STRANGER, b"ACME".to_vec(), 0, b"X".to_vec(), true, 0),
        Err(StoError::Unauthorized)
    );
    assert_eq!(sto.token_index_for_sto(b"ACME".to_vec(), 0, b"X".to_vec()), None);
    assert_eq!(
        sto.launch_sto(&reg, OWNER, b"NOBODY".to_vec(), OWNER, 5, 1, 0, 10),
        Err(StoError::Unauthorized)
    );
    assert_eq!(sto.sto_count(b"NOBODY".to_vec()), 0);
}

#[test]
fn sale_ids_count_up_per_ticker() {
    let mut reg = registry_with_acme();
    assert!(reg.put(b"BETA".to_vec(), &RegistryEntry { token_type: 0, owner: OWNER }).is_ok());
    let mut sto = Module::new();
    assert_eq!(sto.launch_sto(&reg, OWNER, b"acme".to_vec(), 1, 10, 1, 0, 5), Ok(0));
    assert_eq!(sto.launch_sto(&reg, OWNER, b"ACME".to_vec(), 1, 20, 1, 0, 5), Ok(1));
    assert_eq!(sto.launch_sto(&reg, OWNER, b"beta".to_vec(), 1, 30, 1, 0, 5), Ok(0));
    assert_eq!(sto.sto_count(b"Acme".to_vec()), 2);
    assert_eq!(sto.sto_count(b"BETA".to_vec()), 1);
    let s = sto.stos_by_token(b"ACME".to_vec(), 1).unwrap();
    assert_eq!((s.cap, s.sold, s.rate, s.active), (20, 0, 1, true));
    assert_eq!(sto.stos_by_token(b"ACME".to_vec(), 2), None);
    assert_eq!(sto.stos_by_token(b"BETA".to_vec(), 0).unwrap().cap, 30);
}

#[test]
fn owner_check_ignores_case() {
    let reg = registry_with_acme();
    assert!(Module::is_owner(&reg, b"acme".to_vec(), OWNER));
    assert!(!Module::is_owner(&reg, b"ACME".to_vec(), STRANGER));
    assert!(!Module::is_owner(&reg, b"OTHER".to_vec(), OWNER));
}

#[test]
fn missing_sale_is_not_found() {
    let (reg, mut sto) = launched();
    assert_eq!(
        sto.buy_tokens(BUYER, b"ACME".to_vec(), 5, 1, START, 10).unwrap_err(),
        StoError::NotFound
    );
    assert_eq!(
        sto.modify_allowed_tokens(&reg, OWNER, b"ACME".to_vec(), 5, b"X".to_vec(), true, 0),
        Err(StoError::NotFound)
    );
}

#[test]
fn allow_list_changes_only_before_start() {
    let (reg, mut sto) = launched();
    assert_eq!(
        sto.modify_allowed_tokens(&reg, OWNER, b"ACME".to_vec(), 0, b"X".to_vec(), true, START),
        Err(StoError::AlreadyStarted)
    );
    assert_eq!(sto.tokens_count_for_sto(b"ACME".to_vec(), 0), 0);
}

#[test]
fn purchase_needs_funds() {
    let (_reg, sto) = launched();
    assert_eq!(
        sto.buy_tokens(BUYER, b"ACME".to_vec(), 0, 11, START, 10).unwrap_err(),
        StoError::InsufficientFunds
    );
    assert!(sto.buy_tokens(BUYER, b"ACME".to_vec(), 0, 10, START, 10).is_ok());
}

#[test]
fn token_amount_overflow_is_refused() {
    let (_reg, sto) = launched();
    assert_eq!(
        sto.buy_tokens(BUYER, b"ACME".to_vec(), 0, u128::MAX, START, u128::MAX).unwrap_err(),
        StoError::Overflow
    );
}

#[test]
fn sold_overflow_is_refused() {
    let reg = registry_with_acme();
    let mut sto = Module::new();
    assert_eq!(sto.launch_sto(&reg, OWNER, b"ACME".to_vec(), 1, u128::MAX, 1, 0, 10), Ok(0));
    let half = 1u128 << 127;
    let p = sto.buy_tokens(BUYER, b"ACME".to_vec(), 0, half, 0, u128::MAX).unwrap();
    assert!(sto.settle_purchase(&p, true, true).is_ok());
    assert_eq!(
        sto.buy_tokens(BUYER, b"ACME".to_vec(), 0, half, 0, u128::MAX).unwrap_err(),
        StoError::Overflow
    );
    assert_eq!(sto.settle_purchase(&p, true, true), Err(StoError::Overflow));
}

#[test]
fn settlement_checks_cap_again() {
    let (_reg, mut sto) = launched();
    let p1 = sto.buy_tokens(BUYER, b"ACME".to_vec(), 0, 300, START, 10_000).unwrap();
    let p2 = sto.buy_tokens(BUYER, b"ACME".to_vec(), 0, 300, START, 10_000).unwrap();
    assert!(sto.settle_purchase(&p1, true, true).is_ok());
    assert_eq!(sto.settle_purchase(&p2, true, true), Err(StoError::CapExceeded));
    assert_eq!(sold(&sto), 600);
}

#[test]
fn removing_a_currency_compacts_positions() {
    let (reg, mut sto) = launched();
    for c in [b"A".to_vec(), b"B".to_vec(), b"C".to_vec()] {
        assert!(sto.modify_allowed_tokens(&reg, OWNER, b"ACME".to_vec(), 0, c, true, 0).is_ok());
    }
    assert_eq!(sto.token_index_for_sto(b"ACME".to_vec(), 0, b"c".to_vec()), Some(3));
    assert!(sto
        .modify_allowed_tokens(&reg, OWNER, b"ACME".to_vec(), 0, b"A".to_vec(), false, 0)
        .is_ok());
    assert_eq!(sto.tokens_count_for_sto(b"ACME".to_vec(), 0), 2);
    assert_eq!(sto.allowed_tokens(b"ACME".to_vec(), 0, 1), Some(b"B".to_vec()));
    assert_eq!(sto.allowed_tokens(b"ACME".to_vec(), 0, 2), Some(b"C".to_vec()));
    assert_eq!(sto.allowed_tokens(b"ACME".to_vec(), 0, 3), None);
    assert_eq!(sto.allowed_tokens(b"ACME".to_vec(), 0, 0), None);
    assert_eq!(sto.token_index_for_sto(b"ACME".to_vec(), 0, b"A".to_vec()), None);
    assert_eq!(sto.token_index_for_sto(b"ACME".to_vec(), 0, b"C".to_vec()), Some(2));
    assert!(sto.modify_allowed_tokens(&reg, OWNER, b"ACME".to_vec(), 0, b"D".to_vec(), true, 0).is_ok());
    assert_eq!(sto.token_index_for_sto(b"ACME".to_vec(), 0, b"D".to_vec()), Some(3));
}

#[test]
fn purchase_in_allowed_currency() {
    let (reg, mut sto) = launched();
    assert!(sto
        .modify_allowed_tokens(&reg, OWNER, b"ACME".to_vec(), 0, b"usd".to_vec(), true, 0)
        .is_ok());
    assert_eq!(
        sto.buy_tokens_by_erc20(BUYER, b"ACME".to_vec(), 0, 50, b"USD".to_vec(), START, 49)
            .unwrap_err(),
        StoError::InsufficientFunds
    );
    let p = sto
        .buy_tokens_by_erc20(BUYER, b"acme".to_vec(), 0, 50, b"USD".to_vec(), START, 50)
        .unwrap();
    assert_eq!(p.tokens, 100);
    assert_eq!(p.currency, Some(b"USD".to_vec()));
    assert_eq!(p.ticker, b"ACME".to_vec());
    let ev = sto.settle_purchase(&p, true, true).unwrap();
    assert_eq!(ev, Event::Invested(b"ACME".to_vec(), 0, BUYER, 50, 100));
    assert_eq!(sold(&sto), 100);
}
