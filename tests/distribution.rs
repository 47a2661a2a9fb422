use shiba::accounting::{can_settle, transfer_owed};
use shiba::admission::check_credential;
use shiba::{
    claim, claim_with_nft, handle_claim, handle_claim_with_nft, handle_initialize,
    handle_register, initialize, register, Claim, ClaimAccount, ClaimError, ClaimWithNFT,
    CollectionRef, Distribution, Global, Initialize, Key, NftCredential, Register,
};

fn key(n: u128) -> Key {
    Key::new(0, n)
}

const MARKETING: u128 = 1;
const LP: u128 = 2;
const COLLECTION: u128 = 77;

fn setup() -> Distribution {
    Distribution::initialize(key(MARKETING), key(LP), key(COLLECTION), 254).unwrap()
}

fn credential(holder: u128) -> NftCredential {
    NftCredential {
        mint_supply: 1,
        token_account: key(holder),
        token_amount: 1,
        collection: Some(CollectionRef { verified: true, key: key(COLLECTION) }),
    }
}

#[test]
fn initialize_sets_fixed_beneficiaries() {
    let d = setup();
    let g = d.global();
    assert_eq!(g.marketing, key(MARKETING));
    assert_eq!(g.lp, key(LP));
    assert_eq!(g.collection, key(COLLECTION));
    assert_eq!(g.total_released, 0);
    assert_eq!(g.token_auth_bump, 254);
    assert_eq!(d.record(key(MARKETING)), Some(ClaimAccount { total_released: 0, shares: 3500 }));
    assert_eq!(d.record(key(LP)), Some(ClaimAccount { total_released: 0, shares: 5000 }));
    assert_eq!(d.record(key(3)), None);
}

#[test]
fn initialize_refuses_one_identity_for_both() {
    let r = Distribution::initialize(key(5), key(5), key(COLLECTION), 0);
    assert_eq!(r.err(), Some(ClaimError::AlreadyInitialized));
}

#[test]
fn end_to_end_marketing_then_liquidity() {
    let mut d = setup();
    assert_eq!(d.claim(key(MARKETING), 10_000), Ok(3500));
    assert_eq!(d.global().total_released, 3500);
    assert_eq!(d.record(key(MARKETING)).unwrap().total_released, 3500);
    assert_eq!(d.claim(key(LP), 6500), Ok(5000));
    assert_eq!(d.global().total_released, 8500);
    assert_eq!(d.record(key(LP)).unwrap().total_released, 5000);
}

#[test]
fn rounding_strands_a_single_unit() {
    let mut d = setup();
    assert_eq!(d.register(&credential(10)), Ok(()));
    assert_eq!(d.claim_with_nft(&credential(10), 1), Err(ClaimError::EmptyValue));
    assert_eq!(d.record(key(10)), Some(ClaimAccount { total_released: 0, shares: 3 }));
    assert_eq!(d.global().total_released, 0);
}

#[test]
fn register_refuses_supply_of_two() {
    let mut d = setup();
    let mut nft = credential(10);
    nft.mint_supply = 2;
    assert_eq!(d.register(&nft), Err(ClaimError::TokenNotNFT));
    assert_eq!(d.record(key(10)), None);
}

#[test]
fn register_refuses_empty_holding() {
    let mut d = setup();
    let mut nft = credential(10);
    nft.token_amount = 0;
    assert_eq!(d.register(&nft), Err(ClaimError::TokenAccountEmpty));
    assert_eq!(d.record(key(10)), None);
}

#[test]
fn register_refuses_unverified_collection() {
    let mut d = setup();
    let mut nft = credential(10);
    nft.collection = Some(CollectionRef { verified: false, key: key(COLLECTION) });
    assert_eq!(d.register(&nft), Err(ClaimError::CollectionNotVerified));
    nft.collection = None;
    assert_eq!(d.register(&nft), Err(ClaimError::CollectionNotVerified));
    assert_eq!(d.record(key(10)), None);
}

#[test]
fn register_refuses_other_collection() {
    let mut d = setup();
    let mut nft = credential(10);
    nft.collection = Some(CollectionRef { verified: true, key: key(78) });
    assert_eq!(d.register(&nft), Err(ClaimError::InvalidCollection));
    assert_eq!(d.record(key(10)), None);
}

#[test]
fn register_checks_supply_before_holding() {
    let mut d = setup();
    let nft = NftCredential {
        mint_supply: 0,
        token_account: key(10),
        token_amount: 0,
        collection: None,
    };
    assert_eq!(d.register(&nft), Err(ClaimError::TokenNotNFT));
}

#[test]
fn register_twice_is_refused() {
    let mut d = setup();
    assert_eq!(d.register(&credential(10)), Ok(()));
    assert_eq!(d.register(&credential(10)), Err(ClaimError::AlreadyRegistered));
    assert_eq!(d.record(key(10)), Some(ClaimAccount { total_released: 0, shares: 3 }));
}

#[test]
fn register_refuses_fixed_beneficiary_key() {
    let mut d = setup();
    assert_eq!(d.register(&credential(MARKETING)), Err(ClaimError::AlreadyRegistered));
}

#[test]
fn share_budget_admits_five_hundred_holders() {
    let mut d = setup();
    let mut i: u128 = 0;
    while i < 500 {
        assert_eq!(d.register(&credential(100 + i)), Ok(()));
        i += 1;
    }
    assert_eq!(d.register(&credential(1000)), Err(ClaimError::SharesExhausted));
    assert_eq!(d.record(key(1000)), None);
    assert_eq!(d.record(key(599)), Some(ClaimAccount { total_released: 0, shares: 3 }));
}

#[test]
fn second_claim_without_deposit_is_empty() {
    let mut d = setup();
    assert_eq!(d.claim(key(MARKETING), 10_000), Ok(3500));
    let before = d.record(key(MARKETING));
    assert_eq!(d.claim(key(MARKETING), 6500), Err(ClaimError::EmptyValue));
    assert_eq!(d.record(key(MARKETING)), before);
    assert_eq!(d.global().total_released, 3500);
}

#[test]
fn claim_after_new_deposit_pays_the_increase() {
    let mut d = setup();
    assert_eq!(d.claim(key(MARKETING), 10_000), Ok(3500));
    assert_eq!(d.claim(key(MARKETING), 6500 + 2000), Ok(700));
    assert_eq!(d.record(key(MARKETING)).unwrap().total_released, 4200);
    assert_eq!(d.global().total_released, 4200);
}

#[test]
fn claim_unknown_key_is_refused() {
    let mut d = setup();
    assert_eq!(d.claim(key(9), 10_000), Err(ClaimError::NotRegistered));
    assert_eq!(d.global().total_released, 0);
}

#[test]
fn claim_with_nft_rechecks_credential() {
    let mut d = setup();
    assert_eq!(d.register(&credential(10)), Ok(()));
    let mut moved = credential(10);
    moved.token_amount = 0;
    assert_eq!(d.claim_with_nft(&moved, 10_000), Err(ClaimError::TokenAccountEmpty));
    assert_eq!(d.claim_with_nft(&credential(10), 10_000), Ok(3));
    assert_eq!(d.global().total_released, 3);
}

#[test]
fn claim_with_nft_unregistered_holder() {
    let mut d = setup();
    assert_eq!(d.claim_with_nft(&credential(11), 10_000), Err(ClaimError::NotRegistered));
}

#[test]
fn ledger_total_matches_records() {
    let mut d = setup();
    assert_eq!(d.register(&credential(10)), Ok(()));
    assert_eq!(d.register(&credential(11)), Ok(()));
    assert_eq!(d.claim(key(MARKETING), 100_000), Ok(35_000));
    assert_eq!(d.claim_with_nft(&credential(10), 65_000), Ok(30));
    assert_eq!(d.claim(key(LP), 64_970), Ok(50_000));
    let sum = d.record(key(MARKETING)).unwrap().total_released
        + d.record(key(LP)).unwrap().total_released
        + d.record(key(10)).unwrap().total_released
        + d.record(key(11)).unwrap().total_released;
    assert_eq!(d.global().total_released, sum);
    assert_eq!(sum, 85_030);
}

#[test]
fn totals_never_decrease() {
    let mut d = setup();
    let mut last_total = 0;
    let mut last_marketing = 0;
    let deposits: [u64; 4] = [10, 0, 1000, 3];
    let mut vault: u64 = 0;
    for dep in deposits {
        vault += dep;
        if let Ok(amount) = d.claim(key(MARKETING), vault) {
            vault -= amount;
        }
        let total = d.global().total_released;
        let marketing = d.record(key(MARKETING)).unwrap().total_released;
        assert!(total >= last_total);
        assert!(marketing >= last_marketing);
        last_total = total;
        last_marketing = marketing;
    }
    assert_eq!(last_marketing, 354);
}

#[test]
fn entitlements_stay_within_deposits() {
    let mut d = setup();
    let mut holder: u128 = 0;
    while holder < 500 {
        assert_eq!(d.register(&credential(100 + holder)), Ok(()));
        holder += 1;
    }
    // All weights sum to the denominator: 9999 units deposited.
    let mut vault: u64 = 9999;
    vault -= d.claim(key(MARKETING), vault).unwrap();
    vault -= d.claim(key(LP), vault).unwrap();
    let mut paid_to_holders: u64 = 0;
    let mut h: u128 = 0;
    while h < 500 {
        if let Ok(amount) = d.claim_with_nft(&credential(100 + h), vault) {
            vault -= amount;
            paid_to_holders += amount;
        }
        h += 1;
    }
    assert_eq!(d.record(key(MARKETING)).unwrap().total_released, 3499);
    assert_eq!(d.record(key(LP)).unwrap().total_released, 4999);
    assert_eq!(paid_to_holders, 1000);
    let released = d.global().total_released;
    assert!(released <= 9999);
    assert!(9999 - released <= 502);
    assert_eq!(vault, 9999 - released);
}

#[test]
fn transfer_owed_exact_amounts() {
    let mut g = Global {
        marketing: key(1),
        lp: key(2),
        collection: key(3),
        total_released: 0,
        token_auth_bump: 0,
    };
    let mut a = ClaimAccount::new(3500);
    assert_eq!(transfer_owed(&mut g, &mut a, 10_000), Ok(3500));
    assert_eq!(g.total_released, 3500);
    assert_eq!(a.total_released, 3500);
    let mut c = ClaimAccount::new(3);
    assert_eq!(transfer_owed(&mut g, &mut c, 6501), Ok(3));
    assert_eq!(g.total_released, 3503);
    assert_eq!(transfer_owed(&mut g, &mut c, 6498), Err(ClaimError::EmptyValue));
    assert_eq!(g.total_released, 3503);
    assert_eq!(c.total_released, 3);
}

#[test]
fn transfer_owed_refuses_when_record_ahead() {
    let mut g = Global {
        marketing: key(1),
        lp: key(2),
        collection: key(3),
        total_released: 0,
        token_auth_bump: 0,
    };
    let mut a = ClaimAccount { total_released: 500, shares: 3500 };
    assert_eq!(transfer_owed(&mut g, &mut a, 1000), Err(ClaimError::EmptyValue));
    assert_eq!(a.total_released, 500);
}

#[test]
fn can_settle_detects_overflow() {
    let g = Global {
        marketing: key(1),
        lp: key(2),
        collection: key(3),
        total_released: u64::MAX - 5,
        token_auth_bump: 0,
    };
    assert!(!can_settle(&g, &ClaimAccount::new(1), 10));
    let g2 = Global { total_released: 0, ..g };
    assert!(!can_settle(&g2, &ClaimAccount::new(3500), u64::MAX / 1000));
    assert!(can_settle(&g2, &ClaimAccount::new(3500), 10_000));
    let d = setup();
    assert!(d.can_claim(key(MARKETING), 10_000));
    assert!(!d.can_claim(key(MARKETING), u64::MAX));
    assert!(d.can_claim(key(9), u64::MAX));
}

#[test]
fn check_credential_outcomes() {
    assert_eq!(check_credential(&credential(4), key(COLLECTION)), Ok(()));
    assert_eq!(check_credential(&credential(4), key(5)), Err(ClaimError::InvalidCollection));
}

#[test]
fn claim_account_initialize_resets() {
    let mut a = ClaimAccount { total_released: 42, shares: 9 };
    a.initialize(3);
    assert_eq!(a, ClaimAccount { total_released: 0, shares: 3 });
}

#[test]
fn entry_points_follow_the_handlers() {
    let ctx = Initialize {
        marketing: key(MARKETING),
        lp: key(LP),
        collection_address: key(COLLECTION),
        token_auth_bump: 1,
    };
    let mut d = initialize(&ctx).unwrap();
    let mut e = handle_initialize(&ctx).unwrap();
    assert_eq!(register(&mut d, &Register { nft: credential(10) }), Ok(()));
    assert_eq!(handle_register(&mut e, &Register { nft: credential(10) }), Ok(()));
    let c = Claim { signer: key(LP), vault_balance: 20_000 };
    assert_eq!(claim(&mut d, &c), Ok(10_000));
    assert_eq!(handle_claim(&mut e, &c), Ok(10_000));
    let n = ClaimWithNFT { nft: credential(10), vault_balance: 10_000 };
    assert_eq!(claim_with_nft(&mut d, &n), Ok(6));
    assert_eq!(handle_claim_with_nft(&mut e, &n), Ok(6));
    assert_eq!(d.global(), e.global());
    let bad = Initialize { lp: key(MARKETING), ..ctx };
    assert_eq!(initialize(&bad).err(), Some(ClaimError::AlreadyInitialized));
}
