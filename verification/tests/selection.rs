use dpos::selection::{is_epoch_boundary, rank_by_stake, select_authorities};
use dpos::{AccountId, AccountMap, Balance, Config, Pallet, SessionKey};

fn account(tag: u8) -> AccountId {
    AccountId::new([tag; 32])
}

fn session_key(tag: u8) -> SessionKey {
    let mut bytes = [0xaa_u8; 32];
    bytes[0] = tag;
    SessionKey::new(bytes)
}

fn config(max_authorities: u32) -> Config {
    Config {
        epoch: 32,
        minimum_nominator_stake: 10_000,
        minimum_validator_stake: 10_000,
        max_authorities,
        pallet_id: *b"pal_dpos",
    }
}

/// A ledger with the validators 1, 2 and 3, registered in that order.
fn three_validators(max_authorities: u32) -> Pallet {
    let mut pallet = Pallet::new(config(max_authorities));
    for tag in 1..=3_u8 {
        assert!(pallet.register_validator(account(tag), session_key(tag), 10_000, Ok(())).is_ok());
    }
    pallet
}

fn back(pallet: &mut Pallet, nominator: u8, nominee: u8, stake: Balance) {
    assert!(pallet.nominate(account(nominator), account(nominee), stake, Ok(())).is_ok());
}

#[test]
fn epoch_boundary_with_epoch_of_32() {
    for block in 0..200_u64 {
        let expected = block >= 1 && (block - 1) % 32 == 0;
        assert_eq!(is_epoch_boundary(block, 32), expected, "block {}", block);
    }
    assert!(!is_epoch_boundary(0, 32));
    assert!(is_epoch_boundary(1, 32));
    assert!(!is_epoch_boundary(2, 32));
    assert!(!is_epoch_boundary(32, 32));
    assert!(is_epoch_boundary(33, 32));
    assert!(!is_epoch_boundary(34, 32));
    assert!(is_epoch_boundary(65, 32));
}

#[test]
fn epoch_boundary_at_the_ends_of_the_range() {
    assert!(!is_epoch_boundary(0, 32));
    assert!(!is_epoch_boundary(0, 7));
    assert!(!is_epoch_boundary(0, 2));
    assert!(!is_epoch_boundary(0, u64::MAX));
    assert!(is_epoch_boundary(0, 1));
    assert!(is_epoch_boundary(5, 1));
    assert!(!is_epoch_boundary(u64::MAX, 32));
    assert!(is_epoch_boundary(u64::MAX, u64::MAX - 1));
    assert!(!is_epoch_boundary(u64::MAX, u64::MAX));
}

#[test]
fn hook_returns_a_set_only_at_epoch_boundaries() {
    let mut pallet = three_validators(32);
    back(&mut pallet, 10, 1, 10_000);
    assert_eq!(pallet.on_initialize(0), None);
    for block in 2..=32_u64 {
        assert_eq!(pallet.on_initialize(block), None);
    }
    assert_eq!(pallet.on_initialize(1), Some(vec![session_key(1)]));
    assert_eq!(pallet.on_initialize(33), Some(vec![session_key(1)]));
    assert_eq!(pallet.on_initialize(34), None);
}

#[test]
fn hook_does_not_change_the_ledger() {
    let mut pallet = three_validators(32);
    back(&mut pallet, 10, 2, 10_000);
    let before = pallet.clone();
    let _ = pallet.on_initialize(1);
    let _ = pallet.on_initialize(2);
    assert_eq!(pallet, before);
}

#[test]
fn authorities_are_ranked_by_descending_stake() {
    let mut pallet = three_validators(32);
    back(&mut pallet, 10, 1, 10_000);
    back(&mut pallet, 11, 2, 30_000);
    back(&mut pallet, 12, 3, 20_000);
    assert_eq!(
        pallet.on_initialize(1),
        Some(vec![session_key(2), session_key(3), session_key(1)])
    );
}

#[test]
fn equal_stakes_keep_the_order_of_first_stake() {
    let mut pallet = three_validators(32);
    back(&mut pallet, 10, 2, 10_000);
    back(&mut pallet, 11, 1, 10_000);
    back(&mut pallet, 12, 3, 50_000);
    assert_eq!(
        pallet.on_initialize(33),
        Some(vec![session_key(3), session_key(2), session_key(1)])
    );
}

#[test]
fn authorities_are_cut_to_the_capacity() {
    let mut pallet = three_validators(2);
    back(&mut pallet, 10, 1, 10_000);
    back(&mut pallet, 11, 2, 30_000);
    back(&mut pallet, 12, 3, 20_000);
    assert_eq!(pallet.on_initialize(1), Some(vec![session_key(2), session_key(3)]));

    let mut none = three_validators(0);
    back(&mut none, 10, 1, 10_000);
    assert_eq!(none.on_initialize(1), Some(vec![]));
}

#[test]
fn validators_without_a_nomination_are_not_selected() {
    let pallet = three_validators(32);
    assert_eq!(pallet.on_initialize(1), Some(vec![]));
    assert_eq!(pallet.validators_totals(account(1)), 0);
}

#[test]
fn chained_stake_counts_in_the_ranking() {
    let mut pallet = three_validators(32);
    back(&mut pallet, 10, 1, 15_000);
    back(&mut pallet, 11, 2, 20_000);
    assert_eq!(pallet.on_initialize(1), Some(vec![session_key(2), session_key(1)]));
    back(&mut pallet, 12, 10, 10_000);
    assert_eq!(pallet.validators_totals(account(1)), 25_000);
    assert_eq!(pallet.on_initialize(1), Some(vec![session_key(1), session_key(2)]));
}

#[test]
fn rank_by_stake_is_a_stable_descending_sort() {
    let mut stakes: AccountMap<Balance> = AccountMap::new();
    stakes.insert(account(1), 5);
    stakes.insert(account(2), 9);
    stakes.insert(account(3), 5);
    stakes.insert(account(4), 0);
    stakes.insert(account(5), 9);
    stakes.insert(account(6), u128::MAX);
    assert_eq!(
        rank_by_stake(&stakes),
        vec![
            (account(6), u128::MAX),
            (account(2), 9),
            (account(5), 9),
            (account(1), 5),
            (account(3), 5),
            (account(4), 0),
        ]
    );
    let empty: AccountMap<Balance> = AccountMap::new();
    assert_eq!(rank_by_stake(&empty), vec![]);
}

#[test]
fn stakes_of_unregistered_accounts_are_dropped() {
    let mut validators: AccountMap<SessionKey> = AccountMap::new();
    validators.insert(account(1), session_key(1));
    validators.insert(account(3), session_key(3));
    let mut stakes: AccountMap<Balance> = AccountMap::new();
    stakes.insert(account(1), 10);
    stakes.insert(account(2), 30);
    stakes.insert(account(3), 20);
    assert_eq!(select_authorities(&validators, &stakes, 32), vec![session_key(3), session_key(1)]);
    assert_eq!(select_authorities(&validators, &stakes, 1), vec![session_key(3)]);
    assert_eq!(select_authorities(&validators, &stakes, 2), vec![session_key(3), session_key(1)]);
}
