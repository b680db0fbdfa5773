use dpos::{
    AccountId, AccountMap, Balance, Config, DPoS, Error, Event, Pallet, SessionKey, Transfer,
    TransferError,
};

fn account(tag: u8) -> AccountId {
    AccountId::new([tag; 32])
}

fn session_key(tag: u8) -> SessionKey {
    SessionKey::new([tag; 32])
}

fn config() -> Config {
    Config {
        epoch: 32,
        minimum_nominator_stake: 10_000,
        minimum_validator_stake: 20_000,
        max_authorities: 32,
        pallet_id: *b"pal_dpos",
    }
}

fn pool_account() -> AccountId {
    let mut bytes = [0_u8; 32];
    bytes[..4].copy_from_slice(b"modl");
    bytes[4..12].copy_from_slice(b"pal_dpos");
    AccountId::new(bytes)
}

fn with_validator() -> Pallet {
    let mut pallet = Pallet::new(config());
    assert!(pallet.register_validator(account(1), session_key(1), 20_000, Ok(())).is_ok());
    pallet
}

#[test]
fn pool_account_is_derived_from_the_pallet_identifier() {
    let pallet = Pallet::new(config());
    assert_eq!(pallet.pallet_account_id(), pool_account());
    assert_eq!(
        pallet.pallet_account_id().bytes,
        [
            0x6d, 0x6f, 0x64, 0x6c, 0x70, 0x61, 0x6c, 0x5f, 0x64, 0x70, 0x6f, 0x73, 0, 0, 0, 0, 0,
            0, 0, 0, 0, 0, 0, 0, 0, 0, 0, 0, 0, 0, 0, 0
        ]
    );
    let other = Pallet::new(Config { pallet_id: [1, 2, 3, 4, 5, 6, 7, 8], ..config() });
    assert_eq!(&other.pallet_account_id().bytes[4..12], &[1, 2, 3, 4, 5, 6, 7, 8]);
    assert_eq!(&other.pallet_account_id().bytes[..4], b"modl");
    assert_eq!(&other.pallet_account_id().bytes[12..], &[0_u8; 20]);
}

#[test]
fn a_new_ledger_is_empty() {
    let pallet = Pallet::new(config());
    assert_eq!(pallet.config(), config());
    assert_eq!(pallet.validators(account(1)), None);
    assert_eq!(pallet.validators_totals(account(1)), 0);
    assert_eq!(pallet.nominations(account(1)), None);
    assert_eq!(pallet.find_nominated_validator(account(1), 5), None);
}

#[test]
fn registration_needs_exactly_the_minimum() {
    let mut pallet = Pallet::new(config());
    assert_eq!(
        pallet.prepare_register_validator(account(1), 19_999),
        Err(Error::InsufficientBalance)
    );
    assert_eq!(
        pallet.prepare_register_validator(account(1), 20_000),
        Ok(Transfer { from: account(1), to: pool_account(), amount: 20_000 })
    );
    let before = pallet.clone();
    assert_eq!(
        pallet.register_validator(account(1), session_key(1), 19_999, Ok(())),
        Err(Error::InsufficientBalance)
    );
    assert_eq!(pallet, before);
    assert_eq!(
        pallet.register_validator(account(1), session_key(1), 20_000, Ok(())),
        Ok(Event::ValidatorRegistered {
            account_id: account(1),
            session_key: session_key(1),
            stake: 20_000
        })
    );
    assert_eq!(pallet.validators(account(1)), Some(session_key(1)));
    assert_eq!(pallet.validators_totals(account(1)), 0);
}

#[test]
fn registration_fails_when_the_transfer_failed() {
    let mut pallet = Pallet::new(config());
    let before = pallet.clone();
    assert_eq!(
        pallet.register_validator(
            account(1),
            session_key(1),
            20_000,
            Err(TransferError::InsufficientFunds)
        ),
        Err(Error::InsufficientFunds)
    );
    assert_eq!(pallet, before);
    assert_eq!(
        pallet.register_validator(
            account(1),
            session_key(1),
            5,
            Err(TransferError::InsufficientFunds)
        ),
        Err(Error::InsufficientBalance)
    );
}

#[test]
fn registering_again_replaces_the_session_key() {
    let mut pallet = with_validator();
    assert!(pallet.register_validator(account(1), session_key(9), 20_000, Ok(())).is_ok());
    assert_eq!(pallet.validators(account(1)), Some(session_key(9)));
}

#[test]
fn nomination_checks_come_in_order() {
    let mut pallet = with_validator();
    let before = pallet.clone();
    assert_eq!(
        pallet.prepare_nominate(account(2), account(2), 9_999),
        Err(Error::InsufficientBalance)
    );
    assert_eq!(
        pallet.prepare_nominate(account(2), account(2), 10_000),
        Err(Error::InvalidNomination)
    );
    assert_eq!(
        pallet.prepare_nominate(account(2), account(3), 10_000),
        Err(Error::InvalidNomination)
    );
    assert_eq!(
        pallet.prepare_nominate(account(2), account(1), 10_000),
        Ok(Transfer { from: account(2), to: pool_account(), amount: 10_000 })
    );
    assert_eq!(
        pallet.nominate(account(2), account(2), 9_999, Ok(())),
        Err(Error::InsufficientBalance)
    );
    assert_eq!(
        pallet.nominate(account(1), account(1), 10_000, Ok(())),
        Err(Error::InvalidNomination)
    );
    assert_eq!(
        pallet.nominate(account(2), account(3), 10_000, Ok(())),
        Err(Error::InvalidNomination)
    );
    assert_eq!(
        pallet.nominate(account(2), account(3), 10_000, Err(TransferError::InsufficientFunds)),
        Err(Error::InvalidNomination)
    );
    assert_eq!(
        pallet.nominate(account(2), account(1), 10_000, Err(TransferError::InsufficientFunds)),
        Err(Error::InsufficientFunds)
    );
    assert_eq!(pallet, before);
}

#[test]
fn direct_nomination_sets_stake_and_record() {
    let mut pallet = with_validator();
    assert_eq!(pallet.find_nominated_validator(account(1), 12_345), Some((account(1), 12_345)));
    assert_eq!(
        pallet.nominate(account(2), account(1), 12_345, Ok(())),
        Ok(Event::NewNomination {
            nominator_id: account(2),
            nominee_id: account(1),
            stake: 12_345
        })
    );
    assert_eq!(pallet.validators_totals(account(1)), 12_345);
    assert_eq!(pallet.nominations(account(2)), Some((account(1), 12_345)));
    assert_eq!(pallet.validators(account(2)), None);
}

#[test]
fn chained_nomination_adds_the_stakes_along_the_chain() {
    let mut pallet = with_validator();
    assert!(pallet.nominate(account(2), account(1), 11_000, Ok(())).is_ok());
    assert_eq!(pallet.find_nominated_validator(account(2), 13_000), Some((account(1), 24_000)));
    assert!(pallet.nominate(account(3), account(2), 13_000, Ok(())).is_ok());
    assert_eq!(pallet.nominations(account(3)), Some((account(1), 13_000)));
    assert_eq!(pallet.validators_totals(account(1)), 24_000);
    // A third link resolves through the stored validator: only the stake of
    // the nominator that is named counts, not the whole chain behind it.
    assert!(pallet.nominate(account(4), account(3), 10_000, Ok(())).is_ok());
    assert_eq!(pallet.nominations(account(4)), Some((account(1), 10_000)));
    assert_eq!(pallet.validators_totals(account(1)), 23_000);
}

#[test]
fn a_second_direct_nomination_overwrites_the_stake() {
    let mut pallet = with_validator();
    assert!(pallet.nominate(account(2), account(1), 10_000, Ok(())).is_ok());
    assert!(pallet.nominate(account(3), account(1), 15_000, Ok(())).is_ok());
    assert_eq!(pallet.validators_totals(account(1)), 15_000);
    assert_eq!(pallet.nominations(account(2)), Some((account(1), 10_000)));
    assert_eq!(pallet.nominations(account(3)), Some((account(1), 15_000)));
}

#[test]
fn nominating_again_overwrites_the_record() {
    let mut pallet = with_validator();
    assert!(pallet.register_validator(account(5), session_key(5), 20_000, Ok(())).is_ok());
    assert!(pallet.nominate(account(2), account(1), 10_000, Ok(())).is_ok());
    assert!(pallet.nominate(account(2), account(5), 30_000, Ok(())).is_ok());
    assert_eq!(pallet.nominations(account(2)), Some((account(5), 30_000)));
    assert_eq!(pallet.validators_totals(account(1)), 10_000);
    assert_eq!(pallet.validators_totals(account(5)), 30_000);
}

#[test]
fn chained_stake_saturates() {
    let mut pallet = with_validator();
    assert!(pallet.nominate(account(2), account(1), u128::MAX - 5, Ok(())).is_ok());
    assert_eq!(pallet.find_nominated_validator(account(2), 5), Some((account(1), u128::MAX)));
    assert_eq!(pallet.find_nominated_validator(account(2), 4), Some((account(1), u128::MAX - 1)));
    assert!(pallet.nominate(account(3), account(2), 10_000, Ok(())).is_ok());
    assert_eq!(pallet.validators_totals(account(1)), u128::MAX);
    assert_eq!(pallet.nominations(account(3)), Some((account(1), 10_000)));
}

#[test]
fn a_nominator_that_is_also_a_validator_ends_the_chain() {
    let mut pallet = with_validator();
    assert!(pallet.nominate(account(2), account(1), 10_000, Ok(())).is_ok());
    assert!(pallet.register_validator(account(2), session_key(2), 20_000, Ok(())).is_ok());
    assert!(pallet.nominate(account(3), account(2), 10_000, Ok(())).is_ok());
    assert_eq!(pallet.nominations(account(3)), Some((account(2), 10_000)));
    assert_eq!(pallet.validators_totals(account(2)), 10_000);
    assert_eq!(pallet.validators_totals(account(1)), 10_000);
}

#[test]
fn commands_through_the_trait() {
    let mut pallet = Pallet::new(config());
    assert_eq!(
        <Pallet as DPoS>::register_validator(
            &mut pallet,
            account(1),
            session_key(1),
            20_000,
            Ok(())
        ),
        Ok(Event::ValidatorRegistered {
            account_id: account(1),
            session_key: session_key(1),
            stake: 20_000
        })
    );
    assert_eq!(
        <Pallet as DPoS>::nominate(&mut pallet, account(2), account(1), 10_000, Ok(())),
        Ok(Event::NewNomination {
            nominator_id: account(2),
            nominee_id: account(1),
            stake: 10_000
        })
    );
    assert_eq!(
        <Pallet as DPoS>::nominate(&mut pallet, account(2), account(2), 10_000, Ok(())),
        Err(Error::InvalidNomination)
    );
    assert_eq!(pallet.validators_totals(account(1)), 10_000);
}

#[test]
fn account_map_keeps_insertion_order() {
    let mut map: AccountMap<Balance> = AccountMap::new();
    assert_eq!(map.len(), 0);
    assert_eq!(map.get(&account(1)), None);
    map.insert(account(1), 10);
    map.insert(account(2), 20);
    map.insert(account(1), 30);
    assert_eq!(map.len(), 2);
    assert_eq!(map.entry(0), (account(1), 30));
    assert_eq!(map.entry(1), (account(2), 20));
    assert_eq!(map.get(&account(2)), Some(20));
    assert_eq!(map.find(&account(2)), Some(1));
    assert_eq!(map.find(&account(3)), None);
    assert!(map.contains_key(&account(1)));
    assert!(!map.contains_key(&account(3)));
}

#[test]
fn accounts_compare_by_their_bytes() {
    let mut bytes = [7_u8; 32];
    assert_eq!(AccountId::new(bytes), account(7));
    bytes[31] = 8;
    assert_ne!(AccountId::new(bytes), account(7));
    assert_ne!(SessionKey::new(bytes), session_key(7));
    assert!(dpos::types::bytes_equal(&[3_u8; 32], &[3_u8; 32]));
    assert!(!dpos::types::bytes_equal(&bytes, &[7_u8; 32]));
}

#[test]
fn a_ledger_is_restored_from_its_entries() {
    let mut pallet = with_validator();
    assert!(pallet.register_validator(account(5), session_key(5), 20_000, Ok(())).is_ok());
    assert!(pallet.nominate(account(2), account(5), 10_000, Ok(())).is_ok());
    assert!(pallet.nominate(account(3), account(1), 40_000, Ok(())).is_ok());
    assert_eq!(
        pallet.validator_entries(),
        vec![(account(1), session_key(1)), (account(5), session_key(5))]
    );
    assert_eq!(
        pallet.validator_stake_entries(),
        vec![(account(5), 10_000), (account(1), 40_000)]
    );
    assert_eq!(
        pallet.nomination_entries(),
        vec![(account(2), (account(5), 10_000)), (account(3), (account(1), 40_000))]
    );
    let restored = Pallet::from_entries(
        config(),
        pallet.validator_entries(),
        pallet.validator_stake_entries(),
        pallet.nomination_entries(),
    );
    assert_eq!(restored, Some(pallet));
}

#[test]
fn entries_that_are_no_ledger_are_refused() {
    let validators = vec![(account(1), session_key(1)), (account(2), session_key(2))];
    let stakes = vec![(account(1), 10_000_u128)];
    let nominations = vec![(account(3), (account(1), 10_000_u128))];
    assert!(Pallet::from_entries(config(), validators.clone(), stakes.clone(), nominations.clone())
        .is_some());
    assert!(Pallet::from_entries(config(), vec![], vec![], vec![]).is_some());
    assert_eq!(
        Pallet::from_entries(
            config(),
            vec![(account(1), session_key(1)), (account(1), session_key(2))],
            stakes.clone(),
            nominations.clone()
        ),
        None
    );
    assert_eq!(
        Pallet::from_entries(
            config(),
            validators.clone(),
            vec![(account(1), 1), (account(2), 2), (account(1), 3)],
            nominations.clone()
        ),
        None
    );
    assert_eq!(
        Pallet::from_entries(
            config(),
            validators.clone(),
            stakes.clone(),
            vec![(account(3), (account(1), 5)), (account(3), (account(2), 5))]
        ),
        None
    );
    assert!(Pallet::from_entries(
        config(),
        validators.clone(),
        stakes.clone(),
        vec![(account(3), (account(4), 10_000))]
    )
    .is_some());
    assert_eq!(AccountMap::from_entries(vec![(account(1), 1_u128), (account(1), 2)]), None);
    let map = AccountMap::from_entries(vec![(account(2), 1_u128), (account(1), 2)]).unwrap();
    assert_eq!(map.to_entries(), vec![(account(2), 1), (account(1), 2)]);
}

#[test]
fn a_restored_ledger_ranks_in_the_order_of_its_stake_entries() {
    let validators = vec![
        (account(1), session_key(1)),
        (account(2), session_key(2)),
        (account(3), session_key(3)),
    ];
    let stakes = vec![(account(3), 7_u128), (account(1), 7), (account(4), 100), (account(2), 8)];
    let pallet = Pallet::from_entries(config(), validators, stakes, vec![]).unwrap();
    assert_eq!(
        pallet.on_initialize(1),
        Some(vec![session_key(2), session_key(3), session_key(1)])
    );
    assert_eq!(pallet.validators_totals(account(4)), 100);
    assert_eq!(pallet.on_initialize(2), None);
}

/// A ledger in which 11 backs 12, 12 backs 13 and 13 backs the validator 1,
/// and in which 21 backs 22, an account that is neither validator nor
/// nominator.
fn with_long_chains() -> Pallet {
    Pallet::from_entries(
        config(),
        vec![(account(1), session_key(1))],
        vec![(account(1), 40_000)],
        vec![
            (account(13), (account(1), 300)),
            (account(12), (account(13), 20)),
            (account(11), (account(12), 1)),
            (account(21), (account(22), 5)),
        ],
    )
    .unwrap()
}

#[test]
fn a_chain_of_stored_nominations_is_followed_to_its_validator() {
    let pallet = with_long_chains();
    assert_eq!(pallet.find_nominated_validator(account(1), 7_000), Some((account(1), 7_000)));
    assert_eq!(pallet.find_nominated_validator(account(13), 7_000), Some((account(1), 7_300)));
    assert_eq!(pallet.find_nominated_validator(account(12), 7_000), Some((account(1), 7_320)));
    assert_eq!(pallet.find_nominated_validator(account(11), 7_000), Some((account(1), 7_321)));
    assert_eq!(pallet.find_nominated_validator(account(11), u128::MAX - 20), Some((account(1), u128::MAX)));
}

#[test]
fn a_chain_that_leaves_the_ledger_does_not_resolve() {
    let mut pallet = with_long_chains();
    assert_eq!(pallet.find_nominated_validator(account(22), 7_000), None);
    assert_eq!(pallet.find_nominated_validator(account(21), 7_000), None);
    let before = pallet.clone();
    assert!(pallet.prepare_nominate(account(30), account(21), 10_000).is_ok());
    assert_eq!(
        pallet.nominate(account(30), account(21), 10_000, Ok(())),
        Err(Error::InvalidNomination)
    );
    assert_eq!(pallet, before);
}

#[test]
fn a_chain_that_runs_in_a_circle_does_not_resolve() {
    let mut pallet = Pallet::from_entries(
        config(),
        vec![(account(1), session_key(1))],
        vec![],
        vec![
            (account(11), (account(12), 1)),
            (account(12), (account(11), 2)),
            (account(13), (account(13), 3)),
        ],
    )
    .unwrap();
    assert_eq!(pallet.find_nominated_validator(account(11), 10_000), None);
    assert_eq!(pallet.find_nominated_validator(account(12), 10_000), None);
    assert_eq!(pallet.find_nominated_validator(account(13), 10_000), None);
    let before = pallet.clone();
    assert_eq!(
        pallet.nominate(account(30), account(11), 10_000, Ok(())),
        Err(Error::InvalidNomination)
    );
    assert_eq!(pallet, before);
}

#[test]
fn a_nomination_through_a_long_chain_is_recorded_against_its_validator() {
    let mut pallet = with_long_chains();
    assert_eq!(
        pallet.nominate(account(30), account(11), 10_000, Ok(())),
        Ok(Event::NewNomination {
            nominator_id: account(30),
            nominee_id: account(1),
            stake: 10_000
        })
    );
    assert_eq!(pallet.nominations(account(30)), Some((account(1), 10_000)));
    assert_eq!(pallet.validators_totals(account(1)), 10_321);
    assert_eq!(pallet.find_nominated_validator(account(30), 5), Some((account(1), 10_005)));
}
