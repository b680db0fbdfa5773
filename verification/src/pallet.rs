//! The stake ledger and its two commands: validator registration and
//! nomination. Funds are held by an escrow service outside this crate: a
//! command first says which transfer it needs, and is then carried out with
//! the outcome of that transfer.
use vstd::prelude::*;
use sp_runtime::traits::AccountIdConversion;
use crate::account_map::{entries_to_map, has_key, keys_distinct, position, AccountMap};
use crate::model::Ledger;
use crate::selection::{
    is_epoch_boundary, lemma_selection_is_bounded, next_authorities, select_authorities,
    spec_is_epoch_boundary,
};
use crate::types::{AccountId, Balance, BlockNumber, Config, SessionKey};

verus! {

/// Why a command was refused.
#[derive(Clone, Copy, Debug, PartialEq, Eq)]
pub enum Error {
    /// The stake is below the configured minimum.
    InsufficientBalance,
    /// The nominee is the nominator itself, or is neither a validator nor a
    /// nominator, or the chain of nominations behind it reaches no validator.
    InvalidNomination,
    /// The escrow service could not move the stake.
    InsufficientFunds,
}

/// Why the escrow service did not carry out a transfer.
#[derive(Clone, Copy, Debug, PartialEq, Eq)]
pub enum TransferError {
    /// The paying account does not hold the amount.
    InsufficientFunds,
}

/// A movement of funds that the escrow service is asked to carry out.
#[derive(Clone, Copy, Debug, PartialEq, Eq)]
pub struct Transfer {
    pub from: AccountId,
    pub to: AccountId,
    pub amount: Balance,
}

/// What a command that succeeded announces.
#[derive(Clone, Copy, Debug, PartialEq, Eq)]
pub enum Event {
    /// A nomination was recorded; `nominee_id` is the validator it resolved to.
    NewNomination { nominator_id: AccountId, nominee_id: AccountId, stake: Balance },
    /// A validator was registered.
    ValidatorRegistered { account_id: AccountId, session_key: SessionKey, stake: Balance },
}

/// The bytes of the account derived from a pallet identifier: the tag `modl`,
/// the eight bytes of the identifier, then zeros up to 32 bytes.
pub open spec fn pool_account_bytes(pallet_id: Seq<u8>) -> Seq<u8> {
    seq![0x6du8, 0x6fu8, 0x64u8, 0x6cu8] + pallet_id + Seq::new(20, |i: int| 0u8)
}

/// Calls `AccountIdConversion::into_account_truncating` of sp_runtime on a
/// `frame_support::PalletId`, for the account type `AccountId32`. Trusted: the
/// result is the type tag of `PalletId` (`modl`) followed by the encoded
/// identifier and trailing zeros, which is how sp_runtime documents the format.
#[verifier::external_body]
fn pallet_id_into_account(pallet_id: &[u8; 8]) -> (account: AccountId)
    ensures
        account.bytes@ == pool_account_bytes(pallet_id@),
{
    let account: sp_runtime::AccountId32 = frame_support::PalletId(
        *pallet_id,
    ).into_account_truncating();
    AccountId { bytes: account.into() }
}

/// The error that a refused transfer turns into.
pub open spec fn transfer_failure(error: TransferError) -> Error {
    match error {
        TransferError::InsufficientFunds => Error::InsufficientFunds,
    }
}

/// Why `register_validator` refuses before any funds move, if it does.
pub open spec fn registration_refusal(config: Config, stake: Balance) -> Option<Error> {
    if stake < config.minimum_validator_stake {
        Some(Error::InsufficientBalance)
    } else {
        None
    }
}

/// Why `nominate` refuses before any funds move, if it does. The stake is
/// tested first, then self-nomination, then whether the nominee is known.
pub open spec fn nomination_refusal(
    ledger: Ledger,
    nominator_id: AccountId,
    nominee_id: AccountId,
    stake: Balance,
) -> Option<Error> {
    if stake < ledger.config.minimum_nominator_stake {
        Some(Error::InsufficientBalance)
    } else if nominator_id == nominee_id {
        Some(Error::InvalidNomination)
    } else if !ledger.is_known(nominee_id) {
        Some(Error::InvalidNomination)
    } else {
        None
    }
}

/// What `register_validator` returns.
pub open spec fn registration_outcome(
    config: Config,
    account_id: AccountId,
    session_key: SessionKey,
    stake: Balance,
    escrow: Result<(), TransferError>,
) -> Result<Event, Error> {
    match registration_refusal(config, stake) {
        Some(error) => Err(error),
        None => match escrow {
            Err(error) => Err(transfer_failure(error)),
            Ok(_) => Ok(Event::ValidatorRegistered { account_id, session_key, stake }),
        },
    }
}

/// What `nominate` returns. Where the chain behind the nominee does not
/// resolve, the nomination is refused as invalid although the transfer was
/// made: the caller has to undo it.
pub open spec fn nomination_outcome(
    ledger: Ledger,
    nominator_id: AccountId,
    nominee_id: AccountId,
    stake: Balance,
    escrow: Result<(), TransferError>,
) -> Result<Event, Error> {
    match nomination_refusal(ledger, nominator_id, nominee_id, stake) {
        Some(error) => Err(error),
        None => match escrow {
            Err(error) => Err(transfer_failure(error)),
            Ok(_) => match ledger.resolve(nominee_id, stake) {
                None => Err(Error::InvalidNomination),
                Some((validator, _)) => Ok(
                    Event::NewNomination { nominator_id, nominee_id: validator, stake },
                ),
            },
        },
    }
}

/// The ledger after `nominate`: on success the nomination is recorded under
/// the nominator and the stake of the resolved validator is set to the stake
/// that came along the chain; otherwise nothing changes.
pub open spec fn ledger_after_nomination(
    ledger: Ledger,
    nominator_id: AccountId,
    nominee_id: AccountId,
    stake: Balance,
    escrow: Result<(), TransferError>,
) -> Ledger {
    if nomination_outcome(ledger, nominator_id, nominee_id, stake, escrow) is Ok {
        let (validator, total) = ledger.resolve(nominee_id, stake)->0;
        ledger.with_nomination(nominator_id, validator, stake, total)
    } else {
        ledger
    }
}

/// The ledger after `register_validator`: on success the session key is
/// stored under the account; otherwise nothing changes.
pub open spec fn ledger_after_registration(
    ledger: Ledger,
    account_id: AccountId,
    session_key: SessionKey,
    stake: Balance,
    escrow: Result<(), TransferError>,
) -> Ledger {
    if registration_outcome(ledger.config, account_id, session_key, stake, escrow) is Ok {
        ledger.with_validator(account_id, session_key)
    } else {
        ledger
    }
}

/// Whether three lists of entries can be taken for a ledger: no list holds
/// a key twice. A nomination may back an account that is not registered as
/// a validator, or no longer.
pub open spec fn restorable(
    validators: Seq<(AccountId, SessionKey)>,
    validator_stakes: Seq<(AccountId, Balance)>,
    nominations: Seq<(AccountId, (AccountId, Balance))>,
) -> bool {
    &&& keys_distinct(validators)
    &&& keys_distinct(validator_stakes)
    &&& keys_distinct(nominations)
}

/// The stake ledger together with its configuration.
#[derive(Clone, Debug, PartialEq, Eq)]
pub struct Pallet {
    config: Config,
    validators: AccountMap<SessionKey>,
    validator_stakes: AccountMap<Balance>,
    nominations: AccountMap<(AccountId, Balance)>,
}

impl Pallet {
    /// The constants and the three maps.
    pub closed spec fn view(&self) -> Ledger {
        Ledger {
            config: self.config,
            validators: self.validators@,
            validator_stakes: self.validator_stakes@,
            nominations: self.nominations@,
        }
    }

    /// The recorded stakes in the order in which the validators first
    /// received one.
    pub closed spec fn stake_entries(&self) -> Seq<(AccountId, Balance)> {
        self.validator_stakes.entries()
    }

    /// What the representation keeps besides `wf`.
    pub closed spec fn representation_wf(&self) -> bool {
        &&& self.validators.wf()
        &&& self.validator_stakes.wf()
        &&& self.nominations.wf()
    }

    /// The invariant of the ledger: the stake entries hold each validator
    /// once and stand for the map of the stakes, and there are finitely many
    /// nominations. Whether the nominations lead to validators is no part of
    /// it.
    pub open spec fn wf(&self) -> bool {
        &&& keys_distinct(self.stake_entries())
        &&& self@.validator_stakes == entries_to_map(self.stake_entries())
        &&& self@.is_finite()
        &&& self.representation_wf()
    }

    /// An empty ledger with the constants `config`.
    pub fn new(config: Config) -> (pallet: Pallet)
        ensures
            pallet.wf(),
            pallet@ == Ledger::empty(config),
            pallet.stake_entries() == Seq::<(AccountId, Balance)>::empty(),
    {
        let pallet = Pallet {
            config,
            validators: AccountMap::new(),
            validator_stakes: AccountMap::new(),
            nominations: AccountMap::new(),
        };
        proof {
            pallet.nominations.lemma_view_len();
        }
        pallet
    }

    /// The ledger that holds the given entries, where they can be taken for
    /// one; `None` where they cannot. The stakes keep the order of
    /// `validator_stakes`.
    pub fn from_entries(
        config: Config,
        validators: Vec<(AccountId, SessionKey)>,
        validator_stakes: Vec<(AccountId, Balance)>,
        nominations: Vec<(AccountId, (AccountId, Balance))>,
    ) -> (pallet: Option<Pallet>)
        ensures
            pallet is Some <==> restorable(validators@, validator_stakes@, nominations@),
            pallet is Some ==> {
                &&& pallet->0.wf()
                &&& pallet->0.stake_entries() == validator_stakes@
                &&& pallet->0@ == (Ledger {
                    config,
                    validators: entries_to_map(validators@),
                    validator_stakes: entries_to_map(validator_stakes@),
                    nominations: entries_to_map(nominations@),
                })
            },
    {
        let validator_map = match AccountMap::from_entries(validators) {
            Some(map) => map,
            None => {
                return None;
            },
        };
        let stake_map = match AccountMap::from_entries(validator_stakes) {
            Some(map) => map,
            None => {
                return None;
            },
        };
        let nomination_map = match AccountMap::from_entries(nominations) {
            Some(map) => map,
            None => {
                return None;
            },
        };
        let pallet = Pallet {
            config,
            validators: validator_map,
            validator_stakes: stake_map,
            nominations: nomination_map,
        };
        proof {
            pallet.nominations.lemma_view_len();
        }
        Some(pallet)
    }

    /// The registered validators with their session keys, each once.
    pub fn validator_entries(&self) -> (entries: Vec<(AccountId, SessionKey)>)
        requires
            self.wf(),
        ensures
            keys_distinct(entries@),
            entries_to_map(entries@) == self@.validators,
    {
        self.validators.to_entries()
    }

    /// The recorded stakes in the order in which the validators first
    /// received one.
    pub fn validator_stake_entries(&self) -> (entries: Vec<(AccountId, Balance)>)
        ensures
            entries@ == self.stake_entries(),
    {
        self.validator_stakes.to_entries()
    }

    /// The nominations, each nominator once.
    pub fn nomination_entries(&self) -> (entries: Vec<(AccountId, (AccountId, Balance))>)
        requires
            self.wf(),
        ensures
            keys_distinct(entries@),
            entries_to_map(entries@) == self@.nominations,
    {
        self.nominations.to_entries()
    }

    /// The constants that the ledger was set up with.
    pub fn config(&self) -> (config: Config)
        ensures
            config == self@.config,
    {
        self.config
    }

    /// The session key of `account_id`, if it is a registered validator.
    pub fn validators(&self, account_id: AccountId) -> (session_key: Option<SessionKey>)
        requires
            self.wf(),
        ensures
            session_key == (if self@.validators.contains_key(account_id) {
                Some(self@.validators[account_id])
            } else {
                None
            }),
    {
        self.validators.get(&account_id)
    }

    /// The stake recorded for the validator `account_id`, zero where none is.
    pub fn validators_totals(&self, account_id: AccountId) -> (stake: Balance)
        requires
            self.wf(),
        ensures
            stake == self@.stake_of(account_id),
    {
        match self.validator_stakes.get(&account_id) {
            Some(stake) => stake,
            None => 0,
        }
    }

    /// The validator that `account_id` backs and its own stake, if it has
    /// nominated.
    pub fn nominations(&self, account_id: AccountId) -> (nomination: Option<(AccountId, Balance)>)
        requires
            self.wf(),
        ensures
            nomination == (if self@.nominations.contains_key(account_id) {
                Some(self@.nominations[account_id])
            } else {
                None
            }),
    {
        self.nominations.get(&account_id)
    }

    /// The account that holds the stakes: the one derived from the
    /// configured pallet identifier.
    pub fn pallet_account_id(&self) -> (account: AccountId)
        ensures
            account.bytes@ == pool_account_bytes(self@.config.pallet_id@),
    {
        pallet_id_into_account(&self.config.pallet_id)
    }

    /// Finds the validator at the end of the chain of nominations that starts
    /// at `nominee`, and the stake to attribute to it when `stake` is added
    /// at the start of the chain: `stake` plus the stake of every nominator on
    /// the chain. At most as many hops are followed as there are nominations.
    /// `None` where the chain leaves the ledger, or runs in a circle.
    pub fn find_nominated_validator(&self, nominee: AccountId, stake: Balance) -> (found: Option<
        (AccountId, Balance),
    >)
        requires
            self.wf(),
        ensures
            found == self@.resolve(nominee, stake),
    {
        let limit: usize = self.nominations.len();
        let mut target: AccountId = nominee;
        let mut total: Balance = stake;
        let mut hops: usize = 0;
        proof {
            self.nominations.lemma_view_len();
        }
        loop
            invariant
                self.wf(),
                limit == self@.hop_limit(),
                hops <= limit,
                self@.resolve(nominee, stake) == self@.resolve_chain(
                    target,
                    total,
                    (limit - hops) as nat,
                ),
            decreases limit - hops,
        {
            if self.validators.contains_key(&target) {
                return Some((target, total));
            }
            match self.nominations.get(&target) {
                None => {
                    return None;
                },
                Some((delegated_nominee, their_stake)) => {
                    if hops >= limit {
                        return None;
                    }
                    target = delegated_nominee;
                    total = total.saturating_add(their_stake);
                    hops += 1;
                },
            }
        }
    }

    /// The hook for the start of block `block_number`. Where the block before
    /// it closed an epoch, returns the next authority set for the consensus
    /// layer: the session keys of the registered validators with a recorded
    /// stake, highest stake first, cut to the configured capacity. Returns
    /// `None` at every other block. The ledger is not changed. The epoch
    /// must have a positive length.
    pub fn on_initialize(&self, block_number: BlockNumber) -> (next_set: Option<Vec<SessionKey>>)
        requires
            self.wf(),
            self@.config.epoch > 0,
        ensures
            next_set is Some <==> spec_is_epoch_boundary(block_number, self@.config.epoch),
            next_set is Some ==> next_set->0@ == next_authorities(
                self@.validators,
                self.stake_entries(),
                self@.config.max_authorities,
            ),
            next_set is Some ==> next_set->0@.len() <= self@.config.max_authorities,
    {
        proof {
            lemma_selection_is_bounded(
                self@.validators,
                self.stake_entries(),
                self@.config.max_authorities,
            );
        }
        if is_epoch_boundary(block_number, self.config.epoch) {
            Some(
                select_authorities(
                    &self.validators,
                    &self.validator_stakes,
                    self.config.max_authorities,
                ),
            )
        } else {
            None
        }
    }

    /// The transfer that a registration with `stake` needs, or why the
    /// registration is refused before any funds move.
    pub fn prepare_register_validator(&self, account_id: AccountId, stake: Balance) -> (plan: Result<
        Transfer,
        Error,
    >)
        ensures
            match registration_refusal(self@.config, stake) {
                Some(error) => plan == Err::<Transfer, Error>(error),
                None => plan is Ok && plan->Ok_0.from == account_id && plan->Ok_0.amount == stake
                    && plan->Ok_0.to.bytes@ == pool_account_bytes(self@.config.pallet_id@),
            },
    {
        if stake < self.config.minimum_validator_stake {
            return Err(Error::InsufficientBalance);
        }
        Ok(Transfer { from: account_id, to: self.pallet_account_id(), amount: stake })
    }

    /// The transfer that a nomination needs, or why the nomination is
    /// refused before any funds move.
    pub fn prepare_nominate(
        &self,
        nominator_id: AccountId,
        nominee_id: AccountId,
        stake: Balance,
    ) -> (plan: Result<Transfer, Error>)
        requires
            self.wf(),
        ensures
            match nomination_refusal(self@, nominator_id, nominee_id, stake) {
                Some(error) => plan == Err::<Transfer, Error>(error),
                None => plan is Ok && plan->Ok_0.from == nominator_id && plan->Ok_0.amount == stake
                    && plan->Ok_0.to.bytes@ == pool_account_bytes(self@.config.pallet_id@),
            },
    {
        match self.check_nomination(&nominator_id, &nominee_id, stake) {
            Some(error) => Err(error),
            None => Ok(
                Transfer { from: nominator_id, to: self.pallet_account_id(), amount: stake },
            ),
        }
    }

    /// The tests that a nomination must pass before any funds move.
    fn check_nomination(&self, nominator_id: &AccountId, nominee_id: &AccountId, stake: Balance) -> (refusal:
        Option<Error>)
        requires
            self.wf(),
        ensures
            refusal == nomination_refusal(
                self@,
                *nominator_id,
                *nominee_id,
                stake,
            ),
    {
        if stake < self.config.minimum_nominator_stake {
            return Some(Error::InsufficientBalance);
        }
        if *nominator_id == *nominee_id {
            return Some(Error::InvalidNomination);
        }
        if !(self.validators.contains_key(nominee_id) || self.nominations.contains_key(
            nominee_id,
        )) {
            return Some(Error::InvalidNomination);
        }
        None
    }

    /// Registers `account_id` as a validator with `session_key`, given the
    /// outcome `escrow` of the transfer that `prepare_register_validator`
    /// asked for. Registering again replaces the session key. No stake is
    /// recorded for the validator: that starts with the first nomination.
    pub fn register_validator(
        &mut self,
        account_id: AccountId,
        session_key: SessionKey,
        stake: Balance,
        escrow: Result<(), TransferError>,
    ) -> (outcome: Result<Event, Error>)
        requires
            old(self).wf(),
        ensures
            final(self).wf(),
            outcome == registration_outcome(
                old(self)@.config,
                account_id,
                session_key,
                stake,
                escrow,
            ),
            final(self)@ == ledger_after_registration(
                old(self)@,
                account_id,
                session_key,
                stake,
                escrow,
            ),
            final(self).stake_entries() == old(self).stake_entries(),
            outcome is Err ==> *final(self) == *old(self),
    {
        if stake < self.config.minimum_validator_stake {
            return Err(Error::InsufficientBalance);
        }
        match escrow {
            Err(TransferError::InsufficientFunds) => {
                return Err(Error::InsufficientFunds);
            },
            Ok(_) => {},
        }
        self.validators.insert(account_id, session_key);
        Ok(Event::ValidatorRegistered { account_id, session_key, stake })
    }

    /// Records that `nominator_id` backs `nominee_id` with `stake`, given the
    /// outcome `escrow` of the transfer that `prepare_nominate` asked for.
    /// The nomination is stored against the validator that the nominee
    /// resolves to, with the nominator's own stake; the stake of that
    /// validator is set to (not increased by) the stake along the chain.
    pub fn nominate(
        &mut self,
        nominator_id: AccountId,
        nominee_id: AccountId,
        stake: Balance,
        escrow: Result<(), TransferError>,
    ) -> (outcome: Result<Event, Error>)
        requires
            old(self).wf(),
        ensures
            final(self).wf(),
            outcome == nomination_outcome(
                old(self)@,
                nominator_id,
                nominee_id,
                stake,
                escrow,
            ),
            final(self)@ == ledger_after_nomination(
                old(self)@,
                nominator_id,
                nominee_id,
                stake,
                escrow,
            ),
            outcome is Err ==> *final(self) == *old(self),
            outcome is Ok ==> {
                let (validator, total) = old(self)@.resolve(nominee_id, stake)->0;
                let before = old(self).stake_entries();
                final(self).stake_entries() == (if has_key(before, validator) {
                    before.update(position(before, validator), (validator, total))
                } else {
                    before.push((validator, total))
                })
            },
    {
        match self.check_nomination(&nominator_id, &nominee_id, stake) {
            Some(error) => {
                return Err(error);
            },
            None => {},
        }
        match escrow {
            Err(TransferError::InsufficientFunds) => {
                return Err(Error::InsufficientFunds);
            },
            Ok(_) => {},
        }
        match self.find_nominated_validator(nominee_id, stake) {
            None => Err(Error::InvalidNomination),
            Some((validator, total_stake)) => {
                self.nominations.insert(nominator_id, (validator, stake));
                self.validator_stakes.insert(validator, total_stake);
                proof {
                    self.nominations.lemma_view_len();
                }
                Ok(Event::NewNomination { nominator_id, nominee_id: validator, stake })
            },
        }
    }
}

} // verus!
