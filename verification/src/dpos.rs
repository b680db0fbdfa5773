//! The interface of a delegated proof of stake system that manages
//! validators, and its implementation by the stake ledger.
use vstd::prelude::*;
use crate::account_map::{has_key, position};
use crate::pallet::{
    ledger_after_nomination, ledger_after_registration, nomination_outcome, registration_outcome,
    Error, Event, Pallet, TransferError,
};
use crate::types::{AccountId, Balance, SessionKey};

verus! {

/// The two commands of a delegated proof of stake system. Each takes the
/// outcome of the transfer that moved the stake into escrow.
pub trait DPoS {
    /// Identifies nominators and validators alike.
    type AccountId;

    /// Measures stake.
    type Balance;

    /// The key under which a validator takes part in consensus.
    type SessionKey;

    /// The invariant that the commands need and keep.
    spec fn valid(&self) -> bool;

    /// Registers `account_id` as a validator.
    fn register_validator(
        &mut self,
        account_id: Self::AccountId,
        session_key: Self::SessionKey,
        stake: Self::Balance,
        escrow: Result<(), TransferError>,
    ) -> (outcome: Result<Event, Error>)
        requires
            old(self).valid(),
        ensures
            final(self).valid(),
    ;

    /// Nominates a validator with some stake, or another nominator, in
    /// which case the stake is chained to the validator that it backs.
    fn nominate(
        &mut self,
        nominator_id: Self::AccountId,
        nominee_id: Self::AccountId,
        stake: Self::Balance,
        escrow: Result<(), TransferError>,
    ) -> (outcome: Result<Event, Error>)
        requires
            old(self).valid(),
        ensures
            final(self).valid(),
    ;
}

impl DPoS for Pallet {
    type AccountId = AccountId;

    type Balance = Balance;

    type SessionKey = SessionKey;

    open spec fn valid(&self) -> bool {
        self.wf()
    }

    fn register_validator(
        &mut self,
        account_id: AccountId,
        session_key: SessionKey,
        stake: Balance,
        escrow: Result<(), TransferError>,
    ) -> (outcome: Result<Event, Error>)
        ensures
            outcome == registration_outcome(
                old(self)@.config,
                account_id,
                session_key,
                stake,
                escrow,
            ),
            final(self)@ == ledger_after_registration(
                old(self)@,
                account_id,
                session_key,
                stake,
                escrow,
            ),
            final(self).stake_entries() == old(self).stake_entries(),
            outcome is Err ==> *final(self) == *old(self),
    {
        Pallet::register_validator(self, account_id, session_key, stake, escrow)
    }

    fn nominate(
        &mut self,
        nominator_id: AccountId,
        nominee_id: AccountId,
        stake: Balance,
        escrow: Result<(), TransferError>,
    ) -> (outcome: Result<Event, Error>)
        ensures
            outcome == nomination_outcome(
                old(self)@,
                nominator_id,
                nominee_id,
                stake,
                escrow,
            ),
            final(self)@ == ledger_after_nomination(
                old(self)@,
                nominator_id,
                nominee_id,
                stake,
                escrow,
            ),
            outcome is Err ==> *final(self) == *old(self),
            outcome is Ok ==> {
                let (validator, total) = old(self)@.resolve(nominee_id, stake)->0;
                let before = old(self).stake_entries();
                final(self).stake_entries() == (if has_key(before, validator) {
                    before.update(position(before, validator), (validator, total))
                } else {
                    before.push((validator, total))
                })
            },
    {
        Pallet::nominate(self, nominator_id, nominee_id, stake, escrow)
    }
}

} // verus!
