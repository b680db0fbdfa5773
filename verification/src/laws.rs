//! Laws of the ledger, stated over its model and proved from the
//! definitions that the contracts of the commands use.
use vstd::prelude::*;
use crate::account_map::{entries_to_map, keys_distinct, lemma_entry_in_map, position};
use crate::model::{
    lemma_more_hops_change_nothing, lemma_reaches_within_the_count, lemma_reaching_resolves,
    lemma_resolved_is_validator, lemma_resolved_reaches, saturating_sum, Ledger,
};
use crate::pallet::{
    ledger_after_nomination, ledger_after_registration, nomination_outcome, registration_outcome,
    restorable, Error, Event, Pallet, TransferError,
};
use crate::selection::{
    descending, eligible, is_registered, lemma_filter_keeps_descending,
    lemma_entered_at_slot, lemma_no_boundary_before_the_first_block, lemma_ranked_entries,
    lemma_ranked_is_sorted_permutation, lemma_slot_exists, next_authorities, place_before, ranked,
    selected, spec_is_epoch_boundary, StakeEntry,
};
use crate::types::{AccountId, Balance, BlockNumber, Config, SessionKey};

verus! {

/// A registration succeeds exactly if the stake reaches the validator
/// minimum and the escrow service carried out the transfer.
pub proof fn law_registration_needs_minimum_stake(
    config: Config,
    account_id: AccountId,
    session_key: SessionKey,
    stake: Balance,
    escrow: Result<(), TransferError>,
)
    ensures
        registration_outcome(config, account_id, session_key, stake, escrow) is Ok <==> stake
            >= config.minimum_validator_stake && escrow is Ok,
{
}

/// A nomination of oneself never succeeds. With a stake that reaches the
/// nominator minimum it is refused as an invalid nomination.
pub proof fn law_self_nomination_fails(
    ledger: Ledger,
    account_id: AccountId,
    stake: Balance,
    escrow: Result<(), TransferError>,
)
    ensures
        nomination_outcome(ledger, account_id, account_id, stake, escrow) is Err,
        ledger_after_nomination(ledger, account_id, account_id, stake, escrow) == ledger,
        stake >= ledger.config.minimum_nominator_stake ==> nomination_outcome(
            ledger,
            account_id,
            account_id,
            stake,
            escrow,
        ) == Err::<Event, Error>(Error::InvalidNomination),
{
}

/// A nomination of an account that is neither a validator nor a nominator
/// never succeeds. With a stake that reaches the nominator minimum it is
/// refused as an invalid nomination.
pub proof fn law_unknown_nominee_fails(
    ledger: Ledger,
    nominator_id: AccountId,
    nominee_id: AccountId,
    stake: Balance,
    escrow: Result<(), TransferError>,
)
    requires
        !ledger.validators.contains_key(nominee_id),
        !ledger.nominations.contains_key(nominee_id),
    ensures
        nomination_outcome(ledger, nominator_id, nominee_id, stake, escrow) is Err,
        ledger_after_nomination(ledger, nominator_id, nominee_id, stake, escrow) == ledger,
        stake >= ledger.config.minimum_nominator_stake ==> nomination_outcome(
            ledger,
            nominator_id,
            nominee_id,
            stake,
            escrow,
        ) == Err::<Event, Error>(Error::InvalidNomination),
{
}

/// A nomination succeeds exactly if the stake reaches the nominator
/// minimum, the nominee is another account, the escrow service carried out
/// the transfer, and the chain behind the nominee resolves. Where every
/// nomination backs a validator, the chain resolves exactly if the nominee is
/// a validator or a nominator.
pub proof fn law_nomination_succeeds_exactly_when_valid(
    ledger: Ledger,
    nominator_id: AccountId,
    nominee_id: AccountId,
    stake: Balance,
    escrow: Result<(), TransferError>,
)
    requires
        ledger.is_finite(),
    ensures
        nomination_outcome(ledger, nominator_id, nominee_id, stake, escrow) is Ok <==> {
            &&& stake >= ledger.config.minimum_nominator_stake
            &&& nominator_id != nominee_id
            &&& escrow is Ok
            &&& ledger.resolve(nominee_id, stake) is Some
        },
        ledger.resolve(nominee_id, stake) is Some ==> ledger.is_known(nominee_id),
        ledger.chains_resolved() ==> (ledger.resolve(nominee_id, stake) is Some
            <==> ledger.is_known(nominee_id)),
{
    if ledger.chains_resolved() {
        law_chain_resolves_in_one_step(ledger, nominee_id, stake);
    }
}

/// After a nominator backs a registered validator directly, the stake of
/// the validator is the stake of the nomination, and the nomination is
/// recorded with that validator and that stake.
pub proof fn law_direct_nomination(
    ledger: Ledger,
    nominator_id: AccountId,
    validator_id: AccountId,
    stake: Balance,
)
    requires
        ledger.validators.contains_key(validator_id),
        nominator_id != validator_id,
        stake >= ledger.config.minimum_nominator_stake,
    ensures
        ({
            let after = ledger_after_nomination(
                ledger,
                nominator_id,
                validator_id,
                stake,
                Ok(()),
            );
            &&& nomination_outcome(ledger, nominator_id, validator_id, stake, Ok(()))
                == Ok::<Event, Error>(
                Event::NewNomination { nominator_id, nominee_id: validator_id, stake },
            )
            &&& after.stake_of(validator_id) == stake
            &&& after.nominations.contains_key(nominator_id)
            &&& after.nominations[nominator_id] == (validator_id, stake)
            &&& after.validators == ledger.validators
        }),
{
}

/// A chain of two nominations: after `first` backs the validator with
/// `first_stake` and `second` backs `first` with `second_stake`, the
/// nomination of `second` is recorded against the validator with
/// `second_stake`, and the stake of the validator is the sum of both stakes
/// (held at the largest balance). `first` must not itself be a validator:
/// a nomination of a validator stops there.
pub proof fn law_chained_nomination(
    ledger: Ledger,
    validator_id: AccountId,
    first: AccountId,
    first_stake: Balance,
    second: AccountId,
    second_stake: Balance,
)
    requires
        ledger.is_finite(),
        ledger.validators.contains_key(validator_id),
        !ledger.validators.contains_key(first),
        first != validator_id,
        second != first,
        first_stake >= ledger.config.minimum_nominator_stake,
        second_stake >= ledger.config.minimum_nominator_stake,
    ensures
        ({
            let middle = ledger_after_nomination(
                ledger,
                first,
                validator_id,
                first_stake,
                Ok(()),
            );
            let after = ledger_after_nomination(middle, second, first, second_stake, Ok(()));
            &&& nomination_outcome(middle, second, first, second_stake, Ok(())) is Ok
            &&& after.nominations.contains_key(second)
            &&& after.nominations[second] == (validator_id, second_stake)
            &&& after.stake_of(validator_id) == saturating_sum(second_stake, first_stake)
            &&& first_stake + second_stake <= Balance::MAX ==> after.stake_of(validator_id)
                == first_stake + second_stake
        }),
{
    let middle = ledger_after_nomination(ledger, first, validator_id, first_stake, Ok(()));
    assert(middle.nominations.contains_key(first));
    assert(middle.nominations[first] == (validator_id, first_stake));
    assert(!middle.validators.contains_key(first));
    assert(middle.resolve_chain(validator_id, saturating_sum(second_stake, first_stake), 0)
        == Some((validator_id, saturating_sum(second_stake, first_stake))));
    law_hop_limit_is_enough(middle, first, second_stake, 1);
}

/// A chain of two stored nominations: where `first` backs `second`, `second`
/// backs a validator, and neither is a validator itself, a stake added at
/// `first` arrives at that validator with the stakes of both nominators
/// added.
pub proof fn law_two_nominations_are_followed(
    ledger: Ledger,
    first: AccountId,
    second: AccountId,
    validator_id: AccountId,
    stake: Balance,
)
    requires
        ledger.is_finite(),
        !ledger.validators.contains_key(first),
        !ledger.validators.contains_key(second),
        ledger.validators.contains_key(validator_id),
        ledger.nominations.contains_key(first),
        ledger.nominations[first].0 == second,
        ledger.nominations.contains_key(second),
        ledger.nominations[second].0 == validator_id,
    ensures
        ledger.resolve(first, stake) == Some(
            (
                validator_id,
                saturating_sum(
                    saturating_sum(stake, ledger.nominations[first].1),
                    ledger.nominations[second].1,
                ),
            ),
        ),
{
    let at_second = saturating_sum(stake, ledger.nominations[first].1);
    let at_validator = saturating_sum(at_second, ledger.nominations[second].1);
    assert(ledger.resolve_chain(validator_id, at_validator, 0) == Some(
        (validator_id, at_validator),
    ));
    assert(ledger.resolve_chain(second, at_second, 1) == Some((validator_id, at_validator)));
    assert(ledger.resolve_chain(first, stake, 2) == Some((validator_id, at_validator)));
    law_hop_limit_is_enough(ledger, first, stake, 2);
}

/// The hop limit loses nothing: a chain that reaches a validator within any
/// number of hops resolves, to that validator and with the stakes of all the
/// nominators on it.
pub proof fn law_hop_limit_is_enough(ledger: Ledger, target: AccountId, stake: Balance, hops: nat)
    requires
        ledger.is_finite(),
        ledger.resolve_chain(target, stake, hops) is Some,
    ensures
        ledger.resolve(target, stake) == ledger.resolve_chain(target, stake, hops),
{
    let nominators = ledger.nominations.dom();
    lemma_resolved_reaches(ledger, target, stake, hops);
    lemma_reaches_within_the_count(ledger, target, hops, nominators);
    lemma_reaching_resolves(ledger, target, stake, ledger.hop_limit(), nominators);
    if hops <= ledger.hop_limit() {
        lemma_more_hops_change_nothing(ledger, target, stake, hops, ledger.hop_limit());
    } else {
        lemma_more_hops_change_nothing(ledger, target, stake, ledger.hop_limit(), hops);
    }
}

/// A resolution ends at a registered validator, and a greater hop limit
/// would not change what it gives.
pub proof fn law_resolution_ends_at_a_validator(
    ledger: Ledger,
    target: AccountId,
    stake: Balance,
    more: nat,
)
    requires
        ledger.resolve(target, stake) is Some,
        ledger.hop_limit() <= more,
    ensures
        ({
            let (validator, _) = ledger.resolve(target, stake)->0;
            ledger.validators.contains_key(validator)
        }),
        ledger.resolve_chain(target, stake, more) == ledger.resolve(target, stake),
{
    lemma_resolved_is_validator(ledger, target, stake, ledger.hop_limit());
    lemma_more_hops_change_nothing(ledger, target, stake, ledger.hop_limit(), more);
}

/// A stake below the minimum is refused as an insufficient balance, by
/// either command, and the ledger stays as it was.
pub proof fn law_insufficient_stake_changes_nothing(
    ledger: Ledger,
    caller: AccountId,
    nominee_id: AccountId,
    session_key: SessionKey,
    stake: Balance,
    escrow: Result<(), TransferError>,
)
    ensures
        stake < ledger.config.minimum_validator_stake ==> {
            &&& registration_outcome(ledger.config, caller, session_key, stake, escrow) == Err::<
                Event,
                Error,
            >(Error::InsufficientBalance)
            &&& ledger_after_registration(ledger, caller, session_key, stake, escrow)
                == ledger
        },
        stake < ledger.config.minimum_nominator_stake ==> {
            &&& nomination_outcome(ledger, caller, nominee_id, stake, escrow) == Err::<
                Event,
                Error,
            >(Error::InsufficientBalance)
            &&& ledger_after_nomination(ledger, caller, nominee_id, stake, escrow)
                == ledger
        },
{
}

/// A command that fails leaves the ledger as it was. A nomination that
/// succeeds is recorded against a registered validator, and both commands
/// keep every nomination backed by a registered validator where that held
/// before.
pub proof fn law_commands_keep_chains_resolved(
    ledger: Ledger,
    caller: AccountId,
    nominee_id: AccountId,
    session_key: SessionKey,
    stake: Balance,
    escrow: Result<(), TransferError>,
)
    ensures
        registration_outcome(ledger.config, caller, session_key, stake, escrow) is Err
            ==> ledger_after_registration(ledger, caller, session_key, stake, escrow)
            == ledger,
        nomination_outcome(ledger, caller, nominee_id, stake, escrow) is Err
            ==> ledger_after_nomination(ledger, caller, nominee_id, stake, escrow)
            == ledger,
        nomination_outcome(ledger, caller, nominee_id, stake, escrow) is Ok ==> ({
            let after = ledger_after_nomination(ledger, caller, nominee_id, stake, escrow);
            after.validators.contains_key(after.nominations[caller].0)
        }),
        ledger.chains_resolved() ==> ledger_after_registration(
            ledger,
            caller,
            session_key,
            stake,
            escrow,
        ).chains_resolved(),
        ledger.chains_resolved() ==> ledger_after_nomination(
            ledger,
            caller,
            nominee_id,
            stake,
            escrow,
        ).chains_resolved(),
{
    let registered = ledger_after_registration(ledger, caller, session_key, stake, escrow);
    let nominated = ledger_after_nomination(ledger, caller, nominee_id, stake, escrow);
    if nomination_outcome(ledger, caller, nominee_id, stake, escrow) is Ok {
        lemma_resolved_is_validator(ledger, nominee_id, stake, ledger.hop_limit());
    }
    if ledger.chains_resolved() {
        assert forall|nominator: AccountId| #[trigger]
            registered.nominations.contains_key(
                nominator,
            ) implies registered.validators.contains_key(registered.nominations[nominator].0) by {
            assert(ledger.nominations.contains_key(nominator));
        }
        assert forall|nominator: AccountId| #[trigger]
            nominated.nominations.contains_key(
                nominator,
            ) implies nominated.validators.contains_key(nominated.nominations[nominator].0) by {
            if nominator != caller {
                assert(ledger.nominations.contains_key(nominator));
            }
        }
    }
}

/// A new authority set is due exactly at the blocks whose number less one
/// is a multiple of the epoch length, and at no other block. With an epoch
/// of 32 blocks it is due at block 1 and at block 33, at no block in
/// between, and not at block 0.
pub proof fn law_epoch_boundary(block_number: BlockNumber, epoch: BlockNumber)
    requires
        epoch > 0,
    ensures
        spec_is_epoch_boundary(block_number, epoch) <==> (block_number - 1) % (epoch as int) == 0,
        spec_is_epoch_boundary(block_number, 32) <==> (block_number - 1) % 32 == 0,
        spec_is_epoch_boundary(block_number, 32) <==> block_number >= 1 && (block_number - 1) as nat
            % 32 == 0,
        1 < block_number < 33 ==> !spec_is_epoch_boundary(block_number, 32),
        !spec_is_epoch_boundary(0, 32),
        spec_is_epoch_boundary(1, 32),
        spec_is_epoch_boundary(33, 32),
        spec_is_epoch_boundary(0, epoch) <==> epoch == 1,
{
    lemma_no_boundary_before_the_first_block(epoch);
}

/// The next authority set holds at most `max_authorities` session keys. It
/// is the list of the session keys of the selected entries; each selected
/// entry is a recorded stake of a registered validator, and the stakes of
/// the selected entries fall from front to back.
pub proof fn law_authorities_bounded_and_ranked(
    validators: Map<AccountId, SessionKey>,
    entries: Seq<StakeEntry>,
    max_authorities: u32,
)
    ensures
        ({
            let chosen = selected(validators, entries, max_authorities);
            let authorities = next_authorities(validators, entries, max_authorities);
            &&& authorities.len() <= max_authorities
            &&& authorities.len() <= entries.len()
            &&& authorities.len() == chosen.len()
            &&& descending(chosen)
            &&& forall|i: int|
                0 <= i < chosen.len() ==> {
                    &&& entries.contains(#[trigger] chosen[i])
                    &&& validators.contains_key(chosen[i].0)
                    &&& authorities[i] == validators[chosen[i].0]
                }
        }),
{
    let ranking = ranked(entries);
    let candidates = eligible(validators, entries);
    let chosen = selected(validators, entries, max_authorities);
    lemma_ranked_is_sorted_permutation(entries);
    lemma_filter_keeps_descending(ranking, is_registered(validators));
    ranking.lemma_filter_len(is_registered(validators));
    assert forall|i: int| 0 <= i < chosen.len() implies entries.contains(#[trigger] chosen[i])
        && validators.contains_key(chosen[i].0) by {
        assert(chosen[i] == candidates[i]);
        assert(ranking.contains(candidates[i]));
        let place = choose|place: int| 0 <= place < ranking.len() && ranking[place]
            == candidates[i];
        lemma_ranked_entries(entries, place);
    }
    assert forall|i: int, j: int| 0 <= i < j < chosen.len() implies (#[trigger] chosen[i]).1 >= (
    #[trigger] chosen[j]).1 by {
        assert(chosen[i] == candidates[i] && chosen[j] == candidates[j]);
    }
}

/// Where no validator has two stake entries, a selected entry carries the
/// stake that the ledger records for its validator.
pub proof fn law_selected_stakes_are_recorded(
    validators: Map<AccountId, SessionKey>,
    entries: Seq<StakeEntry>,
    max_authorities: u32,
    i: int,
)
    requires
        keys_distinct(entries),
        0 <= i < selected(validators, entries, max_authorities).len(),
    ensures
        entries_to_map(entries).contains_key(selected(validators, entries, max_authorities)[i].0),
        entries_to_map(entries)[selected(validators, entries, max_authorities)[i].0] == selected(
            validators,
            entries,
            max_authorities,
        )[i].1,
{
    law_authorities_bounded_and_ranked(validators, entries, max_authorities);
    let entry = selected(validators, entries, max_authorities)[i];
    assert(entries.contains(entry));
    let place = choose|place: int| 0 <= place < entries.len() && entries[place] == entry;
    lemma_entry_in_map(entries, place);
}

/// What a ledger hands out as its entries can be taken for a ledger again,
/// and that ledger has the same three maps.
pub proof fn law_exported_entries_restore(
    pallet: Pallet,
    validators: Seq<(AccountId, SessionKey)>,
    validator_stakes: Seq<(AccountId, Balance)>,
    nominations: Seq<(AccountId, (AccountId, Balance))>,
)
    requires
        pallet.wf(),
        keys_distinct(validators),
        entries_to_map(validators) == pallet@.validators,
        validator_stakes == pallet.stake_entries(),
        keys_distinct(nominations),
        entries_to_map(nominations) == pallet@.nominations,
    ensures
        restorable(validators, validator_stakes, nominations),
        pallet@ == (Ledger {
            config: pallet@.config,
            validators: entries_to_map(validators),
            validator_stakes: entries_to_map(validator_stakes),
            nominations: entries_to_map(nominations),
        }),
{
}

/// Where every nomination backs a validator, a resolution takes one step
/// at most: it gives the target itself where that is a validator, and the
/// validator that the target backs, with the target's stake added, where it
/// is a nominator.
pub proof fn law_chain_resolves_in_one_step(ledger: Ledger, target: AccountId, stake: Balance)
    requires
        ledger.is_finite(),
        ledger.chains_resolved(),
    ensures
        ledger.resolve(target, stake) == ledger.resolve_in_one_step(target, stake),
{
    if !ledger.validators.contains_key(target) && ledger.nominations.contains_key(target) {
        let next = ledger.nominations[target].0;
        let total = saturating_sum(stake, ledger.nominations[target].1);
        assert(ledger.validators.contains_key(next));
        assert(ledger.resolve_chain(next, total, 0) == Some((next, total)));
        law_hop_limit_is_enough(ledger, target, stake, 1);
    }
}

/// Among entries with distinct validators, equal stakes are ranked in the
/// order in which they stand in the list.
pub proof fn law_ranking_is_stable(entries: Seq<StakeEntry>)
    requires
        keys_distinct(entries),
    ensures
        forall|i: int, j: int|
            0 <= i < j < ranked(entries).len() && (#[trigger] ranked(entries)[i]).1 == (
            #[trigger] ranked(entries)[j]).1 ==> position(entries, ranked(entries)[i].0) < position(
                entries,
                ranked(entries)[j].0,
            ),
    decreases entries.len(),
{
    if entries.len() > 0 {
        let front = entries.drop_last();
        let rest = ranked(front);
        let last = entries.last();
        assert forall|a: int, b: int| 0 <= a < b < front.len() implies (#[trigger] front[a]).0 != (
        #[trigger] front[b]).0 by {
            assert(entries[a].0 != entries[b].0);
        }
        law_ranking_is_stable(front);
        lemma_ranked_is_sorted_permutation(front);
        let slot = lemma_slot_exists(rest, last.1);
        let ranking = rest.insert(slot, last);
        assert(ranked(entries) == ranking);
        lemma_entry_in_map(entries, entries.len() - 1);
        assert forall|k: int| 0 <= k < rest.len() implies position(entries, (#[trigger] rest[k]).0)
            == position(front, rest[k].0) && position(entries, rest[k].0) < entries.len() - 1 by {
            lemma_ranked_entries(front, k);
            let place = choose|place: int| 0 <= place < front.len() && front[place] == rest[k];
            lemma_entry_in_map(front, place);
            assert(entries[place] == front[place]);
            lemma_entry_in_map(entries, place);
        }
        assert forall|i: int, j: int|
            0 <= i < j < ranking.len() && (#[trigger] ranking[i]).1 == (
            #[trigger] ranking[j]).1 implies position(entries, ranking[i].0) < position(
            entries,
            ranking[j].0,
        ) by {
            lemma_entered_at_slot(rest, last, slot, i, j);
            if j != slot {
                assert(rest[place_before(slot, i)].1 == rest[place_before(slot, j)].1);
            }
        }
    }
}

} // verus!
