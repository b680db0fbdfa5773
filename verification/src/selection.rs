//! Choosing the next authority set: the test for an epoch boundary, the
//! ranking of the recorded stakes, and the cut to the capacity of the
//! consensus layer.
//!
//! Validators are ranked by stake, highest first. Validators with equal
//! stake keep the order in which they first received a stake.
use vstd::prelude::*;
use crate::account_map::AccountMap;
use crate::types::{AccountId, Balance, BlockNumber, SessionKey};

verus! {

/// A validator and the stake recorded for it.
pub type StakeEntry = (AccountId, Balance);

/// Whether the block before `block_number` was the last of an epoch of
/// `epoch` blocks: whether `block_number - 1`, taken as an integer, is a
/// multiple of the epoch length. Block 0 has no block before it, so no
/// boundary falls on it unless every block is one (an epoch of one block).
pub open spec fn spec_is_epoch_boundary(block_number: BlockNumber, epoch: BlockNumber) -> bool
    recommends
        epoch > 0,
{
    (block_number - 1) % (epoch as int) == 0
}

/// Whether a new authority set is due at `block_number`.
pub fn is_epoch_boundary(block_number: BlockNumber, epoch: BlockNumber) -> (due: bool)
    requires
        epoch > 0,
    ensures
        due == spec_is_epoch_boundary(block_number, epoch),
{
    if block_number == 0 {
        proof {
            lemma_no_boundary_before_the_first_block(epoch);
        }
        epoch == 1
    } else {
        (block_number - 1) % epoch == 0
    }
}

/// Block 0 is a boundary only where the epoch is one block long.
pub proof fn lemma_no_boundary_before_the_first_block(epoch: BlockNumber)
    requires
        epoch > 0,
    ensures
        spec_is_epoch_boundary(0, epoch) <==> epoch == 1,
{
    if epoch > 1 {
        assert((0 - 1) % (epoch as int) == epoch - 1) by (nonlinear_arith)
            requires
                epoch > 1,
        ;
    }
}

/// The stakes fall from the front of `ranking` to its back.
pub open spec fn descending(ranking: Seq<StakeEntry>) -> bool {
    forall|i: int, j: int|
        0 <= i < j < ranking.len() ==> (#[trigger] ranking[i]).1 >= (#[trigger] ranking[j]).1
}

/// Whether `slot` is where an entry with `stake` enters `ranking`: behind
/// every entry with at least that stake, in front of the first with less.
pub open spec fn is_slot(ranking: Seq<StakeEntry>, stake: Balance, slot: int) -> bool {
    &&& 0 <= slot <= ranking.len()
    &&& forall|j: int| 0 <= j < slot ==> (#[trigger] ranking[j]).1 >= stake
    &&& slot < ranking.len() ==> ranking[slot].1 < stake
}

/// The place where an entry with `stake` enters `ranking`.
pub open spec fn slot_for(ranking: Seq<StakeEntry>, stake: Balance) -> int {
    choose|slot: int| is_slot(ranking, stake, slot)
}

/// The entries ordered by stake, highest first; entries with equal stake
/// stay in the order in which they stand in `entries`.
pub open spec fn ranked(entries: Seq<StakeEntry>) -> Seq<StakeEntry>
    decreases entries.len(),
{
    if entries.len() == 0 {
        Seq::empty()
    } else {
        let rest = ranked(entries.drop_last());
        rest.insert(slot_for(rest, entries.last().1), entries.last())
    }
}

/// The test that keeps the entries of registered validators.
pub open spec fn is_registered(validators: Map<AccountId, SessionKey>) -> spec_fn(
    StakeEntry,
) -> bool {
    |entry: StakeEntry| validators.contains_key(entry.0)
}

/// The session key under which the validator of an entry is registered.
pub open spec fn session_key_of(validators: Map<AccountId, SessionKey>) -> spec_fn(
    StakeEntry,
) -> SessionKey {
    |entry: StakeEntry| validators[entry.0]
}

/// The ranked entries whose validator is registered.
pub open spec fn eligible(
    validators: Map<AccountId, SessionKey>,
    entries: Seq<StakeEntry>,
) -> Seq<StakeEntry> {
    ranked(entries).filter(is_registered(validators))
}

/// The first `max_authorities` of the eligible entries, or all of them where
/// there are fewer.
pub open spec fn selected(
    validators: Map<AccountId, SessionKey>,
    entries: Seq<StakeEntry>,
    max_authorities: u32,
) -> Seq<StakeEntry> {
    let candidates = eligible(validators, entries);
    if candidates.len() <= max_authorities {
        candidates
    } else {
        candidates.take(max_authorities as int)
    }
}

/// The session keys of the selected validators, in their ranking order.
pub open spec fn next_authorities(
    validators: Map<AccountId, SessionKey>,
    entries: Seq<StakeEntry>,
    max_authorities: u32,
) -> Seq<SessionKey> {
    selected(validators, entries, max_authorities).map_values(session_key_of(validators))
}

/// There is one slot only.
pub proof fn lemma_slot_unique(ranking: Seq<StakeEntry>, stake: Balance, slot: int)
    requires
        is_slot(ranking, stake, slot),
    ensures
        slot_for(ranking, stake) == slot,
{
    let other = slot_for(ranking, stake);
    assert(is_slot(ranking, stake, other));
    if other < slot {
        assert(ranking[other].1 >= stake);
    } else if slot < other {
        assert(ranking[slot].1 >= stake);
    }
}

/// Every ranking has a slot for every stake.
pub proof fn lemma_slot_exists(ranking: Seq<StakeEntry>, stake: Balance) -> (slot: int)
    ensures
        is_slot(ranking, stake, slot),
        slot_for(ranking, stake) == slot,
    decreases ranking.len(),
{
    let slot = if ranking.len() == 0 {
        0int
    } else {
        let before = lemma_slot_exists(ranking.drop_last(), stake);
        assert forall|j: int| 0 <= j < before implies (#[trigger] ranking[j]).1 >= stake by {
            assert(ranking.drop_last()[j] == ranking[j]);
        }
        if before < ranking.len() - 1 {
            assert(ranking.drop_last()[before] == ranking[before]);
            before
        } else if ranking.last().1 >= stake {
            ranking.len() as int
        } else {
            before
        }
    };
    lemma_slot_unique(ranking, stake, slot);
    slot
}

/// Where the entry at place `i` of a ranking stood before another entry
/// entered the ranking at `slot`; meaningful for `i != slot`.
pub open spec fn place_before(slot: int, i: int) -> int {
    if i < slot {
        i
    } else {
        i - 1
    }
}

/// What an entry that enters a falling ranking at its slot leaves as it
/// was: the other entries keep their order, the stakes still fall, and the
/// new entry stands in front of no entry with the same stake.
pub proof fn lemma_entered_at_slot(
    rest: Seq<StakeEntry>,
    entry: StakeEntry,
    slot: int,
    i: int,
    j: int,
)
    requires
        descending(rest),
        is_slot(rest, entry.1, slot),
        0 <= i < j <= rest.len(),
    ensures
        ({
            let ranking = rest.insert(slot, entry);
            &&& ranking[slot] == entry
            &&& i != slot ==> ranking[i] == rest[place_before(slot, i)]
            &&& j != slot ==> ranking[j] == rest[place_before(slot, j)]
            &&& i != slot && j != slot ==> place_before(slot, i) < place_before(slot, j)
            &&& ranking[i].1 >= ranking[j].1
            &&& ranking[i].1 == ranking[j].1 ==> i != slot
        }),
{
    let ranking = rest.insert(slot, entry);
    if i == slot {
        assert(ranking[j] == rest[j - 1]);
        assert(rest[slot].1 < entry.1);
        if slot < j - 1 {
            assert(rest[slot].1 >= rest[j - 1].1);
        }
    } else if j == slot {
        assert(ranking[i] == rest[i]);
    } else {
        assert(ranking[i] == rest[place_before(slot, i)]);
        assert(ranking[j] == rest[place_before(slot, j)]);
    }
}

/// The ranking holds the same entries as the list it was made from, each as
/// often, and its stakes fall from front to back.
pub proof fn lemma_ranked_is_sorted_permutation(entries: Seq<StakeEntry>)
    ensures
        ranked(entries).len() == entries.len(),
        ranked(entries).to_multiset() == entries.to_multiset(),
        descending(ranked(entries)),
    decreases entries.len(),
{
    broadcast use vstd::seq_lib::to_multiset_build, vstd::seq_lib::to_multiset_insert;

    if entries.len() == 0 {
        assert(ranked(entries) =~= entries);
    } else {
        let rest = ranked(entries.drop_last());
        let last = entries.last();
        lemma_ranked_is_sorted_permutation(entries.drop_last());
        let slot = lemma_slot_exists(rest, last.1);
        let ranking = rest.insert(slot, last);
        assert(ranked(entries) == ranking);
        assert(entries =~= entries.drop_last().push(last));
        assert(entries.to_multiset() == entries.drop_last().to_multiset().insert(last));
        assert(ranking.to_multiset() == rest.to_multiset().insert(last));
        assert forall|i: int, j: int| 0 <= i < j < ranking.len() implies (#[trigger] ranking[i]).1
            >= (#[trigger] ranking[j]).1 by {
            lemma_entered_at_slot(rest, last, slot, i, j);
        }
    }
}

/// Every entry of the ranking is an entry of the list it was made from.
pub proof fn lemma_ranked_entries(entries: Seq<StakeEntry>, i: int)
    requires
        0 <= i < ranked(entries).len(),
    ensures
        entries.contains(ranked(entries)[i]),
{
    broadcast use vstd::seq_lib::to_multiset_contains;

    lemma_ranked_is_sorted_permutation(entries);
    let entry = ranked(entries)[i];
    assert(ranked(entries).contains(entry));
    assert(ranked(entries).to_multiset().count(entry) > 0);
}

/// The next authority set never holds more session keys than the capacity.
pub proof fn lemma_selection_is_bounded(
    validators: Map<AccountId, SessionKey>,
    entries: Seq<StakeEntry>,
    max_authorities: u32,
)
    ensures
        next_authorities(validators, entries, max_authorities).len() <= max_authorities,
        next_authorities(validators, entries, max_authorities).len() <= entries.len(),
{
    lemma_ranked_is_sorted_permutation(entries);
    ranked(entries).lemma_filter_len(is_registered(validators));
}

/// Dropping entries from a ranking leaves the stakes falling.
pub proof fn lemma_filter_keeps_descending(ranking: Seq<StakeEntry>, keep: spec_fn(StakeEntry) -> bool)
    requires
        descending(ranking),
    ensures
        descending(ranking.filter(keep)),
        forall|i: int|
            0 <= i < ranking.filter(keep).len() ==> ranking.contains(
                #[trigger] ranking.filter(keep)[i],
            ) && keep(ranking.filter(keep)[i]),
    decreases ranking.len(),
{
    reveal(Seq::filter);
    if ranking.len() > 0 {
        let front = ranking.drop_last();
        assert forall|a: int, b: int| 0 <= a < b < front.len() implies (#[trigger] front[a]).1 >= (
        #[trigger] front[b]).1 by {
            assert(ranking[a].1 >= ranking[b].1);
        }
        lemma_filter_keeps_descending(front, keep);
        let kept = front.filter(keep);
        let all = ranking.filter(keep);
        assert forall|i: int| 0 <= i < kept.len() implies ranking.contains(#[trigger] kept[i])
            && kept[i].1 >= ranking.last().1 by {
            assert(front.contains(kept[i]));
            let place = choose|place: int| 0 <= place < front.len() && front[place] == kept[i];
            assert(ranking[place] == kept[i]);
            assert(ranking[place].1 >= ranking[ranking.len() - 1].1);
        }
        assert forall|i: int| 0 <= i < all.len() implies ranking.contains(#[trigger] all[i])
            && keep(all[i]) by {
            if i < kept.len() {
                assert(all[i] == kept[i]);
            } else {
                assert(all[i] == ranking[ranking.len() - 1]);
            }
        }
        assert forall|i: int, j: int| 0 <= i < j < all.len() implies (#[trigger] all[i]).1 >= (
        #[trigger] all[j]).1 by {
            assert(all[i] == kept[i]);
            if j < kept.len() {
                assert(all[j] == kept[j]);
            } else {
                assert(all[j] == ranking.last());
            }
        }
    }
}

/// Ranks the recorded stakes: highest first, equal stakes in the order of
/// the map.
pub fn rank_by_stake(stakes: &AccountMap<Balance>) -> (ranking: Vec<StakeEntry>)
    ensures
        ranking@ == ranked(stakes.entries()),
{
    let mut ranking: Vec<StakeEntry> = Vec::new();
    let count: usize = stakes.len();
    let mut next: usize = 0;
    while next < count
        invariant
            count == stakes.entries().len(),
            next <= count,
            ranking@ == ranked(stakes.entries().take(next as int)),
        decreases count - next,
    {
        let entry: StakeEntry = stakes.entry(next);
        let mut slot: usize = 0;
        while slot < ranking.len() && ranking[slot].1 >= entry.1
            invariant
                slot <= ranking@.len(),
                forall|j: int| 0 <= j < slot ==> (#[trigger] ranking@[j]).1 >= entry.1,
            decreases ranking@.len() - slot,
        {
            slot += 1;
        }
        proof {
            lemma_slot_unique(ranking@, entry.1, slot as int);
            let taken = stakes.entries().take(next + 1);
            assert(taken.drop_last() =~= stakes.entries().take(next as int));
            assert(taken.last() == entry);
        }
        ranking.insert(slot, entry);
        next += 1;
    }
    assert(stakes.entries().take(count as int) =~= stakes.entries());
    ranking
}

/// Ranks the recorded stakes, maps the ranking to the session keys of its
/// registered validators, in order, and keeps at most `max_authorities` of
/// them.
pub fn select_authorities(
    validators: &AccountMap<SessionKey>,
    stakes: &AccountMap<Balance>,
    max_authorities: u32,
) -> (authorities: Vec<SessionKey>)
    requires
        validators.wf(),
    ensures
        authorities@ == next_authorities(validators@, stakes.entries(), max_authorities),
{
    let ranking: Vec<StakeEntry> = rank_by_stake(stakes);
    let mut authorities: Vec<SessionKey> = Vec::new();
    let mut next: usize = 0;
    while next < ranking.len()
        invariant
            validators.wf(),
            next <= ranking@.len(),
            authorities@ == ranking@.take(next as int).filter(
                is_registered(validators@),
            ).map_values(session_key_of(validators@)),
        decreases ranking@.len() - next,
    {
        let entry: StakeEntry = ranking[next];
        proof {
            let seen = ranking@.take(next as int);
            assert(ranking@.take(next + 1) =~= seen.push(entry));
            seen.lemma_filter_push(entry, is_registered(validators@));
            if validators@.contains_key(entry.0) {
                assert(seen.filter(is_registered(validators@)).push(entry).map_values(
                    session_key_of(validators@),
                ) =~= seen.filter(is_registered(validators@)).map_values(
                    session_key_of(validators@),
                ).push(validators@[entry.0]));
            }
        }
        match validators.get(&entry.0) {
            Some(session_key) => {
                authorities.push(session_key);
            },
            None => {},
        }
        next += 1;
    }
    assert(ranking@.take(ranking@.len() as int) =~= ranking@);
    authorities.truncate(max_authorities as usize);
    assert(authorities@ =~= next_authorities(validators@, stakes.entries(), max_authorities));
    authorities
}

} // verus!
