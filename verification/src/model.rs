//! The mathematical model of the stake ledger: three finite maps, the
//! resolution of a nomination target to its backing validator, and the effect
//! of the two commands on the maps.
use vstd::prelude::*;
use crate::types::{AccountId, Balance, Config, SessionKey};

verus! {

/// The sum of two stakes, held at the largest balance instead of wrapping.
pub open spec fn saturating_sum(a: Balance, b: Balance) -> Balance {
    if a + b > Balance::MAX {
        Balance::MAX
    } else {
        (a + b) as Balance
    }
}

/// The ledger: its constants and its three maps.
pub struct Ledger {
    /// The constants that the ledger was set up with.
    pub config: Config,
    /// The session key of every registered validator.
    pub validators: Map<AccountId, SessionKey>,
    /// The stake attributed to a validator by the latest nomination that
    /// resolved to it.
    pub validator_stakes: Map<AccountId, Balance>,
    /// For every nominator, the validator it backs and its own stake.
    pub nominations: Map<AccountId, (AccountId, Balance)>,
}

impl Ledger {
    /// The ledger with no validator and no nomination.
    pub open spec fn empty(config: Config) -> Ledger {
        Ledger {
            config,
            validators: Map::empty(),
            validator_stakes: Map::empty(),
            nominations: Map::empty(),
        }
    }

    /// Every nomination backs a registered validator.
    pub open spec fn chains_resolved(self) -> bool {
        forall|nominator: AccountId| #[trigger]
            self.nominations.contains_key(nominator) ==> self.validators.contains_key(
                self.nominations[nominator].0,
            )
    }

    /// The stake recorded for `validator`, zero where none is recorded.
    pub open spec fn stake_of(self, validator: AccountId) -> Balance {
        if self.validator_stakes.contains_key(validator) {
            self.validator_stakes[validator]
        } else {
            0
        }
    }

    /// Whether `target` may be nominated: it is a validator or a nominator.
    pub open spec fn is_known(self, target: AccountId) -> bool {
        self.validators.contains_key(target) || self.nominations.contains_key(target)
    }

    /// The ledger holds finitely many nominations.
    pub open spec fn is_finite(self) -> bool {
        self.nominations.dom().finite()
    }

    /// The most hops that a resolution follows: the number of nominations.
    /// No chain that ends at a validator is longer.
    pub open spec fn hop_limit(self) -> nat {
        self.nominations.len()
    }

    /// Follows nominations from `target` for at most `hops` steps, adding the
    /// stake of every nominator passed, until a validator is reached.
    pub open spec fn resolve_chain(self, target: AccountId, stake: Balance, hops: nat) -> Option<
        (AccountId, Balance),
    >
        decreases hops,
    {
        if self.validators.contains_key(target) {
            Some((target, stake))
        } else if self.nominations.contains_key(target) && hops > 0 {
            self.resolve_chain(
                self.nominations[target].0,
                saturating_sum(stake, self.nominations[target].1),
                (hops - 1) as nat,
            )
        } else {
            None
        }
    }

    /// The validator at the end of the chain of nominations that starts at
    /// `target`, and `stake` plus the stakes of the nominators on the chain.
    /// `None` where the chain leaves the ledger or does not reach a validator
    /// within the hop limit.
    pub open spec fn resolve(self, target: AccountId, stake: Balance) -> Option<
        (AccountId, Balance),
    > {
        self.resolve_chain(target, stake, self.hop_limit())
    }

    /// What a resolution gives where every nomination backs a validator: the
    /// target itself with `stake` where it is a validator; else, where it is
    /// a nominator, the validator it backs with `stake` plus its own stake.
    pub open spec fn resolve_in_one_step(self, target: AccountId, stake: Balance) -> Option<
        (AccountId, Balance),
    > {
        if self.validators.contains_key(target) {
            Some((target, stake))
        } else if self.nominations.contains_key(target) {
            Some(
                (self.nominations[target].0, saturating_sum(stake, self.nominations[target].1)),
            )
        } else {
            None
        }
    }

    /// The ledger after `account` registered with `session_key`.
    pub open spec fn with_validator(self, account: AccountId, session_key: SessionKey) -> Ledger {
        Ledger { validators: self.validators.insert(account, session_key), ..self }
    }

    /// The ledger after `nominator` backed `validator` with `stake`, and the
    /// stake of `validator` was set to `total`.
    pub open spec fn with_nomination(
        self,
        nominator: AccountId,
        validator: AccountId,
        stake: Balance,
        total: Balance,
    ) -> Ledger {
        Ledger {
            validator_stakes: self.validator_stakes.insert(validator, total),
            nominations: self.nominations.insert(nominator, (validator, stake)),
            ..self
        }
    }
}

/// A chain that resolves ends at a registered validator.
pub proof fn lemma_resolved_is_validator(
    ledger: Ledger,
    target: AccountId,
    stake: Balance,
    hops: nat,
)
    requires
        ledger.resolve_chain(target, stake, hops) is Some,
    ensures
        ({
            let (validator, _) = ledger.resolve_chain(target, stake, hops)->0;
            ledger.validators.contains_key(validator)
        }),
    decreases hops,
{
    if !ledger.validators.contains_key(target) {
        lemma_resolved_is_validator(
            ledger,
            ledger.nominations[target].0,
            saturating_sum(stake, ledger.nominations[target].1),
            (hops - 1) as nat,
        );
    }
}

/// A chain that resolves within some number of hops resolves to the same
/// validator and stake within any greater number.
pub proof fn lemma_more_hops_change_nothing(
    ledger: Ledger,
    target: AccountId,
    stake: Balance,
    hops: nat,
    more: nat,
)
    requires
        ledger.resolve_chain(target, stake, hops) is Some,
        hops <= more,
    ensures
        ledger.resolve_chain(target, stake, more) == ledger.resolve_chain(target, stake, hops),
    decreases hops,
{
    if !ledger.validators.contains_key(target) {
        lemma_more_hops_change_nothing(
            ledger,
            ledger.nominations[target].0,
            saturating_sum(stake, ledger.nominations[target].1),
            (hops - 1) as nat,
            (more - 1) as nat,
        );
    }
}

/// Whether the chain from `target` reaches a validator within `hops` steps
/// and passes only nominators of the set `through` on its way.
pub open spec fn reaches_within(
    ledger: Ledger,
    target: AccountId,
    hops: nat,
    through: Set<AccountId>,
) -> bool
    decreases hops,
{
    ledger.validators.contains_key(target) || (ledger.nominations.contains_key(target)
        && through.contains(target) && hops > 0 && reaches_within(
        ledger,
        ledger.nominations[target].0,
        (hops - 1) as nat,
        through,
    ))
}

/// A chain that resolves reaches a validator through nominators only.
pub proof fn lemma_resolved_reaches(ledger: Ledger, target: AccountId, stake: Balance, hops: nat)
    requires
        ledger.resolve_chain(target, stake, hops) is Some,
    ensures
        reaches_within(ledger, target, hops, ledger.nominations.dom()),
    decreases hops,
{
    if !ledger.validators.contains_key(target) {
        lemma_resolved_reaches(
            ledger,
            ledger.nominations[target].0,
            saturating_sum(stake, ledger.nominations[target].1),
            (hops - 1) as nat,
        );
    }
}

/// A chain that reaches a validator resolves, whatever stake it starts with.
pub proof fn lemma_reaching_resolves(
    ledger: Ledger,
    target: AccountId,
    stake: Balance,
    hops: nat,
    through: Set<AccountId>,
)
    requires
        reaches_within(ledger, target, hops, through),
    ensures
        ledger.resolve_chain(target, stake, hops) is Some,
    decreases hops,
{
    if !ledger.validators.contains_key(target) {
        lemma_reaching_resolves(
            ledger,
            ledger.nominations[target].0,
            saturating_sum(stake, ledger.nominations[target].1),
            (hops - 1) as nat,
            through,
        );
    }
}

/// A chain that avoids `avoided` also reaches its validator where it may
/// pass it.
pub proof fn lemma_reaches_through_more(
    ledger: Ledger,
    target: AccountId,
    hops: nat,
    through: Set<AccountId>,
    avoided: AccountId,
)
    requires
        reaches_within(ledger, target, hops, through.remove(avoided)),
    ensures
        reaches_within(ledger, target, hops, through),
    decreases hops,
{
    if !ledger.validators.contains_key(target) {
        lemma_reaches_through_more(
            ledger,
            ledger.nominations[target].0,
            (hops - 1) as nat,
            through,
            avoided,
        );
    }
}

/// A chain that reaches its validator, but not without passing `passed`,
/// reaches it from `passed` within the hops that are left there.
pub proof fn lemma_reaches_from_a_passed_nominator(
    ledger: Ledger,
    target: AccountId,
    hops: nat,
    through: Set<AccountId>,
    passed: AccountId,
) -> (left: nat)
    requires
        reaches_within(ledger, target, hops, through),
        !reaches_within(ledger, target, hops, through.remove(passed)),
    ensures
        left <= hops,
        reaches_within(ledger, passed, left, through),
    decreases hops,
{
    if target == passed {
        hops
    } else {
        assert(through.remove(passed).contains(target));
        lemma_reaches_from_a_passed_nominator(
            ledger,
            ledger.nominations[target].0,
            (hops - 1) as nat,
            through,
            passed,
        )
    }
}

/// A chain that reaches its validator through a finite set of nominators
/// does so within as many hops as the set has members.
pub proof fn lemma_reaches_within_the_count(
    ledger: Ledger,
    target: AccountId,
    hops: nat,
    through: Set<AccountId>,
)
    requires
        through.finite(),
        reaches_within(ledger, target, hops, through),
    ensures
        reaches_within(ledger, target, through.len(), through),
    decreases hops,
{
    if !ledger.validators.contains_key(target) {
        let next = ledger.nominations[target].0;
        let others = through.remove(target);
        assert(through.len() == others.len() + 1);
        if reaches_within(ledger, next, (hops - 1) as nat, others) {
            lemma_reaches_within_the_count(ledger, next, (hops - 1) as nat, others);
            lemma_reaches_through_more(ledger, next, others.len(), through, target);
        } else {
            let left = lemma_reaches_from_a_passed_nominator(
                ledger,
                next,
                (hops - 1) as nat,
                through,
                target,
            );
            lemma_reaches_within_the_count(ledger, target, left, through);
        }
    }
}

} // verus!
