//! Plain value types shared by the ledger, the command handlers and the selector.
use vstd::prelude::*;
use vstd::std_specs::cmp::PartialEqSpecImpl;

verus! {

/// Amount of stake, in the smallest unit of the native currency.
pub type Balance = u128;

/// Height of a block in the chain.
pub type BlockNumber = u64;

/// A 32-byte account identifier. The ledger treats it as opaque: it is only
/// compared for equality and used as a key.
#[derive(Clone, Copy, Debug)]
pub struct AccountId {
    pub bytes: [u8; 32],
}

/// A 32-byte public key under which a validator takes part in consensus.
/// The ledger stores it and hands it back; it is never inspected.
#[derive(Clone, Copy, Debug)]
pub struct SessionKey {
    pub bytes: [u8; 32],
}

/// Byte-wise equality of two 32-byte arrays.
pub fn bytes_equal(a: &[u8; 32], b: &[u8; 32]) -> (same: bool)
    ensures
        same == (*a == *b),
{
    let mut i: usize = 0;
    while i < 32
        invariant
            i <= 32,
            forall|j: int| 0 <= j < i ==> a@[j] == b@[j],
        decreases 32 - i,
    {
        if a[i] != b[i] {
            assert(a@[i as int] != b@[i as int]);
            return false;
        }
        i += 1;
    }
    assert(a@ =~= b@);
    assert(*a =~= *b);
    true
}

impl PartialEq for AccountId {
    fn eq(&self, other: &Self) -> (same: bool) {
        bytes_equal(&self.bytes, &other.bytes)
    }
}

impl Eq for AccountId {

}

impl PartialEqSpecImpl for AccountId {
    open spec fn obeys_eq_spec() -> bool {
        true
    }

    open spec fn eq_spec(&self, other: &Self) -> bool {
        *self == *other
    }
}

impl PartialEq for SessionKey {
    fn eq(&self, other: &Self) -> (same: bool) {
        bytes_equal(&self.bytes, &other.bytes)
    }
}

impl Eq for SessionKey {

}

impl PartialEqSpecImpl for SessionKey {
    open spec fn obeys_eq_spec() -> bool {
        true
    }

    open spec fn eq_spec(&self, other: &Self) -> bool {
        *self == *other
    }
}

impl AccountId {
    /// The account whose identifier is `bytes`.
    pub fn new(bytes: [u8; 32]) -> (account: AccountId)
        ensures
            account.bytes == bytes,
    {
        AccountId { bytes }
    }
}

impl SessionKey {
    /// The session key whose public bytes are `bytes`.
    pub fn new(bytes: [u8; 32]) -> (key: SessionKey)
        ensures
            key.bytes == bytes,
    {
        SessionKey { bytes }
    }
}

/// The constants that a ledger is set up with.
#[derive(Clone, Copy, Debug, PartialEq, Eq)]
pub struct Config {
    /// Number of blocks in an epoch.
    pub epoch: BlockNumber,
    /// Least stake that a nomination must carry.
    pub minimum_nominator_stake: Balance,
    /// Least stake that a validator must put down to register.
    pub minimum_validator_stake: Balance,
    /// Most session keys that the consensus layer accepts as an authority set.
    pub max_authorities: u32,
    /// Identifier from which the account that holds the stakes is derived.
    pub pallet_id: [u8; 8],
}

} // verus!
