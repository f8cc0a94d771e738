//! Plain protocol values shared by the state transitions: hashes, Ed25519 key
//! and signature bytes, validator keys, the chain configuration, assurances and
//! pending work reports.

use vstd::prelude::*;

verus! {

/// A 32-byte hash.
#[derive(Clone, Copy, Debug, PartialEq, Eq)]
pub struct Hash(pub [u8; 32]);

impl Hash {
    /// The all-zero hash.
    pub fn zero() -> (h: Hash)
        ensures
            forall|i: int| 0 <= i < 32 ==> h.0[i] == 0,
    {
        Hash([0u8; 32])
    }
}

/// An Ed25519 public key (compressed Edwards point).
#[derive(Clone, Copy, Debug, PartialEq, Eq, Default)]
pub struct Ed25519PublicKey(pub [u8; 32]);

/// An Ed25519 signature (`R ‖ s`).
#[derive(Clone, Copy, Debug, PartialEq, Eq)]
pub struct Ed25519Signature(pub [u8; 64]);

/// The keys of a validator; the assurances transition reads only the Ed25519 key.
#[derive(Clone, Copy, Debug, PartialEq, Eq, Default)]
pub struct ValidatorKey {
    pub ed25519: Ed25519PublicKey,
}

/// Protocol parameters used by the state transitions.
#[derive(Clone, Copy, Debug, PartialEq, Eq)]
pub struct Config {
    /// Number of validators `V`.
    pub validators_count: u16,
    /// Number of cores `C`.
    pub core_count: u16,
    /// Availability timeout `U`, in timeslots.
    pub availability_timeout: u32,
}

/// The super-majority threshold `⌊2V/3⌋ + 1`.
pub open spec fn super_majority(validators: int) -> int {
    2 * validators / 3 + 1
}

impl Config {
    /// The "tiny" test configuration: 6 validators, 2 cores, timeout of 5 slots.
    pub fn tiny() -> (c: Config)
        ensures
            c.validators_count == 6,
            c.core_count == 2,
            c.availability_timeout == 5,
    {
        Config { validators_count: 6, core_count: 2, availability_timeout: 5 }
    }

    /// The number of validators that makes a super-majority: `⌊2V/3⌋ + 1`.
    pub fn super_majority_of(validators: usize) -> (m: usize)
        ensures
            m == super_majority(validators as int),
    {
        // Computed as `2⌊V/3⌋ + ⌊2(V mod 3)/3⌋ + 1` so that no step overflows.
        let third = validators / 3;
        let rem = validators % 3;
        proof {
            assert(validators == 3 * third + rem);
            assert(2 * (validators as int) == 3 * (2 * third as int) + 2 * rem);
        }
        2 * third + (2 * rem) / 3 + 1
    }
}

/// An availability assurance from one validator.
#[derive(Clone, Debug, PartialEq, Eq)]
pub struct Assurance {
    /// The parent hash the assurance is anchored to.
    pub anchor: Hash,
    /// One bit per core (LSB first): the validator holds that core's erasure chunk.
    pub bitfield: Vec<u8>,
    /// Index of the assuring validator.
    pub validator_index: u16,
    /// The validator's Ed25519 signature.
    pub signature: Ed25519Signature,
}

/// Whether the assurance sets the bit of `core`: bit `core % 8` of byte `core / 8`
/// (false past the end of the bitfield).
pub open spec fn assurance_bit(bitfield: Seq<u8>, core: int) -> bool {
    0 <= core && core / 8 < bitfield.len() && (bitfield[core / 8] >> ((core % 8) as u8)) & 1u8 == 1u8
}

impl Assurance {
    /// Whether the bitfield sets the bit of `core`.
    pub fn has_bit(&self, core: usize) -> (b: bool)
        ensures
            b == assurance_bit(self.bitfield@, core as int),
    {
        let byte = core / 8;
        if byte < self.bitfield.len() {
            let bit = (core % 8) as u8;
            (self.bitfield[byte] >> bit) & 1u8 == 1u8
        } else {
            false
        }
    }
}

/// A work report waiting on a core for availability, with the slot it was reported in.
#[derive(Clone, Debug, PartialEq, Eq)]
pub struct PendingReport<R> {
    pub report: R,
    pub timeslot: u32,
}

/// Whether two 32-byte values are equal.
pub fn bytes32_equal(a: &[u8; 32], b: &[u8; 32]) -> (eq: bool)
    ensures
        eq == (a@ == b@),
{
    let mut i: usize = 0;
    while i < 32
        invariant
            i <= 32,
            a@.len() == 32,
            b@.len() == 32,
            forall|j: int| 0 <= j < i ==> a@[j] == b@[j],
        decreases 32 - i,
    {
        if a[i] != b[i] {
            return false;
        }
        i = i + 1;
    }
    proof {
        assert(a@ =~= b@);
    }
    true
}

} // verus!
