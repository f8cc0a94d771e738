//! Availability assurances sub-transition (Gray Paper section 11.2, eq. 11.10-11.17).
//!
//! Processes availability assurances to determine which pending work reports
//! have become available.

use crate::crypto::{assurance_message, build_assurance_message, ed25519_accepts, ed25519_verify};
use crate::types::{
    assurance_bit, bytes32_equal, super_majority, Assurance, Config, PendingReport, ValidatorKey,
};
use vstd::prelude::*;

verus! {

/// Error type for assurances validation.
#[derive(Debug, Clone, Copy, PartialEq, Eq, Structural)]
pub enum AssuranceError {
    NotSortedOrUniqueAssurers,
    BadSignature,
    BadValidatorIndex,
    CoreNotEngaged,
    BadAttestationParent,
}

impl AssuranceError {
    /// The error's name in the test vectors.
    pub fn as_str(&self) -> (name: &'static str)
        ensures
            name@ == match *self {
                AssuranceError::NotSortedOrUniqueAssurers => "not_sorted_or_unique_assurers"@,
                AssuranceError::BadSignature => "bad_signature"@,
                AssuranceError::BadValidatorIndex => "bad_validator_index"@,
                AssuranceError::CoreNotEngaged => "core_not_engaged"@,
                AssuranceError::BadAttestationParent => "bad_attestation_parent"@,
            },
    {
        match self {
            AssuranceError::NotSortedOrUniqueAssurers => "not_sorted_or_unique_assurers",
            AssuranceError::BadSignature => "bad_signature",
            AssuranceError::BadValidatorIndex => "bad_validator_index",
            AssuranceError::CoreNotEngaged => "core_not_engaged",
            AssuranceError::BadAttestationParent => "bad_attestation_parent",
        }
    }
}

/// Output of successful assurances processing.
#[derive(Debug, Clone)]
pub struct AssuranceOutput<R> {
    /// Work reports that became available.
    pub reported: Vec<R>,
}

/// Every assurance names a validator of the current set.
pub open spec fn indices_in_range(assurances: Seq<Assurance>, validators: int) -> bool {
    forall|i: int| 0 <= i < assurances.len() ==> (#[trigger] assurances[i]).validator_index < validators
}

/// Assurances are sorted by validator index, without duplicates (eq. 11.12).
pub open spec fn strictly_sorted(assurances: Seq<Assurance>) -> bool {
    forall|i: int, j: int|
        0 <= i < j < assurances.len() ==> (#[trigger] assurances[i]).validator_index
            < (#[trigger] assurances[j]).validator_index
}

/// Every assurance is anchored on the parent hash (eq. 11.11).
pub open spec fn all_anchored(assurances: Seq<Assurance>, parent_hash: Seq<u8>) -> bool {
    forall|i: int| 0 <= i < assurances.len() ==> (#[trigger] assurances[i]).anchor.0@ == parent_hash
}

/// Whether the assurance's signature is accepted under its validator's key (eq. 11.13).
pub open spec fn assurance_signed(a: Assurance, validators: Seq<ValidatorKey>, parent_hash: Seq<u8>) -> bool {
    ed25519_accepts(
        validators[a.validator_index as int].ed25519.0@,
        assurance_message(parent_hash, a.bitfield@),
        a.signature.0@,
    )
}

/// Every assurance carries a valid signature.
pub open spec fn all_signed(assurances: Seq<Assurance>, validators: Seq<ValidatorKey>, parent_hash: Seq<u8>) -> bool {
    forall|i: int| 0 <= i < assurances.len() ==> assurance_signed(#[trigger] assurances[i], validators, parent_hash)
}

/// Bits are set only for cores (below `cores`) that have a pending report (eq. 11.15).
pub open spec fn all_engaged<R>(
    assurances: Seq<Assurance>,
    pending: Seq<Option<PendingReport<R>>>,
    cores: int,
) -> bool {
    forall|i: int, c: int|
        0 <= i < assurances.len() && 0 <= c < cores && #[trigger] assurance_bit(
            assurances[i].bitfield@,
            c,
        ) ==> c < pending.len() && pending[c] is Some
}

/// The first rule that the assurances break, in the order they are checked;
/// `None` when they break none.
pub open spec fn assurance_violation<R>(
    pending: Seq<Option<PendingReport<R>>>,
    assurances: Seq<Assurance>,
    cores: int,
    parent_hash: Seq<u8>,
    validators: Seq<ValidatorKey>,
) -> Option<AssuranceError> {
    if !indices_in_range(assurances, validators.len() as int) {
        Some(AssuranceError::BadValidatorIndex)
    } else if !strictly_sorted(assurances) {
        Some(AssuranceError::NotSortedOrUniqueAssurers)
    } else if !all_anchored(assurances, parent_hash) {
        Some(AssuranceError::BadAttestationParent)
    } else if !all_signed(assurances, validators, parent_hash) {
        Some(AssuranceError::BadSignature)
    } else if !all_engaged(assurances, pending, cores) {
        Some(AssuranceError::CoreNotEngaged)
    } else {
        None
    }
}

/// Number of assurances that set the bit of `core` (eq. 11.16).
pub open spec fn bit_count(assurances: Seq<Assurance>, core: int) -> nat
    decreases assurances.len(),
{
    if assurances.len() == 0 {
        0
    } else {
        bit_count(assurances.drop_last(), core) + if assurance_bit(assurances.last().bitfield@, core) {
            1nat
        } else {
            0nat
        }
    }
}

/// The threshold count that makes a report available: the super-majority
/// `⌊2V/3⌋ + 1` of the validator count, as a 16-bit number.
pub open spec fn availability_threshold(validators: int) -> int {
    (super_majority(validators) as u16) as int
}

/// Whether the report on `core` becomes available.
pub open spec fn core_available(assurances: Seq<Assurance>, cores: int, threshold: int, core: int) -> bool {
    0 <= core < cores && bit_count(assurances, core) >= threshold
}

/// Whether a pending report has timed out at `now`: `now ≥ timeslot + U`.
pub open spec fn timed_out<R>(p: PendingReport<R>, now: int, timeout: int) -> bool {
    now >= p.timeslot + timeout
}

/// The reports that become available, in core order (eq. 11.16).
pub open spec fn available_reports<R>(
    pending: Seq<Option<PendingReport<R>>>,
    assurances: Seq<Assurance>,
    cores: int,
    threshold: int,
) -> Seq<R>
    decreases pending.len(),
{
    if pending.len() == 0 {
        seq![]
    } else {
        let rest = available_reports(pending.drop_last(), assurances, cores, threshold);
        let c = pending.len() - 1;
        match pending.last() {
            Some(p) => if core_available(assurances, cores, threshold, c) {
                rest.push(p.report)
            } else {
                rest
            },
            None => rest,
        }
    }
}

/// The pending reports after the transition: a slot is emptied when its report
/// became available or timed out, and kept otherwise (eq. 11.17).
pub open spec fn cleared_slot<R>(
    pending: Seq<Option<PendingReport<R>>>,
    assurances: Seq<Assurance>,
    cores: int,
    threshold: int,
    now: int,
    timeout: int,
    c: int,
) -> Option<PendingReport<R>> {
    match pending[c] {
        Some(p) => if core_available(assurances, cores, threshold, c) || timed_out(p, now, timeout) {
            None
        } else {
            Some(p)
        },
        None => None,
    }
}

/// The whole pending-report sequence after the transition.
pub open spec fn cleared_pending<R>(
    pending: Seq<Option<PendingReport<R>>>,
    assurances: Seq<Assurance>,
    cores: int,
    threshold: int,
    now: int,
    timeout: int,
) -> Seq<Option<PendingReport<R>>> {
    Seq::new(
        pending.len(),
        |c: int| cleared_slot(pending, assurances, cores, threshold, now, timeout, c),
    )
}

/// Whether every assurance names a validator of the set.
fn check_indices(assurances: &[Assurance], validators: usize) -> (ok: bool)
    ensures
        ok == indices_in_range(assurances@, validators as int),
{
    let mut i: usize = 0;
    while i < assurances.len()
        invariant
            i <= assurances@.len(),
            forall|j: int| 0 <= j < i ==> (#[trigger] assurances@[j]).validator_index < validators,
        decreases assurances@.len() - i,
    {
        if assurances[i].validator_index as usize >= validators {
            return false;
        }
        i = i + 1;
    }
    true
}

/// Whether validator indices strictly increase along the assurances.
fn is_strictly_sorted_by_validator(assurances: &[Assurance]) -> (ok: bool)
    ensures
        ok == strictly_sorted(assurances@),
{
    if assurances.len() == 0 {
        return true;
    }
    let mut k: usize = 1;
    while k < assurances.len()
        invariant
            1 <= k <= assurances@.len(),
            forall|i: int, j: int|
                0 <= i < j < k ==> (#[trigger] assurances@[i]).validator_index
                    < (#[trigger] assurances@[j]).validator_index,
        decreases assurances@.len() - k,
    {
        if assurances[k - 1].validator_index >= assurances[k].validator_index {
            proof {
                let i = k - 1;
                assert(!(assurances@[i as int].validator_index < assurances@[k as int].validator_index));
            }
            return false;
        }
        proof {
            assert forall|i: int, j: int|
                0 <= i < j < k + 1 implies (#[trigger] assurances@[i]).validator_index
                    < (#[trigger] assurances@[j]).validator_index by {
                if j == k && i < k - 1 {
                    assert(assurances@[i].validator_index < assurances@[k - 1].validator_index);
                }
            }
        }
        k = k + 1;
    }
    true
}

/// Whether every assurance is anchored on the parent hash.
fn check_anchors(assurances: &[Assurance], parent_hash: &crate::types::Hash) -> (ok: bool)
    ensures
        ok == all_anchored(assurances@, parent_hash.0@),
{
    let mut i: usize = 0;
    while i < assurances.len()
        invariant
            i <= assurances@.len(),
            forall|j: int| 0 <= j < i ==> (#[trigger] assurances@[j]).anchor.0@ == parent_hash.0@,
        decreases assurances@.len() - i,
    {
        if !bytes32_equal(&assurances[i].anchor.0, &parent_hash.0) {
            return false;
        }
        i = i + 1;
    }
    true
}

/// Whether every assurance is signed by its validator.
fn check_signatures(assurances: &[Assurance], parent_hash: &crate::types::Hash, validators: &[ValidatorKey]) -> (ok: bool)
    requires
        indices_in_range(assurances@, validators@.len() as int),
    ensures
        ok == all_signed(assurances@, validators@, parent_hash.0@),
{
    let mut i: usize = 0;
    while i < assurances.len()
        invariant
            i <= assurances@.len(),
            indices_in_range(assurances@, validators@.len() as int),
            forall|j: int| 0 <= j < i ==> assurance_signed(#[trigger] assurances@[j], validators@, parent_hash.0@),
        decreases assurances@.len() - i,
    {
        let a = &assurances[i];
        let idx = a.validator_index as usize;
        assert(assurances@[i as int].validator_index < validators@.len());
        let key = &validators[idx].ed25519;
        let message = build_assurance_message(&parent_hash.0, a.bitfield.as_slice());
        if !ed25519_verify(key, message.as_slice(), &a.signature) {
            assert(!assurance_signed(assurances@[i as int], validators@, parent_hash.0@));
            return false;
        }
        i = i + 1;
    }
    true
}

/// Whether every set bit below `cores` names a core with a pending report.
fn check_engaged<R>(assurances: &[Assurance], pending: &[Option<PendingReport<R>>], cores: usize) -> (ok: bool)
    ensures
        ok == all_engaged(assurances@, pending@, cores as int),
{
    let mut i: usize = 0;
    while i < assurances.len()
        invariant
            i <= assurances@.len(),
            forall|j: int, c: int|
                0 <= j < i && 0 <= c < cores && #[trigger] assurance_bit(assurances@[j].bitfield@, c)
                    ==> c < pending@.len() && pending@[c] is Some,
        decreases assurances@.len() - i,
    {
        let mut core: usize = 0;
        while core < cores
            invariant
                i < assurances@.len(),
                core <= cores,
                forall|j: int, c: int|
                    0 <= j < i && 0 <= c < cores && #[trigger] assurance_bit(assurances@[j].bitfield@, c)
                        ==> c < pending@.len() && pending@[c] is Some,
                forall|c: int|
                    0 <= c < core && #[trigger] assurance_bit(assurances@[i as int].bitfield@, c)
                        ==> c < pending@.len() && pending@[c] is Some,
            decreases cores - core,
        {
            let set = assurances[i].has_bit(core);
            assert(set == assurance_bit(assurances@[i as int].bitfield@, core as int));
            if set && (core >= pending.len() || pending[core].is_none()) {
                assert(!(core < pending@.len() && pending@[core as int] is Some));
                return false;
            }
            core = core + 1;
        }
        i = i + 1;
    }
    true
}

/// Count, for each core below `cores`, the assurances that set its bit.
fn count_assurance_bits(assurances: &[Assurance], cores: usize) -> (counts: Vec<usize>)
    ensures
        counts@.len() == cores,
        forall|c: int| 0 <= c < cores ==> #[trigger] counts@[c] == bit_count(assurances@, c),
{
    let mut counts: Vec<usize> = Vec::new();
    let mut core: usize = 0;
    while core < cores
        invariant
            core <= cores,
            counts@.len() == core,
            forall|c: int| 0 <= c < core ==> #[trigger] counts@[c] == bit_count(assurances@, c),
        decreases cores - core,
    {
        let mut n: usize = 0;
        let mut i: usize = 0;
        while i < assurances.len()
            invariant
                i <= assurances@.len(),
                n <= i,
                n == bit_count(assurances@.subrange(0, i as int), core as int),
            decreases assurances@.len() - i,
        {
            proof {
                assert(assurances@.subrange(0, i + 1).drop_last() =~= assurances@.subrange(0, i as int));
            }
            if assurances[i].has_bit(core) {
                n = n + 1;
            }
            i = i + 1;
        }
        proof {
            assert(assurances@.subrange(0, assurances@.len() as int) =~= assurances@);
        }
        counts.push(n);
        core = core + 1;
    }
    counts
}

/// Collect the reports that became available and empty their slots, and empty
/// the slots whose reports timed out.
fn collect_and_clear_available<R>(
    pending: &mut [Option<PendingReport<R>>],
    counts: &Vec<usize>,
    Ghost(assurances): Ghost<Seq<Assurance>>,
    threshold: u32,
    now: u32,
    timeout: u32,
) -> (reported: Vec<R>)
    requires
        forall|c: int| 0 <= c < counts@.len() ==> #[trigger] counts@[c] == bit_count(assurances, c),
    ensures
        reported@ == available_reports(old(pending)@, assurances, counts@.len() as int, threshold as int),
        final(pending)@ == cleared_pending(
            old(pending)@,
            assurances,
            counts@.len() as int,
            threshold as int,
            now as int,
            timeout as int,
        ),
{
    let ghost original = pending@;
    let ghost cores = counts@.len() as int;
    let mut reported: Vec<R> = Vec::new();
    let mut c: usize = 0;
    while c < pending.len()
        invariant
            c <= pending@.len(),
            pending@.len() == original.len(),
            cores == counts@.len(),
            forall|k: int| 0 <= k < counts@.len() ==> #[trigger] counts@[k] == bit_count(assurances, k),
            forall|k: int| 0 <= k < c ==> #[trigger] pending@[k] == cleared_slot(
                original, assurances, cores, threshold as int, now as int, timeout as int, k),
            forall|k: int| c <= k < pending@.len() ==> #[trigger] pending@[k] == original[k],
            reported@ == available_reports(original.subrange(0, c as int), assurances, cores, threshold as int),
        decreases original.len() - c,
    {
        let available = c < counts.len() && counts[c] >= threshold as usize;
        assert(available == core_available(assurances, cores, threshold as int, c as int));
        let ghost prefix_next = original.subrange(0, c + 1);
        assert(prefix_next.drop_last() =~= original.subrange(0, c as int));
        let expired = match &pending[c] {
            Some(p) => now as u64 >= p.timeslot as u64 + timeout as u64,
            None => false,
        };
        if pending[c].is_some() {
            if available {
                let taken = pending[c].take();
                match taken {
                    Some(p) => reported.push(p.report),
                    None => {},
                }
            } else if expired {
                pending[c] = None;
            }
        }
        c = c + 1;
    }
    proof {
        assert(original.subrange(0, original.len() as int) =~= original);
        assert(pending@ =~= cleared_pending(original, assurances, cores, threshold as int, now as int, timeout as int));
    }
    reported
}

/// Apply the assurances sub-transition.
///
/// Checks, in this order, that every assurance names a current validator, that
/// validator indices strictly increase, that every assurance is anchored on the
/// parent hash, that every signature is valid, and that bits are set only for
/// cores with a pending report; the first rule broken is the error, and then the
/// pending reports are left unchanged. Otherwise returns the reports assured by a
/// super-majority of validators, in core order, and empties their slots as well
/// as the slots of reports that timed out.
pub fn process_assurances<R>(
    config: &Config,
    pending_reports: &mut [Option<PendingReport<R>>],
    assurances: &[Assurance],
    current_timeslot: u32,
    parent_hash: crate::types::Hash,
    current_validators: &[ValidatorKey],
) -> (result: Result<AssuranceOutput<R>, AssuranceError>)
    ensures
        ({
            let violation = assurance_violation(
                old(pending_reports)@,
                assurances@,
                config.core_count as int,
                parent_hash.0@,
                current_validators@,
            );
            let threshold = availability_threshold(current_validators@.len() as int);
            match result {
                Err(e) => violation == Some(e) && final(pending_reports)@ == old(pending_reports)@,
                Ok(output) => violation is None && output.reported@ == available_reports(
                    old(pending_reports)@,
                    assurances@,
                    config.core_count as int,
                    threshold,
                ) && final(pending_reports)@ == cleared_pending(
                    old(pending_reports)@,
                    assurances@,
                    config.core_count as int,
                    threshold,
                    current_timeslot as int,
                    config.availability_timeout as int,
                ),
            }
        }),
{
    let super_majority = Config::super_majority_of(current_validators.len()) as u16;
    let num_cores = config.core_count as usize;

    // Validate validator indices (must be valid before other checks).
    if !check_indices(assurances, current_validators.len()) {
        return Err(AssuranceError::BadValidatorIndex);
    }

    // eq 11.12: Assurances must be sorted by validator index, no duplicates.
    if !is_strictly_sorted_by_validator(assurances) {
        return Err(AssuranceError::NotSortedOrUniqueAssurers);
    }

    // eq 11.11: All assurance anchors must equal parent hash.
    if !check_anchors(assurances, &parent_hash) {
        return Err(AssuranceError::BadAttestationParent);
    }

    // eq 11.13: Verify signatures over X_A ⌢ H(E(H_P, a_f)).
    if !check_signatures(assurances, &parent_hash, current_validators) {
        return Err(AssuranceError::BadSignature);
    }

    // eq 11.15: Bits may only be set for cores with pending reports.
    if !check_engaged(assurances, pending_reports, num_cores) {
        return Err(AssuranceError::CoreNotEngaged);
    }

    // eq 11.16: Count assurances per core, determine available reports.
    let assurance_counts = count_assurance_bits(assurances, num_cores);

    // eq 11.17: Collect available reports and clear available/timed-out slots.
    let available = collect_and_clear_available(
        pending_reports,
        &assurance_counts,
        Ghost(assurances@),
        super_majority as u32,
        current_timeslot,
        config.availability_timeout,
    );

    Ok(AssuranceOutput { reported: available })
}

/// With no assurances no core gets a bit, so no report becomes available.
proof fn lemma_no_assurances_nothing_available<R>(
    pending: Seq<Option<PendingReport<R>>>,
    cores: int,
    threshold: int,
)
    requires
        threshold >= 1,
    ensures
        available_reports(pending, Seq::<Assurance>::empty(), cores, threshold) == Seq::<R>::empty(),
    decreases pending.len(),
{
    if pending.len() > 0 {
        lemma_no_assurances_nothing_available(pending.drop_last(), cores, threshold);
        assert(bit_count(Seq::<Assurance>::empty(), pending.len() - 1) == 0);
    }
}

/// Empty assurances are always accepted and make no report available, whatever
/// the pending reports, the parent hash and the validators (as long as the
/// super-majority threshold fits its 16-bit field).
pub proof fn lemma_empty_assurances_accepted<R>(
    pending: Seq<Option<PendingReport<R>>>,
    cores: int,
    parent_hash: Seq<u8>,
    validators: Seq<ValidatorKey>,
)
    requires
        super_majority(validators.len() as int) < 0x1_0000,
    ensures
        assurance_violation(pending, Seq::<Assurance>::empty(), cores, parent_hash, validators) is None,
        available_reports(
            pending,
            Seq::<Assurance>::empty(),
            cores,
            availability_threshold(validators.len() as int),
        ) == Seq::<R>::empty(),
{
    let t = super_majority(validators.len() as int);
    assert(t >= 1);
    assert((t as u16) as int == t);
    lemma_no_assurances_nothing_available(pending, cores, availability_threshold(validators.len() as int));
}

/// An assurance that names a validator outside the set is refused with
/// `BadValidatorIndex`, whatever else the assurances hold.
pub proof fn lemma_bad_validator_index_rejected<R>(
    pending: Seq<Option<PendingReport<R>>>,
    assurances: Seq<Assurance>,
    cores: int,
    parent_hash: Seq<u8>,
    validators: Seq<ValidatorKey>,
    i: int,
)
    requires
        0 <= i < assurances.len(),
        assurances[i].validator_index >= validators.len(),
    ensures
        assurance_violation(pending, assurances, cores, parent_hash, validators)
            == Some(AssuranceError::BadValidatorIndex),
{
    assert(!indices_in_range(assurances, validators.len() as int));
}

/// Once every index names a validator, two assurances out of order, or with the
/// same validator index, are refused with `NotSortedOrUniqueAssurers`.
pub proof fn lemma_unsorted_or_duplicate_rejected<R>(
    pending: Seq<Option<PendingReport<R>>>,
    assurances: Seq<Assurance>,
    cores: int,
    parent_hash: Seq<u8>,
    validators: Seq<ValidatorKey>,
    i: int,
    j: int,
)
    requires
        indices_in_range(assurances, validators.len() as int),
        0 <= i < j < assurances.len(),
        assurances[i].validator_index >= assurances[j].validator_index,
    ensures
        assurance_violation(pending, assurances, cores, parent_hash, validators)
            == Some(AssuranceError::NotSortedOrUniqueAssurers),
{
    assert(!strictly_sorted(assurances));
}

/// Once indices are valid and sorted, an assurance anchored elsewhere than the
/// parent hash is refused with `BadAttestationParent`.
pub proof fn lemma_wrong_parent_rejected<R>(
    pending: Seq<Option<PendingReport<R>>>,
    assurances: Seq<Assurance>,
    cores: int,
    parent_hash: Seq<u8>,
    validators: Seq<ValidatorKey>,
    i: int,
)
    requires
        indices_in_range(assurances, validators.len() as int),
        strictly_sorted(assurances),
        0 <= i < assurances.len(),
        assurances[i].anchor.0@ != parent_hash,
    ensures
        assurance_violation(pending, assurances, cores, parent_hash, validators)
            == Some(AssuranceError::BadAttestationParent),
{
    assert(!all_anchored(assurances, parent_hash));
}

/// A report becomes available exactly when more than two thirds of the
/// validators assure its core (as long as the threshold fits its 16-bit field).
pub proof fn lemma_available_iff_two_thirds(
    assurances: Seq<Assurance>,
    cores: int,
    validators: int,
    core: int,
)
    requires
        validators >= 0,
        super_majority(validators) < 0x1_0000,
        0 <= core < cores,
    ensures
        core_available(assurances, cores, availability_threshold(validators), core)
            <==> 3 * bit_count(assurances, core) > 2 * validators,
{
    let t = super_majority(validators);
    assert((t as u16) as int == t);
    let n = bit_count(assurances, core) as int;
    let q = 2 * validators / 3;
    assert(3 * q <= 2 * validators < 3 * q + 3);
}

/// The transition only empties slots: each slot afterwards is either empty or
/// holds exactly the report it held before, and a slot whose report became
/// available is always emptied.
pub proof fn lemma_transition_only_empties_slots<R>(
    pending: Seq<Option<PendingReport<R>>>,
    assurances: Seq<Assurance>,
    cores: int,
    threshold: int,
    now: int,
    timeout: int,
    c: int,
)
    requires
        0 <= c < pending.len(),
    ensures
        ({
            let after = cleared_pending(pending, assurances, cores, threshold, now, timeout);
            &&& after.len() == pending.len()
            &&& after[c] is None || after[c] == pending[c]
            &&& core_available(assurances, cores, threshold, c) ==> after[c] is None
        }),
{
}

/// The assurances are accepted exactly when every one of them names a validator
/// below the validator count, their indices strictly increase, every one is
/// anchored on the parent hash, every one carries a signature accepted under its
/// validator's Ed25519 key on `"jam_available" ⌢ Blake2b-256(parent ⌢ bitfield)`,
/// and every set bit below the core count names a slot that holds a report.
pub proof fn lemma_accepted_iff_every_rule_holds<R>(
    pending: Seq<Option<PendingReport<R>>>,
    assurances: Seq<Assurance>,
    cores: int,
    parent_hash: Seq<u8>,
    validators: Seq<ValidatorKey>,
)
    ensures
        assurance_violation(pending, assurances, cores, parent_hash, validators) is None <==> {
            &&& forall|i: int| 0 <= i < assurances.len() ==> (#[trigger] assurances[i]).validator_index < validators.len()
            &&& forall|i: int, j: int| 0 <= i < j < assurances.len() ==>
                (#[trigger] assurances[i]).validator_index < (#[trigger] assurances[j]).validator_index
            &&& forall|i: int| 0 <= i < assurances.len() ==> (#[trigger] assurances[i]).anchor.0@ == parent_hash
            &&& forall|i: int| 0 <= i < assurances.len() ==> ed25519_accepts(
                validators[(#[trigger] assurances[i]).validator_index as int].ed25519.0@,
                assurance_message(parent_hash, assurances[i].bitfield@),
                assurances[i].signature.0@,
            )
            &&& forall|i: int, c: int| 0 <= i < assurances.len() && 0 <= c < cores
                && #[trigger] assurance_bit(assurances[i].bitfield@, c) ==> c < pending.len() && pending[c] is Some
        },
{
}

/// When every index is below the validator count, `BadValidatorIndex` is never
/// the answer: in particular the last validator, index `V - 1`, may assure.
pub proof fn lemma_valid_indices_never_bad_index<R>(
    pending: Seq<Option<PendingReport<R>>>,
    assurances: Seq<Assurance>,
    cores: int,
    parent_hash: Seq<u8>,
    validators: Seq<ValidatorKey>,
)
    requires
        forall|i: int| 0 <= i < assurances.len() ==> (#[trigger] assurances[i]).validator_index < validators.len(),
    ensures
        assurance_violation(pending, assurances, cores, parent_hash, validators)
            != Some(AssuranceError::BadValidatorIndex),
{
}

/// Once indices are in range, strictly increasing and anchored on the parent,
/// any one assurance (the first included) whose signature is not accepted under
/// its validator's key makes the answer `BadSignature`.
pub proof fn lemma_any_bad_signature_rejected<R>(
    pending: Seq<Option<PendingReport<R>>>,
    assurances: Seq<Assurance>,
    cores: int,
    parent_hash: Seq<u8>,
    validators: Seq<ValidatorKey>,
    i: int,
)
    requires
        forall|k: int| 0 <= k < assurances.len() ==> (#[trigger] assurances[k]).validator_index < validators.len(),
        forall|k: int, l: int| 0 <= k < l < assurances.len() ==>
            (#[trigger] assurances[k]).validator_index < (#[trigger] assurances[l]).validator_index,
        forall|k: int| 0 <= k < assurances.len() ==> (#[trigger] assurances[k]).anchor.0@ == parent_hash,
        0 <= i < assurances.len(),
        !ed25519_accepts(
            validators[assurances[i].validator_index as int].ed25519.0@,
            assurance_message(parent_hash, assurances[i].bitfield@),
            assurances[i].signature.0@,
        ),
    ensures
        assurance_violation(pending, assurances, cores, parent_hash, validators)
            == Some(AssuranceError::BadSignature),
{
    assert(!assurance_signed(assurances[i], validators, parent_hash));
}

/// A slot whose report was made at `timeslot` is empty after the transition at
/// any slot `now ≥ timeslot + U`; a slot whose report neither timed out nor
/// became available keeps it unchanged.
pub proof fn lemma_timed_out_slots_emptied<R>(
    pending: Seq<Option<PendingReport<R>>>,
    assurances: Seq<Assurance>,
    cores: int,
    threshold: int,
    now: int,
    timeout: int,
    c: int,
)
    requires
        0 <= c < pending.len(),
    ensures
        pending[c] matches Some(p) && now >= p.timeslot + timeout
            ==> cleared_pending(pending, assurances, cores, threshold, now, timeout)[c] is None,
        pending[c] matches Some(p) && now < p.timeslot + timeout
            && !core_available(assurances, cores, threshold, c)
            ==> cleared_pending(pending, assurances, cores, threshold, now, timeout)[c] == pending[c],
{
}

/// The available reports are those of the slots, in increasing core order: the
/// returned witness `at` lists, strictly increasing, the cores whose report is
/// reported at each position, every such core holds that report and is
/// available, and every available core holding a report is listed.
pub proof fn lemma_available_reports_in_core_order<R>(
    pending: Seq<Option<PendingReport<R>>>,
    assurances: Seq<Assurance>,
    cores: int,
    threshold: int,
) -> (at: Seq<int>)
    ensures
        at.len() == available_reports(pending, assurances, cores, threshold).len(),
        forall|k: int, l: int| 0 <= k < l < at.len() ==> #[trigger] at[k] < #[trigger] at[l],
        forall|k: int| 0 <= k < at.len() ==> {
            &&& 0 <= #[trigger] at[k] < pending.len()
            &&& pending[at[k]] matches Some(p) && p.report == available_reports(
                pending,
                assurances,
                cores,
                threshold,
            )[k]
            &&& core_available(assurances, cores, threshold, at[k])
        },
        forall|c: int| 0 <= c < pending.len() && #[trigger] pending[c] is Some
            && core_available(assurances, cores, threshold, c) ==> exists|k: int| 0 <= k < at.len() && at[k] == c,
    decreases pending.len(),
{
    if pending.len() == 0 {
        Seq::empty()
    } else {
        let prefix = pending.drop_last();
        let last = pending.len() - 1;
        let head = lemma_available_reports_in_core_order(prefix, assurances, cores, threshold);
        let rest = available_reports(prefix, assurances, cores, threshold);
        assert forall|c: int| 0 <= c < prefix.len() implies #[trigger] prefix[c] == pending[c] by {}
        if pending[last] is Some && core_available(assurances, cores, threshold, last) {
            let at = head.push(last);
            let all = available_reports(pending, assurances, cores, threshold);
            assert(all == rest.push(pending[last]->0.report));
            assert forall|k: int| 0 <= k < at.len() implies {
                &&& 0 <= #[trigger] at[k] < pending.len()
                &&& pending[at[k]] matches Some(p) && p.report == all[k]
                &&& core_available(assurances, cores, threshold, at[k])
            } by {
                if k < head.len() {
                    assert(prefix[head[k]] == pending[head[k]]);
                }
            }
            assert forall|c: int| 0 <= c < pending.len() && #[trigger] pending[c] is Some
                && core_available(assurances, cores, threshold, c) implies exists|k: int| 0 <= k < at.len() && at[k] == c by {
                if c < last {
                    assert(prefix[c] is Some);
                    let k = choose|k: int| 0 <= k < head.len() && head[k] == c;
                    assert(at[k] == c);
                } else {
                    assert(at[head.len() as int] == c);
                }
            }
            at
        } else {
            let all = available_reports(pending, assurances, cores, threshold);
            assert(all == rest);
            assert forall|k: int| 0 <= k < head.len() implies {
                &&& 0 <= #[trigger] head[k] < pending.len()
                &&& pending[head[k]] matches Some(p) && p.report == all[k]
                &&& core_available(assurances, cores, threshold, head[k])
            } by {
                assert(prefix[head[k]] == pending[head[k]]);
            }
            assert forall|c: int| 0 <= c < pending.len() && #[trigger] pending[c] is Some
                && core_available(assurances, cores, threshold, c) implies exists|k: int| 0 <= k < head.len() && head[k] == c by {
                assert(c != last);
                assert(prefix[c] is Some);
            }
            head
        }
    }
}

} // verus!
