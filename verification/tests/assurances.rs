use grey::assurances::{process_assurances, AssuranceError};
use grey::crypto::{build_assurance_message, Ed25519Keypair};
use grey::types::{Assurance, Config, Ed25519Signature, PendingReport, ValidatorKey};

type Report = u32;

fn tiny_config_and_validators() -> (Config, Vec<ValidatorKey>) {
    let config = Config::tiny();
    // Create dummy validators (only ed25519 key matters for assurance checks)
    let validators: Vec<ValidatorKey> = (0..config.validators_count)
        .map(|_| ValidatorKey::default())
        .collect();
    (config, validators)
}

#[test]
fn test_empty_assurances() {
    let (config, validators) = tiny_config_and_validators();
    let mut pending: Vec<Option<PendingReport<Report>>> = vec![None; config.core_count as usize];
    let output = process_assurances(&config, &mut pending, &[], 1, grey::types::Hash::zero(), &validators)
        .expect("empty assurances should succeed");
    assert!(output.reported.is_empty());
}

#[test]
fn test_bad_validator_index() {
    let (config, validators) = tiny_config_and_validators();
    let mut pending: Vec<Option<PendingReport<Report>>> = vec![None; config.core_count as usize];
    let bad = Assurance {
        anchor: grey::types::Hash::zero(),
        bitfield: vec![0],
        validator_index: 999, // out of range
        signature: Ed25519Signature([0u8; 64]),
    };
    let result = process_assurances(&config, &mut pending, &[bad], 1, grey::types::Hash::zero(), &validators);
    assert!(matches!(result, Err(AssuranceError::BadValidatorIndex)));
}

#[test]
fn test_not_sorted_assurers() {
    let (config, validators) = tiny_config_and_validators();
    let mut pending: Vec<Option<PendingReport<Report>>> = vec![None; config.core_count as usize];
    // Two assurances with validator indices in wrong order
    let a1 = Assurance {
        anchor: grey::types::Hash::zero(),
        bitfield: vec![0],
        validator_index: 2,
        signature: Ed25519Signature([0u8; 64]),
    };
    let a2 = Assurance {
        anchor: grey::types::Hash::zero(),
        bitfield: vec![0],
        validator_index: 1, // out of order
        signature: Ed25519Signature([0u8; 64]),
    };
    let result =
        process_assurances(&config, &mut pending, &[a1, a2], 1, grey::types::Hash::zero(), &validators);
    assert!(matches!(
        result,
        Err(AssuranceError::NotSortedOrUniqueAssurers)
    ));
}

#[test]
fn test_duplicate_assurers() {
    let (config, validators) = tiny_config_and_validators();
    let mut pending: Vec<Option<PendingReport<Report>>> = vec![None; config.core_count as usize];
    let a = Assurance {
        anchor: grey::types::Hash::zero(),
        bitfield: vec![0],
        validator_index: 1,
        signature: Ed25519Signature([0u8; 64]),
    };
    let result = process_assurances(
        &config,
        &mut pending,
        &[a.clone(), a],
        1,
        grey::types::Hash::zero(),
        &validators,
    );
    assert!(matches!(
        result,
        Err(AssuranceError::NotSortedOrUniqueAssurers)
    ));
}

#[test]
fn test_bad_attestation_parent() {
    let (config, validators) = tiny_config_and_validators();
    let mut pending: Vec<Option<PendingReport<Report>>> = vec![None; config.core_count as usize];
    let a = Assurance {
        anchor: grey::types::Hash([0xFF; 32]), // wrong parent
        bitfield: vec![0],
        validator_index: 0,
        signature: Ed25519Signature([0u8; 64]),
    };
    let result = process_assurances(
        &config,
        &mut pending,
        &[a],
        1,
        grey::types::Hash::zero(), // expected parent
        &validators,
    );
    assert!(matches!(result, Err(AssuranceError::BadAttestationParent)));
}

#[test]
fn test_error_as_str() {
    assert_eq!(
        AssuranceError::NotSortedOrUniqueAssurers.as_str(),
        "not_sorted_or_unique_assurers"
    );
    assert_eq!(AssuranceError::BadSignature.as_str(), "bad_signature");
    assert_eq!(
        AssuranceError::BadValidatorIndex.as_str(),
        "bad_validator_index"
    );
    assert_eq!(AssuranceError::CoreNotEngaged.as_str(), "core_not_engaged");
    assert_eq!(
        AssuranceError::BadAttestationParent.as_str(),
        "bad_attestation_parent"
    );
}

// ---------------------------------------------------------------------------
// Scenarios with real signatures.

fn signing_validators() -> (Config, Vec<Ed25519Keypair>, Vec<ValidatorKey>) {
    let config = Config::tiny();
    let keypairs: Vec<Ed25519Keypair> = (0..config.validators_count)
        .map(|i| Ed25519Keypair::from_seed(&[i as u8 + 1; 32]))
        .collect();
    let validators = keypairs
        .iter()
        .map(|kp| ValidatorKey { ed25519: kp.public_key() })
        .collect();
    (config, keypairs, validators)
}

fn signed(keypairs: &[Ed25519Keypair], index: u16, parent: [u8; 32], bitfield: Vec<u8>) -> Assurance {
    let message = build_assurance_message(&parent, &bitfield);
    Assurance {
        anchor: grey::types::Hash(parent),
        signature: keypairs[index as usize].sign(&message),
        bitfield,
        validator_index: index,
    }
}

#[test]
fn super_majority_makes_report_available() {
    let (config, keypairs, validators) = signing_validators();
    let parent = [9u8; 32];
    let mut pending = vec![
        Some(PendingReport { report: 100u32, timeslot: 10 }),
        Some(PendingReport { report: 200u32, timeslot: 10 }),
    ];
    // Tiny: V = 6, super-majority = 5. Core 0 gets 5 assurances, core 1 gets 4.
    let assurances: Vec<Assurance> = (0..5u16)
        .map(|i| signed(&keypairs, i, parent, vec![if i < 4 { 0b11 } else { 0b01 }]))
        .collect();
    let output = process_assurances(&config, &mut pending, &assurances, 11, grey::types::Hash(parent), &validators)
        .expect("valid assurances");
    assert_eq!(output.reported, vec![100]);
    assert_eq!(pending[0], None);
    assert_eq!(pending[1], Some(PendingReport { report: 200, timeslot: 10 }));
}

#[test]
fn timed_out_report_is_dropped_without_being_reported() {
    let (config, _keypairs, validators) = signing_validators();
    let mut pending = vec![
        Some(PendingReport { report: 1u32, timeslot: 10 }),
        Some(PendingReport { report: 2u32, timeslot: 12 }),
    ];
    // U = 5: at slot 15 the report from slot 10 has timed out, the one from 12 has not.
    let output = process_assurances(&config, &mut pending, &[], 15, grey::types::Hash([1; 32]), &validators)
        .expect("no assurances");
    assert!(output.reported.is_empty());
    assert_eq!(pending[0], None);
    assert_eq!(pending[1], Some(PendingReport { report: 2, timeslot: 12 }));
}

#[test]
fn bad_signature_rejected_and_state_kept() {
    let (config, keypairs, validators) = signing_validators();
    let parent = [4u8; 32];
    let mut pending = vec![Some(PendingReport { report: 7u32, timeslot: 0 }), None];
    let good = signed(&keypairs, 0, parent, vec![0b01]);
    // Validator 1's assurance is signed by validator 2's key.
    let mut forged = signed(&keypairs, 2, parent, vec![0b01]);
    forged.validator_index = 1;
    let before = pending.clone();
    let result = process_assurances(&config, &mut pending, &[good, forged], 100, grey::types::Hash(parent), &validators);
    assert!(matches!(result, Err(AssuranceError::BadSignature)));
    assert_eq!(pending, before);
}

#[test]
fn bit_for_empty_core_rejected() {
    let (config, keypairs, validators) = signing_validators();
    let parent = [5u8; 32];
    let mut pending = vec![Some(PendingReport { report: 7u32, timeslot: 0 }), None];
    let a = signed(&keypairs, 3, parent, vec![0b10]);
    let result = process_assurances(&config, &mut pending, &[a], 1, grey::types::Hash(parent), &validators);
    assert!(matches!(result, Err(AssuranceError::CoreNotEngaged)));
}

#[test]
fn bit_beyond_pending_slots_rejected() {
    let (config, keypairs, validators) = signing_validators();
    let parent = [6u8; 32];
    let mut pending = vec![Some(PendingReport { report: 7u32, timeslot: 0 })];
    let a = signed(&keypairs, 0, parent, vec![0b10]);
    let result = process_assurances(&config, &mut pending, &[a], 1, grey::types::Hash(parent), &validators);
    assert!(matches!(result, Err(AssuranceError::CoreNotEngaged)));
}

#[test]
fn bad_index_takes_precedence_over_order() {
    let (config, validators) = tiny_config_and_validators();
    let mut pending: Vec<Option<PendingReport<Report>>> = vec![None; 2];
    let mk = |index: u16| Assurance {
        anchor: grey::types::Hash([0xAB; 32]),
        bitfield: vec![0],
        validator_index: index,
        signature: Ed25519Signature([0u8; 64]),
    };
    let result = process_assurances(&config, &mut pending, &[mk(3), mk(1), mk(6)], 1, grey::types::Hash::zero(), &validators);
    assert!(matches!(result, Err(AssuranceError::BadValidatorIndex)));
}

#[test]
fn super_majority_threshold_values() {
    assert_eq!(Config::super_majority_of(6), 5);
    assert_eq!(Config::super_majority_of(1023), 683);
    assert_eq!(Config::super_majority_of(0), 1);
    assert_eq!(Config::super_majority_of(usize::MAX), (usize::MAX / 3) * 2 + 1);
}

#[test]
fn has_bit_reads_lsb_first() {
    let a = Assurance {
        anchor: grey::types::Hash::zero(),
        bitfield: vec![0b0000_0100, 0b1000_0000],
        validator_index: 0,
        signature: Ed25519Signature([0u8; 64]),
    };
    assert!(a.has_bit(2));
    assert!(a.has_bit(15));
    assert!(!a.has_bit(0));
    assert!(!a.has_bit(16));
}
