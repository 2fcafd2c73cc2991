use ed25519_dalek::Signer;
use ed25519_dalek::Verifier;
use locutus_core::assignment::AllocationCriteria;
use locutus_core::assignment::AllocationError;
use locutus_core::assignment::ContractInstanceId;
use locutus_core::assignment::TokenAssignment;
use locutus_core::datetime::DateTimeUtc;
use locutus_core::record::merge_assignments;
use locutus_core::record::TierEntry;
use locutus_core::record::TokenAllocationRecord;
use locutus_core::tier::Tier;

fn get_date(y: i64, m: u32, d: u32) -> DateTimeUtc {
    DateTimeUtc::from_ymd(y, m, d).unwrap()
}

fn assignment(tier: Tier, slot: DateTimeUtc, fill: u8) -> TokenAssignment {
    TokenAssignment {
        tier,
        time_slot: slot,
        assignee: vec![fill; 32],
        signature: vec![fill; 64],
        assignment_hash: vec![fill; 32],
        token_record: ContractInstanceId::new(vec![fill; 32]).unwrap(),
    }
}

#[test]
fn to_be_signed_test() {
    let _to_be_signed = TokenAssignment::to_be_signed(
        &get_date(2021, 7, 28),
        &vec![1; 32],
        Tier::Day90,
    );
}

#[test]
fn canonical_signing_bytes() {
    // tier=Day90 (=12), time_slot=2021-07-28T00:00:00Z (timestamp 1627430400
    // = 0x61009E00), assignee=[1; 32]: the tier byte, the timestamp's eight
    // little-endian bytes, then the 32 raw key bytes.
    let msg = TokenAssignment::to_be_signed(&get_date(2021, 7, 28), &vec![1; 32], Tier::Day90);
    assert_eq!(msg.len(), 41);
    assert_eq!(msg[0], 0x0c);
    assert_eq!(&msg[1..9], &[0x00, 0x9e, 0x00, 0x61, 0x00, 0x00, 0x00, 0x00]);
    assert_eq!(&msg[9..41], &[1u8; 32][..]);
}

#[test]
fn signature_round_trip() {
    // The canonical 41-byte message survives an Ed25519 sign/verify round trip.
    let sk = ed25519_dalek::SigningKey::from_bytes(&[7u8; 32]);
    let pk = sk.verifying_key();
    let msg = TokenAssignment::to_be_signed(&get_date(2021, 7, 28), &vec![1; 32], Tier::Day90);
    let sig = sk.sign(&msg);
    assert!(pk.verify(&msg, &sig).is_ok());
    let mut other = msg.clone();
    other[0] ^= 1;
    assert!(pk.verify(&other, &sig).is_err());
}

#[test]
fn slot_arithmetic() {
    let a = assignment(Tier::Day7, get_date(2023, 1, 7), 1);
    assert_eq!(a.next_slot(), get_date(2023, 1, 14));
    assert_eq!(a.previous_slot(), get_date(2022, 12, 31));
    let b = assignment(Tier::Hour12, get_date(2023, 1, 7), 1);
    assert_eq!(
        b.next_slot(),
        DateTimeUtc::new(2023, 1, 7, 12, 0, 0, 0).unwrap()
    );
}

#[test]
fn criteria_max_age_limit() {
    let contract = ContractInstanceId::new(vec![0; 32]).unwrap();
    let ok = AllocationCriteria::new(Tier::Day1, 730 * 24 * 3600, contract);
    assert!(ok.is_ok());
    let contract = ContractInstanceId::new(vec![0; 32]).unwrap();
    let too_old = AllocationCriteria::new(Tier::Day1, 730 * 24 * 3600 + 1, contract);
    assert!(matches!(too_old, Err(AllocationError::IncorrectMaxAge)));
}

fn sample_record() -> TokenAllocationRecord {
    let day7 = vec![
        assignment(Tier::Day7, get_date(2023, 1, 14), 2),
        assignment(Tier::Day7, get_date(2023, 1, 7), 1),
    ];
    let hour3 = vec![assignment(Tier::Hour3, get_date(2023, 1, 7), 3)];
    TokenAllocationRecord::new(vec![
        TierEntry { tier: Tier::Day7, assignments: day7 },
        TierEntry { tier: Tier::Hour3, assignments: hour3 },
    ])
}

#[test]
fn record_sorts_and_summarizes() {
    let rec = sample_record();
    let day7 = rec.get_tier(Tier::Day7).unwrap();
    assert_eq!(day7.len(), 2);
    assert_eq!(day7[0].time_slot, get_date(2023, 1, 7));
    assert_eq!(day7[1].time_slot, get_date(2023, 1, 14));
    assert!(rec.get_tier(Tier::Min1).is_none());

    let summary = rec.summarize();
    let delta = rec.delta(&summary);
    // No missing assignments against the record's own summary.
    let missing = delta.get_tier(Tier::Day7).unwrap();
    assert_eq!(missing.len(), 0);
    let missing = delta.get_tier(Tier::Hour3).unwrap();
    assert_eq!(missing.len(), 0);
}

#[test]
fn delta_reports_missing_assignments() {
    let rec = sample_record();
    // A peer that only holds the January 7 slot of Day7 and asks about Day7.
    let peer = TokenAllocationRecord::new(vec![TierEntry {
        tier: Tier::Day7,
        assignments: vec![assignment(Tier::Day7, get_date(2023, 1, 7), 1)],
    }]);
    let delta = rec.delta(&peer.summarize());
    let missing = delta.get_tier(Tier::Day7).unwrap();
    assert_eq!(missing.len(), 1);
    assert_eq!(missing[0].time_slot, get_date(2023, 1, 14));
    // Tiers the summary does not ask about are not reported.
    assert!(delta.get_tier(Tier::Hour3).is_none());
}

#[test]
fn assignment_exists_checks_structure() {
    let rec = sample_record();
    let held = assignment(Tier::Day7, get_date(2023, 1, 7), 1);
    assert!(rec.assignment_exists(&held));
    // Same slot, different assignee: not the same assignment.
    let imposter = assignment(Tier::Day7, get_date(2023, 1, 7), 9);
    assert!(!rec.assignment_exists(&imposter));
    // Unallocated slot.
    let absent = assignment(Tier::Day7, get_date(2023, 1, 21), 1);
    assert!(!rec.assignment_exists(&absent));
    // Tier not in the record.
    let wrong_tier = assignment(Tier::Min1, get_date(2023, 1, 7), 1);
    assert!(!rec.assignment_exists(&wrong_tier));
}

#[test]
fn merge_is_idempotent_and_order_invariant() {
    let base = vec![assignment(Tier::Day7, get_date(2023, 1, 7), 1)];
    let d1 = vec![assignment(Tier::Day7, get_date(2023, 1, 14), 2)];
    let d2 = vec![assignment(Tier::Day7, get_date(2023, 1, 21), 3)];

    let once = merge_assignments(&base, &d1).unwrap();
    let twice = merge_assignments(&once, &d1).unwrap();
    assert_eq!(once.len(), 2);
    assert_eq!(twice.len(), 2);
    for (a, b) in once.iter().zip(twice.iter()) {
        assert!(a.same_assignment(b));
    }

    let ab = merge_assignments(&merge_assignments(&base, &d1).unwrap(), &d2).unwrap();
    let ba = merge_assignments(&merge_assignments(&base, &d2).unwrap(), &d1).unwrap();
    assert_eq!(ab.len(), 3);
    for (a, b) in ab.iter().zip(ba.iter()) {
        assert!(a.same_assignment(b));
    }
}

#[test]
fn merge_rejects_conflicting_slot() {
    let mine = vec![assignment(Tier::Day7, get_date(2023, 1, 7), 1)];
    let theirs = vec![assignment(Tier::Day7, get_date(2023, 1, 7), 2)];
    let r = merge_assignments(&mine, &theirs);
    assert!(matches!(
        r,
        Err(AllocationError::AllocatedSlot { tier: Tier::Day7, slot: _ })
    ));
}

#[test]
fn error_constructors_carry_the_assignment() {
    let a = assignment(Tier::Day7, get_date(2023, 1, 7), 1);
    match AllocationError::allocated_slot(&a) {
        AllocationError::AllocatedSlot { tier, slot } => {
            assert_eq!(tier, Tier::Day7);
            assert_eq!(slot, get_date(2023, 1, 7));
        }
        _ => panic!("wrong variant"),
    }
    match AllocationError::invalid_assignment(a) {
        AllocationError::InvalidAssignment(inner) => {
            assert_eq!(inner.time_slot, get_date(2023, 1, 7));
        }
        _ => panic!("wrong variant"),
    }
}
