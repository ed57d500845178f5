use gloss::profile::{
    apply_patch, compact_string, CefrEstimate, CefrLevel, Dimension, LearnerProfile,
    PatchObservation, ProfilePatch, Timestamp, turn_already_processed,
};

fn sample_patch() -> ProfilePatch {
    ProfilePatch {
        overall: CefrEstimate {
            level: CefrLevel::B1,
            confidence_bits: 0.42f32.to_bits(),
            rationale: "Can follow the main point but asks about idiomatic nuance.".to_owned(),
        },
        dimensions: Vec::new(),
        observations: vec![PatchObservation {
            dimension: Dimension::Pragmatics,
            cefr_level: CefrLevel::B1,
            descriptor: "Can recognize common attitudes but may need help with implicit irony."
                .to_owned(),
            evidence: "The follow-up separated literal meaning from intended tone.".to_owned(),
        }],
    }
}

#[test]
fn repeated_cefr_observations_merge() {
    let now = Timestamp { secs: 1_700_000_000, nanos: 0 };
    let mut profile = LearnerProfile::empty_at(now);
    apply_patch(&mut profile, sample_patch(), "session", "turn-1", now);
    apply_patch(&mut profile, sample_patch(), "session", "turn-2", now);
    assert_eq!(profile.conversations_observed, 1);
    assert_eq!(profile.observations.len(), 1);
    assert_eq!(profile.observations[0].evidence_count, 2);
}

#[test]
fn a_session_is_counted_once_per_profile() {
    let now = Timestamp { secs: 1_700_000_000, nanos: 0 };
    let mut profile = LearnerProfile::empty_at(now);
    apply_patch(&mut profile, sample_patch(), "s1", "t1", now);
    assert!(turn_already_processed(&profile, "t1"));
    assert!(!turn_already_processed(&profile, "t2"));
    apply_patch(&mut profile, sample_patch(), "s1", "t2", now);
    assert_eq!(profile.conversations_observed, 1);
    apply_patch(&mut profile, sample_patch(), "s2", "t3", now);
    assert_eq!(profile.conversations_observed, 2);
    assert_eq!(profile.observations[0].evidence_count, 3);
    assert_eq!(profile.processed_turn_ids, vec!["t1", "t2", "t3"]);
    assert_eq!(profile.overall.level, CefrLevel::B1);
    assert_eq!(f32::from_bits(profile.overall.confidence_bits), 0.42);
}

#[test]
fn confidence_is_clamped_and_rationale_compacted() {
    let now = Timestamp { secs: 1, nanos: 0 };
    let mut profile = LearnerProfile::empty_at(now);
    let mut patch = sample_patch();
    patch.overall.confidence_bits = 1.5f32.to_bits();
    patch.overall.rationale = "  many   spaces\n here ".to_owned();
    apply_patch(&mut profile, patch, "s", "t", now);
    assert_eq!(f32::from_bits(profile.overall.confidence_bits), 1.0);
    assert_eq!(profile.overall.rationale, "many spaces here");
    assert_eq!(compact_string("a  b c", 3), "a b");
}

#[test]
fn profile_keeps_bounded_history() {
    let now = Timestamp { secs: 10, nanos: 0 };
    let mut profile = LearnerProfile::empty_at(now);
    for round in 0..1001u32 {
        let mut patch = sample_patch();
        patch.observations = (0..6u32)
            .map(|k| PatchObservation {
                dimension: Dimension::Vocabulary,
                cefr_level: CefrLevel::B2,
                descriptor: format!("descriptor {round} {k}"),
                evidence: "seen".to_owned(),
            })
            .collect();
        let later = Timestamp { secs: 10 + i64::from(round), nanos: 0 };
        apply_patch(&mut profile, patch, "s", &format!("t{round}"), later);
    }
    assert_eq!(profile.observations.len(), 80);
    assert_eq!(profile.observations[0].descriptor, "descriptor 1000 0");
    assert_eq!(profile.processed_turn_ids.len(), 1000);
    assert_eq!(profile.processed_turn_ids[0], "t1");
    assert_eq!(profile.conversations_observed, 1);
}
