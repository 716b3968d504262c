use commitments::address::Address;
use commitments::attestation_engine::{
    AttestationEngineContract, AttestationError, AttestationType, CHUNK_SIZE, compliance_score_of,
};

fn addr(key: &str) -> Address {
    Address::new(key.to_string())
}

fn id(s: &str) -> String {
    s.to_string()
}

fn setup_test_env() -> (AttestationEngineContract, Address) {
    let mut engine = AttestationEngineContract::new();
    let admin = addr("admin");
    engine.initialize(admin.clone(), addr("commitment_core")).unwrap();
    (engine, admin)
}

#[test]
fn test_initialize_twice() {
    let (mut engine, _) = setup_test_env();
    assert_eq!(
        engine.initialize(addr("admin"), addr("commitment_core")),
        Err(AttestationError::AlreadyInitialized)
    );
}

#[test]
fn test_add_authorized_verifier() {
    let (mut engine, admin) = setup_test_env();
    let verifier = addr("verifier");
    engine.add_authorized_verifier(&admin, verifier.clone()).unwrap();
    assert!(engine.is_authorized_verifier(&verifier));
}

#[test]
fn test_remove_authorized_verifier() {
    let (mut engine, admin) = setup_test_env();
    let verifier = addr("verifier");
    engine.add_authorized_verifier(&admin, verifier.clone()).unwrap();
    assert!(engine.is_authorized_verifier(&verifier));
    engine.remove_authorized_verifier(&admin, &verifier).unwrap();
    assert!(!engine.is_authorized_verifier(&verifier));
    assert!(engine.is_authorized_verifier(&admin));
}

#[test]
fn test_add_authorized_verifier_unauthorized() {
    let (mut engine, _) = setup_test_env();
    let result = engine.add_authorized_verifier(&addr("attacker"), addr("verifier"));
    assert_eq!(result, Err(AttestationError::Unauthorized));
    assert!(!engine.is_authorized_verifier(&addr("verifier")));
}

#[test]
fn test_admin_is_always_authorized_verifier() {
    let (engine, admin) = setup_test_env();
    assert!(engine.is_authorized_verifier(&admin));
    assert_eq!(engine.get_admin().unwrap(), admin);
}

#[test]
fn test_attest_unauthorized() {
    let (mut engine, _) = setup_test_env();
    let result = engine.attest(&id("commitment_1"), AttestationType::HealthCheck, String::new(), &addr("attacker"), 0);
    assert_eq!(result, Err(AttestationError::Unauthorized));
    assert_eq!(engine.get_attestations(&id("commitment_1")).len(), 0);
}

#[test]
fn test_attest_authorized() {
    let (mut engine, admin) = setup_test_env();
    engine.attest(&id("commitment_1"), AttestationType::HealthCheck, String::new(), &admin, 0).unwrap();
    assert_eq!(engine.get_attestations(&id("commitment_1")).len(), 1);
}

#[test]
fn test_attest_as_authorized_verifier() {
    let (mut engine, admin) = setup_test_env();
    let verifier = addr("verifier");
    engine.add_authorized_verifier(&admin, verifier.clone()).unwrap();
    engine.attest(&id("commitment_1"), AttestationType::HealthCheck, String::new(), &verifier, 0).unwrap();
    let all = engine.get_attestations(&id("commitment_1"));
    assert_eq!(all.len(), 1);
    assert_eq!(all[0].verified_by, verifier);
}

#[test]
fn test_record_fees_unauthorized() {
    let (mut engine, _) = setup_test_env();
    assert_eq!(
        engine.record_fees(&addr("attacker"), &id("commitment_1"), 100, 0),
        Err(AttestationError::Unauthorized)
    );
}

#[test]
fn test_record_drawdown_unauthorized() {
    let (mut engine, _) = setup_test_env();
    assert_eq!(
        engine.record_drawdown(&addr("attacker"), &id("commitment_1"), 15, 0),
        Err(AttestationError::Unauthorized)
    );
}

#[test]
fn tests_test_verify_compliance() {
    let (mut engine, admin) = setup_test_env();
    assert!(engine.verify_compliance(&id("commitment_1")));
    engine.attest(&id("commitment_1"), AttestationType::HealthCheck, String::new(), &admin, 1).unwrap();
    assert!(engine.verify_compliance(&id("commitment_1")));
    engine.attest(&id("commitment_1"), AttestationType::Violation, String::new(), &admin, 2).unwrap();
    assert!(!engine.verify_compliance(&id("commitment_1")));
}

#[test]
fn tests_test_initialize() {
    let (engine, admin) = setup_test_env();
    assert_eq!(engine.get_admin().unwrap(), admin);
    assert_eq!(engine.get_attestations(&id("test")).len(), 0);
    assert_eq!(AttestationEngineContract::new().get_admin(), Err(AttestationError::NotInitialized));
}

#[test]
fn test_get_attestations_empty() {
    let (engine, _) = setup_test_env();
    assert_eq!(engine.get_attestations(&id("test_commitment_1")).len(), 0);
}

#[test]
fn test_get_health_metrics_basic() {
    let (engine, _) = setup_test_env();
    let metrics = engine.get_health_metrics(&id("test_commitment_1"));
    assert_eq!(metrics.commitment_id, id("test_commitment_1"));
    assert!(metrics.compliance_score <= 100);
}

#[test]
fn test_get_health_metrics_drawdown_calculation() {
    let (engine, _) = setup_test_env();
    assert_eq!(engine.get_health_metrics(&id("test_commitment_1")).drawdown_percent, 0);
}

#[test]
fn test_get_health_metrics_zero_initial_value() {
    let (engine, _) = setup_test_env();
    let metrics = engine.get_health_metrics(&id("test_commitment_1"));
    assert!(metrics.drawdown_percent >= 0);
    assert_eq!(metrics.initial_value, 0);
}

#[test]
fn test_calculate_compliance_score_base() {
    let (engine, _) = setup_test_env();
    let score = engine.calculate_compliance_score(&id("test_commitment_1"));
    assert!(score <= 100);
    assert_eq!(score, 100);
}

#[test]
fn test_calculate_compliance_score_clamping() {
    let (mut engine, admin) = setup_test_env();
    engine.record_drawdown(&admin, &id("test_commitment_1"), 1000, 5).unwrap();
    let score = engine.calculate_compliance_score(&id("test_commitment_1"));
    assert!(score <= 100);
    assert_eq!(score, 0);
}

#[test]
fn compliance_score_extremes() {
    assert_eq!(compliance_score_of(0, 0, 0), 100);
    assert_eq!(compliance_score_of(0, 0, 500), 100);
    assert_eq!(compliance_score_of(1, 0, 0), 80);
    assert_eq!(compliance_score_of(1, 15, 1), 75);
    assert_eq!(compliance_score_of(2, -40, 0), 60);
    assert_eq!(compliance_score_of(0, 1000, 0), 0);
    assert_eq!(compliance_score_of(u64::MAX, i128::MAX, i128::MIN), 0);
    assert_eq!(compliance_score_of(0, i128::MIN, i128::MAX), 100);
}

#[test]
fn test_get_health_metrics_includes_compliance_score() {
    let (engine, _) = setup_test_env();
    assert!(engine.get_health_metrics(&id("test_commitment_1")).compliance_score <= 100);
}

#[test]
fn test_get_health_metrics_last_attestation() {
    let (engine, _) = setup_test_env();
    assert_eq!(engine.get_health_metrics(&id("test_commitment_1")).last_attestation, 0);
}

#[test]
fn test_all_three_functions_work_together() {
    let (engine, _) = setup_test_env();
    let commitment_id = id("test_commitment_1");
    let attestations = engine.get_attestations(&commitment_id);
    let metrics = engine.get_health_metrics(&commitment_id);
    let score = engine.calculate_compliance_score(&commitment_id);
    assert_eq!(attestations.len(), 0);
    assert_eq!(metrics.commitment_id, commitment_id);
    assert!(score <= 100);
    assert_eq!(metrics.compliance_score, score);
}

#[test]
fn test_get_attestations_returns_empty_vec_when_none_exist() {
    let (engine, _) = setup_test_env();
    assert_eq!(engine.get_attestations(&id("commitment_1")).len(), 0);
    assert_eq!(engine.get_attestations(&id("commitment_2")).len(), 0);
}

#[test]
fn test_health_metrics_structure() {
    let (engine, _) = setup_test_env();
    let commitment_id = id("test_commitment");
    let metrics = engine.get_health_metrics(&commitment_id);
    assert_eq!(metrics.commitment_id, commitment_id);
    assert_eq!(metrics.current_value, 0);
    assert_eq!(metrics.initial_value, 0);
    assert_eq!(metrics.drawdown_percent, 0);
    assert_eq!(metrics.fees_generated, 0);
    assert_eq!(metrics.volatility_exposure, 0);
    assert_eq!(metrics.last_attestation, 0);
    assert!(metrics.compliance_score <= 100);
}

#[test]
fn test_attest_and_get_metrics() {
    let (mut engine, admin) = setup_test_env();
    let commitment_id = id("test_commitment_wf");
    engine
        .attest(&commitment_id, AttestationType::HealthCheck, id("note=test attestation"), &admin, 12345)
        .unwrap();
    let attestations = engine.get_attestations(&commitment_id);
    assert_eq!(attestations.len(), 1);
    assert_eq!(attestations[0].attestation_type, AttestationType::HealthCheck);
    assert_eq!(attestations[0].data, id("note=test attestation"));
    assert_eq!(attestations[0].timestamp, 12345);
    assert!(attestations[0].is_compliant);
    let metrics = engine.get_health_metrics(&commitment_id);
    assert!(metrics.last_attestation > 0);
    assert_eq!(metrics.last_attestation, 12345);
}

#[test]
fn test_attest() {
    let (mut engine, admin) = setup_test_env();
    let verified_by = addr("verified_by");
    engine.add_authorized_verifier(&admin, verified_by.clone()).unwrap();
    engine
        .attest(&id("test_commitment"), AttestationType::HealthCheck, id("test_data"), &verified_by, 12345)
        .unwrap();
    let all = engine.get_attestations(&id("test_commitment"));
    assert_eq!(all.len(), 1);
    assert_eq!(all[0].commitment_id, id("test_commitment"));
}

#[test]
fn fees_and_drawdown_update_metrics() {
    let (mut engine, admin) = setup_test_env();
    let c = id("c");
    engine.record_fees(&admin, &c, 100, 10).unwrap();
    engine.record_fees(&admin, &c, 50, 20).unwrap();
    engine.record_drawdown(&admin, &c, 15, 30).unwrap();
    let m = engine.get_health_metrics(&c);
    assert_eq!(m.fees_generated, 150);
    assert_eq!(m.drawdown_percent, 15);
    assert_eq!(m.last_attestation, 30);
    assert_eq!(m.compliance_score, 95);
    let all = engine.get_attestations(&c);
    assert_eq!(all.len(), 3);
    assert_eq!(all[0].attestation_type, AttestationType::FeeGeneration);
    assert_eq!(all[2].attestation_type, AttestationType::Drawdown);
    assert_eq!(engine.record_fees(&admin, &c, i128::MAX, 40), Err(AttestationError::InvalidAmount));
    assert_eq!(engine.get_attestations(&c).len(), 3);
}

#[test]
fn violations_lower_the_score() {
    let (mut engine, admin) = setup_test_env();
    let c = id("c");
    engine.attest(&c, AttestationType::Violation, String::new(), &admin, 1).unwrap();
    engine.attest(&c, AttestationType::Violation, String::new(), &admin, 2).unwrap();
    assert_eq!(engine.calculate_compliance_score(&c), 60);
    assert!(!engine.get_attestations(&c)[0].is_compliant);
}

#[test]
fn stored_metrics_merge() {
    let (mut engine, admin) = setup_test_env();
    let c = id("c");
    let mut m = engine.get_health_metrics(&c);
    m.initial_value = 1000;
    m.current_value = 900;
    engine.store_health_metrics(&admin, &c, m).unwrap();
    let mut updates = engine.get_health_metrics(&c);
    updates.initial_value = 5;
    updates.current_value = 800;
    engine.update_health_metrics(&admin, &c, updates).unwrap();
    let after = engine.get_health_metrics(&c);
    assert_eq!(after.initial_value, 1000);
    assert_eq!(after.current_value, 800);
    let fresh = engine.get_health_metrics(&c);
    assert_eq!(engine.store_health_metrics(&addr("x"), &c, fresh), Err(AttestationError::Unauthorized));
}

#[test]
fn history_spans_chunks_in_order() {
    let (mut engine, admin) = setup_test_env();
    let c = id("c");
    let total = 2 * CHUNK_SIZE + 5;
    for t in 0..total {
        engine.attest(&c, AttestationType::HealthCheck, String::new(), &admin, t as u64).unwrap();
    }
    engine.attest(&id("other"), AttestationType::HealthCheck, String::new(), &admin, 7).unwrap();
    let all = engine.get_attestations(&c);
    assert_eq!(all.len(), total);
    for (k, a) in all.iter().enumerate() {
        assert_eq!(a.timestamp, k as u64);
    }
    let page = engine.get_attestations_paginated(&c, 95, 10);
    assert_eq!(page.len(), 10);
    assert_eq!(page[0].timestamp, 95);
    assert_eq!(page[9].timestamp, 104);
    let tail = engine.get_attestations_paginated(&c, 200, 50);
    assert_eq!(tail.len(), 5);
    assert_eq!(tail[4].timestamp, 204);
    assert_eq!(engine.get_attestations_paginated(&c, 205, 3).len(), 0);
    assert_eq!(engine.get_attestations_paginated(&c, 1000, 3).len(), 0);
    assert_eq!(engine.get_attestations_paginated(&c, 10, 0).len(), 0);
    assert_eq!(engine.get_attestations_paginated(&c, 3, u32::MAX).len(), total - 3);
    assert_eq!(engine.get_attestations_paginated(&id("none"), 0, 5).len(), 0);
}
