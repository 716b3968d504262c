use commitments::address::Address;
use commitments::commitment_core::{
    Commitment, CommitmentCoreContract, CommitmentError, CommitmentRules, CommitmentStatus,
};

const DAY: u64 = 86400;

fn addr(key: &str) -> Address {
    Address::new(key.to_string())
}

fn id(s: &str) -> String {
    s.to_string()
}

fn rules(duration_days: u32, max_loss_percent: u32, commitment_type: &str) -> CommitmentRules {
    CommitmentRules {
        duration_days,
        max_loss_percent,
        commitment_type: commitment_type.to_string(),
        early_exit_penalty: 5,
        min_fee_threshold: 100,
    }
}

fn create_test_commitment(
    commitment_id: &str,
    owner: &Address,
    amount: i128,
    current_value: i128,
    max_loss_percent: u32,
    duration_days: u32,
    created_at: u64,
) -> Commitment {
    Commitment {
        commitment_id: commitment_id.to_string(),
        owner: owner.clone(),
        nft_token_id: 1,
        rules: CommitmentRules {
            duration_days,
            max_loss_percent,
            commitment_type: "balanced".to_string(),
            early_exit_penalty: 10,
            min_fee_threshold: 1000,
        },
        amount,
        asset_address: addr("asset"),
        created_at,
        expires_at: created_at + duration_days as u64 * DAY,
        current_value,
        status: CommitmentStatus::Active,
        allocated_amount: 0,
    }
}

fn setup() -> (CommitmentCoreContract, Address) {
    let mut core = CommitmentCoreContract::new();
    let admin = addr("admin");
    core.initialize(admin.clone(), addr("nft_contract")).unwrap();
    (core, admin)
}

#[test]
fn test_initialize() {
    let (mut core, admin) = setup();
    let updater = addr("updater");
    assert_eq!(core.add_authorized_updater(&admin, updater.clone()), Ok(()));
    assert!(core.is_authorized_updater(&updater));
}

#[test]
fn initialize_twice_is_rejected() {
    let (mut core, _) = setup();
    assert_eq!(
        core.initialize(addr("other"), addr("nft")),
        Err(CommitmentError::AlreadyInitialized)
    );
    assert_eq!(core.get_admin().unwrap(), addr("admin"));
}

#[test]
fn test_value_update_success() {
    let (mut core, admin) = setup();
    let owner = addr("owner");
    core.store_commitment(create_test_commitment("commit_1", &owner, 10000, 10000, 20, 365, 1000));
    let updater = addr("updater");
    core.add_authorized_updater(&admin, updater.clone()).unwrap();
    let new_value = 9500;
    core.update_value(&updater, &id("commit_1"), new_value, 1000).unwrap();
    let commitment = core.get_commitment(&id("commit_1")).unwrap();
    assert_eq!(commitment.current_value, new_value);
    assert_eq!(commitment.status, CommitmentStatus::Active);
}

#[test]
fn test_violation_detection() {
    let (mut core, admin) = setup();
    let owner = addr("owner");
    core.store_commitment(create_test_commitment("commit_2", &owner, 10000, 10000, 20, 365, 1000));
    let updater = addr("updater");
    core.add_authorized_updater(&admin, updater.clone()).unwrap();
    let update = core.update_value(&updater, &id("commit_2"), 7500, 0).unwrap();
    assert!(update.violated);
    let commitment = core.get_commitment(&id("commit_2")).unwrap();
    assert_eq!(commitment.current_value, 7500);
    assert_eq!(commitment.status, CommitmentStatus::Violated);
}

#[test]
fn test_violation_at_threshold() {
    let (mut core, admin) = setup();
    let owner = addr("owner");
    core.store_commitment(create_test_commitment("commit_3", &owner, 10000, 10000, 20, 365, 1000));
    let updater = addr("updater");
    core.add_authorized_updater(&admin, updater.clone()).unwrap();
    core.update_value(&updater, &id("commit_3"), 8000, 0).unwrap();
    let commitment = core.get_commitment(&id("commit_3")).unwrap();
    assert_eq!(commitment.current_value, 8000);
    assert_eq!(commitment.status, CommitmentStatus::Active);
}

#[test]
fn test_access_control_unauthorized() {
    let (mut core, _) = setup();
    let owner = addr("owner");
    core.store_commitment(create_test_commitment("commit_4", &owner, 10000, 10000, 20, 365, 1000));
    let result = core.update_value(&addr("stranger"), &id("commit_4"), 9500, 1000);
    assert_eq!(result, Err(CommitmentError::Unauthorized));
    assert_eq!(core.get_commitment(&id("commit_4")).unwrap().current_value, 10000);
}

#[test]
fn test_access_control_admin() {
    let (mut core, admin) = setup();
    let owner = addr("owner");
    core.store_commitment(create_test_commitment("commit_5", &owner, 10000, 10000, 20, 365, 1000));
    core.update_value(&admin, &id("commit_5"), 9500, 1000).unwrap();
    assert_eq!(core.get_commitment(&id("commit_5")).unwrap().current_value, 9500);
}

#[test]
fn test_add_remove_authorized_updater() {
    let (mut core, admin) = setup();
    let owner = addr("owner");
    core.store_commitment(create_test_commitment("commit_6", &owner, 10000, 10000, 20, 365, 1000));
    let updater = addr("updater");
    core.add_authorized_updater(&admin, updater.clone()).unwrap();
    core.update_value(&updater, &id("commit_6"), 9500, 1000).unwrap();
    assert_eq!(core.get_commitment(&id("commit_6")).unwrap().current_value, 9500);
    core.remove_authorized_updater(&admin, &updater).unwrap();
    assert_eq!(
        core.update_value(&updater, &id("commit_6"), 9000, 1000),
        Err(CommitmentError::Unauthorized)
    );
    assert!(core.is_authorized_updater(&admin));
}

#[test]
fn test_add_updater_non_admin() {
    let (mut core, _) = setup();
    let result = core.add_authorized_updater(&addr("non_admin"), addr("updater"));
    assert_eq!(result, Err(CommitmentError::Unauthorized));
    assert!(!core.is_authorized_updater(&addr("updater")));
}

#[test]
fn redundant_updater_changes_are_rejected() {
    let (mut core, admin) = setup();
    core.add_authorized_updater(&admin, addr("u")).unwrap();
    assert_eq!(core.add_authorized_updater(&admin, addr("u")), Err(CommitmentError::AlreadyAuthorized));
    core.remove_authorized_updater(&admin, &addr("u")).unwrap();
    assert_eq!(core.remove_authorized_updater(&admin, &addr("u")), Err(CommitmentError::NotAuthorized));
}

#[test]
fn test_update_non_active_commitment() {
    let (mut core, admin) = setup();
    let owner = addr("owner");
    let mut commitment = create_test_commitment("commit_7", &owner, 10000, 7500, 20, 365, 1000);
    commitment.status = CommitmentStatus::Violated;
    core.store_commitment(commitment);
    let result = core.update_value(&admin, &id("commit_7"), 8000, 1000);
    assert_eq!(result, Err(CommitmentError::InactiveCommitment));
}

#[test]
fn violation_then_update_is_inactive() {
    let (mut core, admin) = setup();
    let owner = addr("owner");
    core.store_commitment(create_test_commitment("c", &owner, 10000, 10000, 20, 365, 1000));
    core.update_value(&admin, &id("c"), 7000, 1000).unwrap();
    assert_eq!(core.get_commitment(&id("c")).unwrap().status, CommitmentStatus::Violated);
    assert_eq!(core.update_value(&admin, &id("c"), 9900, 1000), Err(CommitmentError::InactiveCommitment));
}

#[test]
fn test_edge_case_zero_initial_value() {
    let (mut core, admin) = setup();
    let owner = addr("owner");
    core.store_commitment(create_test_commitment("commit_8", &owner, 0, 0, 20, 365, 1000));
    let new_value = 1000;
    core.update_value(&admin, &id("commit_8"), new_value, 1000).unwrap();
    let commitment = core.get_commitment(&id("commit_8")).unwrap();
    assert_eq!(commitment.current_value, new_value);
    assert_eq!(commitment.status, CommitmentStatus::Active);
}

#[test]
fn test_create_commitment() {
    let (mut core, _) = setup();
    let owner = addr("owner");
    let now = 5000;
    let token = core
        .create_commitment(id("c1"), owner.clone(), 1000, addr("asset"), rules(30, 10, "safe"), now)
        .unwrap();
    assert_eq!(token, 1);
    let c = core.get_commitment(&id("c1")).unwrap();
    assert_eq!(c.status, CommitmentStatus::Active);
    assert_eq!(c.current_value, 1000);
    assert_eq!(c.amount, 1000);
    assert_eq!(c.created_at, now);
    assert_eq!(c.expires_at, now + 30 * DAY);
    assert_eq!(c.nft_token_id, 1);
    assert_eq!(c.owner, owner);
    assert_eq!(
        core.create_commitment(id("c1"), owner, 1000, addr("asset"), rules(30, 10, "safe"), now),
        Err(CommitmentError::AlreadyExists)
    );
}

#[test]
fn create_requires_initialization() {
    let mut core = CommitmentCoreContract::new();
    let result = core.create_commitment(id("c1"), addr("o"), 1000, addr("a"), rules(30, 10, "safe"), 0);
    assert_eq!(result, Err(CommitmentError::NotInitialized));
}

#[test]
fn create_rejects_bad_amount_and_expiry() {
    let (mut core, _) = setup();
    assert_eq!(
        core.create_commitment(id("c"), addr("o"), 0, addr("a"), rules(30, 10, "safe"), 0),
        Err(CommitmentError::InvalidAmount)
    );
    assert_eq!(
        core.create_commitment(id("c"), addr("o"), 10, addr("a"), rules(30, 10, "safe"), u64::MAX - 10),
        Err(CommitmentError::InvalidDuration)
    );
    assert_eq!(
        core.create_commitment(id("c"), addr("o"), 10, addr("a"), rules(0, 10, "safe"), 0),
        Err(CommitmentError::InvalidDuration)
    );
    assert!(core.get_commitment(&id("c")).is_err());
}

#[test]
fn test_edge_case_negative_drawdown() {
    assert_eq!(CommitmentCoreContract::calculate_drawdown_percent(1000, 1100), -10);
    assert_eq!(CommitmentCoreContract::calculate_drawdown_percent(1000, 1005), 0);
    assert!(!CommitmentCoreContract::check_violation(1000, 5000, 0));
}

#[test]
fn drawdown_formula_values() {
    assert_eq!(CommitmentCoreContract::calculate_drawdown_percent(10000, 7500), 25);
    assert_eq!(CommitmentCoreContract::calculate_drawdown_percent(1000, 999), 0);
    assert_eq!(CommitmentCoreContract::calculate_drawdown_percent(3, 1), 66);
    assert_eq!(CommitmentCoreContract::calculate_drawdown_percent(-1000, -1500), -50);
    assert_eq!(CommitmentCoreContract::calculate_drawdown_percent(0, 12345), 0);
    assert_eq!(CommitmentCoreContract::calculate_drawdown_percent(0, -7), 0);
}

#[test]
fn loss_limit_boundary() {
    assert!(!CommitmentCoreContract::check_violation(10000, 8000, 20));
    // 20.01% truncates to 20, which is within the limit.
    assert_eq!(CommitmentCoreContract::calculate_drawdown_percent(10000, 7999), 20);
    assert!(!CommitmentCoreContract::check_violation(10000, 7999, 20));
    assert!(CommitmentCoreContract::check_violation(10000, 7900, 20));
    assert!(!CommitmentCoreContract::check_violation(0, 0, 0));
}

#[test]
fn has_violation_combines_loss_and_expiry() {
    assert!(!CommitmentCoreContract::has_violation(1000, 950, 10, 99, 100));
    assert!(CommitmentCoreContract::has_violation(1000, 850, 10, 99, 100));
    assert!(CommitmentCoreContract::has_violation(1000, 950, 10, 100, 100));
    assert!(!CommitmentCoreContract::has_violation(0, 0, 10, 0, 100));
}

#[test]
fn duration_boundary() {
    assert!(commitments::risk::is_duration_violated(500, 500));
    assert!(!commitments::risk::is_duration_violated(499, 500));
    assert!(commitments::risk::is_duration_violated(501, 500));
}

#[test]
fn test_create_commitment_valid() {
    let rules = rules(30, 10, "safe");
    assert_eq!(CommitmentCoreContract::validate_rules(&rules), Ok(()));
}

#[test]
fn test_validate_rules_invalid_duration() {
    let rules = rules(0, 10, "safe");
    assert_eq!(CommitmentCoreContract::validate_rules(&rules), Err(CommitmentError::InvalidDuration));
}

#[test]
fn test_validate_rules_invalid_max_loss() {
    let rules = rules(30, 150, "safe");
    assert_eq!(CommitmentCoreContract::validate_rules(&rules), Err(CommitmentError::InvalidMaxLoss));
}

#[test]
fn test_validate_rules_invalid_type() {
    let rules = rules(30, 10, "invalid_type");
    assert_eq!(
        CommitmentCoreContract::validate_rules(&rules),
        Err(CommitmentError::InvalidCommitmentType)
    );
}

#[test]
fn test_update_nonexistent_commitment() {
    let (mut core, admin) = setup();
    assert_eq!(core.update_value(&admin, &id("nonexistent"), 9500, 1000), Err(CommitmentError::NotFound));
}

#[test]
fn test_check_violations() {
    let (mut core, _) = setup();
    let owner = addr("owner");
    core.store_commitment(create_test_commitment("commit_10", &owner, 10000, 7500, 20, 365, 1000));
    assert!(core.check_violations(&id("commit_10"), 0).unwrap());
}

#[test]
fn violation_scenario_details() {
    let (mut core, admin) = setup();
    let owner = addr("owner");
    core.store_commitment(create_test_commitment("s", &owner, 10000, 10000, 20, 365, 1000));
    core.update_value(&admin, &id("s"), 7500, 1000).unwrap();
    let now = 1000 + DAY;
    assert!(core.check_violations(&id("s"), now).unwrap());
    let (has, loss, duration, percent, remaining) = core.get_violation_details(&id("s"), now).unwrap();
    assert!(has);
    assert!(loss);
    assert!(!duration);
    assert_eq!(percent, 25);
    assert_eq!(remaining, 364 * DAY);
}

#[test]
fn test_get_admin() {
    let (core, admin) = setup();
    assert_eq!(core.get_admin().unwrap(), admin);
    assert!(core.is_admin(&admin));
}

#[test]
fn test_get_nft_contract() {
    let (core, _) = setup();
    assert_eq!(core.get_nft_contract().unwrap(), addr("nft_contract"));
    assert_eq!(CommitmentCoreContract::new().get_nft_contract(), Err(CommitmentError::NotInitialized));
}

fn stored(id_str: &str, amount: i128, current: i128, max_loss: u32) -> (CommitmentCoreContract, u64) {
    let (mut core, _) = setup();
    let owner = addr("owner");
    let created_at = 1000u64;
    core.store_commitment(create_test_commitment(id_str, &owner, amount, current, max_loss, 30, created_at));
    (core, created_at)
}

#[test]
fn test_check_violations_no_violations() {
    let (core, created_at) = stored("test_commitment_1", 1000, 950, 10);
    let has = core.check_violations(&id("test_commitment_1"), created_at + 15 * DAY).unwrap();
    assert!(!has, "Should not have violations");
}

#[test]
fn test_check_violations_loss_limit_exceeded() {
    let (core, created_at) = stored("test_commitment_2", 1000, 850, 10);
    let has = core.check_violations(&id("test_commitment_2"), created_at + 5 * DAY).unwrap();
    assert!(has, "Should have loss limit violation");
}

#[test]
fn test_check_violations_duration_expired() {
    let (core, created_at) = stored("test_commitment_3", 1000, 980, 10);
    let has = core.check_violations(&id("test_commitment_3"), created_at + 31 * DAY).unwrap();
    assert!(has, "Should have duration violation");
}

#[test]
fn test_check_violations_both_violations() {
    let (core, created_at) = stored("test_commitment_4", 1000, 800, 10);
    let has = core.check_violations(&id("test_commitment_4"), created_at + 31 * DAY).unwrap();
    assert!(has, "Should have both violations");
}

#[test]
fn test_get_violation_details_no_violations() {
    let (core, created_at) = stored("test_commitment_5", 1000, 950, 10);
    let (has_violations, loss_violated, duration_violated, loss_percent, time_remaining) =
        core.get_violation_details(&id("test_commitment_5"), created_at + 15 * DAY).unwrap();
    assert!(!has_violations, "Should not have violations");
    assert!(!loss_violated, "Loss should not be violated");
    assert!(!duration_violated, "Duration should not be violated");
    assert_eq!(loss_percent, 5, "Loss percent should be 5%");
    assert!(time_remaining > 0, "Time should remain");
    assert_eq!(time_remaining, 15 * DAY);
}

#[test]
fn test_get_violation_details_loss_violation() {
    let (core, created_at) = stored("test_commitment_6", 1000, 850, 10);
    let (has_violations, loss_violated, duration_violated, loss_percent, _time_remaining) =
        core.get_violation_details(&id("test_commitment_6"), created_at + 10 * DAY).unwrap();
    assert!(has_violations, "Should have violations");
    assert!(loss_violated, "Loss should be violated");
    assert!(!duration_violated, "Duration should not be violated");
    assert_eq!(loss_percent, 15, "Loss percent should be 15%");
}

#[test]
fn test_get_violation_details_duration_violation() {
    let (core, created_at) = stored("test_commitment_7", 1000, 980, 10);
    let (has_violations, loss_violated, duration_violated, _loss_percent, time_remaining) =
        core.get_violation_details(&id("test_commitment_7"), created_at + 31 * DAY).unwrap();
    assert!(has_violations, "Should have violations");
    assert!(!loss_violated, "Loss should not be violated");
    assert!(duration_violated, "Duration should be violated");
    assert_eq!(time_remaining, 0, "Time remaining should be 0");
}

#[test]
fn test_check_violations_not_found() {
    let (core, _) = setup();
    assert_eq!(core.check_violations(&id("nonexistent"), 0), Err(CommitmentError::NotFound));
    assert_eq!(core.get_violation_details(&id("nonexistent"), 0), Err(CommitmentError::NotFound));
}

#[test]
fn test_check_violations_edge_case_exact_loss_limit() {
    let (core, created_at) = stored("test_commitment_8", 1000, 900, 10);
    let has = core.check_violations(&id("test_commitment_8"), created_at + 15 * DAY).unwrap();
    assert!(!has, "Exactly at limit should not violate");
}

#[test]
fn test_check_violations_edge_case_exact_expiry() {
    let (core, _) = stored("test_commitment_9", 1000, 950, 10);
    let expires_at = core.get_commitment(&id("test_commitment_9")).unwrap().expires_at;
    let has = core.check_violations(&id("test_commitment_9"), expires_at).unwrap();
    assert!(has, "At expiry time should violate");
}

#[test]
fn test_check_violations_zero_amount() {
    let (core, created_at) = stored("test_commitment_10", 0, 0, 10);
    let has = core.check_violations(&id("test_commitment_10"), created_at + 15 * DAY).unwrap();
    assert!(!has, "Zero amount should not cause issues");
}

#[test]
fn test_update_value_event() {
    let (mut core, admin) = setup();
    let owner = addr("owner");
    let updater = addr("updater");
    core.store_commitment(create_test_commitment("test_id", &owner, 1000, 1000, 10, 30, 1000));
    core.add_authorized_updater(&admin, updater.clone()).unwrap();
    let update = core.update_value(&updater, &id("test_id"), 1100, 1000).unwrap();
    assert_eq!(update.old_value, 1000);
    assert_eq!(update.new_value, 1100);
    assert_eq!(update.drawdown_percent, -10);
    assert!(!update.violated);
}

#[test]
fn update_value_rejects_unrepresentable_drawdown() {
    let (mut core, admin) = setup();
    let owner = addr("owner");
    core.store_commitment(create_test_commitment("big", &owner, 1000, 1000, 10, 30, 1000));
    assert_eq!(core.update_value(&admin, &id("big"), i128::MIN, 1000), Err(CommitmentError::InvalidAmount));
    assert_eq!(core.get_commitment(&id("big")).unwrap().current_value, 1000);
}

#[test]
fn test_settle_event() {
    let (mut core, admin) = setup();
    assert_eq!(core.settle(&admin, &id("test_id"), 0), Err(CommitmentError::NotFound));
}

#[test]
fn test_early_exit_event() {
    let (mut core, _) = setup();
    assert_eq!(core.early_exit(&addr("caller"), &id("test_id"), 0), Err(CommitmentError::NotFound));
}

#[test]
fn test_allocate_event() {
    let (mut core, admin) = setup();
    assert_eq!(core.allocate(&admin, &id("test_id"), 500), Err(CommitmentError::NotFound));
}

#[test]
fn settle_lifecycle_unlocks_receipt() {
    let (mut core, _) = setup();
    let owner = addr("owner");
    core.create_commitment(id("c"), owner.clone(), 1000, addr("asset"), rules(30, 10, "safe"), 100)
        .unwrap();
    assert_eq!(core.settle(&owner, &id("c"), 100 + 30 * DAY - 1), Err(CommitmentError::NotExpired));
    assert_eq!(core.settle(&addr("stranger"), &id("c"), 100 + 30 * DAY), Err(CommitmentError::Unauthorized));
    assert_eq!(core.settle(&owner, &id("c"), 100 + 30 * DAY), Ok(1000));
    assert_eq!(core.get_commitment(&id("c")).unwrap().status, CommitmentStatus::Settled);
    assert_eq!(core.settle(&owner, &id("c"), 100 + 31 * DAY), Err(CommitmentError::AlreadySettled));
}

#[test]
fn early_exit_applies_penalty() {
    let (mut core, admin) = setup();
    let owner = addr("owner");
    core.create_commitment(id("c"), owner.clone(), 1000, addr("asset"), rules(30, 10, "safe"), 100)
        .unwrap();
    core.update_value(&admin, &id("c"), 955, 1000).unwrap();
    assert_eq!(core.early_exit(&admin, &id("c"), 200), Err(CommitmentError::Unauthorized));
    assert_eq!(core.early_exit(&owner, &id("c"), 100 + 30 * DAY), Err(CommitmentError::Expired));
    // 5% of 955, rounded down.
    assert_eq!(core.early_exit(&owner, &id("c"), 200), Ok((908, 47)));
    assert_eq!(core.get_commitment(&id("c")).unwrap().status, CommitmentStatus::EarlyExited);
    assert_eq!(core.early_exit(&owner, &id("c"), 300), Err(CommitmentError::InactiveCommitment));
    assert_eq!(core.update_value(&admin, &id("c"), 900, 1000), Err(CommitmentError::InactiveCommitment));
}

#[test]
fn allocation_never_exceeds_principal() {
    let (mut core, admin) = setup();
    let owner = addr("owner");
    core.create_commitment(id("c"), owner, 1000, addr("asset"), rules(30, 10, "safe"), 100).unwrap();
    assert_eq!(core.allocate(&addr("stranger"), &id("c"), 10), Err(CommitmentError::Unauthorized));
    assert_eq!(core.allocate(&admin, &id("c"), 0), Err(CommitmentError::InvalidAmount));
    assert_eq!(core.allocate(&admin, &id("c"), 600), Ok(()));
    assert_eq!(core.allocate(&admin, &id("c"), 401), Err(CommitmentError::InsufficientBalance));
    assert_eq!(core.allocate(&admin, &id("c"), 400), Ok(()));
    assert_eq!(core.get_commitment(&id("c")).unwrap().allocated_amount, 1000);
    assert_eq!(core.deallocate(&admin, &id("c"), 1001), Err(CommitmentError::InsufficientBalance));
    assert_eq!(core.deallocate(&admin, &id("c"), 250), Ok(()));
    let c = core.get_commitment(&id("c")).unwrap();
    assert_eq!(c.allocated_amount, 750);
    assert_eq!(c.current_value, 1000);
}

#[test]
fn update_after_expiry_marks_violation() {
    let (mut core, admin) = setup();
    let owner = addr("owner");
    core.store_commitment(create_test_commitment("late", &owner, 1000, 1000, 10, 30, 1000));
    let expires_at = 1000 + 30 * DAY;
    let update = core.update_value(&admin, &id("late"), 990, expires_at).unwrap();
    assert!(update.violated);
    assert_eq!(update.drawdown_percent, 1);
    assert_eq!(core.get_commitment(&id("late")).unwrap().status, CommitmentStatus::Violated);
}

#[test]
fn violation_queries_ignore_cached_status() {
    let (mut core, _) = setup();
    let owner = addr("owner");
    let mut c = create_test_commitment("cached", &owner, 1000, 1000, 10, 30, 1000);
    c.status = CommitmentStatus::Violated;
    core.store_commitment(c);
    assert_eq!(core.check_violations(&id("cached"), 2000), Ok(false));
    let (has, loss, duration, percent, _) = core.get_violation_details(&id("cached"), 2000).unwrap();
    assert!(!has && !loss && !duration);
    assert_eq!(percent, 0);
}
