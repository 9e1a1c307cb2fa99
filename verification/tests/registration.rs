//! End-to-end tests of the availability operation and the registration
//! orchestrator, driven against the in-memory store.

use registration_core::auth::{FlowConfig, Stage, StageAttempt};
use registration_core::errors::ErrorKind;
use registration_core::registrar::{
    AvailabilityOutcome, RegisterOutcome, Registrar, RegistrationRequest,
};
use registration_core::store::{AccountKind, InsertOutcome, MemoryStore, Store};

fn registrar_with_taken(flows: Vec<Vec<Stage>>) -> Registrar<MemoryStore> {
    let mut store = MemoryStore::new();
    assert_eq!(store.insert_account("taken", AccountKind::User), InsertOutcome::Inserted);
    Registrar::new(store, FlowConfig { flows })
}

fn guest_request(username: Option<&str>) -> RegistrationRequest {
    RegistrationRequest {
        kind: AccountKind::Guest,
        username: username.map(|u| u.to_owned()),
        auth_session: None,
        auth_submission: None,
        device_id: None,
        initial_device_display_name: None,
    }
}

fn user_request(username: Option<&str>) -> RegistrationRequest {
    RegistrationRequest {
        kind: AccountKind::User,
        username: username.map(|u| u.to_owned()),
        auth_session: None,
        auth_submission: None,
        device_id: None,
        initial_device_display_name: None,
    }
}

#[test]
fn test_get_available_username_taken() {
    let reg = registrar_with_taken(vec![]);
    let r = reg.check_availability("taken");
    assert_eq!(r, AvailabilityOutcome::Unavailable(ErrorKind::UserInUse));
    assert_eq!(r.status_code(), 400);
}

#[test]
fn test_get_available_username_available() {
    let reg = registrar_with_taken(vec![]);
    let r = reg.check_availability("taken_nottaken");
    assert_eq!(r, AvailabilityOutcome::Available);
    assert!((200..300).contains(&r.status_code()));
}

#[test]
fn test_get_available_username_invalid() {
    let reg = registrar_with_taken(vec![]);
    let r = reg.check_availability("t@ken");
    assert_eq!(r, AvailabilityOutcome::Unavailable(ErrorKind::InvalidUsername));
    assert_eq!(r.status_code(), 400);
}

#[test]
fn availability_on_failing_storage_is_a_server_error() {
    let mut store = MemoryStore::new();
    store.set_failing(true);
    let reg = Registrar::new(store, FlowConfig { flows: vec![] });
    let r = reg.check_availability("anyname");
    assert_eq!(r, AvailabilityOutcome::Unavailable(ErrorKind::StorageFailure));
    assert_eq!(r.status_code(), 500);
}

#[test]
fn availability_is_advisory_and_reserves_nothing() {
    let mut reg = registrar_with_taken(vec![vec![Stage::Dummy]]);
    assert_eq!(reg.check_availability("newname"), AvailabilityOutcome::Available);
    // Checking availability writes nothing: the name stays available.
    assert_eq!(reg.check_availability("newname"), AvailabilityOutcome::Available);
    let mut req = user_request(Some("newname"));
    req.auth_submission = Some(StageAttempt { stage: Stage::Dummy, proof_valid: true });
    assert!(matches!(reg.register(&req, 0), RegisterOutcome::Success { .. }));
    assert_eq!(reg.check_availability("newname"), AvailabilityOutcome::Unavailable(ErrorKind::UserInUse));
}

#[test]
fn guest_registration_ignores_supplied_usernames() {
    let mut reg = registrar_with_taken(vec![vec![Stage::Password]]);
    let a = reg.register(&guest_request(Some("alice")), 0);
    let b = reg.register(&guest_request(Some("bob")), 0);
    let (id_a, dev_a, tok_a) = match a {
        RegisterOutcome::Success { user_id, device_id, access_token } => {
            (user_id, device_id, access_token)
        },
        other => panic!("guest registration failed: {:?}", other),
    };
    let (id_b, dev_b, tok_b) = match b {
        RegisterOutcome::Success { user_id, device_id, access_token } => {
            (user_id, device_id, access_token)
        },
        other => panic!("guest registration failed: {:?}", other),
    };
    assert_ne!(id_a, id_b);
    assert_ne!(id_a, "alice");
    assert_ne!(id_b, "bob");
    assert!(registration_core::username::validate(&id_a).is_ok());
    assert!(registration_core::username::validate(&id_b).is_ok());
    assert_ne!(dev_a, dev_b);
    assert_ne!(tok_a, tok_b);
}

#[test]
fn guest_registration_ignores_a_supplied_device_id() {
    let mut reg = registrar_with_taken(vec![]);
    let mut req = guest_request(None);
    req.device_id = Some("CLIENTPICKED".to_owned());
    match reg.register(&req, 0) {
        RegisterOutcome::Success { device_id, .. } => assert_ne!(device_id, "CLIENTPICKED"),
        other => panic!("guest registration failed: {:?}", other),
    }
}

#[test]
fn guest_registration_skips_the_auth_flow() {
    let mut reg = registrar_with_taken(vec![vec![Stage::Password, Stage::Recaptcha]]);
    let r = reg.register(&guest_request(None), 0);
    assert!(matches!(r, RegisterOutcome::Success { .. }));
}

#[test]
fn user_registration_completes_over_two_rounds() {
    let mut reg = registrar_with_taken(vec![vec![Stage::Password, Stage::Recaptcha]]);
    let mut req = user_request(Some("alice"));
    req.auth_submission = Some(StageAttempt { stage: Stage::Password, proof_valid: true });
    let first = reg.register(&req, 10);
    let sid = match first {
        RegisterOutcome::AuthIncomplete { session_id, remaining } => {
            assert_eq!(remaining, vec![vec![Stage::Recaptcha]]);
            session_id
        },
        other => panic!("expected an incomplete auth round, got {:?}", other),
    };
    req.auth_session = Some(sid);
    req.auth_submission = Some(StageAttempt { stage: Stage::Recaptcha, proof_valid: true });
    let second = reg.register(&req, 20);
    match second {
        RegisterOutcome::Success { user_id, device_id, access_token } => {
            assert_eq!(user_id, "alice");
            assert!(!device_id.is_empty());
            assert_eq!(reg.check_token(&access_token), Ok(true));
        },
        other => panic!("expected success, got {:?}", other),
    }
}

#[test]
fn stages_complete_in_any_order() {
    let mut reg = registrar_with_taken(vec![vec![Stage::Password, Stage::Recaptcha]]);
    let mut req = user_request(Some("carol"));
    req.auth_submission = Some(StageAttempt { stage: Stage::Recaptcha, proof_valid: true });
    let first = reg.register(&req, 0);
    let sid = match first {
        RegisterOutcome::AuthIncomplete { session_id, remaining } => {
            assert_eq!(remaining, vec![vec![Stage::Password]]);
            session_id
        },
        other => panic!("expected an incomplete auth round, got {:?}", other),
    };
    req.auth_session = Some(sid);
    req.auth_submission = Some(StageAttempt { stage: Stage::Password, proof_valid: true });
    assert!(matches!(reg.register(&req, 1), RegisterOutcome::Success { .. }));
}

#[test]
fn resubmitting_a_completed_stage_is_a_noop() {
    let mut reg = registrar_with_taken(vec![vec![Stage::Password, Stage::Recaptcha]]);
    let mut req = user_request(Some("dave"));
    req.auth_submission = Some(StageAttempt { stage: Stage::Password, proof_valid: true });
    let sid = match reg.register(&req, 0) {
        RegisterOutcome::AuthIncomplete { session_id, .. } => session_id,
        other => panic!("expected an incomplete auth round, got {:?}", other),
    };
    req.auth_session = Some(sid);
    let again = reg.register(&req, 1);
    match again {
        RegisterOutcome::AuthIncomplete { session_id, remaining } => {
            assert_eq!(session_id, sid);
            assert_eq!(remaining, vec![vec![Stage::Recaptcha]]);
        },
        other => panic!("expected the same incomplete state, got {:?}", other),
    }
}

#[test]
fn a_failed_stage_proof_leaves_the_session_unchanged() {
    let mut reg = registrar_with_taken(vec![vec![Stage::Password]]);
    let mut req = user_request(Some("erin"));
    req.auth_submission = Some(StageAttempt { stage: Stage::Password, proof_valid: false });
    match reg.register(&req, 0) {
        RegisterOutcome::AuthIncomplete { remaining, .. } => {
            assert_eq!(remaining, vec![vec![Stage::Password]]);
        },
        other => panic!("expected an incomplete auth round, got {:?}", other),
    }
}

#[test]
fn an_expired_session_starts_over() {
    let mut reg = registrar_with_taken(vec![vec![Stage::Password, Stage::Recaptcha]]);
    let mut req = user_request(Some("frank"));
    req.auth_submission = Some(StageAttempt { stage: Stage::Password, proof_valid: true });
    let sid = match reg.register(&req, 0) {
        RegisterOutcome::AuthIncomplete { session_id, .. } => session_id,
        other => panic!("expected an incomplete auth round, got {:?}", other),
    };
    req.auth_session = Some(sid);
    req.auth_submission = Some(StageAttempt { stage: Stage::Recaptcha, proof_valid: true });
    // Far past the session's expiry: the earlier password stage is gone.
    match reg.register(&req, 10_000) {
        RegisterOutcome::AuthIncomplete { remaining, .. } => {
            assert_eq!(remaining, vec![vec![Stage::Password]]);
        },
        other => panic!("expected a restarted session, got {:?}", other),
    }
}

#[test]
fn purged_sessions_start_over_under_a_fresh_id() {
    let mut reg = registrar_with_taken(vec![vec![Stage::Password, Stage::Recaptcha]]);
    let mut req = user_request(Some("heidi"));
    req.auth_submission = Some(StageAttempt { stage: Stage::Password, proof_valid: true });
    let sid = match reg.register(&req, 0) {
        RegisterOutcome::AuthIncomplete { session_id, .. } => session_id,
        other => panic!("expected an incomplete auth round, got {:?}", other),
    };
    reg.purge_expired_sessions(10_000);
    req.auth_session = Some(sid);
    req.auth_submission = Some(StageAttempt { stage: Stage::Recaptcha, proof_valid: true });
    match reg.register(&req, 10_001) {
        RegisterOutcome::AuthIncomplete { session_id, remaining } => {
            assert_ne!(session_id, sid);
            assert_eq!(remaining, vec![vec![Stage::Password]]);
        },
        other => panic!("expected a restarted session, got {:?}", other),
    }
}

#[test]
fn register_rejects_an_invalid_username_before_storage() {
    let mut store = MemoryStore::new();
    store.set_failing(true);  // storage would err, but validation comes first
    let mut reg = Registrar::new(store, FlowConfig { flows: vec![] });
    let r = reg.register(&user_request(Some("t@ken")), 0);
    match r {
        RegisterOutcome::Failed(e) => {
            assert_eq!(e, ErrorKind::InvalidUsername);
            assert_eq!(e.status_code(), 400);
            assert_eq!(e.code(), "M_INVALID_USERNAME");
        },
        other => panic!("expected a validation failure, got {:?}", other),
    }
}

#[test]
fn register_surfaces_a_taken_username() {
    let mut reg = registrar_with_taken(vec![]);
    let r = reg.register(&user_request(Some("taken")), 0);
    assert!(matches!(r, RegisterOutcome::Failed(ErrorKind::UserInUse)));
}

#[test]
fn register_on_failing_storage_is_a_server_error() {
    let mut store = MemoryStore::new();
    store.set_failing(true);
    let mut reg = Registrar::new(store, FlowConfig { flows: vec![] });
    let r = reg.register(&guest_request(None), 0);
    match r {
        RegisterOutcome::Failed(e) => {
            assert_eq!(e, ErrorKind::StorageFailure);
            assert_eq!(e.status_code(), 500);
        },
        other => panic!("expected a storage failure, got {:?}", other),
    }
}

#[test]
fn register_honours_a_client_device_id() {
    let mut reg = registrar_with_taken(vec![vec![Stage::Dummy]]);
    let mut req = user_request(Some("grace"));
    req.auth_submission = Some(StageAttempt { stage: Stage::Dummy, proof_valid: true });
    req.device_id = Some("PHONE".to_owned());
    match reg.register(&req, 0) {
        RegisterOutcome::Success { device_id, .. } => assert_eq!(device_id, "PHONE"),
        other => panic!("expected success, got {:?}", other),
    }
}

#[test]
fn the_provisioner_revalidates_and_rejects_rather_than_transforms() {
    let mut reg = registrar_with_taken(vec![]);
    let bad = "Weird Name".to_owned();
    assert_eq!(reg.provision(AccountKind::User, Some(&bad)), Err(ErrorKind::InvalidUsername));
    let taken = "taken".to_owned();
    assert_eq!(reg.provision(AccountKind::User, Some(&taken)), Err(ErrorKind::UserInUse));
    let fine = "fine.name".to_owned();
    assert_eq!(reg.provision(AccountKind::User, Some(&fine)), Ok("fine.name".to_owned()));
    assert_eq!(reg.provision(AccountKind::User, Some(&fine)), Err(ErrorKind::UserInUse));
}

#[test]
fn reissuing_for_a_device_invalidates_the_prior_token() {
    let mut reg = registrar_with_taken(vec![]);
    let dev = "laptop".to_owned();
    let (dev_a, tok_a) = reg.issue("alice", Some(&dev)).expect("first issue");
    assert_eq!(reg.check_token(&tok_a), Ok(true));
    let (dev_b, tok_b) = reg.issue("alice", Some(&dev)).expect("second issue");
    assert_eq!(dev_a, dev_b);
    assert_ne!(tok_a, tok_b);
    assert_eq!(reg.check_token(&tok_a), Ok(false));
    assert_eq!(reg.check_token(&tok_b), Ok(true));
}

#[test]
fn tokens_of_other_devices_survive_a_reissue() {
    let mut reg = registrar_with_taken(vec![]);
    let phone = "phone".to_owned();
    let laptop = "laptop".to_owned();
    let (_, tok_phone) = reg.issue("alice", Some(&phone)).expect("phone issue");
    let (_, tok_laptop) = reg.issue("alice", Some(&laptop)).expect("laptop issue");
    let (_, tok_laptop2) = reg.issue("alice", Some(&laptop)).expect("laptop re-issue");
    assert_eq!(reg.check_token(&tok_phone), Ok(true));
    assert_eq!(reg.check_token(&tok_laptop), Ok(false));
    assert_eq!(reg.check_token(&tok_laptop2), Ok(true));
}

#[test]
fn an_unknown_token_fails_authorization() {
    let reg = registrar_with_taken(vec![]);
    assert_eq!(reg.check_token("nosuchtoken"), Ok(false));
}
