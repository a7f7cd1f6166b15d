use fluree_migrate::connection::{
    get_db_name, ConnectionFsm, ConnectionPhase, FlureeInstance, ResponseOutcome, RetryAction,
    BACKOFF_SECONDS, MAX_ATTEMPTS,
};

fn target() -> FlureeInstance {
    FlureeInstance::new_target(
        "http://localhost:8090/fdb/net/db".to_string(),
        None,
        true,
    )
}

#[test]
fn db_name_from_url() {
    let (network, db) = get_db_name("http://localhost:8090/fdb/net/db");
    assert_eq!(network, "net");
    assert_eq!(db, "db");
    let (network, db) = get_db_name("net/db");
    assert_eq!(network, "net");
    assert_eq!(db, "db");
}

#[test]
fn source_starts_optimistic() {
    let source = FlureeInstance::new_source(
        "http://host/fdb/net/db".to_string(),
        Some("SECRET-REDACTED".to_string()),
    );
    assert!(source.is_available);
    assert!(source.is_authorized);
    assert!(source.is_created);
    assert_eq!(source.network_name, "net");
    assert_eq!(source.db_name, "db");
}

#[test]
fn success_statuses_keep_flags() {
    let mut instance = target();
    assert!(instance.validate_result(&ResponseOutcome::Status(200)).is_ok());
    assert!(instance.is_available && instance.is_authorized);
    assert!(instance.validate_result(&ResponseOutcome::Status(201)).is_ok());
    assert!(instance.is_available && instance.is_authorized);
    // any successful status counts, not only 200 and 201
    assert!(instance.validate_result(&ResponseOutcome::Status(204)).is_ok());
    assert!(instance.is_available && instance.is_authorized);
    assert!(instance.validate_result(&ResponseOutcome::Status(299)).is_ok());
    assert!(instance.is_available && instance.is_authorized);
}

#[test]
fn unauthorized_without_key_asks_for_one() {
    let mut instance = target();
    let err = instance.validate_result(&ResponseOutcome::Status(401)).unwrap_err();
    assert!(instance.is_available);
    assert!(!instance.is_authorized);
    assert_eq!(
        err,
        "It appears you need to provide an API Key to access this database. Please try again."
    );
}

#[test]
fn unauthorized_with_key_blames_it() {
    let mut instance = FlureeInstance::new_target(
        "http://host/net/db".to_string(),
        Some("SECRET-REDACTED".to_string()),
        false,
    );
    let err = instance.validate_result(&ResponseOutcome::Status(403)).unwrap_err();
    assert_eq!(
        err,
        "The API Key you provided is not authorized to access this database. Please try again."
    );
}

#[test]
fn other_status_names_url_and_code() {
    let mut instance = target();
    let err = instance.validate_result(&ResponseOutcome::Status(404)).unwrap_err();
    assert!(!instance.is_available);
    assert!(instance.is_authorized);
    assert_eq!(
        err,
        "The request to [http://localhost:8090/fdb/net/db] returned a status code of 404. Please try again."
    );
}

#[test]
fn transport_failure_keeps_credential() {
    let mut instance = FlureeInstance::new_target(
        "http://host/net/db".to_string(),
        Some("SECRET-REDACTED".to_string()),
        false,
    );
    assert!(instance
        .validate_result(&ResponseOutcome::TransportFailure)
        .is_ok());
    assert!(!instance.is_available);
    // authorization is not doubted on pure connectivity loss
    assert!(instance.is_authorized);
}

// Open question inherited from the wire protocol: the created flag flips
// on any submission attempt, success or failure alike.
#[test]
fn create_semantics_used_exactly_once() {
    let mut instance = target();
    assert!(!instance.is_created);
    assert_eq!(instance.submission_path(), "create");
    assert!(instance.is_created);
    assert_eq!(instance.submission_path(), "transact");
    assert_eq!(instance.transact_endpoint(), "http://localhost:8090/fdb/net/db/fluree/transact");
}

#[test]
fn endpoints_derived_from_url() {
    let instance = target();
    assert_eq!(instance.query_endpoint(), "http://localhost:8090/fdb/net/db/fluree/query");
    assert_eq!(
        instance.schema_query_endpoint(),
        "http://localhost:8090/fdb/net/db/multi-query"
    );
    assert_eq!(instance.data_query_endpoint(), "http://localhost:8090/fdb/net/db/query");
}

#[test]
fn retry_loop_succeeds_immediately() {
    let mut fsm = ConnectionFsm::new(false);
    assert_eq!(fsm.phase, ConnectionPhase::Idle);
    assert_eq!(fsm.advance(true, true, true), RetryAction::Done);
    assert_eq!(fsm.phase, ConnectionPhase::Success);
}

#[test]
fn retry_loop_requests_until_result() {
    let mut fsm = ConnectionFsm::new(false);
    assert_eq!(fsm.advance(true, true, false), RetryAction::Request);
    assert_eq!(fsm.phase, ConnectionPhase::Querying);
    assert_eq!(fsm.advance(true, true, true), RetryAction::Done);
}

// A dead endpoint is retried with the fixed backoff before any
// remediation; once the retries are spent an attended run falls back to
// the interactive address prompt, with a fresh budget for the corrected
// address. A rejected credential prompts right away.
#[test]
fn attended_runs_back_off_then_prompt() {
    let mut fsm = ConnectionFsm::new(false);
    for attempt in 0..MAX_ATTEMPTS {
        assert_eq!(
            fsm.advance(false, true, false),
            RetryAction::Backoff(BACKOFF_SECONDS)
        );
        assert_eq!(fsm.phase, ConnectionPhase::Querying);
        assert_eq!(fsm.attempts, attempt + 1);
    }
    assert_eq!(fsm.advance(false, true, false), RetryAction::PromptUrl);
    assert_eq!(fsm.phase, ConnectionPhase::NeedsUrl);
    assert_eq!(fsm.attempts, 0);
    assert_eq!(fsm.advance(true, false, false), RetryAction::PromptKey);
    assert_eq!(fsm.phase, ConnectionPhase::NeedsAuth);
}

#[test]
fn unattended_runs_back_off_then_give_up() {
    let mut fsm = ConnectionFsm::new(true);
    for attempt in 0..MAX_ATTEMPTS {
        assert_eq!(
            fsm.advance(false, true, false),
            RetryAction::Backoff(BACKOFF_SECONDS)
        );
        assert_eq!(fsm.phase, ConnectionPhase::Querying);
        assert_eq!(fsm.attempts, attempt + 1);
    }
    assert_eq!(fsm.advance(false, true, false), RetryAction::GiveUp);
    assert_eq!(fsm.phase, ConnectionPhase::Fatal);
}

#[test]
fn success_resets_the_retry_budget() {
    let mut fsm = ConnectionFsm::new(true);
    assert_eq!(
        fsm.advance(false, true, false),
        RetryAction::Backoff(BACKOFF_SECONDS)
    );
    assert_eq!(fsm.advance(true, true, true), RetryAction::Done);
    assert_eq!(fsm.attempts, 0);
}
