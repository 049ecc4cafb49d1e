use watchtower::broadcaster::{
    aggregate_broadcast, classify_error, join_semi, outcome_no_endpoints, plan_broadcast,
    str_contains, BroadcastOutcome, EndpointReply, ErrorClass,
};

#[test]
fn classify_error_handles_known() {
    assert!(matches!(
        classify_error("already known"),
        ErrorClass::AlreadyKnown
    ));
    assert!(matches!(
        classify_error("known transaction"),
        ErrorClass::AlreadyKnown
    ));
}

#[test]
fn classify_error_handles_invalid() {
    assert!(matches!(
        classify_error("invalid signature"),
        ErrorClass::Invalid
    ));
    assert!(matches!(
        classify_error("fee payer signature invalid"),
        ErrorClass::Invalid
    ));
    assert!(matches!(
        classify_error("nonce key invalid"),
        ErrorClass::Invalid
    ));
}

#[test]
fn classify_error_defaults_retry() {
    assert!(matches!(classify_error("timeout"), ErrorClass::Retry));
    assert!(matches!(classify_error("temporary"), ErrorClass::Retry));
}

#[test]
fn classify_error_folds_case() {
    assert!(matches!(
        classify_error("ALREADY KNOWN"),
        ErrorClass::AlreadyKnown
    ));
    assert!(matches!(
        classify_error("Fee Payer signature"),
        ErrorClass::Invalid
    ));
}

#[test]
fn substring_search_is_exact() {
    assert!(str_contains("transaction already imported", "already imported"));
    assert!(!str_contains("already", "already imported"));
    assert!(str_contains("abc", ""));
    assert!(!str_contains("nonc e key", "nonce key"));
}

#[test]
fn aggregation_prefers_acceptance() {
    let replies = vec![
        EndpointReply::Rejected { message: "invalid signature".to_string() },
        EndpointReply::Sent,
    ];
    match aggregate_broadcast(&replies) {
        BroadcastOutcome::Accepted { error } => assert_eq!(error, None),
        other => panic!("expected acceptance, got {:?}", other),
    }
}

#[test]
fn aggregation_reports_invalidity() {
    let replies = vec![
        EndpointReply::Rejected { message: "tx malformed".to_string() },
        EndpointReply::TimedOut,
    ];
    match aggregate_broadcast(&replies) {
        BroadcastOutcome::Invalid { error } => assert_eq!(error, "tx malformed"),
        other => panic!("expected invalidity, got {:?}", other),
    }
}

#[test]
fn aggregation_joins_retry_texts() {
    let replies = vec![
        EndpointReply::Rejected { message: "connection refused".to_string() },
        EndpointReply::TimedOut,
    ];
    match aggregate_broadcast(&replies) {
        BroadcastOutcome::Retry { error } => {
            assert_eq!(error, "connection refused; broadcast timeout")
        },
        other => panic!("expected retry, got {:?}", other),
    }
}

#[test]
fn empty_endpoint_list_is_retryable() {
    match outcome_no_endpoints() {
        BroadcastOutcome::Retry { error } => assert_eq!(error, "no rpc endpoints"),
        other => panic!("expected retry, got {:?}", other),
    }
}

#[test]
fn rotation_spreads_attempts() {
    assert_eq!(plan_broadcast(3, 2, 0), vec![0, 1]);
    assert_eq!(plan_broadcast(3, 2, 1), vec![1, 2]);
    assert_eq!(plan_broadcast(3, 2, 2), vec![2, 0]);
    assert_eq!(plan_broadcast(3, 5, 0), vec![0, 1, 2]);
    assert_eq!(plan_broadcast(3, 0, 4), vec![1]);
}

#[test]
fn join_uses_semicolon_separator() {
    assert_eq!(join_semi(&vec![]), "");
    assert_eq!(join_semi(&vec!["a".to_string()]), "a");
    assert_eq!(
        join_semi(&vec!["a".to_string(), "b".to_string(), "c".to_string()]),
        "a; b; c"
    );
}
