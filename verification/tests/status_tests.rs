use watchtower::status::TxStatus;

#[test]
fn status_names_round_trip() {
    let all = vec![
        TxStatus::Queued,
        TxStatus::Broadcasting,
        TxStatus::RetryScheduled,
        TxStatus::Executed,
        TxStatus::Expired,
        TxStatus::Invalid,
        TxStatus::StaleByNonce,
        TxStatus::CanceledLocally,
    ];
    for status in all {
        let name = status.as_str();
        assert_eq!(TxStatus::try_from(name), Ok(status));
    }
    assert_eq!(TxStatus::try_from("queued"), Ok(TxStatus::Queued));
    assert_eq!(TxStatus::try_from("stale_by_nonce"), Ok(TxStatus::StaleByNonce));
    assert!(TxStatus::try_from("unknown").is_err());
}

#[test]
fn terminal_states_are_the_five() {
    assert!(!TxStatus::Queued.is_terminal());
    assert!(!TxStatus::Broadcasting.is_terminal());
    assert!(!TxStatus::RetryScheduled.is_terminal());
    assert!(TxStatus::Executed.is_terminal());
    assert!(TxStatus::Expired.is_terminal());
    assert!(TxStatus::Invalid.is_terminal());
    assert!(TxStatus::StaleByNonce.is_terminal());
    assert!(TxStatus::CanceledLocally.is_terminal());
}
