use toroidal_tql::two_phase_commit::{
    Operation, OperationType, ParticipantState, TransactionStatus, TwoPCConfig, TwoPCError, TwoPhaseCommit,
};

#[test]
fn test_two_pc_new() {
    let mut two_pc = TwoPhaseCommit::new(TwoPCConfig::default());
    two_pc.register_participant("node1", "http://localhost:8081");
    two_pc.register_participant("node2", "http://localhost:8082");
}

#[test]
fn test_begin_transaction() {
    let mut two_pc = TwoPhaseCommit::new(TwoPCConfig::default());
    two_pc.register_participant("node1", "http://localhost:8081");

    let tx_id = two_pc.begin_transaction(vec!["node1".to_string()]).unwrap();
    assert!(!tx_id.is_empty());
}

#[test]
fn test_prepare_commit() {
    let mut two_pc = TwoPhaseCommit::new(TwoPCConfig::default());
    two_pc.register_participant("node1", "http://localhost:8081");

    let tx_id = two_pc.begin_transaction(vec!["node1".to_string()]).unwrap();

    let op = Operation {
        op_type: OperationType::Insert,
        table: "users".to_string(),
        key: "1".to_string(),
        value: Some(b"data".to_vec()),
    };

    two_pc.add_operation(&tx_id, op).unwrap();

    let prepared = two_pc.prepare(&tx_id).unwrap();
    assert!(prepared);

    two_pc.commit(&tx_id).unwrap();

    let status = two_pc.get_status(&tx_id).unwrap();
    assert!(matches!(status, TransactionStatus::Committed));
}

#[test]
fn test_abort() {
    let mut two_pc = TwoPhaseCommit::new(TwoPCConfig::default());
    two_pc.register_participant("node1", "http://localhost:8081");

    let tx_id = two_pc.begin_transaction(vec!["node1".to_string()]).unwrap();

    two_pc.abort_transaction(&tx_id).unwrap();

    let status = two_pc.get_status(&tx_id).unwrap();
    assert!(matches!(status, TransactionStatus::Aborted));
}

#[test]
fn config_defaults() {
    let c = TwoPCConfig::default();
    assert_eq!(c.prepare_timeout_secs, 30);
    assert_eq!(c.commit_timeout_secs, 30);
    assert_eq!(c.max_retries, 3);
}

#[test]
fn unknown_transaction_is_not_found() {
    let mut two_pc = TwoPhaseCommit::new(TwoPCConfig::default());
    assert!(matches!(two_pc.prepare("nope"), Err(TwoPCError::TransactionNotFound)));
    assert!(matches!(two_pc.commit("nope"), Err(TwoPCError::TransactionNotFound)));
    assert!(matches!(two_pc.abort_transaction("nope"), Err(TwoPCError::TransactionNotFound)));
    assert!(two_pc.get_status("nope").is_none());
    assert!(two_pc.get_transaction("nope").is_none());
}

#[test]
fn prepare_with_unregistered_participant_fails() {
    let mut two_pc = TwoPhaseCommit::new(TwoPCConfig::default());
    two_pc.register_participant("node1", "http://localhost:8081");
    let tx = two_pc.begin_transaction(vec!["node9".to_string()]).unwrap();
    assert!(matches!(two_pc.prepare(&tx), Err(TwoPCError::ParticipantFailed)));
    assert!(matches!(two_pc.get_status(&tx), Some(TransactionStatus::Preparing)));
}

#[test]
fn commit_is_final() {
    let mut two_pc = TwoPhaseCommit::new(TwoPCConfig::default());
    two_pc.register_participant("a", "http://a");
    two_pc.register_participant("b", "http://b");
    let tx = two_pc.begin_transaction(vec!["a".to_string(), "b".to_string()]).unwrap();
    assert!(two_pc.prepare(&tx).unwrap());
    two_pc.commit(&tx).unwrap();
    assert!(matches!(two_pc.abort_transaction(&tx), Err(TwoPCError::InvalidState)));
    // the refused abort leaves the transaction marked as aborting
    assert!(matches!(two_pc.get_status(&tx), Some(TransactionStatus::Aborting)));
    assert!(matches!(two_pc.participant_state("a"), Some(ParticipantState::Committed)));
}

#[test]
fn operations_are_recorded() {
    let mut two_pc = TwoPhaseCommit::new(TwoPCConfig::default());
    two_pc.register_participant("a", "http://a");
    let tx = two_pc.begin_transaction(vec!["a".to_string()]).unwrap();
    let op = Operation { op_type: OperationType::Delete, table: "t".to_string(), key: "k".to_string(), value: None };
    two_pc.add_operation(&tx, op).unwrap();
    let t = two_pc.get_transaction(&tx).unwrap();
    assert_eq!(t.operations.len(), 1);
    assert_eq!(t.operations[0].table, "t");
    assert_eq!(tx.len(), 36);
}

#[test]
fn transaction_ids_are_v4_uuids() {
    let mut two_pc = TwoPhaseCommit::new(TwoPCConfig::default());
    for _ in 0..5 {
        let tx = two_pc.begin_transaction(vec![]).unwrap();
        let c: Vec<char> = tx.chars().collect();
        assert_eq!(c.len(), 36);
        for (i, ch) in c.iter().enumerate() {
            if [8, 13, 18, 23].contains(&i) {
                assert_eq!(*ch, '-');
            } else {
                assert!(ch.is_ascii_digit() || ('a'..='f').contains(ch));
            }
        }
        assert_eq!(c[14], '4');
        assert!(['8', '9', 'a', 'b'].contains(&c[19]));
    }
}
