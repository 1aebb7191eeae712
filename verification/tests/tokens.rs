use bynar::types::op_type_token;
use bynar::types::parse_op_type;
use bynar::types::parse_state;
use bynar::types::parse_status;
use bynar::types::state_token;
use bynar::types::status_token;
use bynar::types::OperationStatus;
use bynar::types::OperationType;
use bynar::types::State;

#[test]
fn test_state_tokens() {
    assert_eq!(state_token(State::Unscanned), "unscanned");
    assert_eq!(state_token(State::Good), "good");
    assert_eq!(
        state_token(State::WaitingForReplacement),
        "waiting_for_replacement"
    );
    for s in [State::Unscanned, State::Good, State::WaitingForReplacement] {
        assert_eq!(parse_state(&state_token(s)), s);
    }
    assert_eq!(parse_state(&String::from("corrupted value")), State::Unscanned);
}

#[test]
fn test_op_type_tokens() {
    assert_eq!(op_type_token(OperationType::DiskAdd), "diskadd");
    assert_eq!(op_type_token(OperationType::DiskReplace), "diskreplace");
    assert_eq!(op_type_token(OperationType::DiskRemove), "diskremove");
    assert_eq!(
        op_type_token(OperationType::WaitingForReplacement),
        "waiting_for_replacement"
    );
    assert_eq!(op_type_token(OperationType::Evaluation), "evaluation");
    for t in [
        OperationType::DiskAdd,
        OperationType::DiskReplace,
        OperationType::DiskRemove,
        OperationType::WaitingForReplacement,
        OperationType::Evaluation,
    ] {
        assert_eq!(parse_op_type(&op_type_token(t)), Some(t));
    }
    assert_eq!(parse_op_type(&String::from("diskclone")), None);
}

#[test]
fn test_status_tokens() {
    assert_eq!(status_token(OperationStatus::Pending), "pending");
    assert_eq!(status_token(OperationStatus::InProgress), "in_progress");
    assert_eq!(status_token(OperationStatus::Complete), "complete");
    for s in [
        OperationStatus::Pending,
        OperationStatus::InProgress,
        OperationStatus::Complete,
    ] {
        assert_eq!(parse_status(&status_token(s)), Some(s));
    }
    assert_eq!(parse_status(&String::from("done")), None);
}
