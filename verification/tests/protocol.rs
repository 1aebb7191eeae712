use bynar::error::BynarError;
use bynar::protocol::decode_operation;
use bynar::protocol::encode_add_disk_request;
use bynar::protocol::encode_disks;
use bynar::protocol::encode_get_jira_tickets_request;
use bynar::protocol::encode_jira_result;
use bynar::protocol::encode_list_disks_request;
use bynar::protocol::encode_op_bool_result;
use bynar::protocol::encode_op_result;
use bynar::protocol::encode_remove_disk_request;
use bynar::protocol::encode_safe_to_remove_request;
use bynar::protocol::parse_get_jira_tickets_response;
use bynar::protocol::parse_list_disks_response;
use bynar::protocol::parse_op_result_response;
use bynar::protocol::parse_safe_to_remove_response;
use bynar::protocol::Disk;
use bynar::protocol::JiraInfo;
use bynar::protocol::Op;
use bynar::protocol::OpBoolResult;
use bynar::protocol::OpJiraTicketsResult;
use bynar::protocol::OpResult;
use bynar::protocol::ResultType;
use bynar::wire::decode_varint;
use bynar::wire::encode_varint;

#[test]
fn test_add_request_round_trip() {
    let encoded = encode_add_disk_request(&String::from("/dev/sdb"), None, true);
    let decoded = decode_operation(&encoded).unwrap();
    assert_eq!(decoded.op_type, Op::Add);
    assert_eq!(decoded.disk, Some(String::from("/dev/sdb")));
    assert_eq!(decoded.osd_id, None);
    assert_eq!(decoded.simulate, Some(true));
}

#[test]
fn test_remove_request_round_trip() {
    let encoded = encode_remove_disk_request(&String::from("/dev/sdc"), Some(12), false);
    let decoded = decode_operation(&encoded).unwrap();
    assert_eq!(decoded.op_type, Op::Remove);
    assert_eq!(decoded.disk, Some(String::from("/dev/sdc")));
    assert_eq!(decoded.osd_id, Some(12));
    assert_eq!(decoded.simulate, Some(false));
}

#[test]
fn test_list_and_ticket_requests() {
    let list = decode_operation(&encode_list_disks_request()).unwrap();
    assert_eq!(list.op_type, Op::List);
    assert_eq!(list.disk, None);
    assert_eq!(list.osd_id, None);
    assert_eq!(list.simulate, None);

    let tickets = decode_operation(&encode_get_jira_tickets_request()).unwrap();
    assert_eq!(tickets.op_type, Op::GetCreatedTickets);

    let safe = decode_operation(&encode_safe_to_remove_request(&String::from("/dev/sdd"))).unwrap();
    assert_eq!(safe.op_type, Op::SafeToRemove);
    assert_eq!(safe.disk, Some(String::from("/dev/sdd")));
    assert_eq!(safe.simulate, None);
}

#[test]
fn test_request_decode_rejects_garbage() {
    assert!(decode_operation(&Vec::new()).is_none());
    assert!(decode_operation(&vec![99u8, 0, 0, 0]).is_none());
    let mut truncated = encode_add_disk_request(&String::from("/dev/sdb"), None, true);
    truncated.pop();
    assert!(decode_operation(&truncated).is_none());
    let mut padded = encode_add_disk_request(&String::from("/dev/sdb"), None, true);
    padded.push(0);
    assert!(decode_operation(&padded).is_none());
}

#[test]
fn test_ok_response() {
    let reply = encode_op_result(&OpResult { result: ResultType::OK, error_msg: None });
    assert!(parse_op_result_response(&reply).is_ok());
}

#[test]
fn test_err_response_with_message() {
    let reply = encode_op_result(&OpResult {
        result: ResultType::ERR,
        error_msg: Some(String::from("disk is busy")),
    });
    match parse_op_result_response(&reply) {
        Err(BynarError::DaemonError { error_msg }) => assert_eq!(error_msg, "disk is busy"),
        other => panic!("expected a daemon error, got {:?}", other),
    }
}

#[test]
fn test_err_response_without_message() {
    let reply = encode_op_result(&OpResult { result: ResultType::ERR, error_msg: None });
    assert!(matches!(
        parse_op_result_response(&reply),
        Err(BynarError::ErrorMsgNotSet)
    ));
}

#[test]
fn test_response_decode_failure() {
    assert!(matches!(
        parse_op_result_response(&vec![7u8]),
        Err(BynarError::DecodeFailed)
    ));
}

#[test]
fn test_safe_to_remove_response() {
    let yes = encode_op_bool_result(&OpBoolResult {
        result: ResultType::OK,
        value: Some(true),
        error_msg: None,
    });
    assert_eq!(parse_safe_to_remove_response(&yes).unwrap(), true);

    let unset = encode_op_bool_result(&OpBoolResult {
        result: ResultType::OK,
        value: None,
        error_msg: None,
    });
    assert_eq!(parse_safe_to_remove_response(&unset).unwrap(), false);

    let err = encode_op_bool_result(&OpBoolResult {
        result: ResultType::ERR,
        value: None,
        error_msg: Some(String::from("cannot tell")),
    });
    match parse_safe_to_remove_response(&err) {
        Err(BynarError::DaemonError { error_msg }) => assert_eq!(error_msg, "cannot tell"),
        other => panic!("expected a daemon error, got {:?}", other),
    }
}

#[test]
fn test_list_disks_round_trip() {
    let disks = vec![
        Disk { dev_path: String::from("/dev/sda"), serial_number: Some(String::from("123456")) },
        Disk { dev_path: String::from("/dev/sdb"), serial_number: None },
    ];
    let reply = encode_disks(&disks);
    let decoded = parse_list_disks_response(&reply).unwrap();
    assert_eq!(decoded.len(), 2);
    assert_eq!(decoded[0].dev_path, "/dev/sda");
    assert_eq!(decoded[0].serial_number, Some(String::from("123456")));
    assert_eq!(decoded[1].dev_path, "/dev/sdb");
    assert_eq!(decoded[1].serial_number, None);

    assert!(matches!(
        parse_list_disks_response(&vec![1u8, 2, 3]),
        Err(BynarError::DecodeFailed)
    ));
}

#[test]
fn test_jira_tickets_round_trip() {
    let reply = encode_jira_result(&OpJiraTicketsResult {
        result: ResultType::OK,
        error_msg: None,
        tickets: vec![
            JiraInfo {
                ticket_id: String::from("ABC-1234"),
                server_name: String::from("storage-node-1"),
            },
            JiraInfo {
                ticket_id: String::from("ABC-1235"),
                server_name: String::from("storage-node-2"),
            },
        ],
    });
    let decoded = parse_get_jira_tickets_response(&reply).unwrap();
    assert_eq!(decoded.len(), 2);
    assert_eq!(decoded[0].ticket_id, "ABC-1234");
    assert_eq!(decoded[1].server_name, "storage-node-2");

    let err = encode_jira_result(&OpJiraTicketsResult {
        result: ResultType::ERR,
        error_msg: None,
        tickets: Vec::new(),
    });
    assert!(matches!(
        parse_get_jira_tickets_response(&err),
        Err(BynarError::ErrorMsgNotSet)
    ));
}

#[test]
fn test_varint_round_trip() {
    for n in [0u64, 1, 127, 128, 300, 16383, 16384, u64::MAX] {
        let mut out: Vec<u8> = Vec::new();
        encode_varint(&mut out, n);
        let (v, p) = decode_varint(&out, 0).unwrap();
        assert_eq!(v, n);
        assert_eq!(p, out.len());
    }
    assert_eq!(decode_varint(&vec![0u8], 0).unwrap(), (0, 1));
    assert!(decode_varint(&vec![0x80u8, 0x00], 0).is_none());
    assert!(decode_varint(&vec![0x80u8], 0).is_none());
}

#[test]
fn test_unicode_path_round_trip() {
    let path = String::from("/dev/disque-\u{00e9}\u{4e2d}");
    let encoded = encode_add_disk_request(&path, Some(3), false);
    let decoded = decode_operation(&encoded).unwrap();
    assert_eq!(decoded.disk, Some(path));
}
