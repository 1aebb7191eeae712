use bynar::datastore::DataStore;
use bynar::error::BynarError;
use bynar::types::BlockDevice;
use bynar::types::HostInfo;
use bynar::types::OperationDetail;
use bynar::types::OperationInfo;
use bynar::types::OperationStatus;
use bynar::types::OperationType;
use bynar::types::State;

fn host_info() -> HostInfo {
    HostInfo {
        ip: String::from("192.168.0.2"),
        region: String::from("us-east"),
        storage_type: String::from("ceph"),
        hostname: String::from("storage-node-1"),
        array_name: None,
        pool_name: Some(String::from("rbd")),
    }
}

fn device(detail_id: u32) -> BlockDevice {
    BlockDevice {
        name: String::from("some_path-1"),
        dev_path: String::from("/some/some_path-1"),
        uuid: Some(String::from("6db7cbb2-0000-4b44-0000-4a2a27b7fbb7")),
        serial_number: Some(String::from("123456")),
        mount_point: None,
        capacity: 26214400,
        state: State::Unscanned,
        storage_detail_id: detail_id,
        device_database_id: None,
        operation_id: None,
    }
}

fn seeded_store() -> DataStore {
    let mut store = DataStore::new();
    store.add_storage_type(String::from("ceph"));
    store.add_hardware_type(String::from("disk"));
    store.add_operation_type(String::from("diskadd"));
    store.add_operation_type(String::from("diskreplace"));
    store.add_operation_type(String::from("diskremove"));
    store.add_operation_type(String::from("waiting_for_replacement"));
    store.add_operation_type(String::from("evaluation"));
    store
}

#[test]
fn test_register_idempotent() {
    let mut store = seeded_store();
    let info = host_info();
    let first = store.update_storage_info(4242, &info).unwrap();
    let second = store.update_storage_info(4242, &info).unwrap();
    assert_eq!(first.entry_id, second.entry_id);
    assert_eq!(first.region_id, second.region_id);
    assert_eq!(first.storage_detail_id, second.storage_detail_id);
    assert_eq!(store.process_manager.len(), 1);
    assert_eq!(store.process_manager[0].status, "idle");
    assert_eq!(store.regions.len(), 1);
    assert_eq!(store.storage_details.len(), 1);
}

#[test]
fn test_register_missing_storage_type() {
    let mut store = DataStore::new();
    let info = host_info();
    let r = store.update_storage_info(4242, &info);
    assert!(matches!(r, Err(BynarError::StorageInfoUpdateFailed)));
    assert_eq!(store.process_manager.len(), 0);
    assert_eq!(store.regions.len(), 0);
    assert_eq!(store.storage_details.len(), 0);
}

#[test]
fn test_deregister_removes_entry() {
    let mut store = seeded_store();
    let info = host_info();
    store.update_storage_info(4242, &info).unwrap();
    assert_eq!(store.process_manager.len(), 1);
    store.deregister_from_process_manager(4242, &info.ip).unwrap();
    assert_eq!(store.process_manager.len(), 0);
    store.deregister_from_process_manager(4242, &info.ip).unwrap();
    assert_eq!(store.process_manager.len(), 0);
}

#[test]
fn test_reconcile_idempotent() {
    let mut store = seeded_store();
    let info = host_info();
    let mapping = store.update_storage_info(4242, &info).unwrap();
    let mut d = device(mapping.storage_detail_id);

    store.add_disk_detail(&mut d).unwrap();
    let first_id = d.device_database_id.unwrap();

    store.add_disk_detail(&mut d).unwrap();
    assert_eq!(d.device_database_id, Some(first_id));

    d.device_database_id = None;
    store.add_disk_detail(&mut d).unwrap();
    assert_eq!(d.device_database_id, Some(first_id));
    assert_eq!(store.hardware.len(), 1);

    d.device_database_id = Some(first_id + 7);
    let r = store.add_disk_detail(&mut d);
    assert!(matches!(r, Err(BynarError::DeviceMismatch { .. })));
    assert_eq!(store.hardware.len(), 1);
    assert_eq!(store.hardware[0].device_id, first_id);
}

#[test]
fn test_operation_audit_trail() {
    let mut store = seeded_store();
    let info = host_info();
    let mapping = store.update_storage_info(4242, &info).unwrap();
    let mut d = device(mapping.storage_detail_id);
    store.add_disk_detail(&mut d).unwrap();
    let dev_id = d.device_database_id.unwrap();

    let mut op = OperationInfo::new(mapping.entry_id, dev_id);
    op.start_time = 100;
    op.snapshot_time = 100;
    store.add_or_update_operation(&mut op).unwrap();
    let op_id = op.operation_id.unwrap();
    assert_eq!(store.operations.len(), 1);

    op.set_snapshot_time(150);
    store.add_or_update_operation(&mut op).unwrap();
    op.set_snapshot_time(200);
    op.set_done_time(201);
    store.add_or_update_operation(&mut op).unwrap();

    assert_eq!(store.operations.len(), 1);
    let row = &store.operations[0];
    assert_eq!(row.operation_id, op_id);
    assert_eq!(row.entry_id, mapping.entry_id);
    assert_eq!(row.device_id, dev_id);
    assert_eq!(row.start_time, 100);
    assert_eq!(row.snapshot_time, 200);
    assert_eq!(row.done_time, Some(201));
}

#[test]
fn test_operation_requires_entry_id() {
    let mut store = seeded_store();
    let mut op = OperationInfo::new(0, 1);
    let r = store.add_or_update_operation(&mut op);
    assert!(matches!(r, Err(BynarError::EntryIdRequired)));
    assert_eq!(store.operations.len(), 0);
    assert!(op.operation_id.is_none());
}

#[test]
fn test_op_type_resolution_cardinality() {
    let mut store = DataStore::new();
    store.add_storage_type(String::from("ceph"));
    store.add_hardware_type(String::from("disk"));

    let mut detail = OperationDetail::new(1, OperationType::Evaluation);
    let r = store.add_or_update_operation_detail(&mut detail);
    assert!(matches!(r, Err(BynarError::OperationTypeNotFound { .. })));
    assert!(detail.op_detail_id.is_none());

    store.add_operation_type(String::from("evaluation"));
    store.add_operation_type(String::from("evaluation"));
    let r2 = store.add_or_update_operation_detail(&mut detail);
    assert!(matches!(r2, Err(BynarError::OperationTypeDuplicated { .. })));
    assert_eq!(store.operation_details.len(), 0);
}

#[test]
fn test_save_state_row_guard() {
    let mut store = seeded_store();
    let mut d = device(1);
    d.device_database_id = Some(99);
    let before = store.hardware.len();
    let r = store.save_state(&d, State::Good);
    assert!(matches!(r, Err(BynarError::RowCountMismatch { rows: 0 })));
    assert_eq!(store.hardware.len(), before);

    d.device_database_id = None;
    let r2 = store.save_state(&d, State::Good);
    assert!(matches!(r2, Err(BynarError::DeviceNotInDatabase { .. })));
}

#[test]
fn test_get_state_defaults() {
    let mut store = seeded_store();
    let mut d = device(1);

    d.device_database_id = None;
    assert!(matches!(
        store.get_state(&d),
        Err(BynarError::DeviceNotInDatabase { .. })
    ));

    d.device_database_id = Some(99);
    assert_eq!(store.get_state(&d).unwrap(), State::Unscanned);
    assert_eq!(store.get_smart_result(&d).unwrap(), false);

    assert_eq!(
        bynar::types::parse_state(&String::from("garbage")),
        State::Unscanned
    );

    let info = host_info();
    let mapping = store.update_storage_info(4242, &info).unwrap();
    let mut real = device(mapping.storage_detail_id);
    store.add_disk_detail(&mut real).unwrap();
    assert_eq!(store.get_state(&real).unwrap(), State::Unscanned);
    assert_eq!(store.get_smart_result(&real).unwrap(), false);
}

#[test]
fn test_save_and_get_smart_result() {
    let mut store = seeded_store();
    let info = host_info();
    let mapping = store.update_storage_info(4242, &info).unwrap();
    let mut d = device(mapping.storage_detail_id);
    store.add_disk_detail(&mut d).unwrap();
    store.save_smart_result(&d, true).unwrap();
    assert_eq!(store.get_smart_result(&d).unwrap(), true);
    store.save_smart_result(&d, false).unwrap();
    assert_eq!(store.get_smart_result(&d).unwrap(), false);
}

fn add_waiting_disk(
    store: &mut DataStore,
    mapping: &bynar::types::HostDetailsMapping,
    name: &str,
    start_time: i64,
    tracking: &str,
) -> u32 {
    let mut d = device(mapping.storage_detail_id);
    d.name = String::from(name);
    d.dev_path = format!("/dev/{}", name);
    store.add_disk_detail(&mut d).unwrap();
    store.save_state(&d, State::WaitingForReplacement).unwrap();
    let dev_id = d.device_database_id.unwrap();

    let mut op = OperationInfo::new(mapping.entry_id, dev_id);
    op.start_time = start_time;
    op.snapshot_time = start_time;
    store.add_or_update_operation(&mut op).unwrap();

    let mut detail = OperationDetail::new(op.operation_id.unwrap(), OperationType::WaitingForReplacement);
    detail.set_operation_status(OperationStatus::InProgress);
    detail.set_tracking_id(String::from(tracking));
    store.add_or_update_operation_detail(&mut detail).unwrap();
    dev_id
}

#[test]
fn test_ticket_ordering() {
    let mut store = seeded_store();
    let info = host_info();
    let mapping = store.update_storage_info(4242, &info).unwrap();

    add_waiting_disk(&mut store, &mapping, "sdc", 300, "T3");
    add_waiting_disk(&mut store, &mapping, "sda", 100, "T1");
    add_waiting_disk(&mut store, &mapping, "sdb", 200, "T2");

    let tickets = store
        .get_outstanding_repair_tickets(mapping.storage_detail_id)
        .unwrap();
    assert_eq!(tickets.len(), 3);
    assert_eq!(tickets[0].ticket_id, "T1");
    assert_eq!(tickets[1].ticket_id, "T2");
    assert_eq!(tickets[2].ticket_id, "T3");
    assert_eq!(tickets[0].device_name, "sda");
    assert_eq!(tickets[0].device_path, "/dev/sda");

    let fleet = store.get_all_pending_tickets().unwrap();
    assert_eq!(fleet.len(), 3);
    assert_eq!(fleet[0].ticket_id, "T1");
    assert_eq!(fleet[2].ticket_id, "T3");
}

#[test]
fn test_is_hardware_waiting_repair() {
    let mut store = seeded_store();
    let info = host_info();
    let mapping = store.update_storage_info(4242, &info).unwrap();
    add_waiting_disk(&mut store, &mapping, "sda", 100, "T1");

    let yes = store
        .is_hardware_waiting_repair(mapping.storage_detail_id, &String::from("sda"), None)
        .unwrap();
    assert!(yes);
    let wrong_name = store
        .is_hardware_waiting_repair(mapping.storage_detail_id, &String::from("sdz"), None)
        .unwrap();
    assert!(!wrong_name);
    let uuid = String::from("6db7cbb2-0000-4b44-0000-4a2a27b7fbb7");
    let with_uuid = store
        .is_hardware_waiting_repair(mapping.storage_detail_id, &String::from("sda"), Some(&uuid))
        .unwrap();
    assert!(with_uuid);
    let wrong_uuid = String::from("not-the-uuid");
    let with_wrong_uuid = store
        .is_hardware_waiting_repair(
            mapping.storage_detail_id,
            &String::from("sda"),
            Some(&wrong_uuid),
        )
        .unwrap();
    assert!(!with_wrong_uuid);
}

#[test]
fn test_resolve_ticket() {
    let mut store = seeded_store();
    let info = host_info();
    let mapping = store.update_storage_info(4242, &info).unwrap();
    add_waiting_disk(&mut store, &mapping, "sda", 100, "T1");

    store.resolve_ticket_in_db(&String::from("T1")).unwrap();
    assert_eq!(store.operation_details[0].status, "complete");

    let tickets = store
        .get_outstanding_repair_tickets(mapping.storage_detail_id)
        .unwrap();
    assert_eq!(tickets.len(), 0);

    store.resolve_ticket_in_db(&String::from("no-such-ticket")).unwrap();
}

#[test]
fn test_get_devices_from_db() {
    let mut store = seeded_store();
    let info = host_info();
    let mapping = store.update_storage_info(4242, &info).unwrap();
    let mut d = device(mapping.storage_detail_id);
    store.add_disk_detail(&mut d).unwrap();

    let devices = store.get_devices_from_db(mapping.storage_detail_id).unwrap();
    assert_eq!(devices.len(), 1);
    assert_eq!(devices[0].0, d.device_database_id.unwrap());
    assert_eq!(devices[0].1, "some_path-1");
    assert_eq!(devices[0].2, "/some/some_path-1");

    let other = store.get_devices_from_db(mapping.storage_detail_id + 1).unwrap();
    assert_eq!(other.len(), 0);
}

#[test]
fn test_lookup_queries() {
    let mut store = seeded_store();
    let info = host_info();
    let mapping = store.update_storage_info(4242, &info).unwrap();
    let mut d = device(mapping.storage_detail_id);
    store.add_disk_detail(&mut d).unwrap();

    assert_eq!(
        store.get_region_id(&String::from("us-east")).unwrap(),
        Some(mapping.region_id)
    );
    assert_eq!(store.get_region_id(&String::from("eu-west")).unwrap(), None);

    let storage_id = store.get_storage_id(&String::from("ceph")).unwrap().unwrap();
    assert_eq!(store.get_storage_id(&String::from("gluster")).unwrap(), None);

    assert_eq!(
        store
            .get_storage_detail_id(storage_id, mapping.region_id, &String::from("storage-node-1"))
            .unwrap(),
        Some(mapping.storage_detail_id)
    );
    assert_eq!(
        store
            .get_storage_detail_id(storage_id, mapping.region_id, &String::from("other-host"))
            .unwrap(),
        None
    );

    assert_eq!(
        store.get_host_name(d.device_database_id.unwrap()).unwrap(),
        Some(String::from("storage-node-1"))
    );
    assert_eq!(store.get_host_name(999).unwrap(), None);
}

#[test]
fn test_end_to_end_scenario() {
    let mut store = seeded_store();
    let info = host_info();

    let mapping = store.update_storage_info(4242, &info).unwrap();

    let mut d = device(mapping.storage_detail_id);
    store.add_disk_detail(&mut d).unwrap();
    let dev_id = d.device_database_id.unwrap();
    store.save_state(&d, State::WaitingForReplacement).unwrap();

    let mut op = OperationInfo::new(mapping.entry_id, dev_id);
    op.reason = Some(String::from("disk replace"));
    store.add_or_update_operation(&mut op).unwrap();
    let op_id = op.operation_id.unwrap();

    let mut eval = OperationDetail::new(op_id, OperationType::Evaluation);
    store.add_or_update_operation_detail(&mut eval).unwrap();
    eval.set_operation_status(OperationStatus::InProgress);
    store.add_or_update_operation_detail(&mut eval).unwrap();

    let mut waiting = OperationDetail::new(op_id, OperationType::WaitingForReplacement);
    waiting.set_operation_status(OperationStatus::InProgress);
    waiting.set_tracking_id(String::from("ABC-1234"));
    store.add_or_update_operation_detail(&mut waiting).unwrap();

    let tickets = store
        .get_outstanding_repair_tickets(mapping.storage_detail_id)
        .unwrap();
    assert_eq!(tickets.len(), 1);
    assert_eq!(tickets[0].ticket_id, "ABC-1234");
    assert_eq!(tickets[0].device_name, "some_path-1");
}

#[test]
fn test_db_apis() {
    let mut store = seeded_store();
    let info = host_info();
    let result = store.update_storage_info(4242, &info).unwrap();

    let mut d = device(result.storage_detail_id);
    store.add_disk_detail(&mut d).unwrap();
    let dev_id = d.device_database_id.unwrap();

    let mut op_info = OperationInfo::new(result.entry_id, dev_id);
    store.add_or_update_operation(&mut op_info).unwrap();
    d.operation_id = op_info.operation_id;
    let o_id = op_info.operation_id.unwrap();

    store.add_disk_detail(&mut d).unwrap();
    d.device_database_id = None;
    store.add_disk_detail(&mut d).unwrap();
    let new_dev_id = d.device_database_id.unwrap();
    assert_eq!(new_dev_id, dev_id);

    op_info.set_snapshot_time(op_info.snapshot_time + 1);
    store.add_or_update_operation(&mut op_info).unwrap();
    op_info.set_done_time(op_info.snapshot_time + 1);
    store.add_or_update_operation(&mut op_info).unwrap();

    let mut op_detail = OperationDetail::new(o_id, OperationType::Evaluation);
    store.add_or_update_operation_detail(&mut op_detail).unwrap();
    op_detail.set_operation_status(OperationStatus::InProgress);
    store.add_or_update_operation_detail(&mut op_detail).unwrap();

    let mut op_detail2 = OperationDetail::new(o_id, OperationType::WaitingForReplacement);
    op_detail2.set_operation_status(OperationStatus::InProgress);
    op_detail2.set_tracking_id(String::from("ABC-1234"));
    store.add_or_update_operation_detail(&mut op_detail2).unwrap();

    op_detail.set_operation_status(OperationStatus::Complete);
    op_detail.set_done_time(op_detail.snapshot_time + 10);
    store.add_or_update_operation_detail(&mut op_detail).unwrap();

    let _state = store.get_state(&d).unwrap();
    let new_state = State::WaitingForReplacement;
    store.save_state(&d, new_state).unwrap();
    let new_state_result = store.get_state(&d).unwrap();
    assert_eq!(new_state, new_state_result);

    let tickets = store
        .get_outstanding_repair_tickets(result.storage_detail_id)
        .unwrap();
    assert_eq!(tickets.len(), 1);

    let is_repair_needed = store
        .is_hardware_waiting_repair(result.storage_detail_id, &d.name, None)
        .unwrap();
    assert!(is_repair_needed);

    let all_devices = store.get_devices_from_db(result.storage_detail_id).unwrap();
    assert_eq!(all_devices.len(), 1);
}

#[test]
fn test_operation_optional_fields() {
    let mut store = seeded_store();
    let info = host_info();
    let mapping = store.update_storage_info(4242, &info).unwrap();
    let mut d = device(mapping.storage_detail_id);
    store.add_disk_detail(&mut d).unwrap();

    let mut op = OperationInfo::new(mapping.entry_id, d.device_database_id.unwrap());
    op.behalf_of = Some(String::from("operator"));
    op.reason = Some(String::from("flaky sectors"));
    op.done_time = Some(500);
    store.add_or_update_operation(&mut op).unwrap();

    let row = &store.operations[0];
    assert_eq!(row.behalf_of, Some(String::from("operator")));
    assert_eq!(row.reason, Some(String::from("flaky sectors")));
    // The done time is never part of the insert; it only arrives by update.
    assert_eq!(row.done_time, None);
    store.add_or_update_operation(&mut op).unwrap();
    assert_eq!(store.operations[0].done_time, Some(500));
}

#[test]
fn test_update_unknown_ids_is_best_effort() {
    let mut store = seeded_store();
    let mut op = OperationInfo::new(1, 1);
    op.operation_id = Some(424242);
    assert!(store.add_or_update_operation(&mut op).is_ok());
    assert_eq!(store.operations.len(), 0);

    let mut detail = OperationDetail::new(1, OperationType::Evaluation);
    detail.op_detail_id = Some(424242);
    assert!(store.add_or_update_operation_detail(&mut detail).is_ok());
    assert_eq!(store.operation_details.len(), 0);
}

#[test]
fn test_detail_update_tracks_progress_only() {
    let mut store = seeded_store();
    let info = host_info();
    let mapping = store.update_storage_info(4242, &info).unwrap();
    let mut d = device(mapping.storage_detail_id);
    store.add_disk_detail(&mut d).unwrap();
    let mut op = OperationInfo::new(mapping.entry_id, d.device_database_id.unwrap());
    store.add_or_update_operation(&mut op).unwrap();

    let mut detail = OperationDetail::new(op.operation_id.unwrap(), OperationType::Evaluation);
    detail.start_time = 10;
    detail.snapshot_time = 10;
    store.add_or_update_operation_detail(&mut detail).unwrap();
    let type_id = store.operation_details[0].type_id;
    assert_eq!(store.operation_details[0].status, "pending");

    detail.set_operation_status(OperationStatus::InProgress);
    detail.snapshot_time = 20;
    store.add_or_update_operation_detail(&mut detail).unwrap();
    let row = &store.operation_details[0];
    assert_eq!(row.status, "in_progress");
    assert_eq!(row.snapshot_time, 20);
    assert_eq!(row.start_time, 10);
    assert_eq!(row.type_id, type_id);
    assert_eq!(row.operation_id, op.operation_id.unwrap());
}

#[test]
fn test_hardware_type_defaults_to_disk_id() {
    // With no `disk` row seeded, inserts fall back to the customary id 2.
    let mut store = DataStore::new();
    store.add_storage_type(String::from("ceph"));
    store.add_operation_type(String::from("evaluation"));
    let info = host_info();
    let mapping = store.update_storage_info(4242, &info).unwrap();
    let mut d = device(mapping.storage_detail_id);
    store.add_disk_detail(&mut d).unwrap();
    assert_eq!(store.hardware[0].hardware_type, 2);
    // Without the `disk` reference row, the device listing matches nothing.
    let devices = store.get_devices_from_db(mapping.storage_detail_id).unwrap();
    assert_eq!(devices.len(), 0);
}

#[test]
fn test_storage_detail_optional_name_keys() {
    let mut store = seeded_store();
    let mut info = host_info();
    info.array_name = Some(String::from("array-7"));
    let mapping = store.update_storage_info(4242, &info).unwrap();
    let row = &store.storage_details[0];
    assert_eq!(row.detail_id, mapping.storage_detail_id);
    assert_eq!(row.name_key1, Some(String::from("array-7")));
    assert_eq!(row.name_key2, Some(String::from("rbd")));
}
