//! The ledger's value types: lifecycle states, operation kinds and statuses
//! with their stored text tokens, and the records that callers hand in and
//! get back.

use vstd::prelude::*;
use vstd::string::StringExecFns;

verus! {

/// A disk's lifecycle state as tracked by the ledger. The store keeps it as
/// text; an absent or unrecognized stored value always reads back as
/// `Unscanned`.
#[derive(Clone, Copy, Debug, PartialEq, Eq, Structural)]
pub enum State {
    Unscanned,
    Good,
    WaitingForReplacement,
}

/// The kind of a tracked sub-phase of an operation. Resolved against the
/// operation-type reference table by its text token.
#[derive(Clone, Copy, Debug, PartialEq, Eq, Structural)]
pub enum OperationType {
    DiskAdd,
    DiskReplace,
    DiskRemove,
    WaitingForReplacement,
    Evaluation,
}

/// Progress of an operation detail.
#[derive(Clone, Copy, Debug, PartialEq, Eq, Structural)]
pub enum OperationStatus {
    Pending,
    InProgress,
    Complete,
}

/// The fixed text token under which a state is stored.
pub open spec fn spec_state_token(s: State) -> Seq<char> {
    match s {
        State::Unscanned => "unscanned"@,
        State::Good => "good"@,
        State::WaitingForReplacement => "waiting_for_replacement"@,
    }
}

/// Reading a stored state token back; anything unrecognized is `Unscanned`.
pub open spec fn spec_parse_state(t: Seq<char>) -> State {
    if t == spec_state_token(State::Good) {
        State::Good
    } else if t == spec_state_token(State::WaitingForReplacement) {
        State::WaitingForReplacement
    } else {
        State::Unscanned
    }
}

/// The fixed text token under which an operation type is stored and under
/// which the reference table lists it.
pub open spec fn spec_op_type_token(t: OperationType) -> Seq<char> {
    match t {
        OperationType::DiskAdd => "diskadd"@,
        OperationType::DiskReplace => "diskreplace"@,
        OperationType::DiskRemove => "diskremove"@,
        OperationType::WaitingForReplacement => "waiting_for_replacement"@,
        OperationType::Evaluation => "evaluation"@,
    }
}

/// Reading an operation-type token back; an unknown token parses to `None`.
pub open spec fn spec_parse_op_type(t: Seq<char>) -> Option<OperationType> {
    if t == spec_op_type_token(OperationType::DiskAdd) {
        Some(OperationType::DiskAdd)
    } else if t == spec_op_type_token(OperationType::DiskReplace) {
        Some(OperationType::DiskReplace)
    } else if t == spec_op_type_token(OperationType::DiskRemove) {
        Some(OperationType::DiskRemove)
    } else if t == spec_op_type_token(OperationType::WaitingForReplacement) {
        Some(OperationType::WaitingForReplacement)
    } else if t == spec_op_type_token(OperationType::Evaluation) {
        Some(OperationType::Evaluation)
    } else {
        None
    }
}

/// The fixed text token under which a status is stored.
pub open spec fn spec_status_token(s: OperationStatus) -> Seq<char> {
    match s {
        OperationStatus::Pending => "pending"@,
        OperationStatus::InProgress => "in_progress"@,
        OperationStatus::Complete => "complete"@,
    }
}

/// Reading a status token back; an unknown token parses to `None`.
pub open spec fn spec_parse_status(t: Seq<char>) -> Option<OperationStatus> {
    if t == spec_status_token(OperationStatus::Pending) {
        Some(OperationStatus::Pending)
    } else if t == spec_status_token(OperationStatus::InProgress) {
        Some(OperationStatus::InProgress)
    } else if t == spec_status_token(OperationStatus::Complete) {
        Some(OperationStatus::Complete)
    } else {
        None
    }
}

/// Serializes a state to its stored token.
pub fn state_token(s: State) -> (r: String)
    ensures
        r@ == spec_state_token(s),
{
    match s {
        State::Unscanned => String::from_str("unscanned"),
        State::Good => String::from_str("good"),
        State::WaitingForReplacement => String::from_str("waiting_for_replacement"),
    }
}

/// Parses a stored state token, falling back to `Unscanned` on anything
/// unrecognized.
pub fn parse_state(t: &String) -> (r: State)
    ensures
        r == spec_parse_state(t@),
{
    if *t == String::from_str("good") {
        State::Good
    } else if *t == String::from_str("waiting_for_replacement") {
        State::WaitingForReplacement
    } else {
        State::Unscanned
    }
}

/// Serializes an operation type to its stored token.
pub fn op_type_token(t: OperationType) -> (r: String)
    ensures
        r@ == spec_op_type_token(t),
{
    match t {
        OperationType::DiskAdd => String::from_str("diskadd"),
        OperationType::DiskReplace => String::from_str("diskreplace"),
        OperationType::DiskRemove => String::from_str("diskremove"),
        OperationType::WaitingForReplacement => String::from_str("waiting_for_replacement"),
        OperationType::Evaluation => String::from_str("evaluation"),
    }
}

/// Parses an operation-type token.
pub fn parse_op_type(t: &String) -> (r: Option<OperationType>)
    ensures
        r == spec_parse_op_type(t@),
{
    if *t == String::from_str("diskadd") {
        Some(OperationType::DiskAdd)
    } else if *t == String::from_str("diskreplace") {
        Some(OperationType::DiskReplace)
    } else if *t == String::from_str("diskremove") {
        Some(OperationType::DiskRemove)
    } else if *t == String::from_str("waiting_for_replacement") {
        Some(OperationType::WaitingForReplacement)
    } else if *t == String::from_str("evaluation") {
        Some(OperationType::Evaluation)
    } else {
        None
    }
}

/// Serializes a status to its stored token.
pub fn status_token(s: OperationStatus) -> (r: String)
    ensures
        r@ == spec_status_token(s),
{
    match s {
        OperationStatus::Pending => String::from_str("pending"),
        OperationStatus::InProgress => String::from_str("in_progress"),
        OperationStatus::Complete => String::from_str("complete"),
    }
}

/// Parses a status token.
pub fn parse_status(t: &String) -> (r: Option<OperationStatus>)
    ensures
        r == spec_parse_status(t@),
{
    if *t == String::from_str("pending") {
        Some(OperationStatus::Pending)
    } else if *t == String::from_str("in_progress") {
        Some(OperationStatus::InProgress)
    } else if *t == String::from_str("complete") {
        Some(OperationStatus::Complete)
    } else {
        None
    }
}

/// Serializing a state and reading it back always restores the state.
pub proof fn lemma_state_token_round_trip(s: State)
    ensures
        spec_parse_state(spec_state_token(s)) == s,
{
    reveal_strlit("unscanned");
    reveal_strlit("good");
    reveal_strlit("waiting_for_replacement");
    assert("unscanned"@.len() == 9 && "good"@.len() == 4 && "waiting_for_replacement"@.len() == 23);
    match s {
        State::Unscanned => assert(spec_parse_state(spec_state_token(s)) == s),
        State::Good => assert(spec_parse_state(spec_state_token(s)) == s),
        State::WaitingForReplacement => assert(spec_parse_state(spec_state_token(s)) == s),
    }
}

/// Serializing an operation type and reading it back always restores it.
pub proof fn lemma_op_type_token_round_trip(t: OperationType)
    ensures
        spec_parse_op_type(spec_op_type_token(t)) == Some(t),
{
    reveal_strlit("diskadd");
    reveal_strlit("diskreplace");
    reveal_strlit("diskremove");
    reveal_strlit("waiting_for_replacement");
    reveal_strlit("evaluation");
    assert("diskadd"@.len() == 7 && "diskreplace"@.len() == 11 && "diskremove"@.len() == 10
        && "waiting_for_replacement"@.len() == 23 && "evaluation"@.len() == 10);
    assert("diskremove"@[0] == 'd' && "evaluation"@[0] == 'e');
    match t {
        OperationType::DiskAdd => assert(spec_parse_op_type(spec_op_type_token(t)) == Some(t)),
        OperationType::DiskReplace => assert(spec_parse_op_type(spec_op_type_token(t)) == Some(t)),
        OperationType::DiskRemove => assert(spec_parse_op_type(spec_op_type_token(t)) == Some(t)),
        OperationType::WaitingForReplacement => assert(spec_parse_op_type(spec_op_type_token(t))
            == Some(t)),
        OperationType::Evaluation => assert(spec_parse_op_type(spec_op_type_token(t)) == Some(t)),
    }
}

/// Serializing a status and reading it back always restores it.
pub proof fn lemma_status_token_round_trip(s: OperationStatus)
    ensures
        spec_parse_status(spec_status_token(s)) == Some(s),
{
    reveal_strlit("pending");
    reveal_strlit("in_progress");
    reveal_strlit("complete");
    assert("pending"@.len() == 7 && "in_progress"@.len() == 11 && "complete"@.len() == 8);
    match s {
        OperationStatus::Pending => assert(spec_parse_status(spec_status_token(s)) == Some(s)),
        OperationStatus::InProgress => assert(spec_parse_status(spec_status_token(s)) == Some(s)),
        OperationStatus::Complete => assert(spec_parse_status(spec_status_token(s)) == Some(s)),
    }
}

/// Relies on chrono's `Utc::now` and `DateTime::timestamp`: the current time
/// as whole seconds since the Unix epoch. Nothing is assumed of the clock.
#[verifier::external_body]
fn now_ts() -> i64 {
    chrono::offset::Utc::now().timestamp()
}

/// A host's identity inside the ledger: the ids handed back by registration,
/// used as the root key for everything recorded about the host.
#[derive(Debug)]
pub struct HostDetailsMapping {
    pub entry_id: u32,
    pub region_id: u32,
    pub storage_detail_id: u32,
}

impl HostDetailsMapping {
    pub fn new(entry_id: u32, region_id: u32, storage_detail_id: u32) -> (r: HostDetailsMapping)
        ensures
            r.entry_id == entry_id,
            r.region_id == region_id,
            r.storage_detail_id == storage_detail_id,
    {
        HostDetailsMapping { entry_id, region_id, storage_detail_id }
    }
}

/// The host identity snapshot handed to registration: where the host is and
/// how its storage is named.
#[derive(Clone, Debug)]
pub struct HostInfo {
    pub ip: String,
    pub region: String,
    pub storage_type: String,
    pub hostname: String,
    pub array_name: Option<String>,
    pub pool_name: Option<String>,
}

/// A locally observed disk, together with the database identity the ledger
/// has adopted for it (if any).
#[derive(Clone, Debug)]
pub struct BlockDevice {
    pub name: String,
    pub dev_path: String,
    pub uuid: Option<String>,
    pub serial_number: Option<String>,
    pub mount_point: Option<String>,
    pub capacity: u64,
    pub state: State,
    pub storage_detail_id: u32,
    pub device_database_id: Option<u32>,
    pub operation_id: Option<u32>,
}

/// One tracked disk-affecting action. Once created, only `snapshot_time` and
/// `done_time` ever change.
#[derive(Clone, Debug)]
pub struct OperationInfo {
    pub operation_id: Option<u32>,
    pub entry_id: u32,
    pub device_id: u32,
    pub behalf_of: Option<String>,
    pub reason: Option<String>,
    pub start_time: i64,
    pub snapshot_time: i64,
    pub done_time: Option<i64>,
}

impl OperationInfo {
    pub fn new(entry_id: u32, device_id: u32) -> (r: OperationInfo)
        ensures
            r.operation_id is None,
            r.entry_id == entry_id,
            r.device_id == device_id,
            r.behalf_of is None,
            r.reason is None,
            r.snapshot_time == r.start_time,
            r.done_time is None,
    {
        let now = now_ts();
        OperationInfo {
            operation_id: None,
            entry_id,
            device_id,
            behalf_of: None,
            reason: None,
            start_time: now,
            snapshot_time: now,
            done_time: None,
        }
    }

    pub fn set_done_time(&mut self, done_time: i64)
        ensures
            *final(self) == (OperationInfo { done_time: Some(done_time), ..*old(self) }),
    {
        self.done_time = Some(done_time);
    }

    pub fn set_snapshot_time(&mut self, snapshot_time: i64)
        ensures
            *final(self) == (OperationInfo { snapshot_time: snapshot_time, ..*old(self) }),
    {
        self.snapshot_time = snapshot_time;
    }
}

/// One ticket-worthy sub-phase of an operation, carrying the external
/// tracking id when one was issued.
#[derive(Clone, Debug)]
pub struct OperationDetail {
    pub op_detail_id: Option<u32>,
    pub operation_id: u32,
    pub op_type: OperationType,
    pub status: OperationStatus,
    pub tracking_id: Option<String>,
    pub start_time: i64,
    pub snapshot_time: i64,
    pub done_time: Option<i64>,
}

impl OperationDetail {
    pub fn new(operation_id: u32, op_type: OperationType) -> (r: OperationDetail)
        ensures
            r.op_detail_id is None,
            r.operation_id == operation_id,
            r.op_type == op_type,
            r.status == OperationStatus::Pending,
            r.tracking_id is None,
            r.snapshot_time == r.start_time,
            r.done_time is None,
    {
        let now = now_ts();
        OperationDetail {
            op_detail_id: None,
            operation_id,
            op_type,
            status: OperationStatus::Pending,
            tracking_id: None,
            start_time: now,
            snapshot_time: now,
            done_time: None,
        }
    }

    pub fn set_tracking_id(&mut self, tracking_id: String)
        ensures
            *final(self) == (OperationDetail { tracking_id: Some(tracking_id), ..*old(self) }),
    {
        self.tracking_id = Some(tracking_id);
    }

    pub fn set_done_time(&mut self, done_time: i64)
        ensures
            *final(self) == (OperationDetail { done_time: Some(done_time), ..*old(self) }),
    {
        self.done_time = Some(done_time);
    }

    pub fn set_operation_status(&mut self, status: OperationStatus)
        ensures
            *final(self) == (OperationDetail { status: status, ..*old(self) }),
    {
        self.status = status;
    }
}

/// An open repair ticket for one host's disk, as surfaced to operators.
#[derive(Clone, Debug)]
pub struct DiskRepairTicket {
    pub ticket_id: String,
    pub device_name: String,
    pub device_path: String,
}

/// An open repair ticket surfaced fleet-wide, carrying the device's id.
#[derive(Clone, Debug)]
pub struct DiskPendingTicket {
    pub ticket_id: String,
    pub device_name: String,
    pub device_path: String,
    pub device_id: u32,
}

impl DiskPendingTicket {
    pub fn new(ticket_id: String, device_name: String, device_path: String, device_id: u32) -> (r:
        DiskPendingTicket)
        ensures
            r.ticket_id == ticket_id,
            r.device_name == device_name,
            r.device_path == device_path,
            r.device_id == device_id,
    {
        DiskPendingTicket { ticket_id, device_name, device_path, device_id }
    }
}

} // verus!
