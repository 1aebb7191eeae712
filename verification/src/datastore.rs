//! The ledger's store: the tables a deployment keeps about processes,
//! regions, storage details, hardware, operations and operation details,
//! together with the write paths that keep them consistent.
//!
//! The store is the single source of truth: every read and write goes through
//! it, and its well-formedness invariant (unique ids, unique natural keys)
//! is what makes registration and reconciliation idempotent.

use vstd::prelude::*;
use vstd::string::StringExecFns;

use crate::error::BynarError;
use crate::error::BynarResult;
use crate::types::op_type_token;
use crate::types::parse_state;
use crate::types::spec_op_type_token;
use crate::types::spec_parse_state;
use crate::types::State;
use crate::types::spec_state_token;
use crate::types::spec_status_token;
use crate::types::state_token;
use crate::types::status_token;
use crate::types::BlockDevice;
use crate::types::HostDetailsMapping;
use crate::types::HostInfo;
use crate::types::OperationDetail;
use crate::types::OperationInfo;

verus! {

/// One registered daemon process: unique per `(pid, ip)`.
pub struct ProcessRow {
    pub entry_id: u32,
    pub pid: u32,
    pub ip: String,
    pub status: String,
}

/// One region, unique by name.
pub struct RegionRow {
    pub region_id: u32,
    pub region_name: String,
}

/// One storage type; a reference table that must be seeded before hosts of
/// that type register.
pub struct StorageTypeRow {
    pub storage_id: u32,
    pub storage_type: String,
}

/// One host's storage inventory record, unique by
/// `(storage_id, region_id, hostname)`.
pub struct StorageDetailRow {
    pub detail_id: u32,
    pub storage_id: u32,
    pub region_id: u32,
    pub hostname: String,
    pub name_key1: Option<String>,
    pub name_key2: Option<String>,
}

/// One hardware kind (e.g. `disk`); a seeded reference table.
pub struct HardwareTypeRow {
    pub hardware_id: u32,
    pub hardware_type: String,
}

/// One physical device, unique by `(detail_id, device_path, device_name)`.
/// Its lifecycle state is kept as text.
pub struct HardwareRow {
    pub device_id: u32,
    pub detail_id: u32,
    pub device_path: String,
    pub device_name: String,
    pub state: String,
    pub hardware_type: u32,
    pub mount_path: Option<String>,
    pub device_uuid: Option<String>,
    pub serial_number: Option<String>,
    pub smart_passed: Option<bool>,
}

/// One tracked disk-affecting action.
pub struct OperationRow {
    pub operation_id: u32,
    pub entry_id: u32,
    pub device_id: u32,
    pub behalf_of: Option<String>,
    pub reason: Option<String>,
    pub start_time: i64,
    pub snapshot_time: i64,
    pub done_time: Option<i64>,
}

/// One operation kind; a seeded reference table that resolution must match
/// exactly once.
pub struct OperationTypeRow {
    pub type_id: u32,
    pub op_name: String,
}

/// One ticket-worthy sub-phase of an operation; status is kept as text.
pub struct OperationDetailRow {
    pub operation_detail_id: u32,
    pub operation_id: u32,
    pub type_id: u32,
    pub status: String,
    pub tracking_id: Option<String>,
    pub start_time: i64,
    pub snapshot_time: i64,
    pub done_time: Option<i64>,
}

/// The index of the first row satisfying `p`, if any.
pub open spec fn first_where<T>(rows: Seq<T>, p: spec_fn(T) -> bool) -> Option<int>
    decreases rows.len(),
{
    if rows.len() == 0 {
        None
    } else if p(rows[0]) {
        Some(0)
    } else {
        match first_where(rows.drop_first(), p) {
            Some(i) => Some(i + 1),
            None => None,
        }
    }
}

/// What `first_where` returns: the earliest match, or proof that none exists.
pub proof fn lemma_first_where<T>(rows: Seq<T>, p: spec_fn(T) -> bool)
    ensures
        match first_where(rows, p) {
            Some(i) => 0 <= i < rows.len() && p(rows[i]) && (forall|j: int|
                0 <= j < i ==> !p(#[trigger] rows[j])),
            None => forall|j: int| 0 <= j < rows.len() ==> !p(#[trigger] rows[j]),
        },
    decreases rows.len(),
{
    if rows.len() > 0 && !p(rows[0]) {
        lemma_first_where(rows.drop_first(), p);
        assert forall|j: int| 1 <= j < rows.len() implies rows.drop_first()[j - 1] == #[trigger]
            rows[j] by {}
    }
}

/// A match at `k` with no match before it pins `first_where` to `k`.
pub proof fn lemma_first_where_at<T>(rows: Seq<T>, p: spec_fn(T) -> bool, k: int)
    requires
        0 <= k < rows.len(),
        p(rows[k]),
        forall|j: int| 0 <= j < k ==> !p(#[trigger] rows[j]),
    ensures
        first_where(rows, p) == Some(k),
    decreases rows.len(),
{
    if k > 0 {
        assert forall|j: int| 0 <= j < k - 1 implies !p(#[trigger] rows.drop_first()[j]) by {
            assert(rows.drop_first()[j] == rows[j + 1]);
        }
        assert(rows.drop_first()[k - 1] == rows[k]);
        lemma_first_where_at(rows.drop_first(), p, k - 1);
    }
}

/// How many rows satisfy `p`.
pub open spec fn count_where<T>(rows: Seq<T>, p: spec_fn(T) -> bool) -> nat
    decreases rows.len(),
{
    if rows.len() == 0 {
        0
    } else {
        count_where(rows.drop_last(), p) + if p(rows.last()) {
            1nat
        } else {
            0nat
        }
    }
}

/// The rows satisfying `p`, in table order.
pub open spec fn rows_where<T>(rows: Seq<T>, p: spec_fn(T) -> bool) -> Seq<T>
    decreases rows.len(),
{
    if rows.len() == 0 {
        Seq::empty()
    } else {
        let rest = rows_where(rows.drop_last(), p);
        if p(rows.last()) {
            rest.push(rows.last())
        } else {
            rest
        }
    }
}

/// A count of zero means exactly that no row matches.
pub proof fn lemma_count_where_zero<T>(rows: Seq<T>, p: spec_fn(T) -> bool)
    ensures
        count_where(rows, p) == 0 <==> (forall|j: int| 0 <= j < rows.len() ==> !p(
            #[trigger] rows[j],
        )),
    decreases rows.len(),
{
    if rows.len() > 0 {
        lemma_count_where_zero(rows.drop_last(), p);
        assert(rows.last() == rows[rows.len() - 1]);
        assert forall|j: int| 0 <= j < rows.len() - 1 implies rows.drop_last()[j] == #[trigger]
            rows[j] by {}
    }
}

/// Whether a process row carries the registration key `(pid, ip)`.
pub open spec fn proc_key(r: ProcessRow, pid: u32, ip: Seq<char>) -> bool {
    r.pid == pid && r.ip@ == ip
}

/// How the process table changes when `(pid, ip)` is registered: an existing
/// entry keeps its id and is reset to `idle` (idempotent re-registration); a
/// missing key gets a fresh row. Either way, `entry_id` names a live `idle`
/// row for the key afterwards.
pub open spec fn process_upsert(
    pre: Seq<ProcessRow>,
    pre_next: u32,
    post: Seq<ProcessRow>,
    post_next: u32,
    pid: u32,
    ip: Seq<char>,
    entry_id: u32,
) -> bool {
    &&& 1 <= entry_id
    &&& forall|i: int|
        0 <= i < pre.len() && proc_key(#[trigger] pre[i], pid, ip) ==> entry_id == pre[i].entry_id
    &&& (exists|i: int| 0 <= i < pre.len() && proc_key(#[trigger] pre[i], pid, ip)) ==> {
        &&& post.len() == pre.len()
        &&& post_next == pre_next
        &&& forall|i: int|
            0 <= i < pre.len() ==> {
                let o = pre[i];
                let n = #[trigger] post[i];
                if proc_key(o, pid, ip) {
                    n.entry_id == o.entry_id && n.pid == o.pid && n.ip == o.ip && n.status@
                        == "idle"@
                } else {
                    n == o
                }
            }
    }
    &&& (forall|i: int| 0 <= i < pre.len() ==> !proc_key(#[trigger] pre[i], pid, ip)) ==> {
        &&& post.len() == pre.len() + 1
        &&& post.subrange(0, pre.len() as int) == pre
        &&& post.last().entry_id == entry_id
        &&& post.last().pid == pid
        &&& post.last().ip@ == ip
        &&& post.last().status@ == "idle"@
        &&& entry_id == pre_next
        &&& post_next == pre_next + 1
    }
    &&& exists|i: int|
        0 <= i < post.len() && proc_key(#[trigger] post[i], pid, ip) && post[i].entry_id == entry_id
            && post[i].status@ == "idle"@
}

/// Registration is idempotent: registering `(pid, ip)` again, after a
/// registration of the same key, returns the same entry id, changes the
/// table's size and ids not at all, and leaves every entry's fields — the
/// re-registered entry's status `idle` included — as they were.
pub proof fn lemma_register_idempotent(
    pre: Seq<ProcessRow>,
    pre_next: u32,
    mid: Seq<ProcessRow>,
    mid_next: u32,
    post: Seq<ProcessRow>,
    post_next: u32,
    pid: u32,
    ip: Seq<char>,
    first_id: u32,
    second_id: u32,
)
    requires
        process_upsert(pre, pre_next, mid, mid_next, pid, ip, first_id),
        process_upsert(mid, mid_next, post, post_next, pid, ip, second_id),
    ensures
        second_id == first_id,
        post.len() == mid.len(),
        post_next == mid_next,
        forall|i: int|
            0 <= i < mid.len() ==> (#[trigger] post[i]).entry_id == mid[i].entry_id && post[i].pid
                == mid[i].pid && post[i].ip@ == mid[i].ip@ && post[i].status@ == mid[i].status@,
{
    let w = choose|i: int|
        0 <= i < mid.len() && proc_key(#[trigger] mid[i], pid, ip) && mid[i].entry_id == first_id
            && mid[i].status@ == "idle"@;
    assert(second_id == mid[w].entry_id);
    assert forall|i: int|
        0 <= i < mid.len() && proc_key(#[trigger] mid[i], pid, ip) implies mid[i].status@
        == "idle"@ by {
        if exists|j: int| 0 <= j < pre.len() && proc_key(#[trigger] pre[j], pid, ip) {
            if !proc_key(pre[i], pid, ip) {
                assert(mid[i] == pre[i]);
            }
        } else {
            if i < pre.len() {
                assert(pre[i] == mid.subrange(0, pre.len() as int)[i]);
                assert(mid[i] == pre[i]);
            } else {
                assert(mid[i] == mid.last());
            }
        }
    }
    assert forall|i: int|
        0 <= i < mid.len() implies (#[trigger] post[i]).entry_id == mid[i].entry_id && post[i].pid
        == mid[i].pid && post[i].ip@ == mid[i].ip@ && post[i].status@ == mid[i].status@ by {
        if !proc_key(mid[i], pid, ip) {
            assert(post[i] == mid[i]);
        }
    }
}

/// How the region table changes when a region name is resolved: an existing
/// name keeps its id and the table is untouched; a missing name gets a fresh
/// row.
pub open spec fn region_upsert(
    pre: Seq<RegionRow>,
    pre_next: u32,
    post: Seq<RegionRow>,
    post_next: u32,
    name: Seq<char>,
    region_id: u32,
) -> bool {
    &&& 1 <= region_id
    &&& forall|i: int|
        0 <= i < pre.len() && (#[trigger] pre[i]).region_name@ == name ==> region_id
            == pre[i].region_id
    &&& (exists|i: int| 0 <= i < pre.len() && (#[trigger] pre[i]).region_name@ == name) ==> post
        == pre && post_next == pre_next
    &&& (forall|i: int| 0 <= i < pre.len() ==> (#[trigger] pre[i]).region_name@ != name) ==> {
        &&& post.len() == pre.len() + 1
        &&& post.subrange(0, pre.len() as int) == pre
        &&& post.last().region_id == region_id
        &&& post.last().region_name@ == name
        &&& region_id == pre_next
        &&& post_next == pre_next + 1
    }
    &&& exists|i: int|
        0 <= i < post.len() && (#[trigger] post[i]).region_name@ == name && post[i].region_id
            == region_id
}

/// How the storage-detail table changes when a host's record is resolved
/// under `(storage_id, region_id, hostname)`: an existing record keeps its
/// id; a missing one is inserted with exactly the optional name keys that
/// the host supplies.
pub open spec fn detail_upsert(
    pre: Seq<StorageDetailRow>,
    pre_next: u32,
    post: Seq<StorageDetailRow>,
    post_next: u32,
    sid: u32,
    rid: u32,
    hostname: Seq<char>,
    key1: Option<String>,
    key2: Option<String>,
    detail_id: u32,
) -> bool {
    &&& 1 <= detail_id
    &&& forall|i: int|
        0 <= i < pre.len() && detail_key(#[trigger] pre[i], sid, rid, hostname) ==> detail_id
            == pre[i].detail_id
    &&& (exists|i: int| 0 <= i < pre.len() && detail_key(#[trigger] pre[i], sid, rid, hostname))
        ==> post == pre && post_next == pre_next
    &&& (forall|i: int| 0 <= i < pre.len() ==> !detail_key(#[trigger] pre[i], sid, rid, hostname))
        ==> {
        &&& post.len() == pre.len() + 1
        &&& post.subrange(0, pre.len() as int) == pre
        &&& post.last().detail_id == detail_id
        &&& post.last().storage_id == sid
        &&& post.last().region_id == rid
        &&& post.last().hostname@ == hostname
        &&& post.last().name_key1 == key1
        &&& post.last().name_key2 == key2
        &&& detail_id == pre_next
        &&& post_next == pre_next + 1
    }
    &&& exists|i: int|
        0 <= i < post.len() && detail_key(#[trigger] post[i], sid, rid, hostname)
            && post[i].detail_id == detail_id
}

/// The predicate a storage-type row must satisfy to resolve a type name.
pub open spec fn storage_type_named(name: Seq<char>) -> spec_fn(StorageTypeRow) -> bool {
    |row: StorageTypeRow| row.storage_type@ == name
}

/// The predicate a hardware-type row must satisfy to resolve a kind name.
pub open spec fn hardware_type_named(name: Seq<char>) -> spec_fn(HardwareTypeRow) -> bool {
    |row: HardwareTypeRow| row.hardware_type@ == name
}

/// The predicate an operation-type row must satisfy to resolve a type name.
pub open spec fn op_type_named(name: Seq<char>) -> spec_fn(OperationTypeRow) -> bool {
    |row: OperationTypeRow| row.op_name@ == name
}

/// The predicate selecting the disks of one host's storage-detail record.
pub open spec fn disk_of_detail(detail_id: u32, hw_type: u32) -> spec_fn(HardwareRow) -> bool {
    |h: HardwareRow| h.detail_id == detail_id && h.hardware_type == hw_type
}

/// The id under which disks are recorded: the first `disk` row of the
/// hardware-type reference table, or the customary `2` when the table has
/// none.
pub open spec fn disk_hw_type(rows: Seq<HardwareTypeRow>) -> u32 {
    match first_where(rows, hardware_type_named("disk"@)) {
        Some(i) => rows[i].hardware_id,
        None => 2,
    }
}

/// Whether a storage-detail row carries the natural key
/// `(storage_id, region_id, hostname)`.
pub open spec fn detail_key(r: StorageDetailRow, sid: u32, rid: u32, host: Seq<char>) -> bool {
    r.storage_id == sid && r.region_id == rid && r.hostname@ == host
}

/// Whether a hardware row carries the natural key
/// `(detail_id, device_path, device_name)`.
pub open spec fn hw_key(r: HardwareRow, detail_id: u32, path: Seq<char>, name: Seq<char>) -> bool {
    r.detail_id == detail_id && r.device_path@ == path && r.device_name@ == name
}

/// The whole ledger. Ids are assigned from per-table counters and are never
/// reused; `0` is never a valid id, so callers may treat it as a failure
/// sentinel.
pub struct DataStore {
    pub process_manager: Vec<ProcessRow>,
    pub regions: Vec<RegionRow>,
    pub storage_types: Vec<StorageTypeRow>,
    pub storage_details: Vec<StorageDetailRow>,
    pub hardware_types: Vec<HardwareTypeRow>,
    pub hardware: Vec<HardwareRow>,
    pub operations: Vec<OperationRow>,
    pub operation_types: Vec<OperationTypeRow>,
    pub operation_details: Vec<OperationDetailRow>,
    pub next_entry_id: u32,
    pub next_region_id: u32,
    pub next_storage_id: u32,
    pub next_detail_id: u32,
    pub next_hardware_id: u32,
    pub next_device_id: u32,
    pub next_operation_id: u32,
    pub next_type_id: u32,
    pub next_operation_detail_id: u32,
}

impl DataStore {
    /// Ids in `process_manager` are positive, fresh and unique, and the
    /// registration key `(pid, ip)` appears at most once.
    pub open spec fn process_manager_wf(self) -> bool {
        &&& 1 <= self.next_entry_id
        &&& forall|i: int|
            0 <= i < self.process_manager@.len() ==> 1 <= (
            #[trigger] self.process_manager@[i]).entry_id < self.next_entry_id
        &&& forall|i: int, j: int|
            0 <= i < j < self.process_manager@.len()
                ==> (#[trigger] self.process_manager@[i]).entry_id != (
            #[trigger] self.process_manager@[j]).entry_id
        &&& forall|i: int, j: int|
            0 <= i < j < self.process_manager@.len()
                ==> !((#[trigger] self.process_manager@[i]).pid == (
            #[trigger] self.process_manager@[j]).pid && self.process_manager@[i].ip@
                == self.process_manager@[j].ip@)
    }

    /// Ids in `regions` are positive, fresh and unique, and region names are
    /// unique.
    pub open spec fn regions_wf(self) -> bool {
        &&& 1 <= self.next_region_id
        &&& forall|i: int|
            0 <= i < self.regions@.len() ==> 1 <= (#[trigger] self.regions@[i]).region_id
                < self.next_region_id
        &&& forall|i: int, j: int|
            0 <= i < j < self.regions@.len() ==> (#[trigger] self.regions@[i]).region_id != (
            #[trigger] self.regions@[j]).region_id
        &&& forall|i: int, j: int|
            0 <= i < j < self.regions@.len() ==> (#[trigger] self.regions@[i]).region_name@ != (
            #[trigger] self.regions@[j]).region_name@
    }

    /// Ids in `storage_types` are positive, fresh and unique. Type names are
    /// deliberately not required to be unique: the table is reference data
    /// seeded from outside, and resolution must survive (and report)
    /// duplicates.
    pub open spec fn storage_types_wf(self) -> bool {
        &&& 1 <= self.next_storage_id
        &&& forall|i: int|
            0 <= i < self.storage_types@.len() ==> 1 <= (
            #[trigger] self.storage_types@[i]).storage_id < self.next_storage_id
        &&& forall|i: int, j: int|
            0 <= i < j < self.storage_types@.len()
                ==> (#[trigger] self.storage_types@[i]).storage_id != (
            #[trigger] self.storage_types@[j]).storage_id
    }

    /// Ids in `storage_details` are positive, fresh and unique, and the
    /// natural key `(storage_id, region_id, hostname)` appears at most once.
    pub open spec fn storage_details_wf(self) -> bool {
        &&& 1 <= self.next_detail_id
        &&& forall|i: int|
            0 <= i < self.storage_details@.len() ==> 1 <= (
            #[trigger] self.storage_details@[i]).detail_id < self.next_detail_id
        &&& forall|i: int, j: int|
            0 <= i < j < self.storage_details@.len()
                ==> (#[trigger] self.storage_details@[i]).detail_id != (
            #[trigger] self.storage_details@[j]).detail_id
        &&& forall|i: int, j: int|
            0 <= i < j < self.storage_details@.len()
                ==> !((#[trigger] self.storage_details@[i]).storage_id == (
            #[trigger] self.storage_details@[j]).storage_id && self.storage_details@[i].region_id
                == self.storage_details@[j].region_id && self.storage_details@[i].hostname@
                == self.storage_details@[j].hostname@)
    }

    /// Ids in `hardware_types` are positive, fresh and unique.
    pub open spec fn hardware_types_wf(self) -> bool {
        &&& 1 <= self.next_hardware_id
        &&& forall|i: int|
            0 <= i < self.hardware_types@.len() ==> 1 <= (
            #[trigger] self.hardware_types@[i]).hardware_id < self.next_hardware_id
        &&& forall|i: int, j: int|
            0 <= i < j < self.hardware_types@.len()
                ==> (#[trigger] self.hardware_types@[i]).hardware_id != (
            #[trigger] self.hardware_types@[j]).hardware_id
    }

    /// Ids in `hardware` are positive, fresh and unique, and the natural key
    /// `(detail_id, device_path, device_name)` appears at most once.
    pub open spec fn hardware_wf(self) -> bool {
        &&& 1 <= self.next_device_id
        &&& forall|i: int|
            0 <= i < self.hardware@.len() ==> 1 <= (#[trigger] self.hardware@[i]).device_id
                < self.next_device_id
        &&& forall|i: int, j: int|
            0 <= i < j < self.hardware@.len() ==> (#[trigger] self.hardware@[i]).device_id != (
            #[trigger] self.hardware@[j]).device_id
        &&& forall|i: int, j: int|
            0 <= i < j < self.hardware@.len() ==> !((#[trigger] self.hardware@[i]).detail_id == (
            #[trigger] self.hardware@[j]).detail_id && self.hardware@[i].device_path@
                == self.hardware@[j].device_path@ && self.hardware@[i].device_name@
                == self.hardware@[j].device_name@)
    }

    /// Ids in `operations` are positive, fresh and unique.
    pub open spec fn operations_wf(self) -> bool {
        &&& 1 <= self.next_operation_id
        &&& forall|i: int|
            0 <= i < self.operations@.len() ==> 1 <= (#[trigger] self.operations@[i]).operation_id
                < self.next_operation_id
        &&& forall|i: int, j: int|
            0 <= i < j < self.operations@.len()
                ==> (#[trigger] self.operations@[i]).operation_id != (
            #[trigger] self.operations@[j]).operation_id
    }

    /// Ids in `operation_types` are positive, fresh and unique. Names may be
    /// duplicated (that is the data corruption the resolution guard reports).
    pub open spec fn operation_types_wf(self) -> bool {
        &&& 1 <= self.next_type_id
        &&& forall|i: int|
            0 <= i < self.operation_types@.len() ==> 1 <= (
            #[trigger] self.operation_types@[i]).type_id < self.next_type_id
        &&& forall|i: int, j: int|
            0 <= i < j < self.operation_types@.len()
                ==> (#[trigger] self.operation_types@[i]).type_id != (
            #[trigger] self.operation_types@[j]).type_id
    }

    /// Ids in `operation_details` are positive, fresh and unique.
    pub open spec fn operation_details_wf(self) -> bool {
        &&& 1 <= self.next_operation_detail_id
        &&& forall|i: int|
            0 <= i < self.operation_details@.len() ==> 1 <= (
            #[trigger] self.operation_details@[i]).operation_detail_id
                < self.next_operation_detail_id
        &&& forall|i: int, j: int|
            0 <= i < j < self.operation_details@.len()
                ==> (#[trigger] self.operation_details@[i]).operation_detail_id != (
            #[trigger] self.operation_details@[j]).operation_detail_id
    }

    /// The store's well-formedness invariant: constructors establish it and
    /// every method preserves it.
    pub open spec fn wf(self) -> bool {
        &&& self.process_manager_wf()
        &&& self.regions_wf()
        &&& self.storage_types_wf()
        &&& self.storage_details_wf()
        &&& self.hardware_types_wf()
        &&& self.hardware_wf()
        &&& self.operations_wf()
        &&& self.operation_types_wf()
        &&& self.operation_details_wf()
    }

    /// An empty ledger.
    pub fn new() -> (r: DataStore)
        ensures
            r.wf(),
            r.process_manager@.len() == 0,
            r.regions@.len() == 0,
            r.storage_types@.len() == 0,
            r.storage_details@.len() == 0,
            r.hardware_types@.len() == 0,
            r.hardware@.len() == 0,
            r.operations@.len() == 0,
            r.operation_types@.len() == 0,
            r.operation_details@.len() == 0,
    {
        DataStore {
            process_manager: Vec::new(),
            regions: Vec::new(),
            storage_types: Vec::new(),
            storage_details: Vec::new(),
            hardware_types: Vec::new(),
            hardware: Vec::new(),
            operations: Vec::new(),
            operation_types: Vec::new(),
            operation_details: Vec::new(),
            next_entry_id: 1,
            next_region_id: 1,
            next_storage_id: 1,
            next_detail_id: 1,
            next_hardware_id: 1,
            next_device_id: 1,
            next_operation_id: 1,
            next_type_id: 1,
            next_operation_detail_id: 1,
        }
    }

    /// Seeds one storage type into the reference table. Duplicated names are
    /// allowed, as in the store this models.
    pub fn add_storage_type(&mut self, storage_type: String) -> (storage_id: u32)
        requires
            old(self).wf(),
            old(self).next_storage_id < u32::MAX,
        ensures
            final(self).wf(),
            storage_id == old(self).next_storage_id,
            final(self).storage_types@.len() == old(self).storage_types@.len() + 1,
            final(self).storage_types@.subrange(0, old(self).storage_types@.len() as int) == old(
                self,
            ).storage_types@,
            final(self).storage_types@.last().storage_id == storage_id,
            final(self).storage_types@.last().storage_type@ == storage_type@,
            final(self).next_storage_id == old(self).next_storage_id + 1,
            *final(self) == (DataStore {
                storage_types: final(self).storage_types,
                next_storage_id: final(self).next_storage_id,
                ..*old(self)
            }),
    {
        let storage_id = self.next_storage_id;
        self.storage_types.push(StorageTypeRow { storage_id, storage_type });
        self.next_storage_id = storage_id + 1;
        assert(self.storage_types@.subrange(0, old(self).storage_types@.len() as int) =~= old(
            self,
        ).storage_types@);
        storage_id
    }

    /// Seeds one hardware kind into the reference table.
    pub fn add_hardware_type(&mut self, hardware_type: String) -> (hardware_id: u32)
        requires
            old(self).wf(),
            old(self).next_hardware_id < u32::MAX,
        ensures
            final(self).wf(),
            hardware_id == old(self).next_hardware_id,
            final(self).hardware_types@.len() == old(self).hardware_types@.len() + 1,
            final(self).hardware_types@.subrange(0, old(self).hardware_types@.len() as int) == old(
                self,
            ).hardware_types@,
            final(self).hardware_types@.last().hardware_id == hardware_id,
            final(self).hardware_types@.last().hardware_type@ == hardware_type@,
            final(self).next_hardware_id == old(self).next_hardware_id + 1,
            *final(self) == (DataStore {
                hardware_types: final(self).hardware_types,
                next_hardware_id: final(self).next_hardware_id,
                ..*old(self)
            }),
    {
        let hardware_id = self.next_hardware_id;
        self.hardware_types.push(HardwareTypeRow { hardware_id, hardware_type });
        self.next_hardware_id = hardware_id + 1;
        assert(self.hardware_types@.subrange(0, old(self).hardware_types@.len() as int) =~= old(
            self,
        ).hardware_types@);
        hardware_id
    }

    /// Seeds one operation kind into the reference table. Duplicated names
    /// are allowed: type resolution is what must detect them.
    pub fn add_operation_type(&mut self, op_name: String) -> (type_id: u32)
        requires
            old(self).wf(),
            old(self).next_type_id < u32::MAX,
        ensures
            final(self).wf(),
            type_id == old(self).next_type_id,
            final(self).operation_types@.len() == old(self).operation_types@.len() + 1,
            final(self).operation_types@.subrange(0, old(self).operation_types@.len() as int) == old(
                self,
            ).operation_types@,
            final(self).operation_types@.last().type_id == type_id,
            final(self).operation_types@.last().op_name@ == op_name@,
            final(self).next_type_id == old(self).next_type_id + 1,
            *final(self) == (DataStore {
                operation_types: final(self).operation_types,
                next_type_id: final(self).next_type_id,
                ..*old(self)
            }),
    {
        let type_id = self.next_type_id;
        self.operation_types.push(OperationTypeRow { type_id, op_name });
        self.next_type_id = type_id + 1;
        assert(self.operation_types@.subrange(0, old(self).operation_types@.len() as int) =~= old(
            self,
        ).operation_types@);
        type_id
    }

    /// The index of the process row registered under `(pid, ip)`, if any.
    pub(crate) fn find_process(&self, pid: u32, ip: &String) -> (r: Option<usize>)
        ensures
            match r {
                Some(k) => k < self.process_manager@.len() && proc_key(
                    self.process_manager@[k as int],
                    pid,
                    ip@,
                ),
                None => forall|j: int|
                    0 <= j < self.process_manager@.len() ==> !proc_key(
                        #[trigger] self.process_manager@[j],
                        pid,
                        ip@,
                    ),
            },
    {
        let n = self.process_manager.len();
        let mut i: usize = 0;
        while i < n
            invariant
                i <= n,
                n == self.process_manager@.len(),
                forall|j: int|
                    0 <= j < i ==> !proc_key(#[trigger] self.process_manager@[j], pid, ip@),
            decreases n - i,
        {
            if self.process_manager[i].pid == pid && self.process_manager[i].ip == *ip {
                return Some(i);
            }
            i += 1;
        }
        None
    }

    /// Resolves or creates the process entry for `(pid, ip)`: an existing
    /// entry keeps its id and has its status reset to `idle`; otherwise a
    /// fresh entry is inserted. Never returns `0`.
    fn register_to_process_manager(&mut self, pid: u32, ip: &String) -> (entry_id: u32)
        requires
            old(self).wf(),
            old(self).next_entry_id < u32::MAX,
        ensures
            final(self).wf(),
            1 <= entry_id,
            final(self).regions@ == old(self).regions@,
            final(self).storage_types@ == old(self).storage_types@,
            final(self).storage_details@ == old(self).storage_details@,
            final(self).hardware_types@ == old(self).hardware_types@,
            final(self).hardware@ == old(self).hardware@,
            final(self).operations@ == old(self).operations@,
            final(self).operation_types@ == old(self).operation_types@,
            final(self).operation_details@ == old(self).operation_details@,
            final(self).next_region_id == old(self).next_region_id,
            final(self).next_storage_id == old(self).next_storage_id,
            final(self).next_detail_id == old(self).next_detail_id,
            final(self).next_hardware_id == old(self).next_hardware_id,
            final(self).next_device_id == old(self).next_device_id,
            final(self).next_operation_id == old(self).next_operation_id,
            final(self).next_type_id == old(self).next_type_id,
            final(self).next_operation_detail_id == old(self).next_operation_detail_id,
            process_upsert(
                old(self).process_manager@,
                old(self).next_entry_id,
                final(self).process_manager@,
                final(self).next_entry_id,
                pid,
                ip@,
                entry_id,
            ),
    {
        match self.find_process(pid, ip) {
            Some(k) => {
                let entry_id = self.process_manager[k].entry_id;
                let row_pid = self.process_manager[k].pid;
                let row_ip = self.process_manager[k].ip.clone();
                let row = ProcessRow {
                    entry_id,
                    pid: row_pid,
                    ip: row_ip,
                    status: String::from_str("idle"),
                };
                self.process_manager[k] = row;
                assert(proc_key(self.process_manager@[k as int], pid, ip@));
                entry_id
            },
            None => {
                let entry_id = self.next_entry_id;
                self.process_manager.push(
                    ProcessRow { entry_id, pid, ip: ip.clone(), status: String::from_str("idle") },
                );
                self.next_entry_id = entry_id + 1;
                assert(final(self).process_manager@.subrange(
                    0,
                    old(self).process_manager@.len() as int,
                ) =~= old(self).process_manager@);
                assert(proc_key(
                    self.process_manager@[old(self).process_manager@.len() as int],
                    pid,
                    ip@,
                ));
                entry_id
            },
        }
    }

    /// The index of the region row named `region`, if any.
    pub(crate) fn find_region(&self, region: &String) -> (r: Option<usize>)
        ensures
            match r {
                Some(k) => k < self.regions@.len() && self.regions@[k as int].region_name@
                    == region@,
                None => forall|j: int|
                    0 <= j < self.regions@.len() ==> (#[trigger] self.regions@[j]).region_name@
                        != region@,
            },
    {
        let n = self.regions.len();
        let mut i: usize = 0;
        while i < n
            invariant
                i <= n,
                n == self.regions@.len(),
                forall|j: int| 0 <= j < i ==> (#[trigger] self.regions@[j]).region_name@ != region@,
            decreases n - i,
        {
            if self.regions[i].region_name == *region {
                return Some(i);
            }
            i += 1;
        }
        None
    }

    /// Resolves or creates the region named `region` and returns its id.
    /// Never returns `0`.
    fn update_region(&mut self, region: &String) -> (region_id: u32)
        requires
            old(self).wf(),
            old(self).next_region_id < u32::MAX,
        ensures
            final(self).wf(),
            final(self).process_manager@ == old(self).process_manager@,
            final(self).storage_types@ == old(self).storage_types@,
            final(self).storage_details@ == old(self).storage_details@,
            final(self).hardware_types@ == old(self).hardware_types@,
            final(self).hardware@ == old(self).hardware@,
            final(self).operations@ == old(self).operations@,
            final(self).operation_types@ == old(self).operation_types@,
            final(self).operation_details@ == old(self).operation_details@,
            final(self).next_entry_id == old(self).next_entry_id,
            final(self).next_storage_id == old(self).next_storage_id,
            final(self).next_detail_id == old(self).next_detail_id,
            final(self).next_hardware_id == old(self).next_hardware_id,
            final(self).next_device_id == old(self).next_device_id,
            final(self).next_operation_id == old(self).next_operation_id,
            final(self).next_type_id == old(self).next_type_id,
            final(self).next_operation_detail_id == old(self).next_operation_detail_id,
            region_upsert(
                old(self).regions@,
                old(self).next_region_id,
                final(self).regions@,
                final(self).next_region_id,
                region@,
                region_id,
            ),
    {
        match self.find_region(region) {
            Some(k) => self.regions[k].region_id,
            None => {
                let region_id = self.next_region_id;
                self.regions.push(RegionRow { region_id, region_name: region.clone() });
                self.next_region_id = region_id + 1;
                assert(final(self).regions@.subrange(0, old(self).regions@.len() as int) =~= old(
                    self,
                ).regions@);
                assert(self.regions@[old(self).regions@.len() as int].region_name@ == region@);
                region_id
            },
        }
    }

    /// The index of the first storage-type row named `name`, if any.
    pub(crate) fn find_storage_type(&self, name: &String) -> (r: Option<usize>)
        ensures
            match r {
                Some(k) => k < self.storage_types@.len() && first_where(
                    self.storage_types@,
                    storage_type_named(name@),
                ) == Some(k as int),
                None => first_where(self.storage_types@, storage_type_named(name@)) is None,
            },
    {
        let n = self.storage_types.len();
        let mut i: usize = 0;
        while i < n
            invariant
                i <= n,
                n == self.storage_types@.len(),
                forall|j: int|
                    0 <= j < i ==> !storage_type_named(name@)(#[trigger] self.storage_types@[j]),
            decreases n - i,
        {
            if self.storage_types[i].storage_type == *name {
                proof {
                    lemma_first_where_at(self.storage_types@, storage_type_named(name@), i as int);
                }
                return Some(i);
            }
            i += 1;
        }
        proof {
            lemma_first_where(self.storage_types@, storage_type_named(name@));
        }
        None
    }

    /// The index of the storage-detail row keyed
    /// `(storage_id, region_id, hostname)`, if any.
    pub(crate) fn find_storage_detail(&self, storage_id: u32, region_id: u32, hostname: &String) -> (r: Option<
        usize,
    >)
        ensures
            match r {
                Some(k) => k < self.storage_details@.len() && detail_key(
                    self.storage_details@[k as int],
                    storage_id,
                    region_id,
                    hostname@,
                ),
                None => forall|j: int|
                    0 <= j < self.storage_details@.len() ==> !detail_key(
                        #[trigger] self.storage_details@[j],
                        storage_id,
                        region_id,
                        hostname@,
                    ),
            },
    {
        let n = self.storage_details.len();
        let mut i: usize = 0;
        while i < n
            invariant
                i <= n,
                n == self.storage_details@.len(),
                forall|j: int|
                    0 <= j < i ==> !detail_key(
                        #[trigger] self.storage_details@[j],
                        storage_id,
                        region_id,
                        hostname@,
                    ),
            decreases n - i,
        {
            if self.storage_details[i].storage_id == storage_id && self.storage_details[i].region_id
                == region_id && self.storage_details[i].hostname == *hostname {
                return Some(i);
            }
            i += 1;
        }
        None
    }

    /// Resolves the host's storage-detail row. The storage type must already
    /// be seeded: a missing type yields the `0` failure sentinel and changes
    /// nothing. Otherwise the row keyed `(storage_id, region_id, hostname)`
    /// is found or inserted, with exactly the optional name keys the host
    /// supplies.
    fn update_storage_details(&mut self, s_info: &HostInfo, region_id: u32) -> (detail_id: u32)
        requires
            old(self).wf(),
            old(self).next_detail_id < u32::MAX,
        ensures
            final(self).wf(),
            final(self).process_manager@ == old(self).process_manager@,
            final(self).regions@ == old(self).regions@,
            final(self).storage_types@ == old(self).storage_types@,
            final(self).hardware_types@ == old(self).hardware_types@,
            final(self).hardware@ == old(self).hardware@,
            final(self).operations@ == old(self).operations@,
            final(self).operation_types@ == old(self).operation_types@,
            final(self).operation_details@ == old(self).operation_details@,
            final(self).next_entry_id == old(self).next_entry_id,
            final(self).next_region_id == old(self).next_region_id,
            final(self).next_storage_id == old(self).next_storage_id,
            final(self).next_hardware_id == old(self).next_hardware_id,
            final(self).next_device_id == old(self).next_device_id,
            final(self).next_operation_id == old(self).next_operation_id,
            final(self).next_type_id == old(self).next_type_id,
            final(self).next_operation_detail_id == old(self).next_operation_detail_id,
            ({
                let fw = first_where(old(self).storage_types@, storage_type_named(
                    s_info.storage_type@,
                ));
                &&& (fw is None ==> detail_id == 0 && final(self).storage_details@ == old(
                    self,
                ).storage_details@ && final(self).next_detail_id == old(self).next_detail_id)
                &&& (fw matches Some(t) ==> detail_upsert(
                    old(self).storage_details@,
                    old(self).next_detail_id,
                    final(self).storage_details@,
                    final(self).next_detail_id,
                    old(self).storage_types@[t].storage_id,
                    region_id,
                    s_info.hostname@,
                    s_info.array_name,
                    s_info.pool_name,
                    detail_id,
                ))
            }),
    {
        match self.find_storage_type(&s_info.storage_type) {
            None => 0,
            Some(t) => {
                let storage_id = self.storage_types[t].storage_id;
                proof {
                    lemma_first_where(self.storage_types@, storage_type_named(
                        s_info.storage_type@,
                    ));
                }
                match self.find_storage_detail(storage_id, region_id, &s_info.hostname) {
                    Some(k) => self.storage_details[k].detail_id,
                    None => {
                        let detail_id = self.next_detail_id;
                        let name_key1 = match &s_info.array_name {
                            Some(a) => Some(a.clone()),
                            None => None,
                        };
                        let name_key2 = match &s_info.pool_name {
                            Some(p) => Some(p.clone()),
                            None => None,
                        };
                        self.storage_details.push(
                            StorageDetailRow {
                                detail_id,
                                storage_id,
                                region_id,
                                hostname: s_info.hostname.clone(),
                                name_key1,
                                name_key2,
                            },
                        );
                        self.next_detail_id = detail_id + 1;
                        assert(final(self).storage_details@.subrange(
                            0,
                            old(self).storage_details@.len() as int,
                        ) =~= old(self).storage_details@);
                        assert(detail_key(
                            self.storage_details@[old(self).storage_details@.len() as int],
                            storage_id,
                            region_id,
                            s_info.hostname@,
                        ));
                        detail_id
                    },
                }
            },
        }
    }

    /// Registers a host: resolves or creates its process entry, region and
    /// storage-detail rows, all or nothing. Succeeds exactly when the host's
    /// storage type is seeded; otherwise nothing changes, as if the
    /// transaction had rolled back.
    pub fn update_storage_info(&mut self, pid: u32, s_info: &HostInfo) -> (r: BynarResult<
        HostDetailsMapping,
    >)
        requires
            old(self).wf(),
            old(self).next_entry_id < u32::MAX,
            old(self).next_region_id < u32::MAX,
            old(self).next_detail_id < u32::MAX,
        ensures
            final(self).wf(),
            final(self).storage_types@ == old(self).storage_types@,
            final(self).hardware_types@ == old(self).hardware_types@,
            final(self).hardware@ == old(self).hardware@,
            final(self).operations@ == old(self).operations@,
            final(self).operation_types@ == old(self).operation_types@,
            final(self).operation_details@ == old(self).operation_details@,
            final(self).next_storage_id == old(self).next_storage_id,
            final(self).next_hardware_id == old(self).next_hardware_id,
            final(self).next_device_id == old(self).next_device_id,
            final(self).next_operation_id == old(self).next_operation_id,
            final(self).next_type_id == old(self).next_type_id,
            final(self).next_operation_detail_id == old(self).next_operation_detail_id,
            ({
                let fw = first_where(old(self).storage_types@, storage_type_named(
                    s_info.storage_type@,
                ));
                &&& (r matches Err(e) <==> fw is None)
                &&& (r matches Err(e) ==> e matches BynarError::StorageInfoUpdateFailed && final(self).process_manager@ == old(self).process_manager@ && final(self).regions@ == old(
                    self,
                ).regions@ && final(self).storage_details@ == old(self).storage_details@ && final(self).next_entry_id == old(self).next_entry_id && final(self).next_region_id == old(
                    self,
                ).next_region_id && final(self).next_detail_id == old(self).next_detail_id)
                &&& (r matches Ok(m) ==> {
                    &&& process_upsert(
                        old(self).process_manager@,
                        old(self).next_entry_id,
                        final(self).process_manager@,
                        final(self).next_entry_id,
                        pid,
                        s_info.ip@,
                        m.entry_id,
                    )
                    &&& region_upsert(
                        old(self).regions@,
                        old(self).next_region_id,
                        final(self).regions@,
                        final(self).next_region_id,
                        s_info.region@,
                        m.region_id,
                    )
                    &&& (fw matches Some(t) && detail_upsert(
                        old(self).storage_details@,
                        old(self).next_detail_id,
                        final(self).storage_details@,
                        final(self).next_detail_id,
                        old(self).storage_types@[t].storage_id,
                        m.region_id,
                        s_info.hostname@,
                        s_info.array_name,
                        s_info.pool_name,
                        m.storage_detail_id,
                    ))
                })
            }),
    {
        if self.find_storage_type(&s_info.storage_type).is_none() {
            return Err(BynarError::StorageInfoUpdateFailed);
        }
        let entry_id = self.register_to_process_manager(pid, &s_info.ip);
        let region_id = self.update_region(&s_info.region);
        let detail_id = self.update_storage_details(s_info, region_id);
        Ok(HostDetailsMapping::new(entry_id, region_id, detail_id))
    }

    /// Removes the host's process entry keyed `(pid, ip)` on shutdown; a key
    /// that was never registered (or was already removed) is not an error.
    pub fn deregister_from_process_manager(&mut self, pid: u32, ip: &String) -> (r: BynarResult<()>)
        requires
            old(self).wf(),
        ensures
            final(self).wf(),
            r is Ok,
            final(self).regions@ == old(self).regions@,
            final(self).storage_types@ == old(self).storage_types@,
            final(self).storage_details@ == old(self).storage_details@,
            final(self).hardware_types@ == old(self).hardware_types@,
            final(self).hardware@ == old(self).hardware@,
            final(self).operations@ == old(self).operations@,
            final(self).operation_types@ == old(self).operation_types@,
            final(self).operation_details@ == old(self).operation_details@,
            final(self).next_entry_id == old(self).next_entry_id,
            final(self).next_region_id == old(self).next_region_id,
            final(self).next_storage_id == old(self).next_storage_id,
            final(self).next_detail_id == old(self).next_detail_id,
            final(self).next_hardware_id == old(self).next_hardware_id,
            final(self).next_device_id == old(self).next_device_id,
            final(self).next_operation_id == old(self).next_operation_id,
            final(self).next_type_id == old(self).next_type_id,
            final(self).next_operation_detail_id == old(self).next_operation_detail_id,
            (forall|i: int|
                0 <= i < old(self).process_manager@.len() ==> !proc_key(
                    #[trigger] old(self).process_manager@[i],
                    pid,
                    ip@,
                )) ==> final(self).process_manager@ == old(self).process_manager@,
            forall|i: int|
                0 <= i < old(self).process_manager@.len() && proc_key(
                    #[trigger] old(self).process_manager@[i],
                    pid,
                    ip@,
                ) ==> final(self).process_manager@ == old(self).process_manager@.remove(i),
            forall|i: int|
                0 <= i < final(self).process_manager@.len() ==> !proc_key(
                    #[trigger] final(self).process_manager@[i],
                    pid,
                    ip@,
                ),
    {
        match self.find_process(pid, ip) {
            None => Ok(()),
            Some(k) => {
                self.process_manager.remove(k);
                proof {
                    assert forall|i: int|
                        0 <= i < old(self).process_manager@.len() && proc_key(
                            #[trigger] old(self).process_manager@[i],
                            pid,
                            ip@,
                        ) implies final(self).process_manager@ == old(
                        self,
                    ).process_manager@.remove(i) by {
                        assert(i == k);
                    }
                    assert forall|i: int|
                        0 <= i < final(self).process_manager@.len() implies !proc_key(
                            #[trigger] final(self).process_manager@[i],
                            pid,
                            ip@,
                        ) by {
                        if i < k {
                            assert(final(self).process_manager@[i] == old(
                                self,
                            ).process_manager@[i]);
                        } else {
                            assert(final(self).process_manager@[i] == old(
                                self,
                            ).process_manager@[i + 1]);
                        }
                    }
                }
                Ok(())
            },
        }
    }

    /// The index of the first hardware-type row named `name`, if any.
    pub(crate) fn find_hardware_type(&self, name: &String) -> (r: Option<usize>)
        ensures
            match r {
                Some(k) => k < self.hardware_types@.len() && first_where(
                    self.hardware_types@,
                    hardware_type_named(name@),
                ) == Some(k as int),
                None => first_where(self.hardware_types@, hardware_type_named(name@)) is None,
            },
    {
        let n = self.hardware_types.len();
        let mut i: usize = 0;
        while i < n
            invariant
                i <= n,
                n == self.hardware_types@.len(),
                forall|j: int|
                    0 <= j < i ==> !hardware_type_named(name@)(#[trigger] self.hardware_types@[j]),
            decreases n - i,
        {
            if self.hardware_types[i].hardware_type == *name {
                proof {
                    lemma_first_where_at(self.hardware_types@, hardware_type_named(name@), i as int);
                }
                return Some(i);
            }
            i += 1;
        }
        proof {
            lemma_first_where(self.hardware_types@, hardware_type_named(name@));
        }
        None
    }

    /// The index of the hardware row keyed
    /// `(detail_id, device_path, device_name)`, if any.
    pub(crate) fn find_hardware(&self, detail_id: u32, device_path: &String, device_name: &String) -> (r:
        Option<usize>)
        ensures
            match r {
                Some(k) => k < self.hardware@.len() && hw_key(
                    self.hardware@[k as int],
                    detail_id,
                    device_path@,
                    device_name@,
                ),
                None => forall|j: int|
                    0 <= j < self.hardware@.len() ==> !hw_key(
                        #[trigger] self.hardware@[j],
                        detail_id,
                        device_path@,
                        device_name@,
                    ),
            },
    {
        let n = self.hardware.len();
        let mut i: usize = 0;
        while i < n
            invariant
                i <= n,
                n == self.hardware@.len(),
                forall|j: int|
                    0 <= j < i ==> !hw_key(
                        #[trigger] self.hardware@[j],
                        detail_id,
                        device_path@,
                        device_name@,
                    ),
            decreases n - i,
        {
            if self.hardware[i].detail_id == detail_id && self.hardware[i].device_path
                == *device_path && self.hardware[i].device_name == *device_name {
                return Some(i);
            }
            i += 1;
        }
        None
    }

    /// Reconciles one observed disk against the hardware table, keyed by
    /// `(storage_detail_id, dev_path, name)`. A new disk is inserted and its
    /// fresh id adopted; a known disk's stored id is adopted when the caller
    /// has none, confirmed when it agrees, and reported as a mismatch — with
    /// nothing written — when it disagrees. Running this twice for the same
    /// disk converges on the same id.
    pub fn add_disk_detail(&mut self, disk_info: &mut BlockDevice) -> (r: BynarResult<()>)
        requires
            old(self).wf(),
            old(self).next_device_id < u32::MAX,
        ensures
            final(self).wf(),
            final(self).process_manager@ == old(self).process_manager@,
            final(self).regions@ == old(self).regions@,
            final(self).storage_types@ == old(self).storage_types@,
            final(self).storage_details@ == old(self).storage_details@,
            final(self).hardware_types@ == old(self).hardware_types@,
            final(self).operations@ == old(self).operations@,
            final(self).operation_types@ == old(self).operation_types@,
            final(self).operation_details@ == old(self).operation_details@,
            final(self).next_entry_id == old(self).next_entry_id,
            final(self).next_region_id == old(self).next_region_id,
            final(self).next_storage_id == old(self).next_storage_id,
            final(self).next_detail_id == old(self).next_detail_id,
            final(self).next_hardware_id == old(self).next_hardware_id,
            final(self).next_operation_id == old(self).next_operation_id,
            final(self).next_type_id == old(self).next_type_id,
            final(self).next_operation_detail_id == old(self).next_operation_detail_id,
            r is Ok <==> !(exists|i: int|
                0 <= i < old(self).hardware@.len() && hw_key(
                    #[trigger] old(self).hardware@[i],
                    old(disk_info).storage_detail_id,
                    old(disk_info).dev_path@,
                    old(disk_info).name@,
                ) && (old(disk_info).device_database_id matches Some(d) && d != old(
                    self,
                ).hardware@[i].device_id)),
            r matches Err(e) ==> {
                &&& e matches BynarError::DeviceMismatch { device_name, detail_id }
                    && device_name@ == old(disk_info).name@ && detail_id == old(
                    disk_info,
                ).storage_detail_id
                &&& final(self).hardware@ == old(self).hardware@
                &&& final(self).next_device_id == old(self).next_device_id
                &&& *final(disk_info) == *old(disk_info)
            },
            forall|i: int|
                0 <= i < old(self).hardware@.len() && hw_key(
                    #[trigger] old(self).hardware@[i],
                    old(disk_info).storage_detail_id,
                    old(disk_info).dev_path@,
                    old(disk_info).name@,
                ) ==> {
                    &&& final(self).hardware@ == old(self).hardware@
                    &&& final(self).next_device_id == old(self).next_device_id
                    &&& (r is Ok ==> *final(disk_info) == (BlockDevice {
                        device_database_id: Some(old(self).hardware@[i].device_id),
                        ..*old(disk_info)
                    }))
                },
            (forall|i: int|
                0 <= i < old(self).hardware@.len() ==> !hw_key(
                    #[trigger] old(self).hardware@[i],
                    old(disk_info).storage_detail_id,
                    old(disk_info).dev_path@,
                    old(disk_info).name@,
                )) ==> {
                &&& r is Ok
                &&& final(self).hardware@.len() == old(self).hardware@.len() + 1
                &&& final(self).hardware@.subrange(0, old(self).hardware@.len() as int) == old(
                    self,
                ).hardware@
                &&& ({
                    let row = final(self).hardware@.last();
                    &&& row.device_id == old(self).next_device_id
                    &&& row.detail_id == old(disk_info).storage_detail_id
                    &&& row.device_path@ == old(disk_info).dev_path@
                    &&& row.device_name@ == old(disk_info).name@
                    &&& row.state@ == spec_state_token(old(disk_info).state)
                    &&& row.hardware_type == disk_hw_type(old(self).hardware_types@)
                    &&& row.mount_path == old(disk_info).mount_point
                    &&& row.device_uuid == old(disk_info).uuid
                    &&& row.serial_number == old(disk_info).serial_number
                    &&& row.smart_passed is None
                })
                &&& final(self).next_device_id == old(self).next_device_id + 1
                &&& *final(disk_info) == (BlockDevice {
                    device_database_id: Some(old(self).next_device_id),
                    ..*old(disk_info)
                })
            },
            r is Ok ==> exists|i: int|
                0 <= i < final(self).hardware@.len() && hw_key(
                    #[trigger] final(self).hardware@[i],
                    old(disk_info).storage_detail_id,
                    old(disk_info).dev_path@,
                    old(disk_info).name@,
                ) && final(disk_info).device_database_id == Some(
                    final(self).hardware@[i].device_id,
                ),
    {
        match self.find_hardware(disk_info.storage_detail_id, &disk_info.dev_path, &disk_info.name) {
            None => {
                let hardware_type = match self.find_hardware_type(&String::from_str("disk")) {
                    Some(t) => self.hardware_types[t].hardware_id,
                    None => 2,
                };
                assert(hardware_type == disk_hw_type(self.hardware_types@));
                let device_id = self.next_device_id;
                let mount_path = match &disk_info.mount_point {
                    Some(m) => Some(m.clone()),
                    None => None,
                };
                let device_uuid = match &disk_info.uuid {
                    Some(u) => Some(u.clone()),
                    None => None,
                };
                let serial_number = match &disk_info.serial_number {
                    Some(s) => Some(s.clone()),
                    None => None,
                };
                self.hardware.push(
                    HardwareRow {
                        device_id,
                        detail_id: disk_info.storage_detail_id,
                        device_path: disk_info.dev_path.clone(),
                        device_name: disk_info.name.clone(),
                        state: state_token(disk_info.state),
                        hardware_type,
                        mount_path,
                        device_uuid,
                        serial_number,
                        smart_passed: None,
                    },
                );
                self.next_device_id = device_id + 1;
                disk_info.device_database_id = Some(device_id);
                assert(final(self).hardware@.subrange(0, old(self).hardware@.len() as int) =~= old(
                    self,
                ).hardware@);
                assert(hw_key(
                    self.hardware@[old(self).hardware@.len() as int],
                    old(disk_info).storage_detail_id,
                    old(disk_info).dev_path@,
                    old(disk_info).name@,
                ));
                Ok(())
            },
            Some(k) => {
                let stored = self.hardware[k].device_id;
                match disk_info.device_database_id {
                    None => {
                        disk_info.device_database_id = Some(stored);
                        assert(hw_key(
                            self.hardware@[k as int],
                            old(disk_info).storage_detail_id,
                            old(disk_info).dev_path@,
                            old(disk_info).name@,
                        ));
                        Ok(())
                    },
                    Some(known) => {
                        if known != stored {
                            Err(
                                BynarError::DeviceMismatch {
                                    device_name: disk_info.name.clone(),
                                    detail_id: disk_info.storage_detail_id,
                                },
                            )
                        } else {
                            assert(hw_key(
                                self.hardware@[k as int],
                                old(disk_info).storage_detail_id,
                                old(disk_info).dev_path@,
                                old(disk_info).name@,
                            ));
                            Ok(())
                        }
                    },
                }
            },
        }
    }

    /// The index of the operation row with this id, if any.
    pub(crate) fn find_operation(&self, operation_id: u32) -> (r: Option<usize>)
        ensures
            match r {
                Some(k) => k < self.operations@.len() && self.operations@[k as int].operation_id
                    == operation_id,
                None => forall|j: int|
                    0 <= j < self.operations@.len() ==> (
                    #[trigger] self.operations@[j]).operation_id != operation_id,
            },
    {
        let n = self.operations.len();
        let mut i: usize = 0;
        while i < n
            invariant
                i <= n,
                n == self.operations@.len(),
                forall|j: int|
                    0 <= j < i ==> (#[trigger] self.operations@[j]).operation_id != operation_id,
            decreases n - i,
        {
            if self.operations[i].operation_id == operation_id {
                return Some(i);
            }
            i += 1;
        }
        None
    }

    /// The index of the operation-detail row with this id, if any.
    pub(crate) fn find_operation_detail(&self, operation_detail_id: u32) -> (r: Option<usize>)
        ensures
            match r {
                Some(k) => k < self.operation_details@.len()
                    && self.operation_details@[k as int].operation_detail_id
                    == operation_detail_id,
                None => forall|j: int|
                    0 <= j < self.operation_details@.len() ==> (
                    #[trigger] self.operation_details@[j]).operation_detail_id
                        != operation_detail_id,
            },
    {
        let n = self.operation_details.len();
        let mut i: usize = 0;
        while i < n
            invariant
                i <= n,
                n == self.operation_details@.len(),
                forall|j: int|
                    0 <= j < i ==> (#[trigger] self.operation_details@[j]).operation_detail_id
                        != operation_detail_id,
            decreases n - i,
        {
            if self.operation_details[i].operation_detail_id == operation_detail_id {
                return Some(i);
            }
            i += 1;
        }
        None
    }

    /// The index of the first operation-type row named `name`, if any.
    pub(crate) fn find_operation_type(&self, name: &String) -> (r: Option<usize>)
        ensures
            match r {
                Some(k) => k < self.operation_types@.len() && first_where(
                    self.operation_types@,
                    op_type_named(name@),
                ) == Some(k as int),
                None => first_where(self.operation_types@, op_type_named(name@)) is None,
            },
    {
        let n = self.operation_types.len();
        let mut i: usize = 0;
        while i < n
            invariant
                i <= n,
                n == self.operation_types@.len(),
                forall|j: int|
                    0 <= j < i ==> !op_type_named(name@)(#[trigger] self.operation_types@[j]),
            decreases n - i,
        {
            if self.operation_types[i].op_name == *name {
                proof {
                    lemma_first_where_at(self.operation_types@, op_type_named(name@), i as int);
                }
                return Some(i);
            }
            i += 1;
        }
        proof {
            lemma_first_where(self.operation_types@, op_type_named(name@));
        }
        None
    }

    /// How many operation-type rows are named `name`. Type resolution must
    /// see exactly one.
    pub(crate) fn count_operation_types(&self, name: &String) -> (n: usize)
        ensures
            n == count_where(self.operation_types@, op_type_named(name@)),
    {
        let len = self.operation_types.len();
        let mut cnt: usize = 0;
        let mut i: usize = 0;
        assert(self.operation_types@.take(0) =~= Seq::<OperationTypeRow>::empty());
        while i < len
            invariant
                i <= len,
                cnt <= i,
                len == self.operation_types@.len(),
                cnt == count_where(self.operation_types@.take(i as int), op_type_named(name@)),
            decreases len - i,
        {
            proof {
                assert(self.operation_types@.take(i + 1).drop_last() =~= self.operation_types@.take(
                    i as int,
                ));
                assert(self.operation_types@.take(i + 1).last() == self.operation_types@[i as int]);
            }
            if self.operation_types[i].op_name == *name {
                cnt = cnt + 1;
            }
            i += 1;
        }
        proof {
            assert(self.operation_types@.take(len as int) =~= self.operation_types@);
        }
        cnt
    }

    /// Records a new operation, or moves an existing one forward.
    ///
    /// Without an id this inserts a fresh row — requiring a valid process
    /// entry id — and hands the generated id back through `op_info`; the
    /// done time is never part of the insert. With an id it is a best-effort
    /// update of the existing row's snapshot time, and done time when one is
    /// set: the row's identity (`operation_id`, `entry_id`, `device_id`) and
    /// its start time never change, and an id that matches no row is not an
    /// error.
    pub fn add_or_update_operation(&mut self, op_info: &mut OperationInfo) -> (r: BynarResult<()>)
        requires
            old(self).wf(),
            old(self).next_operation_id < u32::MAX,
        ensures
            final(self).wf(),
            final(self).process_manager@ == old(self).process_manager@,
            final(self).regions@ == old(self).regions@,
            final(self).storage_types@ == old(self).storage_types@,
            final(self).storage_details@ == old(self).storage_details@,
            final(self).hardware_types@ == old(self).hardware_types@,
            final(self).hardware@ == old(self).hardware@,
            final(self).operation_types@ == old(self).operation_types@,
            final(self).operation_details@ == old(self).operation_details@,
            final(self).next_entry_id == old(self).next_entry_id,
            final(self).next_region_id == old(self).next_region_id,
            final(self).next_storage_id == old(self).next_storage_id,
            final(self).next_detail_id == old(self).next_detail_id,
            final(self).next_hardware_id == old(self).next_hardware_id,
            final(self).next_device_id == old(self).next_device_id,
            final(self).next_type_id == old(self).next_type_id,
            final(self).next_operation_detail_id == old(self).next_operation_detail_id,
            r is Err <==> old(op_info).operation_id is None && old(op_info).entry_id == 0,
            old(op_info).operation_id is None && old(op_info).entry_id == 0 ==> {
                &&& (r matches Err(e) && e matches BynarError::EntryIdRequired)
                &&& final(self).operations@ == old(self).operations@
                &&& final(self).next_operation_id == old(self).next_operation_id
                &&& *final(op_info) == *old(op_info)
            },
            old(op_info).operation_id is None && old(op_info).entry_id != 0 ==> {
                &&& final(self).operations@.len() == old(self).operations@.len() + 1
                &&& final(self).operations@.subrange(0, old(self).operations@.len() as int) == old(
                    self,
                ).operations@
                &&& ({
                    let row = final(self).operations@.last();
                    &&& row.operation_id == old(self).next_operation_id
                    &&& row.entry_id == old(op_info).entry_id
                    &&& row.device_id == old(op_info).device_id
                    &&& row.behalf_of == old(op_info).behalf_of
                    &&& row.reason == old(op_info).reason
                    &&& row.start_time == old(op_info).start_time
                    &&& row.snapshot_time == old(op_info).snapshot_time
                    &&& row.done_time is None
                })
                &&& final(self).next_operation_id == old(self).next_operation_id + 1
                &&& *final(op_info) == (OperationInfo {
                    operation_id: Some(old(self).next_operation_id),
                    ..*old(op_info)
                })
            },
            old(op_info).operation_id matches Some(id) ==> {
                &&& *final(op_info) == *old(op_info)
                &&& final(self).next_operation_id == old(self).next_operation_id
                &&& final(self).operations@.len() == old(self).operations@.len()
                &&& forall|i: int|
                    0 <= i < old(self).operations@.len() ==> {
                        let o = old(self).operations@[i];
                        let n = #[trigger] final(self).operations@[i];
                        if o.operation_id == id {
                            n.operation_id == o.operation_id && n.entry_id == o.entry_id
                                && n.device_id == o.device_id && n.behalf_of == o.behalf_of
                                && n.reason == o.reason && n.start_time == o.start_time
                                && n.snapshot_time == old(op_info).snapshot_time && n.done_time
                                == (if old(op_info).done_time is Some {
                                old(op_info).done_time
                            } else {
                                o.done_time
                            })
                        } else {
                            n == o
                        }
                    }
            },
    {
        match op_info.operation_id {
            None => {
                if op_info.entry_id == 0 {
                    return Err(BynarError::EntryIdRequired);
                }
                let operation_id = self.next_operation_id;
                let behalf_of = match &op_info.behalf_of {
                    Some(b) => Some(b.clone()),
                    None => None,
                };
                let reason = match &op_info.reason {
                    Some(q) => Some(q.clone()),
                    None => None,
                };
                self.operations.push(
                    OperationRow {
                        operation_id,
                        entry_id: op_info.entry_id,
                        device_id: op_info.device_id,
                        behalf_of,
                        reason,
                        start_time: op_info.start_time,
                        snapshot_time: op_info.snapshot_time,
                        done_time: None,
                    },
                );
                self.next_operation_id = operation_id + 1;
                op_info.operation_id = Some(operation_id);
                assert(final(self).operations@.subrange(0, old(self).operations@.len() as int)
                    =~= old(self).operations@);
                Ok(())
            },
            Some(id) => {
                match self.find_operation(id) {
                    None => Ok(()),
                    Some(k) => {
                        self.operations[k].snapshot_time = op_info.snapshot_time;
                        if let Some(d) = op_info.done_time {
                            self.operations[k].done_time = Some(d);
                        }
                        proof {
                            assert forall|i: int|
                                0 <= i < old(self).operations@.len() && i != k implies (
                            #[trigger] old(self).operations@[i]).operation_id != id by {
                                if i < k {
                                    assert(old(self).operations@[i].operation_id != old(
                                        self,
                                    ).operations@[k as int].operation_id);
                                } else {
                                    assert(old(self).operations@[k as int].operation_id != old(
                                        self,
                                    ).operations@[i].operation_id);
                                }
                            }
                        }
                        Ok(())
                    },
                }
            },
        }
    }

    /// Records a new operation detail, or moves an existing one forward.
    ///
    /// Without an id, the detail's type is resolved against the
    /// operation-type reference table, which must name it exactly once —
    /// an absent name is an unknown type, a duplicated one is data
    /// corruption, and both fail without writing. On success the row is
    /// inserted (with the tracking id and done time only when present) and
    /// the generated id handed back. With an id, snapshot time and status
    /// are always updated, tracking id and done time only when present; the
    /// row's identity (`operation_detail_id`, `operation_id`, `type_id`) and
    /// start time never change, and an id that matches no row is not an
    /// error.
    pub fn add_or_update_operation_detail(&mut self, operation_detail: &mut OperationDetail) -> (r:
        BynarResult<()>)
        requires
            old(self).wf(),
            old(self).next_operation_detail_id < u32::MAX,
        ensures
            final(self).wf(),
            final(self).process_manager@ == old(self).process_manager@,
            final(self).regions@ == old(self).regions@,
            final(self).storage_types@ == old(self).storage_types@,
            final(self).storage_details@ == old(self).storage_details@,
            final(self).hardware_types@ == old(self).hardware_types@,
            final(self).hardware@ == old(self).hardware@,
            final(self).operations@ == old(self).operations@,
            final(self).operation_types@ == old(self).operation_types@,
            final(self).next_entry_id == old(self).next_entry_id,
            final(self).next_region_id == old(self).next_region_id,
            final(self).next_storage_id == old(self).next_storage_id,
            final(self).next_detail_id == old(self).next_detail_id,
            final(self).next_hardware_id == old(self).next_hardware_id,
            final(self).next_device_id == old(self).next_device_id,
            final(self).next_operation_id == old(self).next_operation_id,
            final(self).next_type_id == old(self).next_type_id,
            old(operation_detail).op_detail_id is None ==> ({
                let tok = spec_op_type_token(old(operation_detail).op_type);
                let cnt = count_where(old(self).operation_types@, op_type_named(tok));
                &&& (r is Err <==> cnt != 1)
                &&& (cnt == 0 ==> (r matches Err(e) && (e
                    matches BynarError::OperationTypeNotFound { op_name } && op_name@ == tok)))
                &&& (cnt > 1 ==> (r matches Err(e) && (e
                    matches BynarError::OperationTypeDuplicated { op_name } && op_name@ == tok)))
                &&& (cnt != 1 ==> final(self).operation_details@ == old(self).operation_details@
                    && final(self).next_operation_detail_id == old(self).next_operation_detail_id
                    && *final(operation_detail) == *old(operation_detail))
                &&& (cnt == 1 ==> {
                    &&& final(self).operation_details@.len() == old(
                        self,
                    ).operation_details@.len() + 1
                    &&& final(self).operation_details@.subrange(
                        0,
                        old(self).operation_details@.len() as int,
                    ) == old(self).operation_details@
                    &&& ({
                        let row = final(self).operation_details@.last();
                        &&& row.operation_detail_id == old(self).next_operation_detail_id
                        &&& row.operation_id == old(operation_detail).operation_id
                        &&& (first_where(old(self).operation_types@, op_type_named(tok))
                            matches Some(t) && row.type_id == old(
                            self,
                        ).operation_types@[t].type_id)
                        &&& row.status@ == spec_status_token(old(operation_detail).status)
                        &&& row.tracking_id == old(operation_detail).tracking_id
                        &&& row.start_time == old(operation_detail).start_time
                        &&& row.snapshot_time == old(operation_detail).snapshot_time
                        &&& row.done_time == old(operation_detail).done_time
                    })
                    &&& final(self).next_operation_detail_id == old(
                        self,
                    ).next_operation_detail_id + 1
                    &&& *final(operation_detail) == (OperationDetail {
                        op_detail_id: Some(old(self).next_operation_detail_id),
                        ..*old(operation_detail)
                    })
                })
            }),
            old(operation_detail).op_detail_id matches Some(id) ==> {
                &&& r is Ok
                &&& *final(operation_detail) == *old(operation_detail)
                &&& final(self).next_operation_detail_id == old(self).next_operation_detail_id
                &&& final(self).operation_details@.len() == old(self).operation_details@.len()
                &&& forall|i: int|
                    0 <= i < old(self).operation_details@.len() ==> {
                        let o = old(self).operation_details@[i];
                        let n = #[trigger] final(self).operation_details@[i];
                        if o.operation_detail_id == id {
                            n.operation_detail_id == o.operation_detail_id && n.operation_id
                                == o.operation_id && n.type_id == o.type_id && n.status@
                                == spec_status_token(old(operation_detail).status)
                                && n.tracking_id == (if old(operation_detail).tracking_id is Some {
                                old(operation_detail).tracking_id
                            } else {
                                o.tracking_id
                            }) && n.start_time == o.start_time && n.snapshot_time == old(
                                operation_detail,
                            ).snapshot_time && n.done_time == (if old(
                                operation_detail,
                            ).done_time is Some {
                                old(operation_detail).done_time
                            } else {
                                o.done_time
                            })
                        } else {
                            n == o
                        }
                    }
            },
    {
        match operation_detail.op_detail_id {
            None => {
                let tok = op_type_token(operation_detail.op_type);
                let cnt = self.count_operation_types(&tok);
                match self.find_operation_type(&tok) {
                    None => {
                        proof {
                            lemma_first_where(self.operation_types@, op_type_named(tok@));
                            lemma_count_where_zero(self.operation_types@, op_type_named(tok@));
                        }
                        Err(BynarError::OperationTypeNotFound { op_name: tok })
                    },
                    Some(t) => {
                        proof {
                            lemma_first_where(self.operation_types@, op_type_named(tok@));
                            lemma_count_where_zero(self.operation_types@, op_type_named(tok@));
                        }
                        if cnt > 1 {
                            Err(BynarError::OperationTypeDuplicated { op_name: tok })
                        } else {
                            let type_id = self.operation_types[t].type_id;
                            let operation_detail_id = self.next_operation_detail_id;
                            let tracking_id = match &operation_detail.tracking_id {
                                Some(t_id) => Some(t_id.clone()),
                                None => None,
                            };
                            self.operation_details.push(
                                OperationDetailRow {
                                    operation_detail_id,
                                    operation_id: operation_detail.operation_id,
                                    type_id,
                                    status: status_token(operation_detail.status),
                                    tracking_id,
                                    start_time: operation_detail.start_time,
                                    snapshot_time: operation_detail.snapshot_time,
                                    done_time: operation_detail.done_time,
                                },
                            );
                            self.next_operation_detail_id = operation_detail_id + 1;
                            operation_detail.op_detail_id = Some(operation_detail_id);
                            assert(final(self).operation_details@.subrange(
                                0,
                                old(self).operation_details@.len() as int,
                            ) =~= old(self).operation_details@);
                            Ok(())
                        }
                    },
                }
            },
            Some(id) => {
                match self.find_operation_detail(id) {
                    None => Ok(()),
                    Some(k) => {
                        self.operation_details[k].snapshot_time = operation_detail.snapshot_time;
                        self.operation_details[k].status = status_token(operation_detail.status);
                        if let Some(t_id) = &operation_detail.tracking_id {
                            self.operation_details[k].tracking_id = Some(t_id.clone());
                        }
                        if let Some(d) = operation_detail.done_time {
                            self.operation_details[k].done_time = Some(d);
                        }
                        proof {
                            assert forall|i: int|
                                0 <= i < old(self).operation_details@.len() && i != k implies (
                            #[trigger] old(self).operation_details@[i]).operation_detail_id
                                != id by {
                                if i < k {
                                    assert(old(self).operation_details@[i].operation_detail_id
                                        != old(
                                        self,
                                    ).operation_details@[k as int].operation_detail_id);
                                } else {
                                    assert(old(
                                        self,
                                    ).operation_details@[k as int].operation_detail_id != old(
                                        self,
                                    ).operation_details@[i].operation_detail_id);
                                }
                            }
                        }
                        Ok(())
                    },
                }
            },
        }
    }

    /// The index of the hardware row with this device id, if any.
    pub(crate) fn find_device(&self, device_id: u32) -> (r: Option<usize>)
        ensures
            match r {
                Some(k) => k < self.hardware@.len() && self.hardware@[k as int].device_id
                    == device_id,
                None => forall|j: int|
                    0 <= j < self.hardware@.len() ==> (#[trigger] self.hardware@[j]).device_id
                        != device_id,
            },
    {
        let n = self.hardware.len();
        let mut i: usize = 0;
        while i < n
            invariant
                i <= n,
                n == self.hardware@.len(),
                forall|j: int|
                    0 <= j < i ==> (#[trigger] self.hardware@[j]).device_id != device_id,
            decreases n - i,
        {
            if self.hardware[i].device_id == device_id {
                return Some(i);
            }
            i += 1;
        }
        None
    }

    /// Persists a disk's lifecycle state, guarded by row-count verification:
    /// the write commits only if it touches exactly one hardware row, and is
    /// rolled back — leaving every row as it was — otherwise. A device with
    /// no known database id cannot have state recorded at all.
    pub fn save_state(&mut self, device_detail: &BlockDevice, state: State) -> (r: BynarResult<()>)
        requires
            old(self).wf(),
        ensures
            final(self).wf(),
            final(self).process_manager@ == old(self).process_manager@,
            final(self).regions@ == old(self).regions@,
            final(self).storage_types@ == old(self).storage_types@,
            final(self).storage_details@ == old(self).storage_details@,
            final(self).hardware_types@ == old(self).hardware_types@,
            final(self).operations@ == old(self).operations@,
            final(self).operation_types@ == old(self).operation_types@,
            final(self).operation_details@ == old(self).operation_details@,
            final(self).next_entry_id == old(self).next_entry_id,
            final(self).next_region_id == old(self).next_region_id,
            final(self).next_storage_id == old(self).next_storage_id,
            final(self).next_detail_id == old(self).next_detail_id,
            final(self).next_hardware_id == old(self).next_hardware_id,
            final(self).next_device_id == old(self).next_device_id,
            final(self).next_operation_id == old(self).next_operation_id,
            final(self).next_type_id == old(self).next_type_id,
            final(self).next_operation_detail_id == old(self).next_operation_detail_id,
            r is Ok <==> (device_detail.device_database_id matches Some(d) && exists|i: int|
                0 <= i < old(self).hardware@.len() && (#[trigger] old(self).hardware@[i]).device_id
                    == d),
            device_detail.device_database_id is None ==> (r matches Err(e) && (e
                matches BynarError::DeviceNotInDatabase { device_name, detail_id } && device_name@
                == device_detail.name@ && detail_id == device_detail.storage_detail_id)),
            r is Err ==> final(self).hardware@ == old(self).hardware@,
            device_detail.device_database_id matches Some(d) ==> {
                &&& ((forall|i: int|
                    0 <= i < old(self).hardware@.len() ==> (
                    #[trigger] old(self).hardware@[i]).device_id != d) ==> (r matches Err(e) && e
                    matches BynarError::RowCountMismatch { rows: 0usize }))
                &&& final(self).hardware@.len() == old(self).hardware@.len()
                &&& forall|i: int|
                    0 <= i < old(self).hardware@.len() ==> {
                        let o = old(self).hardware@[i];
                        let n = #[trigger] final(self).hardware@[i];
                        if o.device_id == d {
                            n.device_id == o.device_id && n.detail_id == o.detail_id
                                && n.device_path == o.device_path && n.device_name == o.device_name
                                && n.state@ == spec_state_token(state) && n.hardware_type
                                == o.hardware_type && n.mount_path == o.mount_path && n.device_uuid
                                == o.device_uuid && n.serial_number == o.serial_number
                                && n.smart_passed == o.smart_passed
                        } else {
                            n == o
                        }
                    }
            },
    {
        match device_detail.device_database_id {
            None => Err(
                BynarError::DeviceNotInDatabase {
                    device_name: device_detail.name.clone(),
                    detail_id: device_detail.storage_detail_id,
                },
            ),
            Some(dev_id) => {
                match self.find_device(dev_id) {
                    None => Err(BynarError::RowCountMismatch { rows: 0 }),
                    Some(k) => {
                        self.hardware[k].state = state_token(state);
                        proof {
                            assert forall|i: int|
                                0 <= i < old(self).hardware@.len() && i != k implies (
                            #[trigger] old(self).hardware@[i]).device_id != dev_id by {
                                if i < k {
                                    assert(old(self).hardware@[i].device_id != old(
                                        self,
                                    ).hardware@[k as int].device_id);
                                } else {
                                    assert(old(self).hardware@[k as int].device_id != old(
                                        self,
                                    ).hardware@[i].device_id);
                                }
                            }
                        }
                        Ok(())
                    },
                }
            },
        }
    }

    /// Persists a disk's last SMART pass/fail result, with the same
    /// row-count guard and rollback as `save_state`.
    pub fn save_smart_result(&mut self, device_detail: &BlockDevice, smart_passed: bool) -> (r:
        BynarResult<()>)
        requires
            old(self).wf(),
        ensures
            final(self).wf(),
            final(self).process_manager@ == old(self).process_manager@,
            final(self).regions@ == old(self).regions@,
            final(self).storage_types@ == old(self).storage_types@,
            final(self).storage_details@ == old(self).storage_details@,
            final(self).hardware_types@ == old(self).hardware_types@,
            final(self).operations@ == old(self).operations@,
            final(self).operation_types@ == old(self).operation_types@,
            final(self).operation_details@ == old(self).operation_details@,
            final(self).next_entry_id == old(self).next_entry_id,
            final(self).next_region_id == old(self).next_region_id,
            final(self).next_storage_id == old(self).next_storage_id,
            final(self).next_detail_id == old(self).next_detail_id,
            final(self).next_hardware_id == old(self).next_hardware_id,
            final(self).next_device_id == old(self).next_device_id,
            final(self).next_operation_id == old(self).next_operation_id,
            final(self).next_type_id == old(self).next_type_id,
            final(self).next_operation_detail_id == old(self).next_operation_detail_id,
            r is Ok <==> (device_detail.device_database_id matches Some(d) && exists|i: int|
                0 <= i < old(self).hardware@.len() && (#[trigger] old(self).hardware@[i]).device_id
                    == d),
            device_detail.device_database_id is None ==> (r matches Err(e) && (e
                matches BynarError::DeviceNotInDatabase { device_name, detail_id } && device_name@
                == device_detail.name@ && detail_id == device_detail.storage_detail_id)),
            r is Err ==> final(self).hardware@ == old(self).hardware@,
            device_detail.device_database_id matches Some(d) ==> {
                &&& ((forall|i: int|
                    0 <= i < old(self).hardware@.len() ==> (
                    #[trigger] old(self).hardware@[i]).device_id != d) ==> (r matches Err(e) && e
                    matches BynarError::RowCountMismatch { rows: 0usize }))
                &&& final(self).hardware@.len() == old(self).hardware@.len()
                &&& forall|i: int|
                    0 <= i < old(self).hardware@.len() ==> {
                        let o = old(self).hardware@[i];
                        let n = #[trigger] final(self).hardware@[i];
                        if o.device_id == d {
                            n.device_id == o.device_id && n.detail_id == o.detail_id
                                && n.device_path == o.device_path && n.device_name == o.device_name
                                && n.state == o.state && n.hardware_type == o.hardware_type
                                && n.mount_path == o.mount_path && n.device_uuid == o.device_uuid
                                && n.serial_number == o.serial_number && n.smart_passed == Some(
                                smart_passed,
                            )
                        } else {
                            n == o
                        }
                    }
            },
    {
        match device_detail.device_database_id {
            None => Err(
                BynarError::DeviceNotInDatabase {
                    device_name: device_detail.name.clone(),
                    detail_id: device_detail.storage_detail_id,
                },
            ),
            Some(dev_id) => {
                match self.find_device(dev_id) {
                    None => Err(BynarError::RowCountMismatch { rows: 0 }),
                    Some(k) => {
                        self.hardware[k].smart_passed = Some(smart_passed);
                        proof {
                            assert forall|i: int|
                                0 <= i < old(self).hardware@.len() && i != k implies (
                            #[trigger] old(self).hardware@[i]).device_id != dev_id by {
                                if i < k {
                                    assert(old(self).hardware@[i].device_id != old(
                                        self,
                                    ).hardware@[k as int].device_id);
                                } else {
                                    assert(old(self).hardware@[k as int].device_id != old(
                                        self,
                                    ).hardware@[i].device_id);
                                }
                            }
                        }
                        Ok(())
                    },
                }
            },
        }
    }

    /// Reads a disk's stored lifecycle state. A device id the ledger does
    /// not know at all is an error; a known id whose row is gone, or whose
    /// stored text no longer parses, degrades to `Unscanned` rather than
    /// failing.
    pub fn get_state(&self, device_detail: &BlockDevice) -> (r: BynarResult<State>)
        requires
            self.wf(),
        ensures
            r is Err <==> device_detail.device_database_id is None,
            device_detail.device_database_id is None ==> (r matches Err(e) && (e
                matches BynarError::DeviceNotInDatabase { device_name, detail_id } && device_name@
                == device_detail.name@ && detail_id == device_detail.storage_detail_id)),
            device_detail.device_database_id matches Some(d) ==> {
                &&& ((forall|i: int|
                    0 <= i < self.hardware@.len() ==> (#[trigger] self.hardware@[i]).device_id
                        != d) ==> r == BynarResult::<State>::Ok(State::Unscanned))
                &&& forall|i: int|
                    0 <= i < self.hardware@.len() && (#[trigger] self.hardware@[i]).device_id == d
                        ==> r == BynarResult::<State>::Ok(spec_parse_state(
                        self.hardware@[i].state@,
                    ))
            },
    {
        match device_detail.device_database_id {
            None => Err(
                BynarError::DeviceNotInDatabase {
                    device_name: device_detail.name.clone(),
                    detail_id: device_detail.storage_detail_id,
                },
            ),
            Some(dev_id) => {
                match self.find_device(dev_id) {
                    None => Ok(State::Unscanned),
                    Some(k) => {
                        proof {
                            assert forall|i: int|
                                0 <= i < self.hardware@.len() && (
                            #[trigger] self.hardware@[i]).device_id == dev_id implies i == k by {
                                if i < k {
                                    assert(self.hardware@[i].device_id != self.hardware@[k as int].device_id);
                                } else if i > k {
                                    assert(self.hardware@[k as int].device_id != self.hardware@[i].device_id);
                                }
                            }
                        }
                        Ok(parse_state(&self.hardware[k].state))
                    },
                }
            },
        }
    }

    /// Reads a disk's last SMART result. A device id the ledger does not
    /// know at all is an error; a known id with no row or no recorded result
    /// degrades to `false`.
    pub fn get_smart_result(&self, device_detail: &BlockDevice) -> (r: BynarResult<bool>)
        requires
            self.wf(),
        ensures
            r is Err <==> device_detail.device_database_id is None,
            device_detail.device_database_id is None ==> (r matches Err(e) && (e
                matches BynarError::DeviceNotInDatabase { device_name, detail_id } && device_name@
                == device_detail.name@ && detail_id == device_detail.storage_detail_id)),
            device_detail.device_database_id matches Some(d) ==> {
                &&& ((forall|i: int|
                    0 <= i < self.hardware@.len() ==> (#[trigger] self.hardware@[i]).device_id
                        != d) ==> r == BynarResult::<bool>::Ok(false))
                &&& forall|i: int|
                    0 <= i < self.hardware@.len() && (#[trigger] self.hardware@[i]).device_id == d
                        ==> r == BynarResult::<bool>::Ok(
                        match self.hardware@[i].smart_passed {
                            Some(b) => b,
                            None => false,
                        },
                    )
            },
    {
        match device_detail.device_database_id {
            None => Err(
                BynarError::DeviceNotInDatabase {
                    device_name: device_detail.name.clone(),
                    detail_id: device_detail.storage_detail_id,
                },
            ),
            Some(dev_id) => {
                match self.find_device(dev_id) {
                    None => Ok(false),
                    Some(k) => {
                        proof {
                            assert forall|i: int|
                                0 <= i < self.hardware@.len() && (
                            #[trigger] self.hardware@[i]).device_id == dev_id implies i == k by {
                                if i < k {
                                    assert(self.hardware@[i].device_id != self.hardware@[k as int].device_id);
                                } else if i > k {
                                    assert(self.hardware@[k as int].device_id != self.hardware@[i].device_id);
                                }
                            }
                        }
                        match self.hardware[k].smart_passed {
                            Some(b) => Ok(b),
                            None => Ok(false),
                        }
                    },
                }
            },
        }
    }

    /// Lists the disks the ledger knows for one storage-detail record, as
    /// `(device_id, device_name, device_path)`, in table order. Only rows of
    /// the seeded `disk` hardware kind count; with no such kind seeded the
    /// list is empty.
    pub fn get_devices_from_db(&self, storage_detail_id: u32) -> (r: BynarResult<
        Vec<(u32, String, String)>,
    >)
        ensures
            r is Ok,
            ({
                let fw = first_where(self.hardware_types@, hardware_type_named("disk"@));
                &&& (fw is None ==> (r matches Ok(v) && v@.len() == 0))
                &&& (fw matches Some(t) ==> (r matches Ok(v) && {
                    let sel = rows_where(
                        self.hardware@,
                        disk_of_detail(storage_detail_id, self.hardware_types@[t].hardware_id),
                    );
                    &&& v@.len() == sel.len()
                    &&& forall|j: int|
                        0 <= j < sel.len() ==> (#[trigger] v@[j]).0 == sel[j].device_id
                            && v@[j].1@ == sel[j].device_name@ && v@[j].2@ == sel[j].device_path@
                }))
            }),
    {
        let mut devices: Vec<(u32, String, String)> = Vec::new();
        let disk_type = match self.find_hardware_type(&String::from_str("disk")) {
            None => {
                return Ok(devices);
            },
            Some(t) => self.hardware_types[t].hardware_id,
        };
        let ghost p = disk_of_detail(storage_detail_id, disk_type);
        let n = self.hardware.len();
        let mut i: usize = 0;
        assert(rows_where(self.hardware@.take(0), p) =~= Seq::<HardwareRow>::empty());
        while i < n
            invariant
                i <= n,
                n == self.hardware@.len(),
                p == disk_of_detail(storage_detail_id, disk_type),
                devices@.len() == rows_where(self.hardware@.take(i as int), p).len(),
                forall|j: int|
                    0 <= j < devices@.len() ==> {
                        let sel = rows_where(self.hardware@.take(i as int), p);
                        (#[trigger] devices@[j]).0 == sel[j].device_id && devices@[j].1@
                            == sel[j].device_name@ && devices@[j].2@ == sel[j].device_path@
                    },
            decreases n - i,
        {
            proof {
                assert(self.hardware@.take(i + 1).drop_last() =~= self.hardware@.take(i as int));
                assert(self.hardware@.take(i + 1).last() == self.hardware@[i as int]);
            }
            if self.hardware[i].detail_id == storage_detail_id && self.hardware[i].hardware_type
                == disk_type {
                devices.push(
                    (
                        self.hardware[i].device_id,
                        self.hardware[i].device_name.clone(),
                        self.hardware[i].device_path.clone(),
                    ),
                );
            }
            i += 1;
        }
        proof {
            assert(self.hardware@.take(n as int) =~= self.hardware@);
        }
        Ok(devices)
    }
}

} // verus!
