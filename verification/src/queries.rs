//! Read-mostly queries over the operation ledger joined with hardware and
//! state: outstanding repair tickets (per host and fleet-wide), repair
//! checks, ticket resolution, and the simple id lookups.

use vstd::prelude::*;

use crate::datastore::detail_key;
use crate::datastore::first_where;
use crate::datastore::lemma_first_where;
use crate::datastore::lemma_first_where_at;
use crate::datastore::op_type_named;
use crate::datastore::storage_type_named;
use crate::datastore::DataStore;
use crate::datastore::HardwareRow;
use crate::datastore::OperationDetailRow;
use crate::datastore::OperationRow;
use crate::error::BynarError;
use crate::error::BynarResult;
use crate::types::spec_op_type_token;
use crate::types::spec_state_token;
use crate::types::spec_status_token;
use crate::types::op_type_token;
use crate::types::state_token;
use crate::types::status_token;
use crate::types::DiskPendingTicket;
use crate::types::DiskRepairTicket;
use crate::types::OperationStatus;
use crate::types::OperationType;
use crate::types::State;

verus! {

/// One row of the ticket join, as plain values:
/// `(start time, tracking id, device name, device path, device id)`.
pub type TicketJoin = (i64, Seq<char>, Seq<char>, Seq<char>, u32);

/// The predicate an operation row must satisfy to own a detail.
pub open spec fn op_with_id(id: u32) -> spec_fn(OperationRow) -> bool {
    |o: OperationRow| o.operation_id == id
}

/// The predicate a hardware row must satisfy to be an operation's device.
pub open spec fn hw_with_id(id: u32) -> spec_fn(HardwareRow) -> bool {
    |h: HardwareRow| h.device_id == id
}

impl DataStore {
    /// The operation row with this id, if any (unique under `wf`).
    pub open spec fn op_by_id(self, id: u32) -> Option<OperationRow> {
        match first_where(self.operations@, op_with_id(id)) {
            Some(i) => Some(self.operations@[i]),
            None => None,
        }
    }

    /// The hardware row with this device id, if any (unique under `wf`).
    pub open spec fn hw_by_id(self, id: u32) -> Option<HardwareRow> {
        match first_where(self.hardware@, hw_with_id(id)) {
            Some(i) => Some(self.hardware@[i]),
            None => None,
        }
    }

    /// The type id under which `WaitingForReplacement` details are recorded,
    /// if the reference table names it.
    pub open spec fn waiting_type_id(self) -> Option<u32> {
        match first_where(
            self.operation_types@,
            op_type_named(spec_op_type_token(OperationType::WaitingForReplacement)),
        ) {
            Some(i) => Some(self.operation_types@[i].type_id),
            None => None,
        }
    }

    /// Whether an operation-detail row is an open repair ticket: pending or
    /// in progress, of the waiting-for-replacement kind, with a tracking id
    /// issued, against a device whose state is waiting-for-replacement or
    /// good — restricted to one host's detail id when `host` is given.
    pub open spec fn open_ticket(self, d: OperationDetailRow, host: Option<u32>) -> bool {
        &&& (d.status@ == spec_status_token(OperationStatus::Pending) || d.status@
            == spec_status_token(OperationStatus::InProgress))
        &&& self.waiting_type_id() == Some(d.type_id)
        &&& d.tracking_id is Some
        &&& match self.op_by_id(d.operation_id) {
            Some(o) => match self.hw_by_id(o.device_id) {
                Some(h) => {
                    &&& (h.state@ == spec_state_token(State::WaitingForReplacement) || h.state@
                        == spec_state_token(State::Good))
                    &&& match host {
                        Some(det) => h.detail_id == det,
                        None => true,
                    }
                },
                None => false,
            },
            None => false,
        }
    }

    /// The join row an open detail surfaces: its operation's start time, its
    /// tracking id, and its device's name, path and id.
    pub open spec fn ticket_row(self, d: OperationDetailRow) -> TicketJoin {
        match self.op_by_id(d.operation_id) {
            Some(o) => match self.hw_by_id(o.device_id) {
                Some(h) => (
                    o.start_time,
                    match d.tracking_id {
                        Some(t) => t@,
                        None => Seq::empty(),
                    },
                    h.device_name@,
                    h.device_path@,
                    h.device_id,
                ),
                None => (0, Seq::empty(), Seq::empty(), Seq::empty(), 0),
            },
            None => (0, Seq::empty(), Seq::empty(), Seq::empty(), 0),
        }
    }

    /// The open tickets of the details `rows`, ordered by operation start
    /// time, oldest first; details that tie on start time keep their table
    /// order.
    pub open spec fn sorted_open_tickets(
        self,
        rows: Seq<OperationDetailRow>,
        host: Option<u32>,
    ) -> Seq<TicketJoin>
        decreases rows.len(),
    {
        if rows.len() == 0 {
            Seq::empty()
        } else {
            let rest = self.sorted_open_tickets(rows.drop_last(), host);
            if self.open_ticket(rows.last(), host) {
                insert_by_time(rest, self.ticket_row(rows.last()))
            } else {
                rest
            }
        }
    }
}

/// Inserts a join row before the first row with a strictly later start time,
/// so that rows with the same start time stay in insertion order.
pub open spec fn insert_by_time(s: Seq<TicketJoin>, x: TicketJoin) -> Seq<TicketJoin>
    decreases s.len(),
{
    if s.len() == 0 {
        seq![x]
    } else if s[0].0 <= x.0 {
        seq![s[0]] + insert_by_time(s.drop_first(), x)
    } else {
        seq![x] + s
    }
}

/// Whether a join-row sequence is ordered by start time, oldest first.
pub open spec fn sorted_by_time(s: Seq<TicketJoin>) -> bool {
    forall|a: int, b: int| 0 <= a <= b < s.len() ==> (#[trigger] s[a]).0 <= (#[trigger] s[b]).0
}

/// Where `insert_by_time` puts the new row: at the first index whose start
/// time is strictly later.
pub proof fn lemma_insert_by_time_at(s: Seq<TicketJoin>, x: TicketJoin, pos: int)
    requires
        0 <= pos <= s.len(),
        forall|j: int| 0 <= j < pos ==> (#[trigger] s[j]).0 <= x.0,
        pos < s.len() ==> s[pos].0 > x.0,
    ensures
        insert_by_time(s, x) == s.subrange(0, pos) + seq![x] + s.subrange(pos, s.len() as int),
    decreases s.len(),
{
    if s.len() == 0 {
        assert(insert_by_time(s, x) =~= s.subrange(0, pos) + seq![x] + s.subrange(
            pos,
            s.len() as int,
        ));
    } else if pos == 0 {
        assert(s[0].0 > x.0);
        assert(insert_by_time(s, x) =~= s.subrange(0, pos) + seq![x] + s.subrange(
            pos,
            s.len() as int,
        ));
    } else {
        let rest = s.drop_first();
        assert forall|j: int| 0 <= j < pos - 1 implies (#[trigger] rest[j]).0 <= x.0 by {
            assert(rest[j] == s[j + 1]);
        }
        assert(pos - 1 < rest.len() ==> rest[pos - 1].0 > x.0);
        lemma_insert_by_time_at(rest, x, pos - 1);
        assert(insert_by_time(s, x) =~= s.subrange(0, pos) + seq![x] + s.subrange(
            pos,
            s.len() as int,
        ));
    }
}

/// Inserting into an ordered sequence keeps it ordered.
pub proof fn lemma_insert_by_time_sorted(s: Seq<TicketJoin>, x: TicketJoin)
    requires
        sorted_by_time(s),
    ensures
        sorted_by_time(insert_by_time(s, x)),
        insert_by_time(s, x).len() == s.len() + 1,
    decreases s.len(),
{
    if s.len() > 0 && s[0].0 <= x.0 {
        assert forall|a: int, b: int| 0 <= a <= b < s.drop_first().len() implies (
        #[trigger] s.drop_first()[a]).0 <= (#[trigger] s.drop_first()[b]).0 by {
            assert(s.drop_first()[a] == s[a + 1] && s.drop_first()[b] == s[b + 1]);
        }
        lemma_insert_by_time_sorted(s.drop_first(), x);
        let out = insert_by_time(s, x);
        let inner = insert_by_time(s.drop_first(), x);
        assert forall|a: int, b: int| 0 <= a <= b < out.len() implies (#[trigger] out[a]).0 <= (
        #[trigger] out[b]).0 by {
            if a == 0 && b > 0 {
                assert(out[b] == inner[b - 1]);
                lemma_insert_by_time_low(s.drop_first(), x, s[0].0);
            }
            if a > 0 && b > 0 {
                assert(out[a] == inner[a - 1] && out[b] == inner[b - 1]);
            }
        }
    }
}

/// Every element of an insertion result is bounded below by any bound on
/// both the sequence and the new row.
proof fn lemma_insert_by_time_low(s: Seq<TicketJoin>, x: TicketJoin, lo: i64)
    requires
        lo <= x.0,
        forall|j: int| 0 <= j < s.len() ==> lo <= (#[trigger] s[j]).0,
    ensures
        forall|j: int| 0 <= j < insert_by_time(s, x).len() ==> lo <= (
        #[trigger] insert_by_time(s, x)[j]).0,
    decreases s.len(),
{
    if s.len() > 0 && s[0].0 <= x.0 {
        assert forall|j: int| 0 <= j < s.drop_first().len() implies lo <= (
        #[trigger] s.drop_first()[j]).0 by {
            assert(s.drop_first()[j] == s[j + 1]);
        }
        lemma_insert_by_time_low(s.drop_first(), x, lo);
        let out = insert_by_time(s, x);
        let inner = insert_by_time(s.drop_first(), x);
        assert forall|j: int| 0 <= j < out.len() implies lo <= (#[trigger] out[j]).0 by {
            if j > 0 {
                assert(out[j] == inner[j - 1]);
            }
        }
    }
}

/// The ticket lists the query layer hands out are ordered by operation
/// start time, oldest first.
pub proof fn lemma_sorted_open_tickets_sorted(
    s: DataStore,
    rows: Seq<OperationDetailRow>,
    host: Option<u32>,
)
    ensures
        sorted_by_time(s.sorted_open_tickets(rows, host)),
    decreases rows.len(),
{
    if rows.len() > 0 {
        lemma_sorted_open_tickets_sorted(s, rows.drop_last(), host);
        if s.open_ticket(rows.last(), host) {
            lemma_insert_by_time_sorted(
                s.sorted_open_tickets(rows.drop_last(), host),
                s.ticket_row(rows.last()),
            );
        }
    }
}

/// Inserting a row adds exactly that row: the result is a permutation of
/// the input plus the new row.
pub proof fn lemma_insert_by_time_multiset(s: Seq<TicketJoin>, x: TicketJoin)
    ensures
        insert_by_time(s, x).to_multiset() == s.to_multiset().insert(x),
    decreases s.len(),
{
    broadcast use vstd::seq_lib::group_to_multiset_ensures;

    if s.len() == 0 {
        assert(insert_by_time(s, x) =~= Seq::empty().push(x));
        assert(Seq::<TicketJoin>::empty().push(x).to_multiset() =~= s.to_multiset().insert(x));
    } else if s[0].0 <= x.0 {
        lemma_insert_by_time_multiset(s.drop_first(), x);
        let inner = insert_by_time(s.drop_first(), x);
        assert(insert_by_time(s, x) =~= inner.insert(0, s[0]));
        lemma_multiset_of_insert(inner, s[0], 0);
        lemma_multiset_of_insert(s.drop_first(), s[0], 0);
        assert(s.drop_first().insert(0, s[0]) =~= s);
        assert(insert_by_time(s, x).to_multiset() =~= s.to_multiset().insert(x));
    } else {
        assert(insert_by_time(s, x) =~= s.insert(0, x));
        lemma_multiset_of_insert(s, x, 0);
    }
}

/// Inserting at any position adds one occurrence to the multiset.
proof fn lemma_multiset_of_insert(s: Seq<TicketJoin>, x: TicketJoin, pos: int)
    requires
        0 <= pos <= s.len(),
    ensures
        s.insert(pos, x).to_multiset() == s.to_multiset().insert(x),
    decreases s.len() - pos,
{
    broadcast use vstd::seq_lib::group_to_multiset_ensures;

    if pos == s.len() {
        assert(s.insert(pos, x) =~= s.push(x));
    } else {
        let last = s.last();
        lemma_multiset_of_insert(s.drop_last(), x, pos);
        assert(s.insert(pos, x) =~= s.drop_last().insert(pos, x).push(last));
        assert(s =~= s.drop_last().push(last));
        assert(s.insert(pos, x).to_multiset() =~= s.drop_last().insert(
            pos,
            x,
        ).to_multiset().insert(last));
        assert(s.to_multiset() =~= s.drop_last().to_multiset().insert(last));
        assert(s.insert(pos, x).to_multiset() =~= s.to_multiset().insert(x));
    }
}

/// What the sorted ticket list holds: exactly the join rows of the open
/// details, no more and no fewer — ordering aside, the query invents and
/// drops nothing.
pub proof fn lemma_sorted_open_tickets_multiset(
    s: DataStore,
    rows: Seq<OperationDetailRow>,
    host: Option<u32>,
)
    ensures
        s.sorted_open_tickets(rows, host).to_multiset() == crate::datastore::rows_where(
            rows,
            |d: OperationDetailRow| s.open_ticket(d, host),
        ).map_values(|d: OperationDetailRow| s.ticket_row(d)).to_multiset(),
    decreases rows.len(),
{
    broadcast use vstd::seq_lib::group_to_multiset_ensures;

    let p = |d: OperationDetailRow| s.open_ticket(d, host);
    let f = |d: OperationDetailRow| s.ticket_row(d);
    if rows.len() == 0 {
        assert(crate::datastore::rows_where(rows, p).map_values(f) =~= Seq::<TicketJoin>::empty());
        assert(s.sorted_open_tickets(rows, host).to_multiset() =~= crate::datastore::rows_where(
            rows,
            p,
        ).map_values(f).to_multiset());
    } else {
        lemma_sorted_open_tickets_multiset(s, rows.drop_last(), host);
        let rest_sel = crate::datastore::rows_where(rows.drop_last(), p);
        if p(rows.last()) {
            lemma_insert_by_time_multiset(
                s.sorted_open_tickets(rows.drop_last(), host),
                s.ticket_row(rows.last()),
            );
            assert(crate::datastore::rows_where(rows, p) =~= rest_sel.push(rows.last()));
            assert(crate::datastore::rows_where(rows, p).map_values(f) =~= rest_sel.map_values(
                f,
            ).push(f(rows.last())));
            assert(s.sorted_open_tickets(rows, host).to_multiset() =~= crate::datastore::rows_where(
                rows,
                p,
            ).map_values(f).to_multiset());
        } else {
            assert(crate::datastore::rows_where(rows, p) =~= rest_sel);
        }
    }
}

/// Under `wf`, the row at `k` is the one `op_by_id` resolves its id to.
proof fn lemma_op_by_id_at(s: DataStore, k: int)
    requires
        s.wf(),
        0 <= k < s.operations@.len(),
    ensures
        s.op_by_id(s.operations@[k].operation_id) == Some(s.operations@[k]),
{
    let id = s.operations@[k].operation_id;
    assert forall|j: int| 0 <= j < k implies !op_with_id(id)(#[trigger] s.operations@[j]) by {
        assert(s.operations@[j].operation_id != s.operations@[k].operation_id);
    }
    assert(op_with_id(id)(s.operations@[k]));
    lemma_first_where_at(s.operations@, op_with_id(id), k);
}

/// An id no operation row carries resolves to nothing.
proof fn lemma_op_by_id_none(s: DataStore, id: u32)
    requires
        forall|j: int|
            0 <= j < s.operations@.len() ==> (#[trigger] s.operations@[j]).operation_id != id,
    ensures
        s.op_by_id(id) is None,
{
    lemma_first_where(s.operations@, op_with_id(id));
}

/// Under `wf`, the row at `k` is the one `hw_by_id` resolves its id to.
proof fn lemma_hw_by_id_at(s: DataStore, k: int)
    requires
        s.wf(),
        0 <= k < s.hardware@.len(),
    ensures
        s.hw_by_id(s.hardware@[k].device_id) == Some(s.hardware@[k]),
{
    let id = s.hardware@[k].device_id;
    assert forall|j: int| 0 <= j < k implies !hw_with_id(id)(#[trigger] s.hardware@[j]) by {
        assert(s.hardware@[j].device_id != s.hardware@[k].device_id);
    }
    assert(hw_with_id(id)(s.hardware@[k]));
    lemma_first_where_at(s.hardware@, hw_with_id(id), k);
}

/// An id no hardware row carries resolves to nothing.
proof fn lemma_hw_by_id_none(s: DataStore, id: u32)
    requires
        forall|j: int| 0 <= j < s.hardware@.len() ==> (#[trigger] s.hardware@[j]).device_id != id,
    ensures
        s.hw_by_id(id) is None,
{
    lemma_first_where(s.hardware@, hw_with_id(id));
}

impl DataStore {
    /// Looks a region's id up by name, with no insert side effect.
    pub fn get_region_id(&self, region_name: &String) -> (r: BynarResult<Option<u32>>)
        requires
            self.wf(),
        ensures
            r is Ok,
            r matches Ok(o) ==> {
                &&& ((forall|i: int|
                    0 <= i < self.regions@.len() ==> (#[trigger] self.regions@[i]).region_name@
                        != region_name@) ==> o is None)
                &&& forall|i: int|
                    0 <= i < self.regions@.len() && (#[trigger] self.regions@[i]).region_name@
                        == region_name@ ==> o == Some(self.regions@[i].region_id)
            },
    {
        match self.find_region(region_name) {
            None => Ok(None),
            Some(k) => {
                proof {
                    assert forall|i: int|
                        0 <= i < self.regions@.len() && (#[trigger] self.regions@[i]).region_name@
                            == region_name@ implies i == k by {
                        if i < k {
                            assert(self.regions@[i].region_name@ != self.regions@[k as int].region_name@);
                        } else if i > k {
                            assert(self.regions@[k as int].region_name@ != self.regions@[i].region_name@);
                        }
                    }
                }
                Ok(Some(self.regions[k].region_id))
            },
        }
    }

    /// Looks a storage type's id up by name: the first seeded row of that
    /// name, with no insert side effect.
    pub fn get_storage_id(&self, storage_type: &String) -> (r: BynarResult<Option<u32>>)
        requires
            self.wf(),
        ensures
            r is Ok,
            r matches Ok(o) ==> o == (match first_where(
                self.storage_types@,
                storage_type_named(storage_type@),
            ) {
                Some(i) => Some(self.storage_types@[i].storage_id),
                None => None,
            }),
    {
        match self.find_storage_type(storage_type) {
            None => Ok(None),
            Some(k) => Ok(Some(self.storage_types[k].storage_id)),
        }
    }

    /// Looks a host's storage-detail id up by its natural key, with no
    /// insert side effect.
    pub fn get_storage_detail_id(&self, storage_id: u32, region_id: u32, host_name: &String) -> (r:
        BynarResult<Option<u32>>)
        requires
            self.wf(),
        ensures
            r is Ok,
            r matches Ok(o) ==> {
                &&& ((forall|i: int|
                    0 <= i < self.storage_details@.len() ==> !detail_key(
                        #[trigger] self.storage_details@[i],
                        storage_id,
                        region_id,
                        host_name@,
                    )) ==> o is None)
                &&& forall|i: int|
                    0 <= i < self.storage_details@.len() && detail_key(
                        #[trigger] self.storage_details@[i],
                        storage_id,
                        region_id,
                        host_name@,
                    ) ==> o == Some(self.storage_details@[i].detail_id)
            },
    {
        match self.find_storage_detail(storage_id, region_id, host_name) {
            None => Ok(None),
            Some(k) => Ok(Some(self.storage_details[k].detail_id)),
        }
    }

    /// The index of the storage-detail row with this id, if any.
    fn find_detail_by_id(&self, detail_id: u32) -> (r: Option<usize>)
        ensures
            match r {
                Some(k) => k < self.storage_details@.len()
                    && self.storage_details@[k as int].detail_id == detail_id,
                None => forall|j: int|
                    0 <= j < self.storage_details@.len() ==> (
                    #[trigger] self.storage_details@[j]).detail_id != detail_id,
            },
    {
        let n = self.storage_details.len();
        let mut i: usize = 0;
        while i < n
            invariant
                i <= n,
                n == self.storage_details@.len(),
                forall|j: int|
                    0 <= j < i ==> (#[trigger] self.storage_details@[j]).detail_id != detail_id,
            decreases n - i,
        {
            if self.storage_details[i].detail_id == detail_id {
                return Some(i);
            }
            i += 1;
        }
        None
    }

    /// The hostname a device id belongs to, through its storage-detail row,
    /// with no insert side effect.
    pub fn get_host_name(&self, device_id: u32) -> (r: BynarResult<Option<String>>)
        requires
            self.wf(),
        ensures
            r is Ok,
            r matches Ok(o) ==> {
                &&& ((forall|i: int|
                    0 <= i < self.hardware@.len() ==> (#[trigger] self.hardware@[i]).device_id
                        != device_id) ==> o is None)
                &&& forall|i: int|
                    0 <= i < self.hardware@.len() && (#[trigger] self.hardware@[i]).device_id
                        == device_id ==> {
                        &&& ((forall|j: int|
                            0 <= j < self.storage_details@.len() ==> (
                            #[trigger] self.storage_details@[j]).detail_id
                                != self.hardware@[i].detail_id) ==> o is None)
                        &&& forall|j: int|
                            0 <= j < self.storage_details@.len() && (
                            #[trigger] self.storage_details@[j]).detail_id
                                == self.hardware@[i].detail_id ==> (o matches Some(h) && h@
                                == self.storage_details@[j].hostname@)
                    }
            },
    {
        match self.find_device(device_id) {
            None => Ok(None),
            Some(k) => {
                proof {
                    assert forall|i: int|
                        0 <= i < self.hardware@.len() && (#[trigger] self.hardware@[i]).device_id
                            == device_id implies i == k by {
                        if i < k {
                            assert(self.hardware@[i].device_id != self.hardware@[k as int].device_id);
                        } else if i > k {
                            assert(self.hardware@[k as int].device_id != self.hardware@[i].device_id);
                        }
                    }
                }
                match self.find_detail_by_id(self.hardware[k].detail_id) {
                    None => Ok(None),
                    Some(m) => {
                        proof {
                            assert forall|j: int|
                                0 <= j < self.storage_details@.len() && (
                            #[trigger] self.storage_details@[j]).detail_id
                                == self.hardware@[k as int].detail_id implies j == m by {
                                if j < m {
                                    assert(self.storage_details@[j].detail_id != self.storage_details@[m as int].detail_id);
                                } else if j > m {
                                    assert(self.storage_details@[m as int].detail_id != self.storage_details@[j].detail_id);
                                }
                            }
                        }
                        Ok(Some(self.storage_details[m].hostname.clone()))
                    },
                }
            },
        }
    }

    /// Whether an operation-detail row shows this named device of this host
    /// waiting for replacement: the detail is of the waiting-for-replacement
    /// kind and the device's state is waiting-for-replacement, optionally
    /// narrowed by the device's recorded uuid.
    pub open spec fn waiting_repair_match(
        self,
        d: OperationDetailRow,
        detail_id: u32,
        name: Seq<char>,
        serial: Option<Seq<char>>,
    ) -> bool {
        &&& self.waiting_type_id() == Some(d.type_id)
        &&& match self.op_by_id(d.operation_id) {
            Some(o) => match self.hw_by_id(o.device_id) {
                Some(h) => {
                    &&& h.device_name@ == name
                    &&& h.detail_id == detail_id
                    &&& h.state@ == spec_state_token(State::WaitingForReplacement)
                    &&& match serial {
                        Some(sn) => h.device_uuid matches Some(u) && u@ == sn,
                        None => true,
                    }
                },
                None => false,
            },
            None => false,
        }
    }

    /// The open-ticket join row for one detail, if the detail is an open
    /// ticket: its operation's start time and a fleet ticket for its device.
    fn open_ticket_of(&self, i: usize, host: Option<u32>) -> (r: Option<(i64, DiskPendingTicket)>)
        requires
            self.wf(),
            i < self.operation_details@.len(),
        ensures
            ({
                let d = self.operation_details@[i as int];
                match r {
                    Some(p) => self.open_ticket(d, host) && ({
                        let row = self.ticket_row(d);
                        p.0 == row.0 && p.1.ticket_id@ == row.1 && p.1.device_name@ == row.2
                            && p.1.device_path@ == row.3 && p.1.device_id == row.4
                    }),
                    None => !self.open_ticket(d, host),
                }
            }),
    {
        let pending_tok = status_token(OperationStatus::Pending);
        let inprog_tok = status_token(OperationStatus::InProgress);
        let waiting_state_tok = state_token(State::WaitingForReplacement);
        let good_state_tok = state_token(State::Good);
        let waiting_name = op_type_token(OperationType::WaitingForReplacement);
        let wt: Option<u32> = match self.find_operation_type(&waiting_name) {
            Some(t) => Some(self.operation_types[t].type_id),
            None => None,
        };
        assert(wt == self.waiting_type_id());
        let status_ok = self.operation_details[i].status == pending_tok
            || self.operation_details[i].status == inprog_tok;
        let type_ok = match wt {
            Some(w) => self.operation_details[i].type_id == w,
            None => false,
        };
        if !(status_ok && type_ok) {
            return None;
        }
        match &self.operation_details[i].tracking_id {
            None => None,
            Some(tid) => {
                let opid = self.operation_details[i].operation_id;
                match self.find_operation(opid) {
                    None => {
                        proof {
                            lemma_op_by_id_none(*self, opid);
                        }
                        None
                    },
                    Some(ko) => {
                        proof {
                            lemma_op_by_id_at(*self, ko as int);
                        }
                        let devid = self.operations[ko].device_id;
                        match self.find_device(devid) {
                            None => {
                                proof {
                                    lemma_hw_by_id_none(*self, devid);
                                }
                                None
                            },
                            Some(kh) => {
                                proof {
                                    lemma_hw_by_id_at(*self, kh as int);
                                }
                                let state_ok = self.hardware[kh].state == waiting_state_tok
                                    || self.hardware[kh].state == good_state_tok;
                                let host_ok = match host {
                                    Some(det) => self.hardware[kh].detail_id == det,
                                    None => true,
                                };
                                if state_ok && host_ok {
                                    Some(
                                        (
                                            self.operations[ko].start_time,
                                            DiskPendingTicket {
                                                ticket_id: tid.clone(),
                                                device_name: self.hardware[kh].device_name.clone(),
                                                device_path: self.hardware[kh].device_path.clone(),
                                                device_id: self.hardware[kh].device_id,
                                            },
                                        ),
                                    )
                                } else {
                                    None
                                }
                            },
                        }
                    },
                }
            },
        }
    }

    /// Collects the open tickets, as parallel vectors of start times and
    /// fleet tickets, ordered oldest first.
    fn collect_open_tickets(&self, host: Option<u32>) -> (r: (Vec<i64>, Vec<DiskPendingTicket>))
        requires
            self.wf(),
        ensures
            ({
                let sj = self.sorted_open_tickets(self.operation_details@, host);
                &&& r.0@.len() == sj.len()
                &&& r.1@.len() == sj.len()
                &&& forall|j: int|
                    #![trigger r.0@[j]]
                    #![trigger r.1@[j]]
                    0 <= j < sj.len() ==> r.0@[j] == sj[j].0 && r.1@[j].ticket_id@ == sj[j].1
                        && r.1@[j].device_name@ == sj[j].2 && r.1@[j].device_path@ == sj[j].3
                        && r.1@[j].device_id == sj[j].4
            }),
    {
        let mut times: Vec<i64> = Vec::new();
        let mut tickets: Vec<DiskPendingTicket> = Vec::new();
        let n = self.operation_details.len();
        let mut i: usize = 0;
        assert(self.operation_details@.take(0) =~= Seq::<OperationDetailRow>::empty());
        while i < n
            invariant
                i <= n,
                n == self.operation_details@.len(),
                self.wf(),
                ({
                    let sj = self.sorted_open_tickets(
                        self.operation_details@.take(i as int),
                        host,
                    );
                    &&& times@.len() == sj.len()
                    &&& tickets@.len() == sj.len()
                    &&& forall|j: int|
                        #![trigger times@[j]]
                        #![trigger tickets@[j]]
                        0 <= j < sj.len() ==> times@[j] == sj[j].0 && tickets@[j].ticket_id@
                            == sj[j].1 && tickets@[j].device_name@ == sj[j].2
                            && tickets@[j].device_path@ == sj[j].3 && tickets@[j].device_id
                            == sj[j].4
                }),
            decreases n - i,
        {
            proof {
                assert(self.operation_details@.take(i + 1).drop_last()
                    =~= self.operation_details@.take(i as int));
                assert(self.operation_details@.take(i + 1).last()
                    == self.operation_details@[i as int]);
            }
            match self.open_ticket_of(i, host) {
                None => {
                    proof {
                        assert(!self.open_ticket(self.operation_details@[i as int], host));
                        assert(self.sorted_open_tickets(self.operation_details@.take(i + 1), host)
                            == self.sorted_open_tickets(
                            self.operation_details@.take(i as int),
                            host,
                        ));
                    }
                },
                Some(p) => {
                    let (t, tk) = p;
                    let len = times.len();
                    let mut pos: usize = 0;
                    while pos < len && times[pos] <= t
                        invariant
                            pos <= len,
                            len == times@.len(),
                            forall|j: int| 0 <= j < pos ==> (#[trigger] times@[j]) <= t,
                        decreases len - pos,
                    {
                        pos += 1;
                    }
                    proof {
                        let sj = self.sorted_open_tickets(
                            self.operation_details@.take(i as int),
                            host,
                        );
                        let x = self.ticket_row(self.operation_details@[i as int]);
                        assert forall|j: int| 0 <= j < pos implies (#[trigger] sj[j]).0 <= x.0 by {
                            assert(times@[j] <= t);
                            assert(times@[j] == sj[j].0);
                        }
                        lemma_insert_by_time_at(sj, x, pos as int);
                    }
                    let ghost times_pre = times@;
                    let ghost tickets_pre = tickets@;
                    times.insert(pos, t);
                    tickets.insert(pos, tk);
                    proof {
                        let sj = self.sorted_open_tickets(
                            self.operation_details@.take(i as int),
                            host,
                        );
                        let x = self.ticket_row(self.operation_details@[i as int]);
                        let sj2 = self.sorted_open_tickets(
                            self.operation_details@.take(i + 1),
                            host,
                        );
                        assert(sj2 == sj.subrange(0, pos as int) + seq![x] + sj.subrange(
                            pos as int,
                            sj.len() as int,
                        ));
                        times_pre.insert_ensures(pos as int, t);
                        tickets_pre.insert_ensures(pos as int, tk);
                        assert forall|j: int|
                            0 <= j < sj2.len() implies (#[trigger] times@[j]) == sj2[j].0
                            && tickets@[j].ticket_id@ == sj2[j].1 && tickets@[j].device_name@
                            == sj2[j].2 && tickets@[j].device_path@ == sj2[j].3
                            && tickets@[j].device_id == sj2[j].4 by {
                            if j < pos {
                                assert(times@[j] == times_pre[j]);
                                assert(tickets@[j] == tickets_pre[j]);
                                assert(sj2[j] == sj[j]);
                            } else if j == pos {
                                assert(times@[j] == t);
                                assert(tickets@[j] == tk);
                                assert(sj2[j] == x);
                            } else {
                                assert(times@[j] == times_pre[j - 1]);
                                assert(tickets@[j] == tickets_pre[j - 1]);
                                assert(sj2[j] == sj[j - 1]);
                            }
                        }
                    }
                },
            }
            i += 1;
        }
        proof {
            assert(self.operation_details@.take(n as int) =~= self.operation_details@);
        }
        (times, tickets)
    }

    /// The open repair tickets of one host, oldest first: each open
    /// operation detail of that host surfaces its tracking id and its
    /// device's name and path, ordered by the owning operation's start time.
    pub fn get_outstanding_repair_tickets(&self, storage_detail_id: u32) -> (r: BynarResult<
        Vec<DiskRepairTicket>,
    >)
        requires
            self.wf(),
        ensures
            r is Ok,
            r matches Ok(v) ==> ({
                let sj = self.sorted_open_tickets(
                    self.operation_details@,
                    Some(storage_detail_id),
                );
                &&& v@.len() == sj.len()
                &&& forall|j: int|
                    0 <= j < sj.len() ==> (#[trigger] v@[j]).ticket_id@ == sj[j].1
                        && v@[j].device_name@ == sj[j].2 && v@[j].device_path@ == sj[j].3
            }),
    {
        let collected = self.collect_open_tickets(Some(storage_detail_id));
        let pending = collected.1;
        let n = pending.len();
        let mut out: Vec<DiskRepairTicket> = Vec::new();
        let mut j: usize = 0;
        while j < n
            invariant
                j <= n,
                n == pending@.len(),
                out@.len() == j,
                forall|m: int|
                    0 <= m < j ==> (#[trigger] out@[m]).ticket_id@ == pending@[m].ticket_id@
                        && out@[m].device_name@ == pending@[m].device_name@
                        && out@[m].device_path@ == pending@[m].device_path@,
            decreases n - j,
        {
            out.push(
                DiskRepairTicket {
                    ticket_id: pending[j].ticket_id.clone(),
                    device_name: pending[j].device_name.clone(),
                    device_path: pending[j].device_path.clone(),
                },
            );
            j += 1;
        }
        Ok(out)
    }

    /// The open repair tickets of the whole fleet, oldest first, each
    /// carrying its device's id as well.
    pub fn get_all_pending_tickets(&self) -> (r: BynarResult<Vec<DiskPendingTicket>>)
        requires
            self.wf(),
        ensures
            r is Ok,
            r matches Ok(v) ==> ({
                let sj = self.sorted_open_tickets(self.operation_details@, None);
                &&& v@.len() == sj.len()
                &&& forall|j: int|
                    0 <= j < sj.len() ==> (#[trigger] v@[j]).ticket_id@ == sj[j].1
                        && v@[j].device_name@ == sj[j].2 && v@[j].device_path@ == sj[j].3
                        && v@[j].device_id == sj[j].4
            }),
    {
        let collected = self.collect_open_tickets(None);
        Ok(collected.1)
    }

    /// Whether one detail row shows the device waiting for repair; the
    /// executable twin of `waiting_repair_match`.
    fn waiting_repair_at(
        &self,
        i: usize,
        storage_detail_id: u32,
        device_name: &String,
        serial_number: Option<&String>,
    ) -> (b: bool)
        requires
            self.wf(),
            i < self.operation_details@.len(),
        ensures
            b == self.waiting_repair_match(
                self.operation_details@[i as int],
                storage_detail_id,
                device_name@,
                match serial_number {
                    Some(sn) => Some(sn@),
                    None => None,
                },
            ),
    {
        let waiting_state_tok = state_token(State::WaitingForReplacement);
        let waiting_name = op_type_token(OperationType::WaitingForReplacement);
        let wt: Option<u32> = match self.find_operation_type(&waiting_name) {
            Some(t) => Some(self.operation_types[t].type_id),
            None => None,
        };
        assert(wt == self.waiting_type_id());
        let type_ok = match wt {
            Some(w) => self.operation_details[i].type_id == w,
            None => false,
        };
        if !type_ok {
            return false;
        }
        let opid = self.operation_details[i].operation_id;
        match self.find_operation(opid) {
            None => {
                proof {
                    lemma_op_by_id_none(*self, opid);
                }
                false
            },
            Some(ko) => {
                proof {
                    lemma_op_by_id_at(*self, ko as int);
                }
                let devid = self.operations[ko].device_id;
                match self.find_device(devid) {
                    None => {
                        proof {
                            lemma_hw_by_id_none(*self, devid);
                        }
                        false
                    },
                    Some(kh) => {
                        proof {
                            lemma_hw_by_id_at(*self, kh as int);
                        }
                        let hw_ok = self.hardware[kh].device_name == *device_name
                            && self.hardware[kh].detail_id == storage_detail_id
                            && self.hardware[kh].state == waiting_state_tok;
                        let serial_ok = match serial_number {
                            Some(sn) => match &self.hardware[kh].device_uuid {
                                Some(u) => *u == *sn,
                                None => false,
                            },
                            None => true,
                        };
                        hw_ok && serial_ok
                    },
                }
            },
        }
    }

    /// Whether any operation shows this named device of this host waiting
    /// for replacement, optionally narrowed by the device's recorded uuid.
    pub fn is_hardware_waiting_repair(
        &self,
        storage_detail_id: u32,
        device_name: &String,
        serial_number: Option<&String>,
    ) -> (r: BynarResult<bool>)
        requires
            self.wf(),
        ensures
            r is Ok,
            r matches Ok(b) ==> (b <==> exists|i: int|
                0 <= i < self.operation_details@.len() && self.waiting_repair_match(
                    #[trigger] self.operation_details@[i],
                    storage_detail_id,
                    device_name@,
                    match serial_number {
                        Some(sn) => Some(sn@),
                        None => None,
                    },
                )),
    {
        let n = self.operation_details.len();
        let mut i: usize = 0;
        while i < n
            invariant
                i <= n,
                n == self.operation_details@.len(),
                self.wf(),
                forall|j: int|
                    0 <= j < i ==> !self.waiting_repair_match(
                        #[trigger] self.operation_details@[j],
                        storage_detail_id,
                        device_name@,
                        match serial_number {
                            Some(sn) => Some(sn@),
                            None => None,
                        },
                    ),
            decreases n - i,
        {
            if self.waiting_repair_at(i, storage_detail_id, device_name, serial_number) {
                return Ok(true);
            }
            i += 1;
        }
        Ok(false)
    }

    /// Marks every operation detail carrying this tracking id as complete:
    /// at-least-one semantics, so an unknown tracking id is not an error and
    /// nothing else about any row changes.
    pub fn resolve_ticket_in_db(&mut self, ticket_id: &String) -> (r: BynarResult<()>)
        requires
            old(self).wf(),
        ensures
            final(self).wf(),
            r is Ok,
            final(self).process_manager@ == old(self).process_manager@,
            final(self).regions@ == old(self).regions@,
            final(self).storage_types@ == old(self).storage_types@,
            final(self).storage_details@ == old(self).storage_details@,
            final(self).hardware_types@ == old(self).hardware_types@,
            final(self).hardware@ == old(self).hardware@,
            final(self).operations@ == old(self).operations@,
            final(self).operation_types@ == old(self).operation_types@,
            final(self).next_entry_id == old(self).next_entry_id,
            final(self).next_region_id == old(self).next_region_id,
            final(self).next_storage_id == old(self).next_storage_id,
            final(self).next_detail_id == old(self).next_detail_id,
            final(self).next_hardware_id == old(self).next_hardware_id,
            final(self).next_device_id == old(self).next_device_id,
            final(self).next_operation_id == old(self).next_operation_id,
            final(self).next_type_id == old(self).next_type_id,
            final(self).next_operation_detail_id == old(self).next_operation_detail_id,
            final(self).operation_details@.len() == old(self).operation_details@.len(),
            forall|i: int|
                0 <= i < old(self).operation_details@.len() ==> {
                    let o = old(self).operation_details@[i];
                    let n = #[trigger] final(self).operation_details@[i];
                    if o.tracking_id matches Some(t) && t@ == ticket_id@ {
                        n.operation_detail_id == o.operation_detail_id && n.operation_id
                            == o.operation_id && n.type_id == o.type_id && n.status@
                            == spec_status_token(OperationStatus::Complete) && n.tracking_id
                            == o.tracking_id && n.start_time == o.start_time && n.snapshot_time
                            == o.snapshot_time && n.done_time == o.done_time
                    } else {
                        n == o
                    }
                },
    {
        let n = self.operation_details.len();
        let mut i: usize = 0;
        while i < n
            invariant
                i <= n,
                n == old(self).operation_details@.len(),
                self.process_manager@ == old(self).process_manager@,
                self.regions@ == old(self).regions@,
                self.storage_types@ == old(self).storage_types@,
                self.storage_details@ == old(self).storage_details@,
                self.hardware_types@ == old(self).hardware_types@,
                self.hardware@ == old(self).hardware@,
                self.operations@ == old(self).operations@,
                self.operation_types@ == old(self).operation_types@,
                self.next_entry_id == old(self).next_entry_id,
                self.next_region_id == old(self).next_region_id,
                self.next_storage_id == old(self).next_storage_id,
                self.next_detail_id == old(self).next_detail_id,
                self.next_hardware_id == old(self).next_hardware_id,
                self.next_device_id == old(self).next_device_id,
                self.next_operation_id == old(self).next_operation_id,
                self.next_type_id == old(self).next_type_id,
                self.next_operation_detail_id == old(self).next_operation_detail_id,
                self.operation_details@.len() == old(self).operation_details@.len(),
                forall|j: int|
                    i <= j < old(self).operation_details@.len() ==> (
                    #[trigger] self.operation_details@[j]) == old(self).operation_details@[j],
                forall|j: int|
                    0 <= j < i ==> {
                        let o = old(self).operation_details@[j];
                        let nw = #[trigger] self.operation_details@[j];
                        if o.tracking_id matches Some(t) && t@ == ticket_id@ {
                            nw.operation_detail_id == o.operation_detail_id && nw.operation_id
                                == o.operation_id && nw.type_id == o.type_id && nw.status@
                                == spec_status_token(OperationStatus::Complete) && nw.tracking_id
                                == o.tracking_id && nw.start_time == o.start_time
                                && nw.snapshot_time == o.snapshot_time && nw.done_time
                                == o.done_time
                        } else {
                            nw == o
                        }
                    },
            decreases n - i,
        {
            let hit = match &self.operation_details[i].tracking_id {
                Some(t) => *t == *ticket_id,
                None => false,
            };
            if hit {
                self.operation_details[i].status = status_token(OperationStatus::Complete);
            }
            i += 1;
        }
        proof {
            assert forall|a: int, b: int|
                0 <= a < b < final(self).operation_details@.len() implies (
            #[trigger] final(self).operation_details@[a]).operation_detail_id != (
            #[trigger] final(self).operation_details@[b]).operation_detail_id by {
                assert(final(self).operation_details@[a].operation_detail_id == old(
                    self,
                ).operation_details@[a].operation_detail_id);
                assert(final(self).operation_details@[b].operation_detail_id == old(
                    self,
                ).operation_details@[b].operation_detail_id);
            }
            assert forall|a: int|
                0 <= a < final(self).operation_details@.len() implies 1 <= (
            #[trigger] final(self).operation_details@[a]).operation_detail_id < final(self).next_operation_detail_id by {
                assert(final(self).operation_details@[a].operation_detail_id == old(
                    self,
                ).operation_details@[a].operation_detail_id);
            }
        }
        Ok(())
    }
}

} // verus!
