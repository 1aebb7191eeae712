//! The request/reply protocol spoken with the per-host disk daemon.
//!
//! A request is one operation envelope: the operation kind, then the
//! optional disk path, numeric id and simulate flag. A reply is a
//! discriminated result: `OK` with its payload, or `ERR` with an optional
//! error message — and an `ERR` that carries no message is its own, distinct
//! failure. Encoders and decoders are exact inverses; the transport that
//! carries the bytes is not this module's concern.

use vstd::prelude::*;

use crate::error::BynarError;
use crate::error::BynarResult;
use crate::wire::encode_opt_bool;
use crate::wire::encode_opt_str;
use crate::wire::encode_opt_u64;
use crate::wire::decode_opt_bool_field;
use crate::wire::decode_opt_str_field;
use crate::wire::decode_opt_u64_field;
use crate::wire::encode_opt_bool_field;
use crate::wire::encode_opt_str_field;
use crate::wire::encode_opt_u64_field;
use crate::wire::lemma_concat_subranges;
use crate::wire::lemma_parse_opt_bool_at;
use crate::wire::lemma_parse_opt_str_at;
use crate::wire::lemma_parse_opt_u64_at;
use crate::wire::parse_opt_bool;
use crate::wire::parse_opt_str;
use crate::wire::parse_opt_u64;

verus! {

/// The operations the daemon can be asked to perform.
#[derive(Clone, Copy, Debug, PartialEq, Eq, Structural)]
pub enum Op {
    Add,
    Remove,
    List,
    SafeToRemove,
    GetCreatedTickets,
}

/// Whether the daemon's reply reports success or failure.
#[derive(Clone, Copy, Debug, PartialEq, Eq, Structural)]
pub enum ResultType {
    OK,
    ERR,
}

/// The wire byte of each operation kind.
pub open spec fn op_code(op: Op) -> u8 {
    match op {
        Op::Add => 1,
        Op::Remove => 2,
        Op::List => 3,
        Op::SafeToRemove => 4,
        Op::GetCreatedTickets => 5,
    }
}

/// Reads an operation kind back from its byte.
pub open spec fn parse_op_code(b: u8) -> Option<Op> {
    if b == 1 {
        Some(Op::Add)
    } else if b == 2 {
        Some(Op::Remove)
    } else if b == 3 {
        Some(Op::List)
    } else if b == 4 {
        Some(Op::SafeToRemove)
    } else if b == 5 {
        Some(Op::GetCreatedTickets)
    } else {
        None
    }
}

/// The wire byte of a result discriminator.
pub open spec fn result_code(r: ResultType) -> u8 {
    match r {
        ResultType::OK => 1,
        ResultType::ERR => 2,
    }
}

/// Reads a result discriminator back from its byte.
pub open spec fn parse_result_code(b: u8) -> Option<ResultType> {
    if b == 1 {
        Some(ResultType::OK)
    } else if b == 2 {
        Some(ResultType::ERR)
    } else {
        None
    }
}

/// One request to the daemon: the operation kind plus whichever of the disk
/// path, numeric id and simulate flag the operation carries.
#[derive(Clone, Debug)]
pub struct OperationRequest {
    pub op_type: Op,
    pub disk: Option<String>,
    pub osd_id: Option<u64>,
    pub simulate: Option<bool>,
}

/// The mathematical value of a request.
pub struct OperationRequestV {
    pub op_type: Op,
    pub disk: Option<Seq<char>>,
    pub osd_id: Option<u64>,
    pub simulate: Option<bool>,
}

impl View for OperationRequest {
    type V = OperationRequestV;

    open spec fn view(&self) -> OperationRequestV {
        OperationRequestV {
            op_type: self.op_type,
            disk: match self.disk {
                Some(ref s) => Some(s@),
                None => None,
            },
            osd_id: self.osd_id,
            simulate: self.simulate,
        }
    }
}

/// The wire form of a request.
pub open spec fn spec_encode_operation(m: OperationRequestV) -> Seq<u8> {
    seq![op_code(m.op_type)] + encode_opt_str(m.disk) + encode_opt_u64(m.osd_id) + encode_opt_bool(
        m.simulate,
    )
}

/// Reads a whole request: every field in order, nothing left over.
pub open spec fn spec_parse_operation(bytes: Seq<u8>) -> Option<OperationRequestV> {
    if bytes.len() == 0 {
        None
    } else {
        match parse_op_code(bytes[0]) {
            None => None,
            Some(op) => match parse_opt_str(bytes, 1) {
                None => None,
                Some((disk, p1)) => match parse_opt_u64(bytes, p1) {
                    None => None,
                    Some((osd_id, p2)) => match parse_opt_bool(bytes, p2) {
                        None => None,
                        Some((simulate, p3)) => if p3 == bytes.len() {
                            Some(OperationRequestV { op_type: op, disk, osd_id, simulate })
                        } else {
                            None
                        },
                    },
                },
            },
        }
    }
}

/// Encoding a request and reading it back restores it exactly.
pub proof fn lemma_operation_round_trip(m: OperationRequestV)
    requires
        m.disk matches Some(s) ==> s.len() < 0x1_0000_0000_0000_0000,
    ensures
        spec_parse_operation(spec_encode_operation(m)) == Some(m),
{
    let bytes = spec_encode_operation(m);
    let a = seq![op_code(m.op_type)];
    let b = encode_opt_str(m.disk);
    let c = encode_opt_u64(m.osd_id);
    let d = encode_opt_bool(m.simulate);
    assert(bytes =~= a + (b + (c + d)));
    assert(bytes.subrange(0, bytes.len() as int) =~= bytes);
    lemma_concat_subranges(bytes, 0, a, b + (c + d));
    assert(bytes[0] == a[0]);
    lemma_concat_subranges(bytes, 1, b, c + d);
    lemma_parse_opt_str_at(bytes, 1, m.disk);
    lemma_concat_subranges(bytes, 1 + b.len() as int, c, d);
    lemma_parse_opt_u64_at(bytes, 1 + b.len() as int, m.osd_id);
    lemma_parse_opt_bool_at(bytes, 1 + b.len() as int + c.len() as int, m.simulate);
}

/// Serializes a request.
pub fn encode_operation(m: &OperationRequest) -> (r: Vec<u8>)
    ensures
        r@ == spec_encode_operation(m@),
{
    let mut out: Vec<u8> = Vec::new();
    let code: u8 = match m.op_type {
        Op::Add => 1,
        Op::Remove => 2,
        Op::List => 3,
        Op::SafeToRemove => 4,
        Op::GetCreatedTickets => 5,
    };
    out.push(code);
    assert(out@ =~= seq![op_code(m@.op_type)]);
    encode_opt_str_field(&mut out, &m.disk);
    encode_opt_u64_field(&mut out, m.osd_id);
    encode_opt_bool_field(&mut out, m.simulate);
    assert(out@ =~= spec_encode_operation(m@));
    out
}

/// Reads a request back; `None` on anything that is not a whole, exact
/// encoding.
pub fn decode_operation(bytes: &Vec<u8>) -> (r: Option<OperationRequest>)
    ensures
        match r {
            Some(m) => spec_parse_operation(bytes@) == Some(m@),
            None => spec_parse_operation(bytes@) is None,
        },
{
    if bytes.len() == 0 {
        return None;
    }
    let b0 = bytes[0];
    let op = if b0 == 1 {
        Op::Add
    } else if b0 == 2 {
        Op::Remove
    } else if b0 == 3 {
        Op::List
    } else if b0 == 4 {
        Op::SafeToRemove
    } else if b0 == 5 {
        Op::GetCreatedTickets
    } else {
        return None;
    };
    let (disk, p1) = match decode_opt_str_field(bytes, 1) {
        None => {
            return None;
        },
        Some(v) => v,
    };
    let (osd_id, p2) = match decode_opt_u64_field(bytes, p1) {
        None => {
            return None;
        },
        Some(v) => v,
    };
    let (simulate, p3) = match decode_opt_bool_field(bytes, p2) {
        None => {
            return None;
        },
        Some(v) => v,
    };
    if p3 != bytes.len() {
        return None;
    }
    Some(OperationRequest { op_type: op, disk, osd_id, simulate })
}

/// The daemon's reply to an add or remove request: success, or an error
/// with an optional message.
#[derive(Clone, Debug)]
pub struct OpResult {
    pub result: ResultType,
    pub error_msg: Option<String>,
}

/// The mathematical value of a plain result.
pub struct OpResultV {
    pub result: ResultType,
    pub error_msg: Option<Seq<char>>,
}

impl View for OpResult {
    type V = OpResultV;

    open spec fn view(&self) -> OpResultV {
        OpResultV {
            result: self.result,
            error_msg: match self.error_msg {
                Some(ref s) => Some(s@),
                None => None,
            },
        }
    }
}

/// The wire form of a plain result.
pub open spec fn spec_encode_op_result(m: OpResultV) -> Seq<u8> {
    seq![result_code(m.result)] + encode_opt_str(m.error_msg)
}

/// Reads a whole plain result.
pub open spec fn spec_parse_op_result(bytes: Seq<u8>) -> Option<OpResultV> {
    if bytes.len() == 0 {
        None
    } else {
        match parse_result_code(bytes[0]) {
            None => None,
            Some(result) => match parse_opt_str(bytes, 1) {
                None => None,
                Some((error_msg, p)) => if p == bytes.len() {
                    Some(OpResultV { result, error_msg })
                } else {
                    None
                },
            },
        }
    }
}

/// Encoding a plain result and reading it back restores it exactly.
pub proof fn lemma_op_result_round_trip(m: OpResultV)
    requires
        m.error_msg matches Some(s) ==> s.len() < 0x1_0000_0000_0000_0000,
    ensures
        spec_parse_op_result(spec_encode_op_result(m)) == Some(m),
{
    let bytes = spec_encode_op_result(m);
    let a = seq![result_code(m.result)];
    let b = encode_opt_str(m.error_msg);
    assert(bytes.subrange(0, bytes.len() as int) =~= a + b);
    lemma_concat_subranges(bytes, 0, a, b);
    assert(bytes[0] == a[0]);
    lemma_parse_opt_str_at(bytes, 1, m.error_msg);
}

/// Serializes a plain result.
pub fn encode_op_result(m: &OpResult) -> (r: Vec<u8>)
    ensures
        r@ == spec_encode_op_result(m@),
{
    let mut out: Vec<u8> = Vec::new();
    let code: u8 = match m.result {
        ResultType::OK => 1,
        ResultType::ERR => 2,
    };
    out.push(code);
    assert(out@ =~= seq![result_code(m@.result)]);
    encode_opt_str_field(&mut out, &m.error_msg);
    assert(out@ =~= spec_encode_op_result(m@));
    out
}

/// Reads a plain result back.
pub fn decode_op_result(bytes: &Vec<u8>) -> (r: Option<OpResult>)
    ensures
        match r {
            Some(m) => spec_parse_op_result(bytes@) == Some(m@),
            None => spec_parse_op_result(bytes@) is None,
        },
{
    if bytes.len() == 0 {
        return None;
    }
    let b0 = bytes[0];
    let result = if b0 == 1 {
        ResultType::OK
    } else if b0 == 2 {
        ResultType::ERR
    } else {
        return None;
    };
    let (error_msg, p) = match decode_opt_str_field(bytes, 1) {
        None => {
            return None;
        },
        Some(v) => v,
    };
    if p != bytes.len() {
        return None;
    }
    Some(OpResult { result, error_msg })
}

/// The daemon's reply to a safety check: success with a boolean verdict, or
/// an error with an optional message.
#[derive(Clone, Debug)]
pub struct OpBoolResult {
    pub result: ResultType,
    pub value: Option<bool>,
    pub error_msg: Option<String>,
}

/// The mathematical value of a boolean result.
pub struct OpBoolResultV {
    pub result: ResultType,
    pub value: Option<bool>,
    pub error_msg: Option<Seq<char>>,
}

impl View for OpBoolResult {
    type V = OpBoolResultV;

    open spec fn view(&self) -> OpBoolResultV {
        OpBoolResultV {
            result: self.result,
            value: self.value,
            error_msg: match self.error_msg {
                Some(ref s) => Some(s@),
                None => None,
            },
        }
    }
}

/// The wire form of a boolean result.
pub open spec fn spec_encode_op_bool_result(m: OpBoolResultV) -> Seq<u8> {
    seq![result_code(m.result)] + encode_opt_bool(m.value) + encode_opt_str(m.error_msg)
}

/// Reads a whole boolean result.
pub open spec fn spec_parse_op_bool_result(bytes: Seq<u8>) -> Option<OpBoolResultV> {
    if bytes.len() == 0 {
        None
    } else {
        match parse_result_code(bytes[0]) {
            None => None,
            Some(result) => match parse_opt_bool(bytes, 1) {
                None => None,
                Some((value, p1)) => match parse_opt_str(bytes, p1) {
                    None => None,
                    Some((error_msg, p2)) => if p2 == bytes.len() {
                        Some(OpBoolResultV { result, value, error_msg })
                    } else {
                        None
                    },
                },
            },
        }
    }
}

/// Encoding a boolean result and reading it back restores it exactly.
pub proof fn lemma_op_bool_result_round_trip(m: OpBoolResultV)
    requires
        m.error_msg matches Some(s) ==> s.len() < 0x1_0000_0000_0000_0000,
    ensures
        spec_parse_op_bool_result(spec_encode_op_bool_result(m)) == Some(m),
{
    let bytes = spec_encode_op_bool_result(m);
    let a = seq![result_code(m.result)];
    let b = encode_opt_bool(m.value);
    let c = encode_opt_str(m.error_msg);
    assert(bytes.subrange(0, bytes.len() as int) =~= a + (b + c));
    lemma_concat_subranges(bytes, 0, a, b + c);
    assert(bytes[0] == a[0]);
    lemma_concat_subranges(bytes, 1, b, c);
    lemma_parse_opt_bool_at(bytes, 1, m.value);
    lemma_parse_opt_str_at(bytes, 1 + b.len() as int, m.error_msg);
}

/// Serializes a boolean result.
pub fn encode_op_bool_result(m: &OpBoolResult) -> (r: Vec<u8>)
    ensures
        r@ == spec_encode_op_bool_result(m@),
{
    let mut out: Vec<u8> = Vec::new();
    let code: u8 = match m.result {
        ResultType::OK => 1,
        ResultType::ERR => 2,
    };
    out.push(code);
    assert(out@ =~= seq![result_code(m@.result)]);
    encode_opt_bool_field(&mut out, m.value);
    encode_opt_str_field(&mut out, &m.error_msg);
    assert(out@ =~= spec_encode_op_bool_result(m@));
    out
}

/// Reads a boolean result back.
pub fn decode_op_bool_result(bytes: &Vec<u8>) -> (r: Option<OpBoolResult>)
    ensures
        match r {
            Some(m) => spec_parse_op_bool_result(bytes@) == Some(m@),
            None => spec_parse_op_bool_result(bytes@) is None,
        },
{
    if bytes.len() == 0 {
        return None;
    }
    let b0 = bytes[0];
    let result = if b0 == 1 {
        ResultType::OK
    } else if b0 == 2 {
        ResultType::ERR
    } else {
        return None;
    };
    let (value, p1) = match decode_opt_bool_field(bytes, 1) {
        None => {
            return None;
        },
        Some(v) => v,
    };
    let (error_msg, p2) = match decode_opt_str_field(bytes, p1) {
        None => {
            return None;
        },
        Some(v) => v,
    };
    if p2 != bytes.len() {
        return None;
    }
    Some(OpBoolResult { result, value, error_msg })
}

/// The request bytes that ask the daemon to add a disk, with the simulate
/// flag always stated and the numeric id only when known.
pub fn encode_add_disk_request(path: &String, id: Option<u64>, simulate: bool) -> (r: Vec<u8>)
    ensures
        r@ == spec_encode_operation(
            OperationRequestV {
                op_type: Op::Add,
                disk: Some(path@),
                osd_id: id,
                simulate: Some(simulate),
            },
        ),
{
    encode_operation(
        &OperationRequest {
            op_type: Op::Add,
            disk: Some(path.clone()),
            osd_id: id,
            simulate: Some(simulate),
        },
    )
}

/// The request bytes that ask the daemon to remove a disk.
pub fn encode_remove_disk_request(path: &String, id: Option<u64>, simulate: bool) -> (r: Vec<u8>)
    ensures
        r@ == spec_encode_operation(
            OperationRequestV {
                op_type: Op::Remove,
                disk: Some(path@),
                osd_id: id,
                simulate: Some(simulate),
            },
        ),
{
    encode_operation(
        &OperationRequest {
            op_type: Op::Remove,
            disk: Some(path.clone()),
            osd_id: id,
            simulate: Some(simulate),
        },
    )
}

/// The request bytes that ask the daemon whether a disk is safe to remove.
pub fn encode_safe_to_remove_request(path: &String) -> (r: Vec<u8>)
    ensures
        r@ == spec_encode_operation(
            OperationRequestV {
                op_type: Op::SafeToRemove,
                disk: Some(path@),
                osd_id: None,
                simulate: None,
            },
        ),
{
    encode_operation(
        &OperationRequest {
            op_type: Op::SafeToRemove,
            disk: Some(path.clone()),
            osd_id: None,
            simulate: None,
        },
    )
}

/// Interprets an add or remove reply.
pub fn parse_op_result_response(bytes: &Vec<u8>) -> (r: BynarResult<()>)
    ensures
        ({
            match spec_parse_op_result(bytes@) {
                None => r matches Err(e) && e matches BynarError::DecodeFailed,
                Some(m) => match m.result {
                    ResultType::OK => r is Ok,
                    ResultType::ERR => match m.error_msg {
                        Some(msg) => r matches Err(e) && (e matches BynarError::DaemonError {
                            error_msg,
                        } && error_msg@ == msg),
                        None => r matches Err(e) && e matches BynarError::ErrorMsgNotSet,
                    },
                },
            }
        }),
{
    match decode_op_result(bytes) {
        None => Err(BynarError::DecodeFailed),
        Some(m) => match m.result {
            ResultType::OK => Ok(()),
            ResultType::ERR => match m.error_msg {
                Some(msg) => Err(BynarError::DaemonError { error_msg: msg }),
                None => Err(BynarError::ErrorMsgNotSet),
            },
        },
    }
}

/// Interprets a safety-check reply: `OK` yields the verdict (an unset
/// verdict counts as not safe); `ERR` surfaces the daemon's message, or an
/// empty one when it set none.
pub fn parse_safe_to_remove_response(bytes: &Vec<u8>) -> (r: BynarResult<bool>)
    ensures
        ({
            match spec_parse_op_bool_result(bytes@) {
                None => r matches Err(e) && e matches BynarError::DecodeFailed,
                Some(m) => match m.result {
                    ResultType::OK => r == BynarResult::<bool>::Ok(
                        match m.value {
                            Some(b) => b,
                            None => false,
                        },
                    ),
                    ResultType::ERR => r matches Err(e) && (e matches BynarError::DaemonError {
                        error_msg,
                    } && error_msg@ == (match m.error_msg {
                        Some(msg) => msg,
                        None => Seq::<char>::empty(),
                    })),
                },
            }
        }),
{
    match decode_op_bool_result(bytes) {
        None => Err(BynarError::DecodeFailed),
        Some(m) => match m.result {
            ResultType::OK => Ok(
                match m.value {
                    Some(b) => b,
                    None => false,
                },
            ),
            ResultType::ERR => match m.error_msg {
                Some(msg) => Err(BynarError::DaemonError { error_msg: msg }),
                None => Err(BynarError::DaemonError { error_msg: String::new() }),
            },
        },
    }
}

/// One disk as the daemon reports it.
#[derive(Clone, Debug)]
pub struct Disk {
    pub dev_path: String,
    pub serial_number: Option<String>,
}

/// The mathematical value of a reported disk.
pub struct DiskV {
    pub dev_path: Seq<char>,
    pub serial_number: Option<Seq<char>>,
}

impl View for Disk {
    type V = DiskV;

    open spec fn view(&self) -> DiskV {
        DiskV {
            dev_path: self.dev_path@,
            serial_number: match self.serial_number {
                Some(ref s) => Some(s@),
                None => None,
            },
        }
    }
}

/// Whether a disk's strings fit the wire's length fields; every value built
/// from real strings does.
pub open spec fn disk_bounded(d: DiskV) -> bool {
    &&& d.dev_path.len() < 0x1_0000_0000_0000_0000
    &&& (d.serial_number matches Some(s) ==> s.len() < 0x1_0000_0000_0000_0000)
}

/// The wire form of one reported disk.
pub open spec fn spec_encode_disk(d: DiskV) -> Seq<u8> {
    crate::wire::spec_encode_str(d.dev_path) + encode_opt_str(d.serial_number)
}

/// Reads one reported disk.
pub open spec fn parse_disk(bytes: Seq<u8>, pos: int) -> Option<(DiskV, int)> {
    match crate::wire::parse_str(bytes, pos) {
        None => None,
        Some((dev_path, p1)) => match parse_opt_str(bytes, p1) {
            None => None,
            Some((serial_number, p2)) => Some((DiskV { dev_path, serial_number }, p2)),
        },
    }
}

/// A disk written at `pos` reads back as itself.
pub proof fn lemma_parse_disk_at(bytes: Seq<u8>, pos: int, d: DiskV)
    requires
        disk_bounded(d),
        0 <= pos,
        pos + spec_encode_disk(d).len() <= bytes.len(),
        bytes.subrange(pos, pos + spec_encode_disk(d).len() as int) == spec_encode_disk(d),
    ensures
        parse_disk(bytes, pos) == Some((d, pos + spec_encode_disk(d).len())),
{
    let a = crate::wire::spec_encode_str(d.dev_path);
    let b = encode_opt_str(d.serial_number);
    lemma_concat_subranges(bytes, pos, a, b);
    crate::wire::lemma_parse_str_at(bytes, pos, d.dev_path);
    lemma_parse_opt_str_at(bytes, pos + a.len() as int, d.serial_number);
}

/// The wire form of a run of reported disks, in order.
pub open spec fn encode_disk_items(s: Seq<DiskV>) -> Seq<u8>
    decreases s.len(),
{
    if s.len() == 0 {
        Seq::empty()
    } else {
        spec_encode_disk(s[0]) + encode_disk_items(s.drop_first())
    }
}

/// Appending one disk extends the run at its end.
pub proof fn lemma_encode_disk_items_push(s: Seq<DiskV>, d: DiskV)
    ensures
        encode_disk_items(s.push(d)) == encode_disk_items(s) + spec_encode_disk(d),
    decreases s.len(),
{
    if s.len() == 0 {
        assert(s.push(d)[0] == d);
        assert(s.push(d).drop_first() =~= Seq::<DiskV>::empty());
        assert(encode_disk_items(Seq::<DiskV>::empty()) == Seq::<u8>::empty());
        assert(encode_disk_items(s.push(d)) =~= encode_disk_items(s) + spec_encode_disk(d));
    } else {
        assert(s.push(d)[0] == s[0]);
        assert(s.push(d).drop_first() =~= s.drop_first().push(d));
        lemma_encode_disk_items_push(s.drop_first(), d);
        assert(encode_disk_items(s.push(d)) =~= encode_disk_items(s) + spec_encode_disk(d));
    }
}

/// Reads `count` reported disks.
pub open spec fn parse_disk_items(bytes: Seq<u8>, pos: int, count: nat) -> Option<
    (Seq<DiskV>, int),
>
    decreases count,
{
    if count == 0 {
        Some((Seq::empty(), pos))
    } else {
        match parse_disk(bytes, pos) {
            None => None,
            Some((d, p)) => match parse_disk_items(bytes, p, (count - 1) as nat) {
                Some((s, p2)) => Some((seq![d] + s, p2)),
                None => None,
            },
        }
    }
}

/// Disks written at `pos` read back as themselves.
pub proof fn lemma_parse_disk_items_at(bytes: Seq<u8>, pos: int, s: Seq<DiskV>)
    requires
        forall|i: int| 0 <= i < s.len() ==> disk_bounded(#[trigger] s[i]),
        0 <= pos,
        pos + encode_disk_items(s).len() <= bytes.len(),
        bytes.subrange(pos, pos + encode_disk_items(s).len() as int) == encode_disk_items(s),
    ensures
        parse_disk_items(bytes, pos, s.len()) == Some((s, pos + encode_disk_items(s).len())),
    decreases s.len(),
{
    if s.len() > 0 {
        let a = spec_encode_disk(s[0]);
        let rest = encode_disk_items(s.drop_first());
        lemma_concat_subranges(bytes, pos, a, rest);
        lemma_parse_disk_at(bytes, pos, s[0]);
        assert forall|i: int| 0 <= i < s.drop_first().len() implies disk_bounded(
            #[trigger] s.drop_first()[i],
        ) by {
            assert(s.drop_first()[i] == s[i + 1]);
        }
        lemma_parse_disk_items_at(bytes, pos + a.len() as int, s.drop_first());
        assert(seq![s[0]] + s.drop_first() =~= s);
    }
}

/// The view of a reported disk list.
pub open spec fn disks_view(s: Seq<Disk>) -> Seq<DiskV> {
    s.map_values(|d: Disk| d@)
}

/// The wire form of the daemon's disk list: a count, then each disk.
pub open spec fn spec_encode_disks(s: Seq<DiskV>) -> Seq<u8> {
    crate::wire::varint(s.len() as u64) + encode_disk_items(s)
}

/// Reads a whole disk list, nothing left over.
pub open spec fn spec_parse_disks(bytes: Seq<u8>) -> Option<Seq<DiskV>> {
    match crate::wire::parse_varint(bytes, 0) {
        None => None,
        Some((n, p)) => match parse_disk_items(bytes, p, n as nat) {
            Some((s, p2)) => if p2 == bytes.len() {
                Some(s)
            } else {
                None
            },
            None => None,
        },
    }
}

/// Encoding a disk list and reading it back restores it exactly.
pub proof fn lemma_disks_round_trip(s: Seq<DiskV>)
    requires
        s.len() < 0x1_0000_0000_0000_0000,
        forall|i: int| 0 <= i < s.len() ==> disk_bounded(#[trigger] s[i]),
    ensures
        spec_parse_disks(spec_encode_disks(s)) == Some(s),
{
    let bytes = spec_encode_disks(s);
    let a = crate::wire::varint(s.len() as u64);
    let b = encode_disk_items(s);
    assert(bytes.subrange(0, bytes.len() as int) =~= a + b);
    lemma_concat_subranges(bytes, 0, a, b);
    crate::wire::lemma_parse_varint_at(bytes, 0, s.len() as u64);
    lemma_parse_disk_items_at(bytes, a.len() as int, s);
    assert((s.len() as u64) as nat == s.len());
}

/// Serializes the daemon's disk list.
pub fn encode_disks(disks: &Vec<Disk>) -> (r: Vec<u8>)
    ensures
        r@ == spec_encode_disks(disks_view(disks@)),
{
    let mut out: Vec<u8> = Vec::new();
    let n = disks.len();
    crate::wire::encode_varint(&mut out, n as u64);
    let mut i: usize = 0;
    assert(disks_view(disks@).take(0) =~= Seq::<DiskV>::empty());
    while i < n
        invariant
            i <= n,
            n == disks@.len(),
            out@ == crate::wire::varint(n as u64) + encode_disk_items(
                disks_view(disks@).take(i as int),
            ),
        decreases n - i,
    {
        proof {
            lemma_encode_disk_items_push(disks_view(disks@).take(i as int), disks@[i as int]@);
            assert(disks_view(disks@).take(i as int).push(disks@[i as int]@) =~= disks_view(
                disks@,
            ).take(i + 1));
        }
        crate::wire::encode_str(&mut out, &disks[i].dev_path);
        encode_opt_str_field(&mut out, &disks[i].serial_number);
        i += 1;
        assert(out@ =~= crate::wire::varint(n as u64) + encode_disk_items(
            disks_view(disks@).take(i as int),
        ));
    }
    assert(disks_view(disks@).take(n as int) =~= disks_view(disks@));
    out
}

/// Reads the daemon's disk list back.
pub fn decode_disks(bytes: &Vec<u8>) -> (r: Option<Vec<Disk>>)
    ensures
        match r {
            Some(v) => spec_parse_disks(bytes@) == Some(disks_view(v@)),
            None => spec_parse_disks(bytes@) is None,
        },
{
    let (count, start) = match crate::wire::decode_varint(bytes, 0) {
        None => {
            return None;
        },
        Some(v) => v,
    };
    let mut acc: Vec<Disk> = Vec::new();
    let mut cur = start;
    let mut k: u64 = 0;
    assert(disks_view(acc@) =~= Seq::<DiskV>::empty());
    while k < count
        invariant
            k <= count,
            0 < cur <= bytes@.len(),
            spec_parse_disks(bytes@) == (match parse_disk_items(
                bytes@,
                cur as int,
                (count - k) as nat,
            ) {
                Some(q) => if q.1 == bytes@.len() {
                    Some(disks_view(acc@) + q.0)
                } else {
                    None::<Seq<DiskV>>
                },
                None => None::<Seq<DiskV>>,
            }),
        decreases count - k,
    {
        let (dev_path, p1) = match crate::wire::decode_str(bytes, cur) {
            None => {
                return None;
            },
            Some(v) => v,
        };
        let (serial_number, p2) = match decode_opt_str_field(bytes, p1) {
            None => {
                return None;
            },
            Some(v) => v,
        };
        let d = Disk { dev_path, serial_number };
        let ghost acc_pre = disks_view(acc@);
        let ghost dv = d@;
        acc.push(d);
        proof {
            assert(disks_view(acc@) =~= acc_pre.push(dv));
            assert(parse_disk(bytes@, cur as int) == Some((dv, p2 as int)));
            assert(parse_disk_items(bytes@, cur as int, (count - k) as nat) == (match
                parse_disk_items(bytes@, p2 as int, (count - k - 1) as nat) {
                Some(q) => Some((seq![dv] + q.0, q.1)),
                None => None::<(Seq<DiskV>, int)>,
            }));
            match parse_disk_items(bytes@, p2 as int, (count - k - 1) as nat) {
                Some(q) => {
                    assert(disks_view(acc@) + q.0 =~= acc_pre + (seq![dv] + q.0));
                },
                None => {},
            }
        }
        cur = p2;
        k = k + 1;
    }
    proof {
        assert(disks_view(acc@) + Seq::<DiskV>::empty() =~= disks_view(acc@));
    }
    if cur != bytes.len() {
        return None;
    }
    Some(acc)
}

/// The request bytes that ask the daemon for its disk list.
pub fn encode_list_disks_request() -> (r: Vec<u8>)
    ensures
        r@ == spec_encode_operation(
            OperationRequestV { op_type: Op::List, disk: None, osd_id: None, simulate: None },
        ),
{
    encode_operation(
        &OperationRequest { op_type: Op::List, disk: None, osd_id: None, simulate: None },
    )
}

/// Interprets a disk-list reply: the decoded list, or the decode failure.
pub fn parse_list_disks_response(bytes: &Vec<u8>) -> (r: BynarResult<Vec<Disk>>)
    ensures
        ({
            match spec_parse_disks(bytes@) {
                None => r matches Err(e) && e matches BynarError::DecodeFailed,
                Some(s) => r matches Ok(v) && disks_view(v@) == s,
            }
        }),
{
    match decode_disks(bytes) {
        None => Err(BynarError::DecodeFailed),
        Some(v) => Ok(v),
    }
}

/// One issued ticket as the daemon reports it.
#[derive(Clone, Debug)]
pub struct JiraInfo {
    pub ticket_id: String,
    pub server_name: String,
}

/// The mathematical value of a reported ticket.
pub struct JiraInfoV {
    pub ticket_id: Seq<char>,
    pub server_name: Seq<char>,
}

impl View for JiraInfo {
    type V = JiraInfoV;

    open spec fn view(&self) -> JiraInfoV {
        JiraInfoV { ticket_id: self.ticket_id@, server_name: self.server_name@ }
    }
}

/// Whether a ticket's strings fit the wire's length fields.
pub open spec fn jira_bounded(t: JiraInfoV) -> bool {
    &&& t.ticket_id.len() < 0x1_0000_0000_0000_0000
    &&& t.server_name.len() < 0x1_0000_0000_0000_0000
}

/// The wire form of one reported ticket.
pub open spec fn spec_encode_jira(t: JiraInfoV) -> Seq<u8> {
    crate::wire::spec_encode_str(t.ticket_id) + crate::wire::spec_encode_str(t.server_name)
}

/// Reads one reported ticket.
pub open spec fn parse_jira(bytes: Seq<u8>, pos: int) -> Option<(JiraInfoV, int)> {
    match crate::wire::parse_str(bytes, pos) {
        None => None,
        Some((ticket_id, p1)) => match crate::wire::parse_str(bytes, p1) {
            None => None,
            Some((server_name, p2)) => Some((JiraInfoV { ticket_id, server_name }, p2)),
        },
    }
}

/// A ticket written at `pos` reads back as itself.
pub proof fn lemma_parse_jira_at(bytes: Seq<u8>, pos: int, t: JiraInfoV)
    requires
        jira_bounded(t),
        0 <= pos,
        pos + spec_encode_jira(t).len() <= bytes.len(),
        bytes.subrange(pos, pos + spec_encode_jira(t).len() as int) == spec_encode_jira(t),
    ensures
        parse_jira(bytes, pos) == Some((t, pos + spec_encode_jira(t).len())),
{
    let a = crate::wire::spec_encode_str(t.ticket_id);
    let b = crate::wire::spec_encode_str(t.server_name);
    lemma_concat_subranges(bytes, pos, a, b);
    crate::wire::lemma_parse_str_at(bytes, pos, t.ticket_id);
    crate::wire::lemma_parse_str_at(bytes, pos + a.len() as int, t.server_name);
}

/// The wire form of a run of reported tickets, in order.
pub open spec fn encode_jira_items(s: Seq<JiraInfoV>) -> Seq<u8>
    decreases s.len(),
{
    if s.len() == 0 {
        Seq::empty()
    } else {
        spec_encode_jira(s[0]) + encode_jira_items(s.drop_first())
    }
}

/// Appending one ticket extends the run at its end.
pub proof fn lemma_encode_jira_items_push(s: Seq<JiraInfoV>, t: JiraInfoV)
    ensures
        encode_jira_items(s.push(t)) == encode_jira_items(s) + spec_encode_jira(t),
    decreases s.len(),
{
    if s.len() == 0 {
        assert(s.push(t)[0] == t);
        assert(s.push(t).drop_first() =~= Seq::<JiraInfoV>::empty());
        assert(encode_jira_items(Seq::<JiraInfoV>::empty()) == Seq::<u8>::empty());
        assert(encode_jira_items(s.push(t)) =~= encode_jira_items(s) + spec_encode_jira(t));
    } else {
        assert(s.push(t)[0] == s[0]);
        assert(s.push(t).drop_first() =~= s.drop_first().push(t));
        lemma_encode_jira_items_push(s.drop_first(), t);
        assert(encode_jira_items(s.push(t)) =~= encode_jira_items(s) + spec_encode_jira(t));
    }
}

/// Reads `count` reported tickets.
pub open spec fn parse_jira_items(bytes: Seq<u8>, pos: int, count: nat) -> Option<
    (Seq<JiraInfoV>, int),
>
    decreases count,
{
    if count == 0 {
        Some((Seq::empty(), pos))
    } else {
        match parse_jira(bytes, pos) {
            None => None,
            Some((t, p)) => match parse_jira_items(bytes, p, (count - 1) as nat) {
                Some((s, p2)) => Some((seq![t] + s, p2)),
                None => None,
            },
        }
    }
}

/// Tickets written at `pos` read back as themselves.
pub proof fn lemma_parse_jira_items_at(bytes: Seq<u8>, pos: int, s: Seq<JiraInfoV>)
    requires
        forall|i: int| 0 <= i < s.len() ==> jira_bounded(#[trigger] s[i]),
        0 <= pos,
        pos + encode_jira_items(s).len() <= bytes.len(),
        bytes.subrange(pos, pos + encode_jira_items(s).len() as int) == encode_jira_items(s),
    ensures
        parse_jira_items(bytes, pos, s.len()) == Some((s, pos + encode_jira_items(s).len())),
    decreases s.len(),
{
    if s.len() > 0 {
        let a = spec_encode_jira(s[0]);
        let rest = encode_jira_items(s.drop_first());
        lemma_concat_subranges(bytes, pos, a, rest);
        lemma_parse_jira_at(bytes, pos, s[0]);
        assert forall|i: int| 0 <= i < s.drop_first().len() implies jira_bounded(
            #[trigger] s.drop_first()[i],
        ) by {
            assert(s.drop_first()[i] == s[i + 1]);
        }
        lemma_parse_jira_items_at(bytes, pos + a.len() as int, s.drop_first());
        assert(seq![s[0]] + s.drop_first() =~= s);
    }
}

/// The view of a reported ticket list.
pub open spec fn jira_view(s: Seq<JiraInfo>) -> Seq<JiraInfoV> {
    s.map_values(|t: JiraInfo| t@)
}

/// The daemon's reply to a ticket query: the result discriminator, an
/// optional error message, and the issued tickets.
#[derive(Clone, Debug)]
pub struct OpJiraTicketsResult {
    pub result: ResultType,
    pub error_msg: Option<String>,
    pub tickets: Vec<JiraInfo>,
}

/// The mathematical value of a ticket-query reply.
pub struct OpJiraTicketsResultV {
    pub result: ResultType,
    pub error_msg: Option<Seq<char>>,
    pub tickets: Seq<JiraInfoV>,
}

impl View for OpJiraTicketsResult {
    type V = OpJiraTicketsResultV;

    open spec fn view(&self) -> OpJiraTicketsResultV {
        OpJiraTicketsResultV {
            result: self.result,
            error_msg: match self.error_msg {
                Some(ref s) => Some(s@),
                None => None,
            },
            tickets: jira_view(self.tickets@),
        }
    }
}

/// The wire form of a ticket-query reply.
pub open spec fn spec_encode_jira_result(m: OpJiraTicketsResultV) -> Seq<u8> {
    seq![result_code(m.result)] + encode_opt_str(m.error_msg) + crate::wire::varint(
        m.tickets.len() as u64,
    ) + encode_jira_items(m.tickets)
}

/// Reads a whole ticket-query reply, nothing left over.
pub open spec fn spec_parse_jira_result(bytes: Seq<u8>) -> Option<OpJiraTicketsResultV> {
    if bytes.len() == 0 {
        None
    } else {
        match parse_result_code(bytes[0]) {
            None => None,
            Some(result) => match parse_opt_str(bytes, 1) {
                None => None,
                Some((error_msg, p1)) => match crate::wire::parse_varint(bytes, p1) {
                    None => None,
                    Some((n, p2)) => match parse_jira_items(bytes, p2, n as nat) {
                        Some((tickets, p3)) => if p3 == bytes.len() {
                            Some(OpJiraTicketsResultV { result, error_msg, tickets })
                        } else {
                            None
                        },
                        None => None,
                    },
                },
            },
        }
    }
}

/// Encoding a ticket-query reply and reading it back restores it exactly.
pub proof fn lemma_jira_result_round_trip(m: OpJiraTicketsResultV)
    requires
        m.error_msg matches Some(s) ==> s.len() < 0x1_0000_0000_0000_0000,
        m.tickets.len() < 0x1_0000_0000_0000_0000,
        forall|i: int| 0 <= i < m.tickets.len() ==> jira_bounded(#[trigger] m.tickets[i]),
    ensures
        spec_parse_jira_result(spec_encode_jira_result(m)) == Some(m),
{
    let bytes = spec_encode_jira_result(m);
    let a = seq![result_code(m.result)];
    let b = encode_opt_str(m.error_msg);
    let c = crate::wire::varint(m.tickets.len() as u64);
    let d = encode_jira_items(m.tickets);
    assert(bytes.subrange(0, bytes.len() as int) =~= a + (b + (c + d)));
    lemma_concat_subranges(bytes, 0, a, b + (c + d));
    assert(bytes[0] == a[0]);
    lemma_concat_subranges(bytes, 1, b, c + d);
    lemma_parse_opt_str_at(bytes, 1, m.error_msg);
    lemma_concat_subranges(bytes, 1 + b.len() as int, c, d);
    crate::wire::lemma_parse_varint_at(bytes, 1 + b.len() as int, m.tickets.len() as u64);
    lemma_parse_jira_items_at(bytes, 1 + b.len() as int + c.len() as int, m.tickets);
    assert((m.tickets.len() as u64) as nat == m.tickets.len());
}

/// Serializes a ticket-query reply.
pub fn encode_jira_result(m: &OpJiraTicketsResult) -> (r: Vec<u8>)
    ensures
        r@ == spec_encode_jira_result(m@),
{
    let mut out: Vec<u8> = Vec::new();
    let code: u8 = match m.result {
        ResultType::OK => 1,
        ResultType::ERR => 2,
    };
    out.push(code);
    assert(out@ =~= seq![result_code(m@.result)]);
    encode_opt_str_field(&mut out, &m.error_msg);
    let n = m.tickets.len();
    crate::wire::encode_varint(&mut out, n as u64);
    let ghost prefix = out@;
    let mut i: usize = 0;
    assert(jira_view(m.tickets@).take(0) =~= Seq::<JiraInfoV>::empty());
    while i < n
        invariant
            i <= n,
            n == m.tickets@.len(),
            out@ == prefix + encode_jira_items(jira_view(m.tickets@).take(i as int)),
        decreases n - i,
    {
        proof {
            lemma_encode_jira_items_push(
                jira_view(m.tickets@).take(i as int),
                m.tickets@[i as int]@,
            );
            assert(jira_view(m.tickets@).take(i as int).push(m.tickets@[i as int]@) =~= jira_view(
                m.tickets@,
            ).take(i + 1));
        }
        crate::wire::encode_str(&mut out, &m.tickets[i].ticket_id);
        crate::wire::encode_str(&mut out, &m.tickets[i].server_name);
        i += 1;
        assert(out@ =~= prefix + encode_jira_items(jira_view(m.tickets@).take(i as int)));
    }
    assert(jira_view(m.tickets@).take(n as int) =~= jira_view(m.tickets@));
    assert(out@ =~= spec_encode_jira_result(m@));
    out
}

/// Reads a ticket-query reply back.
pub fn decode_jira_result(bytes: &Vec<u8>) -> (r: Option<OpJiraTicketsResult>)
    ensures
        match r {
            Some(m) => spec_parse_jira_result(bytes@) == Some(m@),
            None => spec_parse_jira_result(bytes@) is None,
        },
{
    if bytes.len() == 0 {
        return None;
    }
    let b0 = bytes[0];
    let result = if b0 == 1 {
        ResultType::OK
    } else if b0 == 2 {
        ResultType::ERR
    } else {
        return None;
    };
    let (error_msg, p1) = match decode_opt_str_field(bytes, 1) {
        None => {
            return None;
        },
        Some(v) => v,
    };
    let (count, start) = match crate::wire::decode_varint(bytes, p1) {
        None => {
            return None;
        },
        Some(v) => v,
    };
    let mut acc: Vec<JiraInfo> = Vec::new();
    let mut cur = start;
    let mut k: u64 = 0;
    assert(jira_view(acc@) =~= Seq::<JiraInfoV>::empty());
    while k < count
        invariant
            k <= count,
            0 < cur <= bytes@.len(),
            ({
                let whole = spec_parse_jira_result(bytes@);
                match parse_jira_items(bytes@, cur as int, (count - k) as nat) {
                    Some(q) => whole == (if q.1 == bytes@.len() {
                        Some(
                            OpJiraTicketsResultV {
                                result,
                                error_msg: match error_msg {
                                    Some(ref s) => Some(s@),
                                    None => None::<Seq<char>>,
                                },
                                tickets: jira_view(acc@) + q.0,
                            },
                        )
                    } else {
                        None::<OpJiraTicketsResultV>
                    }),
                    None => whole is None,
                }
            }),
        decreases count - k,
    {
        let (ticket_id, q1) = match crate::wire::decode_str(bytes, cur) {
            None => {
                return None;
            },
            Some(v) => v,
        };
        let (server_name, q2) = match crate::wire::decode_str(bytes, q1) {
            None => {
                return None;
            },
            Some(v) => v,
        };
        let t = JiraInfo { ticket_id, server_name };
        let ghost acc_pre = jira_view(acc@);
        let ghost tv = t@;
        acc.push(t);
        proof {
            assert(jira_view(acc@) =~= acc_pre.push(tv));
            assert(parse_jira(bytes@, cur as int) == Some((tv, q2 as int)));
            assert(parse_jira_items(bytes@, cur as int, (count - k) as nat) == (match
                parse_jira_items(bytes@, q2 as int, (count - k - 1) as nat) {
                Some(q) => Some((seq![tv] + q.0, q.1)),
                None => None::<(Seq<JiraInfoV>, int)>,
            }));
            match parse_jira_items(bytes@, q2 as int, (count - k - 1) as nat) {
                Some(q) => {
                    assert(jira_view(acc@) + q.0 =~= acc_pre + (seq![tv] + q.0));
                },
                None => {},
            }
        }
        cur = q2;
        k = k + 1;
    }
    proof {
        assert(jira_view(acc@) + Seq::<JiraInfoV>::empty() =~= jira_view(acc@));
    }
    if cur != bytes.len() {
        return None;
    }
    Some(OpJiraTicketsResult { result, error_msg, tickets: acc })
}

/// The request bytes that ask the daemon for the tickets it has created.
pub fn encode_get_jira_tickets_request() -> (r: Vec<u8>)
    ensures
        r@ == spec_encode_operation(
            OperationRequestV {
                op_type: Op::GetCreatedTickets,
                disk: None,
                osd_id: None,
                simulate: None,
            },
        ),
{
    encode_operation(
        &OperationRequest {
            op_type: Op::GetCreatedTickets,
            disk: None,
            osd_id: None,
            simulate: None,
        },
    )
}

/// Interprets a ticket-query reply: `OK` yields the tickets; `ERR` surfaces
/// the daemon's message, or the distinct missing-message failure when it
/// set none.
pub fn parse_get_jira_tickets_response(bytes: &Vec<u8>) -> (r: BynarResult<Vec<JiraInfo>>)
    ensures
        ({
            match spec_parse_jira_result(bytes@) {
                None => r matches Err(e) && e matches BynarError::DecodeFailed,
                Some(m) => match m.result {
                    ResultType::OK => r matches Ok(v) && jira_view(v@) == m.tickets,
                    ResultType::ERR => match m.error_msg {
                        Some(msg) => r matches Err(e) && (e matches BynarError::DaemonError {
                            error_msg,
                        } && error_msg@ == msg),
                        None => r matches Err(e) && e matches BynarError::ErrorMsgNotSet,
                    },
                },
            }
        }),
{
    match decode_jira_result(bytes) {
        None => Err(BynarError::DecodeFailed),
        Some(m) => match m.result {
            ResultType::OK => Ok(m.tickets),
            ResultType::ERR => match m.error_msg {
                Some(msg) => Err(BynarError::DaemonError { error_msg: msg }),
                None => Err(BynarError::ErrorMsgNotSet),
            },
        },
    }
}

} // verus!

