//! The single error type of the library.
//!
//! Store-level validation failures and protocol failures all surface through
//! [`BynarError`]; each variant names the offending entity so a caller can
//! report a descriptive error.

use vstd::prelude::*;

verus! {

/// Everything that a ledger or protocol call can fail with.
#[derive(Debug)]
pub enum BynarError {
    /// An operation record cannot be created without a valid process entry id.
    EntryIdRequired,
    /// A device's locally known database id disagrees with the id stored for
    /// the same natural key.
    DeviceMismatch { device_name: String, detail_id: u32 },
    /// State or health was asked of, or written for, a device with no known
    /// database id.
    DeviceNotInDatabase { device_name: String, detail_id: u32 },
    /// The operation-type reference table has no row for this type name.
    OperationTypeNotFound { op_name: String },
    /// The operation-type reference table has more than one row for this type
    /// name: data corruption.
    OperationTypeDuplicated { op_name: String },
    /// An update that must touch exactly one row matched a different number;
    /// the write was rolled back.
    RowCountMismatch { rows: usize },
    /// Host registration could not resolve all three ids; the transaction was
    /// rolled back.
    StorageInfoUpdateFailed,
    /// A reply from the daemon was not a well-formed message.
    DecodeFailed,
    /// The daemon answered with an error result carrying this message.
    DaemonError { error_msg: String },
    /// The daemon answered with an error result but set no error message,
    /// which is a distinct failure of its own.
    ErrorMsgNotSet,
}

/// The library's result type.
pub type BynarResult<T> = Result<T, BynarError>;

} // verus!
