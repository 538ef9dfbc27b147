//! The error model: every engine-level failure carries a domain, a code and
//! a context word, and every fallible operation of the library returns a
//! variant naming the operation that failed.

use vstd::prelude::*;

verus! {

/// The numeric error domain used for failures raised by this library.
pub const ERROR_DOMAIN: u32 = 1;

/// Error code: the database session is no longer open.
pub const CODE_NOT_OPEN: i32 = 1;

/// Error code: no record with the given id exists in the store.
pub const CODE_NOT_FOUND: i32 = 2;

/// Error code: a serialized form or a query string could not be parsed.
pub const CODE_PARSE: i32 = 3;

/// Error code: the database name is not acceptable.
pub const CODE_INVALID_NAME: i32 = 4;

/// Error code: the replication endpoint URL is not acceptable.
pub const CODE_INVALID_URL: i32 = 5;

/// Error code: an index key expression is not acceptable.
pub const CODE_INVALID_INDEX: i32 = 6;

/// Error code: an operation inside a batch failed, and the batch was
/// rolled back as a whole.
pub const CODE_BATCH: i32 = 7;

/// The engine-level error value: a `(domain, code, context)` triple.
/// A zero code means success; any nonzero code is a failure.
#[derive(Debug, Clone, Copy, PartialEq, Eq, Structural)]
pub struct EngineError {
    pub domain: u32,
    pub code: i32,
    pub internal_info: u32,
}

/// A fresh, known-zero error value, as every engine call must receive one.
pub fn init_error() -> (e: EngineError)
    ensures
        e.domain == 0,
        e.code == 0,
        e.internal_info == 0,
{
    EngineError { domain: 0, code: 0, internal_info: 0 }
}

/// The error value this library raises for the given code.
pub open spec fn spec_engine_error(code: i32) -> EngineError {
    EngineError { domain: ERROR_DOMAIN, code, internal_info: 0 }
}

/// An error raised by this library, with the given code and no context.
pub fn engine_error(code: i32) -> (e: EngineError)
    ensures
        e == spec_engine_error(code),
{
    EngineError { domain: ERROR_DOMAIN, code, internal_info: 0 }
}

/// The error value this library raises for the given code, carrying a
/// context word (for a parse failure: the position).
pub open spec fn spec_engine_error_at(code: i32, info: u32) -> EngineError {
    EngineError { domain: ERROR_DOMAIN, code, internal_info: info }
}

/// An error raised by this library, with the given code and context word.
pub fn engine_error_at(code: i32, info: u32) -> (e: EngineError)
    ensures
        e == spec_engine_error_at(code, info),
{
    EngineError { domain: ERROR_DOMAIN, code, internal_info: info }
}

/// Why an operation of this library failed.  Each variant names the failing
/// operation and carries the underlying engine error for diagnostics;
/// `CannotSaveEmptyDocument` carries none, since saving an empty document is
/// rejected before the store is touched.
#[derive(Debug, Clone, Copy, PartialEq, Eq, Structural)]
pub enum CouchbaseLiteError {
    CannotOpenDatabase(EngineError),
    CannotCloseDatabase(EngineError),
    CannotDeleteDatabase(EngineError),
    CannotSaveDocument(EngineError),
    CannotSaveEmptyDocument,
    CannotDeleteDocument(EngineError),
    CannotCreateIndex(EngineError),
    CannotCreateNewQuery(EngineError),
    CannotFillDocumentFromJson(EngineError),
    CannotCreateNewReplicator(EngineError),
    CannotExecuteQuery(EngineError),
    ErrorInBatch(EngineError),
}

} // verus!
