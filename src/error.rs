use vstd::prelude::*;

verus! {

/// Failures reported by the stores, the request handlers and the worker pools.
#[derive(Debug, Clone)]
pub enum Error {
    BadRequest,
    BadMultipart(String),
    IdNotFound { id: i32 },
    DbError(String),
    LockFailed(String),
    /// A pipe could not be written or read, or a process could not be started.
    IoError(String),
    EncodingError(String),
    /// The child produced no usable output.
    EmptyRet,
    /// No worker became free in time.
    SubmitTimeout,
    /// The child signalled a failure with the sentinel character; the rest of its reply.
    RunSubCmdError(String),
    JsonParseError(String),
    WorkerQueueError(String),
    Other(String),
}

pub type Result<T> = core::result::Result<T, Error>;

impl From<String> for Error {
    fn from(value: String) -> (r: Error)
        ensures
            r == Error::Other(value),
    {
        Error::Other(value)
    }
}

impl vstd::std_specs::convert::FromSpecImpl<String> for Error {
    open spec fn obeys_from_spec() -> bool {
        true
    }

    open spec fn from_spec(v: String) -> Error {
        Error::Other(v)
    }
}

} // verus!
