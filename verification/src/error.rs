//! Error taxonomy shared by every node of the routing fabric.
//!
//! Each error on the wire carries a machine-readable code plus a free-form
//! message.  Gateways map codes to HTTP statuses with [`net_err_to_http`].

use vstd::prelude::*;

verus! {

/// Machine-readable error kinds carried on the wire.  The set is exhaustive:
/// every routed error reply names one of these.
#[derive(Clone, Copy, Debug, PartialEq, Eq, Structural)]
pub enum ErrCode {
    Bug,
    Timeout,
    RemoteRejected,
    BadRemoteReply,
    EntityNotFound,
    NoShard,
    AccessDenied,
    SessionExpired,
    EntityConflict,
    Sock,
    DataStore,
    AuthScope,
    WorkspaceSetup,
    SecretKeyFetch,
    SecretKeyImport,
    VcsClone,
    Build,
    PostProcessor,
    RegConflict,
    RemoteUnavailable,
    Sys,
    GroupNotComplete,
    PartialJobGroupPromote,
}

/// An error reply: a code plus a free-form context message.
#[derive(Clone, Debug)]
pub struct NetError {
    pub code: ErrCode,
    pub msg: String,
}

impl NetError {
    /// Builds an error from a code and a context tag.
    pub fn new(code: ErrCode, msg: &str) -> (e: NetError)
        ensures
            e.code == code,
            e.msg@ == msg@,
    {
        NetError { code, msg: msg.to_owned() }
    }

    /// The machine-readable code of this error.
    pub fn code(&self) -> (c: ErrCode)
        ensures
            c == self.code,
    {
        self.code
    }
}

/// Result type used by every routed operation.
pub type NetResult<T> = Result<T, NetError>;

/// Acknowledgement body for operations with no other payload.
#[derive(Clone, Copy, Debug, PartialEq, Eq, Structural)]
pub struct NetOk {}

impl NetOk {
    pub fn new() -> NetOk {
        NetOk {}
    }
}

/// Whether a caller retries a failed routed call.  Only transport failures
/// are worth retrying — the request may simply have been lost — and only
/// once; routing and application errors need the world to change first.
pub fn should_retry(err: &NetError, attempts_made: u64) -> (r: bool)
    ensures
        r == ((err.code == ErrCode::Sock || err.code == ErrCode::Timeout) && attempts_made
            == 0),
{
    (matches!(err.code, ErrCode::Sock) || matches!(err.code, ErrCode::Timeout))
        && attempts_made == 0
}

/// The HTTP status a gateway answers with for each error code.
pub open spec fn spec_http_status(err: ErrCode) -> u16 {
    match err {
        ErrCode::Bug => 500,
        ErrCode::Timeout => 504,
        ErrCode::RemoteRejected => 406,
        ErrCode::BadRemoteReply => 502,
        ErrCode::EntityNotFound => 404,
        ErrCode::NoShard => 503,
        ErrCode::AccessDenied => 401,
        ErrCode::SessionExpired => 401,
        ErrCode::EntityConflict => 409,
        ErrCode::Sock => 503,
        ErrCode::DataStore => 503,
        ErrCode::AuthScope => 403,
        ErrCode::WorkspaceSetup => 500,
        ErrCode::SecretKeyFetch => 502,
        ErrCode::SecretKeyImport => 500,
        ErrCode::VcsClone => 502,
        ErrCode::Build => 500,
        ErrCode::PostProcessor => 500,
        ErrCode::RegConflict => 500,
        ErrCode::RemoteUnavailable => 503,
        ErrCode::Sys => 500,
        ErrCode::GroupNotComplete => 403,
        ErrCode::PartialJobGroupPromote => 403,
    }
}

/// Total mapping from wire error codes to HTTP status codes.
pub fn net_err_to_http(err: ErrCode) -> (status: u16)
    ensures
        status == spec_http_status(err),
{
    match err {
        ErrCode::Bug => 500,
        ErrCode::Timeout => 504,
        ErrCode::RemoteRejected => 406,
        ErrCode::BadRemoteReply => 502,
        ErrCode::EntityNotFound => 404,
        ErrCode::NoShard => 503,
        ErrCode::AccessDenied => 401,
        ErrCode::SessionExpired => 401,
        ErrCode::EntityConflict => 409,
        ErrCode::Sock => 503,
        ErrCode::DataStore => 503,
        ErrCode::AuthScope => 403,
        ErrCode::WorkspaceSetup => 500,
        ErrCode::SecretKeyFetch => 502,
        ErrCode::SecretKeyImport => 500,
        ErrCode::VcsClone => 502,
        ErrCode::Build => 500,
        ErrCode::PostProcessor => 500,
        ErrCode::RegConflict => 500,
        ErrCode::RemoteUnavailable => 503,
        ErrCode::Sys => 500,
        ErrCode::GroupNotComplete => 403,
        ErrCode::PartialJobGroupPromote => 403,
    }
}

} // verus!
