//! Message routing and dispatch core of a multi-service build system.
//!
//! Backend services register with a central route server which protocols and
//! shards they serve; frontends proxy caller requests over a shared connection
//! and correlate replies by transaction id.  This crate holds the verified
//! heart of that machinery: the multi-part wire framing, the shard-aware
//! endpoint registry, the dispatcher-pool bookkeeping and the router-broker
//! decision logic.  Transport I/O stays outside; every function here is a
//! total computation on plain values.

use vstd::prelude::*;
use vstd::utf8::{decode_utf8, valid_utf8};

pub mod error;
pub mod message;
pub mod codec;
pub mod registry;
pub mod bodies;
pub mod broker;
pub mod dispatch;
pub mod session;
pub mod gateway;

verus! {

/// Number of shards in the routing key space.  A routing hash selects the
/// shard `hash % SHARD_COUNT`, so every shard id is below this bound.
pub const SHARD_COUNT: u64 = 128;

/// Shard selected by a routing hash.
pub open spec fn spec_shard_of(hash: u64) -> u64 {
    hash % SHARD_COUNT
}

/// Maps a routing hash to the shard responsible for it.
pub fn shard_of(hash: u64) -> (shard: u64)
    ensures
        shard == spec_shard_of(hash),
        shard < SHARD_COUNT,
{
    hash % SHARD_COUNT
}

/// The hostname this process announces, decided from what the hostname
/// command produced: nothing when the command could not be run at all,
/// else its exit status and captured output.  The name is the output's
/// text; a command that failed, or output that is not UTF-8, is a `Sys`
/// error, one tag per failure.  Running the command is the embedding
/// program's work.
pub fn hostname(output: Option<(bool, Vec<u8>)>) -> (r: error::NetResult<String>)
    ensures
        match output {
            None => (r matches Err(e) && e.code == error::ErrCode::Sys && e.msg@
                == "net:hostname:0"@),
            Some((status_ok, out)) => {
                if !status_ok {
                    r matches Err(e) && e.code == error::ErrCode::Sys && e.msg@
                        == "net:hostname:2"@
                } else if valid_utf8(out@) {
                    r matches Ok(name) && name@ == decode_utf8(out@)
                } else {
                    r matches Err(e) && e.code == error::ErrCode::Sys && e.msg@
                        == "net::hostname:1"@
                }
            },
        },
{
    match output {
        None => Err(error::NetError::new(error::ErrCode::Sys, "net:hostname:0")),
        Some((status_ok, out)) => {
            if !status_ok {
                return Err(error::NetError::new(error::ErrCode::Sys, "net:hostname:2"));
            }
            match bodies::utf8_string(out.as_slice()) {
                Some(name) => Ok(name),
                None => Err(error::NetError::new(error::ErrCode::Sys, "net::hostname:1")),
            }
        },
    }
}

} // verus!
