//! Byte schemas of the control payloads every node understands: the error
//! reply and the registration announcement.  Other bodies are opaque to the
//! routing core; each service defines its own payload schemas.

use vstd::prelude::*;
use vstd::bytes::{
    lemma_auto_spec_u32_to_from_le_bytes, spec_u32_from_le_bytes, spec_u32_to_le_bytes,
    u32_from_le_bytes, u32_to_le_bytes,
};
use vstd::slice::{slice_index_get, slice_subrange};
use vstd::string::StringSliceAdditionalSpecFns;
use vstd::utf8::{decode_utf8, encode_utf8, encode_utf8_decode_utf8, encode_utf8_valid_utf8,
    valid_utf8};
use crate::error::{ErrCode, NetError};
use crate::message::Protocol;
use crate::codec::{protocol_byte, protocol_of_byte, spec_protocol_byte, spec_protocol_of_byte};
use crate::registry::ShardId;

verus! {

/// Message-kind byte string naming an error reply: `NetError` in ASCII.
pub open spec fn spec_net_error_kind() -> Seq<u8> {
    seq![0x4eu8, 0x65u8, 0x74u8, 0x45u8, 0x72u8, 0x72u8, 0x6fu8, 0x72u8]
}

/// The message-kind byte string of an error reply.
pub fn net_error_kind() -> (k: Vec<u8>)
    ensures
        k@ == spec_net_error_kind(),
{
    let mut k: Vec<u8> = Vec::new();
    k.push(0x4e);
    k.push(0x65);
    k.push(0x74);
    k.push(0x45);
    k.push(0x72);
    k.push(0x72);
    k.push(0x6f);
    k.push(0x72);
    proof {
        assert(k@ =~= spec_net_error_kind());
    }
    k
}

/// Wire tag of each error code.
pub open spec fn spec_err_code_byte(c: ErrCode) -> u8 {
    match c {
        ErrCode::Bug => 0u8,
        ErrCode::Timeout => 1u8,
        ErrCode::RemoteRejected => 2u8,
        ErrCode::BadRemoteReply => 3u8,
        ErrCode::EntityNotFound => 4u8,
        ErrCode::NoShard => 5u8,
        ErrCode::AccessDenied => 6u8,
        ErrCode::SessionExpired => 7u8,
        ErrCode::EntityConflict => 8u8,
        ErrCode::Sock => 9u8,
        ErrCode::DataStore => 10u8,
        ErrCode::AuthScope => 11u8,
        ErrCode::WorkspaceSetup => 12u8,
        ErrCode::SecretKeyFetch => 13u8,
        ErrCode::SecretKeyImport => 14u8,
        ErrCode::VcsClone => 15u8,
        ErrCode::Build => 16u8,
        ErrCode::PostProcessor => 17u8,
        ErrCode::RegConflict => 18u8,
        ErrCode::RemoteUnavailable => 19u8,
        ErrCode::Sys => 20u8,
        ErrCode::GroupNotComplete => 21u8,
        ErrCode::PartialJobGroupPromote => 22u8,
    }
}

/// Error code named by a wire tag, if any.
pub open spec fn spec_err_code_of_byte(b: u8) -> Option<ErrCode> {
    if b == 0 {
        Some(ErrCode::Bug)
    } else if b == 1 {
        Some(ErrCode::Timeout)
    } else if b == 2 {
        Some(ErrCode::RemoteRejected)
    } else if b == 3 {
        Some(ErrCode::BadRemoteReply)
    } else if b == 4 {
        Some(ErrCode::EntityNotFound)
    } else if b == 5 {
        Some(ErrCode::NoShard)
    } else if b == 6 {
        Some(ErrCode::AccessDenied)
    } else if b == 7 {
        Some(ErrCode::SessionExpired)
    } else if b == 8 {
        Some(ErrCode::EntityConflict)
    } else if b == 9 {
        Some(ErrCode::Sock)
    } else if b == 10 {
        Some(ErrCode::DataStore)
    } else if b == 11 {
        Some(ErrCode::AuthScope)
    } else if b == 12 {
        Some(ErrCode::WorkspaceSetup)
    } else if b == 13 {
        Some(ErrCode::SecretKeyFetch)
    } else if b == 14 {
        Some(ErrCode::SecretKeyImport)
    } else if b == 15 {
        Some(ErrCode::VcsClone)
    } else if b == 16 {
        Some(ErrCode::Build)
    } else if b == 17 {
        Some(ErrCode::PostProcessor)
    } else if b == 18 {
        Some(ErrCode::RegConflict)
    } else if b == 19 {
        Some(ErrCode::RemoteUnavailable)
    } else if b == 20 {
        Some(ErrCode::Sys)
    } else if b == 21 {
        Some(ErrCode::GroupNotComplete)
    } else if b == 22 {
        Some(ErrCode::PartialJobGroupPromote)
    } else {
        None
    }
}

/// Every error code survives the trip through its wire tag.
pub proof fn lemma_err_code_round_trip(c: ErrCode)
    ensures
        spec_err_code_of_byte(spec_err_code_byte(c)) == Some(c),
{
}

/// Encodes an error code tag.
pub fn err_code_byte(c: ErrCode) -> (b: u8)
    ensures
        b == spec_err_code_byte(c),
{
    match c {
        ErrCode::Bug => 0,
        ErrCode::Timeout => 1,
        ErrCode::RemoteRejected => 2,
        ErrCode::BadRemoteReply => 3,
        ErrCode::EntityNotFound => 4,
        ErrCode::NoShard => 5,
        ErrCode::AccessDenied => 6,
        ErrCode::SessionExpired => 7,
        ErrCode::EntityConflict => 8,
        ErrCode::Sock => 9,
        ErrCode::DataStore => 10,
        ErrCode::AuthScope => 11,
        ErrCode::WorkspaceSetup => 12,
        ErrCode::SecretKeyFetch => 13,
        ErrCode::SecretKeyImport => 14,
        ErrCode::VcsClone => 15,
        ErrCode::Build => 16,
        ErrCode::PostProcessor => 17,
        ErrCode::RegConflict => 18,
        ErrCode::RemoteUnavailable => 19,
        ErrCode::Sys => 20,
        ErrCode::GroupNotComplete => 21,
        ErrCode::PartialJobGroupPromote => 22,
    }
}

/// Decodes an error code tag.
pub fn err_code_of_byte(b: u8) -> (c: Option<ErrCode>)
    ensures
        c == spec_err_code_of_byte(b),
{
    if b == 0 {
        Some(ErrCode::Bug)
    } else if b == 1 {
        Some(ErrCode::Timeout)
    } else if b == 2 {
        Some(ErrCode::RemoteRejected)
    } else if b == 3 {
        Some(ErrCode::BadRemoteReply)
    } else if b == 4 {
        Some(ErrCode::EntityNotFound)
    } else if b == 5 {
        Some(ErrCode::NoShard)
    } else if b == 6 {
        Some(ErrCode::AccessDenied)
    } else if b == 7 {
        Some(ErrCode::SessionExpired)
    } else if b == 8 {
        Some(ErrCode::EntityConflict)
    } else if b == 9 {
        Some(ErrCode::Sock)
    } else if b == 10 {
        Some(ErrCode::DataStore)
    } else if b == 11 {
        Some(ErrCode::AuthScope)
    } else if b == 12 {
        Some(ErrCode::WorkspaceSetup)
    } else if b == 13 {
        Some(ErrCode::SecretKeyFetch)
    } else if b == 14 {
        Some(ErrCode::SecretKeyImport)
    } else if b == 15 {
        Some(ErrCode::VcsClone)
    } else if b == 16 {
        Some(ErrCode::Build)
    } else if b == 17 {
        Some(ErrCode::PostProcessor)
    } else if b == 18 {
        Some(ErrCode::RegConflict)
    } else if b == 19 {
        Some(ErrCode::RemoteUnavailable)
    } else if b == 20 {
        Some(ErrCode::Sys)
    } else if b == 21 {
        Some(ErrCode::GroupNotComplete)
    } else if b == 22 {
        Some(ErrCode::PartialJobGroupPromote)
    } else {
        None
    }
}

/// Byte image of an error reply body: the code's tag then the message text.
pub open spec fn spec_net_error_bytes(code: ErrCode, msg: Seq<char>) -> Seq<u8> {
    seq![spec_err_code_byte(code)] + encode_utf8(msg)
}

/// Encodes an error reply body: the code's tag, then the message's UTF-8
/// bytes.
pub fn encode_net_error(e: &NetError) -> (b: Vec<u8>)
    ensures
        b@ == spec_net_error_bytes(e.code, e.msg@),
{
    let mut b: Vec<u8> = Vec::new();
    b.push(err_code_byte(e.code));
    let mb = e.msg.as_str().as_bytes();
    let mut i: usize = 0;
    while i < mb.len()
        invariant
            i <= mb@.len(),
            b@ == seq![spec_err_code_byte(e.code)] + mb@.take(i as int),
        decreases mb@.len() - i,
    {
        let byte = *slice_index_get(mb, i);
        b.push(byte);
        i = i + 1;
        assert(b@ =~= seq![spec_err_code_byte(e.code)] + mb@.take(i as int));
    }
    proof {
        assert(mb@.take(mb@.len() as int) =~= mb@);
        assert(b@ =~= spec_net_error_bytes(e.code, e.msg@));
    }
    b
}

/// Relies on `String::from_utf8_lossy` of std: applied to valid UTF-8 bytes
/// it returns the string those bytes encode.
#[verifier::external_body]
fn string_of_bytes(b: &[u8]) -> (s: String)
    ensures
        valid_utf8(b@) ==> s@ == decode_utf8(b@),
{
    String::from_utf8_lossy(b).into_owned()
}

/// Relies on `str::from_utf8` of std: it succeeds exactly on valid UTF-8
/// and yields the string those bytes encode.
#[verifier::external_body]
pub(crate) fn utf8_string(b: &[u8]) -> (r: Option<String>)
    ensures
        (r is Some) == valid_utf8(b@),
        r matches Some(s) ==> s@ == decode_utf8(b@),
{
    core::str::from_utf8(b).ok().map(|s| s.to_owned())
}

/// Parses an error reply body.  `None` when the code tag is unknown or the
/// body is empty; the message text is recovered exactly when it is valid
/// UTF-8.
pub fn parse_net_error(b: &Vec<u8>) -> (r: Option<NetError>)
    ensures
        match r {
            Some(e) => b@.len() >= 1 && spec_err_code_of_byte(b@[0]) == Some(e.code) && (
            valid_utf8(b@.skip(1)) ==> e.msg@ == decode_utf8(b@.skip(1))),
            None => b@.len() == 0 || spec_err_code_of_byte(b@[0]) is None,
        },
{
    if b.len() == 0 {
        return None;
    }
    let code = match err_code_of_byte(b[0]) {
        Some(c) => c,
        None => { return None; },
    };
    let msg = string_of_bytes(slice_subrange(b.as_slice(), 1, b.len()));
    proof {
        assert(b@.subrange(1, b@.len() as int) =~= b@.skip(1));
    }
    Some(NetError { code, msg })
}

/// An encoded error reply parses back to its code and message.
pub proof fn lemma_net_error_round_trip(code: ErrCode, msg: Seq<char>)
    ensures
        ({
            let b = spec_net_error_bytes(code, msg);
            &&& b.len() >= 1
            &&& spec_err_code_of_byte(b[0]) == Some(code)
            &&& valid_utf8(b.skip(1))
            &&& decode_utf8(b.skip(1)) == msg
        }),
{
    let b = spec_net_error_bytes(code, msg);
    assert(b.skip(1) =~= encode_utf8(msg));
    encode_utf8_valid_utf8(msg);
    encode_utf8_decode_utf8(msg);
}

/// Message-kind byte string of a registration announcement: `Registration`
/// in ASCII.
pub open spec fn spec_registration_kind() -> Seq<u8> {
    seq![
        0x52u8,
        0x65u8,
        0x67u8,
        0x69u8,
        0x73u8,
        0x74u8,
        0x72u8,
        0x61u8,
        0x74u8,
        0x69u8,
        0x6fu8,
        0x6eu8,
    ]
}

/// The message-kind byte string of a registration announcement.
pub fn registration_kind() -> (k: Vec<u8>)
    ensures
        k@ == spec_registration_kind(),
{
    let mut k: Vec<u8> = Vec::new();
    k.push(0x52);
    k.push(0x65);
    k.push(0x67);
    k.push(0x69);
    k.push(0x73);
    k.push(0x74);
    k.push(0x72);
    k.push(0x61);
    k.push(0x74);
    k.push(0x69);
    k.push(0x6f);
    k.push(0x6e);
    proof {
        assert(k@ =~= spec_registration_kind());
    }
    k
}

/// Message-kind byte string of a heartbeat: `Heartbeat` in ASCII.  Its body
/// is empty.
pub open spec fn spec_heartbeat_kind() -> Seq<u8> {
    seq![0x48u8, 0x65u8, 0x61u8, 0x72u8, 0x74u8, 0x62u8, 0x65u8, 0x61u8, 0x74u8]
}

/// The message-kind byte string of a heartbeat.
pub fn heartbeat_kind() -> (k: Vec<u8>)
    ensures
        k@ == spec_heartbeat_kind(),
{
    let mut k: Vec<u8> = Vec::new();
    k.push(0x48);
    k.push(0x65);
    k.push(0x61);
    k.push(0x72);
    k.push(0x74);
    k.push(0x62);
    k.push(0x65);
    k.push(0x61);
    k.push(0x74);
    proof {
        assert(k@ =~= spec_heartbeat_kind());
    }
    k
}

/// Message-kind byte string of a disconnect notice: `Disconnect` in ASCII.
/// Its body is empty; the protocol left stands in the route info.
pub open spec fn spec_disconnect_kind() -> Seq<u8> {
    seq![0x44u8, 0x69u8, 0x73u8, 0x63u8, 0x6fu8, 0x6eu8, 0x6eu8, 0x65u8, 0x63u8, 0x74u8]
}

/// The message-kind byte string of a disconnect notice.
pub fn disconnect_kind() -> (k: Vec<u8>)
    ensures
        k@ == spec_disconnect_kind(),
{
    let mut k: Vec<u8> = Vec::new();
    k.push(0x44);
    k.push(0x69);
    k.push(0x73);
    k.push(0x63);
    k.push(0x6f);
    k.push(0x6e);
    k.push(0x6e);
    k.push(0x65);
    k.push(0x63);
    k.push(0x74);
    proof {
        assert(k@ =~= spec_disconnect_kind());
    }
    k
}

// ---------------------------------------------------------------------------
// The registration announcement.
// ---------------------------------------------------------------------------

/// Byte image of a shard list: four little-endian bytes per shard.
pub open spec fn spec_shards_bytes(shards: Seq<ShardId>) -> Seq<u8>
    decreases shards.len(),
{
    if shards.len() == 0 {
        Seq::<u8>::empty()
    } else {
        spec_u32_to_le_bytes(shards[0]) + spec_shards_bytes(shards.drop_first())
    }
}

/// Parses a shard list; `None` when the length is not a multiple of four.
pub open spec fn spec_parse_shards(b: Seq<u8>) -> Option<Seq<ShardId>>
    decreases b.len(),
{
    if b.len() == 0 {
        Some(Seq::<ShardId>::empty())
    } else if b.len() < 4 {
        None
    } else {
        match spec_parse_shards(b.skip(4)) {
            None => None,
            Some(rest) => Some(seq![spec_u32_from_le_bytes(b.take(4))] + rest),
        }
    }
}

/// Byte image of a registration body: the protocol tag then the shard list.
pub open spec fn spec_registration_bytes(p: Protocol, shards: Seq<ShardId>) -> Seq<u8> {
    seq![spec_protocol_byte(p)] + spec_shards_bytes(shards)
}

/// Every shard list survives the trip through its byte image.
pub proof fn lemma_shards_round_trip(shards: Seq<ShardId>)
    ensures
        spec_parse_shards(spec_shards_bytes(shards)) == Some(shards),
        spec_shards_bytes(shards).len() == 4 * shards.len(),
    decreases shards.len(),
{
    vstd::bytes::lemma_auto_spec_u32_to_from_le_bytes();
    if shards.len() > 0 {
        let b = spec_shards_bytes(shards);
        lemma_shards_round_trip(shards.drop_first());
        assert(b.take(4) =~= spec_u32_to_le_bytes(shards[0]));
        assert(b.skip(4) =~= spec_shards_bytes(shards.drop_first()));
        assert(spec_parse_shards(b)->0 =~= shards);
    }
}

/// Appending one shard extends the byte image by its four bytes.
proof fn lemma_shards_bytes_snoc(shards: Seq<ShardId>, s: ShardId)
    ensures
        spec_shards_bytes(shards.push(s)) == spec_shards_bytes(shards) + spec_u32_to_le_bytes(s),
    decreases shards.len(),
{
    if shards.len() == 0 {
        assert(shards.push(s).drop_first() =~= shards);
        assert(spec_shards_bytes(shards.push(s)) =~= spec_shards_bytes(shards)
            + spec_u32_to_le_bytes(s));
    } else {
        lemma_shards_bytes_snoc(shards.drop_first(), s);
        assert(shards.push(s).drop_first() =~= shards.drop_first().push(s));
        assert(spec_shards_bytes(shards.push(s)) =~= spec_shards_bytes(shards)
            + spec_u32_to_le_bytes(s));
    }
}

/// Encodes a registration body.
pub fn encode_registration(p: Protocol, shards: &Vec<ShardId>) -> (b: Vec<u8>)
    ensures
        b@ == spec_registration_bytes(p, shards@),
{
    let mut b: Vec<u8> = Vec::new();
    b.push(protocol_byte(p));
    let mut i: usize = 0;
    while i < shards.len()
        invariant
            i <= shards@.len(),
            b@ == seq![spec_protocol_byte(p)] + spec_shards_bytes(shards@.take(i as int)),
        decreases shards@.len() - i,
    {
        let sb = u32_to_le_bytes(shards[i]);
        let mut t: usize = 0;
        while t < 4
            invariant
                t <= 4,
                sb@ == spec_u32_to_le_bytes(shards@[i as int]),
                sb@.len() == 4,
                i < shards@.len(),
                b@ == seq![spec_protocol_byte(p)] + spec_shards_bytes(shards@.take(i as int))
                    + sb@.take(t as int),
            decreases 4 - t,
        {
            b.push(sb[t]);
            t = t + 1;
            assert(b@ =~= seq![spec_protocol_byte(p)] + spec_shards_bytes(
                shards@.take(i as int),
            ) + sb@.take(t as int));
        }
        proof {
            lemma_shards_bytes_snoc(shards@.take(i as int), shards@[i as int]);
            assert(shards@.take(i + 1 as int) =~= shards@.take(i as int).push(
                shards@[i as int],
            ));
            assert(sb@.take(4) =~= sb@);
        }
        i = i + 1;
        assert(b@ =~= seq![spec_protocol_byte(p)] + spec_shards_bytes(shards@.take(i as int)));
    }
    proof {
        assert(shards@.take(shards@.len() as int) =~= shards@);
    }
    b
}

/// Parses a registration body, faithful to the byte schema: `None` when the
/// protocol tag is unknown, the body is empty, or the shard bytes do not
/// divide into fours.
pub fn parse_registration(b: &Vec<u8>) -> (r: Option<(Protocol, Vec<ShardId>)>)
    ensures
        match r {
            Some((p, shards)) => b@.len() >= 1 && spec_protocol_of_byte(b@[0]) == Some(p)
                && spec_parse_shards(b@.skip(1)) == Some(shards@),
            None => b@.len() == 0 || spec_protocol_of_byte(b@[0]) is None || spec_parse_shards(
                b@.skip(1),
            ) is None,
        },
{
    if b.len() == 0 {
        return None;
    }
    let p = match protocol_of_byte(b[0]) {
        Some(p) => p,
        None => { return None; },
    };
    if (b.len() - 1) % 4 != 0 {
        proof {
            lemma_parse_shards_bad_len(b@.skip(1));
        }
        return None;
    }
    proof {
        lemma_parse_shards_good_len(b@.skip(1));
        let all = spec_parse_shards(b@.skip(1))->0;
        assert(Seq::<ShardId>::empty() =~= all.take(0));
    }
    let mut shards: Vec<ShardId> = Vec::new();
    let mut i: usize = 1;
    while i < b.len()
        invariant
            1 <= i <= b@.len(),
            (b@.len() - 1) % 4 == 0,
            (i - 1) % 4 == 0,
            spec_parse_shards(b@.skip(1)) matches Some(all) ==> {
                &&& shards@.len() * 4 == i - 1
                &&& all.len() * 4 == b@.len() - 1
                &&& shards@ == all.take(shards@.len() as int)
            },
            spec_parse_shards(b@.skip(1)) is Some,
        decreases b@.len() - i,
    {
        proof {
            lemma_parse_shards_len(b@.skip(1));
        }
        let s = u32_from_le_bytes(slice_subrange(b.as_slice(), i, i + 4));
        proof {
            let all = spec_parse_shards(b@.skip(1))->0;
            lemma_parse_shards_index(b@.skip(1), shards@.len() as int);
            assert(b@.skip(1).subrange(
                4 * shards@.len() as int,
                4 * shards@.len() as int + 4,
            ) =~= b@.subrange(i as int, i + 4 as int));
            assert(all[shards@.len() as int] == spec_u32_from_le_bytes(
                b@.subrange(i as int, i + 4 as int),
            ));
            assert(shards@.push(all[shards@.len() as int]) =~= all.take(
                shards@.len() as int + 1,
            ));
        }
        shards.push(s);
        i = i + 4;
    }
    proof {
        let all = spec_parse_shards(b@.skip(1))->0;
        assert(shards@ =~= all.take(all.len() as int));
        assert(all.take(all.len() as int) =~= all);
    }
    Some((p, shards))
}

/// A shard byte image whose length divides into fours parses, one shard per
/// four bytes.
proof fn lemma_parse_shards_good_len(b: Seq<u8>)
    requires
        b.len() % 4 == 0,
    ensures
        spec_parse_shards(b) is Some,
        spec_parse_shards(b)->0.len() * 4 == b.len(),
    decreases b.len(),
{
    if b.len() >= 4 {
        lemma_parse_shards_good_len(b.skip(4));
    }
}

/// A shard byte image whose length is not a multiple of four does not parse.
proof fn lemma_parse_shards_bad_len(b: Seq<u8>)
    requires
        b.len() % 4 != 0,
    ensures
        spec_parse_shards(b) is None,
    decreases b.len(),
{
    if b.len() >= 4 {
        lemma_parse_shards_bad_len(b.skip(4));
    }
}

/// A parsed shard list has one shard per four bytes.
proof fn lemma_parse_shards_len(b: Seq<u8>)
    requires
        spec_parse_shards(b) is Some,
    ensures
        spec_parse_shards(b)->0.len() * 4 == b.len(),
    decreases b.len(),
{
    if b.len() >= 4 {
        lemma_parse_shards_len(b.skip(4));
    }
}

/// Each parsed shard reads its own four bytes.
proof fn lemma_parse_shards_index(b: Seq<u8>, i: int)
    requires
        spec_parse_shards(b) is Some,
        0 <= i < spec_parse_shards(b)->0.len(),
    ensures
        spec_parse_shards(b)->0[i] == spec_u32_from_le_bytes(b.subrange(4 * i, 4 * i + 4)),
    decreases i,
{
    lemma_parse_shards_len(b);
    if i == 0 {
        assert(b.take(4) =~= b.subrange(0, 4));
    } else {
        lemma_parse_shards_index(b.skip(4), i - 1);
        assert(b.skip(4).subrange(4 * (i - 1), 4 * (i - 1) + 4) =~= b.subrange(
            4 * i,
            4 * i + 4,
        ));
    }
}

} // verus!
