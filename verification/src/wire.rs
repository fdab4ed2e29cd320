//! The length-prefixed frames exchanged with the dashboard, and the decisions
//! of the client's pull loop: a frame is a big-endian `u32` length followed
//! by that many bytes of JSON.

use vstd::prelude::*;
use crate::text::{chars_eq, chars_of, decimal, extend_str, push_decimal, string_of};

verus! {

broadcast use vstd::string::group_string_axioms;

/// The largest frame accepted, in bytes (128 MiB).
pub const MAX_FRAME_LEN: u32 = 134217728;

/// The number a big-endian four-byte header holds.
pub open spec fn be_value(h: Seq<u8>) -> nat {
    (h[0] as nat) * 16777216 + (h[1] as nat) * 65536 + (h[2] as nat) * 256 + (h[3] as nat)
}

/// The length a frame header announces (`u32::from_be_bytes`).
pub fn frame_len(header: [u8; 4]) -> (n: u32)
    ensures
        n == be_value(header@),
{
    let b0 = header[0] as u32;
    let b1 = header[1] as u32;
    let b2 = header[2] as u32;
    let b3 = header[3] as u32;
    assert(b0 * 16777216 + b1 * 65536 + b2 * 256 + b3 <= u32::MAX) by (nonlinear_arith)
        requires
            b0 <= 255,
            b1 <= 255,
            b2 <= 255,
            b3 <= 255,
    ;
    b0 * 16777216 + b1 * 65536 + b2 * 256 + b3
}

/// The message for a frame longer than allowed.
pub open spec fn too_large_message(len: nat) -> Seq<char> {
    "frame too large: "@ + decimal(len) + " bytes"@
}

/// Checks a frame header: the payload length it announces, or the error for
/// one longer than `MAX_FRAME_LEN`.
pub fn check_frame_header(header: [u8; 4]) -> (r: Result<u32, String>)
    ensures
        be_value(header@) <= MAX_FRAME_LEN ==> r == Ok::<u32, String>(be_value(header@) as u32),
        be_value(header@) > MAX_FRAME_LEN ==> (r matches Err(m) && m@ == too_large_message(
            be_value(header@),
        )),
{
    let len = frame_len(header);
    if len > MAX_FRAME_LEN {
        let mut m = chars_of("frame too large: ");
        push_decimal(&mut m, len as u64);
        extend_str(&mut m, " bytes");
        return Err(string_of(&m));
    }
    Ok(len)
}

/// The big-endian header for a payload of `len` bytes, or the error for one
/// too long for a `u32` prefix.
pub fn frame_prefix(len: usize) -> (r: Result<[u8; 4], String>)
    ensures
        len > u32::MAX ==> (r matches Err(m) && m@ == "frame exceeds u32 length prefix"@),
        len <= u32::MAX ==> (r matches Ok(h) && be_value(h@) == len),
{
    if len > 0xffff_ffffusize {
        return Err("frame exceeds u32 length prefix".to_owned());
    }
    let n = len as u32;
    let h: [u8; 4] = [(n / 16777216) as u8, ((n / 65536) % 256) as u8, ((n / 256) % 256) as u8, (n
        % 256) as u8];
    assert(be_value(h@) == n) by {
        assert(h@[0] == n / 16777216);
        assert(h@[1] == (n / 65536) % 256);
        assert(h@[2] == (n / 256) % 256);
        assert(h@[3] == n % 256);
        assert((n / 16777216) * 16777216 + ((n / 65536) % 256) * 65536 + ((n / 256) % 256) * 256
            + n % 256 == n) by (nonlinear_arith);
    }
    Ok(h)
}

/// Law: a header written for a payload that fits announces the payload's
/// length, and is accepted as such when the payload is within the limit.
pub proof fn lemma_frame_round_trip(h: Seq<u8>, len: nat)
    requires
        h.len() == 4,
        be_value(h) == len,
        len <= MAX_FRAME_LEN,
    ensures
        be_value(h) <= MAX_FRAME_LEN,
        be_value(h) as u32 == len,
{
}

/// A snapshot request from the dashboard, as far as the client reads it.
pub struct SnapshotRequestHead {
    pub msg_type: String,
    pub snapshot_id: i64,
}

/// What the pull loop has just read.
pub enum PullEvent {
    /// A frame header.
    Header([u8; 4]),
    /// A frame payload, decoded as a snapshot request, or `None` when it did
    /// not decode.
    Payload(Option<SnapshotRequestHead>),
}

/// What the pull loop does next.
pub enum PullAction {
    /// Read a payload of this many bytes.
    ReadPayload(u32),
    /// End the connection with this error.
    Fail(String),
    /// Ignore the frame and read the next header.
    Skip,
    /// Collect the graph and reply to this snapshot.
    Reply(i64),
}

/// The pull loop's decision on what it has just read: an oversized frame
/// ends the connection, an undecodable payload or a message of another type
/// is skipped, and a snapshot request is answered.
pub fn pull_step(event: PullEvent) -> (a: PullAction)
    ensures
        match event {
            PullEvent::Header(h) => if be_value(h@) <= MAX_FRAME_LEN {
                a == PullAction::ReadPayload(be_value(h@) as u32)
            } else {
                a matches PullAction::Fail(m) && m@ == too_large_message(be_value(h@))
            },
            PullEvent::Payload(None) => a is Skip,
            PullEvent::Payload(Some(req)) => if req.msg_type@ == "snapshot_request"@ {
                a == PullAction::Reply(req.snapshot_id)
            } else {
                a is Skip
            },
        },
{
    match event {
        PullEvent::Header(h) => match check_frame_header(h) {
            Ok(n) => PullAction::ReadPayload(n),
            Err(m) => PullAction::Fail(m),
        },
        PullEvent::Payload(None) => PullAction::Skip,
        PullEvent::Payload(Some(req)) => {
            let t = chars_of(req.msg_type.as_str());
            if chars_eq(&t, &chars_of("snapshot_request")) {
                PullAction::Reply(req.snapshot_id)
            } else {
                PullAction::Skip
            }
        },
    }
}

} // verus!
