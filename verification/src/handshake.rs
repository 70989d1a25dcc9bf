//! The handshake negotiator.
//!
//! A client opens with twenty bytes: four magic bytes and four version
//! proposals of four bytes each. The server answers with four bytes naming
//! the version it selected, or with nothing at all when the magic is wrong.

use crate::error::StubError;
use vstd::prelude::*;

verus! {

/// Length of a handshake request in bytes.
pub const REQUEST_LEN: usize = 20;

/// Length of a handshake reply in bytes.
pub const REPLY_LEN: usize = 4;

/// Number of version proposals in a handshake request.
pub const SLOT_COUNT: usize = 4;

/// Seconds a client is given to complete the handshake.
pub const HANDSHAKE_TIMEOUT_SECS: u64 = 30;

/// A protocol version.
#[derive(Debug, Clone, Copy, PartialEq, Eq)]
pub struct ProtocolVersion {
    pub major: u8,
    pub minor: u8,
}

/// The outcome of a successful negotiation.
#[derive(Debug, Clone, Copy, PartialEq, Eq)]
pub struct Negotiated {
    /// The version that was selected.
    pub version: ProtocolVersion,
    /// The bytes to send back to the client.
    pub reply: [u8; 4],
}

/// The magic bytes that open every handshake request.
pub open spec fn magic() -> Seq<u8> {
    seq![0x3Cu8, 0x3Cu8, 0x50u8, 0x11u8]
}

/// Whether `request` opens with the magic bytes.
pub open spec fn has_magic(request: Seq<u8>) -> bool {
    request.len() >= 4 && request.subrange(0, 4) == magic()
}

/// The proposal in slot `k` of `request`: the major version is the slot's
/// last byte, the minor version the one before it. The slot's second byte is
/// reserved and its first byte is not read.
pub open spec fn slot(request: Seq<u8>, k: int) -> ProtocolVersion {
    ProtocolVersion { major: request[4 + 4 * k + 3], minor: request[4 + 4 * k + 2] }
}

/// The version the negotiator selects: the first proposal, whatever the
/// others are.
pub open spec fn selected(request: Seq<u8>) -> ProtocolVersion {
    slot(request, 0)
}

/// The reply that names `version`.
pub open spec fn reply_for(version: ProtocolVersion) -> Seq<u8> {
    seq![0u8, 0u8, version.minor, version.major]
}

/// Reads the proposal in slot `k`.
pub fn parse_slot(request: &[u8; 20], k: usize) -> (version: ProtocolVersion)
    requires
        k < SLOT_COUNT,
    ensures
        version == slot(request@, k as int),
{
    let base: usize = 4 + 4 * k;
    let major: u8 = request[base + 3];
    let minor: u8 = request[base + 2];
    ProtocolVersion { major, minor }
}

/// Walks the proposals from the last slot to the first and keeps the one
/// visited last, which is the first slot.
pub fn select_version(request: &[u8; 20]) -> (version: ProtocolVersion)
    ensures
        version == selected(request@),
{
    let mut k: usize = SLOT_COUNT - 1;
    let mut version: ProtocolVersion = parse_slot(request, k);
    while k > 0
        invariant
            k < SLOT_COUNT,
            version == slot(request@, k as int),
        decreases k,
    {
        k = k - 1;
        version = parse_slot(request, k);
    }
    version
}

/// Whether the request opens with the magic bytes.
pub fn check_magic(request: &[u8; 20]) -> (ok: bool)
    ensures
        ok == has_magic(request@),
{
    let ok: bool = request[0] == 0x3C && request[1] == 0x3C && request[2] == 0x50 && request[3]
        == 0x11;
    proof {
        let head = request@.subrange(0, 4);
        if ok {
            assert(head =~= magic());
        } else {
            assert(head[0] == request@[0] && head[1] == request@[1] && head[2] == request@[2]
                && head[3] == request@[3]);
        }
    }
    ok
}

/// Builds the four reply bytes for `version`.
pub fn encode_reply(version: ProtocolVersion) -> (reply: [u8; 4])
    ensures
        reply@ == reply_for(version),
{
    let reply: [u8; 4] = [0u8, 0u8, version.minor, version.major];
    assert(reply@ =~= reply_for(version));
    reply
}

/// Negotiates a protocol version.
///
/// A request with the wrong magic is refused and no reply exists for it.
/// Otherwise the first proposal is selected and the reply names it.
pub fn negotiate(request: &[u8; 20]) -> (outcome: Result<Negotiated, StubError>)
    ensures
        !has_magic(request@) ==> outcome == Err::<Negotiated, StubError>(StubError::MagicMismatch),
        has_magic(request@) ==> outcome is Ok && outcome->Ok_0.version == selected(request@)
            && outcome->Ok_0.reply@ == reply_for(selected(request@)),
{
    if !check_magic(request) {
        return Err(StubError::MagicMismatch);
    }
    let version = select_version(request);
    let reply = encode_reply(version);
    Ok(Negotiated { version, reply })
}

} // verus!
