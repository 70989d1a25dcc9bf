//! The error taxonomy shared by every component.

use vstd::prelude::*;

verus! {

/// The kind of a script node, as named in diagnostics.
#[derive(Debug, Clone, Copy, PartialEq, Eq)]
pub enum NodeKind {
    Bolt,
    Fork,
    Optional,
    Success,
    Failure,
    Ignored,
    Record,
    Hello,
    Begin,
    Run,
    AssertOrder,
    Commit,
    Rollback,
}

/// What the client was seen to do when a step was evaluated.
#[derive(Debug, Clone, Copy, PartialEq, Eq)]
pub enum Observed {
    Hello,
    Begin,
    Run,
    Commit,
    Rollback,
    /// A message of a kind no script can reference.
    Other,
    /// The client closed the connection before sending another message.
    Disconnected,
}

/// Why a byte sequence could not be decoded into a value.
#[derive(Debug, Clone, Copy, PartialEq, Eq)]
pub enum CodecReason {
    /// The type tag names no known value kind.
    UnknownTag { tag: u8 },
    /// The payload does not have the width its kind prescribes.
    WrongWidth { expected: usize, actual: usize },
}

/// Every way a script load or a session can fail.
#[derive(Debug, Clone, Copy, PartialEq, Eq)]
pub enum StubError {
    /// The handshake request did not start with the protocol's magic bytes.
    MagicMismatch,
    /// The handshake did not complete inside its time window.
    HandshakeTimeout,
    /// The script text is not a valid script; `line` is 1-based.
    CompileError { line: i32 },
    /// The client deviated from the script at the step written on `line`.
    ProtocolViolation { line: i32, expected: NodeKind, actual: Observed },
    /// A value could not be decoded.
    CodecError { reason: CodecReason },
    /// A timing assertion written on `line` did not hold.
    OrderingViolation { line: i32 },
    /// The session was cancelled.
    ConnectionAborted,
    /// The transport failed.
    IoFailure,
}

} // verus!
