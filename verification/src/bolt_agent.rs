//! The per-connection session.
//!
//! A session never touches its socket here. Its owner performs the reads,
//! the writes and the waits, tells the session what happened, and carries
//! out what the session answers. The session keeps the cursor into the
//! script and decides every outcome.

use crate::error::{NodeKind, StubError};
use crate::handshake::{has_magic, negotiate, reply_for, selected, Negotiated, ProtocolVersion};
use crate::mapping::Mapping;
use crate::script_parser::script_of;
use crate::stub_engine::{
    branch_count, consumes, encode_record, encodes, kind_of, lemma_fork_takes_first_match,
    lemma_fork_without_match, node_matches, observe, observed, run, taken, taken_from, Message,
    Node, NodeContainer, Resolution, StubEngine,
};
use tokio_util::sync::CancellationToken;
use vstd::prelude::*;

verus! {

/// Seconds the process waits for live sessions after cancellation is
/// signalled.
pub const SHUTDOWN_GRACE_SECS: u64 = 20;

/// `tokio_util::sync::CancellationToken`, carried through as an opaque
/// value: nothing is known of what is inside.
#[verifier::external_type_specification]
#[verifier::external_body]
pub struct ExCancellationToken(tokio_util::sync::CancellationToken);

/// Calls `CancellationToken::is_cancelled`, which reads the flag of the
/// token's node under the node's lock. The answer depends on what other
/// tasks have done to the token and its ancestors, so nothing is claimed of
/// it: two calls on one token may differ. No argument makes the call fail;
/// it panics only on a poisoned lock, which takes an earlier panic inside
/// the token's own code.
#[verifier::external_body]
fn is_cancelled(token: &CancellationToken) -> (cancelled: bool) {
    token.is_cancelled()
}

/// What a session has learned about its client.
#[derive(Debug, Clone, Copy, PartialEq, Eq)]
pub struct AgentState {
    pub authenticated: bool,
}

/// The part of a session that its contracts speak of.
pub struct Session {
    /// The position of the next top-level node to execute.
    pub cursor: nat,
    /// Whether a `HELLO` with scripted credentials has been matched.
    pub authenticated: bool,
}

/// Which of the three contenders of the opening race came in first.
#[derive(Debug, Clone, Copy, PartialEq, Eq)]
pub enum HandshakeRace {
    /// The handshake ran to its end, well or badly.
    Finished(Result<ProtocolVersion, StubError>),
    /// Cancellation was signalled first.
    Cancelled,
    /// The time window closed first.
    TimedOut,
}

/// A response that the script tells the stub to send.
#[derive(Debug, PartialEq)]
pub enum Reply<'a> {
    Success { meta: &'a Mapping },
    Failure { meta: &'a Mapping },
    /// The encoded values of a record, in order.
    Record { fields: Vec<Vec<u8>> },
}

/// What the owner of the socket must do after a step.
#[derive(Debug, PartialEq)]
pub enum Effect<'a> {
    /// The script has been executed to its end.
    Finished,
    /// Nothing: the step neither consumed nor produced anything.
    Idle,
    /// The client message that was shown to the step is consumed.
    Consume,
    /// The response is to be written.
    Send(Reply<'a>),
    /// A timing assertion held; the time of this step is the new checkpoint.
    Checkpoint,
}

/// What a session needs before its next step can be taken.
#[derive(Debug, Clone, Copy, PartialEq, Eq)]
pub enum Demand {
    /// Nothing more: the script has been executed to its end.
    Finished,
    /// The next client message, or the knowledge that none will come.
    Message,
    /// Nothing: the step does not depend on the client.
    Nothing,
}

/// The outcome of the opening race, given whether cancellation was observed
/// once the race was over. A mismatch, a timeout and a cancellation each end
/// the session with their own error; a handshake that went well lets it go
/// on unless cancellation has been observed meanwhile.
pub open spec fn concluded(race: HandshakeRace, cancelled: bool) -> Result<(), StubError> {
    match race {
        HandshakeRace::Cancelled => Err(StubError::ConnectionAborted),
        HandshakeRace::TimedOut => Err(StubError::HandshakeTimeout),
        HandshakeRace::Finished(Err(error)) => Err(error),
        HandshakeRace::Finished(Ok(_)) => if cancelled {
            Err(StubError::ConnectionAborted)
        } else {
            Ok(())
        },
    }
}

/// Whether `node` cannot be matched before the next client message is
/// known. A fork waits for the client if the first of its branches that can
/// match at all does.
pub open spec fn awaits(node: Node) -> bool
    decreases node, 1nat, 0nat,
{
    match node {
        Node::Fork { .. } => awaits_from(node, 0),
        Node::Optional { node: inner } => awaits(*inner),
        _ => consumes(node),
    }
}

/// `awaits` for the branches of `fork` at or after position `from`.
pub open spec fn awaits_from(fork: Node, from: nat) -> bool
    decreases fork, 0nat, branch_count(fork) - from,
{
    if fork is Fork && from < branch_count(fork) {
        awaits(fork->nodes@[from as int]) || (!node_matches(fork->nodes@[from as int], None)
            && awaits_from(fork, from + 1))
    } else {
        false
    }
}

/// What a session at `cursor` in `nodes` needs next.
pub open spec fn demanded(nodes: Seq<NodeContainer>, cursor: nat) -> Demand {
    if cursor >= nodes.len() {
        Demand::Finished
    } else if awaits(nodes[cursor as int].node) {
        Demand::Message
    } else {
        Demand::Nothing
    }
}

/// The session after the step that executed `leaf`, or that skipped an
/// optional when there is no leaf. The cursor moves on by one; matching a
/// `HELLO` whose credentials the script gives marks the client as
/// authenticated.
pub open spec fn after(session: Session, leaf: Option<Node>) -> Session {
    Session {
        cursor: session.cursor + 1,
        authenticated: session.authenticated || (leaf matches Some(Node::Hello { auth, .. })
            && auth is Some),
    }
}

/// The error that reports that `container` did not match `message`.
pub open spec fn violation(container: NodeContainer, message: Option<&Message>) -> StubError {
    StubError::ProtocolViolation {
        line: container.script_line,
        expected: kind_of(container.node),
        actual: observed(message),
    }
}

/// The session that a step on `container` leads to, or the error with which
/// the step fails. `message` is the next client message, none if the client
/// has disconnected; `elapsed` is the time in nanoseconds since the previous
/// checkpoint.
pub open spec fn stepped(
    container: NodeContainer,
    session: Session,
    message: Option<&Message>,
    elapsed: u128,
) -> Result<Session, StubError> {
    match taken(container.node, message) {
        None => if container.node is Optional {
            Ok(after(session, None))
        } else {
            Err(violation(container, message))
        },
        Some(Node::AssertOrder { time }) => if elapsed <= time {
            Ok(after(session, Some(Node::AssertOrder { time })))
        } else {
            Err(StubError::OrderingViolation { line: container.script_line })
        },
        Some(leaf) => Ok(after(session, Some(leaf))),
    }
}

/// Whether `effect` is what executing `leaf` asks of the socket's owner;
/// no leaf stands for an optional that was skipped.
pub open spec fn carries_out(effect: Effect, leaf: Option<Node>) -> bool {
    match leaf {
        None => effect is Idle,
        Some(Node::Success { meta }) => effect matches Effect::Send(Reply::Success { meta: sent })
            && *sent == meta,
        Some(Node::Failure { meta }) => effect matches Effect::Send(Reply::Failure { meta: sent })
            && *sent == meta,
        Some(Node::Record { values }) => effect matches Effect::Send(Reply::Record { fields })
            && encodes(values@, fields@),
        Some(Node::AssertOrder { .. }) => effect is Checkpoint,
        Some(node) => if consumes(node) {
            effect is Consume
        } else {
            effect is Idle
        },
    }
}

/// Whether a step from the session `before` through `nodes` may end in the
/// session `next` with `outcome`, given whether cancellation was observed.
///
/// A cancelled session stops at once and stays as it was. At the end of the
/// script the step says so and changes nothing. Otherwise the node under the
/// cursor decides: on success the session moves on and the effect is that of
/// the leaf that was taken, on an error the session stays as it was.
pub open spec fn advanced(
    nodes: Seq<NodeContainer>,
    before: Session,
    next: Session,
    message: Option<&Message>,
    elapsed: u128,
    cancelled: bool,
    outcome: Result<Effect, StubError>,
) -> bool {
    if cancelled {
        outcome matches Err(StubError::ConnectionAborted) && next == before
    } else if before.cursor >= nodes.len() {
        outcome matches Ok(Effect::Finished) && next == before
    } else {
        let container = nodes[before.cursor as int];
        match stepped(container, before, message, elapsed) {
            Ok(moved) => outcome matches Ok(effect) && next == moved && carries_out(
                effect,
                taken(container.node, message),
            ),
            Err(error) => outcome matches Err(raised) && raised == error && next == before,
        }
    }
}

/// A node that does not wait for the client is matched the same way
/// whatever the client sends, or if it sends nothing at all.
pub proof fn lemma_settled_without_message(node: Node, message: Option<&Message>)
    requires
        !awaits(node),
    ensures
        taken(node, message) == taken(node, None),
    decreases node, 1nat, 0nat,
{
    match node {
        Node::Fork { .. } => {
            lemma_settled_from(node, message, 0);
        },
        Node::Optional { node: inner } => {
            lemma_settled_without_message(*inner, message);
        },
        _ => {},
    }
}

/// `lemma_settled_without_message` for the branches of a fork at or after
/// `from`.
pub proof fn lemma_settled_from(fork: Node, message: Option<&Message>, from: nat)
    requires
        !awaits_from(fork, from),
    ensures
        taken_from(fork, message, from) == taken_from(fork, None, from),
    decreases fork, 0nat, branch_count(fork) - from,
{
    if fork is Fork && from < branch_count(fork) {
        lemma_settled_without_message(fork->nodes@[from as int], message);
        if !node_matches(fork->nodes@[from as int], None) {
            lemma_settled_from(fork, message, from + 1);
        }
    }
}

/// A fork under the cursor none of whose branches matches the traffic ends
/// the step with a protocol violation that names the fork's line.
pub proof fn lemma_unmatched_fork_is_violation(
    container: NodeContainer,
    session: Session,
    message: Option<&Message>,
    elapsed: u128,
)
    requires
        container.node is Fork,
        forall|j: int|
            0 <= j < branch_count(container.node) ==> !node_matches(
                #[trigger] container.node->nodes@[j],
                message,
            ),
    ensures
        stepped(container, session, message, elapsed) == Err::<Session, StubError>(
            StubError::ProtocolViolation {
                line: container.script_line,
                expected: NodeKind::Fork,
                actual: observed(message),
            },
        ),
{
    lemma_fork_without_match(container.node, message);
}

/// A fork under the cursor whose first matching branch is the one at `at`
/// steps exactly as that branch would in its place.
pub proof fn lemma_fork_steps_as_first_match(
    container: NodeContainer,
    session: Session,
    message: Option<&Message>,
    elapsed: u128,
    at: nat,
)
    requires
        container.node is Fork,
        at < branch_count(container.node),
        node_matches(container.node->nodes@[at as int], message),
        forall|j: int|
            0 <= j < at ==> !node_matches(#[trigger] container.node->nodes@[j], message),
    ensures
        taken(container.node, message) == taken(container.node->nodes@[at as int], message),
        stepped(container, session, message, elapsed) == stepped(
            NodeContainer {
                node: container.node->nodes@[at as int],
                script_line: container.script_line,
            },
            session,
            message,
            elapsed,
        ),
{
    lemma_fork_takes_first_match(container.node, message, at);
}

/// An optional under the cursor whose inner node does not match the traffic
/// is passed over: the step succeeds, the cursor moves on by one, nothing
/// else changes, and the only effect that carries the step out is the idle
/// one, which consumes nothing.
pub proof fn lemma_optional_is_skipped(
    container: NodeContainer,
    session: Session,
    message: Option<&Message>,
    elapsed: u128,
)
    requires
        container.node is Optional,
        !node_matches(*container.node->node, message),
    ensures
        stepped(container, session, message, elapsed) == Ok::<Session, StubError>(
            Session { cursor: session.cursor + 1, authenticated: session.authenticated },
        ),
        forall|effect: Effect| #[trigger]
            carries_out(effect, taken(container.node, message)) ==> effect is Idle,
{
}

/// An optional under the cursor whose inner node matches the traffic steps
/// exactly as the inner node would in its place.
pub proof fn lemma_optional_steps_as_inner(
    container: NodeContainer,
    session: Session,
    message: Option<&Message>,
    elapsed: u128,
)
    requires
        container.node is Optional,
        node_matches(*container.node->node, message),
    ensures
        taken(container.node, message) == taken(*container.node->node, message),
        stepped(container, session, message, elapsed) == stepped(
            NodeContainer { node: *container.node->node, script_line: container.script_line },
            session,
            message,
            elapsed,
        ),
{
}

/// A script that holds nothing but its version directive is executed in two
/// steps that ask nothing of the client: the directive is passed without an
/// effect on the wire, and the script is at its end.
pub proof fn lemma_directive_alone(major: u8, minor: u8, session: Session, elapsed: u128)
    requires
        session.cursor == 0,
    ensures
        ({
            let nodes = script_of(major, minor);
            &&& demanded(nodes, 0) == Demand::Nothing
            &&& stepped(nodes[0], session, None, elapsed) == Ok::<Session, StubError>(
                Session { cursor: 1, authenticated: session.authenticated },
            )
            &&& forall|effect: Effect| #[trigger]
                carries_out(effect, taken(nodes[0].node, None)) ==> effect is Idle
            &&& demanded(nodes, 1) == Demand::Finished
        }),
{
}

/// One live connection's run of a script.
#[derive(Debug)]
pub struct BoltAgent {
    ct: CancellationToken,
    state: AgentState,
    cursor: usize,
}

impl View for BoltAgent {
    type V = Session;

    closed spec fn view(&self) -> Session {
        Session { cursor: self.cursor as nat, authenticated: self.state.authenticated }
    }
}

impl BoltAgent {
    /// The cancellation scope of the session.
    pub closed spec fn token(&self) -> CancellationToken {
        self.ct
    }

    /// A session at the start of its script, under the cancellation scope
    /// `ct`.
    pub fn new(ct: CancellationToken) -> (agent: BoltAgent)
        ensures
            agent@ == (Session { cursor: 0, authenticated: false }),
            agent.token() == ct,
    {
        BoltAgent { ct, state: AgentState { authenticated: false }, cursor: 0 }
    }

    /// What the session has learned about its client.
    pub fn state(&self) -> (state: AgentState)
        ensures
            state.authenticated == self@.authenticated,
    {
        self.state
    }

    /// The position of the next top-level node to execute.
    pub fn cursor(&self) -> (cursor: usize)
        ensures
            cursor == self@.cursor,
    {
        self.cursor
    }

    /// Answers a handshake request: the reply to write, or the refusal after
    /// which nothing is written.
    pub fn handshake(&self, request: &[u8; 20]) -> (outcome: Result<Negotiated, StubError>)
        ensures
            !has_magic(request@) ==> outcome == Err::<Negotiated, StubError>(
                StubError::MagicMismatch,
            ),
            has_magic(request@) ==> outcome is Ok && outcome->Ok_0.version == selected(request@)
                && outcome->Ok_0.reply@ == reply_for(selected(request@)),
    {
        negotiate(request)
    }

    /// Settles the opening race when it is known whether cancellation has
    /// been observed.
    pub fn conclude(race: HandshakeRace, cancelled: bool) -> (outcome: Result<(), StubError>)
        ensures
            outcome == concluded(race, cancelled),
    {
        match race {
            HandshakeRace::Cancelled => Err(StubError::ConnectionAborted),
            HandshakeRace::TimedOut => Err(StubError::HandshakeTimeout),
            HandshakeRace::Finished(Err(error)) => Err(error),
            HandshakeRace::Finished(Ok(_)) => if cancelled {
                Err(StubError::ConnectionAborted)
            } else {
                Ok(())
            },
        }
    }

    /// Settles the opening race: the handshake, the cancellation signal and
    /// the time window were raced and `race` says which came in first. The
    /// session's token is asked once more, so a handshake that went well is
    /// still given up if cancellation has been signalled since.
    pub fn run(&self, race: HandshakeRace) -> (outcome: Result<(), StubError>)
        ensures
            outcome == concluded(race, false) || outcome == concluded(race, true),
    {
        let cancelled: bool = is_cancelled(&self.ct);
        Self::conclude(race, cancelled)
    }

    /// What the session needs before its next step can be taken.
    pub fn demand(&self, engine: &StubEngine) -> (demand: Demand)
        ensures
            demand == demanded(engine.nodes@, self@.cursor),
    {
        if self.cursor >= engine.nodes.len() {
            Demand::Finished
        } else if awaits_message(&engine.nodes[self.cursor].node) {
            Demand::Message
        } else {
            Demand::Nothing
        }
    }

    /// Takes one step through `engine` when it is known whether cancellation
    /// has been observed.
    ///
    /// A cancelled session stops at once. At the end of the script the step
    /// reports that and changes nothing. Otherwise the node under the cursor
    /// is matched against `message` and the leaf that was taken is executed;
    /// on an error the session stays as it was.
    pub fn advance<'a>(
        &mut self,
        engine: &'a StubEngine,
        message: Option<&Message>,
        elapsed: u128,
        cancelled: bool,
    ) -> (outcome: Result<Effect<'a>, StubError>)
        ensures
            final(self).token() == old(self).token(),
            advanced(engine.nodes@, old(self)@, final(self)@, message, elapsed, cancelled, outcome),
    {
        if cancelled {
            return Err(StubError::ConnectionAborted);
        }
        if self.cursor >= engine.nodes.len() {
            return Ok(Effect::Finished);
        }
        let container: &'a NodeContainer = &engine.nodes[self.cursor];
        match run(&container.node, message) {
            Resolution::Unmatched => Err(
                StubError::ProtocolViolation {
                    line: container.script_line,
                    expected: container.node.kind(),
                    actual: observe(message),
                },
            ),
            Resolution::Skipped => {
                self.cursor = self.cursor + 1;
                Ok(Effect::Idle)
            },
            Resolution::Taken(leaf) => {
                let effect: Effect<'a> = match leaf {
                    Node::Success { meta } => Effect::Send(Reply::Success { meta }),
                    Node::Failure { meta } => Effect::Send(Reply::Failure { meta }),
                    Node::Record { values } => Effect::Send(
                        Reply::Record { fields: encode_record(values) },
                    ),
                    Node::AssertOrder { time } => {
                        if elapsed > *time {
                            return Err(
                                StubError::OrderingViolation { line: container.script_line },
                            );
                        }
                        Effect::Checkpoint
                    },
                    Node::Hello { auth, .. } => {
                        if auth.is_some() {
                            self.state.authenticated = true;
                        }
                        Effect::Consume
                    },
                    Node::Begin { .. } | Node::Run { .. } | Node::Commit() | Node::Rollback()
                    | Node::Ignored => Effect::Consume,
                    _ => Effect::Idle,
                };
                self.cursor = self.cursor + 1;
                Ok(effect)
            },
        }
    }

    /// Takes one step through `engine`.
    ///
    /// The session's token is asked first, and a session that finds itself
    /// cancelled stops without looking at the script. Whatever the token
    /// says, the outcome is that of `advance` for one of its two answers.
    pub fn step<'a>(
        &mut self,
        engine: &'a StubEngine,
        message: Option<&Message>,
        elapsed: u128,
    ) -> (outcome: Result<Effect<'a>, StubError>)
        ensures
            final(self).token() == old(self).token(),
            advanced(engine.nodes@, old(self)@, final(self)@, message, elapsed, false, outcome)
                || advanced(engine.nodes@, old(self)@, final(self)@, message, elapsed, true, outcome),
    {
        let cancelled: bool = is_cancelled(&self.ct);
        self.advance(engine, message, elapsed, cancelled)
    }
}

/// Whether `node` cannot be matched before the next client message is known.
pub fn awaits_message(node: &Node) -> (waiting: bool)
    ensures
        waiting == awaits(*node),
    decreases node,
{
    match node {
        Node::Fork { nodes } => {
            let mut i: usize = 0;
            while i < nodes.len()
                invariant
                    i <= nodes@.len(),
                    *node == (Node::Fork { nodes: *nodes }),
                    awaits(*node) == awaits_from(*node, i as nat),
                decreases nodes@.len() - i,
            {
                if awaits_message(&nodes[i]) {
                    return true;
                }
                match run(&nodes[i], None) {
                    Resolution::Taken(_) => {
                        return false;
                    },
                    _ => {},
                }
                i += 1;
            }
            false
        },
        Node::Optional { node: inner } => awaits_message(inner),
        Node::Hello { .. } | Node::Begin { .. } | Node::Run { .. } | Node::Commit()
        | Node::Rollback() | Node::Ignored => true,
        _ => false,
    }
}

} // verus!
