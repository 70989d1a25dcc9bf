//! The compiled script and the rules by which one of its nodes is matched
//! against live traffic.

use crate::error::{NodeKind, Observed};
use crate::handshake::ProtocolVersion;
use crate::jolt::{encoded, Value};
use crate::mapping::Mapping;
use vstd::prelude::*;

verus! {

/// A compiled script: its top-level nodes in program order.
#[derive(Debug, PartialEq)]
pub struct StubEngine {
    pub nodes: Vec<NodeContainer>,
}

/// A top-level node together with the script line it was written on.
#[derive(Debug, PartialEq)]
pub struct NodeContainer {
    pub node: Node,
    pub script_line: i32,
}

/// One step of a script.
#[derive(Debug, PartialEq)]
pub enum Node {
    /// The version directive that opens every script.
    Bolt { major: u8, minor: u8 },
    /// Mutually exclusive continuations; the first that matches is taken.
    Fork { nodes: Vec<Node> },
    /// A step that is passed over when the traffic does not match it.
    Optional { node: Box<Node> },
    /// A scripted success response.
    Success { meta: Mapping },
    /// A scripted failure response.
    Failure { meta: Mapping },
    /// The next client message, whatever it is.
    Ignored,
    /// A scripted record response.
    Record { values: Vec<Value> },
    /// An expected `HELLO` request. Credentials are compared only when the
    /// script gives them.
    Hello { auth: Option<Mapping>, meta: Mapping },
    /// An expected `BEGIN` request.
    Begin { meta: Mapping },
    /// An expected `RUN` request.
    Run { query: String, params: Mapping, meta: Mapping },
    /// A bound, in nanoseconds, on the time since the previous checkpoint.
    AssertOrder { time: u128 },
    /// An expected `COMMIT` request.
    Commit(),
    /// An expected `ROLLBACK` request.
    Rollback(),
}

/// A decoded client message.
#[derive(Debug, Clone, PartialEq)]
pub enum Message {
    Hello { auth: Option<Mapping>, meta: Mapping },
    Begin { meta: Mapping },
    Run { query: String, params: Mapping, meta: Mapping },
    Commit,
    Rollback,
    /// A message of a kind no script can reference.
    Other,
}

/// How a node fared against the next client message.
#[derive(Debug, PartialEq)]
pub enum Resolution<'a> {
    /// The node matched; the leaf that is to be executed.
    Taken(&'a Node),
    /// The node is optional and did not match: it is passed over.
    Skipped,
    /// The node did not match.
    Unmatched,
}

/// The version that `nodes` declare: that of the directive in first place,
/// if one stands there.
pub open spec fn declared_version(nodes: Seq<NodeContainer>) -> Option<ProtocolVersion> {
    if nodes.len() > 0 && nodes[0].node is Bolt {
        Some(ProtocolVersion { major: nodes[0].node->major, minor: nodes[0].node->minor })
    } else {
        None
    }
}

impl StubEngine {
    /// The protocol version that the script declares.
    pub fn version(&self) -> (version: Option<ProtocolVersion>)
        ensures
            version == declared_version(self.nodes@),
    {
        if self.nodes.len() == 0 {
            return None;
        }
        match &self.nodes[0].node {
            Node::Bolt { major, minor } => Some(ProtocolVersion { major: *major, minor: *minor }),
            _ => None,
        }
    }
}

/// The kind of `node`.
pub open spec fn kind_of(node: Node) -> NodeKind {
    match node {
        Node::Bolt { .. } => NodeKind::Bolt,
        Node::Fork { .. } => NodeKind::Fork,
        Node::Optional { .. } => NodeKind::Optional,
        Node::Success { .. } => NodeKind::Success,
        Node::Failure { .. } => NodeKind::Failure,
        Node::Ignored => NodeKind::Ignored,
        Node::Record { .. } => NodeKind::Record,
        Node::Hello { .. } => NodeKind::Hello,
        Node::Begin { .. } => NodeKind::Begin,
        Node::Run { .. } => NodeKind::Run,
        Node::AssertOrder { .. } => NodeKind::AssertOrder,
        Node::Commit() => NodeKind::Commit,
        Node::Rollback() => NodeKind::Rollback,
    }
}

/// What the client is seen to do when `message` is what comes next; no
/// message means that the client has disconnected.
pub open spec fn observed(message: Option<&Message>) -> Observed {
    match message {
        None => Observed::Disconnected,
        Some(Message::Hello { .. }) => Observed::Hello,
        Some(Message::Begin { .. }) => Observed::Begin,
        Some(Message::Run { .. }) => Observed::Run,
        Some(Message::Commit) => Observed::Commit,
        Some(Message::Rollback) => Observed::Rollback,
        Some(Message::Other) => Observed::Other,
    }
}

/// Whether the credentials that were sent satisfy the script: a script
/// without credentials accepts any, a script with credentials accepts
/// exactly those.
pub open spec fn auth_accepted(scripted: Option<Mapping>, sent: Option<Mapping>) -> bool {
    match scripted {
        None => true,
        Some(wanted) => sent matches Some(given) && wanted@ == given@,
    }
}

/// Whether `message` is the request that the leaf `node` expects: the same
/// kind, with every scripted field equal.
pub open spec fn is_expected(node: Node, message: Message) -> bool {
    match node {
        Node::Hello { auth, meta } => message matches Message::Hello {
            auth: sent_auth,
            meta: sent_meta,
        } && meta@ == sent_meta@ && auth_accepted(auth, sent_auth),
        Node::Begin { meta } => message matches Message::Begin { meta: sent_meta } && meta@
            == sent_meta@,
        Node::Run { query, params, meta } => message matches Message::Run {
            query: sent_query,
            params: sent_params,
            meta: sent_meta,
        } && query@ == sent_query@ && params@ == sent_params@ && meta@ == sent_meta@,
        Node::Commit() => message is Commit,
        Node::Rollback() => message is Rollback,
        _ => false,
    }
}

/// Whether `node` consumes a client message when it is executed.
pub open spec fn consumes(node: Node) -> bool {
    node is Hello || node is Begin || node is Run || node is Commit || node is Rollback
        || node is Ignored
}

/// Whether the leaf `node` matches when `message` is what comes next.
///
/// A request matches the message it expects. `Ignored` matches any message,
/// but not a disconnect. A node that expects nothing of the client matches
/// whatever comes next. A fork or an optional is no leaf.
pub open spec fn leaf_matches(node: Node, message: Option<&Message>) -> bool {
    match node {
        Node::Fork { .. } | Node::Optional { .. } => false,
        Node::Ignored => message is Some,
        Node::Hello { .. } | Node::Begin { .. } | Node::Run { .. } | Node::Commit()
        | Node::Rollback() => message matches Some(sent) && is_expected(node, *sent),
        _ => true,
    }
}

/// The leaf that is executed when `node` meets `message`, if `node` matches.
///
/// A fork is matched by its first matching branch and an optional by its
/// inner node.
pub open spec fn taken(node: Node, message: Option<&Message>) -> Option<Node>
    decreases node, 1nat, 0nat,
{
    match node {
        Node::Fork { .. } => taken_from(node, message, 0),
        Node::Optional { node: inner } => taken(*inner, message),
        _ => if leaf_matches(node, message) {
            Some(node)
        } else {
            None
        },
    }
}

/// The leaf reached through the first matching branch of `fork` at or after
/// position `from`.
pub open spec fn taken_from(fork: Node, message: Option<&Message>, from: nat) -> Option<Node>
    decreases fork, 0nat, branch_count(fork) - from,
{
    if fork is Fork && from < branch_count(fork) {
        match taken(fork->nodes@[from as int], message) {
            Some(leaf) => Some(leaf),
            None => taken_from(fork, message, from + 1),
        }
    } else {
        None
    }
}

/// The number of branches of a fork; zero for any other node.
pub open spec fn branch_count(node: Node) -> nat {
    match node {
        Node::Fork { nodes } => nodes@.len(),
        _ => 0,
    }
}

/// Whether `node` matches when `message` is what comes next.
pub open spec fn node_matches(node: Node, message: Option<&Message>) -> bool {
    taken(node, message) is Some
}

/// What `run` is to report for `node` and `message`.
pub open spec fn resolves_to(node: Node, message: Option<&Message>, resolution: Resolution) -> bool {
    match resolution {
        Resolution::Taken(leaf) => taken(node, message) == Some(*leaf),
        Resolution::Skipped => node is Optional && !node_matches(node, message),
        Resolution::Unmatched => !(node is Optional) && !node_matches(node, message),
    }
}

/// What is taken is always a leaf, and one that matches the message.
pub proof fn lemma_taken_is_leaf(node: Node, message: Option<&Message>)
    ensures
        taken(node, message) matches Some(leaf) ==> leaf_matches(leaf, message),
    decreases node, 1nat, 0nat,
{
    match node {
        Node::Fork { .. } => {
            lemma_taken_from_is_leaf(node, message, 0);
        },
        Node::Optional { node: inner } => {
            lemma_taken_is_leaf(*inner, message);
        },
        _ => {},
    }
}

/// `lemma_taken_is_leaf` for the branches of a fork at or after `from`.
pub proof fn lemma_taken_from_is_leaf(fork: Node, message: Option<&Message>, from: nat)
    ensures
        taken_from(fork, message, from) matches Some(leaf) ==> leaf_matches(leaf, message),
    decreases fork, 0nat, branch_count(fork) - from,
{
    if fork is Fork && from < branch_count(fork) {
        lemma_taken_is_leaf(fork->nodes@[from as int], message);
        lemma_taken_from_is_leaf(fork, message, from + 1);
    }
}

/// Branches that do not match are passed over: if none of the branches from
/// `from` up to `at` matches and the one at `at` does, the search that starts
/// at `from` takes what the branch at `at` takes.
pub proof fn lemma_fork_search(fork: Node, message: Option<&Message>, from: nat, at: nat)
    requires
        fork is Fork,
        from <= at < branch_count(fork),
        node_matches(fork->nodes@[at as int], message),
        forall|j: int| from <= j < at ==> !node_matches(#[trigger] fork->nodes@[j], message),
    ensures
        taken_from(fork, message, from) == taken(fork->nodes@[at as int], message),
    decreases at - from,
{
    if from < at {
        assert(!node_matches(fork->nodes@[from as int], message));
        lemma_fork_search(fork, message, from + 1, at);
    }
}

/// A fork takes its first matching branch: whatever that branch takes, the
/// fork takes, however many branches behind it would match as well.
pub proof fn lemma_fork_takes_first_match(fork: Node, message: Option<&Message>, at: nat)
    requires
        fork is Fork,
        at < branch_count(fork),
        node_matches(fork->nodes@[at as int], message),
        forall|j: int| 0 <= j < at ==> !node_matches(#[trigger] fork->nodes@[j], message),
    ensures
        node_matches(fork, message),
        taken(fork, message) == taken(fork->nodes@[at as int], message),
{
    lemma_fork_search(fork, message, 0, at);
}

/// A fork none of whose branches at or after `from` matches finds nothing
/// there.
pub proof fn lemma_fork_search_fails(fork: Node, message: Option<&Message>, from: nat)
    requires
        fork is Fork,
        forall|j: int|
            from <= j < branch_count(fork) ==> !node_matches(#[trigger] fork->nodes@[j], message),
    ensures
        taken_from(fork, message, from) is None,
    decreases branch_count(fork) - from,
{
    if from < branch_count(fork) {
        assert(!node_matches(fork->nodes@[from as int], message));
        lemma_fork_search_fails(fork, message, from + 1);
    }
}

/// A fork matches only if one of its branches does.
pub proof fn lemma_fork_without_match(fork: Node, message: Option<&Message>)
    requires
        fork is Fork,
        forall|j: int|
            0 <= j < branch_count(fork) ==> !node_matches(#[trigger] fork->nodes@[j], message),
    ensures
        !node_matches(fork, message),
{
    lemma_fork_search_fails(fork, message, 0);
}

/// Of a fork with the two branches `first` and `second`, traffic that
/// matches `second` but not `first` takes `second`, and traffic that matches
/// neither takes nothing.
pub proof fn lemma_fork_of_two(fork: Node, first: Node, second: Node, message: Option<&Message>)
    requires
        fork is Fork,
        fork->nodes@ == seq![first, second],
        !node_matches(first, message),
    ensures
        taken(fork, message) == taken(second, message),
{
    if node_matches(second, message) {
        lemma_fork_takes_first_match(fork, message, 1);
    } else {
        lemma_fork_without_match(fork, message);
    }
}

/// An optional matches exactly when its inner node does, and then takes what
/// the inner node takes.
pub proof fn lemma_optional_follows_inner(optional: Node, message: Option<&Message>)
    requires
        optional is Optional,
    ensures
        taken(optional, message) == taken(*optional->node, message),
        node_matches(optional, message) == node_matches(*optional->node, message),
{
}

impl Node {
    /// The kind of the node.
    pub fn kind(&self) -> (kind: NodeKind)
        ensures
            kind == kind_of(*self),
    {
        match self {
            Node::Bolt { .. } => NodeKind::Bolt,
            Node::Fork { .. } => NodeKind::Fork,
            Node::Optional { .. } => NodeKind::Optional,
            Node::Success { .. } => NodeKind::Success,
            Node::Failure { .. } => NodeKind::Failure,
            Node::Ignored => NodeKind::Ignored,
            Node::Record { .. } => NodeKind::Record,
            Node::Hello { .. } => NodeKind::Hello,
            Node::Begin { .. } => NodeKind::Begin,
            Node::Run { .. } => NodeKind::Run,
            Node::AssertOrder { .. } => NodeKind::AssertOrder,
            Node::Commit() => NodeKind::Commit,
            Node::Rollback() => NodeKind::Rollback,
        }
    }

    /// Whether `message` is the request that this leaf expects.
    pub fn expects(&self, message: &Message) -> (expected: bool)
        ensures
            expected == is_expected(*self, *message),
    {
        match self {
            Node::Hello { auth, meta } => match message {
                Message::Hello { auth: sent_auth, meta: sent_meta } => {
                    if !meta.same(sent_meta) {
                        false
                    } else {
                        match auth {
                            None => true,
                            Some(wanted) => match sent_auth {
                                None => false,
                                Some(given) => wanted.same(given),
                            },
                        }
                    }
                },
                _ => false,
            },
            Node::Begin { meta } => match message {
                Message::Begin { meta: sent_meta } => meta.same(sent_meta),
                _ => false,
            },
            Node::Run { query, params, meta } => match message {
                Message::Run { query: sent_query, params: sent_params, meta: sent_meta } => {
                    *query == *sent_query && params.same(sent_params) && meta.same(sent_meta)
                },
                _ => false,
            },
            Node::Commit() => match message {
                Message::Commit => true,
                _ => false,
            },
            Node::Rollback() => match message {
                Message::Rollback => true,
                _ => false,
            },
            _ => false,
        }
    }
}

/// What the client is seen to do when `message` is what comes next.
pub fn observe(message: Option<&Message>) -> (seen: Observed)
    ensures
        seen == observed(message),
{
    match message {
        None => Observed::Disconnected,
        Some(Message::Hello { .. }) => Observed::Hello,
        Some(Message::Begin { .. }) => Observed::Begin,
        Some(Message::Run { .. }) => Observed::Run,
        Some(Message::Commit) => Observed::Commit,
        Some(Message::Rollback) => Observed::Rollback,
        Some(Message::Other) => Observed::Other,
    }
}

/// Matches `node` against the next client message, `None` standing for a
/// client that has disconnected.
///
/// The branches of a fork are tried in order and the first that matches is
/// taken; an optional that does not match is skipped. Nothing is consumed
/// here: the caller executes the leaf that was taken.
pub fn run<'a>(node: &'a Node, message: Option<&Message>) -> (resolution: Resolution<'a>)
    ensures
        resolves_to(*node, message, resolution),
    decreases node,
{
    match node {
        Node::Fork { nodes } => {
            let mut i: usize = 0;
            while i < nodes.len()
                invariant
                    i <= nodes@.len(),
                    *node == (Node::Fork { nodes: *nodes }),
                    taken(*node, message) == taken_from(*node, message, i as nat),
                decreases nodes@.len() - i,
            {
                match run(&nodes[i], message) {
                    Resolution::Taken(leaf) => {
                        return Resolution::Taken(leaf);
                    },
                    _ => {},
                }
                i += 1;
            }
            Resolution::Unmatched
        },
        Node::Optional { node: inner } => match run(inner, message) {
            Resolution::Taken(leaf) => Resolution::Taken(leaf),
            _ => Resolution::Skipped,
        },
        Node::Ignored => match message {
            Some(_) => Resolution::Taken(node),
            None => Resolution::Unmatched,
        },
        Node::Hello { .. } | Node::Begin { .. } | Node::Run { .. } | Node::Commit()
        | Node::Rollback() => {
            let matched: bool = match message {
                Some(sent) => node.expects(sent),
                None => false,
            };
            if matched {
                Resolution::Taken(node)
            } else {
                Resolution::Unmatched
            }
        },
        _ => Resolution::Taken(node),
    }
}

/// An engine that holds a single step, which discards one client message.
pub fn create_engine() -> (engine: StubEngine)
    ensures
        engine.nodes@.len() == 1,
        engine.nodes@[0] == (NodeContainer { node: Node::Ignored, script_line: 0 }),
{
    let mut engine = StubEngine { nodes: Vec::new() };
    engine.nodes.push(NodeContainer { node: Node::Ignored, script_line: 0 });
    engine
}

/// Whether `fields` holds the canonical bytes of each of `values`, in order.
pub open spec fn encodes(values: Seq<Value>, fields: Seq<Vec<u8>>) -> bool {
    fields.len() == values.len() && forall|i: int|
        0 <= i < values.len() ==> (#[trigger] fields[i])@ == encoded(values[i])
}

/// Runs each value through the codec, keeping the order.
pub fn encode_record(values: &Vec<Value>) -> (fields: Vec<Vec<u8>>)
    ensures
        encodes(values@, fields@),
{
    let mut fields: Vec<Vec<u8>> = Vec::with_capacity(values.len());
    let mut i: usize = 0;
    while i < values.len()
        invariant
            i <= values@.len(),
            encodes(values@.take(i as int), fields@),
        decreases values@.len() - i,
    {
        fields.push(values[i].encode());
        i += 1;
    }
    assert(values@.take(i as int) =~= values@);
    fields
}

} // verus!
