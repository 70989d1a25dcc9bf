use boltstub::bolt_agent::{
    awaits_message, AgentState, BoltAgent, Demand, Effect, HandshakeRace, Reply,
    SHUTDOWN_GRACE_SECS,
};
use boltstub::error::{NodeKind, Observed, StubError};
use boltstub::handshake::ProtocolVersion;
use boltstub::jolt::Value;
use boltstub::mapping::Mapping;
use boltstub::script_parser::build_engine;
use boltstub::stub_engine::{create_engine, Message, Node, NodeContainer, StubEngine};
use tokio_util::sync::CancellationToken;

fn mapping(pairs: &[(&str, &str)]) -> Mapping {
    let mut m = Mapping::new();
    for (k, v) in pairs {
        m.insert(k.to_string(), v.to_string());
    }
    m
}

fn engine(nodes: Vec<Node>) -> StubEngine {
    let mut containers = Vec::new();
    let mut line = 2;
    for node in nodes {
        containers.push(NodeContainer { node, script_line: line });
        line += 1;
    }
    StubEngine { nodes: containers }
}

fn agent() -> BoltAgent {
    BoltAgent::new(CancellationToken::new())
}

fn run_node(query: &str) -> Node {
    Node::Run { query: query.to_string(), params: Mapping::new(), meta: Mapping::new() }
}

fn run_message(query: &str) -> Message {
    Message::Run { query: query.to_string(), params: Mapping::new(), meta: Mapping::new() }
}

const VERSION: ProtocolVersion = ProtocolVersion { major: 5, minor: 3 };

#[test]
fn grace_period() {
    assert_eq!(SHUTDOWN_GRACE_SECS, 20);
}

#[test]
fn new_agent_starts_unauthenticated_at_the_top() {
    let agent = agent();
    assert_eq!(agent.cursor(), 0);
    assert_eq!(agent.state(), AgentState { authenticated: false });
}

#[test]
fn agent_handshake_negotiates() {
    let agent = agent();
    let bytes: [u8; 20] = [
        60, 60, 80, 17, 0, 3, 3, 5, 0, 2, 4, 4, 0, 0, 0, 0, 0, 0, 0, 0,
    ];
    let done = agent.handshake(&bytes).unwrap();
    assert_eq!(done.reply, [0, 0, 3, 5]);
    assert_eq!(done.version, VERSION);
    let mut wrong = bytes;
    wrong[3] = 18;
    assert_eq!(agent.handshake(&wrong), Err(StubError::MagicMismatch));
}

#[test]
fn conclude_names_each_outcome() {
    for cancelled in [false, true] {
        assert_eq!(
            BoltAgent::conclude(HandshakeRace::Cancelled, cancelled),
            Err(StubError::ConnectionAborted)
        );
        assert_eq!(
            BoltAgent::conclude(HandshakeRace::TimedOut, cancelled),
            Err(StubError::HandshakeTimeout)
        );
        assert_eq!(
            BoltAgent::conclude(HandshakeRace::Finished(Err(StubError::MagicMismatch)), cancelled),
            Err(StubError::MagicMismatch)
        );
        assert_eq!(
            BoltAgent::conclude(HandshakeRace::Finished(Err(StubError::IoFailure)), cancelled),
            Err(StubError::IoFailure)
        );
    }
    assert_eq!(BoltAgent::conclude(HandshakeRace::Finished(Ok(VERSION)), false), Ok(()));
    assert_eq!(
        BoltAgent::conclude(HandshakeRace::Finished(Ok(VERSION)), true),
        Err(StubError::ConnectionAborted)
    );
}

#[test]
fn run_lets_a_good_handshake_pass() {
    let agent = agent();
    assert_eq!(agent.run(HandshakeRace::Finished(Ok(VERSION))), Ok(()));
    assert_eq!(agent.run(HandshakeRace::TimedOut), Err(StubError::HandshakeTimeout));
    assert_eq!(agent.run(HandshakeRace::Cancelled), Err(StubError::ConnectionAborted));
    assert_eq!(
        agent.run(HandshakeRace::Finished(Err(StubError::MagicMismatch))),
        Err(StubError::MagicMismatch)
    );
}

#[test]
fn run_observes_the_token() {
    let token = CancellationToken::new();
    let agent = BoltAgent::new(token.clone());
    assert_eq!(agent.run(HandshakeRace::Finished(Ok(VERSION))), Ok(()));
    token.cancel();
    assert_eq!(
        agent.run(HandshakeRace::Finished(Ok(VERSION))),
        Err(StubError::ConnectionAborted)
    );
    assert_eq!(agent.run(HandshakeRace::TimedOut), Err(StubError::HandshakeTimeout));
}

#[test]
fn run_observes_the_parent_token() {
    let root = CancellationToken::new();
    let agent = BoltAgent::new(root.child_token());
    let sibling = BoltAgent::new(root.child_token());
    assert_eq!(agent.run(HandshakeRace::Finished(Ok(VERSION))), Ok(()));
    root.cancel();
    assert_eq!(
        agent.run(HandshakeRace::Finished(Ok(VERSION))),
        Err(StubError::ConnectionAborted)
    );
    assert_eq!(
        sibling.run(HandshakeRace::Finished(Ok(VERSION))),
        Err(StubError::ConnectionAborted)
    );
}

#[test]
fn step_stops_at_once_when_cancelled() {
    let token = CancellationToken::new();
    let mut agent = BoltAgent::new(token.clone());
    let script = engine(vec![Node::Commit(), Node::Commit()]);
    assert_eq!(agent.step(&script, Some(&Message::Commit), 0), Ok(Effect::Consume));
    token.cancel();
    assert_eq!(agent.step(&script, Some(&Message::Commit), 0), Err(StubError::ConnectionAborted));
    assert_eq!(agent.cursor(), 1);
}

#[test]
fn advance_stops_at_once_when_cancelled() {
    let mut agent = agent();
    let script = engine(vec![Node::Commit()]);
    assert_eq!(
        agent.advance(&script, Some(&Message::Commit), 0, true),
        Err(StubError::ConnectionAborted)
    );
    assert_eq!(agent.cursor(), 0);
    assert_eq!(agent.advance(&script, Some(&Message::Commit), 0, false), Ok(Effect::Consume));
    assert_eq!(agent.cursor(), 1);
}

#[test]
fn directive_alone_completes_without_wire_interaction() {
    let script = build_engine("!: BOLT 1.0").unwrap();
    let mut agent = agent();
    let bytes: [u8; 20] = [
        0x3C, 0x3C, 0x50, 0x11, 1, 2, 3, 4, 5, 6, 7, 8, 9, 10, 11, 12, 13, 14, 15, 16,
    ];
    let done = agent.handshake(&bytes).unwrap();
    assert_eq!(done.reply.len(), 4);
    assert_eq!(done.reply, [0, 0, 3, 4]);
    assert_eq!(agent.run(HandshakeRace::Finished(Ok(done.version))), Ok(()));
    assert_eq!(agent.demand(&script), Demand::Nothing);
    assert_eq!(agent.step(&script, None, 0), Ok(Effect::Idle));
    assert_eq!(agent.demand(&script), Demand::Finished);
    assert_eq!(agent.step(&script, None, 0), Ok(Effect::Finished));
    assert_eq!(agent.cursor(), 1);
}

#[test]
fn requests_are_consumed_in_order() {
    let script = engine(vec![
        Node::Begin { meta: Mapping::new() },
        run_node("RETURN 1"),
        Node::Commit(),
    ]);
    let mut agent = agent();
    assert_eq!(agent.demand(&script), Demand::Message);
    assert_eq!(
        agent.step(&script, Some(&Message::Begin { meta: Mapping::new() }), 0),
        Ok(Effect::Consume)
    );
    assert_eq!(agent.step(&script, Some(&run_message("RETURN 1")), 0), Ok(Effect::Consume));
    assert_eq!(agent.step(&script, Some(&Message::Commit), 0), Ok(Effect::Consume));
    assert_eq!(agent.cursor(), 3);
    assert_eq!(agent.demand(&script), Demand::Finished);
    assert_eq!(agent.step(&script, Some(&Message::Commit), 0), Ok(Effect::Finished));
    assert_eq!(agent.cursor(), 3);
}

#[test]
fn mismatch_is_a_violation_at_the_step_line() {
    let script = engine(vec![Node::Commit(), run_node("RETURN 1")]);
    let mut agent = agent();
    assert_eq!(
        agent.step(&script, Some(&Message::Rollback), 0),
        Err(StubError::ProtocolViolation {
            line: 2,
            expected: NodeKind::Commit,
            actual: Observed::Rollback
        })
    );
    assert_eq!(agent.cursor(), 0);
    assert_eq!(agent.step(&script, Some(&Message::Commit), 0), Ok(Effect::Consume));
    assert_eq!(
        agent.step(&script, Some(&run_message("RETURN 2")), 0),
        Err(StubError::ProtocolViolation {
            line: 3,
            expected: NodeKind::Run,
            actual: Observed::Run
        })
    );
    assert_eq!(agent.cursor(), 1);
}

#[test]
fn disconnect_mid_script_is_a_violation() {
    let script = engine(vec![Node::Commit()]);
    let mut agent = agent();
    assert_eq!(
        agent.step(&script, None, 0),
        Err(StubError::ProtocolViolation {
            line: 2,
            expected: NodeKind::Commit,
            actual: Observed::Disconnected
        })
    );
    let ignoring = create_engine();
    assert_eq!(
        agent.step(&ignoring, None, 0),
        Err(StubError::ProtocolViolation {
            line: 0,
            expected: NodeKind::Ignored,
            actual: Observed::Disconnected
        })
    );
}

#[test]
fn ignored_discards_any_message() {
    let script = create_engine();
    let mut agent = agent();
    assert_eq!(agent.demand(&script), Demand::Message);
    assert_eq!(agent.step(&script, Some(&Message::Other), 0), Ok(Effect::Consume));
    assert_eq!(agent.demand(&script), Demand::Finished);
}

#[test]
fn fork_step_takes_matching_branch() {
    let script = engine(vec![Node::Fork { nodes: vec![run_node("A"), run_node("B")] }]);
    let mut agent = agent();
    assert_eq!(agent.demand(&script), Demand::Message);
    assert_eq!(agent.step(&script, Some(&run_message("B")), 0), Ok(Effect::Consume));
    assert_eq!(agent.cursor(), 1);
}

#[test]
fn fork_step_without_match_is_a_violation_at_the_fork() {
    let script = engine(vec![
        Node::Ignored,
        Node::Fork { nodes: vec![run_node("A"), run_node("B")] },
    ]);
    let mut agent = agent();
    assert_eq!(agent.step(&script, Some(&Message::Other), 0), Ok(Effect::Consume));
    assert_eq!(
        agent.step(&script, Some(&run_message("C")), 0),
        Err(StubError::ProtocolViolation {
            line: 3,
            expected: NodeKind::Fork,
            actual: Observed::Run
        })
    );
    assert_eq!(agent.cursor(), 1);
}

#[test]
fn optional_step_is_skipped_without_consuming() {
    let script = engine(vec![Node::Optional { node: Box::new(Node::Commit()) }, Node::Rollback()]);
    let mut agent = agent();
    assert_eq!(agent.demand(&script), Demand::Message);
    assert_eq!(agent.step(&script, Some(&Message::Rollback), 0), Ok(Effect::Idle));
    assert_eq!(agent.cursor(), 1);
    assert_eq!(agent.step(&script, Some(&Message::Rollback), 0), Ok(Effect::Consume));
    assert_eq!(agent.cursor(), 2);
}

#[test]
fn optional_step_executes_its_inner_node_on_a_match() {
    let script = engine(vec![Node::Optional { node: Box::new(Node::Commit()) }, Node::Rollback()]);
    let mut agent = agent();
    assert_eq!(agent.step(&script, Some(&Message::Commit), 0), Ok(Effect::Consume));
    assert_eq!(agent.cursor(), 1);
}

#[test]
fn optional_fork_without_match_is_no_violation() {
    let script = engine(vec![Node::Optional {
        node: Box::new(Node::Fork { nodes: vec![run_node("A"), run_node("B")] }),
    }]);
    let mut agent = agent();
    assert_eq!(agent.step(&script, Some(&run_message("C")), 0), Ok(Effect::Idle));
    assert_eq!(agent.demand(&script), Demand::Finished);
}

#[test]
fn optional_at_the_end_is_skipped_on_disconnect() {
    let script = engine(vec![Node::Optional { node: Box::new(Node::Ignored) }]);
    let mut agent = agent();
    assert_eq!(agent.step(&script, None, 0), Ok(Effect::Idle));
    assert_eq!(agent.step(&script, None, 0), Ok(Effect::Finished));
}

#[test]
fn responses_are_sent_as_scripted() {
    let script = engine(vec![
        Node::Success { meta: mapping(&[("server", "Neo4j/5.0")]) },
        Node::Record { values: vec![Value::Integer(7), Value::Integer(-1)] },
        Node::Failure { meta: mapping(&[("code", "Neo.ClientError.Statement.SyntaxError")]) },
    ]);
    let mut agent = agent();
    assert_eq!(agent.demand(&script), Demand::Nothing);
    let success = mapping(&[("server", "Neo4j/5.0")]);
    assert_eq!(agent.step(&script, None, 0), Ok(Effect::Send(Reply::Success { meta: &success })));
    assert_eq!(
        agent.step(&script, None, 0),
        Ok(Effect::Send(Reply::Record {
            fields: vec![vec![0, 0, 0, 0, 0, 0, 0, 7], vec![0xFF; 8]]
        }))
    );
    let failure = mapping(&[("code", "Neo.ClientError.Statement.SyntaxError")]);
    assert_eq!(agent.step(&script, None, 0), Ok(Effect::Send(Reply::Failure { meta: &failure })));
    assert_eq!(agent.demand(&script), Demand::Finished);
}

#[test]
fn assert_order_bounds_the_elapsed_time() {
    let script = engine(vec![Node::AssertOrder { time: 1_000_000_000 }, Node::Commit()]);
    let mut agent = agent();
    assert_eq!(agent.demand(&script), Demand::Nothing);
    assert_eq!(
        agent.step(&script, None, 1_000_000_001),
        Err(StubError::OrderingViolation { line: 2 })
    );
    assert_eq!(agent.cursor(), 0);
    assert_eq!(agent.step(&script, None, 1_000_000_000), Ok(Effect::Checkpoint));
    assert_eq!(agent.cursor(), 1);
    let mut other = BoltAgent::new(CancellationToken::new());
    assert_eq!(other.step(&script, None, 0), Ok(Effect::Checkpoint));
    let mut late = BoltAgent::new(CancellationToken::new());
    assert_eq!(
        late.step(&script, None, u128::MAX),
        Err(StubError::OrderingViolation { line: 2 })
    );
}

#[test]
fn hello_with_scripted_credentials_authenticates() {
    let auth = mapping(&[("scheme", "basic"), ("principal", "neo4j")]);
    let script = engine(vec![
        Node::Hello { auth: None, meta: Mapping::new() },
        Node::Hello { auth: Some(auth.clone()), meta: Mapping::new() },
    ]);
    let mut agent = agent();
    let hello = Message::Hello { auth: Some(auth.clone()), meta: Mapping::new() };
    assert_eq!(agent.step(&script, Some(&hello), 0), Ok(Effect::Consume));
    assert_eq!(agent.state(), AgentState { authenticated: false });
    let wrong = Message::Hello { auth: Some(mapping(&[("scheme", "none")])), meta: Mapping::new() };
    assert_eq!(
        agent.step(&script, Some(&wrong), 0),
        Err(StubError::ProtocolViolation {
            line: 3,
            expected: NodeKind::Hello,
            actual: Observed::Hello
        })
    );
    assert_eq!(agent.state(), AgentState { authenticated: false });
    assert_eq!(agent.step(&script, Some(&hello), 0), Ok(Effect::Consume));
    assert_eq!(agent.state(), AgentState { authenticated: true });
}

#[test]
fn version_node_is_passed_without_effect() {
    let script = engine(vec![Node::Bolt { major: 4, minor: 4 }, Node::Commit()]);
    let mut agent = agent();
    assert_eq!(agent.demand(&script), Demand::Nothing);
    assert_eq!(agent.step(&script, None, 0), Ok(Effect::Idle));
    assert_eq!(agent.demand(&script), Demand::Message);
}

#[test]
fn awaits_message_follows_the_first_branch_that_can_match() {
    assert!(awaits_message(&Node::Commit()));
    assert!(awaits_message(&Node::Ignored));
    assert!(!awaits_message(&Node::Success { meta: Mapping::new() }));
    assert!(!awaits_message(&Node::AssertOrder { time: 0 }));
    assert!(!awaits_message(&Node::Fork { nodes: vec![] }));
    assert!(awaits_message(&Node::Optional { node: Box::new(Node::Commit()) }));
    assert!(awaits_message(&Node::Fork { nodes: vec![Node::Commit(), Node::Ignored] }));
    assert!(!awaits_message(&Node::Fork {
        nodes: vec![Node::Success { meta: Mapping::new() }, Node::Commit()]
    }));
    assert!(awaits_message(&Node::Fork {
        nodes: vec![Node::Fork { nodes: vec![] }, Node::Commit()]
    }));
}

#[test]
fn sessions_share_a_script_without_interference() {
    let script = engine(vec![Node::Commit(), Node::Rollback()]);
    let mut first = agent();
    let mut second = agent();
    assert_eq!(first.step(&script, Some(&Message::Commit), 0), Ok(Effect::Consume));
    assert_eq!(second.cursor(), 0);
    assert!(second.step(&script, Some(&Message::Rollback), 0).is_err());
    assert_eq!(first.step(&script, Some(&Message::Rollback), 0), Ok(Effect::Consume));
    assert_eq!(second.step(&script, Some(&Message::Commit), 0), Ok(Effect::Consume));
    assert_eq!(first.cursor(), 2);
    assert_eq!(second.cursor(), 1);
}
