use animation_graph::error::AnimationError;
use animation_graph::name_map::NameMap;
use animation_graph::number::Number;
use animation_graph::state_graph::{GraphNode, StateGraph, Transition};
use animation_graph::variable_manager::{Condition, Operand};

fn num(value: f32) -> Number {
    Number::from_bits(value.to_bits())
}

fn name(text: &str) -> String {
    text.to_string()
}

fn node(data: &str, transitions: Vec<Transition>) -> GraphNode<String> {
    GraphNode { data: data.to_string(), transitions }
}

fn always(target: &str) -> Transition {
    Transition { target: target.to_string(), conditions: vec![] }
}

fn when(target: &str, condition: Condition) -> Transition {
    Transition { target: target.to_string(), conditions: vec![condition] }
}

fn active(graph: &StateGraph<String>) -> String {
    graph.get_active().0.clone()
}

fn ring(size: usize) -> StateGraph<String> {
    let mut nodes: NameMap<GraphNode<String>> = NameMap::new();
    for i in 0..size {
        let target = format!("N{}", (i + 1) % size);
        nodes.insert(format!("N{}", i), node("A", vec![always(&target)]));
    }
    StateGraph::new(name("N0"), nodes).unwrap()
}

#[test]
fn test_complicated_transitions() {
    let mut nodes: NameMap<GraphNode<String>> = NameMap::default();
    nodes.insert(
        name("Idle"),
        node(
            "A1",
            vec![
                Transition {
                    target: name("Jump"),
                    conditions: vec![
                        Condition::Trigger(name("Jump")),
                        Condition::Eq(name("Grounded"), Operand::Value(num(1.0))),
                    ],
                },
                when("Run", Condition::Gt(name("Speed"), Operand::Variable(name("WalkSpeed")))),
                when("Walk", Condition::Gt(name("Speed"), Operand::Value(num(0.0)))),
            ],
        ),
    );
    nodes.insert(
        name("Walk"),
        node("A2", vec![when("Idle", Condition::Eq(name("Speed"), Operand::Value(num(0.0))))]),
    );
    nodes.insert(
        name("Run"),
        node("A3", vec![when("Walk", Condition::Lt(name("Speed"), Operand::Value(num(2.0))))]),
    );
    nodes.insert(
        name("Jump"),
        node("A4", vec![when("Idle", Condition::Eq(name("Grounded"), Operand::Value(num(1.0))))]),
    );
    let mut graph = StateGraph::new(name("Idle"), nodes).unwrap();
    graph.set_float(name("WalkSpeed"), num(2.0));
    graph.set_float(name("Grounded"), num(1.0));
    graph.set_float(name("Speed"), num(0.0));

    assert_eq!(graph.transition_until_halt(), Ok(false));
    assert_eq!(active(&graph), "Idle");

    graph.set_float(name("Speed"), num(1.0));
    assert_eq!(graph.transition_until_halt(), Ok(true));
    assert_eq!(active(&graph), "Walk");

    graph.set_float(name("Speed"), num(0.0));
    assert_eq!(graph.transition_until_halt(), Ok(true));
    assert_eq!(active(&graph), "Idle");

    // The earlier transition wins where two are enabled.
    graph.set_float(name("Speed"), num(3.0));
    assert_eq!(graph.transition_until_halt(), Ok(true));
    assert_eq!(active(&graph), "Run");

    // Run -> Walk -> halt: Walk leaves only at speed 0.
    graph.set_float(name("Speed"), num(1.0));
    assert_eq!(graph.transition_until_halt(), Ok(true));
    assert_eq!(active(&graph), "Walk");

    // Idle -> Jump by trigger; the trigger is then spent, and Jump -> Idle
    // follows in the same call, where Idle halts.
    graph.set_float(name("Speed"), num(0.0));
    assert_eq!(graph.transition_until_halt(), Ok(true));
    assert_eq!(active(&graph), "Idle");
    graph.set_trigger(name("Jump"));
    assert_eq!(graph.transition_until_halt(), Ok(true));
    assert_eq!(active(&graph), "Idle");
    assert_eq!(graph.transition_until_halt(), Ok(false));

    // In the air the jump is held until the ground is reached.
    graph.set_trigger(name("Jump"));
    graph.set_float(name("Grounded"), num(0.0));
    assert_eq!(graph.transition_until_halt(), Ok(false));
    graph.set_float(name("Grounded"), num(1.0));
    assert_eq!(graph.transition(), true);
    assert_eq!(active(&graph), "Jump");
}

#[test]
fn state_graph_test_simple_transition() {
    let mut nodes: NameMap<GraphNode<String>> = NameMap::default();
    let n1 = GraphNode {
        data: "A1".to_string(),
        transitions: vec![Transition {
            target: "N2".to_string(),
            conditions: vec![Condition::Eq("V1".to_string(), Operand::Value(num(0.0)))],
        }],
    };
    nodes.insert("N1".to_string(), n1);
    let n2 = GraphNode { data: "A2".to_string(), transitions: vec![] };
    nodes.insert("N2".to_string(), n2);
    let mut state_graph = StateGraph::new("N1".to_string(), nodes).unwrap();
    state_graph.set_float("V1".to_string(), num(1.0));

    state_graph.transition_until_halt().unwrap();
    assert_eq!(state_graph.get_active().0.clone(), "N1".to_string());
    state_graph.set_float("V1".to_string(), num(0.0));
    state_graph.transition_until_halt().unwrap();
    assert_eq!(state_graph.get_active().0.clone(), "N2".to_string());
}

#[test]
fn simple_guard_over_two_variables() {
    let mut nodes: NameMap<GraphNode<String>> = NameMap::default();
    let n1 = GraphNode {
        data: "A1".to_string(),
        transitions: vec![Transition {
            target: "N2".to_string(),
            conditions: vec![Condition::Eq(
                "V1".to_string(),
                Operand::Variable("V2".to_string()),
            )],
        }],
    };
    nodes.insert("N1".to_string(), n1);
    let n2 = GraphNode { data: "A2".to_string(), transitions: vec![] };
    nodes.insert("N2".to_string(), n2);
    let mut state_graph = StateGraph::new("N1".to_string(), nodes).unwrap();
    state_graph.set_float("V1".to_string(), num(0.0));
    state_graph.set_float("V2".to_string(), num(1.0));

    assert_eq!(state_graph.transition_until_halt(), Ok(false));
    assert_eq!(state_graph.get_active().0.clone(), "N1".to_string());
    state_graph.set_float("V2".to_string(), num(0.0));
    assert_eq!(state_graph.transition_until_halt(), Ok(true));
    assert_eq!(state_graph.get_active().0.clone(), "N2".to_string());
}

#[test]
fn test_chained_transition() {
    let mut nodes: NameMap<GraphNode<String>> = NameMap::default();
    let n1 = GraphNode {
        data: "A1".to_string(),
        transitions: vec![Transition {
            target: "N2".to_string(),
            conditions: vec![Condition::Eq("V1".to_string(), Operand::Value(num(0.0)))],
        }],
    };
    nodes.insert("N1".to_string(), n1);
    let n2 = GraphNode {
        data: "A2".to_string(),
        transitions: vec![Transition {
            target: "N3".to_string(),
            conditions: vec![Condition::Eq("V1".to_string(), Operand::Value(num(0.0)))],
        }],
    };
    nodes.insert("N2".to_string(), n2);
    let n3 = GraphNode { data: "A3".to_string(), transitions: vec![] };
    nodes.insert("N3".to_string(), n3);
    let mut state_graph = StateGraph::new("N1".to_string(), nodes).unwrap();
    state_graph.set_float("V1".to_string(), num(0.0));

    state_graph.transition_until_halt().unwrap();
    assert_eq!(state_graph.get_active().0.clone(), "N3".to_string());
}

#[test]
fn chained_transition_over_two_variables() {
    let mut nodes: NameMap<GraphNode<String>> = NameMap::new();
    let equal = Condition::Eq(name("V1"), Operand::Variable(name("V2")));
    nodes.insert(name("N1"), node("A1", vec![when("N2", equal.clone())]));
    nodes.insert(name("N2"), node("A2", vec![when("N3", equal)]));
    nodes.insert(name("N3"), node("A3", vec![]));
    let mut graph = StateGraph::new(name("N1"), nodes).unwrap();
    graph.set_float(name("V1"), num(0.0));
    graph.set_float(name("V2"), num(0.0));
    assert_eq!(graph.transition_until_halt(), Ok(true));
    assert_eq!(active(&graph), "N3");
    assert_eq!(graph.get_active().1, "A3");
}

#[test]
fn test_trigger_transitions() {
    let mut nodes: NameMap<GraphNode<String>> = NameMap::default();
    let n1 = GraphNode {
        data: "A1".to_string(),
        transitions: vec![Transition {
            target: "N2".to_string(),
            conditions: vec![Condition::Trigger("T1".to_string())],
        }],
    };
    let n2 = GraphNode { data: "A2".to_string(), transitions: vec![] };
    nodes.insert("N1".to_string(), n1);
    nodes.insert("N2".to_string(), n2);
    let mut state_graph = StateGraph::new("N1".to_string(), nodes).unwrap();

    state_graph.transition_until_halt().unwrap();
    assert_eq!(state_graph.get_active().0.clone(), "N1".to_string());
    state_graph.set_trigger("T1".to_string());
    state_graph.transition_until_halt().unwrap();
    assert_eq!(state_graph.get_active().0.clone(), "N2".to_string());
}

#[test]
fn trigger_is_spent_by_the_first_hop() {
    let mut nodes: NameMap<GraphNode<String>> = NameMap::new();
    let armed = Condition::Trigger(name("T1"));
    nodes.insert(name("N1"), node("A1", vec![when("N2", armed.clone())]));
    nodes.insert(name("N2"), node("A2", vec![when("N1", armed)]));
    let mut graph = StateGraph::new(name("N1"), nodes).unwrap();
    graph.set_trigger(name("T1"));
    assert_eq!(graph.transition_until_halt(), Ok(true));
    assert_eq!(active(&graph), "N2");
    assert_eq!(graph.transition_until_halt(), Ok(false));
    assert_eq!(active(&graph), "N2");
    graph.set_trigger(name("T1"));
    assert_eq!(graph.transition_until_halt(), Ok(true));
    assert_eq!(active(&graph), "N1");
}

#[test]
fn second_resolution_makes_no_transition() {
    let mut nodes: NameMap<GraphNode<String>> = NameMap::new();
    let zero = Condition::Eq(name("V1"), Operand::Value(num(0.0)));
    nodes.insert(name("N1"), node("A1", vec![when("N2", zero.clone())]));
    nodes.insert(name("N2"), node("A2", vec![when("N3", zero)]));
    nodes.insert(name("N3"), node("A3", vec![]));
    let mut graph = StateGraph::new(name("N1"), nodes).unwrap();
    graph.set_float(name("V1"), num(0.0));
    assert_eq!(graph.transition_until_halt(), Ok(true));
    assert_eq!(graph.transition_until_halt(), Ok(false));
    assert_eq!(active(&graph), "N3");
}

#[test]
fn single_transition_makes_one_hop() {
    let mut nodes: NameMap<GraphNode<String>> = NameMap::new();
    nodes.insert(name("N1"), node("A1", vec![always("N2")]));
    nodes.insert(name("N2"), node("A2", vec![always("N3")]));
    nodes.insert(name("N3"), node("A3", vec![]));
    let mut graph = StateGraph::new(name("N1"), nodes).unwrap();
    assert!(graph.transition());
    assert_eq!(active(&graph), "N2");
    assert!(graph.transition());
    assert_eq!(active(&graph), "N3");
    assert!(!graph.transition());
    assert_eq!(active(&graph), "N3");
}

#[test]
fn single_transition_keeps_triggers_armed() {
    let mut nodes: NameMap<GraphNode<String>> = NameMap::new();
    let armed = Condition::Trigger(name("T1"));
    nodes.insert(name("N1"), node("A1", vec![when("N2", armed.clone())]));
    nodes.insert(name("N2"), node("A2", vec![when("N1", armed)]));
    let mut graph = StateGraph::new(name("N1"), nodes).unwrap();
    graph.set_trigger(name("T1"));
    assert!(graph.transition());
    assert!(graph.transition());
    assert_eq!(active(&graph), "N1");
    graph.reset_triggers();
    assert!(!graph.transition());
}

#[test]
fn longest_chain_is_not_a_cycle() {
    let mut nodes: NameMap<GraphNode<String>> = NameMap::new();
    nodes.insert(name("N0"), node("A", vec![always("N1")]));
    nodes.insert(name("N1"), node("A", vec![always("N2")]));
    nodes.insert(name("N2"), node("A", vec![always("N3")]));
    nodes.insert(name("N3"), node("A", vec![]));
    let mut graph = StateGraph::new(name("N0"), nodes).unwrap();
    assert_eq!(graph.transition_until_halt(), Ok(true));
    assert_eq!(active(&graph), "N3");
}

#[test]
fn ring_of_unconditional_transitions_is_a_cycle() {
    for size in 1..5usize {
        let mut graph = ring(size);
        assert_eq!(graph.transition_until_halt(), Err(AnimationError::CycleDetected));
        assert_eq!(active(&graph), "N0");
        assert_eq!(graph.transition_until_halt(), Err(AnimationError::CycleDetected));
    }
}

#[test]
fn cycle_leaves_the_triggers_armed() {
    let mut nodes: NameMap<GraphNode<String>> = NameMap::new();
    nodes.insert(name("N0"), node("A", vec![when("N1", Condition::Trigger(name("T1")))]));
    nodes.insert(name("N1"), node("A", vec![always("N2")]));
    nodes.insert(name("N2"), node("A", vec![always("N1")]));
    let mut graph = StateGraph::new(name("N0"), nodes).unwrap();
    assert_eq!(graph.transition_until_halt(), Ok(false));
    graph.set_trigger(name("T1"));
    assert_eq!(graph.transition_until_halt(), Err(AnimationError::CycleDetected));
    assert_eq!(active(&graph), "N0");
    assert_eq!(graph.transition_until_halt(), Err(AnimationError::CycleDetected));
    graph.reset_triggers();
    assert_eq!(graph.transition_until_halt(), Ok(false));
    assert_eq!(active(&graph), "N0");
}

#[test]
fn cycle_behind_a_trigger_opens_once_the_trigger_is_spent() {
    let mut nodes: NameMap<GraphNode<String>> = NameMap::new();
    let armed = Condition::Trigger(name("T1"));
    nodes.insert(name("N0"), node("A", vec![when("N1", armed.clone())]));
    nodes.insert(name("N1"), node("A", vec![when("N0", armed)]));
    let mut graph = StateGraph::new(name("N0"), nodes).unwrap();
    graph.set_trigger(name("T1"));
    assert_eq!(graph.transition_until_halt(), Ok(true));
    assert_eq!(active(&graph), "N1");
}

#[test]
fn active_node_after_construction_is_the_default() {
    for default in ["N1", "N2", "N3"] {
        let mut nodes: NameMap<GraphNode<String>> = NameMap::new();
        nodes.insert(name("N1"), node("A1", vec![always("N2")]));
        nodes.insert(name("N2"), node("A2", vec![always("N3")]));
        nodes.insert(name("N3"), node("A3", vec![]));
        let graph = StateGraph::new(name(default), nodes).unwrap();
        assert_eq!(active(&graph), default);
        assert_eq!(graph.get_active().1, &format!("A{}", &default[1..]));
        assert!(graph.contains_node(&name("N2")));
        assert!(!graph.contains_node(&name("N4")));
        assert_eq!(graph.nodes().len(), 3);
    }
}

#[test]
fn unknown_default_node_is_refused() {
    let mut nodes: NameMap<GraphNode<String>> = NameMap::new();
    nodes.insert(name("N1"), node("A1", vec![always("N7")]));
    assert!(matches!(
        StateGraph::new(name("N2"), nodes),
        Err(AnimationError::UnknownDefaultNode)
    ));
    let empty: NameMap<GraphNode<String>> = NameMap::new();
    assert!(matches!(StateGraph::new(name("N1"), empty), Err(AnimationError::UnknownDefaultNode)));
}

#[test]
fn dangling_transition_is_refused_at_construction() {
    let mut nodes: NameMap<GraphNode<String>> = NameMap::new();
    nodes.insert(name("N1"), node("A1", vec![always("N2")]));
    nodes.insert(name("N2"), node("A2", vec![always("N1"), always("N3")]));
    assert!(matches!(
        StateGraph::new(name("N1"), nodes),
        Err(AnimationError::UnknownTransitionTarget)
    ));
}

#[test]
fn set_active_overrides_conditions() {
    let mut nodes: NameMap<GraphNode<String>> = NameMap::new();
    nodes.insert(name("N1"), node("A1", vec![]));
    nodes.insert(name("N2"), node("A2", vec![]));
    let mut graph = StateGraph::new(name("N1"), nodes).unwrap();
    assert_eq!(graph.set_active(name("N2")), Ok(()));
    assert_eq!(active(&graph), "N2");
    assert_eq!(graph.set_active(name("N3")), Err(AnimationError::UnknownNode(name("N3"))));
    assert_eq!(active(&graph), "N2");
}

#[test]
fn set_node_inserts_and_replaces() {
    let mut nodes: NameMap<GraphNode<String>> = NameMap::new();
    nodes.insert(name("N1"), node("A1", vec![]));
    let mut graph = StateGraph::new(name("N1"), nodes).unwrap();
    assert_eq!(
        graph.set_node(name("N2"), node("A2", vec![always("N3")])),
        Err(AnimationError::UnknownTransitionTarget)
    );
    assert!(!graph.contains_node(&name("N2")));
    // A node may lead to itself and to nodes already there.
    assert_eq!(graph.set_node(name("N2"), node("A2", vec![always("N2"), always("N1")])), Ok(()));
    assert_eq!(graph.set_node(name("N1"), node("B1", vec![always("N2")])), Ok(()));
    assert_eq!(graph.get_active().1, "B1");
    assert!(graph.transition());
    assert_eq!(active(&graph), "N2");
}

#[test]
fn set_transitions_replaces_the_list() {
    let mut nodes: NameMap<GraphNode<String>> = NameMap::new();
    nodes.insert(name("N1"), node("A1", vec![]));
    nodes.insert(name("N2"), node("A2", vec![]));
    let mut graph = StateGraph::new(name("N1"), nodes).unwrap();
    assert_eq!(
        graph.set_transitions(name("N3"), vec![always("N1")]),
        Err(AnimationError::UnknownNode(name("N3")))
    );
    assert_eq!(
        graph.set_transitions(name("N1"), vec![always("N3")]),
        Err(AnimationError::UnknownTransitionTarget)
    );
    assert_eq!(graph.transition_until_halt(), Ok(false));
    assert_eq!(graph.set_transitions(name("N1"), vec![always("N2")]), Ok(()));
    assert_eq!(graph.get_active().1, "A1");
    assert_eq!(graph.transition_until_halt(), Ok(true));
    assert_eq!(active(&graph), "N2");
    assert_eq!(graph.get_active().1, "A2");
}
