//! The state graph: nodes, prioritized transitions, and transition resolution.

use crate::error::AnimationError;
use crate::name_map::NameMap;
use crate::number::Number;
use crate::variable_manager::{
    all_hold, condition_views, Condition, ConditionView, VariableManager, Variables,
};
use vstd::prelude::*;

verus! {

/// A transition, with names as sequences of characters.
pub struct TransitionView {
    pub target: Seq<char>,
    pub conditions: Seq<ConditionView>,
}

impl TransitionView {
    /// Whether every condition of the transition holds in `variables`.
    pub open spec fn enabled(self, variables: Variables) -> bool {
        all_hold(self.conditions, variables)
    }
}

/// Whether `index` is the first of `transitions` that is enabled in `variables`.
pub open spec fn is_first_enabled(
    transitions: Seq<TransitionView>,
    variables: Variables,
    index: int,
) -> bool {
    &&& 0 <= index < transitions.len()
    &&& transitions[index].enabled(variables)
    &&& forall|earlier: int|
        0 <= earlier < index ==> !(#[trigger] transitions[earlier]).enabled(variables)
}

/// The index of the first of `transitions` that is enabled in `variables`, if any is.
pub open spec fn first_enabled(transitions: Seq<TransitionView>, variables: Variables) -> Option<
    int,
> {
    if exists|index: int| is_first_enabled(transitions, variables, index) {
        Some(choose|index: int| is_first_enabled(transitions, variables, index))
    } else {
        None
    }
}

/// Whether every one of `transitions` leads to one of `names`.
pub open spec fn targets_within(transitions: Seq<TransitionView>, names: Set<Seq<char>>) -> bool {
    forall|i: int| 0 <= i < transitions.len() ==> names.contains((#[trigger] transitions[i]).target)
}

/// The index that is first enabled is the one that `first_enabled` gives.
pub proof fn lemma_first_enabled_is(
    transitions: Seq<TransitionView>,
    variables: Variables,
    index: int,
)
    requires
        is_first_enabled(transitions, variables, index),
    ensures
        first_enabled(transitions, variables) == Some(index),
{
    let chosen = choose|i: int| is_first_enabled(transitions, variables, i);
    assert(is_first_enabled(transitions, variables, chosen));
    if chosen < index {
        assert(!transitions[chosen].enabled(variables));
    }
    if index < chosen {
        assert(!transitions[index].enabled(variables));
    }
}

/// Where no transition is enabled, `first_enabled` gives none.
pub proof fn lemma_first_enabled_none(transitions: Seq<TransitionView>, variables: Variables)
    requires
        forall|i: int|
            0 <= i < transitions.len() ==> !(#[trigger] transitions[i]).enabled(variables),
    ensures
        first_enabled(transitions, variables) is None,
{
}

/// Where some transition is enabled, there is a first one that is.
pub proof fn lemma_first_enabled_exists(
    transitions: Seq<TransitionView>,
    variables: Variables,
    index: int,
)
    requires
        0 <= index < transitions.len(),
        transitions[index].enabled(variables),
    ensures
        first_enabled(transitions, variables) is Some,
    decreases index,
{
    if exists|earlier: int| 0 <= earlier < index && transitions[earlier].enabled(variables) {
        let earlier = choose|earlier: int|
            0 <= earlier < index && transitions[earlier].enabled(variables);
        lemma_first_enabled_exists(transitions, variables, earlier);
    } else {
        assert(is_first_enabled(transitions, variables, index));
    }
}

/// A node, with names as sequences of characters.
pub struct NodeView<T> {
    pub data: T,
    pub transitions: Seq<TransitionView>,
}

/// The views of the nodes of `nodes`, under the same names.
pub open spec fn node_views<T>(nodes: Map<Seq<char>, GraphNode<T>>) -> Map<Seq<char>, NodeView<T>> {
    Map::new(|name: Seq<char>| nodes.contains_key(name), |name: Seq<char>| nodes[name]@)
}

/// Whether every transition of every node of `nodes` leads to a node of `nodes`.
pub open spec fn targets_known<T>(nodes: Map<Seq<char>, NodeView<T>>) -> bool {
    forall|name: Seq<char>|
        nodes.contains_key(name) ==> targets_within(
            (#[trigger] nodes[name]).transitions,
            nodes.dom(),
        )
}

/// A state graph as a value: its nodes by name, the name of the active
/// node, and the variables that its conditions read.
pub struct GraphView<T> {
    pub nodes: Map<Seq<char>, NodeView<T>>,
    pub active: Seq<char>,
    pub variables: Variables,
}

impl<T> GraphView<T> {
    /// The graph has finitely many nodes, the active node is one of them,
    /// and every transition leads to one of them.
    pub open spec fn wf(self) -> bool {
        &&& self.nodes.dom().finite()
        &&& self.nodes.contains_key(self.active)
        &&& targets_known(self.nodes)
    }

    /// The active node.
    pub open spec fn active_node(self) -> NodeView<T> {
        self.nodes[self.active]
    }

    /// The graph with `name` as its active node.
    pub open spec fn with_active(self, name: Seq<char>) -> GraphView<T> {
        GraphView { active: name, ..self }
    }

    /// The graph with `variables` as its variables.
    pub open spec fn with_variables(self, variables: Variables) -> GraphView<T> {
        GraphView { variables, ..self }
    }

    /// The graph after one attempt at a transition that succeeds: the
    /// target of the first enabled transition of the active node is
    /// active. None where no transition of the active node is enabled.
    pub open spec fn hop(self) -> Option<GraphView<T>> {
        match first_enabled(self.active_node().transitions, self.variables) {
            Some(index) => Some(self.with_active(self.active_node().transitions[index].target)),
            None => None,
        }
    }

    /// The graph in which up to `attempts` attempts at a transition come to
    /// a halt: the one before the first attempt that fails. None where
    /// each of the `attempts` attempts succeeds.
    pub open spec fn settle(self, attempts: nat) -> Option<GraphView<T>>
        decreases attempts,
    {
        if attempts == 0 {
            None
        } else {
            match self.hop() {
                None => Some(self),
                Some(next) => next.settle((attempts - 1) as nat),
            }
        }
    }

    /// What resolving the transitions of the graph leaves and returns.
    ///
    /// Where no transition of the active node is enabled, the graph stays
    /// as it is and the result is `Ok(false)`. Else the first hop is taken
    /// and all triggers are disarmed; then as many further attempts are
    /// made as the graph has nodes. Where one of them fails, the graph
    /// halts there and the result is `Ok(true)`. Where all succeed, the
    /// graph stays as it was before the first hop, triggers included, and
    /// the result is `Err(CycleDetected)`.
    pub open spec fn resolve(self) -> (GraphView<T>, Result<bool, AnimationError>) {
        match self.hop() {
            None => (self, Ok(false)),
            Some(first) => match first.with_variables(self.variables.without_triggers()).settle(
                self.nodes.len(),
            ) {
                Some(halted) => (halted, Ok(true)),
                None => (self, Err(AnimationError::CycleDetected)),
            },
        }
    }
}

impl<T> GraphView<T> {
    /// A hop leads to a node of the graph and changes nothing but the
    /// active node.
    pub proof fn lemma_hop(self)
        requires
            self.wf(),
            self.hop() is Some,
        ensures
            self.hop().unwrap().wf(),
            self.hop().unwrap().nodes == self.nodes,
            self.hop().unwrap().variables == self.variables,
    {
        let transitions = self.active_node().transitions;
        assert(targets_within(transitions, self.nodes.dom()));
    }

    /// Where the attempts come to a halt, they halt in a graph with the
    /// same nodes and variables in which no transition of the active node
    /// is enabled.
    pub proof fn lemma_settle(self, attempts: nat)
        requires
            self.wf(),
            self.settle(attempts) is Some,
        ensures
            self.settle(attempts).unwrap().wf(),
            self.settle(attempts).unwrap().nodes == self.nodes,
            self.settle(attempts).unwrap().variables == self.variables,
            self.settle(attempts).unwrap().hop() is None,
        decreases attempts,
    {
        if attempts > 0 && self.hop() is Some {
            self.lemma_hop();
            self.hop().unwrap().lemma_settle((attempts - 1) as nat);
        }
    }

    /// Resolution changes the active node and the triggers at most: the
    /// nodes and the values of the variables stay, and the graph stays
    /// well formed.
    pub proof fn lemma_resolve_keeps(self)
        requires
            self.wf(),
        ensures
            self.resolve().0.wf(),
            self.resolve().0.nodes == self.nodes,
            self.resolve().0.variables.floats == self.variables.floats,
            self.resolve().1 is Ok || self.resolve().1 == Err::<bool, AnimationError>(
                AnimationError::CycleDetected,
            ),
            !(self.resolve().1 == Ok::<bool, AnimationError>(true)) ==> self.resolve().0 == self,
            self.resolve().1 == Ok::<bool, AnimationError>(true) ==> self.resolve().0.variables
                == self.variables.without_triggers(),
    {
        if self.hop() is Some {
            self.lemma_hop();
            let first = self.hop().unwrap().with_variables(self.variables.without_triggers());
            if first.settle(self.nodes.len()) is Some {
                first.lemma_settle(self.nodes.len());
            }
        }
    }

    /// Resolution is idempotent: once it has come to a halt, resolving
    /// again with the variables unchanged makes no transition and leaves
    /// the graph as it is.
    pub proof fn lemma_resolve_idempotent(self)
        requires
            self.wf(),
            self.resolve().1 is Ok,
        ensures
            self.resolve().0.resolve() == (self.resolve().0, Ok::<bool, AnimationError>(false)),
    {
        if self.hop() is Some {
            self.lemma_hop();
            let first = self.hop().unwrap().with_variables(self.variables.without_triggers());
            first.lemma_settle(self.nodes.len());
        }
    }

    /// Triggers fire once: after a resolution that made a transition no
    /// trigger is armed, so a transition that has a trigger among its
    /// conditions is not enabled until a trigger is armed again, whatever
    /// values the variables take.
    pub proof fn lemma_triggers_fire_once(self, transition: TransitionView, index: int)
        requires
            self.wf(),
            self.resolve().1 == Ok::<bool, AnimationError>(true),
            0 <= index < transition.conditions.len(),
            transition.conditions[index] is Trigger,
        ensures
            self.resolve().0.variables.triggers == Set::<Seq<char>>::empty(),
            forall|variables: Variables|
                variables.triggers == self.resolve().0.variables.triggers ==> !transition.enabled(
                    variables,
                ),
    {
        self.lemma_resolve_keeps();
        assert forall|variables: Variables|
            variables.triggers == self.resolve().0.variables.triggers implies !transition.enabled(
            variables,
        ) by {
            assert(!transition.conditions[index].holds(variables));
        }
    }

    /// The graph after `count` hops in a row; none where one of them fails.
    pub open spec fn walk(self, count: nat) -> Option<GraphView<T>>
        decreases count,
    {
        if count == 0 {
            Some(self)
        } else {
            match self.hop() {
                None => None,
                Some(next) => next.walk((count - 1) as nat),
            }
        }
    }

    /// A walk stays among the nodes of the graph and changes nothing but
    /// the active node.
    pub proof fn lemma_walk(self, count: nat)
        requires
            self.wf(),
            self.walk(count) is Some,
        ensures
            self.walk(count).unwrap().wf(),
            self.walk(count).unwrap().nodes == self.nodes,
            self.walk(count).unwrap().variables == self.variables,
        decreases count,
    {
        if count > 0 {
            self.lemma_hop();
            self.hop().unwrap().lemma_walk((count - 1) as nat);
        }
    }

    /// A walk of `first + second` hops is a walk of `first` hops followed
    /// by one of `second` hops.
    pub proof fn lemma_walk_split(self, first: nat, second: nat)
        ensures
            self.walk(first + second) == match self.walk(first) {
                Some(middle) => middle.walk(second),
                None => None,
            },
        decreases first,
    {
        if first > 0 && self.hop() is Some {
            self.hop().unwrap().lemma_walk_split((first - 1) as nat, second);
            assert((first + second - 1) as nat == (first - 1) as nat + second);
        }
    }

    /// The attempts come to no halt exactly where a walk of as many hops succeeds.
    pub proof fn lemma_settle_is_walk(self, attempts: nat)
        ensures
            self.settle(attempts) is None <==> self.walk(attempts) is Some,
        decreases attempts,
    {
        if attempts > 0 && self.hop() is Some {
            self.hop().unwrap().lemma_settle_is_walk((attempts - 1) as nat);
        }
    }

    /// A walk of as many hops as the graph has nodes comes by some node twice.
    proof fn lemma_walk_repeats(self) -> (repeat: (nat, nat))
        requires
            self.wf(),
            self.walk(self.nodes.len()) is Some,
        ensures
            repeat.0 < repeat.1 <= self.nodes.len(),
            self.walk(repeat.0) is Some,
            self.walk(repeat.0) == self.walk(repeat.1),
    {
        let count = self.nodes.len();
        let visited = Seq::new(count + 1, |hops: int| self.walk(hops as nat).unwrap().active);
        assert forall|hops: int| 0 <= hops <= count implies self.walk(hops as nat) is Some
            && self.walk(hops as nat).unwrap().nodes == self.nodes && self.walk(
            hops as nat,
        ).unwrap().variables == self.variables && self.nodes.dom().contains(
            #[trigger] visited[hops],
        ) by {
            self.lemma_walk_split(hops as nat, (count - hops) as nat);
            self.lemma_walk(hops as nat);
        }
        if visited.no_duplicates() {
            visited.unique_seq_to_set();
            assert(visited.to_set().subset_of(self.nodes.dom()));
            vstd::set_lib::lemma_len_subset(visited.to_set(), self.nodes.dom());
        }
        let (i, j) = choose|i: int, j: int|
            0 <= i < visited.len() && 0 <= j < visited.len() && i != j && visited[i] == visited[j];
        let (low, high) = if i < j {
            (i as nat, j as nat)
        } else {
            (j as nat, i as nat)
        };
        assert(visited[low as int] == visited[high as int]);
        assert(self.nodes.dom().contains(visited[low as int]));
        assert(self.nodes.dom().contains(visited[high as int]));
        (low, high)
    }

    /// In a graph in which as many hops in a row succeed as it has nodes,
    /// every hop succeeds, however long the walk.
    pub proof fn lemma_walk_never_ends(self, count: nat)
        requires
            self.wf(),
            self.walk(self.nodes.len()) is Some,
        ensures
            self.walk(count) is Some,
        decreases count,
    {
        if count <= self.nodes.len() {
            self.lemma_walk_split(count, (self.nodes.len() - count) as nat);
        } else {
            let (low, high) = self.lemma_walk_repeats();
            let rest = (count - high) as nat;
            self.lemma_walk_split(high, rest);
            self.lemma_walk_split(low, rest);
            self.lemma_walk_never_ends(low + rest);
        }
    }

    /// A cycle is no false alarm: where resolution fails with
    /// `CycleDetected`, the attempts after the first hop would come to no
    /// halt, however many were made.
    pub proof fn lemma_cycle_never_halts(self, attempts: nat)
        requires
            self.wf(),
            self.resolve().1 is Err,
        ensures
            self.hop() is Some,
            self.hop().unwrap().with_variables(self.variables.without_triggers()).settle(attempts)
                is None,
    {
        self.lemma_hop();
        let first = self.hop().unwrap().with_variables(self.variables.without_triggers());
        first.lemma_settle_is_walk(self.nodes.len());
        first.lemma_walk_never_ends(attempts);
        first.lemma_settle_is_walk(attempts);
    }

    /// Whether every node has a transition without conditions.
    pub open spec fn always_moves(self) -> bool {
        forall|name: Seq<char>| #[trigger]
            self.nodes.contains_key(name) ==> exists|index: int|
                0 <= index < self.nodes[name].transitions.len() && (
                #[trigger] self.nodes[name].transitions[index]).conditions.len() == 0
    }

    /// In a graph in which every node has a transition without conditions,
    /// every attempt succeeds, however many are made.
    pub proof fn lemma_always_moves_never_settles(self, attempts: nat)
        requires
            self.wf(),
            self.always_moves(),
        ensures
            self.hop() is Some,
            self.settle(attempts) is None,
        decreases attempts,
    {
        let transitions = self.active_node().transitions;
        let index = choose|index: int|
            0 <= index < transitions.len() && (#[trigger] transitions[index]).conditions.len() == 0;
        lemma_first_enabled_exists(transitions, self.variables, index);
        if attempts > 0 {
            self.lemma_hop();
            self.hop().unwrap().lemma_always_moves_never_settles((attempts - 1) as nat);
        }
    }

    /// A graph in which every node has a transition without conditions,
    /// such as a ring of unconditional transitions, has no halt: resolving
    /// it fails with `CycleDetected` and leaves the graph as it is.
    pub proof fn lemma_unconditional_cycle_detected(self)
        requires
            self.wf(),
            self.always_moves(),
        ensures
            self.resolve() == (self, Err::<bool, AnimationError>(AnimationError::CycleDetected)),
    {
        self.lemma_always_moves_never_settles(0);
        self.lemma_hop();
        let first = self.hop().unwrap().with_variables(self.variables.without_triggers());
        first.lemma_always_moves_never_settles(self.nodes.len());
    }
}

/// A state transition: a target node and the conditions that must all hold
/// for the transition to be taken.
#[derive(Clone, Debug)]
pub struct Transition {
    /// The name of the node that the transition leads to.
    pub target: String,
    /// The conditions that must all hold.
    pub conditions: Vec<Condition>,
}

impl View for Transition {
    type V = TransitionView;

    open spec fn view(&self) -> TransitionView {
        TransitionView { target: self.target@, conditions: condition_views(self.conditions@) }
    }
}

/// The views of `transitions`, in order.
pub open spec fn transition_views(transitions: Seq<Transition>) -> Seq<TransitionView> {
    transitions.map_values(|transition: Transition| transition@)
}

/// A node of a state graph.
#[derive(Clone, Debug)]
pub struct GraphNode<T> {
    /// The data that the node holds.
    pub data: T,
    /// The transitions out of the node; an earlier one has priority over a later one.
    pub transitions: Vec<Transition>,
}

impl<T> View for GraphNode<T> {
    type V = NodeView<T>;

    open spec fn view(&self) -> NodeView<T> {
        NodeView { data: self.data, transitions: transition_views(self.transitions@) }
    }
}

/// A state graph that moves from node to node when conditions are met.
pub struct StateGraph<T> {
    variables: VariableManager,
    nodes: NameMap<GraphNode<T>>,
    active: String,
}

impl<T> View for StateGraph<T> {
    type V = GraphView<T>;

    closed spec fn view(&self) -> GraphView<T> {
        GraphView {
            nodes: node_views(self.nodes@),
            active: self.active@,
            variables: self.variables@,
        }
    }
}

/// Whether every one of `transitions` leads to a node of `nodes` or to `extra`.
fn targets_exist<T>(
    nodes: &NameMap<GraphNode<T>>,
    extra: Option<&String>,
    transitions: &Vec<Transition>,
) -> (known: bool)
    requires
        nodes.wf(),
    ensures
        known == targets_within(
            transition_views(transitions@),
            match extra {
                Some(name) => nodes@.dom().insert(name@),
                None => nodes@.dom(),
            },
        ),
{
    let ghost names = match extra {
        Some(name) => nodes@.dom().insert(name@),
        None => nodes@.dom(),
    };
    let mut index: usize = 0;
    while index < transitions.len()
        invariant
            nodes.wf(),
            index <= transitions@.len(),
            names == match extra {
                Some(name) => nodes@.dom().insert(name@),
                None => nodes@.dom(),
            },
            forall|i: int|
                0 <= i < index ==> names.contains(
                    (#[trigger] transition_views(transitions@)[i]).target,
                ),
        decreases transitions@.len() - index,
    {
        let target = &transitions[index].target;
        let named = match extra {
            Some(name) => *name == *target,
            None => false,
        };
        if !named && !nodes.contains_key(target) {
            assert(!names.contains(transition_views(transitions@)[index as int].target));
            return false;
        }
        index += 1;
    }
    true
}

impl<T> StateGraph<T> {
    /// The graph's invariant holds: its view is well formed.
    pub closed spec fn wf(&self) -> bool {
        &&& self.nodes.wf()
        &&& self.variables.wf()
        &&& self@.wf()
    }

    /// A well-formed graph has a well-formed view.
    pub proof fn lemma_view_wf(&self)
        requires
            self.wf(),
        ensures
            self@.wf(),
    {
    }

    /// A graph over `nodes` whose active node is `default_node_name`, with
    /// no variables and no armed triggers.
    ///
    /// Refused with `UnknownDefaultNode` where `default_node_name` names no
    /// node, else with `UnknownTransitionTarget` where a transition leads
    /// to a name that names no node.
    pub fn new(default_node_name: String, nodes: NameMap<GraphNode<T>>) -> (created: Result<
        StateGraph<T>,
        AnimationError,
    >)
        requires
            nodes.wf(),
        ensures
            match created {
                Ok(graph) => {
                    &&& nodes@.contains_key(default_node_name@)
                    &&& targets_known(node_views(nodes@))
                    &&& graph.wf()
                    &&& graph@ == (GraphView {
                        nodes: node_views(nodes@),
                        active: default_node_name@,
                        variables: Variables::empty(),
                    })
                },
                Err(error) => if !nodes@.contains_key(default_node_name@) {
                    error == AnimationError::UnknownDefaultNode
                } else {
                    !targets_known(node_views(nodes@)) && error
                        == AnimationError::UnknownTransitionTarget
                },
            },
    {
        if !nodes.contains_key(&default_node_name) {
            return Err(AnimationError::UnknownDefaultNode);
        }
        let count = nodes.len();
        let mut index: usize = 0;
        while index < count
            invariant
                nodes.wf(),
                nodes@.contains_key(default_node_name@),
                count == nodes.keys().len(),
                index <= count,
                forall|i: int|
                    0 <= i < index ==> targets_within(
                        node_views(nodes@)[#[trigger] nodes.keys()[i]].transitions,
                        nodes@.dom(),
                    ),
            decreases count - index,
        {
            proof {
                nodes.lemma_view();
            }
            let node = nodes.value_at(index);
            if !targets_exist(&nodes, None, &node.transitions) {
                proof {
                    let name = nodes.keys()[index as int];
                    assert(node_views(nodes@).contains_key(name));
                    assert(node_views(nodes@).dom() =~= nodes@.dom());
                    assert(!targets_within(
                        node_views(nodes@)[name].transitions,
                        node_views(nodes@).dom(),
                    ));
                }
                return Err(AnimationError::UnknownTransitionTarget);
            }
            index += 1;
        }
        proof {
            nodes.lemma_view();
            assert(node_views(nodes@).dom() =~= nodes@.dom());
            let views = node_views(nodes@);
            assert forall|name: Seq<char>| views.contains_key(name) implies targets_within(
                (#[trigger] views[name]).transitions,
                views.dom(),
            ) by {
                let i = choose|i: int| 0 <= i < nodes.keys().len() && nodes.keys()[i] == name;
                assert(nodes.keys()[i] == name);
            }
        }
        Ok(StateGraph { variables: VariableManager::new(), nodes, active: default_node_name })
    }

    /// The nodes of the graph, by name.
    pub fn nodes(&self) -> (nodes: &NameMap<GraphNode<T>>)
        requires
            self.wf(),
        ensures
            nodes.wf(),
            node_views(nodes@) == self@.nodes,
    {
        &self.nodes
    }

    /// Whether `name` names a node of the graph.
    pub fn contains_node(&self, name: &String) -> (found: bool)
        requires
            self.wf(),
        ensures
            found == self@.nodes.contains_key(name@),
    {
        assert(node_views(self.nodes@).dom() =~= self.nodes@.dom());
        self.nodes.contains_key(name)
    }

    /// The name of the active node and the data that it holds.
    pub fn get_active(&self) -> (active: (&String, &T))
        requires
            self.wf(),
        ensures
            active.0@ == self@.active,
            *active.1 == self@.active_node().data,
    {
        assert(node_views(self.nodes@).contains_key(self.active@));
        let node = self.nodes.get(&self.active).unwrap();
        (&self.active, &node.data)
    }

    /// Makes `name` the active node, whatever the transitions say.
    ///
    /// Refused with `UnknownNode` where `name` names no node; the graph
    /// then stays as it is.
    pub fn set_active(&mut self, name: String) -> (outcome: Result<(), AnimationError>)
        requires
            old(self).wf(),
        ensures
            final(self).wf(),
            match outcome {
                Ok(_) => old(self)@.nodes.contains_key(name@) && final(self)@ == old(
                    self,
                )@.with_active(name@),
                Err(error) => !old(self)@.nodes.contains_key(name@) && final(self)@ == old(self)@
                    && error == AnimationError::UnknownNode(name),
            },
    {
        if !self.nodes.contains_key(&name) {
            return Err(AnimationError::UnknownNode(name));
        }
        self.active = name;
        Ok(())
    }

    /// Puts `node` into the graph under `name`, in place of the node of
    /// that name if there is one.
    ///
    /// Refused with `UnknownTransitionTarget` where a transition of `node`
    /// leads neither to a node of the graph nor to `name`; the graph then
    /// stays as it is.
    pub fn set_node(&mut self, name: String, node: GraphNode<T>) -> (outcome: Result<
        (),
        AnimationError,
    >)
        requires
            old(self).wf(),
        ensures
            final(self).wf(),
            match outcome {
                Ok(_) => {
                    &&& targets_within(node@.transitions, old(self)@.nodes.dom().insert(name@))
                    &&& final(self)@ == (GraphView {
                        nodes: old(self)@.nodes.insert(name@, node@),
                        ..old(self)@
                    })
                },
                Err(error) => {
                    &&& !targets_within(node@.transitions, old(self)@.nodes.dom().insert(name@))
                    &&& final(self)@ == old(self)@
                    &&& error == AnimationError::UnknownTransitionTarget
                },
            },
    {
        assert(node_views(self.nodes@).dom() =~= self.nodes@.dom());
        if !targets_exist(&self.nodes, Some(&name), &node.transitions) {
            return Err(AnimationError::UnknownTransitionTarget);
        }
        self.nodes.insert(name, node);
        proof {
            let nodes = old(self)@.nodes.insert(name@, node@);
            assert(self@.nodes =~= nodes);
            assert(nodes.dom() =~= old(self)@.nodes.dom().insert(name@));
            assert forall|other: Seq<char>| nodes.contains_key(other) implies targets_within(
                (#[trigger] nodes[other]).transitions,
                nodes.dom(),
            ) by {
                if other != name@ {
                    assert(targets_within(
                        old(self)@.nodes[other].transitions,
                        old(self)@.nodes.dom(),
                    ));
                }
            }
        }
        Ok(())
    }

    /// Gives the node `name` the transitions `transitions` in place of its own.
    ///
    /// Refused with `UnknownNode` where `name` names no node, else with
    /// `UnknownTransitionTarget` where one of `transitions` leads to a
    /// name that names no node; the graph then stays as it is.
    pub fn set_transitions(&mut self, name: String, transitions: Vec<Transition>) -> (outcome:
        Result<(), AnimationError>)
        requires
            old(self).wf(),
        ensures
            final(self).wf(),
            match outcome {
                Ok(_) => {
                    &&& old(self)@.nodes.contains_key(name@)
                    &&& targets_within(transition_views(transitions@), old(self)@.nodes.dom())
                    &&& final(self)@ == (GraphView {
                        nodes: old(self)@.nodes.insert(
                            name@,
                            NodeView {
                                transitions: transition_views(transitions@),
                                ..old(self)@.nodes[name@]
                            },
                        ),
                        ..old(self)@
                    })
                },
                Err(error) => {
                    &&& final(self)@ == old(self)@
                    &&& if !old(self)@.nodes.contains_key(name@) {
                        error == AnimationError::UnknownNode(name)
                    } else {
                        !targets_within(transition_views(transitions@), old(self)@.nodes.dom())
                            && error == AnimationError::UnknownTransitionTarget
                    }
                },
            },
    {
        assert(node_views(self.nodes@).dom() =~= self.nodes@.dom());
        if !self.nodes.contains_key(&name) {
            return Err(AnimationError::UnknownNode(name));
        }
        if !targets_exist(&self.nodes, None, &transitions) {
            return Err(AnimationError::UnknownTransitionTarget);
        }
        match self.nodes.get_mut(&name) {
            Some(node) => {
                node.transitions = transitions;
            },
            None => {},
        }
        proof {
            let nodes = old(self)@.nodes.insert(
                name@,
                NodeView {
                    transitions: transition_views(transitions@),
                    ..old(self)@.nodes[name@]
                },
            );
            assert(self@.nodes =~= nodes);
            assert(nodes.dom() =~= old(self)@.nodes.dom());
            assert forall|other: Seq<char>| nodes.contains_key(other) implies targets_within(
                (#[trigger] nodes[other]).transitions,
                nodes.dom(),
            ) by {
                if other != name@ {
                    assert(targets_within(
                        old(self)@.nodes[other].transitions,
                        old(self)@.nodes.dom(),
                    ));
                }
            }
        }
        Ok(())
    }

    /// Gives the variable `name` the value `value`.
    pub fn set_float(&mut self, name: String, value: Number)
        requires
            old(self).wf(),
        ensures
            final(self).wf(),
            final(self)@ == old(self)@.with_variables(
                old(self)@.variables.with_float(name@, value),
            ),
    {
        self.variables.set_float(name, value);
    }

    /// Arms the trigger `name`.
    pub fn set_trigger(&mut self, name: String)
        requires
            old(self).wf(),
        ensures
            final(self).wf(),
            final(self)@ == old(self)@.with_variables(old(self)@.variables.with_trigger(name@)),
    {
        self.variables.set_trigger(name);
    }

    /// Disarms every trigger.
    pub fn reset_triggers(&mut self)
        requires
            old(self).wf(),
        ensures
            final(self).wf(),
            final(self)@ == old(self)@.with_variables(old(self)@.variables.without_triggers()),
    {
        self.variables.reset_triggers();
    }

    /// The target of the first transition of the active node whose
    /// conditions all hold, if there is one.
    fn next_target(&self) -> (target: Option<String>)
        requires
            self.wf(),
        ensures
            match target {
                Some(name) => {
                    &&& self@.hop() == Some(self@.with_active(name@))
                    &&& self@.nodes.contains_key(name@)
                },
                None => self@.hop() is None,
            },
    {
        assert(node_views(self.nodes@).contains_key(self.active@));
        let node = self.nodes.get(&self.active).unwrap();
        let ghost transitions = self@.active_node().transitions;
        assert(transitions == transition_views(node.transitions@));
        let mut index: usize = 0;
        while index < node.transitions.len()
            invariant
                self.wf(),
                index <= node.transitions@.len(),
                transitions == self@.active_node().transitions,
                transitions == transition_views(node.transitions@),
                forall|earlier: int|
                    0 <= earlier < index ==> !(#[trigger] transitions[earlier]).enabled(
                        self@.variables,
                    ),
            decreases node.transitions@.len() - index,
        {
            let transition = &node.transitions[index];
            assert(transition@ == transitions[index as int]);
            if Condition::all_true(transition.conditions.as_slice(), &self.variables) {
                proof {
                    assert(is_first_enabled(transitions, self@.variables, index as int));
                    lemma_first_enabled_is(transitions, self@.variables, index as int);
                    assert(targets_within(transitions, self@.nodes.dom()));
                }
                return Some(transition.target.clone());
            }
            index += 1;
        }
        proof {
            lemma_first_enabled_none(transitions, self@.variables);
        }
        None
    }

    /// Attempts one transition: where a transition of the active node has
    /// all its conditions met, the target of the first such transition
    /// becomes active.
    ///
    /// Returns whether a transition was made; the graph is unchanged where
    /// none was.
    pub fn transition(&mut self) -> (moved: bool)
        requires
            old(self).wf(),
        ensures
            final(self).wf(),
            match old(self)@.hop() {
                Some(next) => moved && final(self)@ == next,
                None => !moved && final(self)@ == old(self)@,
            },
    {
        match self.next_target() {
            Some(target) => {
                self.active = target;
                true
            },
            None => false,
        }
    }

    /// Takes transitions until none is enabled.
    ///
    /// Returns `Ok(false)` where no transition was enabled to begin with.
    /// After the first transition all triggers are disarmed, and up to as
    /// many further attempts are made as the graph has nodes; where one of
    /// them finds no enabled transition, the graph halts there and the
    /// result is `Ok(true)`. Where every one of them succeeds, the graph is
    /// put back as it was, its triggers too, and the result is
    /// `Err(CycleDetected)`.
    pub fn transition_until_halt(&mut self) -> (outcome: Result<bool, AnimationError>)
        requires
            old(self).wf(),
        ensures
            final(self).wf(),
            (final(self)@, outcome) == old(self)@.resolve(),
    {
        let mut origin = match self.next_target() {
            Some(target) => target,
            None => {
                return Ok(false);
            },
        };
        core::mem::swap(&mut self.active, &mut origin);
        let mut armed = VariableManager::new();
        self.variables.swap_triggers(&mut armed);
        let ghost first = self@;
        assert(first == old(self)@.hop().unwrap().with_variables(
            old(self)@.variables.without_triggers(),
        ));
        let count = self.nodes.len();
        assert(count == old(self)@.nodes.len()) by {
            assert(node_views(self.nodes@).dom() =~= self.nodes@.dom());
        }
        let mut attempts: usize = 0;
        while attempts < count
            invariant
                self.wf(),
                attempts <= count,
                armed.wf(),
                armed@.triggers == old(self)@.variables.triggers,
                origin@ == old(self)@.active,
                self@.nodes == old(self)@.nodes,
                self@.variables == old(self)@.variables.without_triggers(),
                old(self)@.resolve() == match first.settle(count as nat) {
                    Some(halted) => (halted, Ok::<bool, AnimationError>(true)),
                    None => (old(self)@, Err(AnimationError::CycleDetected)),
                },
                first.settle(count as nat) == self@.settle((count - attempts) as nat),
            decreases count - attempts,
        {
            let ghost before = self@;
            if !self.transition() {
                assert(before.settle((count - attempts) as nat) == Some(before));
                return Ok(true);
            }
            assert(before.settle((count - attempts) as nat) == self@.settle(
                (count - attempts - 1) as nat,
            ));
            attempts += 1;
        }
        core::mem::swap(&mut self.active, &mut origin);
        self.variables.swap_triggers(&mut armed);
        assert(self@.variables =~= old(self)@.variables);
        Err(AnimationError::CycleDetected)
    }
}

} // verus!
