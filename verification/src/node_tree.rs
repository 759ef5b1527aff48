//! A tree of animation nodes whose conditions compare variables with one
//! another, and in which a node with exit time is left on its last frame only.

use crate::error::AnimationError;
use crate::name_map::NameMap;
use crate::number::Number;
use crate::state_graph::{
    first_enabled, is_first_enabled, lemma_first_enabled_is, lemma_first_enabled_none,
    TransitionView,
};
use crate::variable_manager::{ConditionView, OperandView, Variables};
use vstd::prelude::*;

verus! {

/// A comparison of two variables.
#[derive(Clone, Debug)]
pub enum Condition {
    /// The first variable is greater than the second.
    Gt(String, String),
    /// The first variable is less than the second.
    Lt(String, String),
    /// The two variables are equal.
    Eq(String, String),
}

impl View for Condition {
    type V = ConditionView;

    open spec fn view(&self) -> ConditionView {
        match self {
            Condition::Gt(left, right) => ConditionView::Gt(left@, OperandView::Variable(right@)),
            Condition::Lt(left, right) => ConditionView::Lt(left@, OperandView::Variable(right@)),
            Condition::Eq(left, right) => ConditionView::Eq(left@, OperandView::Variable(right@)),
        }
    }
}

/// The variables of a tree as a store: the tree has no triggers.
pub open spec fn tree_variables(floats: Map<Seq<char>, Number>) -> Variables {
    Variables { floats, triggers: Set::empty() }
}

impl Condition {
    /// Whether the condition holds in `variables`: both variables have a
    /// value, and the values compare as asked.
    pub fn eval(&self, variables: &NameMap<Number>) -> (holds: bool)
        requires
            variables.wf(),
        ensures
            holds == self@.holds(tree_variables(variables@)),
    {
        match self {
            Condition::Gt(left, right) => match (variables.get(left), variables.get(right)) {
                (Some(v1), Some(v2)) => v1.greater_than(*v2),
                _ => false,
            },
            Condition::Lt(left, right) => match (variables.get(left), variables.get(right)) {
                (Some(v1), Some(v2)) => v1.less_than(*v2),
                _ => false,
            },
            Condition::Eq(left, right) => match (variables.get(left), variables.get(right)) {
                (Some(v1), Some(v2)) => v1.equal_to(*v2),
                _ => false,
            },
        }
    }
}

/// The views of `conditions`, in order.
pub open spec fn condition_views(conditions: Seq<Condition>) -> Seq<ConditionView> {
    conditions.map_values(|condition: Condition| condition@)
}

/// Whether every one of `conditions` holds in `variables`; true of no conditions.
pub fn and_conditions(conditions: &[Condition], variables: &NameMap<Number>) -> (all: bool)
    requires
        variables.wf(),
    ensures
        all == (TransitionView {
            target: Seq::empty(),
            conditions: condition_views(conditions@),
        }).enabled(tree_variables(variables@)),
{
    let ghost views = condition_views(conditions@);
    let mut index: usize = 0;
    while index < conditions.len()
        invariant
            index <= conditions@.len(),
            variables.wf(),
            views == condition_views(conditions@),
            forall|i: int|
                0 <= i < index ==> (#[trigger] views[i]).holds(tree_variables(variables@)),
        decreases conditions@.len() - index,
    {
        if !conditions[index].eval(variables) {
            assert(!views[index as int].holds(tree_variables(variables@)));
            return false;
        }
        index += 1;
    }
    true
}

/// A transition of a tree: the node that it leads to and the conditions
/// that must all hold.
#[derive(Clone, Debug)]
pub struct Transition {
    /// The name of the node that the transition leads to.
    pub to: String,
    /// The conditions that must all hold.
    pub conditions: Vec<Condition>,
}

impl View for Transition {
    type V = TransitionView;

    open spec fn view(&self) -> TransitionView {
        TransitionView { target: self.to@, conditions: condition_views(self.conditions@) }
    }
}

/// A node of a tree, with names as sequences of characters.
pub struct TreeNodeView {
    pub animation: Seq<char>,
    pub transitions: Seq<TransitionView>,
    pub has_exit_time: bool,
}

/// A node of a tree.
#[derive(Clone, Debug)]
pub struct Node {
    /// The name of the animation that plays while the node is active.
    pub animation: String,
    /// The transitions out of the node; an earlier one has priority over a later one.
    pub transitions: Vec<Transition>,
    /// Whether the node is left on the last frame of its animation only.
    pub has_exit_time: bool,
}

impl View for Node {
    type V = TreeNodeView;

    open spec fn view(&self) -> TreeNodeView {
        TreeNodeView {
            animation: self.animation@,
            transitions: self.transitions@.map_values(|transition: Transition| transition@),
            has_exit_time: self.has_exit_time,
        }
    }
}

/// A tree as a value: its variables, its nodes by name, and the name of
/// the active node, if one is active.
pub struct TreeView {
    pub variables: Map<Seq<char>, Number>,
    pub nodes: Map<Seq<char>, TreeNodeView>,
    pub active: Option<Seq<char>>,
}

impl TreeView {
    /// The tree after one attempt at a transition that succeeds: the
    /// target of the first enabled transition of the active node is
    /// active.
    ///
    /// None where no node is active, where the active name names no node,
    /// where the active node has exit time and `is_last_frame` is false,
    /// and where no transition of the active node is enabled.
    pub open spec fn hop(self, is_last_frame: bool) -> Option<TreeView> {
        if self.active is None || !self.nodes.contains_key(self.active.unwrap()) {
            None
        } else {
            let node = self.nodes[self.active.unwrap()];
            if !is_last_frame && node.has_exit_time {
                None
            } else {
                match first_enabled(node.transitions, tree_variables(self.variables)) {
                    Some(index) => Some(
                        TreeView { active: Some(node.transitions[index].target), ..self },
                    ),
                    None => None,
                }
            }
        }
    }

    /// The tree in which up to `attempts` attempts at a transition come to
    /// a halt: the one before the first attempt that fails. None where
    /// each of the `attempts` attempts succeeds.
    pub open spec fn settle(self, is_last_frame: bool, attempts: nat) -> Option<TreeView>
        decreases attempts,
    {
        if attempts == 0 {
            None
        } else {
            match self.hop(is_last_frame) {
                None => Some(self),
                Some(next) => next.settle(is_last_frame, (attempts - 1) as nat),
            }
        }
    }

    /// The tree after its transitions are resolved, or none where as many
    /// attempts succeed in a row as the tree has nodes.
    pub open spec fn resolve(self, is_last_frame: bool) -> Option<TreeView> {
        match self.hop(is_last_frame) {
            None => Some(self),
            Some(first) => first.settle(is_last_frame, (self.nodes.len() - 1) as nat),
        }
    }

    /// Where the attempts come to a halt, they halt in a tree with the
    /// same nodes and variables in which no attempt succeeds.
    pub proof fn lemma_settle(self, is_last_frame: bool, attempts: nat)
        requires
            self.settle(is_last_frame, attempts) is Some,
        ensures
            self.settle(is_last_frame, attempts).unwrap().nodes == self.nodes,
            self.settle(is_last_frame, attempts).unwrap().variables == self.variables,
            self.settle(is_last_frame, attempts).unwrap().hop(is_last_frame) is None,
        decreases attempts,
    {
        if attempts > 0 && self.hop(is_last_frame) is Some {
            self.hop(is_last_frame).unwrap().lemma_settle(is_last_frame, (attempts - 1) as nat);
        }
    }

    /// Resolution is idempotent: in a tree whose transitions were resolved
    /// no attempt succeeds, so resolving again changes nothing.
    pub proof fn lemma_resolve_idempotent(self, is_last_frame: bool)
        requires
            self.resolve(is_last_frame) is Some,
        ensures
            self.resolve(is_last_frame).unwrap().resolve(is_last_frame) == self.resolve(
                is_last_frame,
            ),
    {
        if self.hop(is_last_frame) is Some {
            self.hop(is_last_frame).unwrap().lemma_settle(
                is_last_frame,
                (self.nodes.len() - 1) as nat,
            );
        }
    }

    /// A node with exit time is not left before its last frame.
    pub proof fn lemma_exit_time_holds(self)
        requires
            self.active is Some,
            self.nodes.contains_key(self.active.unwrap()),
            self.nodes[self.active.unwrap()].has_exit_time,
        ensures
            self.resolve(false) == Some(self),
    {
    }
}

/// The views of the nodes of `nodes`, under the same names.
pub open spec fn node_views(nodes: Map<Seq<char>, Node>) -> Map<Seq<char>, TreeNodeView> {
    Map::new(|name: Seq<char>| nodes.contains_key(name), |name: Seq<char>| nodes[name]@)
}

/// A tree of animation nodes with the variables that its conditions compare.
pub struct NodeTree {
    /// The value of each variable that has one.
    pub variables: NameMap<Number>,
    /// The nodes, by name.
    pub nodes: NameMap<Node>,
    /// The name of the active node, if one is active.
    pub active: Option<String>,
}

impl View for NodeTree {
    type V = TreeView;

    open spec fn view(&self) -> TreeView {
        TreeView {
            variables: self.variables@,
            nodes: node_views(self.nodes@),
            active: match self.active {
                Some(name) => Some(name@),
                None => None,
            },
        }
    }
}

impl Default for NodeTree {
    /// A tree without variables, nodes or active node.
    fn default() -> (tree: NodeTree)
        ensures
            tree.wf(),
            tree@ == (TreeView { variables: Map::empty(), nodes: Map::empty(), active: None }),
    {
        let tree = NodeTree { variables: NameMap::new(), nodes: NameMap::new(), active: None };
        assert(tree@.nodes =~= Map::empty());
        tree
    }
}

impl NodeTree {
    /// The two maps of the tree are well formed.
    pub open spec fn wf(&self) -> bool {
        self.variables.wf() && self.nodes.wf()
    }

    /// The target of the transition that an attempt would take, if it
    /// would take one.
    fn next_target(&self, is_last_frame: bool) -> (target: Option<String>)
        requires
            self.wf(),
        ensures
            match target {
                Some(name) => self@.hop(is_last_frame) == Some(
                    TreeView { active: Some(name@), ..self@ },
                ),
                None => self@.hop(is_last_frame) is None,
            },
    {
        let active_name = match &self.active {
            Some(name) => name,
            None => {
                return None;
            },
        };
        let active = match self.nodes.get(active_name) {
            Some(node) => node,
            None => {
                return None;
            },
        };
        assert(self@.nodes[active_name@] == active@);
        if !is_last_frame && active.has_exit_time {
            return None;
        }
        let ghost transitions = active@.transitions;
        let ghost variables = tree_variables(self.variables@);
        let mut index: usize = 0;
        while index < active.transitions.len()
            invariant
                self.wf(),
                index <= active.transitions@.len(),
                self@.active == Some(active_name@),
                self@.nodes.contains_key(active_name@),
                self@.nodes[active_name@] == active@,
                is_last_frame || !active.has_exit_time,
                transitions == active@.transitions,
                variables == tree_variables(self.variables@),
                forall|earlier: int|
                    0 <= earlier < index ==> !(#[trigger] transitions[earlier]).enabled(variables),
            decreases active.transitions@.len() - index,
        {
            let transition = &active.transitions[index];
            assert(transition@ == transitions[index as int]);
            if and_conditions(transition.conditions.as_slice(), &self.variables) {
                proof {
                    assert(transition@.enabled(variables) == (TransitionView {
                        target: Seq::empty(),
                        conditions: transition@.conditions,
                    }).enabled(variables));
                    assert(is_first_enabled(transitions, variables, index as int));
                    lemma_first_enabled_is(transitions, variables, index as int);
                }
                return Some(transition.to.clone());
            }
            assert(!transition@.enabled(variables));
            index += 1;
        }
        proof {
            lemma_first_enabled_none(transitions, variables);
        }
        None
    }

    /// Attempts one transition: where the active node may be left and has
    /// a transition whose conditions all hold, the target of the first
    /// such transition becomes active.
    ///
    /// A node with exit time may be left only where `is_last_frame` is
    /// true. Returns whether a transition was made; the tree is unchanged
    /// where none was.
    pub fn transition(&mut self, is_last_frame: bool) -> (moved: bool)
        requires
            old(self).wf(),
        ensures
            final(self).wf(),
            match old(self)@.hop(is_last_frame) {
                Some(next) => moved && final(self)@ == next,
                None => !moved && final(self)@ == old(self)@,
            },
    {
        match self.next_target(is_last_frame) {
            Some(target) => {
                self.active = Some(target);
                true
            },
            None => false,
        }
    }

    /// Takes transitions until an attempt fails.
    ///
    /// Refused with `CycleDetected` where as many attempts succeed in a
    /// row as the tree has nodes; the tree is then put back as it was.
    pub fn recurse_transition(&mut self, is_last_frame: bool) -> (outcome: Result<
        (),
        AnimationError,
    >)
        requires
            old(self).wf(),
        ensures
            final(self).wf(),
            match outcome {
                Ok(_) => old(self)@.resolve(is_last_frame) == Some(final(self)@),
                Err(error) => old(self)@.resolve(is_last_frame) is None && final(self)@ == old(
                    self,
                )@ && error == AnimationError::CycleDetected,
            },
    {
        let mut origin = match self.next_target(is_last_frame) {
            Some(target) => Some(target),
            None => {
                return Ok(());
            },
        };
        core::mem::swap(&mut self.active, &mut origin);
        let ghost first = self@;
        let count = self.nodes.len();
        proof {
            assert(node_views(self.nodes@).dom() =~= self.nodes@.dom());
            assert(self@.nodes.contains_key(old(self)@.active.unwrap()));
            assert(count >= 1) by {
                if count == 0 {
                    assert(self@.nodes.dom().len() == 0);
                    assert(self@.nodes.dom().finite());
                    assert(self@.nodes.dom() =~= Set::empty());
                }
            }
        }
        let mut transitions: usize = 1;
        while transitions < count
            invariant
                self.wf(),
                1 <= transitions <= count,
                count == old(self)@.nodes.len(),
                origin == old(self).active,
                self@.nodes == old(self)@.nodes,
                self@.variables == old(self)@.variables,
                old(self)@.hop(is_last_frame) == Some(first),
                first.settle(is_last_frame, (count - 1) as nat) == self@.settle(
                    is_last_frame,
                    (count - transitions) as nat,
                ),
            decreases count - transitions,
        {
            let ghost before = self@;
            if !self.transition(is_last_frame) {
                assert(before.settle(is_last_frame, (count - transitions) as nat) == Some(before));
                return Ok(());
            }
            assert(before.settle(is_last_frame, (count - transitions) as nat) == self@.settle(
                is_last_frame,
                (count - transitions - 1) as nat,
            ));
            transitions += 1;
        }
        core::mem::swap(&mut self.active, &mut origin);
        Err(AnimationError::CycleDetected)
    }
}

} // verus!
