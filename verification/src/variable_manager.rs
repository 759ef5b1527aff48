//! Named numeric variables, one-shot triggers, and the conditions that read them.

use crate::name_map::NameMap;
use crate::number::Number;
use vstd::prelude::*;

verus! {

/// What a variable store holds: the value of each variable that has one,
/// and the names of the triggers that are armed.
pub struct Variables {
    pub floats: Map<Seq<char>, Number>,
    pub triggers: Set<Seq<char>>,
}

impl Variables {
    /// A store without variables and without armed triggers.
    pub open spec fn empty() -> Variables {
        Variables { floats: Map::empty(), triggers: Set::empty() }
    }

    /// The value of the variable `name`, if it has one.
    pub open spec fn lookup(self, name: Seq<char>) -> Option<Number> {
        if self.floats.contains_key(name) {
            Some(self.floats[name])
        } else {
            None
        }
    }

    /// The value that `operand` stands for, if it has one.
    pub open spec fn operand_value(self, operand: OperandView) -> Option<Number> {
        match operand {
            OperandView::Value(number) => Some(number),
            OperandView::Variable(name) => self.lookup(name),
        }
    }

    /// The store with `value` as the value of `name`.
    pub open spec fn with_float(self, name: Seq<char>, value: Number) -> Variables {
        Variables { floats: self.floats.insert(name, value), ..self }
    }

    /// The store with the trigger `name` armed.
    pub open spec fn with_trigger(self, name: Seq<char>) -> Variables {
        Variables { triggers: self.triggers.insert(name), ..self }
    }

    /// The store with no trigger armed.
    pub open spec fn without_triggers(self) -> Variables {
        Variables { triggers: Set::empty(), ..self }
    }
}

/// The right-hand side of a comparison, with names as sequences of characters.
pub enum OperandView {
    Value(Number),
    Variable(Seq<char>),
}

/// A condition, with names as sequences of characters.
pub enum ConditionView {
    Gt(Seq<char>, OperandView),
    Lt(Seq<char>, OperandView),
    Eq(Seq<char>, OperandView),
    Trigger(Seq<char>),
}

impl ConditionView {
    /// Whether the condition holds in `variables`.
    ///
    /// A comparison holds only if both sides have a value and the values
    /// compare as asked; a trigger condition holds if the trigger is armed.
    pub open spec fn holds(self, variables: Variables) -> bool {
        match self {
            ConditionView::Gt(name, operand) => match (
                variables.lookup(name),
                variables.operand_value(operand),
            ) {
                (Some(left), Some(right)) => left.spec_gt(right),
                _ => false,
            },
            ConditionView::Lt(name, operand) => match (
                variables.lookup(name),
                variables.operand_value(operand),
            ) {
                (Some(left), Some(right)) => left.spec_lt(right),
                _ => false,
            },
            ConditionView::Eq(name, operand) => match (
                variables.lookup(name),
                variables.operand_value(operand),
            ) {
                (Some(left), Some(right)) => left.spec_equals(right),
                _ => false,
            },
            ConditionView::Trigger(name) => variables.triggers.contains(name),
        }
    }

    /// Whether the condition reads a trigger.
    pub open spec fn reads_trigger(self) -> bool {
        self is Trigger
    }
}

/// Whether every one of `conditions` holds in `variables`.
pub open spec fn all_hold(conditions: Seq<ConditionView>, variables: Variables) -> bool {
    forall|i: int| 0 <= i < conditions.len() ==> (#[trigger] conditions[i]).holds(variables)
}

/// The views of `conditions`, in order.
pub open spec fn condition_views(conditions: Seq<Condition>) -> Seq<ConditionView> {
    conditions.map_values(|condition: Condition| condition@)
}

/// A store of named variables and named one-shot triggers.
pub struct VariableManager {
    triggers: Vec<String>,
    floats: NameMap<Number>,
}

impl View for VariableManager {
    type V = Variables;

    closed spec fn view(&self) -> Variables {
        Variables {
            floats: self.floats@,
            triggers: Set::new(
                |name: Seq<char>|
                    exists|i: int| 0 <= i < self.triggers@.len() && self.triggers@[i]@ == name,
            ),
        }
    }
}

impl VariableManager {
    /// The store's invariant holds.
    pub closed spec fn wf(&self) -> bool {
        self.floats.wf()
    }

    /// A store without variables and without armed triggers.
    pub fn new() -> (store: VariableManager)
        ensures
            store.wf(),
            store@ == Variables::empty(),
    {
        let store = VariableManager { triggers: Vec::new(), floats: NameMap::new() };
        assert(store@.triggers =~= Set::empty());
        store
    }

    /// Gives the variable `name` the value `value`, whatever it held before.
    pub fn set_float(&mut self, name: String, value: Number)
        requires
            old(self).wf(),
        ensures
            final(self).wf(),
            final(self)@ == old(self)@.with_float(name@, value),
    {
        self.floats.insert(name, value);
    }

    /// Arms the trigger `name`; arming an armed trigger changes nothing.
    pub fn set_trigger(&mut self, name: String)
        requires
            old(self).wf(),
        ensures
            final(self).wf(),
            final(self)@ == old(self)@.with_trigger(name@),
    {
        if !self.get_trigger(&name) {
            self.triggers.push(name);
            assert(self.triggers@[self.triggers@.len() - 1]@ == name@);
            assert forall|other: Seq<char>| #[trigger]
                old(self)@.triggers.insert(name@).contains(other) implies self@.triggers.contains(
                other,
            ) by {
                if other != name@ {
                    let i = choose|i: int|
                        0 <= i < old(self).triggers@.len() && old(self).triggers@[i]@ == other;
                    assert(self.triggers@[i]@ == other);
                }
            }
        }
        assert(self@.triggers =~= old(self)@.triggers.insert(name@));
    }

    /// The value of the variable `name`, if it has one.
    pub fn get_float(&self, name: &String) -> (value: Option<&Number>)
        requires
            self.wf(),
        ensures
            match value {
                Some(number) => self@.lookup(name@) == Some(*number),
                None => self@.lookup(name@) is None,
            },
    {
        self.floats.get(name)
    }

    /// Whether the trigger `name` is armed.
    pub fn get_trigger(&self, name: &String) -> (armed: bool)
        ensures
            armed == self@.triggers.contains(name@),
    {
        let mut index: usize = 0;
        while index < self.triggers.len()
            invariant
                index <= self.triggers@.len(),
                forall|i: int| 0 <= i < index ==> self.triggers@[i]@ != name@,
            decreases self.triggers@.len() - index,
        {
            if self.triggers[index] == *name {
                return true;
            }
            index += 1;
        }
        false
    }

    /// Exchanges the armed triggers of the two stores; the variables stay.
    pub fn swap_triggers(&mut self, other: &mut VariableManager)
        requires
            old(self).wf(),
            old(other).wf(),
        ensures
            final(self).wf(),
            final(other).wf(),
            final(self)@ == (Variables { triggers: old(other)@.triggers, ..old(self)@ }),
            final(other)@ == (Variables { triggers: old(self)@.triggers, ..old(other)@ }),
    {
        core::mem::swap(&mut self.triggers, &mut other.triggers);
    }

    /// Disarms every trigger.
    pub fn reset_triggers(&mut self)
        requires
            old(self).wf(),
        ensures
            final(self).wf(),
            final(self)@ == old(self)@.without_triggers(),
    {
        self.triggers.clear();
        assert(self@.triggers =~= Set::empty());
    }
}

impl Default for VariableManager {
    /// A store without variables and without armed triggers.
    fn default() -> (store: VariableManager)
        ensures
            store.wf(),
            store@ == Variables::empty(),
    {
        VariableManager::new()
    }
}

/// The right-hand side of a comparison: a number, or the variable that holds one.
#[derive(Clone, Debug)]
pub enum Operand {
    Value(Number),
    Variable(String),
}

impl View for Operand {
    type V = OperandView;

    open spec fn view(&self) -> OperandView {
        match self {
            Operand::Value(number) => OperandView::Value(*number),
            Operand::Variable(name) => OperandView::Variable(name@),
        }
    }
}

/// A test on the variables of a store.
#[derive(Clone, Debug)]
pub enum Condition {
    /// The variable is greater than the operand.
    Gt(String, Operand),
    /// The variable is less than the operand.
    Lt(String, Operand),
    /// The variable is equal to the operand.
    Eq(String, Operand),
    /// The trigger is armed.
    Trigger(String),
}

impl View for Condition {
    type V = ConditionView;

    open spec fn view(&self) -> ConditionView {
        match self {
            Condition::Gt(name, operand) => ConditionView::Gt(name@, operand@),
            Condition::Lt(name, operand) => ConditionView::Lt(name@, operand@),
            Condition::Eq(name, operand) => ConditionView::Eq(name@, operand@),
            Condition::Trigger(name) => ConditionView::Trigger(name@),
        }
    }
}

impl Operand {
    /// The value that the operand stands for in `variables`, if it has one.
    pub fn value(&self, variables: &VariableManager) -> (value: Option<Number>)
        requires
            variables.wf(),
        ensures
            value == variables@.operand_value(self@),
    {
        match self {
            Operand::Value(number) => Some(*number),
            Operand::Variable(name) => match variables.get_float(name) {
                Some(number) => Some(*number),
                None => None,
            },
        }
    }
}

impl Condition {
    /// Whether the condition holds in `variables`.
    pub fn eval(&self, variables: &VariableManager) -> (holds: bool)
        requires
            variables.wf(),
        ensures
            holds == self@.holds(variables@),
    {
        match self {
            Condition::Gt(name, operand) => {
                match (variables.get_float(name), operand.value(variables)) {
                    (Some(left), Some(right)) => left.greater_than(right),
                    _ => false,
                }
            },
            Condition::Lt(name, operand) => {
                match (variables.get_float(name), operand.value(variables)) {
                    (Some(left), Some(right)) => left.less_than(right),
                    _ => false,
                }
            },
            Condition::Eq(name, operand) => {
                match (variables.get_float(name), operand.value(variables)) {
                    (Some(left), Some(right)) => left.equal_to(right),
                    _ => false,
                }
            },
            Condition::Trigger(name) => variables.get_trigger(name),
        }
    }

    /// Whether every one of `conditions` holds in `variables`; true of no conditions.
    pub fn all_true(conditions: &[Condition], variables: &VariableManager) -> (all: bool)
        requires
            variables.wf(),
        ensures
            all == all_hold(condition_views(conditions@), variables@),
    {
        let mut index: usize = 0;
        while index < conditions.len()
            invariant
                index <= conditions@.len(),
                variables.wf(),
                forall|i: int| 0 <= i < index ==> (#[trigger] conditions@[i])@.holds(variables@),
            decreases conditions@.len() - index,
        {
            if !conditions[index].eval(variables) {
                assert(!condition_views(conditions@)[index as int].holds(variables@));
                return false;
            }
            index += 1;
        }
        assert forall|i: int| 0 <= i < condition_views(conditions@).len() implies (
        #[trigger] condition_views(conditions@)[i]).holds(variables@) by {
            assert(conditions@[i]@.holds(variables@));
        }
        true
    }
}

} // verus!
