use animation_graph::name_map::NameMap;
use animation_graph::number::Number;
use animation_graph::variable_manager::{Condition, Operand, VariableManager};

fn num(value: f32) -> Number {
    Number::from_bits(value.to_bits())
}

fn name(text: &str) -> String {
    text.to_string()
}

#[test]
fn name_map_insert_get_and_replace() {
    let mut map: NameMap<u32> = NameMap::new();
    assert_eq!(map.len(), 0);
    assert!(map.get(&name("a")).is_none());
    assert_eq!(map.insert(name("a"), 1), None);
    assert_eq!(map.insert(name("b"), 2), None);
    assert_eq!(map.len(), 2);
    assert_eq!(map.insert(name("a"), 3), Some(1));
    assert_eq!(map.len(), 2);
    assert_eq!(map.get(&name("a")), Some(&3));
    assert_eq!(map.get(&name("b")), Some(&2));
    assert!(map.contains_key(&name("b")));
    assert!(!map.contains_key(&name("c")));
    assert_eq!(map.position(&name("a")), Some(0));
    assert_eq!(map.position(&name("b")), Some(1));
    assert_eq!(map.position(&name("c")), None);
    assert_eq!(map.key_at(1), "b");
    assert_eq!(map.value_at(0), &3);
}

#[test]
fn name_map_get_mut_changes_in_place() {
    let mut map: NameMap<u32> = NameMap::new();
    map.insert(name("a"), 1);
    map.insert(name("b"), 2);
    *map.get_mut(&name("b")).unwrap() = 20;
    assert!(map.get_mut(&name("c")).is_none());
    assert_eq!(map.get(&name("a")), Some(&1));
    assert_eq!(map.get(&name("b")), Some(&20));
    assert_eq!(map.len(), 2);
}

#[test]
fn floats_are_overwritten() {
    let mut variables = VariableManager::new();
    assert!(variables.get_float(&name("V1")).is_none());
    variables.set_float(name("V1"), num(1.5));
    assert_eq!(variables.get_float(&name("V1")).unwrap().to_bits(), 1.5f32.to_bits());
    variables.set_float(name("V1"), num(-3.0));
    assert_eq!(variables.get_float(&name("V1")).unwrap().to_bits(), (-3.0f32).to_bits());
    assert!(variables.get_float(&name("V2")).is_none());
}

#[test]
fn triggers_arm_once_and_reset_together() {
    let mut variables = VariableManager::default();
    assert!(!variables.get_trigger(&name("T1")));
    variables.set_trigger(name("T1"));
    variables.set_trigger(name("T1"));
    variables.set_trigger(name("T2"));
    assert!(variables.get_trigger(&name("T1")));
    assert!(variables.get_trigger(&name("T2")));
    assert!(!variables.get_trigger(&name("T3")));
    variables.set_float(name("V1"), num(1.0));
    variables.reset_triggers();
    assert!(!variables.get_trigger(&name("T1")));
    assert!(!variables.get_trigger(&name("T2")));
    assert!(variables.get_float(&name("V1")).is_some());
}

#[test]
fn swap_triggers_exchanges_only_triggers() {
    let mut left = VariableManager::new();
    let mut right = VariableManager::new();
    left.set_trigger(name("T1"));
    left.set_float(name("V1"), num(1.0));
    right.set_trigger(name("T2"));
    left.swap_triggers(&mut right);
    assert!(left.get_trigger(&name("T2")));
    assert!(!left.get_trigger(&name("T1")));
    assert!(right.get_trigger(&name("T1")));
    assert!(left.get_float(&name("V1")).is_some());
    assert!(right.get_float(&name("V1")).is_none());
}

#[test]
fn comparison_with_a_number() {
    let mut variables = VariableManager::new();
    variables.set_float(name("V1"), num(1.0));
    assert!(Condition::Gt(name("V1"), Operand::Value(num(0.0))).eval(&variables));
    assert!(!Condition::Gt(name("V1"), Operand::Value(num(1.0))).eval(&variables));
    assert!(Condition::Lt(name("V1"), Operand::Value(num(2.0))).eval(&variables));
    assert!(!Condition::Lt(name("V1"), Operand::Value(num(1.0))).eval(&variables));
    assert!(Condition::Eq(name("V1"), Operand::Value(num(1.0))).eval(&variables));
    assert!(!Condition::Eq(name("V1"), Operand::Value(num(1.5))).eval(&variables));
}

#[test]
fn comparison_with_a_missing_variable_is_false() {
    let mut variables = VariableManager::new();
    assert!(!Condition::Gt(name("V1"), Operand::Value(num(0.0))).eval(&variables));
    assert!(!Condition::Lt(name("V1"), Operand::Value(num(0.0))).eval(&variables));
    assert!(!Condition::Eq(name("V1"), Operand::Value(num(0.0))).eval(&variables));
    variables.set_float(name("V1"), num(0.0));
    assert!(!Condition::Eq(name("V1"), Operand::Variable(name("V2"))).eval(&variables));
    assert!(!Condition::Eq(name("V2"), Operand::Variable(name("V1"))).eval(&variables));
    assert_eq!(Operand::Variable(name("V2")).value(&variables).map(|n| n.to_bits()), None);
    assert_eq!(
        Operand::Variable(name("V1")).value(&variables).map(|n| n.to_bits()),
        Some(0.0f32.to_bits())
    );
}

#[test]
fn comparison_of_two_variables() {
    let mut variables = VariableManager::new();
    variables.set_float(name("V1"), num(0.0));
    variables.set_float(name("V2"), num(1.0));
    assert!(!Condition::Eq(name("V1"), Operand::Variable(name("V2"))).eval(&variables));
    assert!(Condition::Lt(name("V1"), Operand::Variable(name("V2"))).eval(&variables));
    assert!(Condition::Gt(name("V2"), Operand::Variable(name("V1"))).eval(&variables));
    variables.set_float(name("V2"), num(0.0));
    assert!(Condition::Eq(name("V1"), Operand::Variable(name("V2"))).eval(&variables));
}

#[test]
fn comparison_with_nan_is_false() {
    let mut variables = VariableManager::new();
    variables.set_float(name("V1"), num(f32::NAN));
    assert!(!Condition::Eq(name("V1"), Operand::Variable(name("V1"))).eval(&variables));
    assert!(!Condition::Gt(name("V1"), Operand::Value(num(0.0))).eval(&variables));
    assert!(!Condition::Lt(name("V1"), Operand::Value(num(0.0))).eval(&variables));
}

#[test]
fn trigger_condition_reads_the_armed_set() {
    let mut variables = VariableManager::new();
    let condition = Condition::Trigger(name("T1"));
    assert!(!condition.eval(&variables));
    variables.set_trigger(name("T1"));
    assert!(condition.eval(&variables));
    variables.reset_triggers();
    assert!(!condition.eval(&variables));
}

#[test]
fn all_true_is_the_conjunction() {
    let mut variables = VariableManager::new();
    variables.set_float(name("V1"), num(1.0));
    variables.set_trigger(name("T1"));
    let holds = Condition::Gt(name("V1"), Operand::Value(num(0.0)));
    let fails = Condition::Lt(name("V1"), Operand::Value(num(0.0)));
    let armed = Condition::Trigger(name("T1"));
    assert!(Condition::all_true(&[], &variables));
    assert!(Condition::all_true(&[holds.clone(), armed.clone()], &variables));
    assert!(!Condition::all_true(&[holds.clone(), fails.clone()], &variables));
    assert!(!Condition::all_true(&[fails.clone(), holds.clone()], &variables));
    assert!(!Condition::all_true(&[holds, armed, fails], &variables));
}
