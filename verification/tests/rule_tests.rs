use std::collections::hash_map::DefaultHasher;
use std::hash::{Hash, Hasher};

use biocomputation_ga::rule::{Rule, RuleEvaluationError};

fn hash_of(rule: &Rule) -> u64 {
    let mut hasher = DefaultHasher::new();
    rule.hash(&mut hasher);
    hasher.finish()
}

#[test]
fn test_empty_rule_matches_everything() {
    let rule = Rule::new();
    assert_eq!(rule.evaluate("00000").unwrap(), true);
    assert_eq!(rule.evaluate("").unwrap(), true);
}

#[test]
fn test_evaluate_agreement_and_flip() {
    let mut rule = Rule::new();
    rule.set_constraint(0, '1');
    rule.set_constraint(2, '0');
    // Every constrained position agrees.
    assert_eq!(rule.evaluate("100").unwrap(), true);
    assert_eq!(rule.evaluate("110").unwrap(), true);
    // Flipping either constrained symbol makes the rule fail.
    assert_eq!(rule.evaluate("000").unwrap(), false);
    assert_eq!(rule.evaluate("101").unwrap(), false);
}

#[test]
fn test_evaluate_out_of_range() {
    let mut rule = Rule::new();
    rule.set_constraint(10, '1');
    assert_eq!(
        rule.evaluate("01").unwrap_err(),
        RuleEvaluationError::IndexOutOfRange
    );
}

#[test]
fn test_insertion_order_irrelevant() {
    let mut first = Rule::new();
    first.set_constraint(2, '1');
    first.set_constraint(0, '0');

    let mut second = Rule::new();
    second.set_constraint(0, '0');
    second.set_constraint(2, '1');

    assert_eq!(first, second);
    assert_eq!(hash_of(&first), hash_of(&second));
    assert_eq!(first.to_string(), second.to_string());
}

#[test]
fn test_to_string_canonical() {
    let mut rule = Rule::new();
    rule.set_constraint(2, '1');
    rule.set_constraint(0, '0');
    assert_eq!(rule.to_string(), "0_1");
    assert_eq!(Rule::new().to_string(), "");

    let mut tail = Rule::new();
    tail.set_constraint(3, '1');
    assert_eq!(tail.to_string(), "___1");
}

#[test]
fn test_set_and_remove_constraint() {
    let mut rule = Rule::new();
    rule.set_constraint(1, '0');
    assert_eq!(rule.get_constraint(1), Some('0'));
    assert_eq!(rule.get_constraint(0), None);
    rule.set_constraint(1, '1');
    assert_eq!(rule.get_constraint(1), Some('1'));
    assert_eq!(rule.len(), 1);
    assert_eq!(rule.remove_constraint(1), Some('1'));
    assert_eq!(rule.remove_constraint(1), None);
    assert_eq!(rule.len(), 0);
}

#[test]
fn test_replacing_value_changes_equality() {
    let mut a = Rule::new();
    a.set_constraint(0, '0');
    let mut b = Rule::new();
    b.set_constraint(0, '1');
    assert_ne!(a, b);
}
