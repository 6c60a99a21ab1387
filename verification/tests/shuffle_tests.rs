use gx::interpreter::shuffle::shuffle_with;
use gx::value::Value;

fn nums(ns: &[f64]) -> Vec<Value> {
    ns.iter().map(|n| Value::Number(n.to_bits())).collect()
}

fn back(vs: &[Value]) -> Vec<f64> {
    vs.iter()
        .map(|v| match v {
            Value::Number(b) => f64::from_bits(*b),
            _ => f64::NAN,
        })
        .collect()
}

#[test]
fn shuffle_preserves_length_and_every_element_without_mutating_the_original() {
    let original = nums(&[1.0, 2.0, 3.0, 4.0, 5.0]);
    let mut items = original.clone();
    shuffle_with(&mut items, &[0, 0, 1, 0, 2]);
    let mut sorted = back(&items);
    sorted.sort_by(|a, b| a.partial_cmp(b).unwrap());
    assert_eq!(sorted, vec![1.0, 2.0, 3.0, 4.0, 5.0]);
    assert_eq!(back(&original), vec![1.0, 2.0, 3.0, 4.0, 5.0]);
}

#[test]
fn shuffle_handles_empty_and_single_element_arrays() {
    let mut empty: Vec<Value> = vec![];
    shuffle_with(&mut empty, &[]);
    assert!(empty.is_empty());
    let mut one = nums(&[1.0]);
    shuffle_with(&mut one, &[0]);
    assert_eq!(back(&one), vec![1.0]);
}

#[test]
fn each_position_from_the_last_swaps_with_its_draw() {
    // i = 3 swaps with 0, i = 2 with 2 (kept), i = 1 with 0.
    let mut items = nums(&[1.0, 2.0, 3.0, 4.0]);
    shuffle_with(&mut items, &[0, 0, 2, 0]);
    assert_eq!(back(&items), vec![2.0, 4.0, 3.0, 1.0]);
    // A draw above its position counts as the position itself.
    let mut items = nums(&[1.0, 2.0]);
    shuffle_with(&mut items, &[0, 9]);
    assert_eq!(back(&items), vec![1.0, 2.0]);
}
