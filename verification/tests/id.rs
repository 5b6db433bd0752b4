use turntable::id::fresh_id_value;

#[test]
fn fresh_values_avoid_taken_ones() {
    let taken: Vec<u64> = (1..=20).collect();
    let value = fresh_id_value(&taken);
    assert!(value != 0);
    assert!(!taken.contains(&value));
}
