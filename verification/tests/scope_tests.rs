use halo2_extr::scope::{begins_reference, has_numerals, scope};

fn chars(s: &str) -> Vec<char> {
    s.chars().collect()
}

#[test]
fn numerals_are_a_column_a_space_and_a_row() {
    assert!(has_numerals(&chars("0 1"), 0));
    assert!(has_numerals(&chars("12 345"), 0));
    assert!(has_numerals(&chars("12 345"), 1));
    assert!(has_numerals(&chars("x12 3)"), 1));
    assert!(!has_numerals(&chars("12 345"), 2));
    assert!(!has_numerals(&chars("12 345"), 3));
    assert!(!has_numerals(&chars("12"), 0));
    assert!(!has_numerals(&chars("12 "), 0));
    assert!(!has_numerals(&chars("12 x"), 0));
    assert!(!has_numerals(&chars("12  3"), 0));
    assert!(!has_numerals(&chars(" 1 2"), 0));
    assert!(!has_numerals(&chars(""), 0));
    assert!(!has_numerals(&chars("1 2"), 3));
    assert!(!has_numerals(&chars("1 2"), 7));
}

#[test]
fn a_reference_begins_the_text_or_stands_behind_a_space_or_a_bracket() {
    assert!(begins_reference(&chars("Instance 0 1"), 0));
    assert!(begins_reference(&chars(" Instance 0 1"), 1));
    assert!(begins_reference(&chars("(Instance 0 1)"), 1));
    assert!(!begins_reference(&chars("xInstance 0 1"), 1));
    assert!(!begins_reference(&chars(".Instance 0 1"), 1));
    assert!(!begins_reference(&chars(" Instance 0 1"), 0));
    assert!(!begins_reference(&chars("Instance 0 1"), 1));
    assert!(!begins_reference(&chars("Instance 0 1"), 12));
    assert!(!begins_reference(&chars("InstanceCount"), 0));
    assert!(!begins_reference(&chars("Instance 0"), 0));
    assert!(!begins_reference(&chars("Instance"), 0));
    assert!(!begins_reference(&chars(""), 0));
}

#[test]
fn scope_puts_the_circuit_before_each_reference() {
    assert_eq!(scope(&chars("Instance 0 1 + (Instance 2 3)")), "ctx.Instance 0 1 + (ctx.Instance 2 3)");
    assert_eq!(scope(&chars("0x1f + InstanceCount")), "0x1f + InstanceCount");
    assert_eq!(scope(&chars("")), "");
}
