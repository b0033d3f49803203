use halo2_extr::step::{compact, is_zero, value_cases, Breakpoint, Case, CaseTable, StepFunction};
use std::collections::{BTreeMap, BTreeSet};

fn rows(of: &[usize]) -> BTreeSet<usize> {
    of.iter().copied().collect()
}

fn points(f: &StepFunction) -> Vec<(usize, bool)> {
    f.breakpoints.iter().map(|p| (p.above, p.value)).collect()
}

fn values(of: &[(usize, &str)]) -> BTreeMap<usize, String> {
    of.iter().map(|(row, value)| (*row, value.to_string())).collect()
}

fn cases(t: &CaseTable) -> Vec<(usize, String)> {
    t.cases.iter().map(|c| (c.row, c.value.clone())).collect()
}

#[test]
fn step_function_of_some_rows() {
    let f = compact(&rows(&[1, 2, 5]));
    assert_eq!(points(&f), vec![(5, false), (4, true), (2, false), (0, true)]);
    assert!(!f.default);
}

#[test]
fn step_function_is_true_at_the_active_rows_only() {
    let active = [1usize, 2, 5, 9, 10, 11, 40];
    let f = compact(&rows(&active));
    for row in 0..100 {
        assert_eq!(f.value_at(row), active.contains(&row), "row {}", row);
    }
    assert!(!f.value_at(1000));
    assert!(!f.value_at(usize::MAX));
}

#[test]
fn step_function_of_no_rows_is_false_everywhere() {
    let f = compact(&rows(&[]));
    assert_eq!(points(&f), vec![]);
    assert!(!f.default);
    assert!(!f.value_at(0));
    assert!(!f.value_at(1));
    assert!(!f.value_at(usize::MAX));
}

#[test]
fn step_function_of_row_zero_alone() {
    let f = compact(&rows(&[0]));
    assert_eq!(points(&f), vec![(0, false)]);
    assert!(f.default);
    assert!(f.value_at(0));
    assert!(!f.value_at(1));
}

#[test]
fn step_function_of_a_run_from_row_zero() {
    let f = compact(&rows(&[0, 1, 2, 3]));
    assert_eq!(points(&f), vec![(3, false)]);
    assert!(f.default);
    for row in 0..4 {
        assert!(f.value_at(row));
    }
    assert!(!f.value_at(4));
}

#[test]
fn step_function_of_a_single_high_row() {
    let f = compact(&rows(&[1000]));
    assert_eq!(points(&f), vec![(1000, false), (999, true)]);
    assert!(!f.default);
    assert!(f.value_at(1000));
    assert!(!f.value_at(999));
    assert!(!f.value_at(1001));
}

#[test]
fn step_function_has_a_breakpoint_at_each_change_only() {
    let f = compact(&rows(&[2, 3, 4, 7, 8]));
    assert_eq!(points(&f), vec![(8, false), (6, true), (4, false), (1, true)]);
}

#[test]
fn value_at_reads_the_arms_in_their_order() {
    let f = StepFunction {
        breakpoints: vec![
            Breakpoint { above: 5, value: false },
            Breakpoint { above: 2, value: true },
        ],
        default: false,
    };
    assert!(!f.value_at(6));
    assert!(f.value_at(5));
    assert!(f.value_at(3));
    assert!(!f.value_at(2));
    assert!(!f.value_at(0));
}

#[test]
fn is_zero_takes_the_one_text() {
    assert!(is_zero("0"));
    assert!(!is_zero(""));
    assert!(!is_zero("00"));
    assert!(!is_zero("0 "));
    assert!(!is_zero("1"));
    assert!(!is_zero("0x0"));
}

#[test]
fn value_cases_leave_out_the_zeros() {
    let t = value_cases(&values(&[(3, "5"), (1, "0"), (7, "ctx.Instance 0 1"), (4, "0")]));
    assert_eq!(
        cases(&t),
        vec![(3, "5".to_string()), (7, "ctx.Instance 0 1".to_string())]
    );
}

#[test]
fn value_cases_give_back_what_was_recorded() {
    let recorded = values(&[(0, "1"), (3, "5"), (1, "0"), (7, "ctx.Instance 0 1"), (4, "0x2a")]);
    let t = value_cases(&recorded);
    for row in 0..20usize {
        let expected = recorded.get(&row).cloned().unwrap_or("0".to_string());
        assert_eq!(t.value_at(row), expected, "row {}", row);
    }
    assert_eq!(t.value_at(usize::MAX), "0");
}

#[test]
fn value_cases_of_an_empty_column() {
    let t = value_cases(&values(&[]));
    assert_eq!(cases(&t), vec![]);
    assert_eq!(t.value_at(0), "0");
}

#[test]
fn value_at_takes_the_first_arm_of_a_row() {
    let t = CaseTable {
        cases: vec![
            Case { row: 2, value: "a".to_string() },
            Case { row: 2, value: "b".to_string() },
        ],
    };
    assert_eq!(t.value_at(2), "a");
    assert_eq!(t.value_at(1), "0");
}
