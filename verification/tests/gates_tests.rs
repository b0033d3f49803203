use halo2_extr::extraction::print_gates;
use halo2_extr::gates::{finish_gate, gate_lines_of, push_all_gates, push_gate, rewrite_gate};

fn kept(gates: &str) -> Vec<String> {
    gate_lines_of(gates).into_iter().map(|l| l.into_iter().collect()).collect()
}

#[test]
fn one_gate_in_the_terms_of_the_circuit() {
    assert_eq!(
        print_gates("S0 * (A1@0 - A2@-1)"),
        Some(
            "------GATES-------
def gate_0: Prop := ∀ row : ℕ, ctx.Selector 0 row * (ctx.Advice 1 (row) - ctx.Advice 2 (row + -1)) = 0
def all_gates: Prop := gate_0 ctx
"
            .to_string()
        )
    );
}

#[test]
fn one_named_line_and_two_polynomials_give_two_gates() {
    assert_eq!(
        print_gates("arithmetic:\nS0 * (A0@0 + A1@0 - A2@0)\nS1 * (A0@0 * A1@0 - A2@1)\n"),
        Some(
            "------GATES-------
def gate_0: Prop := ∀ row : ℕ, ctx.Selector 0 row * (ctx.Advice 0 (row) + ctx.Advice 1 (row) - ctx.Advice 2 (row)) = 0
def gate_1: Prop := ∀ row : ℕ, ctx.Selector 1 row * (ctx.Advice 0 (row) * ctx.Advice 1 (row) - ctx.Advice 2 (row + 1)) = 0
def all_gates: Prop := gate_0 ctx ∧ gate_1 ctx
"
            .to_string()
        )
    );
}

#[test]
fn no_gate_gives_the_proposition_true() {
    let none = "------GATES-------
def all_gates (_ctx: Circuit P P_Prime): Prop := true
";
    assert_eq!(print_gates(""), Some(none.to_string()));
    assert_eq!(print_gates("Total gates: 0\n"), Some(none.to_string()));
    assert_eq!(
        print_gates("Total gates: 0\nTotal custom constraint polynomials: 0\nTotal negations: 0\n"),
        Some(none.to_string())
    );
}

#[test]
fn an_empty_line_holds_an_empty_polynomial() {
    assert_eq!(
        print_gates("\n"),
        Some(
            "------GATES-------
def gate_0: Prop := ∀ row : ℕ,  = 0
def all_gates: Prop := gate_0 ctx
"
            .to_string()
        )
    );
}

#[test]
fn the_printed_list_of_a_circuit() {
    let gates = "R1CS constraint:
- R1CS:
  S0 * (A0@0 * A1@0 - A2@0)
range:
- S1 * F0@0 * (I0@-2 - A3@1)
Total gates: 2
Total custom constraint polynomials: 2
Total negations: 2
Total additions: 2
Total multiplications: 4
";
    assert_eq!(
        kept(gates),
        vec!["  S0 * (A0@0 * A1@0 - A2@0)", "- S1 * F0@0 * (I0@-2 - A3@1)"]
    );
    assert_eq!(
        print_gates(gates),
        Some(
            "------GATES-------
def gate_0: Prop := ∀ row : ℕ,   ctx.Selector 0 row * (ctx.Advice 0 (row) * ctx.Advice 1 (row) - ctx.Advice 2 (row)) = 0
def gate_1: Prop := ∀ row : ℕ,  ctx.Selector 1 row * ctx.Fixed 0 (row) * (ctx.Instance 0 (row + -2) - ctx.Advice 3 (row + 1)) = 0
def all_gates: Prop := gate_0 ctx ∧ gate_1 ctx
"
            .to_string()
        )
    );
}

#[test]
fn lines_with_a_colon_hold_no_gate() {
    assert_eq!(kept("a:\nb\nc: d\n:e\nf"), vec!["b", "f"]);
    assert_eq!(kept(":"), Vec::<String>::new());
    assert_eq!(kept(""), Vec::<String>::new());
    assert_eq!(kept("a\r\nb:\r\nc"), vec!["a", "c"]);
}

#[test]
fn selectors_become_reads_of_the_selector_table() {
    assert_eq!(rewrite_gate("S0"), Some("ctx.Selector 0 row".to_string()));
    assert_eq!(
        rewrite_gate("S12 * S3"),
        Some("ctx.Selector 12 row * ctx.Selector 3 row".to_string())
    );
}

#[test]
fn cells_become_reads_of_their_table() {
    assert_eq!(rewrite_gate("A1@0"), Some("ctx.Advice 1 (row)".to_string()));
    assert_eq!(rewrite_gate("F2@1"), Some("ctx.Fixed 2 (row + 1)".to_string()));
    assert_eq!(rewrite_gate("I0@-3"), Some("ctx.Instance 0 (row + -3)".to_string()));
    assert_eq!(rewrite_gate("A10@10"), Some("ctx.Advice 10 (row + 10)".to_string()));
}

#[test]
fn only_a_row_offset_of_zero_goes() {
    assert_eq!(rewrite_gate("A1@0 + 0"), Some("ctx.Advice 1 (row) + 0".to_string()));
    assert_eq!(rewrite_gate("A1@0 + 0x2a"), Some("ctx.Advice 1 (row) + 0x2a".to_string()));
    assert_eq!(rewrite_gate("A1@00"), Some("ctx.Advice 1 (row + 00)".to_string()));
    assert_eq!(rewrite_gate("A1@-0"), Some("ctx.Advice 1 (row + -0)".to_string()));
}

#[test]
fn a_minus_sign_at_the_beginning_goes() {
    assert_eq!(rewrite_gate("-A1@0"), Some("ctx.Advice 1 (row)".to_string()));
    assert_eq!(rewrite_gate("-(A1@0 - A2@0)"), Some("(ctx.Advice 1 (row) - ctx.Advice 2 (row))".to_string()));
    assert_eq!(rewrite_gate("--1"), Some("-1".to_string()));
    assert_eq!(rewrite_gate(" -1"), Some(" -1".to_string()));
    assert_eq!(rewrite_gate("-"), Some("".to_string()));
    assert_eq!(rewrite_gate(""), Some("".to_string()));
}

#[test]
fn constants_and_operators_stay() {
    assert_eq!(rewrite_gate("1 + 2 * 0x2a"), Some("1 + 2 * 0x2a".to_string()));
    assert_eq!(
        rewrite_gate("S0 * (1 - S0)"),
        Some("ctx.Selector 0 row * (1 - ctx.Selector 0 row)".to_string())
    );
}

#[test]
fn finishing_takes_an_offset_of_zero_and_a_first_minus_sign() {
    assert_eq!(finish_gate("ctx.Advice 1 (row + 0)"), "ctx.Advice 1 (row)");
    assert_eq!(finish_gate("ctx.Instance 3 (row + 0)"), "ctx.Instance 3 (row)");
    assert_eq!(finish_gate("ctx.Instance 1 (row + 5)"), "ctx.Instance 1 (row + 5)");
    assert_eq!(finish_gate("ctx.Fixed 1 (row + -5)"), "ctx.Fixed 1 (row + -5)");
    assert_eq!(finish_gate("-x"), "x");
    assert_eq!(finish_gate("-(row + 0)"), "(row)");
    assert_eq!(finish_gate(""), "");
}

#[test]
fn finishing_leaves_every_other_character() {
    for text in [
        "0xA * 2",
        "DELTA * 2",
        "A 1 + I 2 + F 3",
        "x@y",
        "x - y",
        "1 + 0x2a",
        "(row + 00)",
        "(row + 0",
        "row + 0)",
        " -x",
        "ctx.Advice 1 (row + 10)",
    ] {
        assert_eq!(finish_gate(text), text);
    }
}

#[test]
fn only_whole_words_are_selectors_and_cells() {
    for line in [
        "0xA * 2",
        "DELTA * 2",
        "DELTA1@0",
        "xS0",
        "S0x",
        "S",
        "S 0",
        "0xA1@0",
        "A1@0x2",
        "A1@",
        "A@0",
        "A1 @0",
        "a1@0",
        "B1@0",
        "A1@0_",
        "MSB1",
        "x@y",
    ] {
        assert_eq!(rewrite_gate(line), Some(line.to_string()), "{:?}", line);
    }
}

#[test]
fn words_between_operators_are_rewritten() {
    assert_eq!(
        rewrite_gate("(S0)*(A1@0+I2@-1)-F3@4"),
        Some(
            "(ctx.Selector 0 row)*(ctx.Advice 1 (row)+ctx.Instance 2 (row + -1))-ctx.Fixed 3 (row + 4)"
                .to_string()
        )
    );
    assert_eq!(
        rewrite_gate("0xA * A1@0 + DELTA * S2"),
        Some("0xA * ctx.Advice 1 (row) + DELTA * ctx.Selector 2 row".to_string())
    );
}

#[test]
fn a_gate_is_zero_at_every_row() {
    let mut out = String::from("before\n");
    push_gate(&mut out, 3, "ctx.Advice 0 (row)");
    assert_eq!(out, "before\ndef gate_3: Prop := ∀ row : ℕ, ctx.Advice 0 (row) = 0\n");
}

#[test]
fn all_gates_join_one_term_for_each() {
    let mut none = String::new();
    push_all_gates(&mut none, 0);
    assert_eq!(none, "def all_gates (_ctx: Circuit P P_Prime): Prop := true\n");
    let mut one = String::new();
    push_all_gates(&mut one, 1);
    assert_eq!(one, "def all_gates: Prop := gate_0 ctx\n");
    let mut three = String::new();
    push_all_gates(&mut three, 3);
    assert_eq!(three, "def all_gates: Prop := gate_0 ctx ∧ gate_1 ctx ∧ gate_2 ctx\n");
}

#[test]
fn gates_are_numbered_in_the_order_of_their_lines() {
    let gates: String = (0..12).map(|i| format!("name {}:\nA{}@0\n", i, i)).collect();
    let text = print_gates(&gates).unwrap();
    let lines: Vec<&str> = text.lines().collect();
    assert_eq!(lines.len(), 14);
    assert_eq!(lines[0], "------GATES-------");
    for i in 0..12 {
        assert_eq!(
            lines[i + 1],
            format!("def gate_{}: Prop := ∀ row : ℕ, ctx.Advice {} (row) = 0", i, i)
        );
    }
    let terms: Vec<String> = (0..12).map(|i| format!("gate_{} ctx", i)).collect();
    assert_eq!(lines[13], format!("def all_gates: Prop := {}", terms.join(" ∧ ")));
}
