//! From the printed list of a circuit's gates to one proposition for each
//! gate polynomial.
//!
//! In the list a selector reads `S3`, and a cell reads `A1@0`, `F2@-1` or
//! `I0@1`: the kind of its column, the column, and the row relative to the
//! current one. The proposition reads them from the circuit `ctx` at the
//! row `row`. Only whole words of these shapes are rewritten: `DELTA1@0`
//! and `0xA` hold none.

use crate::document::{numbered, numbered_terms};
use crate::pattern::{regex_replace_all, replace_all, rewritten_text};
use crate::scope::is_digit;
use crate::text::{
    chars_of, contains_char, decimal, found_at, free_of, join, joined,
    lemma_replaced_without_pattern, lines, lines_of, push_decimal, replace, replaced, slice_of,
    string_of, texts,
};
use crate::utils::{kind_name, ColumnKind};
use vstd::prelude::*;
use vstd::string::StringExecFns;

verus! {

/// A selector in the list of gates: `S` and its column, a word of its own.
pub const SELECTOR_TOKEN: &'static str = r"\bS(?P<column>\d+)\b";

/// What a selector becomes: the selector table of the circuit, read at its
/// column and the current row.
pub const SELECTOR_CALL: &'static str = "ctx.Selector $column row";

/// A cell of an advice column in the list of gates: `A`, its column, `@`
/// and its row offset, a word of its own.
pub const ADVICE_TOKEN: &'static str = r"\bA(?P<column>\d+)@(?P<row>-?\d+)\b";

/// What a cell of an advice column becomes: the advice table of the
/// circuit, read at its column and at its row.
pub const ADVICE_CALL: &'static str = "ctx.Advice $column (row + $row)";

/// A cell of an instance column in the list of gates.
pub const INSTANCE_TOKEN: &'static str = r"\bI(?P<column>\d+)@(?P<row>-?\d+)\b";

/// What a cell of an instance column becomes.
pub const INSTANCE_CALL: &'static str = "ctx.Instance $column (row + $row)";

/// A cell of a fixed column in the list of gates.
pub const FIXED_TOKEN: &'static str = r"\bF(?P<column>\d+)@(?P<row>-?\d+)\b";

/// What a cell of a fixed column becomes.
pub const FIXED_CALL: &'static str = "ctx.Fixed $column (row + $row)";

/// Whether a line of the list holds a gate polynomial: it does unless it
/// has a colon. A line with a colon names a gate or a constraint, or counts
/// them.
pub open spec fn holds_polynomial(line: Seq<char>) -> bool {
    !line.contains(':')
}

/// The lines of the list of gates that hold a gate polynomial, in their
/// order.
pub open spec fn gate_lines(gates: Seq<char>) -> Seq<Seq<char>> {
    lines_of(gates).filter(|line: Seq<char>| holds_polynomial(line))
}

/// A row offset as the list of gates writes it: digits, behind a minus
/// sign or not.
pub open spec fn is_offset(offset: Seq<char>) -> bool {
    forall|j: int| 0 <= j < offset.len() ==> is_digit(#[trigger] offset[j]) || offset[j] == '-'
}

/// A cell as the circuit reads it: the table of its kind, at a column, at
/// the current row and an offset.
pub open spec fn cell_read(kind: ColumnKind, column: Seq<char>, offset: Seq<char>) -> Seq<char> {
    "ctx."@ + kind_name(kind) + " "@ + column + " (row + "@ + offset + ")"@
}

/// A cell as the circuit reads it at the current row itself.
pub open spec fn cell_read_here(kind: ColumnKind, column: Seq<char>) -> Seq<char> {
    "ctx."@ + kind_name(kind) + " "@ + column + " (row)"@
}

/// A line whose selectors and cells are rewritten, made ready: a row offset
/// of zero goes, and so does a minus sign at the very beginning, which
/// changes nothing for a polynomial that is to be zero. Every other
/// character stays.
pub open spec fn finished(rewritten: Seq<char>) -> Seq<char> {
    let plain = replaced(rewritten, "(row + 0)"@, "(row)"@);
    if plain.len() > 0 && plain[0] == '-' {
        plain.skip(1)
    } else {
        plain
    }
}

/// The polynomial of a gate line in the terms of the circuit `ctx`: its
/// selectors rewritten, then its advice, instance and fixed cells, and the
/// outcome finished. `None` where the `regex` crate does not take one of
/// the four patterns.
pub open spec fn gate_polynomial(line: Seq<char>) -> Option<Seq<char>> {
    match regex_replace_all(SELECTOR_TOKEN@, line, SELECTOR_CALL@) {
        Some(selectors) => match regex_replace_all(ADVICE_TOKEN@, selectors, ADVICE_CALL@) {
            Some(advice) => match regex_replace_all(INSTANCE_TOKEN@, advice, INSTANCE_CALL@) {
                Some(instance) => match regex_replace_all(FIXED_TOKEN@, instance, FIXED_CALL@) {
                    Some(fixed) => Some(finished(fixed)),
                    None => None,
                },
                None => None,
            },
            None => None,
        },
        None => None,
    }
}

/// Behind a head that is free of the first character of the pattern, a
/// replacement goes on as if the head were not there.
proof fn lemma_replaced_behind(head: Seq<char>, s: Seq<char>, from: Seq<char>, to: Seq<char>)
    requires
        from.len() > 0,
        forall|j: int| 0 <= j < head.len() ==> #[trigger] head[j] != from[0],
    ensures
        replaced(head + s, from, to) == head + replaced(s, from, to),
    decreases head.len(),
{
    let all = head + s;
    if head.len() == 0 {
        assert(all =~= s);
        assert(head + replaced(s, from, to) =~= replaced(s, from, to));
    } else {
        assert(all[0] == head[0]);
        assert(!from.is_prefix_of(all)) by {
            if from.is_prefix_of(all) {
                assert(all.subrange(0, from.len() as int)[0] == all[0]);
            }
        }
        assert(all.skip(1) =~= head.skip(1) + s);
        assert forall|j: int| 0 <= j < head.skip(1).len() implies #[trigger] head.skip(1)[j]
            != from[0] by {
            assert(head.skip(1)[j] == head[j + 1]);
        }
        lemma_replaced_behind(head.skip(1), s, from, to);
        assert(seq![head[0]] + (head.skip(1) + replaced(s, from, to)) =~= head + replaced(
            s,
            from,
            to,
        ));
    }
}

/// Finishing takes the offset from a cell that is read at offset zero, and
/// leaves a cell that is read at any other offset as it is, its sign too.
pub proof fn lemma_zero_offset_goes(kind: ColumnKind, column: Seq<char>, offset: Seq<char>)
    requires
        forall|j: int| 0 <= j < column.len() ==> is_digit(#[trigger] column[j]),
        is_offset(offset),
    ensures
        offset == "0"@ ==> finished(cell_read(kind, column, offset)) == cell_read_here(
            kind,
            column,
        ),
        offset != "0"@ ==> finished(cell_read(kind, column, offset)) == cell_read(
            kind,
            column,
            offset,
        ),
{
    reveal_strlit("ctx.");
    reveal_strlit("Advice");
    reveal_strlit("Fixed");
    reveal_strlit("Instance");
    reveal_strlit(" ");
    reveal_strlit(" (row + ");
    reveal_strlit("(row + ");
    reveal_strlit(" (row)");
    reveal_strlit(")");
    reveal_strlit("0");
    reveal_strlit("(row + 0)");
    reveal_strlit("(row)");
    let from = "(row + 0)"@;
    let to = "(row)"@;
    let head = "ctx."@ + kind_name(kind) + " "@ + column + " "@;
    let tail = "(row + "@ + offset + ")"@;
    let all = cell_read(kind, column, offset);
    assert(all =~= head + tail);
    assert forall|j: int| 0 <= j < head.len() implies #[trigger] head[j] != from[0] by {
        let name = kind_name(kind);
        if 4 <= j < 4 + name.len() {
            assert(head[j] == name[j - 4]);
        } else if 5 + name.len() <= j < 5 + name.len() + column.len() {
            assert(head[j] == column[j - 5 - name.len()]);
        }
    }
    lemma_replaced_behind(head, tail, from, to);
    assert(all[0] == 'c');
    if offset =~= "0"@ {
        assert(tail =~= from);
        assert(from.is_prefix_of(tail));
        assert(tail.skip(from.len() as int) =~= Seq::<char>::empty());
        assert(replaced(Seq::<char>::empty(), from, to) =~= Seq::<char>::empty());
        assert(tail.len() > 0 && from.len() > 0);
        assert(replaced(tail, from, to) == to + replaced(tail.skip(from.len() as int), from, to));
        assert(replaced(tail, from, to) =~= to);
        assert(head + to =~= cell_read_here(kind, column));
        assert((head + to)[0] == 'c');
    } else {
        assert forall|at: int| !found_at(tail, from, at) by {
            if found_at(tail, from, at) {
                assert(tail[at + 0] == from[0]);
                if at > 0 {
                    if 7 <= at < 7 + offset.len() {
                        assert(tail[at] == offset[at - 7]);
                    }
                } else {
                    assert(tail.len() >= 9);
                    assert(tail[at + 8] == from[8]);
                    assert(tail[at + 7] == from[7]);
                    if offset.len() >= 2 {
                        assert(tail[8] == offset[1]);
                    } else {
                        assert(offset.len() == 1);
                        assert(tail[7] == offset[0]);
                        assert(offset =~= "0"@);
                    }
                }
            }
        }
        lemma_replaced_without_pattern(tail, from, to);
        assert((head + tail)[0] == 'c');
    }
}

/// The proposition of one gate: its polynomial is zero at every row.
pub open spec fn gate_text(index: nat, polynomial: Seq<char>) -> Seq<char> {
    "def gate_"@ + decimal(index) + ": Prop := ∀ row : ℕ, "@ + polynomial + " = 0\n"@
}

/// One proposition for each of `lines`, numbered from 0 in their order.
/// `None` where one of them has no polynomial.
pub open spec fn gate_texts(lines: Seq<Seq<char>>) -> Option<Seq<char>>
    decreases lines.len(),
{
    if lines.len() == 0 {
        Some(Seq::empty())
    } else {
        match gate_texts(lines.drop_last()) {
            Some(front) => match gate_polynomial(lines.last()) {
                Some(polynomial) => Some(
                    front + gate_text((lines.len() - 1) as nat, polynomial),
                ),
                None => None,
            },
            None => None,
        }
    }
}

/// The proposition that all gates hold: the conjunction of one term for
/// each gate, or `true` where there is none.
pub open spec fn all_gates_text(count: nat) -> Seq<char> {
    if count == 0 {
        "def all_gates (_ctx: Circuit P P_Prime): Prop := true\n"@
    } else {
        "def all_gates: Prop := "@ + joined(numbered_terms("gate_"@, count), " ∧ "@) + "\n"@
    }
}

/// What is written out for the list of gates: a heading, one proposition
/// for each gate line, and the proposition that all of them hold.
pub open spec fn gates_document(gates: Seq<char>) -> Option<Seq<char>> {
    match gate_texts(gate_lines(gates)) {
        Some(definitions) => Some(
            "------GATES-------\n"@ + definitions + all_gates_text(gate_lines(gates).len()),
        ),
        None => None,
    }
}

/// Where no line holds a gate polynomial, what is written out is the
/// heading and the proposition `true`, and no conjunction without a term.
pub proof fn lemma_no_gates(gates: Seq<char>)
    requires
        gate_lines(gates).len() == 0,
    ensures
        gates_document(gates) == Some(
            "------GATES-------\n"@
                + "def all_gates (_ctx: Circuit P P_Prime): Prop := true\n"@,
        ),
{
}

/// The lines of the list of gates that hold a gate polynomial.
pub fn gate_lines_of(gates: &str) -> (kept: Vec<Vec<char>>)
    ensures
        texts(kept@) == gate_lines(gates@),
{
    let text = chars_of(gates);
    let all = lines(&text);
    let mut kept: Vec<Vec<char>> = Vec::new();
    let ghost shown = texts(all@);
    let ghost holds = |line: Seq<char>| holds_polynomial(line);
    let mut i: usize = 0;
    while i < all.len()
        invariant
            i <= all.len(),
            shown == texts(all@),
            holds == |line: Seq<char>| holds_polynomial(line),
            texts(kept@) == shown.take(i as int).filter(holds),
        decreases all.len() - i,
    {
        proof {
            reveal(Seq::filter);
            assert(shown.take(i + 1).drop_last() =~= shown.take(i as int));
        }
        if !contains_char(&all[i], ':') {
            let line = slice_of(&all[i], 0, all[i].len());
            proof {
                assert(line@ =~= all@[i as int]@);
            }
            kept.push(line);
        }
        i += 1;
    }
    assert(shown.take(all.len() as int) =~= shown);
    kept
}

/// Makes ready a line whose selectors and cells are rewritten. A line
/// without a row offset of zero and without a minus sign at its beginning
/// comes out as it went in.
pub fn finish_gate(rewritten: &str) -> (polynomial: String)
    ensures
        polynomial@ == finished(rewritten@),
        free_of(rewritten@, "(row + 0)"@) && !(rewritten@.len() > 0 && rewritten@[0] == '-')
            ==> polynomial@ == rewritten@,
{
    proof {
        if free_of(rewritten@, "(row + 0)"@) {
            lemma_replaced_without_pattern(rewritten@, "(row + 0)"@, "(row)"@);
        }
    }
    let text = chars_of(rewritten);
    let plain = replace(&text, &chars_of("(row + 0)"), &chars_of("(row)"));
    if plain.len() > 0 && plain[0] == '-' {
        let rest = slice_of(&plain, 1, plain.len());
        string_of(&rest)
    } else {
        string_of(&plain)
    }
}

/// The polynomial of a gate line in the terms of the circuit `ctx`.
pub fn rewrite_gate(line: &str) -> (polynomial: Option<String>)
    ensures
        rewritten_text(polynomial) == gate_polynomial(line@),
{
    let selectors = match replace_all(SELECTOR_TOKEN, line, SELECTOR_CALL) {
        Some(text) => text,
        None => {
            return None;
        },
    };
    let advice = match replace_all(ADVICE_TOKEN, selectors.as_str(), ADVICE_CALL) {
        Some(text) => text,
        None => {
            return None;
        },
    };
    let instance = match replace_all(INSTANCE_TOKEN, advice.as_str(), INSTANCE_CALL) {
        Some(text) => text,
        None => {
            return None;
        },
    };
    match replace_all(FIXED_TOKEN, instance.as_str(), FIXED_CALL) {
        Some(fixed) => Some(finish_gate(fixed.as_str())),
        None => None,
    }
}

/// Writes the proposition of one gate at the end of `out`.
pub fn push_gate(out: &mut String, index: usize, polynomial: &str)
    ensures
        final(out)@ == old(out)@ + gate_text(index as nat, polynomial@),
{
    out.append("def gate_");
    push_decimal(out, index as u128);
    out.append(": Prop := ∀ row : ℕ, ");
    out.append(polynomial);
    out.append(" = 0\n");
}

/// Writes the proposition that all gates hold at the end of `out`.
pub fn push_all_gates(out: &mut String, count: usize)
    ensures
        final(out)@ == old(out)@ + all_gates_text(count as nat),
{
    if count == 0 {
        out.append("def all_gates (_ctx: Circuit P P_Prime): Prop := true\n");
    } else {
        let terms = numbered("gate_", count);
        let body = join(&terms, " ∧ ");
        out.append("def all_gates: Prop := ");
        out.append(body.as_str());
        out.append("\n");
    }
}

} // verus!
