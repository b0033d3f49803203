//! The text of each part of the document, and the functions that write it.

use crate::gates::gates_document;
use crate::order::{ascending, lemma_ascending, map_keys};
use crate::step::{
    active, breakpoints_of, compact, entries, entries_of, value_cases, Breakpoint, CaseTable,
    Entry, StepFunction,
};
use crate::tables::{row_sets, value_maps, Tables};
use crate::text::{decimal, join, joined, push_decimal, views};
use crate::utils::{kind_name, Halo2Column};
use std::collections::BTreeMap;
use std::collections::BTreeSet;
use vstd::prelude::*;
use vstd::string::StringExecFns;

verus! {

/// A column as a cell reference names it: its kind and its index.
pub open spec fn cell_text(column: Halo2Column) -> Seq<char> {
    kind_name(column.column_type) + " "@ + decimal(column.index as nat)
}

/// The value that stands for a cell of an instance column until it is
/// scoped: the column and the row.
pub open spec fn instance_text(column: Halo2Column, row: usize) -> Seq<char> {
    cell_text(column) + " "@ + decimal(row as nat)
}

/// The proposition of one copy constraint: the two cells are equal.
pub open spec fn copy_text(
    index: nat,
    left: Halo2Column,
    left_row: usize,
    right: Halo2Column,
    right_row: usize,
) -> Seq<char> {
    "def copy_"@ + decimal(index) + ": Prop := ctx."@ + cell_text(left) + " "@ + decimal(
        left_row as nat,
    ) + " = ctx."@ + cell_text(right) + " "@ + decimal(right_row as nat) + "\n"@
}

/// The note that a region was entered.
pub open spec fn entered_text(name: Seq<char>) -> Seq<char> {
    "\n-- Entered region: "@ + name + "\n"@
}

/// The note that a region was left.
pub open spec fn exited_text(name: Seq<char>) -> Seq<char> {
    "-- Exited region: "@ + name + "\n"@
}

/// The beginning of the document: what it imports, the namespace `name`,
/// and a circuit as its four tables, each a function of column and row
/// into the integers modulo a prime `P`.
pub open spec fn preamble_text(name: Seq<char>) -> Seq<char> {
    "import Mathlib.Data.Nat.Prime.Defs\nimport Mathlib.Data.Nat.Prime.Basic\nimport Mathlib.Data.ZMod.Defs\nimport Mathlib.Data.ZMod.Basic\n\nnamespace "@
        + name
        + "\n\nstructure Circuit (P: ℕ) (P_Prime: Nat.Prime P) :=\n  Advice: ℕ → ℕ → ZMod P\n  Fixed: ℕ → ℕ → ZMod P\n  Instance: ℕ → ℕ → ZMod P\n  Selector: ℕ → ℕ → ZMod P\n"@
}

/// The declaration of the circuit `ctx` that all that follows speaks of.
pub open spec fn variable_text() -> Seq<char> {
    "\nvariable {P: ℕ} {P_Prime: Nat.Prime P} (ctx: Circuit P P_Prime)\n"@
}

/// The end of the document: the proposition that the circuit meets its
/// constraints, and the end of the namespace `name`. The circuit meets them
/// if its selector table is the function derived for it, all gates and all
/// copy constraints hold, and its fixed table is the function derived for
/// it. Advice is no part of it.
pub open spec fn postamble_text(name: Seq<char>) -> Seq<char> {
    "def meets_constraints: Prop := ctx.Selector = selector_func ∧ all_gates ctx ∧ all_copy_constraints ctx ∧ ctx.Fixed = fixed_func\nend "@
        + name + "\n"@
}

/// The terms `prefix0 ctx`, `prefix1 ctx` and so on, `count` of them.
pub open spec fn numbered_terms(prefix: Seq<char>, count: nat) -> Seq<Seq<char>> {
    Seq::new(count, |i: int| prefix + decimal(i as nat) + " ctx"@)
}

/// The proposition that all copy constraints hold: the conjunction of one
/// term for each of them, or `true` where there is none.
pub open spec fn copy_constraints_text(copies: nat) -> Seq<char> {
    if copies == 0 {
        "def all_copy_constraints (_ctx: Circuit P P_Prime): Prop := true\n"@
    } else {
        "def all_copy_constraints (ctx: Circuit P P_Prime): Prop := "@ + joined(
            numbered_terms("copy_"@, copies),
            " ∧ "@,
        ) + "\n"@
    }
}

/// The text of a selector's value.
pub open spec fn bit_text(value: bool) -> Seq<char> {
    if value {
        "1"@
    } else {
        "0"@
    }
}

/// The arm of one breakpoint.
pub open spec fn breakpoint_arm(point: Breakpoint) -> Seq<char> {
    "    | _+"@ + decimal((point.above + 1) as nat) + " => "@ + bit_text(point.value) + "\n"@
}

/// The arms of the breakpoints, in their order.
pub open spec fn breakpoint_arms(points: Seq<Breakpoint>) -> Seq<char>
    decreases points.len(),
{
    if points.len() == 0 {
        Seq::empty()
    } else {
        breakpoint_arms(points.drop_last()) + breakpoint_arm(points.last())
    }
}

/// The definition of the function of one selector column with these
/// breakpoints.
pub open spec fn step_function_text(col: usize, points: Seq<Breakpoint>, default: bool) -> Seq<
    char,
> {
    "def selector_func_col_"@ + decimal(col as nat)
        + " : ℕ → ZMod P :=\n  λ row => match row with\n"@ + breakpoint_arms(points)
        + "    | _ => "@ + bit_text(default) + "\n"@
}

/// The definition of the function of one selector column that is active at
/// `rows`.
pub open spec fn selector_column_text(col: usize, rows: Set<usize>) -> Seq<char> {
    step_function_text(col, breakpoints_of(rows), active(rows, 0))
}

/// The definitions of the functions of the selector columns `cols`.
pub open spec fn selector_columns_text(selectors: Map<usize, Set<usize>>, cols: Seq<usize>) -> Seq<
    char,
>
    decreases cols.len(),
{
    if cols.len() == 0 {
        Seq::empty()
    } else {
        selector_columns_text(selectors, cols.drop_last()) + selector_column_text(
            cols.last(),
            selectors[cols.last()],
        )
    }
}

/// The arm of one entry.
pub open spec fn entry_arm(entry: Entry) -> Seq<char> {
    "    | "@ + decimal(entry.row as nat) + " => "@ + entry.value + "\n"@
}

/// The arms of the entries, in their order.
pub open spec fn entry_arms(entries: Seq<Entry>) -> Seq<char>
    decreases entries.len(),
{
    if entries.len() == 0 {
        Seq::empty()
    } else {
        entry_arms(entries.drop_last()) + entry_arm(entries.last())
    }
}

/// The definition of the function of one fixed column with these entries.
pub open spec fn case_table_text(col: usize, entries: Seq<Entry>) -> Seq<char> {
    "def fixed_func_col_"@ + decimal(col as nat)
        + " : ℕ → ZMod P :=\n  λ row => match row with\n"@ + entry_arms(entries)
        + "    | _ => 0\n"@
}

/// The definition of the function of one fixed column that holds `values`.
pub open spec fn fixed_column_text(col: usize, values: Map<usize, Seq<char>>) -> Seq<char> {
    case_table_text(col, entries_of(values))
}

/// The definitions of the functions of the fixed columns `cols`.
pub open spec fn fixed_columns_text(fixed: Map<usize, Map<usize, Seq<char>>>, cols: Seq<usize>) -> Seq<
    char,
>
    decreases cols.len(),
{
    if cols.len() == 0 {
        Seq::empty()
    } else {
        fixed_columns_text(fixed, cols.drop_last()) + fixed_column_text(
            cols.last(),
            fixed[cols.last()],
        )
    }
}

/// The arm that sends one column to its function.
pub open spec fn dispatch_arm(function: Seq<char>, col: usize) -> Seq<char> {
    "    | "@ + decimal(col as nat) + " => "@ + function + "_col_"@ + decimal(col as nat)
        + " row\n"@
}

/// The arms that send the columns `cols` to their functions.
pub open spec fn dispatch_arms(function: Seq<char>, cols: Seq<usize>) -> Seq<char>
    decreases cols.len(),
{
    if cols.len() == 0 {
        Seq::empty()
    } else {
        dispatch_arms(function, cols.drop_last()) + dispatch_arm(function, cols.last())
    }
}

/// The definition of the function of a whole table: each of `cols` goes to
/// its own function, every other column is zero.
pub open spec fn dispatch_text(function: Seq<char>, cols: Seq<usize>) -> Seq<char> {
    "def "@ + function + " : ℕ → ℕ → ZMod P :=\n  λ col row => match col with\n"@
        + dispatch_arms(function, cols) + "    | _ => 0\n"@
}

/// What the end of a synthesis writes out: the proposition on the copy
/// constraints, then the selector columns and their table, then the fixed
/// columns and their table, the columns in ascending order.
pub open spec fn grouping_text(tables: Tables) -> Seq<char> {
    copy_constraints_text(tables.copies) + selector_columns_text(
        tables.selectors,
        ascending(tables.selectors.dom()),
    ) + dispatch_text("selector_func"@, ascending(tables.selectors.dom())) + fixed_columns_text(
        tables.fixed,
        ascending(tables.fixed.dom()),
    ) + dispatch_text("fixed_func"@, ascending(tables.fixed.dom()))
}

/// The whole document: its beginning, the circuit it speaks of, what the
/// events of the synthesis wrote out, what the end of the synthesis writes
/// out for `tables`, the gates, and its end. `None` where a gate line has
/// no polynomial.
pub open spec fn document_text(
    name: Seq<char>,
    notes: Seq<char>,
    tables: Tables,
    gates: Seq<char>,
) -> Option<Seq<char>> {
    match gates_document(gates) {
        Some(gate_part) => Some(
            preamble_text(name) + variable_text() + notes
                + grouping_text(tables) + gate_part
                + postamble_text(name),
        ),
        None => None,
    }
}

/// The terms `prefix0 ctx`, `prefix1 ctx` and so on, `count` of them.
pub fn numbered(prefix: &str, count: usize) -> (terms: Vec<String>)
    ensures
        views(terms@) == numbered_terms(prefix@, count as nat),
{
    let mut terms: Vec<String> = Vec::new();
    let mut i: usize = 0;
    while i < count
        invariant
            i <= count,
            views(terms@) =~= numbered_terms(prefix@, i as nat),
        decreases count - i,
    {
        let mut term = String::from_str(prefix);
        push_decimal(&mut term, i as u128);
        term.append(" ctx");
        assert(views(terms@.push(term)) =~= views(terms@).push(term@));
        terms.push(term);
        i += 1;
    }
    terms
}

/// Writes the proposition that all copy constraints hold at the end of
/// `out`.
pub(crate) fn push_copy_constraints(out: &mut String, copies: usize)
    ensures
        final(out)@ == old(out)@ + copy_constraints_text(copies as nat),
{
    if copies == 0 {
        out.append("def all_copy_constraints (_ctx: Circuit P P_Prime): Prop := true\n");
    } else {
        let terms = numbered("copy_", copies);
        let body = join(&terms, " ∧ ");
        out.append("def all_copy_constraints (ctx: Circuit P P_Prime): Prop := ");
        out.append(body.as_str());
        out.append("\n");
    }
}

/// Writes a selector's value at the end of `out`.
pub(crate) fn push_bit(out: &mut String, value: bool)
    ensures
        final(out)@ == old(out)@ + bit_text(value),
{
    if value {
        out.append("1");
    } else {
        out.append("0");
    }
}

/// Writes the definition of the function of one selector column at the end
/// of `out`.
pub(crate) fn push_step_function(out: &mut String, col: usize, f: &StepFunction)
    ensures
        final(out)@ == old(out)@ + step_function_text(col, f.breakpoints@, f.default),
{
    out.append("def selector_func_col_");
    push_decimal(out, col as u128);
    out.append(" : ℕ → ZMod P :=\n  λ row => match row with\n");
    let ghost head = out@;
    let mut i: usize = 0;
    while i < f.breakpoints.len()
        invariant
            i <= f.breakpoints.len(),
            out@ == head + breakpoint_arms(f.breakpoints@.take(i as int)),
        decreases f.breakpoints.len() - i,
    {
        let point = f.breakpoints[i];
        out.append("    | _+");
        push_decimal(out, point.above as u128 + 1);
        out.append(" => ");
        push_bit(out, point.value);
        out.append("\n");
        assert(f.breakpoints@.take(i + 1).drop_last() =~= f.breakpoints@.take(i as int));
        i += 1;
    }
    assert(f.breakpoints@.take(f.breakpoints.len() as int) =~= f.breakpoints@);
    out.append("    | _ => ");
    push_bit(out, f.default);
    out.append("\n");
}

/// Writes the definition of the function of one fixed column at the end of
/// `out`.
pub(crate) fn push_case_table(out: &mut String, col: usize, table: &CaseTable)
    ensures
        final(out)@ == old(out)@ + case_table_text(col, entries(table.cases@)),
{
    out.append("def fixed_func_col_");
    push_decimal(out, col as u128);
    out.append(" : ℕ → ZMod P :=\n  λ row => match row with\n");
    let ghost head = out@;
    let ghost all = entries(table.cases@);
    let mut i: usize = 0;
    while i < table.cases.len()
        invariant
            i <= table.cases.len(),
            all == entries(table.cases@),
            out@ == head + entry_arms(all.take(i as int)),
        decreases table.cases.len() - i,
    {
        out.append("    | ");
        push_decimal(out, table.cases[i].row as u128);
        out.append(" => ");
        out.append(table.cases[i].value.as_str());
        out.append("\n");
        assert(all.take(i + 1).drop_last() =~= all.take(i as int));
        i += 1;
    }
    assert(all.take(table.cases.len() as int) =~= all);
    out.append("    | _ => 0\n");
}

/// Writes the definition of the function of a whole table at the end of
/// `out`.
pub(crate) fn push_dispatch(out: &mut String, function: &str, cols: &Vec<usize>)
    ensures
        final(out)@ == old(out)@ + dispatch_text(function@, cols@),
{
    out.append("def ");
    out.append(function);
    out.append(" : ℕ → ℕ → ZMod P :=\n  λ col row => match col with\n");
    let ghost head = out@;
    let mut i: usize = 0;
    while i < cols.len()
        invariant
            i <= cols.len(),
            out@ == head + dispatch_arms(function@, cols@.take(i as int)),
        decreases cols.len() - i,
    {
        let col = cols[i];
        out.append("    | ");
        push_decimal(out, col as u128);
        out.append(" => ");
        out.append(function);
        out.append("_col_");
        push_decimal(out, col as u128);
        out.append(" row\n");
        assert(cols@.take(i + 1).drop_last() =~= cols@.take(i as int));
        i += 1;
    }
    assert(cols@.take(cols.len() as int) =~= cols@);
    out.append("    | _ => 0\n");
}

/// Writes the functions of the selector columns, lowest column first, and
/// the function of their table at the end of `out`.
pub(crate) fn push_selector_table(out: &mut String, selectors: &BTreeMap<usize, BTreeSet<usize>>)
    ensures
        final(out)@ == old(out)@ + selector_columns_text(
            row_sets(selectors@),
            ascending(row_sets(selectors@).dom()),
        ) + dispatch_text("selector_func"@, ascending(row_sets(selectors@).dom())),
{
    let cols = map_keys(selectors);
    let ghost model = row_sets(selectors@);
    proof {
        assert(model.dom() =~= selectors@.dom());
        lemma_ascending(selectors@.dom());
    }
    let ghost head = out@;
    let mut i: usize = 0;
    while i < cols.len()
        invariant
            i <= cols.len(),
            model == row_sets(selectors@),
            forall|k: int| 0 <= k < cols@.len() ==> selectors@.dom().contains(#[trigger] cols@[k]),
            out@ == head + selector_columns_text(model, cols@.take(i as int)),
        decreases cols.len() - i,
    {
        let col = cols[i];
        if let Some(rows) = selectors.get(&col) {
            let f = compact(rows);
            push_step_function(out, col, &f);
        }
        assert(cols@.take(i + 1).drop_last() =~= cols@.take(i as int));
        i += 1;
    }
    assert(cols@.take(cols.len() as int) =~= cols@);
    push_dispatch(out, "selector_func", &cols);
}

/// Writes the functions of the fixed columns, lowest column first, and the
/// function of their table at the end of `out`.
pub(crate) fn push_fixed_table(out: &mut String, fixed: &BTreeMap<usize, BTreeMap<usize, String>>)
    ensures
        final(out)@ == old(out)@ + fixed_columns_text(
            value_maps(fixed@),
            ascending(value_maps(fixed@).dom()),
        ) + dispatch_text("fixed_func"@, ascending(value_maps(fixed@).dom())),
{
    let cols = map_keys(fixed);
    let ghost model = value_maps(fixed@);
    proof {
        assert(model.dom() =~= fixed@.dom());
        lemma_ascending(fixed@.dom());
    }
    let ghost head = out@;
    let mut i: usize = 0;
    while i < cols.len()
        invariant
            i <= cols.len(),
            model == value_maps(fixed@),
            forall|k: int| 0 <= k < cols@.len() ==> fixed@.dom().contains(#[trigger] cols@[k]),
            out@ == head + fixed_columns_text(model, cols@.take(i as int)),
        decreases cols.len() - i,
    {
        let col = cols[i];
        if let Some(values) = fixed.get(&col) {
            let table = value_cases(values);
            push_case_table(out, col, &table);
        }
        assert(cols@.take(i + 1).drop_last() =~= cols@.take(i as int));
        i += 1;
    }
    assert(cols@.take(cols.len() as int) =~= cols@);
    push_dispatch(out, "fixed_func", &cols);
}

} // verus!
