//! The recorder of synthesis events, and the parts of the document.

use crate::document::{
    cell_text, document_text, entered_text, exited_text, grouping_text, instance_text,
    postamble_text, preamble_text, push_copy_constraints, push_fixed_table, push_selector_table,
    variable_text,
};
use crate::gates::{
    gate_lines, gate_lines_of, gate_texts, gates_document, push_all_gates, push_gate,
    rewrite_gate,
};
use crate::order::{ascending, lemma_ascending, map_keys};
use crate::pattern::rewritten_text;
use crate::scope::{
    lemma_scoped_once, lemma_scoped_without_reference, reference_at, scope, scoped,
};
use crate::step::{compact, value_cases};
use crate::tables::{
    advice_outcome, after, copy_outcome, fixed_outcome, fresh, row_sets, selector_outcome,
    selector_value, table_value, value_maps, value_text, with_row, with_value, Event, Tables,
};
use crate::text::{chars_of, push_decimal, string_of, texts};
use crate::utils::{column_of, ExtractorError, Halo2Column, Halo2Selector};
use std::collections::BTreeMap;
use std::collections::BTreeSet;
use vstd::prelude::*;
use vstd::string::StringExecFns;

verus! {

/// What a run writes out: the constraints alone, or the advice values too.
#[derive(Clone, Copy, Debug, PartialEq, Eq, Structural)]
pub enum Target {
    Constraints,
    AdviceGenerator,
}

/// Takes in the events of one synthesis and keeps what the document needs
/// of them.
pub struct ExtractingAssignment {
    current_region: Option<String>,
    target: Target,
    copy_count: u32,
    selectors: BTreeMap<usize, BTreeSet<usize>>,
    advice: BTreeMap<usize, BTreeMap<usize, String>>,
    fixed: BTreeMap<usize, BTreeMap<usize, String>>,
}

impl View for ExtractingAssignment {
    type V = Tables;

    closed spec fn view(&self) -> Tables {
        Tables {
            target: self.target,
            region: match self.current_region {
                Some(name) => Some(name@),
                None => None,
            },
            copies: self.copy_count as nat,
            selectors: row_sets(self.selectors@),
            advice: value_maps(self.advice@),
            fixed: value_maps(self.fixed@),
        }
    }
}

/// Writes `val` at `row` of the column `col` of a table of values.
fn put_value(table: &mut BTreeMap<usize, BTreeMap<usize, String>>, col: usize, row: usize, val: String)
    ensures
        value_maps(final(table)@) == with_value(value_maps(old(table)@), col, row, val@),
{
    let mut rows = match table.remove(&col) {
        Some(rows) => rows,
        None => BTreeMap::new(),
    };
    rows.insert(row, val);
    table.insert(col, rows);
    assert(value_maps(table@) =~~= with_value(value_maps(old(table)@), col, row, val@));
}

/// What the function of a table of values gives at a column and a row.
fn value_at(table: &BTreeMap<usize, BTreeMap<usize, String>>, col: usize, row: usize) -> (value:
    String)
    ensures
        value@ == table_value(value_maps(table@), col as int, row as int),
{
    proof {
        assert(value_maps(table@).dom() =~= table@.dom());
        lemma_ascending(table@.dom());
    }
    match table.get(&col) {
        Some(values) => value_cases(values).value_at(row),
        None => {
            proof {
                reveal_strlit("0");
            }
            String::from_str("0")
        },
    }
}

/// Writes a column as a cell reference names it at the end of `out`.
fn push_cell(out: &mut String, column: &Halo2Column)
    ensures
        final(out)@ == old(out)@ + cell_text(*column),
{
    out.append(column.column_type.name());
    out.append(" ");
    push_decimal(out, column.index as u128);
}

impl ExtractingAssignment {
    /// A recorder that has seen nothing yet.
    pub fn new(target: Target) -> (recorder: Self)
        ensures
            recorder@ == fresh(target),
    {
        let recorder = Self {
            current_region: None,
            target,
            copy_count: 0,
            selectors: BTreeMap::new(),
            advice: BTreeMap::new(),
            fixed: BTreeMap::new(),
        };
        assert(recorder@.selectors =~~= Map::empty());
        assert(recorder@.fixed =~~= Map::empty());
        recorder
    }

    /// Marks the selector column `col` as active at `row`.
    fn set_selector(&mut self, col: usize, row: usize)
        ensures
            final(self)@ == (Tables {
                selectors: with_row(old(self)@.selectors, col, row),
                ..old(self)@
            }),
    {
        let mut rows = match self.selectors.remove(&col) {
            Some(rows) => rows,
            None => BTreeSet::new(),
        };
        rows.insert(row);
        self.selectors.insert(col, rows);
        assert(self@.selectors =~~= with_row(old(self)@.selectors, col, row));
    }

    /// Writes `val` at `row` of the advice column `col`.
    fn set_advice(&mut self, col: usize, row: usize, val: String)
        ensures
            final(self)@ == (Tables {
                advice: with_value(old(self)@.advice, col, row, val@),
                ..old(self)@
            }),
    {
        put_value(&mut self.advice, col, row, val);
    }

    /// Writes `val` at `row` of the fixed column `col`.
    fn set_fixed(&mut self, col: usize, row: usize, val: String)
        ensures
            final(self)@ == (Tables {
                fixed: with_value(old(self)@.fixed, col, row, val@),
                ..old(self)@
            }),
    {
        put_value(&mut self.fixed, col, row, val);
    }

    /// What the run writes out.
    pub fn target(&self) -> (target: Target)
        ensures
            target == self@.target,
    {
        self.target
    }

    /// How many copy constraints were seen.
    pub fn copy_count(&self) -> (count: u32)
        ensures
            count == self@.copies,
    {
        self.copy_count
    }

    /// The name of the region that synthesis is in.
    pub fn current_region(&self) -> (name: Option<String>)
        ensures
            value_text(name) == self@.region,
    {
        match &self.current_region {
            Some(name) => Some(name.clone()),
            None => None,
        }
    }

    /// The selector columns that have an active row, lowest first.
    pub fn selector_columns(&self) -> (cols: Vec<usize>)
        ensures
            cols@ == ascending(self@.selectors.dom()),
    {
        assert(self@.selectors.dom() =~= self.selectors@.dom());
        map_keys(&self.selectors)
    }

    /// The advice columns that hold a value, lowest first.
    pub fn advice_columns(&self) -> (cols: Vec<usize>)
        ensures
            cols@ == ascending(self@.advice.dom()),
    {
        assert(self@.advice.dom() =~= self.advice@.dom());
        map_keys(&self.advice)
    }

    /// The fixed columns that hold a value, lowest first.
    pub fn fixed_columns(&self) -> (cols: Vec<usize>)
        ensures
            cols@ == ascending(self@.fixed.dom()),
    {
        assert(self@.fixed.dom() =~= self.fixed@.dom());
        map_keys(&self.fixed)
    }

    /// What the function written out for the selector table gives at a
    /// column and a row.
    pub fn selector_at(&self, col: usize, row: usize) -> (value: bool)
        ensures
            value == selector_value(self@.selectors, col as int, row as int),
    {
        proof {
            assert(self@.selectors.dom() =~= self.selectors@.dom());
            lemma_ascending(self.selectors@.dom());
        }
        match self.selectors.get(&col) {
            Some(rows) => compact(rows).value_at(row),
            None => false,
        }
    }

    /// What the function of the advice table gives at a column and a row.
    pub fn advice_at(&self, col: usize, row: usize) -> (value: String)
        ensures
            value@ == table_value(self@.advice, col as int, row as int),
    {
        value_at(&self.advice, col, row)
    }

    /// What the function written out for the fixed table gives at a column
    /// and a row.
    pub fn fixed_at(&self, col: usize, row: usize) -> (value: String)
        ensures
            value@ == table_value(self@.fixed, col as int, row as int),
    {
        value_at(&self.fixed, col, row)
    }

    /// The column behind `column` as a cell reference names it, as in
    /// `Advice 3`.
    pub fn format_cell(column: &str) -> (r: Result<String, ExtractorError>)
        ensures
            match column_of(column@) {
                Ok(c) => r is Ok && r->Ok_0@ == cell_text(c),
                Err(e) => r == Err::<String, ExtractorError>(e),
            },
    {
        match Halo2Column::try_from(column) {
            Ok(c) => {
                let mut out = String::new();
                push_cell(&mut out, &c);
                Ok(out)
            },
            Err(e) => Err(e),
        }
    }

    /// `evaluated_expr` with its references to instance cells read from
    /// the circuit `ctx`. What comes out is scoped: scoping it again changes
    /// nothing.
    pub fn add_lean_scoping(evaluated_expr: String) -> (r: String)
        ensures
            r@ == scoped(evaluated_expr@),
            scoped(r@) == r@,
            (forall|at: int| !reference_at(evaluated_expr@, at)) ==> r@ == evaluated_expr@,
    {
        proof {
            lemma_scoped_once(evaluated_expr@);
            if forall|at: int| !reference_at(evaluated_expr@, at) {
                lemma_scoped_without_reference(evaluated_expr@);
            }
        }
        scope(&chars_of(evaluated_expr.as_str()))
    }

    /// A region is entered: its name is kept, and a note is written out.
    pub fn enter_region(&mut self, name: String) -> (note: String)
        ensures
            final(self)@ == after(old(self)@, Event::EnterRegion { name: name@ }),
            note@ == entered_text(name@),
    {
        let mut note = String::from_str("\n-- Entered region: ");
        note.append(name.as_str());
        note.append("\n");
        self.current_region = Some(name);
        note
    }

    /// The region is left: a note with its name is written out. Leaving
    /// while no region was entered is an error, and changes nothing.
    pub fn exit_region(&mut self) -> (r: Result<String, ExtractorError>)
        ensures
            match old(self)@.region {
                Some(name) => r is Ok && r->Ok_0@ == exited_text(name) && final(self)@ == after(
                    old(self)@,
                    Event::ExitRegion,
                ),
                None => r == Err::<String, ExtractorError>(ExtractorError::UnbalancedRegion)
                    && final(self)@ == old(self)@,
            },
    {
        let mut note = String::from_str("-- Exited region: ");
        match &self.current_region {
            Some(name) => {
                note.append(name.as_str());
            },
            None => {
                return Err(ExtractorError::UnbalancedRegion);
            },
        }
        note.append("\n");
        self.current_region = None;
        Ok(note)
    }

    /// The selector behind `selector` is enabled at `row`.
    pub fn enable_selector(&mut self, selector: &str, row: usize) -> (r: Result<
        (),
        ExtractorError,
    >)
        ensures
            (final(self)@, r) == selector_outcome(old(self)@, selector@, row),
    {
        match Halo2Selector::try_from(selector) {
            Ok(s) => {
                self.set_selector(s.0, row);
                Ok(())
            },
            Err(e) => Err(e),
        }
    }

    /// The value that stands for the cell at `row` of the instance column
    /// behind `column`, as in `Instance 0 5`. It is not scoped yet.
    pub fn query_instance(&self, column: &str, row: usize) -> (r: Result<String, ExtractorError>)
        ensures
            match column_of(column@) {
                Ok(c) => r is Ok && r->Ok_0@ == instance_text(c, row),
                Err(e) => r == Err::<String, ExtractorError>(e),
            },
    {
        match Halo2Column::try_from(column) {
            Ok(c) => {
                let mut out = String::new();
                push_cell(&mut out, &c);
                out.append(" ");
                push_decimal(&mut out, row as u128);
                Ok(out)
            },
            Err(e) => Err(e),
        }
    }

    /// Keeps `value` for the cell at `row` of the advice column behind
    /// `column`, where the run writes advice out and the value is known.
    pub fn record_advice(&mut self, column: &str, row: usize, value: Option<String>) -> (r: Result<
        (),
        ExtractorError,
    >)
        ensures
            (final(self)@, r) == advice_outcome(old(self)@, column@, row, value_text(value)),
    {
        match self.target {
            Target::Constraints => Ok(()),
            Target::AdviceGenerator => match value {
                Some(text) => match Halo2Column::try_from(column) {
                    Ok(c) => {
                        self.set_advice(c.index, row, Self::add_lean_scoping(text));
                        Ok(())
                    },
                    Err(e) => Err(e),
                },
                None => Ok(()),
            },
        }
    }

    /// Keeps `value` for the cell at `row` of the fixed column behind
    /// `column`, where the value is known.
    pub fn record_fixed(&mut self, column: &str, row: usize, value: Option<String>) -> (r: Result<
        (),
        ExtractorError,
    >)
        ensures
            (final(self)@, r) == fixed_outcome(old(self)@, column@, row, value_text(value)),
    {
        match value {
            Some(text) => match Halo2Column::try_from(column) {
                Ok(c) => {
                    self.set_fixed(c.index, row, Self::add_lean_scoping(text));
                    Ok(())
                },
                Err(e) => Err(e),
            },
            None => Ok(()),
        }
    }

    /// A value is assigned to the cell at `row` of the advice column behind
    /// `column`. Where the run writes out the constraints alone nothing is
    /// done and `to` is not called: it need not even be fit to be called.
    /// Else `to` is called once, and what it gives is kept as
    /// `record_advice` keeps it.
    pub fn assign_advice<V: FnOnce() -> Option<String>>(
        &mut self,
        column: &str,
        row: usize,
        to: V,
    ) -> (r: Result<(), ExtractorError>)
        requires
            old(self)@.target == Target::AdviceGenerator ==> call_requires(to, ()),
        ensures
            old(self)@.target == Target::Constraints ==> r is Ok && final(self)@ == old(self)@,
            old(self)@.target == Target::AdviceGenerator ==> exists|value: Option<String>|
                call_ensures(to, (), value) && (final(self)@, r) == advice_outcome(
                    old(self)@,
                    column@,
                    row,
                    value_text(value),
                ),
    {
        match self.target {
            Target::Constraints => Ok(()),
            Target::AdviceGenerator => {
                let value = to();
                self.record_advice(column, row, value)
            },
        }
    }

    /// A value is assigned to the cell at `row` of the fixed column behind
    /// `column`: `to` is called once, and what it gives is kept as
    /// `record_fixed` keeps it.
    pub fn assign_fixed<V: FnOnce() -> Option<String>>(
        &mut self,
        column: &str,
        row: usize,
        to: V,
    ) -> (r: Result<(), ExtractorError>)
        requires
            call_requires(to, ()),
        ensures
            exists|value: Option<String>|
                call_ensures(to, (), value) && (final(self)@, r) == fixed_outcome(
                    old(self)@,
                    column@,
                    row,
                    value_text(value),
                ),
    {
        let value = to();
        self.record_fixed(column, row, value)
    }

    /// The cells behind the two handles are constrained to be equal: the
    /// proposition is written out at once, under the number of copy
    /// constraints seen before, and the constraint is counted.
    pub fn copy(
        &mut self,
        left_column: &str,
        left_row: usize,
        right_column: &str,
        right_row: usize,
    ) -> (r: Result<String, ExtractorError>)
        requires
            old(self)@.copies < u32::MAX,
        ensures
            match copy_outcome(old(self)@, left_column@, left_row, right_column@, right_row).1 {
                Ok(text) => r is Ok && r->Ok_0@ == text,
                Err(e) => r == Err::<String, ExtractorError>(e),
            },
            final(self)@ == copy_outcome(
                old(self)@,
                left_column@,
                left_row,
                right_column@,
                right_row,
            ).0,
    {
        let left = match Halo2Column::try_from(left_column) {
            Ok(c) => c,
            Err(e) => {
                return Err(e);
            },
        };
        let right = match Halo2Column::try_from(right_column) {
            Ok(c) => c,
            Err(e) => {
                return Err(e);
            },
        };
        let mut out = String::from_str("def copy_");
        push_decimal(&mut out, self.copy_count as u128);
        out.append(": Prop := ctx.");
        push_cell(&mut out, &left);
        out.append(" ");
        push_decimal(&mut out, left_row as u128);
        out.append(" = ctx.");
        push_cell(&mut out, &right);
        out.append(" ");
        push_decimal(&mut out, right_row as u128);
        out.append("\n");
        self.copy_count = self.copy_count + 1;
        Ok(out)
    }

    /// A fixed column is filled from `row` on. Nothing is kept of it.
    pub fn fill_from_row(&mut self, _column: &str, _row: usize) -> (r: Result<(), ExtractorError>)
        ensures
            r is Ok,
            final(self)@ == old(self)@,
    {
        Ok(())
    }

    /// A namespace is entered. Nothing is kept of it.
    pub fn push_namespace(&mut self)
        ensures
            final(self)@ == old(self)@,
    {
    }

    /// A namespace is left. Nothing is kept of it.
    pub fn pop_namespace(&mut self, _gadget_name: Option<String>)
        ensures
            final(self)@ == old(self)@,
    {
    }

    /// A column is given a name. Nothing is kept of it; a note is written
    /// out.
    pub fn annotate_column(&mut self, _column: &str) -> (note: String)
        ensures
            final(self)@ == old(self)@,
            note@ == "--Annotate column\n"@,
    {
        String::from_str("--Annotate column\n")
    }

    /// A challenge is asked for. Its value is never known here: the answer
    /// is a note to write out, and no value.
    pub fn get_challenge(&self) -> (r: (String, Option<String>))
        ensures
            r.0@ == "--Get challenge\n"@,
            r.1 is None,
    {
        (String::from_str("--Get challenge\n"), None)
    }

    /// What the end of a synthesis writes out: the proposition that all copy
    /// constraints hold, a function for each selector column and one for
    /// their table, a function for each fixed column and one for their
    /// table.
    pub fn print_grouping_props(&self) -> (text: String)
        ensures
            text@ == grouping_text(self@),
    {
        let mut out = String::new();
        push_copy_constraints(&mut out, self.copy_count as usize);
        push_selector_table(&mut out, &self.selectors);
        push_fixed_table(&mut out, &self.fixed);
        out
    }
}

/// What is written out for the printed list of a circuit's gates: a
/// heading, one proposition for each line that holds a gate polynomial,
/// numbered from 0, and the proposition that all of them hold, which is
/// `true` where there is no gate. Only whole selector and cell words of a
/// line are rewritten. `None` where the `regex` crate does not take one of
/// the patterns of `gates`.
pub fn print_gates(gates: &str) -> (text: Option<String>)
    ensures
        rewritten_text(text) == gates_document(gates@),
{
    let kept = gate_lines_of(gates);
    let mut out = String::from_str("------GATES-------\n");
    let ghost head = out@;
    let ghost shown = texts(kept@);
    let mut i: usize = 0;
    while i < kept.len()
        invariant
            i <= kept.len(),
            shown == texts(kept@),
            shown == gate_lines(gates@),
            gate_texts(shown.take(i as int)) is Some,
            out@ == head + gate_texts(shown.take(i as int))->0,
        decreases kept.len() - i,
    {
        let line = string_of(&kept[i]);
        assert(shown.take(i + 1).drop_last() =~= shown.take(i as int));
        match rewrite_gate(line.as_str()) {
            Some(polynomial) => {
                push_gate(&mut out, i, polynomial.as_str());
            },
            None => {
                proof {
                    lemma_gate_texts_fail(shown, i + 1);
                }
                return None;
            },
        }
        i += 1;
    }
    assert(shown.take(kept.len() as int) =~= shown);
    push_all_gates(&mut out, kept.len());
    Some(out)
}

/// Where the first lines have no propositions, all of them together have
/// none.
proof fn lemma_gate_texts_fail(lines: Seq<Seq<char>>, upto: int)
    requires
        0 <= upto <= lines.len(),
        gate_texts(lines.take(upto)) is None,
    ensures
        gate_texts(lines) is None,
    decreases lines.len(),
{
    if upto == lines.len() {
        assert(lines.take(upto) =~= lines);
    } else {
        assert(lines.drop_last().take(upto) =~= lines.take(upto));
        lemma_gate_texts_fail(lines.drop_last(), upto);
    }
}

/// The beginning of the document: what it imports, the namespace `name`,
/// and the structure of a circuit.
pub fn print_preamble(name: &str) -> (text: String)
    ensures
        text@ == preamble_text(name@),
{
    let mut out = String::from_str(
        "import Mathlib.Data.Nat.Prime.Defs\nimport Mathlib.Data.Nat.Prime.Basic\nimport Mathlib.Data.ZMod.Defs\nimport Mathlib.Data.ZMod.Basic\n\nnamespace ",
    );
    out.append(name);
    out.append(
        "\n\nstructure Circuit (P: ℕ) (P_Prime: Nat.Prime P) :=\n  Advice: ℕ → ℕ → ZMod P\n  Fixed: ℕ → ℕ → ZMod P\n  Instance: ℕ → ℕ → ZMod P\n  Selector: ℕ → ℕ → ZMod P\n",
    );
    out
}

/// The declaration of the circuit `ctx` that the propositions speak of.
pub fn print_variable() -> (text: String)
    ensures
        text@ == variable_text(),
{
    String::from_str("\nvariable {P: ℕ} {P_Prime: Nat.Prime P} (ctx: Circuit P P_Prime)\n")
}

/// The end of the document: the proposition that the circuit meets its
/// constraints, and the end of the namespace `name`.
pub fn print_postamble(name: &str) -> (text: String)
    ensures
        text@ == postamble_text(name@),
{
    let mut out = String::from_str(
        "def meets_constraints: Prop := ctx.Selector = selector_func ∧ all_gates ctx ∧ all_copy_constraints ctx ∧ ctx.Fixed = fixed_func\nend ",
    );
    out.append(name);
    out.append("\n");
    out
}

/// The whole document of one run, its parts in their order: the beginning,
/// the circuit that the propositions speak of, `notes`, which is what the
/// events of the synthesis wrote out, what `recorder` writes out at the end
/// of the synthesis, the gates, and the end. `None` where a gate line has
/// no polynomial.
pub fn print_document(name: &str, notes: &str, recorder: &ExtractingAssignment, gates: &str) -> (text:
    Option<String>)
    ensures
        rewritten_text(text) == document_text(name@, notes@, recorder@, gates@),
{
    let gate_part = match print_gates(gates) {
        Some(gate_part) => gate_part,
        None => {
            return None;
        },
    };
    let mut out = print_preamble(name);
    out.append(print_variable().as_str());
    out.append(notes);
    out.append(recorder.print_grouping_props().as_str());
    out.append(gate_part.as_str());
    out.append(print_postamble(name).as_str());
    Some(out)
}

} // verus!
