//! What a recorder holds and how the events of a synthesis change it, as
//! the contracts speak of both; and what holds of every run.

use crate::document::{copy_text, entered_text, exited_text, numbered_terms};
use crate::scope::scoped;
use crate::extraction::Target;
use crate::order::{ascending, lemma_ascending};
use crate::step::{
    active, breakpoints_of, entries_of, entry_value, lemma_entries_give_values,
    lemma_step_function_gives_rows, recorded_value, step_value, text_values, zero,
};
use crate::utils::{column_of, selector_of, ExtractorError, Halo2Column};
use std::collections::BTreeMap;
use std::collections::BTreeSet;
use vstd::prelude::*;

verus! {

/// What a recorder holds, as the contracts speak of it.
pub struct Tables {
    /// What the run writes out.
    pub target: Target,
    /// The name of the region that synthesis is in.
    pub region: Option<Seq<char>>,
    /// How many copy constraints were seen.
    pub copies: nat,
    /// For each selector column the rows at which it is active.
    pub selectors: Map<usize, Set<usize>>,
    /// For each advice column and row the text of the value last assigned.
    pub advice: Map<usize, Map<usize, Seq<char>>>,
    /// For each fixed column and row the text of the value last assigned.
    pub fixed: Map<usize, Map<usize, Seq<char>>>,
}

/// One event of a synthesis, its handles read and its values printed.
pub enum Event {
    /// A region is entered.
    EnterRegion { name: Seq<char> },
    /// The region is left.
    ExitRegion,
    /// A selector is enabled at a row.
    EnableSelector { column: usize, row: usize },
    /// A value is assigned to a cell of an advice column.
    AssignAdvice { column: usize, row: usize, value: Seq<char> },
    /// A value is assigned to a cell of a fixed column.
    AssignFixed { column: usize, row: usize, value: Seq<char> },
    /// Two cells are constrained to be equal.
    Copy { left: Halo2Column, left_row: usize, right: Halo2Column, right_row: usize },
}

/// The tables at the start of a run.
pub open spec fn fresh(target: Target) -> Tables {
    Tables {
        target,
        region: None,
        copies: 0,
        selectors: Map::empty(),
        advice: Map::empty(),
        fixed: Map::empty(),
    }
}

/// `selectors` with the column `col` active at `row` too.
pub open spec fn with_row(selectors: Map<usize, Set<usize>>, col: usize, row: usize) -> Map<
    usize,
    Set<usize>,
> {
    selectors.insert(
        col,
        if selectors.contains_key(col) {
            selectors[col].insert(row)
        } else {
            Set::empty().insert(row)
        },
    )
}

/// `table` with `value` at `row` of the column `col`, in place of what
/// stood there.
pub open spec fn with_value(
    table: Map<usize, Map<usize, Seq<char>>>,
    col: usize,
    row: usize,
    value: Seq<char>,
) -> Map<usize, Map<usize, Seq<char>>> {
    table.insert(
        col,
        if table.contains_key(col) {
            table[col].insert(row, value)
        } else {
            Map::empty().insert(row, value)
        },
    )
}

/// The rows of each column, as the contracts speak of them.
pub open spec fn row_sets(selectors: Map<usize, BTreeSet<usize>>) -> Map<usize, Set<usize>> {
    Map::new(|col: usize| selectors.contains_key(col), |col: usize| selectors[col]@)
}

/// The values of each column, as the contracts speak of them.
pub open spec fn value_maps(table: Map<usize, BTreeMap<usize, String>>) -> Map<
    usize,
    Map<usize, Seq<char>>,
> {
    Map::new(|col: usize| table.contains_key(col), |col: usize| text_values(table[col]@))
}

/// The tables after an event. An advice value is kept only where the run
/// writes advice out; values are kept with their instance references
/// scoped; a copy constraint is counted.
pub open spec fn after(tables: Tables, event: Event) -> Tables {
    match event {
        Event::EnterRegion { name } => Tables { region: Some(name), ..tables },
        Event::ExitRegion => Tables { region: None, ..tables },
        Event::EnableSelector { column, row } => Tables {
            selectors: with_row(tables.selectors, column, row),
            ..tables
        },
        Event::AssignAdvice { column, row, value } => if tables.target
            == Target::AdviceGenerator {
            Tables { advice: with_value(tables.advice, column, row, scoped(value)), ..tables }
        } else {
            tables
        },
        Event::AssignFixed { column, row, value } => Tables {
            fixed: with_value(tables.fixed, column, row, scoped(value)),
            ..tables
        },
        Event::Copy { left, left_row, right, right_row } => Tables {
            copies: tables.copies + 1,
            ..tables
        },
    }
}

/// What an event writes out at once: a note for a region entered or left,
/// and for a copy constraint its proposition, numbered by the copy
/// constraints seen before it.
pub open spec fn emitted(tables: Tables, event: Event) -> Seq<char> {
    match event {
        Event::EnterRegion { name } => entered_text(name),
        Event::ExitRegion => match tables.region {
            Some(name) => exited_text(name),
            None => Seq::empty(),
        },
        Event::Copy { left, left_row, right, right_row } => copy_text(
            tables.copies,
            left,
            left_row,
            right,
            right_row,
        ),
        _ => Seq::empty(),
    }
}

/// The text of a value, if there is a value.
pub open spec fn value_text(value: Option<String>) -> Option<Seq<char>> {
    match value {
        Some(text) => Some(text@),
        None => None,
    }
}

/// What enabling the selector behind `handle` at `row` comes to: the tables
/// after it, and what is answered. A malformed handle changes nothing.
pub open spec fn selector_outcome(before: Tables, handle: Seq<char>, row: usize) -> (
    Tables,
    Result<(), ExtractorError>,
) {
    match selector_of(handle) {
        Ok(selector) => (after(before, Event::EnableSelector { column: selector.0, row }), Ok(())),
        Err(e) => (before, Err(e)),
    }
}

/// What assigning `value` to the cell at `row` of the advice column behind
/// `handle` comes to. Nothing is looked at where the run writes out the
/// constraints alone; the handle is read only where the value is known.
pub open spec fn advice_outcome(
    before: Tables,
    handle: Seq<char>,
    row: usize,
    value: Option<Seq<char>>,
) -> (Tables, Result<(), ExtractorError>) {
    if before.target == Target::Constraints {
        (before, Ok(()))
    } else {
        match value {
            None => (before, Ok(())),
            Some(text) => match column_of(handle) {
                Ok(column) => (
                    after(before, Event::AssignAdvice { column: column.index, row, value: text }),
                    Ok(()),
                ),
                Err(e) => (before, Err(e)),
            },
        }
    }
}

/// What assigning `value` to the cell at `row` of the fixed column behind
/// `handle` comes to. The handle is read only where the value is known.
pub open spec fn fixed_outcome(
    before: Tables,
    handle: Seq<char>,
    row: usize,
    value: Option<Seq<char>>,
) -> (Tables, Result<(), ExtractorError>) {
    match value {
        None => (before, Ok(())),
        Some(text) => match column_of(handle) {
            Ok(column) => (
                after(before, Event::AssignFixed { column: column.index, row, value: text }),
                Ok(()),
            ),
            Err(e) => (before, Err(e)),
        },
    }
}

/// What a copy constraint between the cells behind the two handles comes
/// to: the tables after it, and the proposition that is written out. A
/// malformed handle changes nothing.
pub open spec fn copy_outcome(
    before: Tables,
    left: Seq<char>,
    left_row: usize,
    right: Seq<char>,
    right_row: usize,
) -> (Tables, Result<Seq<char>, ExtractorError>) {
    match column_of(left) {
        Ok(l) => match column_of(right) {
            Ok(r) => {
                let event = Event::Copy { left: l, left_row, right: r, right_row };
                (after(before, event), Ok(emitted(before, event)))
            },
            Err(e) => (before, Err(e)),
        },
        Err(e) => (before, Err(e)),
    }
}

/// The tables after a run of events.
pub open spec fn after_all(tables: Tables, events: Seq<Event>) -> Tables
    decreases events.len(),
{
    if events.len() == 0 {
        tables
    } else {
        after(after_all(tables, events.drop_last()), events.last())
    }
}

/// How many of the events are copy constraints.
pub open spec fn copies_in(events: Seq<Event>) -> nat
    decreases events.len(),
{
    if events.len() == 0 {
        0
    } else {
        copies_in(events.drop_last()) + if events.last() is Copy {
            1nat
        } else {
            0nat
        }
    }
}

/// Whether the event assigns to the cell at `row` of advice column `col`.
pub open spec fn writes_advice(event: Event, col: usize, row: usize) -> bool {
    event matches Event::AssignAdvice { column, row: r, .. } && column == col && r == row
}

/// Whether the event assigns to the cell at `row` of fixed column `col`.
pub open spec fn writes_fixed(event: Event, col: usize, row: usize) -> bool {
    event matches Event::AssignFixed { column, row: r, .. } && column == col && r == row
}

/// What the function of the selector table gives at a column and a row:
/// the value of the column's step function, and false for a column that
/// the table does not send to one.
pub open spec fn selector_value(selectors: Map<usize, Set<usize>>, col: int, row: int) -> bool {
    if 0 <= col <= usize::MAX && ascending(selectors.dom()).contains(col as usize) {
        let rows = selectors[col as usize];
        step_value(breakpoints_of(rows), active(rows, 0), row)
    } else {
        false
    }
}

/// What the function of a table of values gives at a column and a row: the
/// value of the column's arms, and zero for a column that the table does
/// not send to a function.
pub open spec fn table_value(table: Map<usize, Map<usize, Seq<char>>>, col: int, row: int) -> Seq<
    char,
> {
    if 0 <= col <= usize::MAX && ascending(table.dom()).contains(col as usize) {
        entry_value(entries_of(table[col as usize]), row)
    } else {
        zero()
    }
}

/// The function of the selector table is true exactly at the rows at which
/// a selector was enabled: false at every other row of such a column, above
/// its highest row too, and false for every other column.
pub proof fn lemma_selector_table_gives_rows(selectors: Map<usize, Set<usize>>, col: int, row: int)
    requires
        0 <= row,
    ensures
        selector_value(selectors, col, row) == (0 <= col <= usize::MAX && selectors.contains_key(
            col as usize,
        ) && active(selectors[col as usize], row)),
{
    lemma_ascending(selectors.dom());
    if 0 <= col <= usize::MAX {
        let cols = ascending(selectors.dom());
        if cols.contains(col as usize) {
            lemma_step_function_gives_rows(selectors[col as usize], row);
        }
    }
}

/// The function of a table of values gives back the table: at each cell
/// that was written the value written last, at every other cell zero.
pub proof fn lemma_value_table_round_trip(
    table: Map<usize, Map<usize, Seq<char>>>,
    col: int,
    row: int,
)
    ensures
        table_value(table, col, row) == if 0 <= col <= usize::MAX && table.contains_key(
            col as usize,
        ) {
            recorded_value(table[col as usize], row)
        } else {
            zero()
        },
{
    lemma_ascending(table.dom());
    if 0 <= col <= usize::MAX {
        let cols = ascending(table.dom());
        if cols.contains(col as usize) {
            lemma_entries_give_values(table[col as usize], row);
        }
    }
}

/// A write puts its value into the table and leaves every other cell as it
/// was.
pub proof fn lemma_with_value(
    table: Map<usize, Map<usize, Seq<char>>>,
    col: usize,
    row: usize,
    value: Seq<char>,
    other_col: usize,
    other_row: usize,
)
    ensures
        with_value(table, col, row, value).contains_key(col),
        recorded_value(with_value(table, col, row, value)[col], row as int) == value,
        (other_col != col || other_row != row) ==> (with_value(
            table,
            col,
            row,
            value,
        ).contains_key(other_col) && with_value(table, col, row, value)[other_col].contains_key(
            other_row,
        )) == (table.contains_key(other_col) && table[other_col].contains_key(other_row)),
        (other_col != col || other_row != row) && table.contains_key(other_col)
            ==> recorded_value(with_value(table, col, row, value)[other_col], other_row as int)
            == recorded_value(table[other_col], other_row as int),
{
}

/// No event changes what the run writes out.
pub proof fn lemma_target_stays(tables: Tables, events: Seq<Event>)
    ensures
        after_all(tables, events).target == tables.target,
    decreases events.len(),
{
    if events.len() > 0 {
        lemma_target_stays(tables, events.drop_last());
    }
}

/// A run counts its copy constraints.
pub proof fn lemma_copies_counted(tables: Tables, events: Seq<Event>)
    ensures
        after_all(tables, events).copies == tables.copies + copies_in(events),
    decreases events.len(),
{
    if events.len() > 0 {
        lemma_copies_counted(tables, events.drop_last());
    }
}

/// The beginning of a run holds no more copy constraints than the whole.
pub proof fn lemma_copies_in_beginning(events: Seq<Event>, upto: int)
    requires
        0 <= upto <= events.len(),
    ensures
        copies_in(events.take(upto)) <= copies_in(events),
    decreases events.len(),
{
    if upto == events.len() {
        assert(events.take(upto) =~= events);
    } else {
        assert(events.drop_last().take(upto) =~= events.take(upto));
        lemma_copies_in_beginning(events.drop_last(), upto);
    }
}

/// The copy constraints of a run are numbered from 0 in the order in which
/// they come, without a gap: each is written out under the number of copy
/// constraints before it, and the proposition that joins them has one term
/// for each. In a run of no more copy constraints than the counter can
/// hold, the counter is below its bound whenever one comes.
pub proof fn lemma_copies_numbered_in_order(target: Target, events: Seq<Event>, at: int)
    requires
        0 <= at < events.len(),
        events[at] is Copy,
    ensures
        copies_in(events.take(0)) == 0,
        copies_in(events.take(at + 1)) == copies_in(events.take(at)) + 1,
        match events[at] {
            Event::Copy { left, left_row, right, right_row } => emitted(
                after_all(fresh(target), events.take(at)),
                events[at],
            ) == copy_text(copies_in(events.take(at)), left, left_row, right, right_row),
            _ => true,
        },
        numbered_terms("copy_"@, after_all(fresh(target), events).copies).len() == copies_in(
            events,
        ),
        copies_in(events) <= u32::MAX ==> after_all(fresh(target), events.take(at)).copies
            < u32::MAX,
{
    lemma_copies_in_beginning(events, at + 1);
    lemma_copies_counted(fresh(target), events.take(at));
    lemma_copies_counted(fresh(target), events);
    assert(events.take(at + 1).drop_last() =~= events.take(at));
}

/// A run that writes out the constraints alone keeps no advice value,
/// whatever is assigned.
pub proof fn lemma_constraints_keep_no_advice(events: Seq<Event>)
    ensures
        after_all(fresh(Target::Constraints), events).advice == Map::<
            usize,
            Map<usize, Seq<char>>,
        >::empty(),
    decreases events.len(),
{
    if events.len() > 0 {
        lemma_constraints_keep_no_advice(events.drop_last());
        lemma_target_stays(fresh(Target::Constraints), events.drop_last());
    }
}

/// A run that writes advice out keeps for each advice cell the value
/// assigned to it last, its instance references scoped.
pub proof fn lemma_last_advice_is_kept(tables: Tables, events: Seq<Event>, at: int)
    requires
        tables.target == Target::AdviceGenerator,
        0 <= at < events.len(),
        events[at] is AssignAdvice,
        forall|k: int|
            at < k < events.len() ==> !writes_advice(
                #[trigger] events[k],
                events[at]->AssignAdvice_column,
                events[at]->AssignAdvice_row,
            ),
    ensures
        after_all(tables, events).advice.contains_key(events[at]->AssignAdvice_column),
        after_all(tables, events).advice[events[at]->AssignAdvice_column].contains_key(
            events[at]->AssignAdvice_row,
        ),
        after_all(
            tables,
            events,
        ).advice[events[at]->AssignAdvice_column][events[at]->AssignAdvice_row] == scoped(
            events[at]->AssignAdvice_value,
        ),
    decreases events.len(),
{
    let front = events.drop_last();
    lemma_target_stays(tables, front);
    if at < events.len() - 1 {
        lemma_last_advice_is_kept(tables, front, at);
    }
}

/// A run keeps for each fixed cell the value assigned to it last, its
/// instance references scoped.
pub proof fn lemma_last_fixed_is_kept(tables: Tables, events: Seq<Event>, at: int)
    requires
        0 <= at < events.len(),
        events[at] is AssignFixed,
        forall|k: int|
            at < k < events.len() ==> !writes_fixed(
                #[trigger] events[k],
                events[at]->AssignFixed_column,
                events[at]->AssignFixed_row,
            ),
    ensures
        after_all(tables, events).fixed.contains_key(events[at]->AssignFixed_column),
        after_all(tables, events).fixed[events[at]->AssignFixed_column].contains_key(
            events[at]->AssignFixed_row,
        ),
        after_all(
            tables,
            events,
        ).fixed[events[at]->AssignFixed_column][events[at]->AssignFixed_row] == scoped(
            events[at]->AssignFixed_value,
        ),
    decreases events.len(),
{
    let front = events.drop_last();
    if at < events.len() - 1 {
        lemma_last_fixed_is_kept(tables, front, at);
    }
}

/// Whether the table holds a value for the cell at `row` of column `col`.
pub open spec fn holds_cell(table: Map<usize, Map<usize, Seq<char>>>, col: usize, row: usize) -> bool {
    table.contains_key(col) && table[col].contains_key(row)
}

/// A fixed cell that no event of a run assigns to is zero in the function of
/// the fixed table.
pub proof fn lemma_unwritten_fixed_is_zero(
    target: Target,
    events: Seq<Event>,
    col: usize,
    row: usize,
)
    requires
        forall|k: int| 0 <= k < events.len() ==> !writes_fixed(#[trigger] events[k], col, row),
    ensures
        !holds_cell(after_all(fresh(target), events).fixed, col, row),
        table_value(after_all(fresh(target), events).fixed, col as int, row as int) == zero(),
    decreases events.len(),
{
    if events.len() > 0 {
        let front = events.drop_last();
        lemma_unwritten_fixed_is_zero(target, front, col, row);
    }
    lemma_value_table_round_trip(after_all(fresh(target), events).fixed, col as int, row as int);
}

/// An advice cell that no event of a run assigns to is zero in the function
/// of the advice table.
pub proof fn lemma_unwritten_advice_is_zero(
    target: Target,
    events: Seq<Event>,
    col: usize,
    row: usize,
)
    requires
        forall|k: int| 0 <= k < events.len() ==> !writes_advice(#[trigger] events[k], col, row),
    ensures
        !holds_cell(after_all(fresh(target), events).advice, col, row),
        table_value(after_all(fresh(target), events).advice, col as int, row as int) == zero(),
    decreases events.len(),
{
    if events.len() > 0 {
        let front = events.drop_last();
        lemma_unwritten_advice_is_zero(target, front, col, row);
    }
    lemma_value_table_round_trip(after_all(fresh(target), events).advice, col as int, row as int);
}

/// The function of the fixed table gives at a cell the value that a run
/// assigned to it last.
pub proof fn lemma_fixed_round_trip(target: Target, events: Seq<Event>, at: int)
    requires
        0 <= at < events.len(),
        events[at] is AssignFixed,
        forall|k: int|
            at < k < events.len() ==> !writes_fixed(
                #[trigger] events[k],
                events[at]->AssignFixed_column,
                events[at]->AssignFixed_row,
            ),
    ensures
        table_value(
            after_all(fresh(target), events).fixed,
            events[at]->AssignFixed_column as int,
            events[at]->AssignFixed_row as int,
        ) == scoped(events[at]->AssignFixed_value),
{
    lemma_last_fixed_is_kept(fresh(target), events, at);
    lemma_value_table_round_trip(
        after_all(fresh(target), events).fixed,
        events[at]->AssignFixed_column as int,
        events[at]->AssignFixed_row as int,
    );
}

/// Where a run writes advice out, the function of the advice table gives at
/// a cell the value that the run assigned to it last.
pub proof fn lemma_advice_round_trip(events: Seq<Event>, at: int)
    requires
        0 <= at < events.len(),
        events[at] is AssignAdvice,
        forall|k: int|
            at < k < events.len() ==> !writes_advice(
                #[trigger] events[k],
                events[at]->AssignAdvice_column,
                events[at]->AssignAdvice_row,
            ),
    ensures
        after_all(fresh(Target::AdviceGenerator), events).advice.dom().len() > 0,
        table_value(
            after_all(fresh(Target::AdviceGenerator), events).advice,
            events[at]->AssignAdvice_column as int,
            events[at]->AssignAdvice_row as int,
        ) == scoped(events[at]->AssignAdvice_value),
{
    let tables = after_all(fresh(Target::AdviceGenerator), events);
    lemma_last_advice_is_kept(fresh(Target::AdviceGenerator), events, at);
    lemma_value_table_round_trip(
        tables.advice,
        events[at]->AssignAdvice_column as int,
        events[at]->AssignAdvice_row as int,
    );
    lemma_tables_are_finite(fresh(Target::AdviceGenerator), events);
    if tables.advice.dom().len() == 0 {
        tables.advice.dom().lemma_len0_is_empty();
    }
}

/// The tables of a run hold finitely many columns.
pub proof fn lemma_tables_are_finite(tables: Tables, events: Seq<Event>)
    requires
        tables.selectors.dom().finite(),
        tables.advice.dom().finite(),
        tables.fixed.dom().finite(),
    ensures
        after_all(tables, events).selectors.dom().finite(),
        after_all(tables, events).advice.dom().finite(),
        after_all(tables, events).fixed.dom().finite(),
    decreases events.len(),
{
    if events.len() > 0 {
        lemma_tables_are_finite(tables, events.drop_last());
    }
}

/// An active row stays active: no event takes a row from the selector
/// table.
pub proof fn lemma_selectors_grow(tables: Tables, events: Seq<Event>, col: usize, row: usize)
    requires
        tables.selectors.contains_key(col),
        tables.selectors[col].contains(row),
    ensures
        after_all(tables, events).selectors.contains_key(col),
        after_all(tables, events).selectors[col].contains(row),
    decreases events.len(),
{
    if events.len() > 0 {
        lemma_selectors_grow(tables, events.drop_last(), col, row);
    }
}

/// What a run writes out does not depend on whether advice is written out:
/// the two kinds of run differ in the advice they keep and in nothing else.
pub proof fn lemma_target_changes_advice_only(events: Seq<Event>)
    ensures
        after_all(fresh(Target::Constraints), events).region == after_all(
            fresh(Target::AdviceGenerator),
            events,
        ).region,
        after_all(fresh(Target::Constraints), events).copies == after_all(
            fresh(Target::AdviceGenerator),
            events,
        ).copies,
        after_all(fresh(Target::Constraints), events).selectors == after_all(
            fresh(Target::AdviceGenerator),
            events,
        ).selectors,
        after_all(fresh(Target::Constraints), events).fixed == after_all(
            fresh(Target::AdviceGenerator),
            events,
        ).fixed,
        events.len() > 0 ==> emitted(
            after_all(fresh(Target::Constraints), events.drop_last()),
            events.last(),
        ) == emitted(after_all(fresh(Target::AdviceGenerator), events.drop_last()), events.last()),
        crate::document::grouping_text(after_all(fresh(Target::Constraints), events))
            == crate::document::grouping_text(after_all(fresh(Target::AdviceGenerator), events)),
    decreases events.len(),
{
    if events.len() > 0 {
        lemma_target_changes_advice_only(events.drop_last());
    }
}

} // verus!
