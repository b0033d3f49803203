//! From sparse column data to the arms of a `match` on the row, and back.
//!
//! A selector column becomes a step function: arms `_+k`, highest `k`
//! first, each giving the value of the rows from `k` up to the arm before
//! it, and a last arm for the rows under all of them. A column of values
//! becomes one arm for each row whose value is not zero, and a last arm that
//! gives zero. Read as a `match` reads them, first arm first, both give back
//! what was recorded.

use crate::order::{ascending, lemma_ascending, map_keys, set_elements, strictly_increasing};
use std::collections::BTreeMap;
use std::collections::BTreeSet;
use vstd::prelude::*;
use vstd::string::StrSliceExecFns;
use vstd::string::StringExecFns;

verus! {

/// One arm of a step function: the rows above `above` have the value
/// `value`, as far as no earlier arm has spoken for them.
#[derive(Clone, Copy, Debug)]
pub struct Breakpoint {
    pub above: usize,
    pub value: bool,
}

/// A function of the row that changes its value at the breakpoints only.
/// The breakpoints stand highest first; `default` is the value of the rows
/// that none of them speaks for.
#[derive(Debug)]
pub struct StepFunction {
    pub breakpoints: Vec<Breakpoint>,
    pub default: bool,
}

/// Whether the selector is active at `row`.
pub open spec fn active(rows: Set<usize>, row: int) -> bool {
    0 <= row <= usize::MAX && rows.contains(row as usize)
}

/// The breakpoints at rows under `bound`, highest first: one at each row
/// where the selector is not what it is one row higher.
pub open spec fn breakpoints_below(rows: Set<usize>, bound: int) -> Seq<Breakpoint>
    decreases bound,
{
    if bound <= 0 {
        Seq::empty()
    } else {
        let row = bound - 1;
        let lower = breakpoints_below(rows, row);
        if row <= usize::MAX && active(rows, row) != active(rows, row + 1) {
            seq![Breakpoint { above: row as usize, value: active(rows, row + 1) }] + lower
        } else {
            lower
        }
    }
}

/// The breakpoints of the step function of a selector column.
pub open spec fn breakpoints_of(rows: Set<usize>) -> Seq<Breakpoint> {
    breakpoints_below(rows, usize::MAX + 1)
}

/// What a `match` on `row` gives with one arm `_+(above + 1)` for each
/// breakpoint, in their order, and `default` in its last arm.
pub open spec fn step_value(breakpoints: Seq<Breakpoint>, default: bool, row: int) -> bool
    decreases breakpoints.len(),
{
    if breakpoints.len() == 0 {
        default
    } else if row > breakpoints[0].above {
        breakpoints[0].value
    } else {
        step_value(breakpoints.drop_first(), default, row)
    }
}

/// With the breakpoints under `bound`, the rows under `bound` have their own
/// value, and the rows from `bound` on have the value of `bound`.
pub proof fn lemma_breakpoints_below(rows: Set<usize>, bound: int, row: int)
    requires
        0 <= bound <= usize::MAX + 1,
        0 <= row,
    ensures
        step_value(breakpoints_below(rows, bound), active(rows, 0), row) == if row >= bound {
            active(rows, bound)
        } else {
            active(rows, row)
        },
    decreases bound,
{
    if bound > 0 {
        let lower = breakpoints_below(rows, bound - 1);
        lemma_breakpoints_below(rows, bound - 1, row);
        if active(rows, bound - 1) != active(rows, bound) {
            let first = Breakpoint { above: (bound - 1) as usize, value: active(rows, bound) };
            assert((seq![first] + lower).drop_first() =~= lower);
        }
    }
}

/// The step function of a selector column is true at the rows where the
/// selector was enabled and false at every other row, above the highest of
/// them too.
pub proof fn lemma_step_function_gives_rows(rows: Set<usize>, row: int)
    requires
        0 <= row,
    ensures
        step_value(breakpoints_of(rows), active(rows, 0), row) == active(rows, row),
{
    lemma_breakpoints_below(rows, usize::MAX + 1, row);
}

/// Where no row is active there is no breakpoint.
pub proof fn lemma_no_rows_no_breakpoints(rows: Set<usize>, bound: int)
    requires
        forall|r: usize| !rows.contains(r),
    ensures
        breakpoints_below(rows, bound) == Seq::<Breakpoint>::empty(),
    decreases bound,
{
    if bound > 0 {
        lemma_no_rows_no_breakpoints(rows, bound - 1);
    }
}

/// The step function of a column without an active row has no breakpoint
/// and is false at every row, row 0 too.
pub proof fn lemma_empty_column_is_false(row: int)
    ensures
        breakpoints_of(Set::<usize>::empty()) == Seq::<Breakpoint>::empty(),
        !active(Set::<usize>::empty(), 0),
        !step_value(breakpoints_of(Set::<usize>::empty()), active(Set::<usize>::empty(), 0), row),
{
    lemma_no_rows_no_breakpoints(Set::<usize>::empty(), usize::MAX + 1);
}

/// The breakpoints under `bound` begin with the value of `bound`, or there
/// is none and row 0 has that value.
proof fn lemma_breakpoints_begin(rows: Set<usize>, bound: int)
    requires
        0 <= bound <= usize::MAX + 1,
    ensures
        breakpoints_below(rows, bound).len() == 0 ==> active(rows, 0) == active(rows, bound),
        breakpoints_below(rows, bound).len() > 0 ==> breakpoints_below(rows, bound)[0].value
            == active(rows, bound) && breakpoints_below(rows, bound)[0].above < bound,
    decreases bound,
{
    if bound > 0 {
        lemma_breakpoints_begin(rows, bound - 1);
    }
}

/// The breakpoints of a step function stand highest first, and each is a
/// change: its value is not the value of what follows it. No shorter list
/// of breakpoints gives the same function.
pub proof fn lemma_breakpoints_are_changes(rows: Set<usize>, bound: int, i: int)
    requires
        0 <= bound <= usize::MAX + 1,
        0 <= i < breakpoints_below(rows, bound).len(),
    ensures
        breakpoints_below(rows, bound)[i].above < bound,
        i + 1 < breakpoints_below(rows, bound).len() ==> breakpoints_below(rows, bound)[i].above
            > breakpoints_below(rows, bound)[i + 1].above && breakpoints_below(
            rows,
            bound,
        )[i].value != breakpoints_below(rows, bound)[i + 1].value,
        i + 1 == breakpoints_below(rows, bound).len() ==> breakpoints_below(rows, bound)[i].value
            != active(rows, 0),
    decreases bound,
{
    if active(rows, bound - 1) != active(rows, bound) {
        if i == 0 {
            lemma_breakpoints_begin(rows, bound - 1);
        } else {
            lemma_breakpoints_are_changes(rows, bound - 1, i - 1);
        }
    } else {
        lemma_breakpoints_are_changes(rows, bound - 1, i);
    }
}

/// Above the highest active row there is no breakpoint.
proof fn lemma_breakpoints_end(rows: Set<usize>, top: int, bound: int)
    requires
        0 <= top <= bound,
        forall|r: usize| rows.contains(r) ==> r < top,
    ensures
        breakpoints_below(rows, bound) == breakpoints_below(rows, top),
    decreases bound,
{
    if bound > top {
        lemma_breakpoints_end(rows, top, bound - 1);
    }
}

/// The step function of a selector column, from the rows at which the
/// selector is enabled.
pub fn compact(rows: &BTreeSet<usize>) -> (f: StepFunction)
    ensures
        f.breakpoints@ == breakpoints_of(rows@),
        f.default == active(rows@, 0),
{
    let elements = set_elements(rows);
    let mut breakpoints: Vec<Breakpoint> = Vec::new();
    let mut current = false;
    proof {
        lemma_ascending(rows@);
    }
    if elements.len() == 0 {
        proof {
            lemma_no_rows_no_breakpoints(rows@, usize::MAX + 1);
        }
        return StepFunction { breakpoints, default: false };
    }
    let top = elements[elements.len() - 1];
    proof {
        lemma_breakpoints_end(rows@, top + 1, usize::MAX + 1);
    }
    let mut row = top;
    loop
        invariant_except_break
            row <= top,
            current == active(rows@, row + 1),
            breakpoints@ + breakpoints_below(rows@, row + 1) == breakpoints_of(rows@),
        ensures
            current == active(rows@, 0),
            breakpoints@ == breakpoints_of(rows@),
        decreases row,
    {
        let now = rows.contains(&row);
        if now != current {
            breakpoints.push(Breakpoint { above: row, value: current });
            current = now;
        }
        assert(breakpoints@ + breakpoints_below(rows@, row as int) =~= breakpoints_of(rows@));
        if row == 0 {
            break ;
        }
        row -= 1;
    }
    StepFunction { breakpoints, default: current }
}

impl StepFunction {
    /// The value of the function at `row`.
    pub fn value_at(&self, row: usize) -> (value: bool)
        ensures
            value == step_value(self.breakpoints@, self.default, row as int),
    {
        let mut i: usize = 0;
        assert(self.breakpoints@.skip(0) =~= self.breakpoints@);
        while i < self.breakpoints.len()
            invariant
                i <= self.breakpoints.len(),
                step_value(self.breakpoints@, self.default, row as int) == step_value(
                    self.breakpoints@.skip(i as int),
                    self.default,
                    row as int,
                ),
            decreases self.breakpoints.len() - i,
        {
            let ghost rest = self.breakpoints@.skip(i as int);
            if row > self.breakpoints[i].above {
                return self.breakpoints[i].value;
            }
            proof {
                assert(rest.drop_first() =~= self.breakpoints@.skip(i + 1));
            }
            i += 1;
        }
        self.default
    }
}

/// One arm of a column of values: at `row` the column has `value`.
#[derive(Debug)]
pub struct Case {
    pub row: usize,
    pub value: String,
}

/// The arms of a column of values, lowest row first. A row without an arm
/// has the value zero.
#[derive(Debug)]
pub struct CaseTable {
    pub cases: Vec<Case>,
}

/// A `Case` as the contracts speak of it.
pub struct Entry {
    pub row: usize,
    pub value: Seq<char>,
}

/// The text of the value zero.
pub open spec fn zero() -> Seq<char> {
    seq!['0']
}

/// The cases as the contracts speak of them.
pub open spec fn entries(cases: Seq<Case>) -> Seq<Entry> {
    Seq::new(cases.len(), |i: int| Entry { row: cases[i].row, value: cases[i].value@ })
}

/// The values of a column as the contracts speak of them.
pub open spec fn text_values(values: Map<usize, String>) -> Map<usize, Seq<char>> {
    Map::new(|row: usize| values.contains_key(row), |row: usize| values[row]@)
}

/// One entry for each of `rows` whose value is not zero, in the order of
/// `rows`.
pub open spec fn entries_among(values: Map<usize, Seq<char>>, rows: Seq<usize>) -> Seq<Entry>
    decreases rows.len(),
{
    if rows.len() == 0 {
        Seq::empty()
    } else {
        let front = entries_among(values, rows.drop_last());
        let row = rows.last();
        if values[row] != zero() {
            front.push(Entry { row, value: values[row] })
        } else {
            front
        }
    }
}

/// The entries of a column of values: one for each recorded row whose
/// value is not zero, lowest row first.
pub open spec fn entries_of(values: Map<usize, Seq<char>>) -> Seq<Entry> {
    entries_among(values, ascending(values.dom()))
}

/// What a `match` on `row` gives with one arm for each entry, in their
/// order, and zero in its last arm.
pub open spec fn entry_value(entries: Seq<Entry>, row: int) -> Seq<char>
    decreases entries.len(),
{
    if entries.len() == 0 {
        zero()
    } else if entries[0].row == row {
        entries[0].value
    } else {
        entry_value(entries.drop_first(), row)
    }
}

/// What was recorded for `row`: the value last written, or zero where none
/// was.
pub open spec fn recorded_value(values: Map<usize, Seq<char>>, row: int) -> Seq<char> {
    if 0 <= row <= usize::MAX && values.contains_key(row as usize) {
        values[row as usize]
    } else {
        zero()
    }
}

/// An entry for another row at the end changes nothing for `row`; one for
/// `row` gives its value if no earlier entry is for `row`.
proof fn lemma_entry_value_push(front: Seq<Entry>, last: Entry, row: int)
    ensures
        last.row != row ==> entry_value(front.push(last), row) == entry_value(front, row),
        last.row == row && (forall|i: int| 0 <= i < front.len() ==> front[i].row != row)
            ==> entry_value(front.push(last), row) == last.value,
    decreases front.len(),
{
    let all = front.push(last);
    if front.len() == 0 {
        assert(all.drop_first() =~= front);
    } else {
        assert(all.drop_first() =~= front.drop_first().push(last));
        lemma_entry_value_push(front.drop_first(), last, row);
    }
}

/// The entries among strictly increasing rows give each of these rows its
/// value and every other row zero.
proof fn lemma_entries_among(values: Map<usize, Seq<char>>, rows: Seq<usize>, row: int)
    requires
        strictly_increasing(rows),
    ensures
        forall|i: int|
            0 <= i < entries_among(values, rows).len() ==> rows.contains(
                (#[trigger] entries_among(values, rows)[i]).row,
            ),
        entry_value(entries_among(values, rows), row) == if 0 <= row <= usize::MAX
            && rows.contains(row as usize) {
            values[row as usize]
        } else {
            zero()
        },
    decreases rows.len(),
{
    if rows.len() > 0 {
        let front_rows = rows.drop_last();
        let front = entries_among(values, front_rows);
        let top = rows.last();
        lemma_entries_among(values, front_rows, row);
        if 0 <= row <= usize::MAX && rows.contains(row as usize) && row != top {
            let i = choose|i: int| 0 <= i < rows.len() && rows[i] == row as usize;
            assert(front_rows[i] == row as usize);
        }
        if values[top] != zero() {
            lemma_entry_value_push(front, Entry { row: top, value: values[top] }, row);
        }
    }
}

/// Each entry among `rows` is for one of them, and holds its value, which
/// is not zero.
proof fn lemma_entry_among(values: Map<usize, Seq<char>>, rows: Seq<usize>, i: int)
    requires
        0 <= i < entries_among(values, rows).len(),
    ensures
        rows.contains(entries_among(values, rows)[i].row),
        entries_among(values, rows)[i].value == values[entries_among(values, rows)[i].row],
        entries_among(values, rows)[i].value != zero(),
    decreases rows.len(),
{
    let front_rows = rows.drop_last();
    let front = entries_among(values, front_rows);
    if i < front.len() {
        lemma_entry_among(values, front_rows, i);
    }
}

/// The entries among strictly increasing rows stand lowest row first.
proof fn lemma_entries_among_ascend(values: Map<usize, Seq<char>>, rows: Seq<usize>, i: int, j: int)
    requires
        strictly_increasing(rows),
        0 <= i < j < entries_among(values, rows).len(),
    ensures
        entries_among(values, rows)[i].row < entries_among(values, rows)[j].row,
    decreases rows.len(),
{
    let front_rows = rows.drop_last();
    let front = entries_among(values, front_rows);
    if j < front.len() {
        lemma_entries_among_ascend(values, front_rows, i, j);
    } else {
        lemma_entry_among(values, front_rows, i);
    }
}

/// Each entry of a column is for a recorded row and holds the value
/// recorded for it, which is not zero.
pub proof fn lemma_entry_holds_value(values: Map<usize, Seq<char>>, i: int)
    requires
        0 <= i < entries_of(values).len(),
    ensures
        values.contains_key(entries_of(values)[i].row),
        entries_of(values)[i].value == values[entries_of(values)[i].row],
        entries_of(values)[i].value != zero(),
{
    let rows = ascending(values.dom());
    lemma_ascending(values.dom());
    lemma_entry_among(values, rows, i);
    let row = entries_of(values)[i].row;
    let k = choose|k: int| 0 <= k < rows.len() && rows[k] == row;
    assert(values.dom().contains(rows[k]));
}

/// The entries of a column stand lowest row first, each row once.
pub proof fn lemma_entries_ascend(values: Map<usize, Seq<char>>, i: int, j: int)
    requires
        0 <= i < j < entries_of(values).len(),
    ensures
        entries_of(values)[i].row < entries_of(values)[j].row,
{
    lemma_ascending(values.dom());
    lemma_entries_among_ascend(values, ascending(values.dom()), i, j);
}

/// The arms of a column of values give back what was recorded: at each row
/// that was written the value written last, at every other row zero.
pub proof fn lemma_entries_give_values(values: Map<usize, Seq<char>>, row: int)
    ensures
        entry_value(entries_of(values), row) == recorded_value(values, row),
{
    let rows = ascending(values.dom());
    lemma_ascending(values.dom());
    lemma_entries_among(values, rows, row);
}

/// Whether `value` is the text of zero.
pub fn is_zero(value: &str) -> (r: bool)
    ensures
        r == (value@ == zero()),
{
    let r = value.unicode_len() == 1 && value.get_char(0) == '0';
    assert(r ==> value@ =~= zero());
    r
}

/// The arms of a column of values, from what was recorded for its rows.
pub fn value_cases(values: &BTreeMap<usize, String>) -> (table: CaseTable)
    ensures
        entries(table.cases@) == entries_of(text_values(values@)),
{
    let rows = map_keys(values);
    let mut cases: Vec<Case> = Vec::new();
    let ghost model = text_values(values@);
    proof {
        lemma_ascending(values@.dom());
        assert(model.dom() =~= values@.dom());
    }
    let mut i: usize = 0;
    while i < rows.len()
        invariant
            i <= rows.len(),
            model == text_values(values@),
            forall|k: int| 0 <= k < rows@.len() ==> values@.dom().contains(#[trigger] rows@[k]),
            entries(cases@) == entries_among(model, rows@.take(i as int)),
        decreases rows.len() - i,
    {
        let row = rows[i];
        proof {
            assert(rows@.take(i + 1).drop_last() =~= rows@.take(i as int));
        }
        if let Some(value) = values.get(&row) {
            if !is_zero(value.as_str()) {
                cases.push(Case { row, value: value.clone() });
            }
        }
        i += 1;
    }
    assert(rows@.take(rows.len() as int) =~= rows@);
    CaseTable { cases }
}

impl CaseTable {
    /// The value of the column at `row`.
    pub fn value_at(&self, row: usize) -> (value: String)
        ensures
            value@ == entry_value(entries(self.cases@), row as int),
    {
        let mut i: usize = 0;
        assert(entries(self.cases@).skip(0) =~= entries(self.cases@));
        while i < self.cases.len()
            invariant
                i <= self.cases.len(),
                entry_value(entries(self.cases@), row as int) == entry_value(
                    entries(self.cases@).skip(i as int),
                    row as int,
                ),
            decreases self.cases.len() - i,
        {
            let ghost rest = entries(self.cases@).skip(i as int);
            if self.cases[i].row == row {
                return self.cases[i].value.clone();
            }
            proof {
                assert(rest.drop_first() =~= entries(self.cases@).skip(i + 1));
            }
            i += 1;
        }
        proof {
            reveal_strlit("0");
        }
        String::from_str("0")
    }
}

} // verus!
