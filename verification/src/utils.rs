//! Columns and selectors by kind and index, read from the text that their
//! handles print as.

use crate::pattern::{captures, group_texts, regex_captures};
use crate::text::{chars_of, decimal_value, parse_decimal, same_text};
use vstd::prelude::*;

verus! {

/// Why an extraction stopped.
#[derive(Clone, Copy, Debug, PartialEq, Eq, Structural)]
pub enum ExtractorError {
    /// The text of a handle has none of the known shapes.
    MalformedHandle,
    /// A region was left while none was entered.
    UnbalancedRegion,
}

/// The kinds of column.
#[derive(Clone, Copy, Debug, PartialEq, Eq, Structural)]
pub enum ColumnKind {
    Advice,
    Fixed,
    Instance,
}

/// A column by index and kind.
#[derive(Clone, Copy, Debug, PartialEq, Eq, Structural)]
pub struct Halo2Column {
    pub index: usize,
    pub column_type: ColumnKind,
}

/// A selector by index.
#[derive(Clone, Copy, Debug, PartialEq, Eq, Structural)]
pub struct Halo2Selector(pub usize);

/// The shape of a column handle: `Column { index: 3, column_type: Advice }`.
pub const COLUMN_PATTERN: &'static str =
    r"Column\s\{\sindex:\s(\d+),\scolumn_type:\s(Advice|Instance|Fixed)\s\}";

/// The shape of a selector handle: `Selector(3, true)`.
pub const SELECTOR_PATTERN: &'static str = r"Selector\((\d+),\s(.*)\)";

/// The name of a kind, as handles print it.
pub open spec fn kind_name(kind: ColumnKind) -> Seq<char> {
    match kind {
        ColumnKind::Advice => "Advice"@,
        ColumnKind::Fixed => "Fixed"@,
        ColumnKind::Instance => "Instance"@,
    }
}

/// The kind that `name` names.
pub open spec fn kind_named(name: Seq<char>) -> Option<ColumnKind> {
    if name == "Advice"@ {
        Some(ColumnKind::Advice)
    } else if name == "Instance"@ {
        Some(ColumnKind::Instance)
    } else if name == "Fixed"@ {
        Some(ColumnKind::Fixed)
    } else {
        None
    }
}

/// Each kind is the kind that its name names: no two kinds share a name.
pub proof fn lemma_kind_round_trip(kind: ColumnKind)
    ensures
        kind_named(kind_name(kind)) == Some(kind),
{
    reveal_strlit("Advice");
    reveal_strlit("Fixed");
    reveal_strlit("Instance");
    assert("Advice"@.len() == 6 && "Fixed"@.len() == 5 && "Instance"@.len() == 8);
}

/// The index that the group `at` of a match holds: a decimal numeral that
/// fits `usize`.
pub open spec fn index_in(groups: Seq<Option<Seq<char>>>, at: int) -> Option<usize> {
    if 0 <= at < groups.len() && groups[at] is Some {
        match decimal_value(groups[at]->0) {
            Some(v) => if v <= usize::MAX {
                Some(v as usize)
            } else {
                None
            },
            None => None,
        }
    } else {
        None
    }
}

/// The column that the groups of a match of `COLUMN_PATTERN` stand for:
/// the index in group 1 and the kind in group 2.
pub open spec fn column_in(groups: Seq<Option<Seq<char>>>) -> Result<Halo2Column, ExtractorError> {
    if groups.len() > 2 && index_in(groups, 1) is Some && groups[2] is Some && kind_named(
        groups[2]->0,
    ) is Some {
        Ok(Halo2Column { index: index_in(groups, 1)->0, column_type: kind_named(groups[2]->0)->0 })
    } else {
        Err(ExtractorError::MalformedHandle)
    }
}

/// The selector that the groups of a match of `SELECTOR_PATTERN` stand for:
/// the index in group 1.
pub open spec fn selector_in(groups: Seq<Option<Seq<char>>>) -> Result<
    Halo2Selector,
    ExtractorError,
> {
    if groups.len() > 2 && index_in(groups, 1) is Some {
        Ok(Halo2Selector(index_in(groups, 1)->0))
    } else {
        Err(ExtractorError::MalformedHandle)
    }
}

/// The column that the text of a handle stands for.
pub open spec fn column_of(handle: Seq<char>) -> Result<Halo2Column, ExtractorError> {
    match regex_captures(COLUMN_PATTERN@, handle) {
        Some(groups) => column_in(groups),
        None => Err(ExtractorError::MalformedHandle),
    }
}

/// The selector that the text of a handle stands for.
pub open spec fn selector_of(handle: Seq<char>) -> Result<Halo2Selector, ExtractorError> {
    match regex_captures(SELECTOR_PATTERN@, handle) {
        Some(groups) => selector_in(groups),
        None => Err(ExtractorError::MalformedHandle),
    }
}

/// Reads the index that the group `at` of a match holds.
fn read_index(groups: &Vec<Option<String>>, at: usize) -> (r: Option<usize>)
    ensures
        r == index_in(group_texts(groups@), at as int),
{
    if at >= groups.len() {
        return None;
    }
    match &groups[at] {
        Some(text) => {
            let digits = chars_of(text.as_str());
            parse_decimal(&digits)
        },
        None => None,
    }
}

impl ExtractorError {
    /// What went wrong, in words.
    pub fn message(&self) -> (text: &'static str)
        ensures
            text@ == match *self {
                ExtractorError::MalformedHandle => "a handle does not print as a column or a selector"@,
                ExtractorError::UnbalancedRegion => "a region was left while none was entered"@,
            },
    {
        match self {
            ExtractorError::MalformedHandle => "a handle does not print as a column or a selector",
            ExtractorError::UnbalancedRegion => "a region was left while none was entered",
        }
    }
}

impl ColumnKind {
    /// The name of the kind.
    pub fn name(&self) -> (name: &'static str)
        ensures
            name@ == kind_name(*self),
    {
        match self {
            ColumnKind::Advice => "Advice",
            ColumnKind::Fixed => "Fixed",
            ColumnKind::Instance => "Instance",
        }
    }

    /// The kind of that name.
    pub fn named(name: &str) -> (kind: Option<ColumnKind>)
        ensures
            kind == kind_named(name@),
    {
        let text = chars_of(name);
        if same_text(&text, &chars_of("Advice")) {
            Some(ColumnKind::Advice)
        } else if same_text(&text, &chars_of("Instance")) {
            Some(ColumnKind::Instance)
        } else if same_text(&text, &chars_of("Fixed")) {
            Some(ColumnKind::Fixed)
        } else {
            None
        }
    }
}

impl Halo2Column {
    /// The column of that index and kind.
    pub fn new(index: usize, column_type: ColumnKind) -> (column: Self)
        ensures
            column == (Halo2Column { index, column_type }),
    {
        Halo2Column { index, column_type }
    }

    /// The column that the groups of a match of `COLUMN_PATTERN` stand for.
    pub fn from_groups(groups: &Vec<Option<String>>) -> (r: Result<Self, ExtractorError>)
        ensures
            r == column_in(group_texts(groups@)),
    {
        if groups.len() <= 2 {
            return Err(ExtractorError::MalformedHandle);
        }
        let index = match read_index(groups, 1) {
            Some(index) => index,
            None => {
                return Err(ExtractorError::MalformedHandle);
            },
        };
        let kind = match &groups[2] {
            Some(name) => ColumnKind::named(name.as_str()),
            None => None,
        };
        match kind {
            Some(column_type) => Ok(Halo2Column { index, column_type }),
            None => Err(ExtractorError::MalformedHandle),
        }
    }

    /// Reads a column from the text of its handle. A text that holds no
    /// match of `COLUMN_PATTERN` is malformed, and so is one whose index
    /// does not fit `usize`.
    pub fn try_from(value: &str) -> (r: Result<Self, ExtractorError>)
        ensures
            r == column_of(value@),
            regex_captures(COLUMN_PATTERN@, value@) is None ==> r == Err::<Self, ExtractorError>(
                ExtractorError::MalformedHandle,
            ),
    {
        match captures(COLUMN_PATTERN, value) {
            Some(groups) => Halo2Column::from_groups(&groups),
            None => Err(ExtractorError::MalformedHandle),
        }
    }
}

impl Halo2Selector {
    /// The selector that the groups of a match of `SELECTOR_PATTERN` stand
    /// for.
    pub fn from_groups(groups: &Vec<Option<String>>) -> (r: Result<Self, ExtractorError>)
        ensures
            r == selector_in(group_texts(groups@)),
    {
        if groups.len() <= 2 {
            return Err(ExtractorError::MalformedHandle);
        }
        match read_index(groups, 1) {
            Some(index) => Ok(Halo2Selector(index)),
            None => Err(ExtractorError::MalformedHandle),
        }
    }

    /// Reads a selector from the text of its handle. A text that holds no
    /// match of `SELECTOR_PATTERN` is malformed, and so is one whose index
    /// does not fit `usize`.
    pub fn try_from(value: &str) -> (r: Result<Self, ExtractorError>)
        ensures
            r == selector_of(value@),
            regex_captures(SELECTOR_PATTERN@, value@) is None ==> r == Err::<Self, ExtractorError>(
                ExtractorError::MalformedHandle,
            ),
    {
        match captures(SELECTOR_PATTERN, value) {
            Some(groups) => Halo2Selector::from_groups(&groups),
            None => Err(ExtractorError::MalformedHandle),
        }
    }
}

/// The index of the selector that the text of a handle stands for.
pub fn extract_selector_row(selector: &str) -> (r: Result<usize, ExtractorError>)
    ensures
        r == match selector_of(selector@) {
            Ok(s) => Ok::<usize, ExtractorError>(s.0),
            Err(e) => Err::<usize, ExtractorError>(e),
        },
{
    match Halo2Selector::try_from(selector) {
        Ok(s) => Ok(s.0),
        Err(e) => Err(e),
    }
}

} // verus!
