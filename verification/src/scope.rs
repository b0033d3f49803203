//! Scoping: the references to instance cells in the text of a value are read
//! from the circuit `ctx`. A reference reads `Instance 3 5`, the column and
//! the row, and begins the text or stands behind a space or an opening
//! bracket. Nothing else is touched, and scoping what is scoped changes
//! nothing.

use crate::text::{
    chars_of, digit_value, found_at, lemma_found_is_prefix, matches_at, value_of,
};
use vstd::prelude::*;
use vstd::string::StringExecFns;

verus! {

/// Whether `c` is one of the digits `0` to `9`.
pub open spec fn is_digit(c: char) -> bool {
    digit_value(c) is Some
}

/// Whether a decimal numeral, a space and a digit stand in `s` at `at`: the
/// column of a reference and the beginning of its row.
pub open spec fn numerals_at(s: Seq<char>, at: int) -> bool
    decreases s.len() - at,
{
    &&& 0 <= at < s.len()
    &&& is_digit(s[at])
    &&& ((at + 2 < s.len() && s[at + 1] == ' ' && is_digit(s[at + 2])) || numerals_at(s, at + 1))
}

/// Whether `Instance`, a space, a decimal numeral, a space and a decimal
/// numeral stand in `s` at `at`.
pub open spec fn shape_at(s: Seq<char>, at: int) -> bool {
    found_at(s, "Instance "@, at) && numerals_at(s, at + 9)
}

/// Whether a reference to an instance cell begins in `s` at `at`: it has
/// the shape of one, and begins the text or stands behind a space or an
/// opening bracket.
pub open spec fn reference_at(s: Seq<char>, at: int) -> bool {
    shape_at(s, at) && (at == 0 || s[at - 1] == ' ' || s[at - 1] == '(')
}

/// `expr` from `at` on, with `ctx.` put before each reference.
pub open spec fn scoped_from(expr: Seq<char>, at: int) -> Seq<char>
    decreases expr.len() - at,
{
    if at < 0 || at >= expr.len() {
        Seq::empty()
    } else if reference_at(expr, at) {
        "ctx."@ + seq![expr[at]] + scoped_from(expr, at + 1)
    } else {
        seq![expr[at]] + scoped_from(expr, at + 1)
    }
}

/// `expr` with each reference to an instance cell read from the circuit
/// `ctx`: `ctx.` is put before the positions where a reference begins, and
/// nowhere else.
pub open spec fn scoped(expr: Seq<char>) -> Seq<char> {
    scoped_from(expr, 0)
}

/// What stands behind a head depends on what follows the head alone.
proof fn lemma_numerals_behind(head: Seq<char>, s: Seq<char>, at: int)
    requires
        0 <= at,
    ensures
        numerals_at(head + s, head.len() + at) == numerals_at(s, at),
    decreases s.len() - at,
{
    let all = head + s;
    if at < s.len() {
        assert(all[head.len() + at] == s[at]);
        if at + 2 < s.len() {
            assert(all[head.len() + at + 1] == s[at + 1]);
            assert(all[head.len() + at + 2] == s[at + 2]);
        }
        lemma_numerals_behind(head, s, at + 1);
    }
}

/// What stands behind a head depends on what follows the head alone.
proof fn lemma_found_behind(head: Seq<char>, s: Seq<char>, pattern: Seq<char>, at: int)
    requires
        0 <= at,
    ensures
        found_at(head + s, pattern, head.len() + at) == found_at(s, pattern, at),
{
    let all = head + s;
    if found_at(all, pattern, head.len() + at) {
        assert forall|k: int| 0 <= k < pattern.len() implies s[at + k] == #[trigger] pattern[k] by {
            assert(all[head.len() + at + k] == s[at + k]);
        }
    }
    if found_at(s, pattern, at) {
        assert forall|k: int| 0 <= k < pattern.len() implies all[head.len() + at + k]
            == #[trigger] pattern[k] by {
            assert(all[head.len() + at + k] == s[at + k]);
        }
    }
}

/// Where a scoped text begins with the numerals of a reference, so does
/// the text it was made from: nothing was put between them.
proof fn lemma_numerals_copied(expr: Seq<char>, at: int)
    requires
        0 <= at,
        numerals_at(scoped_from(expr, at), 0),
    ensures
        numerals_at(expr, at),
    decreases expr.len() - at,
{
    reveal_strlit("ctx.");
    let out = scoped_from(expr, at);
    let next = scoped_from(expr, at + 1);
    assert(!reference_at(expr, at)) by {
        if reference_at(expr, at) {
            assert(out[0] == 'c');
        }
    }
    assert(out =~= seq![expr[at]] + next);
    assert(out[0] == expr[at]);
    if out.len() > 2 && out[1] == ' ' && is_digit(out[2]) {
        let last = scoped_from(expr, at + 2);
        assert(next[0] == out[1]);
        assert(!reference_at(expr, at + 1)) by {
            if reference_at(expr, at + 1) {
                assert(next[0] == 'c');
            }
        }
        assert(next =~= seq![expr[at + 1]] + last);
        assert(last[0] == out[2]);
        assert(!reference_at(expr, at + 2)) by {
            if reference_at(expr, at + 2) {
                assert(last[0] == 'c');
            }
        }
        assert(last[0] == expr[at + 2]);
    } else {
        lemma_numerals_behind(seq![expr[at]], next, 0);
        lemma_numerals_copied(expr, at + 1);
    }
}

/// Where a scoped text begins with the rest of a reference, from the
/// letter `k` of `Instance ` on, so does the text it was made from.
proof fn lemma_word_copied(expr: Seq<char>, at: int, k: int)
    requires
        0 <= at,
        0 <= k <= 9,
        found_at(scoped_from(expr, at), "Instance "@.skip(k), 0),
        numerals_at(scoped_from(expr, at), 9 - k),
    ensures
        found_at(expr, "Instance "@.skip(k), at),
        numerals_at(expr, at + 9 - k),
    decreases 9 - k,
{
    reveal_strlit("ctx.");
    reveal_strlit("Instance ");
    let word = "Instance "@;
    let out = scoped_from(expr, at);
    let next = scoped_from(expr, at + 1);
    if k == 9 {
        lemma_numerals_copied(expr, at);
    } else {
        assert(out[0 + 0int] == word.skip(k)[0]);
        assert(out[0] == word[k]);
        assert(!reference_at(expr, at)) by {
            if reference_at(expr, at) {
                assert(out[0] == 'c');
                assert(out[1] == 't');
                assert(k == 6);
                assert(out[0 + 1int] == word.skip(k)[1]);
            }
        }
        assert(out =~= seq![expr[at]] + next);
        assert(out[0] == expr[at]);
        assert forall|j: int| 0 <= j < word.skip(k + 1).len() implies next[0 + j]
            == #[trigger] word.skip(k + 1)[j] by {
            assert(out[0 + (j + 1)] == word.skip(k)[j + 1]);
            assert(next[j] == out[j + 1]);
        }
        assert(found_at(next, word.skip(k + 1), 0));
        lemma_numerals_behind(seq![expr[at]], next, 8 - k);
        lemma_word_copied(expr, at + 1, k + 1);
        assert forall|j: int| 0 <= j < word.skip(k).len() implies expr[at + j]
            == #[trigger] word.skip(k)[j] by {
            if j > 0 {
                assert(expr[at + 1 + (j - 1)] == word.skip(k + 1)[j - 1]);
            }
        }
    }
}

/// Where the shape of a reference stands in a scoped text, it stands at
/// the very beginning, over the same shape without its boundary, or behind
/// a character that is neither a space nor an opening bracket.
proof fn lemma_scoped_shapes(expr: Seq<char>, at: int, p: int)
    requires
        0 <= at <= expr.len(),
        0 <= p,
        shape_at(scoped_from(expr, at), p),
    ensures
        p == 0 ==> shape_at(expr, at) && !reference_at(expr, at),
        p > 0 ==> scoped_from(expr, at)[p - 1] != ' ' && scoped_from(expr, at)[p - 1] != '(',
    decreases expr.len() - at,
{
    reveal_strlit("ctx.");
    reveal_strlit("Instance ");
    let word = "Instance "@;
    let out = scoped_from(expr, at);
    let next = scoped_from(expr, at + 1);
    let head = if reference_at(expr, at) {
        "ctx."@ + seq![expr[at]]
    } else {
        seq![expr[at]]
    };
    assert(at < expr.len());
    assert(out =~= head + next);
    assert(out[p + 0] == word[0]);
    if p >= head.len() {
        let q = p - head.len();
        lemma_found_behind(head, next, word, q);
        lemma_numerals_behind(head, next, q + 9);
        lemma_scoped_shapes(expr, at + 1, q);
        if q > 0 {
            assert(out[p - 1] == next[q - 1]);
        } else {
            assert(out[p - 1] == expr[at]);
        }
    } else if reference_at(expr, at) {
        assert(p == 4);
        assert(out[3] == '.');
    } else {
        assert(p == 0);
        assert forall|j: int| 0 <= j < word.skip(1).len() implies next[0 + j]
            == #[trigger] word.skip(1)[j] by {
            assert(out[0 + (j + 1)] == word[j + 1]);
            assert(next[j] == out[j + 1]);
        }
        assert(found_at(next, word.skip(1), 0));
        lemma_numerals_behind(head, next, 8);
        lemma_word_copied(expr, at + 1, 1);
        assert forall|j: int| 0 <= j < word.len() implies expr[at + j] == #[trigger] word[j] by {
            if j > 0 {
                assert(expr[at + 1 + (j - 1)] == word.skip(1)[j - 1]);
            } else {
                assert(out[0] == expr[at]);
            }
        }
    }
}

/// No reference is left in a scoped text: each has `ctx.` before it.
pub proof fn lemma_scoped_has_no_reference(expr: Seq<char>, at: int)
    ensures
        !reference_at(scoped(expr), at),
{
    if at >= 0 && shape_at(scoped(expr), at) {
        lemma_scoped_shapes(expr, 0, at);
    }
}

/// From `at` on, scoping changes nothing in a text without a reference.
proof fn lemma_scoped_from_without_reference(expr: Seq<char>, at: int)
    requires
        0 <= at <= expr.len(),
        forall|p: int| !reference_at(expr, p),
    ensures
        scoped_from(expr, at) == expr.skip(at),
    decreases expr.len() - at,
{
    if at < expr.len() {
        lemma_scoped_from_without_reference(expr, at + 1);
        assert(seq![expr[at]] + expr.skip(at + 1) =~= expr.skip(at));
    }
}

/// Scoping changes nothing in a text without a reference to an instance
/// cell: every character stays.
pub proof fn lemma_scoped_without_reference(expr: Seq<char>)
    requires
        forall|at: int| !reference_at(expr, at),
    ensures
        scoped(expr) == expr,
{
    lemma_scoped_from_without_reference(expr, 0);
    assert(expr.skip(0) =~= expr);
}

/// Scoping what is scoped changes nothing: each reference is scoped once.
pub proof fn lemma_scoped_once(expr: Seq<char>)
    ensures
        scoped(scoped(expr)) == scoped(expr),
{
    assert forall|at: int| !reference_at(scoped(expr), at) by {
        lemma_scoped_has_no_reference(expr, at);
    }
    lemma_scoped_without_reference(scoped(expr));
}

/// Whether a decimal numeral, a space and a digit stand in `s` at `at`.
pub fn has_numerals(s: &Vec<char>, at: usize) -> (r: bool)
    ensures
        r == numerals_at(s@, at as int),
{
    let mut i: usize = at;
    while i < s.len()
        invariant
            at <= i,
            numerals_at(s@, at as int) == numerals_at(s@, i as int),
        decreases s.len() - i,
    {
        if value_of(s[i]).is_none() {
            return false;
        }
        if s.len() - i > 2 && s[i + 1] == ' ' && value_of(s[i + 2]).is_some() {
            return true;
        }
        i += 1;
    }
    false
}

/// Whether a reference to an instance cell begins in `s` at `at`.
pub fn begins_reference(s: &Vec<char>, at: usize) -> (r: bool)
    requires
        at <= s.len(),
    ensures
        r == reference_at(s@, at as int),
{
    proof {
        reveal_strlit("Instance ");
        lemma_found_is_prefix(s@, "Instance "@, at as int);
    }
    if !(at == 0 || s[at - 1] == ' ' || s[at - 1] == '(') {
        return false;
    }
    if !matches_at(s, at, &chars_of("Instance ")) {
        return false;
    }
    has_numerals(s, at + 9)
}

/// `expr` with each reference to an instance cell read from the circuit
/// `ctx`.
pub fn scope(expr: &Vec<char>) -> (r: String)
    ensures
        r@ == scoped(expr@),
{
    let mut out = String::new();
    let mut i: usize = 0;
    assert(out@ + scoped_from(expr@, 0) =~= scoped(expr@));
    while i < expr.len()
        invariant
            i <= expr.len(),
            out@ + scoped_from(expr@, i as int) == scoped(expr@),
        decreases expr.len() - i,
    {
        let ghost before = out@;
        let ghost rest = scoped_from(expr@, i + 1);
        if begins_reference(expr, i) {
            out.append("ctx.");
            out.push(expr[i]);
            assert(out@ + rest =~= before + ("ctx."@ + seq![expr@[i as int]] + rest));
        } else {
            out.push(expr[i]);
            assert(out@ + rest =~= before + (seq![expr@[i as int]] + rest));
        }
        i += 1;
    }
    out
}

} // verus!
