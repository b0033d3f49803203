//! The keys of the tables in ascending order: what that sequence is, and
//! that the ordered collections which hold the keys hand out just that.

use std::collections::BTreeMap;
use std::collections::BTreeSet;
use vstd::prelude::*;
use vstd::std_specs::cmp::OrdSpec;
use vstd::std_specs::iter::IteratorSpec;

verus! {

/// Each element is less than the ones behind it.
pub open spec fn strictly_increasing(q: Seq<usize>) -> bool {
    forall|i: int, j: int| 0 <= i < j < q.len() ==> q[i] < q[j]
}

/// `q` holds the elements of `s` that are less than `bound`, and nothing
/// else.
pub open spec fn holds_those_below(q: Seq<usize>, s: Set<usize>, bound: nat) -> bool {
    &&& forall|i: int| 0 <= i < q.len() ==> s.contains(#[trigger] q[i]) && q[i] < bound
    &&& forall|k: usize| #[trigger] s.contains(k) && k < bound ==> q.contains(k)
}

/// The elements of `s` that are less than `bound`, smallest first.
pub open spec fn ascending_below(s: Set<usize>, bound: nat) -> Seq<usize>
    decreases bound,
{
    if bound == 0 {
        Seq::empty()
    } else {
        let rest = ascending_below(s, (bound - 1) as nat);
        if bound - 1 <= usize::MAX && s.contains((bound - 1) as usize) {
            rest.push((bound - 1) as usize)
        } else {
            rest
        }
    }
}

/// The elements of `s`, smallest first.
pub open spec fn ascending(s: Set<usize>) -> Seq<usize> {
    ascending_below(s, usize::MAX as nat + 1)
}

/// `ascending_below` holds the elements of the set under the bound, each
/// once and in order.
pub proof fn lemma_ascending_below(s: Set<usize>, bound: nat)
    ensures
        strictly_increasing(ascending_below(s, bound)),
        holds_those_below(ascending_below(s, bound), s, bound),
    decreases bound,
{
    if bound > 0 {
        let rest = ascending_below(s, (bound - 1) as nat);
        lemma_ascending_below(s, (bound - 1) as nat);
        let all = ascending_below(s, bound);
        if bound - 1 <= usize::MAX && s.contains((bound - 1) as usize) {
            let top = (bound - 1) as usize;
            assert forall|k: usize| #[trigger] s.contains(k) && k < bound implies all.contains(
                k,
            ) by {
                if k == top {
                    assert(all[all.len() - 1] == k);
                } else {
                    let i = choose|i: int| 0 <= i < rest.len() && rest[i] == k;
                    assert(all[i] == k);
                }
            }
        }
    }
}

/// `ascending` holds the elements of the set, each once and in order.
pub proof fn lemma_ascending(s: Set<usize>)
    ensures
        strictly_increasing(ascending(s)),
        forall|i: int| 0 <= i < ascending(s).len() ==> s.contains(#[trigger] ascending(s)[i]),
        forall|k: usize| #[trigger] s.contains(k) ==> ascending(s).contains(k),
{
    lemma_ascending_below(s, usize::MAX as nat + 1);
}

/// A strictly increasing sequence that holds the elements of the set under
/// the bound is `ascending_below`: there is only one such sequence.
pub proof fn lemma_ascending_below_unique(s: Set<usize>, bound: nat, q: Seq<usize>)
    requires
        strictly_increasing(q),
        holds_those_below(q, s, bound),
    ensures
        q == ascending_below(s, bound),
    decreases bound,
{
    if bound == 0 {
        if q.len() > 0 {
            assert(q[0] < bound);
        }
    } else if bound - 1 <= usize::MAX && s.contains((bound - 1) as usize) {
        let top = (bound - 1) as usize;
        let at = choose|i: int| 0 <= i < q.len() && q[i] == top;
        if at < q.len() - 1 {
            assert(q[q.len() - 1] < bound);
        }
        let front = q.drop_last();
        assert forall|k: usize| #[trigger] s.contains(k) && k < bound - 1 implies front.contains(
            k,
        ) by {
            let i = choose|i: int| 0 <= i < q.len() && q[i] == k;
            assert(front[i] == k);
        }
        lemma_ascending_below_unique(s, (bound - 1) as nat, front);
    } else {
        lemma_ascending_below_unique(s, (bound - 1) as nat, q);
    }
}

/// A strictly increasing sequence that holds the elements of the set, and
/// nothing else, is `ascending`.
pub proof fn lemma_ascending_unique(s: Set<usize>, q: Seq<usize>)
    requires
        strictly_increasing(q),
        forall|i: int| 0 <= i < q.len() ==> s.contains(#[trigger] q[i]),
        forall|k: usize| #[trigger] s.contains(k) ==> q.contains(k),
    ensures
        q == ascending(s),
{
    lemma_ascending_below_unique(s, usize::MAX as nat + 1, q);
}

/// References that a tree hands out in its order point to strictly
/// increasing numbers.
proof fn lemma_tree_order(refs: Seq<&usize>)
    requires
        vstd::std_specs::btree::increasing_seq(refs),
    ensures
        strictly_increasing(refs.unref()),
{
    let q = refs.unref();
    assert forall|i: int, j: int| 0 <= i < j < q.len() implies q[i] < q[j] by {
        assert(OrdSpec::cmp_spec(&refs[i], &refs[j]) is Less);
    }
}

/// The keys of `m`, smallest first.
pub fn map_keys<V>(m: &BTreeMap<usize, V>) -> (keys: Vec<usize>)
    ensures
        keys@ == ascending(m@.dom()),
{
    let mut keys: Vec<usize> = Vec::new();
    let walk = m.keys();
    let ghost refs: Seq<&usize> = walk.remaining();
    for k in it: walk
        invariant
            it.seq() == refs,
            keys@.len() == it.index(),
            forall|i: int| 0 <= i < keys@.len() ==> keys@[i] == *refs[i],
    {
        keys.push(*k);
    }
    proof {
        assert(keys@ =~= refs.unref());
        lemma_tree_order(refs);
        lemma_ascending_unique(m@.dom(), keys@);
    }
    keys
}

/// The elements of `s`, smallest first.
pub fn set_elements(s: &BTreeSet<usize>) -> (elements: Vec<usize>)
    ensures
        elements@ == ascending(s@),
{
    let mut elements: Vec<usize> = Vec::new();
    let walk = s.iter();
    let ghost refs: Seq<&usize> = walk.remaining();
    for k in it: walk
        invariant
            it.seq() == refs,
            elements@.len() == it.index(),
            forall|i: int| 0 <= i < elements@.len() ==> elements@[i] == *refs[i],
    {
        elements.push(*k);
    }
    proof {
        assert(elements@ =~= refs.unref());
        lemma_tree_order(refs);
        lemma_ascending_unique(s@, elements@);
    }
    elements
}

} // verus!
