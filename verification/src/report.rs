//! Vocabulary shared by the reports: the emphasis a cell is shown with, and
//! counting over the items of a Graph collection.
use vstd::prelude::*;

verus! {

/// How the terminal front end emphasises a cell.
#[derive(Clone, Copy, Debug, PartialEq, Eq)]
pub enum Tone {
    Plain,
    Red,
    RedBold,
    Green,
    GreenDimmed,
    Yellow,
    Dimmed,
}

/// Number of items of `s` that satisfy `p`.
pub open spec fn count_where<A>(s: Seq<A>, p: spec_fn(A) -> bool) -> nat
    decreases s.len(),
{
    if s.len() == 0 {
        0
    } else {
        count_where(s.drop_last(), p) + if p(s.last()) { 1nat } else { 0nat }
    }
}

/// Counting one more item of a prefix.
pub proof fn lemma_count_step<A>(s: Seq<A>, p: spec_fn(A) -> bool, i: int)
    requires
        0 <= i < s.len(),
    ensures
        count_where(s.take(i + 1), p) == count_where(s.take(i), p) + if p(s[i]) { 1nat } else { 0nat },
        count_where(s.take(i), p) <= i,
{
    assert(s.take(i + 1).drop_last() =~= s.take(i));
    lemma_count_bound(s.take(i), p);
}

/// A count never exceeds the number of items.
pub proof fn lemma_count_bound<A>(s: Seq<A>, p: spec_fn(A) -> bool)
    ensures
        count_where(s, p) <= s.len(),
    decreases s.len(),
{
    if s.len() > 0 {
        lemma_count_bound(s.drop_last(), p);
    }
}

/// The whole sequence is its longest prefix.
pub proof fn lemma_take_all<A>(s: Seq<A>)
    ensures
        s.take(s.len() as int) == s,
{
    assert(s.take(s.len() as int) =~= s);
}

/// The items of `s` that satisfy `p`, in order.
pub open spec fn keep_where<A>(s: Seq<A>, p: spec_fn(A) -> bool) -> Seq<A>
    decreases s.len(),
{
    if s.len() == 0 {
        Seq::empty()
    } else if p(s.last()) {
        keep_where(s.drop_last(), p).push(s.last())
    } else {
        keep_where(s.drop_last(), p)
    }
}

/// Keeping the items of one more item of a prefix.
pub proof fn lemma_keep_step<A>(s: Seq<A>, p: spec_fn(A) -> bool, i: int)
    requires
        0 <= i < s.len(),
    ensures
        keep_where(s.take(i + 1), p) == if p(s[i]) { keep_where(s.take(i), p).push(s[i]) } else { keep_where(s.take(i), p) },
        keep_where(s.take(i), p).len() <= i,
{
    assert(s.take(i + 1).drop_last() =~= s.take(i));
    lemma_keep_bound(s.take(i), p);
}

pub proof fn lemma_keep_bound<A>(s: Seq<A>, p: spec_fn(A) -> bool)
    ensures
        keep_where(s, p).len() <= s.len(),
    decreases s.len(),
{
    if s.len() > 0 {
        lemma_keep_bound(s.drop_last(), p);
    }
}

/// `parts` joined with `sep` between consecutive parts.
pub open spec fn joined(parts: Seq<Seq<char>>, sep: Seq<char>) -> Seq<char>
    decreases parts.len(),
{
    if parts.len() == 0 {
        Seq::empty()
    } else if parts.len() == 1 {
        parts[0]
    } else {
        joined(parts.drop_last(), sep) + sep + parts.last()
    }
}

} // verus!
