use vstd::prelude::*;
use crate::text::chars_of;

verus! {

/// Whether the characters of `q` occur in `t` in order, not necessarily adjacent.
pub open spec fn is_subsequence(q: Seq<char>, t: Seq<char>) -> bool
    decreases t.len(),
{
    if q.len() == 0 {
        true
    } else if t.len() == 0 {
        false
    } else if q.last() == t.last() {
        is_subsequence(q.drop_last(), t.drop_last())
    } else {
        is_subsequence(q, t.drop_last())
    }
}

/// The candidates that `query` matches, in their original order.
pub open spec fn matching(cs: Seq<String>, query: Seq<char>) -> Seq<String>
    decreases cs.len(),
{
    if cs.len() == 0 {
        Seq::empty()
    } else {
        let r = matching(cs.drop_last(), query);
        if is_subsequence(query, cs.last()@) { r.push(cs.last()) } else { r }
    }
}

proof fn lemma_extend(q: Seq<char>, t: Seq<char>, x: char)
    requires
        is_subsequence(q, t),
    ensures
        is_subsequence(q, t.push(x)),
    decreases t.len(), 1nat,
{
    assert(t.push(x).drop_last() =~= t);
    if q.len() > 0 && q.last() == x {
        lemma_shorten(q, t);
    }
}

proof fn lemma_shorten(q: Seq<char>, t: Seq<char>)
    requires
        q.len() > 0,
        is_subsequence(q, t),
    ensures
        is_subsequence(q.drop_last(), t),
    decreases t.len(), 0nat,
{
    if t.len() > 0 {
        assert(t.drop_last().push(t.last()) =~= t);
        if q.last() == t.last() {
            lemma_extend(q.drop_last(), t.drop_last(), t.last());
        } else {
            lemma_shorten(q, t.drop_last());
            lemma_extend(q.drop_last(), t.drop_last(), t.last());
        }
    }
}

proof fn lemma_after_prefix(a: Seq<char>, q: Seq<char>)
    ensures
        is_subsequence(q, a + q),
    decreases q.len(),
{
    if q.len() > 0 {
        assert((a + q).drop_last() =~= a + q.drop_last());
        lemma_after_prefix(a, q.drop_last());
    }
}

proof fn lemma_before_suffix(q: Seq<char>, t: Seq<char>, b: Seq<char>)
    requires
        is_subsequence(q, t),
    ensures
        is_subsequence(q, t + b),
    decreases b.len(),
{
    if b.len() > 0 {
        lemma_before_suffix(q, t, b.drop_last());
        assert((t + b.drop_last()).push(b.last()) =~= t + b);
        lemma_extend(q, t + b.drop_last(), b.last());
    }
}

/// A query matches every text that holds it as a contiguous part.
pub proof fn lemma_substring_is_match(a: Seq<char>, q: Seq<char>, b: Seq<char>)
    ensures
        is_subsequence(q, a + q + b),
{
    lemma_after_prefix(a, q);
    lemma_before_suffix(q, a + q, b);
}

/// A candidate that holds the query as a contiguous part is among the results.
pub proof fn lemma_substring_found(cs: Seq<String>, i: int, q: Seq<char>, a: Seq<char>, b: Seq<char>)
    requires
        0 <= i < cs.len(),
        cs[i]@ == a + q + b,
    ensures
        matching(cs, q).contains(cs[i]),
    decreases cs.len(),
{
    lemma_substring_is_match(a, q, b);
    if i == cs.len() - 1 {
        assert(matching(cs, q).last() == cs[i]);
    } else {
        lemma_substring_found(cs.drop_last(), i, q, a, b);
        let r = matching(cs.drop_last(), q);
        let j = choose|j: int| 0 <= j < r.len() && r[j] == cs[i];
        if is_subsequence(q, cs.last()@) {
            assert(r.push(cs.last())[j] == cs[i]);
        }
    }
}

/// An empty query keeps every candidate.
pub proof fn lemma_empty_query_keeps_all(cs: Seq<String>)
    ensures
        matching(cs, Seq::empty()) == cs,
    decreases cs.len(),
{
    if cs.len() > 0 {
        lemma_empty_query_keeps_all(cs.drop_last());
        assert(cs.drop_last().push(cs.last()) =~= cs);
    }
}

fn subsequence_exec(q: &Vec<char>, t: &Vec<char>) -> (r: bool)
    ensures
        r == is_subsequence(q@, t@),
{
    let mut i: usize = q.len();
    let mut j: usize = t.len();
    assert(q@.subrange(0, i as int) =~= q@);
    assert(t@.subrange(0, j as int) =~= t@);
    while i > 0 && j > 0
        invariant
            i <= q@.len(),
            j <= t@.len(),
            is_subsequence(q@, t@) == is_subsequence(q@.subrange(0, i as int), t@.subrange(0, j as int)),
        decreases j,
    {
        assert(q@.subrange(0, i as int).drop_last() =~= q@.subrange(0, i - 1));
        assert(t@.subrange(0, j as int).drop_last() =~= t@.subrange(0, j - 1));
        if q[i - 1] == t[j - 1] {
            i -= 1;
        }
        j -= 1;
    }
    i == 0
}

/// The candidates whose characters include those of `query` in order, in their
/// original order; an empty query keeps them all.
pub fn fuzzy_find(possibilities: Vec<String>, query: String) -> (r: Vec<String>)
    ensures
        r@ == matching(possibilities@, query@),
{
    let q = chars_of(query.as_str());
    let mut res: Vec<String> = Vec::new();
    let mut k: usize = 0;
    while k < possibilities.len()
        invariant
            k <= possibilities@.len(),
            q@ == query@,
            res@ == matching(possibilities@.subrange(0, k as int), query@),
        decreases possibilities@.len() - k,
    {
        assert(possibilities@.subrange(0, k + 1).drop_last() =~= possibilities@.subrange(0, k as int));
        let t = chars_of(possibilities[k].as_str());
        if subsequence_exec(&q, &t) {
            res.push(possibilities[k].clone());
        }
        k += 1;
    }
    assert(possibilities@.subrange(0, possibilities@.len() as int) =~= possibilities@);
    res
}

} // verus!
