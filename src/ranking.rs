//! Stable ordering of candidates: higher score first, then (where asked)
//! the title in ascending character order, then the order in which they came.
use vstd::multiset::Multiset;
use vstd::prelude::*;
use crate::types::ScoredResult;

verus! {

/// Strict lexicographic order on characters (that of `str`'s `Ord`).
pub open spec fn lex_lt(a: Seq<char>, b: Seq<char>) -> bool
    decreases a.len(),
{
    if a.len() == 0 {
        b.len() > 0
    } else if b.len() == 0 {
        false
    } else if a[0] != b[0] {
        (a[0] as u32) < (b[0] as u32)
    } else {
        lex_lt(a.drop_first(), b.drop_first())
    }
}

/// `x` is ranked strictly ahead of `y`: a higher score, or, where titles
/// break ties, an equal score and a title that comes first.
pub open spec fn ahead(x: ScoredResult, y: ScoredResult, by_title: bool) -> bool {
    x.score > y.score || (x.score == y.score && by_title && lex_lt(
        x.result.title@,
        y.result.title@,
    ))
}

/// Where `x` goes in `r`: before the first element it is strictly ahead of,
/// so that it stays behind the elements that rank equal to it.
pub open spec fn insert_pos(r: Seq<ScoredResult>, x: ScoredResult, by_title: bool) -> nat
    decreases r.len(),
{
    if r.len() == 0 {
        0
    } else if ahead(x, r[0], by_title) {
        0
    } else {
        1 + insert_pos(r.drop_first(), x, by_title)
    }
}

/// `s` in ranked order; equal elements keep the order in which they came.
pub open spec fn ranked(s: Seq<ScoredResult>, by_title: bool) -> Seq<ScoredResult>
    decreases s.len(),
{
    if s.len() == 0 {
        s
    } else {
        let r = ranked(s.drop_last(), by_title);
        r.insert(insert_pos(r, s.last(), by_title) as int, s.last())
    }
}

proof fn lemma_insert_pos_bound(r: Seq<ScoredResult>, x: ScoredResult, by_title: bool)
    ensures
        insert_pos(r, x, by_title) <= r.len(),
    decreases r.len(),
{
    if r.len() > 0 && !ahead(x, r[0], by_title) {
        lemma_insert_pos_bound(r.drop_first(), x, by_title);
    }
}

/// Ranking keeps every element: the result is as long as the input.
pub proof fn lemma_ranked_len(s: Seq<ScoredResult>, by_title: bool)
    ensures
        ranked(s, by_title).len() == s.len(),
    decreases s.len(),
{
    if s.len() > 0 {
        lemma_ranked_len(s.drop_last(), by_title);
        lemma_insert_pos_bound(ranked(s.drop_last(), by_title), s.last(), by_title);
    }
}

pub fn lex_less(a: &Vec<char>, b: &Vec<char>) -> (r: bool)
    ensures
        r == lex_lt(a@, b@),
{
    let mut i: usize = 0;
    assert(a@.subrange(0, a@.len() as int) =~= a@);
    assert(b@.subrange(0, b@.len() as int) =~= b@);
    while i < a.len() && i < b.len() && a[i] == b[i]
        invariant
            i <= a@.len(),
            i <= b@.len(),
            lex_lt(a@, b@) == lex_lt(
                a@.subrange(i as int, a@.len() as int),
                b@.subrange(i as int, b@.len() as int),
            ),
        decreases a@.len() - i,
    {
        assert(a@.subrange(i as int, a@.len() as int).drop_first() =~= a@.subrange(
            i + 1,
            a@.len() as int,
        ));
        assert(b@.subrange(i as int, b@.len() as int).drop_first() =~= b@.subrange(
            i + 1,
            b@.len() as int,
        ));
        i = i + 1;
    }
    if i == a.len() {
        i < b.len()
    } else if i == b.len() {
        false
    } else {
        (a[i] as u32) < (b[i] as u32)
    }
}

fn is_ahead(x: &ScoredResult, y: &ScoredResult, by_title: bool) -> (r: bool)
    ensures
        r == ahead(*x, *y, by_title),
{
    if x.score > y.score {
        true
    } else if x.score == y.score && by_title {
        let a = crate::text::chars_of(x.result.title.as_str());
        let b = crate::text::chars_of(y.result.title.as_str());
        lex_less(&a, &b)
    } else {
        false
    }
}

/// Sorts by score (descending), then, where `by_title`, by title
/// (ascending); stable.
pub fn rank(items: Vec<ScoredResult>, by_title: bool) -> (r: Vec<ScoredResult>)
    ensures
        r@ == ranked(items@, by_title),
{
    let mut items = items;
    let ghost input = items@;
    let mut out: Vec<ScoredResult> = Vec::new();
    let mut done: usize = 0;
    let n = items.len();
    assert(input.subrange(0, 0) =~= Seq::<ScoredResult>::empty());
    while items.len() > 0
        invariant
            n == input.len(),
            done + items@.len() == n,
            items@ == input.subrange(done as int, n as int),
            out@ == ranked(input.subrange(0, done as int), by_title),
        decreases items@.len(),
    {
        let x = items.remove(0);
        let ghost before = out@;
        let mut p: usize = 0;
        proof {
            lemma_ranked_len(input.subrange(0, done as int), by_title);
            assert(before.subrange(0, before.len() as int) =~= before);
        }
        while p < out.len() && !is_ahead(&x, &out[p], by_title)
            invariant
                out@ == before,
                p <= before.len(),
                insert_pos(before, x, by_title) == p + insert_pos(
                    before.subrange(p as int, before.len() as int),
                    x,
                    by_title,
                ),
            decreases before.len() - p,
        {
            assert(before.subrange(p as int, before.len() as int).drop_first() =~= before.subrange(
                p + 1,
                before.len() as int,
            ));
            p = p + 1;
        }
        out.insert(p, x);
        proof {
            let s = input.subrange(0, done + 1);
            assert(s.drop_last() =~= input.subrange(0, done as int));
            assert(s.last() == x);
            assert(items@ =~= input.subrange(done + 1, n as int));
        }
        done = done + 1;
    }
    assert(input.subrange(0, n as int) =~= input);
    out
}

/// No element is ranked strictly ahead of one that comes before it.
pub open spec fn in_rank_order(s: Seq<ScoredResult>, by_title: bool) -> bool {
    forall|i: int, j: int| 0 <= i < j < s.len() ==> !ahead(s[j], s[i], by_title)
}

proof fn lemma_lex_irreflexive(a: Seq<char>)
    ensures
        !lex_lt(a, a),
    decreases a.len(),
{
    if a.len() > 0 {
        lemma_lex_irreflexive(a.drop_first());
    }
}

proof fn lemma_lex_transitive(a: Seq<char>, b: Seq<char>, c: Seq<char>)
    requires
        lex_lt(a, b),
        lex_lt(b, c),
    ensures
        lex_lt(a, c),
    decreases a.len(),
{
    if a.len() > 0 && b.len() > 0 && c.len() > 0 && a[0] == b[0] && b[0] == c[0] {
        lemma_lex_transitive(a.drop_first(), b.drop_first(), c.drop_first());
    }
}

proof fn lemma_ahead_transitive(x: ScoredResult, y: ScoredResult, z: ScoredResult, by_title: bool)
    requires
        ahead(x, y, by_title),
        ahead(y, z, by_title),
    ensures
        ahead(x, z, by_title),
{
    if x.score == y.score && y.score == z.score {
        lemma_lex_transitive(x.result.title@, y.result.title@, z.result.title@);
    }
}

proof fn lemma_ahead_asymmetric(x: ScoredResult, y: ScoredResult, by_title: bool)
    requires
        ahead(x, y, by_title),
    ensures
        !ahead(y, x, by_title),
{
    if ahead(y, x, by_title) {
        lemma_ahead_transitive(x, y, x, by_title);
        lemma_lex_irreflexive(x.result.title@);
    }
}

proof fn lemma_insert_pos_facts(r: Seq<ScoredResult>, x: ScoredResult, by_title: bool)
    ensures
        insert_pos(r, x, by_title) <= r.len(),
        forall|i: int| 0 <= i < insert_pos(r, x, by_title) ==> !ahead(x, #[trigger] r[i], by_title),
        insert_pos(r, x, by_title) < r.len() ==> ahead(x, r[insert_pos(r, x, by_title) as int], by_title),
    decreases r.len(),
{
    if r.len() > 0 && !ahead(x, r[0], by_title) {
        let t = r.drop_first();
        lemma_insert_pos_facts(t, x, by_title);
        assert forall|i: int| 0 <= i < insert_pos(r, x, by_title) implies !ahead(x, #[trigger] r[i], by_title) by {
            if i > 0 {
                assert(r[i] == t[i - 1]);
            }
        }
        if insert_pos(r, x, by_title) < r.len() {
            assert(r[insert_pos(r, x, by_title) as int] == t[insert_pos(t, x, by_title) as int]);
        }
    }
}

/// Ranking gives a permutation of its input in which no element is ranked
/// strictly ahead of one before it.
pub proof fn lemma_ranked_order(s: Seq<ScoredResult>, by_title: bool)
    ensures
        in_rank_order(ranked(s, by_title), by_title),
        ranked(s, by_title).to_multiset() == s.to_multiset(),
    decreases s.len(),
{
    broadcast use vstd::seq_lib::group_to_multiset_ensures;

    if s.len() == 0 {
        assert(s.to_multiset() =~= Multiset::<ScoredResult>::empty());
    } else {
        let s1 = s.drop_last();
        let x = s.last();
        lemma_ranked_order(s1, by_title);
        let r = ranked(s1, by_title);
        lemma_insert_pos_facts(r, x, by_title);
        let p = insert_pos(r, x, by_title) as int;
        let q = r.insert(p, x);
        vstd::seq_lib::to_multiset_insert(r, p, x);
        vstd::seq_lib::to_multiset_build(s1, x);
        assert(s1.push(x) =~= s);
        assert forall|i: int, j: int| 0 <= i < j < q.len() implies !ahead(q[j], q[i], by_title) by {
            if j < p {
                assert(q[i] == r[i] && q[j] == r[j]);
            } else if j == p {
                assert(q[i] == r[i] && q[j] == x);
            } else if i < p {
                assert(q[i] == r[i] && q[j] == r[j - 1]);
            } else if i == p {
                assert(q[i] == x && q[j] == r[j - 1]);
                if ahead(r[j - 1], x, by_title) {
                    if j - 1 == p {
                        lemma_ahead_asymmetric(x, r[p], by_title);
                    } else {
                        lemma_ahead_transitive(r[j - 1], x, r[p], by_title);
                    }
                }
            } else {
                assert(q[i] == r[i - 1] && q[j] == r[j - 1]);
            }
        }
    }
}

} // verus!
