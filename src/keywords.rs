//! Search keywords: the ordering of `String` and the clean-up that every
//! catalog entry's keyword list goes through (blank ones out, sorted, no
//! repeats).
use vstd::prelude::*;
use crate::text::{blank, is_blank, to_chars, from_chars};

verus! {

/// The order of `String`: lexicographic by code point (which is the byte
/// order of UTF-8).
pub open spec fn str_lt(a: Seq<char>, b: Seq<char>) -> bool
    decreases a.len(),
{
    if a.len() == 0 {
        b.len() > 0
    } else if b.len() == 0 {
        false
    } else if a[0] != b[0] {
        a[0] < b[0]
    } else {
        str_lt(a.drop_first(), b.drop_first())
    }
}

pub open spec fn views(v: Seq<String>) -> Seq<Seq<char>> {
    v.map_values(|s: String| s@)
}

/// Each element below every later one.
pub open spec fn strictly_sorted(s: Seq<Seq<char>>) -> bool {
    forall|i: int, j: int| 0 <= i < j < s.len() ==> str_lt(#[trigger] s[i], #[trigger] s[j])
}

pub open spec fn no_duplicates(s: Seq<Seq<char>>) -> bool {
    forall|i: int, j: int| 0 <= i < j < s.len() ==> #[trigger] s[i] != #[trigger] s[j]
}

pub open spec fn no_blank(s: Seq<Seq<char>>) -> bool {
    forall|i: int| 0 <= i < s.len() ==> !blank(#[trigger] s[i])
}

/// A keyword list in its final form: no blank element, sorted, no repeats.
pub open spec fn clean_keywords(s: Seq<Seq<char>>) -> bool {
    no_blank(s) && strictly_sorted(s) && no_duplicates(s)
}

/// `out` holds exactly the non-blank elements of `input`.
pub open spec fn same_keywords(out: Seq<Seq<char>>, input: Seq<Seq<char>>) -> bool {
    forall|k: Seq<char>| out.contains(k) <==> (!blank(k) && input.contains(k))
}

/// Index of the first element of `s` that `x` does not come after.
pub open spec fn first_not_below(s: Seq<Seq<char>>, x: Seq<char>) -> nat
    decreases s.len(),
{
    if s.len() == 0 {
        0
    } else if str_lt(s[0], x) {
        1 + first_not_below(s.drop_first(), x)
    } else {
        0
    }
}

/// `x` put into the sorted `s` in order, unless it is there already.
pub open spec fn insert_keyword(s: Seq<Seq<char>>, x: Seq<char>) -> Seq<Seq<char>> {
    let p = first_not_below(s, x) as int;
    if p < s.len() && s[p] == x {
        s
    } else {
        s.take(p) + seq![x] + s.skip(p)
    }
}

/// The non-blank elements of `raw`, sorted, each once.
pub open spec fn sorted_keywords(raw: Seq<Seq<char>>) -> Seq<Seq<char>>
    decreases raw.len(),
{
    if raw.len() == 0 {
        Seq::empty()
    } else {
        let d = sorted_keywords(raw.drop_last());
        if blank(raw.last()) {
            d
        } else {
            insert_keyword(d, raw.last())
        }
    }
}

proof fn lemma_first_not_below_at(s: Seq<Seq<char>>, x: Seq<char>, p: int)
    requires
        0 <= p <= s.len(),
        forall|m: int| 0 <= m < p ==> str_lt(#[trigger] s[m], x),
        p < s.len() ==> !str_lt(s[p], x),
    ensures
        first_not_below(s, x) == p,
    decreases p,
{
    if p > 0 {
        assert forall|m: int| 0 <= m < p - 1 implies str_lt(#[trigger] s.drop_first()[m], x) by {
            assert(s.drop_first()[m] == s[m + 1]);
        }
        if p < s.len() {
            assert(s.drop_first()[p - 1] == s[p]);
        }
        lemma_first_not_below_at(s.drop_first(), x, p - 1);
    }
}

pub proof fn lemma_str_lt_irreflexive(a: Seq<char>)
    ensures
        !str_lt(a, a),
    decreases a.len(),
{
    if a.len() > 0 {
        lemma_str_lt_irreflexive(a.drop_first());
    }
}

pub proof fn lemma_str_lt_total(a: Seq<char>, b: Seq<char>)
    requires
        a != b,
    ensures
        str_lt(a, b) || str_lt(b, a),
    decreases a.len(),
{
    if a.len() > 0 && b.len() > 0 && a[0] == b[0] {
        if a.drop_first() == b.drop_first() {
            assert(a =~= seq![a[0]] + a.drop_first());
            assert(b =~= seq![b[0]] + b.drop_first());
        }
        lemma_str_lt_total(a.drop_first(), b.drop_first());
    } else if a.len() == 0 && b.len() == 0 {
        assert(a =~= b);
    }
}

pub proof fn lemma_str_lt_transitive(a: Seq<char>, b: Seq<char>, c: Seq<char>)
    requires
        str_lt(a, b),
        str_lt(b, c),
    ensures
        str_lt(a, c),
    decreases a.len(),
{
    if a.len() > 0 && b.len() > 0 && c.len() > 0 && a[0] == b[0] && b[0] == c[0] {
        lemma_str_lt_transitive(a.drop_first(), b.drop_first(), c.drop_first());
    }
}

/// Whether `a` comes before `b` in the order of `String`.
pub fn less_than(a: &[char], b: &[char]) -> (r: bool)
    ensures
        r == str_lt(a@, b@),
{
    let mut k: usize = 0;
    assert(a@.skip(0) =~= a@ && b@.skip(0) =~= b@);
    while k < a.len() && k < b.len() && a[k] == b[k]
        invariant
            k <= a@.len(),
            k <= b@.len(),
            str_lt(a@, b@) == str_lt(a@.skip(k as int), b@.skip(k as int)),
        decreases a@.len() - k,
    {
        proof {
            assert(a@.skip(k as int).drop_first() =~= a@.skip(k + 1));
            assert(b@.skip(k as int).drop_first() =~= b@.skip(k + 1));
        }
        k = k + 1;
    }
    if k == a.len() {
        k < b.len()
    } else if k == b.len() {
        false
    } else {
        a[k] < b[k]
    }
}

/// Whether two texts are the same.
pub fn chars_eq(a: &[char], b: &[char]) -> (r: bool)
    ensures
        r == (a@ == b@),
{
    if a.len() != b.len() {
        return false;
    }
    let mut k: usize = 0;
    while k < a.len()
        invariant
            a@.len() == b@.len(),
            k <= a@.len(),
            forall|m: int| 0 <= m < k ==> a@[m] == b@[m],
        decreases a@.len() - k,
    {
        if a[k] != b[k] {
            return false;
        }
        k = k + 1;
    }
    assert(a@ =~= b@);
    true
}

pub open spec fn char_views(v: Seq<Vec<char>>) -> Seq<Seq<char>> {
    v.map_values(|s: Vec<char>| s@)
}

/// Puts `x` into the strictly sorted `out` unless it is there already.
fn insert_sorted(out: &mut Vec<Vec<char>>, x: Vec<char>)
    requires
        strictly_sorted(char_views(old(out)@)),
    ensures
        strictly_sorted(char_views(final(out)@)),
        char_views(final(out)@) == insert_keyword(char_views(old(out)@), x@),
        forall|k: Seq<char>| #[trigger]
            char_views(final(out)@).contains(k) <==> (char_views(old(out)@).contains(k) || k
                == x@),
{
    let ghost s0 = char_views(out@);
    let mut p: usize = 0;
    while p < out.len() && less_than(out[p].as_slice(), x.as_slice())
        invariant
            p <= out@.len(),
            s0 == char_views(out@),
            forall|i: int| 0 <= i < p ==> str_lt(#[trigger] s0[i], x@),
        decreases out@.len() - p,
    {
        p = p + 1;
    }
    proof {
        if p < s0.len() {
            assert(!str_lt(s0[p as int], x@));
        }
        lemma_first_not_below_at(s0, x@, p as int);
    }
    if p < out.len() && chars_eq(out[p].as_slice(), x.as_slice()) {
        assert(s0[p as int] == x@);
        return;
    }
    proof {
        if p < s0.len() {
            lemma_str_lt_total(s0[p as int], x@);
        }
    }
    out.insert(p, x);
    proof {
        let s1 = char_views(out@);
        assert(s1 =~= s0.insert(p as int, x@));
        assert forall|i: int, j: int| 0 <= i < j < s1.len() implies str_lt(
            #[trigger] s1[i],
            #[trigger] s1[j],
        ) by {
            if j == p {
            } else if i == p {
                if j > p + 1 {
                    lemma_str_lt_transitive(x@, s0[p as int], s0[j - 1]);
                }
            } else {
                let i0 = if i < p { i } else { i - 1 };
                let j0 = if j < p { j } else { j - 1 };
                assert(s1[i] == s0[i0] && s1[j] == s0[j0]);
            }
        }
        assert forall|k: Seq<char>| #[trigger] s1.contains(k) <==> (s0.contains(k) || k == x@) by {
            if s1.contains(k) {
                let i = choose|i: int| 0 <= i < s1.len() && s1[i] == k;
                if i < p {
                    assert(s0[i] == k);
                } else if i > p {
                    assert(s0[i - 1] == k);
                }
            }
            if s0.contains(k) {
                let i = choose|i: int| 0 <= i < s0.len() && s0[i] == k;
                if i < p {
                    assert(s1[i] == k);
                } else {
                    assert(s1[i + 1] == k);
                }
            }
            if k == x@ {
                assert(s1[p as int] == k);
            }
        }
    }
}

pub proof fn lemma_sorted_no_duplicates(s: Seq<Seq<char>>)
    requires
        strictly_sorted(s),
    ensures
        no_duplicates(s),
{
    assert forall|i: int, j: int| 0 <= i < j < s.len() implies #[trigger] s[i] != #[trigger] s[j] by {
        lemma_str_lt_irreflexive(s[i]);
    }
}

/// The keywords with blank ones dropped, sorted, and each kept once.
pub fn normalize_keywords(keywords: &Vec<String>) -> (r: Vec<String>)
    ensures
        views(r@) == sorted_keywords(views(keywords@)),
        clean_keywords(views(r@)),
        same_keywords(views(r@), views(keywords@)),
{
    let mut out: Vec<Vec<char>> = Vec::new();
    let mut k: usize = 0;
    while k < keywords.len()
        invariant
            k <= keywords@.len(),
            strictly_sorted(char_views(out@)),
            char_views(out@) == sorted_keywords(views(keywords@.subrange(0, k as int))),
            forall|w: Seq<char>| #[trigger]
                char_views(out@).contains(w) <==> (!blank(w) && views(
                    keywords@.subrange(0, k as int),
                ).contains(w)),
        decreases keywords@.len() - k,
    {
        let c = to_chars(keywords[k].as_str());
        let ghost before = char_views(out@);
        proof {
            let pre = views(keywords@.subrange(0, k as int));
            let post = views(keywords@.subrange(0, k + 1));
            assert(post =~= pre.push(keywords@[k as int]@));
            assert forall|w: Seq<char>| #[trigger] post.contains(w) <==> (pre.contains(w) || w
                == c@) by {
                if post.contains(w) {
                    let i = choose|i: int| 0 <= i < post.len() && post[i] == w;
                    if i < pre.len() {
                        assert(pre[i] == w);
                    }
                }
                if pre.contains(w) {
                    let i = choose|i: int| 0 <= i < pre.len() && pre[i] == w;
                    assert(post[i] == w);
                }
                if w == c@ {
                    assert(post[k as int] == w);
                }
            }
        }
        proof {
            let pre = views(keywords@.subrange(0, k as int));
            let post = views(keywords@.subrange(0, k + 1));
            assert(post.drop_last() =~= pre);
            assert(post.last() == c@);
        }
        if !is_blank(c.as_slice()) {
            insert_sorted(&mut out, c);
        }
        k = k + 1;
    }
    let mut r: Vec<String> = Vec::new();
    let mut m: usize = 0;
    while m < out.len()
        invariant
            m <= out@.len(),
            r@.len() == m,
            forall|i: int| 0 <= i < m ==> (#[trigger] r@[i])@ == out@[i]@,
        decreases out@.len() - m,
    {
        let s = from_chars(out[m].as_slice());
        r.push(s);
        m = m + 1;
    }
    proof {
        assert(views(r@) =~= char_views(out@));
        assert(keywords@.subrange(0, keywords@.len() as int) == keywords@);
        lemma_sorted_no_duplicates(views(r@));
        assert forall|i: int| 0 <= i < views(r@).len() implies !blank(#[trigger] views(r@)[i]) by {
            assert(char_views(out@).contains(views(r@)[i]));
        }
    }
    r
}

} // verus!
