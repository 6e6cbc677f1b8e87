//! The order of strings (that of `String`'s `Ord`: by character, then by
//! length) and sorted lists of distinct strings.
use vstd::prelude::*;
use crate::text::chars_of;

verus! {

/// `a` sorts before `b`.
pub open spec fn lex_lt(a: Seq<char>, b: Seq<char>) -> bool
    decreases a.len(),
{
    if a.len() == 0 {
        b.len() > 0
    } else if b.len() == 0 {
        false
    } else if a[0] == b[0] {
        lex_lt(a.drop_first(), b.drop_first())
    } else {
        a[0] < b[0]
    }
}

/// Strictly increasing, hence without repeats.
pub open spec fn sorted_distinct(s: Seq<Seq<char>>) -> bool {
    forall|i: int, j: int| 0 <= i < j < s.len() ==> lex_lt(#[trigger] s[i], #[trigger] s[j])
}

pub proof fn lemma_lex_irreflexive(a: Seq<char>)
    ensures
        !lex_lt(a, a),
    decreases a.len(),
{
    if a.len() > 0 {
        lemma_lex_irreflexive(a.drop_first());
    }
}

/// Exactly one of `a < b`, `a == b`, `b < a`.
pub proof fn lemma_lex_trichotomy(a: Seq<char>, b: Seq<char>)
    ensures
        lex_lt(a, b) || a == b || lex_lt(b, a),
        !(lex_lt(a, b) && lex_lt(b, a)),
        lex_lt(a, b) ==> a != b,
    decreases a.len(),
{
    lemma_lex_irreflexive(a);
    if a.len() > 0 && b.len() > 0 {
        lemma_lex_trichotomy(a.drop_first(), b.drop_first());
        if a[0] == b[0] && a.drop_first() == b.drop_first() {
            assert(a =~= seq![a[0]] + a.drop_first());
            assert(b =~= seq![b[0]] + b.drop_first());
        }
    } else if a.len() == 0 && b.len() == 0 {
        assert(a =~= b);
    }
}

pub proof fn lemma_lex_transitive(a: Seq<char>, b: Seq<char>, c: Seq<char>)
    requires
        lex_lt(a, b),
        lex_lt(b, c),
    ensures
        lex_lt(a, c),
    decreases a.len(),
{
    if a.len() > 0 && b.len() > 0 && c.len() > 0 {
        if a[0] == b[0] && b[0] == c[0] {
            lemma_lex_transitive(a.drop_first(), b.drop_first(), c.drop_first());
        }
    }
}

/// Whether `a` sorts before `b`.
pub fn chars_lt(a: &Vec<char>, b: &Vec<char>) -> (r: bool)
    ensures
        r == lex_lt(a@, b@),
{
    let mut i: usize = 0;
    assert(a@.skip(0) =~= a@);
    assert(b@.skip(0) =~= b@);
    while i < a.len() && i < b.len() && a[i] == b[i]
        invariant
            i <= a.len(),
            i <= b.len(),
            forall|j: int| 0 <= j < i ==> a@[j] == b@[j],
            lex_lt(a@, b@) == lex_lt(a@.skip(i as int), b@.skip(i as int)),
        decreases a.len() - i,
    {
        proof {
            let sa = a@.skip(i as int);
            let sb = b@.skip(i as int);
            assert(sa.drop_first() =~= a@.skip(i + 1));
            assert(sb.drop_first() =~= b@.skip(i + 1));
        }
        i = i + 1;
    }
    let ghost sa = a@.skip(i as int);
    let ghost sb = b@.skip(i as int);
    if i == a.len() {
        i < b.len()
    } else if i == b.len() {
        false
    } else {
        assert(sa[0] == a@[i as int] && sb[0] == b@[i as int]);
        a[i] < b[i]
    }
}

/// Whether string `a` sorts before string `b`.
pub fn str_lt(a: &str, b: &str) -> (r: bool)
    ensures
        r == lex_lt(a@, b@),
{
    let av = chars_of(a);
    let bv = chars_of(b);
    chars_lt(&av, &bv)
}

pub open spec fn views_of(v: Seq<String>) -> Seq<Seq<char>> {
    Seq::new(v.len(), |i: int| v[i]@)
}

/// The number of leading elements of `s` that sort before `x`: where `x`
/// goes in a sorted list.
pub open spec fn lower_bound(s: Seq<Seq<char>>, x: Seq<char>) -> nat
    decreases s.len(),
{
    if s.len() == 0 {
        0
    } else if lex_lt(s[0], x) {
        1 + lower_bound(s.drop_first(), x)
    } else {
        0
    }
}

/// A sorted list with `x` in it.
pub open spec fn sorted_insert(s: Seq<Seq<char>>, x: Seq<char>) -> Seq<Seq<char>> {
    let p = lower_bound(s, x);
    if p < s.len() && s[p as int] == x {
        s
    } else {
        s.insert(p as int, x)
    }
}

/// A sorted list with `x` taken out, or put in if it was not there.
pub open spec fn sorted_toggle(s: Seq<Seq<char>>, x: Seq<char>) -> Seq<Seq<char>> {
    let p = lower_bound(s, x);
    if p < s.len() && s[p as int] == x {
        s.remove(p as int)
    } else {
        s.insert(p as int, x)
    }
}

/// The distinct strings of `v`, inserted one by one into a sorted list.
pub open spec fn sorted_of(v: Seq<Seq<char>>) -> Seq<Seq<char>>
    decreases v.len(),
{
    if v.len() == 0 {
        seq![]
    } else {
        sorted_insert(sorted_of(v.drop_last()), v.last())
    }
}

pub proof fn lemma_lower_bound(s: Seq<Seq<char>>, x: Seq<char>, p: int)
    requires
        0 <= p <= s.len(),
        forall|i: int| 0 <= i < p ==> lex_lt(#[trigger] s[i], x),
        p == s.len() || !lex_lt(s[p], x),
    ensures
        lower_bound(s, x) == p,
    decreases p,
{
    if p > 0 {
        let t = s.drop_first();
        assert forall|i: int| 0 <= i < p - 1 implies lex_lt(#[trigger] t[i], x) by {
            assert(t[i] == s[i + 1]);
        }
        lemma_lower_bound(t, x, p - 1);
    }
}

/// The first index of a sorted list whose element does not sort before `x`.
fn find_lower_bound(v: &Vec<String>, x: &str) -> (p: usize)
    ensures
        p == lower_bound(views_of(v@), x@),
        p <= v.len(),
        forall|i: int| 0 <= i < p ==> lex_lt(#[trigger] views_of(v@)[i], x@),
        p < v.len() ==> !lex_lt(views_of(v@)[p as int], x@),
{
    let ghost s = views_of(v@);
    let mut p: usize = 0;
    while p < v.len() && str_lt(v[p].as_str(), x)
        invariant
            p <= v.len(),
            s == views_of(v@),
            forall|i: int| 0 <= i < p ==> lex_lt(#[trigger] s[i], x@),
        decreases v.len() - p,
    {
        p = p + 1;
    }
    proof {
        lemma_lower_bound(s, x@, p as int);
    }
    p
}

/// Takes `x` out of a sorted list of distinct strings, or puts it in.
pub fn toggle_sorted(v: &mut Vec<String>, x: String)
    requires
        sorted_distinct(views_of(old(v)@)),
    ensures
        views_of(final(v)@) == sorted_toggle(views_of(old(v)@), x@),
        sorted_distinct(views_of(final(v)@)),
{
    let ghost old_v = views_of(v@);
    let p = find_lower_bound(v, x.as_str());
    if p < v.len() && str_lt(x.as_str(), v[p].as_str()) == false {
        proof {
            lemma_lex_trichotomy(old_v[p as int], x@);
        }
        v.remove(p);
        assert(views_of(v@) =~= old_v.remove(p as int));
        return;
    }
    proof {
        if p < v.len() {
            lemma_lex_trichotomy(old_v[p as int], x@);
        }
    }
    insert_sorted(v, x);
}

/// Where `lower_bound` points: past every element that sorts before `x`,
/// at the first that does not.
pub proof fn lemma_lower_bound_props(s: Seq<Seq<char>>, x: Seq<char>)
    ensures
        lower_bound(s, x) <= s.len(),
        forall|i: int| 0 <= i < lower_bound(s, x) ==> lex_lt(#[trigger] s[i], x),
        lower_bound(s, x) < s.len() ==> !lex_lt(s[lower_bound(s, x) as int], x),
    decreases s.len(),
{
    if s.len() > 0 && lex_lt(s[0], x) {
        let t = s.drop_first();
        lemma_lower_bound_props(t, x);
        assert forall|i: int| 0 <= i < lower_bound(s, x) implies lex_lt(#[trigger] s[i], x) by {
            if i > 0 {
                assert(s[i] == t[i - 1]);
            }
        }
        if lower_bound(s, x) < s.len() {
            assert(s[lower_bound(s, x) as int] == t[lower_bound(t, x) as int]);
        }
    }
}

/// Inserting into a sorted list of distinct strings keeps it so, and adds
/// exactly `x`.
pub proof fn lemma_sorted_insert(s: Seq<Seq<char>>, x: Seq<char>)
    requires
        sorted_distinct(s),
    ensures
        sorted_distinct(sorted_insert(s, x)),
        sorted_insert(s, x).to_set() == s.to_set().insert(x),
{
    lemma_lower_bound_props(s, x);
    let p = lower_bound(s, x) as int;
    if p < s.len() && s[p] == x {
        assert(s.to_set().insert(x) =~= s.to_set());
        return;
    }
    if p < s.len() {
        lemma_lex_trichotomy(s[p], x);
        assert(lex_lt(x, s[p]));
    }
    let nv = s.insert(p, x);
    assert forall|i: int, j: int| 0 <= i < j < nv.len() implies lex_lt(
        #[trigger] nv[i],
        #[trigger] nv[j],
    ) by {
        if j < p {
            assert(nv[i] == s[i] && nv[j] == s[j]);
        } else if j == p {
            assert(nv[i] == s[i]);
        } else if i == p {
            if j - 1 > p {
                assert(lex_lt(s[p], s[j - 1]));
                lemma_lex_transitive(x, s[p], s[j - 1]);
            }
        } else if i < p {
            assert(nv[i] == s[i] && nv[j] == s[j - 1]);
            assert(lex_lt(s[i], s[j - 1]));
        } else {
            assert(nv[i] == s[i - 1] && nv[j] == s[j - 1]);
            assert(lex_lt(s[i - 1], s[j - 1]));
        }
    }
    assert forall|y: Seq<char>| nv.to_set().contains(y) <==> s.to_set().insert(x).contains(y) by {
        if nv.to_set().contains(y) {
            let k = choose|k: int| 0 <= k < nv.len() && nv[k] == y;
            if k < p {
                assert(s[k] == y);
            } else if k > p {
                assert(s[k - 1] == y);
            }
        }
        if s.to_set().contains(y) {
            let k = choose|k: int| 0 <= k < s.len() && s[k] == y;
            if k < p {
                assert(nv[k] == y);
            } else {
                assert(nv[k + 1] == y);
            }
        }
        if y == x {
            assert(nv[p] == y);
        }
    }
    assert(nv.to_set() =~= s.to_set().insert(x));
}

/// A sorted list of distinct strings built by insertion holds each string
/// of its source once, in order.
pub proof fn lemma_sorted_of(v: Seq<Seq<char>>)
    ensures
        sorted_distinct(sorted_of(v)),
        sorted_of(v).to_set() == v.to_set(),
    decreases v.len(),
{
    if v.len() == 0 {
        assert(sorted_of(v).to_set() =~= v.to_set());
    } else {
        lemma_sorted_of(v.drop_last());
        lemma_sorted_insert(sorted_of(v.drop_last()), v.last());
        assert(v =~= v.drop_last().push(v.last()));
        lemma_push_to_set(v.drop_last(), v.last());
    }
}

/// Inserts `x` into a sorted list of distinct strings, unless it is there.
pub fn insert_sorted(v: &mut Vec<String>, x: String)
    requires
        sorted_distinct(views_of(old(v)@)),
    ensures
        sorted_distinct(views_of(final(v)@)),
        views_of(final(v)@).to_set() == views_of(old(v)@).to_set().insert(x@),
        views_of(final(v)@) == sorted_insert(views_of(old(v)@), x@),
{
    let ghost old_v = views_of(v@);
    proof {
        lemma_sorted_insert(old_v, x@);
    }
    let p = find_lower_bound(v, x.as_str());
    if p < v.len() {
        proof {
            lemma_lex_trichotomy(old_v[p as int], x@);
        }
        let same = !str_lt(x.as_str(), v[p].as_str());
        if same {
            assert(old_v[p as int] == x@);
            return;
        }
    }
    v.insert(p, x);
    assert(views_of(v@) =~= old_v.insert(p as int, x@));
}

pub proof fn lemma_push_to_set(s: Seq<Seq<char>>, e: Seq<char>)
    ensures
        s.push(e).to_set() == s.to_set().insert(e),
{
    let t = s.push(e);
    assert forall|y: Seq<char>| t.to_set().contains(y) <==> s.to_set().insert(e).contains(y) by {
        if t.to_set().contains(y) {
            let k = choose|k: int| 0 <= k < t.len() && t[k] == y;
            if k < s.len() {
                assert(s[k] == y);
            }
        }
        if s.to_set().contains(y) {
            let k = choose|k: int| 0 <= k < s.len() && s[k] == y;
            assert(t[k] == y);
        }
        if y == e {
            assert(t[s.len() as int] == y);
        }
    }
    assert(t.to_set() =~= s.to_set().insert(e));
}

/// The distinct strings of `v`, sorted.
pub fn sorted_distinct_of(v: &Vec<String>) -> (r: Vec<String>)
    ensures
        sorted_distinct(views_of(r@)),
        views_of(r@).to_set() == views_of(v@).to_set(),
        views_of(r@) == sorted_of(views_of(v@)),
{
    let mut r: Vec<String> = Vec::new();
    let mut i: usize = 0;
    assert(views_of(r@).to_set() =~= views_of(v@).take(0).to_set());
    assert(views_of(r@) =~= sorted_of(views_of(v@).take(0)));
    while i < v.len()
        invariant
            i <= v.len(),
            sorted_distinct(views_of(r@)),
            views_of(r@).to_set() == views_of(v@).take(i as int).to_set(),
            views_of(r@) == sorted_of(views_of(v@).take(i as int)),
        decreases v.len() - i,
    {
        assert(views_of(v@).take(i + 1).drop_last() =~= views_of(v@).take(i as int));
        insert_sorted(&mut r, v[i].clone());
        proof {
            let t = views_of(v@).take(i + 1);
            assert(t =~= views_of(v@).take(i as int).push(v@[i as int]@));
            lemma_push_to_set(views_of(v@).take(i as int), v@[i as int]@);
        }
        i = i + 1;
    }
    assert(views_of(v@).take(v.len() as int) =~= views_of(v@));
    r
}


/// Toggling a string twice in a sorted list of distinct strings gives the
/// list back.
pub proof fn law_toggle_twice(s: Seq<Seq<char>>, x: Seq<char>)
    requires
        sorted_distinct(s),
    ensures
        sorted_toggle(sorted_toggle(s, x), x) == s,
{
    lemma_lower_bound_props(s, x);
    let p = lower_bound(s, x) as int;
    let t = sorted_toggle(s, x);
    if p < s.len() && s[p] == x {
        assert(t == s.remove(p));
        assert forall|i: int| 0 <= i < p implies lex_lt(#[trigger] t[i], x) by {
            assert(t[i] == s[i]);
        }
        if p < t.len() {
            assert(t[p] == s[p + 1]);
            assert(lex_lt(s[p], s[p + 1]));
            lemma_lex_trichotomy(x, t[p]);
        }
        lemma_lower_bound(t, x, p);
        if p < t.len() {
            lemma_lex_irreflexive(x);
            assert(t[p] != x);
        }
        assert(t.insert(p, x) =~= s);
    } else {
        assert(t == s.insert(p, x));
        assert forall|i: int| 0 <= i < p implies lex_lt(#[trigger] t[i], x) by {
            assert(t[i] == s[i]);
        }
        lemma_lex_irreflexive(x);
        lemma_lower_bound(t, x, p);
        assert(t.remove(p) =~= s);
    }
}

} // verus!
