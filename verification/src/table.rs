//! Rows kept in the order in which they were added, and the queries over them.

use vstd::prelude::*;

verus! {

/// A stored row: its view is what contracts speak of, and it can be copied.
pub trait Row: View + Sized {
    /// A copy with the same view.
    fn dup(&self) -> (r: Self)
        ensures
            r@ == self@,
    ;
}

/// The views of a table's rows, in order.
pub open spec fn rows<T: View>(v: Seq<T>) -> Seq<T::V> {
    Seq::new(v.len(), |i: int| v[i]@)
}

/// The first row that meets `p`.
pub open spec fn find_row<V>(s: Seq<V>, p: spec_fn(V) -> bool) -> Option<V>
    decreases s.len(),
{
    if s.len() == 0 {
        None
    } else if p(s[0]) {
        Some(s[0])
    } else {
        find_row(s.drop_first(), p)
    }
}

/// Some row meets `p`.
pub open spec fn any_row<V>(s: Seq<V>, p: spec_fn(V) -> bool) -> bool {
    exists|i: int| 0 <= i < s.len() && p(#[trigger] s[i])
}

/// `find_row` at the first index that meets the predicate.
pub proof fn lemma_find_at<V>(s: Seq<V>, p: spec_fn(V) -> bool, k: int)
    requires
        0 <= k < s.len(),
        p(s[k]),
        forall|j: int| 0 <= j < k ==> !p(#[trigger] s[j]),
    ensures
        find_row(s, p) == Some(s[k]),
    decreases s.len(),
{
    if k > 0 {
        assert(!p(s[0]));
        let t = s.drop_first();
        assert forall|j: int| 0 <= j < k - 1 implies !p(#[trigger] t[j]) by {
            assert(t[j] == s[j + 1]);
        }
        lemma_find_at(t, p, k - 1);
    }
}

/// `find_row` where nothing meets the predicate.
pub proof fn lemma_find_none<V>(s: Seq<V>, p: spec_fn(V) -> bool)
    requires
        forall|j: int| 0 <= j < s.len() ==> !p(#[trigger] s[j]),
    ensures
        find_row(s, p) is None,
    decreases s.len(),
{
    if s.len() > 0 {
        let t = s.drop_first();
        assert forall|j: int| 0 <= j < t.len() implies !p(#[trigger] t[j]) by {
            assert(t[j] == s[j + 1]);
        }
        lemma_find_none(t, p);
    }
}

/// The closure `f` decides the predicate `p` on every row.
pub open spec fn decides<T: Row, F: Fn(&T) -> bool>(f: F, p: spec_fn(T::V) -> bool) -> bool {
    &&& forall|r: &T| #[trigger] f.requires((r,))
    &&& forall|r: &T, b: bool| #[trigger] f.ensures((r,), b) ==> b == p(r@)
}

/// The first row that `f` accepts.
pub(crate) fn find<'a, T: Row, F: Fn(&T) -> bool>(
    v: &'a Vec<T>,
    Ghost(p): Ghost<spec_fn(T::V) -> bool>,
    f: F,
) -> (r: Option<&'a T>)
    requires
        decides(f, p),
    ensures
        match r {
            Some(x) => find_row(rows(v@), p) == Some(x@),
            None => find_row(rows(v@), p) is None,
        },
{
    let mut i: usize = 0;
    while i < v.len()
        invariant
            i <= v@.len(),
            decides(f, p),
            forall|j: int| 0 <= j < i ==> !p(#[trigger] rows(v@)[j]),
        decreases v@.len() - i,
    {
        if f(&v[i]) {
            proof {
                lemma_find_at(rows(v@), p, i as int);
            }
            return Some(&v[i]);
        }
        i = i + 1;
    }
    proof {
        lemma_find_none(rows(v@), p);
    }
    None
}

/// Whether `f` accepts some row.
pub(crate) fn any<T: Row, F: Fn(&T) -> bool>(
    v: &Vec<T>,
    Ghost(p): Ghost<spec_fn(T::V) -> bool>,
    f: F,
) -> (r: bool)
    requires
        decides(f, p),
    ensures
        r == any_row(rows(v@), p),
{
    let mut i: usize = 0;
    while i < v.len()
        invariant
            i <= v@.len(),
            decides(f, p),
            forall|j: int| 0 <= j < i ==> !p(#[trigger] rows(v@)[j]),
        decreases v@.len() - i,
    {
        if f(&v[i]) {
            assert(p(rows(v@)[i as int]));
            return true;
        }
        i = i + 1;
    }
    false
}

/// One step of a filter over a growing prefix.
pub proof fn lemma_filter_step<V>(s: Seq<V>, p: spec_fn(V) -> bool, i: int)
    requires
        0 <= i < s.len(),
    ensures
        s.take(i + 1).filter(p) == (if p(s[i]) {
            s.take(i).filter(p).push(s[i])
        } else {
            s.take(i).filter(p)
        }),
{
    reveal(Seq::filter);
    assert(s.take(i + 1).drop_last() =~= s.take(i));
}

/// A filter keeps nothing exactly when no row meets the predicate.
pub proof fn lemma_filter_empty<V>(s: Seq<V>, p: spec_fn(V) -> bool)
    ensures
        (s.filter(p).len() == 0) == !any_row(s, p),
    decreases s.len(),
{
    reveal(Seq::filter);
    if s.len() > 0 {
        let t = s.drop_last();
        lemma_filter_empty(t, p);
        if any_row(t, p) {
            let i = choose|i: int| 0 <= i < t.len() && p(#[trigger] t[i]);
            assert(p(s[i]));
        }
        if p(s.last()) {
            assert(p(s[s.len() - 1]));
        }
        if any_row(s, p) && !p(s.last()) {
            let i = choose|i: int| 0 <= i < s.len() && p(#[trigger] s[i]);
            assert(p(t[i]));
        }
    }
}

/// What a filter keeps meets the predicate.
pub proof fn lemma_filter_meets<V>(s: Seq<V>, p: spec_fn(V) -> bool)
    ensures
        forall|i: int| 0 <= i < s.filter(p).len() ==> p(#[trigger] s.filter(p)[i]),
    decreases s.len(),
{
    reveal(Seq::filter);
    if s.len() > 0 {
        lemma_filter_meets(s.drop_last(), p);
    }
}

/// `find_row` succeeds exactly when some row meets the predicate.
pub proof fn lemma_find_any<V>(s: Seq<V>, p: spec_fn(V) -> bool)
    ensures
        (find_row(s, p) is Some) == any_row(s, p),
        find_row(s, p) matches Some(x) ==> p(x) && s.contains(x),
    decreases s.len(),
{
    if s.len() > 0 {
        let t = s.drop_first();
        lemma_find_any(t, p);
        if p(s[0]) {
            assert(p(s[0]));
        } else if any_row(t, p) {
            let i = choose|i: int| 0 <= i < t.len() && p(#[trigger] t[i]);
            assert(p(s[i + 1]));
            let x = find_row(t, p)->0;
            let k = choose|k: int| 0 <= k < t.len() && t[k] == x;
            assert(s[k + 1] == x);
        } else if any_row(s, p) {
            let i = choose|i: int| 0 <= i < s.len() && p(#[trigger] s[i]);
            assert(p(t[i - 1]));
        }
    }
}

/// Copies of the rows that `f` accepts, in table order.
pub(crate) fn select<T: Row, F: Fn(&T) -> bool>(
    v: &Vec<T>,
    Ghost(p): Ghost<spec_fn(T::V) -> bool>,
    f: F,
) -> (r: Vec<T>)
    requires
        decides(f, p),
    ensures
        rows(r@) == rows(v@).filter(p),
{
    let mut out: Vec<T> = Vec::new();
    let mut i: usize = 0;
    proof {
        reveal(Seq::filter);
        assert(rows(out@) =~= rows(v@).take(0).filter(p));
    }
    while i < v.len()
        invariant
            i <= v@.len(),
            decides(f, p),
            rows(out@) == rows(v@).take(i as int).filter(p),
        decreases v@.len() - i,
    {
        proof {
            lemma_filter_step(rows(v@), p, i as int);
        }
        if f(&v[i]) {
            let ghost before = out@;
            out.push(v[i].dup());
            assert(rows(out@) =~= rows(before).push(rows(v@)[i as int]));
        }
        i = i + 1;
    }
    assert(rows(v@).take(v@.len() as int) =~= rows(v@));
    out
}

/// How many rows `f` accepts.
pub(crate) fn count<T: Row, F: Fn(&T) -> bool>(
    v: &Vec<T>,
    Ghost(p): Ghost<spec_fn(T::V) -> bool>,
    f: F,
) -> (r: usize)
    requires
        decides(f, p),
    ensures
        r == rows(v@).filter(p).len(),
        r <= v@.len(),
{
    let mut n: usize = 0;
    let mut i: usize = 0;
    proof {
        reveal(Seq::filter);
    }
    while i < v.len()
        invariant
            i <= v@.len(),
            n <= i,
            decides(f, p),
            n == rows(v@).take(i as int).filter(p).len(),
        decreases v@.len() - i,
    {
        proof {
            lemma_filter_step(rows(v@), p, i as int);
        }
        if f(&v[i]) {
            n = n + 1;
        }
        i = i + 1;
    }
    assert(rows(v@).take(v@.len() as int) =~= rows(v@));
    n
}

/// Every row that meets `p` replaced by what `u` makes of it.
pub open spec fn updated<V>(
    s: Seq<V>,
    p: spec_fn(V) -> bool,
    u: spec_fn(V) -> V,
) -> Seq<V> {
    Seq::new(
        s.len(),
        |i: int|
            if p(s[i]) {
                u(s[i])
            } else {
                s[i]
            },
    )
}

/// Where no row meets the predicate, nothing is replaced.
pub proof fn lemma_updated_none<V>(s: Seq<V>, p: spec_fn(V) -> bool, u: spec_fn(V) -> V)
    requires
        !any_row(s, p),
    ensures
        updated(s, p, u) == s,
{
    assert forall|i: int| 0 <= i < s.len() implies #[trigger] updated(s, p, u)[i] == s[i] by {
        assert(!p(s[i]));
    }
    assert(updated(s, p, u) =~= s);
}

/// The first row that meets `q` after a rewriting that does not change which rows meet it.
pub proof fn lemma_find_updated<V>(
    s: Seq<V>,
    q: spec_fn(V) -> bool,
    p: spec_fn(V) -> bool,
    u: spec_fn(V) -> V,
)
    requires
        forall|x: V| #[trigger] p(x) ==> q(u(x)) == q(x),
    ensures
        find_row(updated(s, p, u), q) == (match find_row(s, q) {
            Some(x) => Some(
                if p(x) {
                    u(x)
                } else {
                    x
                },
            ),
            None => None,
        }),
    decreases s.len(),
{
    if s.len() > 0 {
        lemma_find_updated(s.drop_first(), q, p, u);
        assert(updated(s, p, u).drop_first() =~= updated(s.drop_first(), p, u));
    }
}

/// The first row that meets `p` after one more row.
pub proof fn lemma_find_push<V>(s: Seq<V>, x: V, p: spec_fn(V) -> bool)
    ensures
        find_row(s.push(x), p) == (match find_row(s, p) {
            Some(y) => Some(y),
            None => if p(x) {
                Some(x)
            } else {
                None
            },
        }),
    decreases s.len(),
{
    if s.len() > 0 {
        assert(s.push(x).drop_first() =~= s.drop_first().push(x));
        lemma_find_push(s.drop_first(), x, p);
    } else {
        assert(s.push(x).drop_first() =~= s);
    }
}

/// The rows that a filter keeps are those that meet the predicate, and no others.
pub proof fn lemma_filter_contains<V>(s: Seq<V>, p: spec_fn(V) -> bool, x: V)
    ensures
        s.filter(p).contains(x) == (s.contains(x) && p(x)),
    decreases s.len(),
{
    reveal(Seq::filter);
    if s.len() > 0 {
        let t = s.drop_last();
        lemma_filter_contains(t, p, x);
        assert(s =~= t.push(s.last()));
        if t.contains(x) {
            let i = choose|i: int| 0 <= i < t.len() && t[i] == x;
            assert(s[i] == x);
        }
        if s.contains(x) && x != s.last() {
            let i = choose|i: int| 0 <= i < s.len() && s[i] == x;
            assert(t[i] == x);
        }
        if p(s.last()) {
            let f = t.filter(p).push(s.last());
            assert(s.filter(p) == f);
            if f.contains(x) && x != s.last() {
                let i = choose|i: int| 0 <= i < f.len() && f[i] == x;
                assert(t.filter(p)[i] == x);
            }
            if t.filter(p).contains(x) {
                let i = choose|i: int| 0 <= i < t.filter(p).len() && t.filter(p)[i] == x;
                assert(f[i] == x);
            }
            if x == s.last() {
                assert(f[f.len() - 1] == x);
                assert(s[s.len() - 1] == x);
            }
        }
    }
}

/// After a filter no row meets a predicate that the filter rules out.
pub proof fn lemma_filter_rules_out<V>(s: Seq<V>, keep: spec_fn(V) -> bool, p: spec_fn(V) -> bool)
    requires
        forall|x: V| #[trigger] p(x) ==> !keep(x),
    ensures
        !any_row(s.filter(keep), p),
        find_row(s.filter(keep), p) is None,
{
    lemma_filter_meets(s, keep);
    lemma_find_any(s.filter(keep), p);
}

/// A filter that keeps whatever meets `p` leaves the first such row the first.
pub proof fn lemma_find_filter<V>(s: Seq<V>, keep: spec_fn(V) -> bool, p: spec_fn(V) -> bool)
    requires
        forall|x: V| #[trigger] p(x) ==> keep(x),
    ensures
        find_row(s.filter(keep), p) == find_row(s, p),
    decreases s.len(),
{
    reveal(Seq::filter);
    if s.len() > 0 {
        let t = s.drop_last();
        lemma_find_filter(t, keep, p);
        assert(s =~= t.push(s.last()));
        lemma_find_push(t, s.last(), p);
        lemma_find_push(t.filter(keep), s.last(), p);
    }
}

/// No two rows share a key.
pub open spec fn distinct<V, K>(s: Seq<V>, key: spec_fn(V) -> K) -> bool {
    forall|i: int, j: int| 0 <= i < j < s.len() ==> key(#[trigger] s[i]) != key(#[trigger] s[j])
}

/// Row `i` meets `p`, and no other does.
pub open spec fn only<V>(s: Seq<V>, i: int, p: spec_fn(V) -> bool) -> bool {
    0 <= i < s.len() && p(s[i]) && forall|j: int| 0 <= j < s.len() && j != i ==> !p(#[trigger] s[j])
}

/// What is found where one row alone meets a predicate, however that is worded.
pub proof fn lemma_find_only<V>(s: Seq<V>, i: int, p: spec_fn(V) -> bool, q: spec_fn(V) -> bool)
    requires
        only(s, i, p),
        forall|j: int| 0 <= j < s.len() ==> q(#[trigger] s[j]) == p(s[j]),
    ensures
        find_row(s, q) == Some(s[i]),
        any_row(s, q),
{
    assert forall|j: int| 0 <= j < i implies !q(#[trigger] s[j]) by {
        assert(!p(s[j]));
    }
    assert(q(s[i]));
    lemma_find_at(s, q, i);
}

/// One row more counts once where it meets the predicate, and not at all where it does not.
pub proof fn lemma_filter_push<V>(s: Seq<V>, x: V, p: spec_fn(V) -> bool)
    ensures
        s.push(x).filter(p) == (if p(x) {
            s.filter(p).push(x)
        } else {
            s.filter(p)
        }),
{
    reveal(Seq::filter);
    assert(s.push(x).drop_last() =~= s);
}

/// Some row meets a predicate, however that is worded.
pub proof fn lemma_any_same<V>(s: Seq<V>, p: spec_fn(V) -> bool, q: spec_fn(V) -> bool)
    requires
        forall|j: int| 0 <= j < s.len() ==> q(#[trigger] s[j]) == p(s[j]),
    ensures
        any_row(s, q) == any_row(s, p),
{
    if any_row(s, q) {
        let i = choose|i: int| 0 <= i < s.len() && q(#[trigger] s[i]);
        assert(p(s[i]));
    }
    if any_row(s, p) {
        let i = choose|i: int| 0 <= i < s.len() && p(#[trigger] s[i]);
        assert(q(s[i]));
    }
}

/// What an ordered list of the rows that meet a predicate holds, and in which order.
pub proof fn lemma_listed<V>(
    out: Seq<V>,
    s: Seq<V>,
    p: spec_fn(V) -> bool,
    le: spec_fn(V, V) -> bool,
)
    requires
        ordered_from(out, s.filter(p), le),
    ensures
        out.len() == s.filter(p).len(),
        forall|x: V| #[trigger] out.contains(x) <==> s.contains(x) && p(x),
        forall|i: int, j: int| 0 <= i < j < out.len() ==> le(#[trigger] out[i], #[trigger] out[j]),
{
    broadcast use vstd::seq_lib::group_to_multiset_ensures;

    let f = s.filter(p);
    assert(out.to_multiset().len() == f.to_multiset().len());
    assert forall|x: V| #[trigger] out.contains(x) <==> s.contains(x) && p(x) by {
        lemma_filter_contains(s, p, x);
        assert(out.contains(x) <==> out.to_multiset().count(x) > 0);
        assert(f.contains(x) <==> f.to_multiset().count(x) > 0);
    }
}

/// At most one row meets `p`.
pub open spec fn sole<V>(s: Seq<V>, p: spec_fn(V) -> bool) -> bool {
    forall|i: int, j: int| 0 <= i < j < s.len() ==> !(p(#[trigger] s[i]) && p(#[trigger] s[j]))
}

/// A row that is the only one to meet a predicate is the one that is found.
pub proof fn lemma_find_sole<V>(s: Seq<V>, p: spec_fn(V) -> bool, x: V)
    requires
        sole(s, p),
        s.contains(x),
        p(x),
    ensures
        find_row(s, p) == Some(x),
{
    let k = choose|k: int| 0 <= k < s.len() && s[k] == x;
    assert forall|j: int| 0 <= j < k implies !p(#[trigger] s[j]) by {
        assert(!(p(s[j]) && p(s[k])));
    }
    lemma_find_at(s, p, k);
}

/// What a filter keeps holds at most one row of a kind where the whole does.
pub proof fn lemma_filter_sole<V>(s: Seq<V>, keep: spec_fn(V) -> bool, p: spec_fn(V) -> bool)
    requires
        sole(s, p),
    ensures
        sole(s.filter(keep), p),
    decreases s.len(),
{
    reveal(Seq::filter);
    if s.len() > 0 {
        let t = s.drop_last();
        let f = t.filter(keep);
        assert forall|i: int, j: int| 0 <= i < j < t.len() implies !(p(#[trigger] t[i]) && p(
            #[trigger] t[j],
        )) by {
            assert(t[i] == s[i] && t[j] == s[j]);
        }
        lemma_filter_sole(t, keep, p);
        if keep(s.last()) {
            let g = f.push(s.last());
            assert forall|i: int, j: int| 0 <= i < j < g.len() implies !(p(#[trigger] g[i]) && p(
                #[trigger] g[j],
            )) by {
                assert(g[i] == f[i]);
                if j < f.len() {
                    assert(g[j] == f[j]);
                } else {
                    lemma_filter_contains(t, keep, f[i]);
                    assert(f.contains(f[i]));
                    let k = choose|k: int| 0 <= k < t.len() && t[k] == f[i];
                    assert(!(p(s[k]) && p(s[s.len() - 1])));
                }
            }
        }
    }
}

/// The closure `f` leaves a row that does not meet `p`, and turns one that does into `u` of it.
pub open spec fn rewrites<T: Row, F: Fn(&T) -> Option<T>>(
    f: F,
    p: spec_fn(T::V) -> bool,
    u: spec_fn(T::V) -> T::V,
) -> bool {
    &&& forall|r: &T| #[trigger] f.requires((r,))
    &&& forall|r: &T, n: Option<T>| #[trigger]
        f.ensures((r,), n) ==> match n {
            Some(x) => p(r@) && x@ == u(r@),
            None => !p(r@),
        }
}

/// Rewrites every row that `f` rewrites; whether there was one.
pub(crate) fn update<T: Row, F: Fn(&T) -> Option<T>>(
    v: &mut Vec<T>,
    Ghost(p): Ghost<spec_fn(T::V) -> bool>,
    Ghost(u): Ghost<spec_fn(T::V) -> T::V>,
    f: F,
) -> (r: bool)
    requires
        rewrites(f, p, u),
    ensures
        rows(final(v)@) == updated(rows(old(v)@), p, u),
        r == any_row(rows(old(v)@), p),
{
    let mut hit = false;
    let mut i: usize = 0;
    let ghost was = rows(v@);
    while i < v.len()
        invariant
            i <= v@.len(),
            v@.len() == was.len(),
            rewrites(f, p, u),
            forall|j: int| 0 <= j < i ==> #[trigger] rows(v@)[j] == updated(was, p, u)[j],
            forall|j: int| i <= j < was.len() ==> #[trigger] rows(v@)[j] == was[j],
            hit == (exists|j: int| 0 <= j < i && p(#[trigger] was[j])),
        decreases v@.len() - i,
    {
        let ghost before = v@;
        assert(rows(v@)[i as int] == was[i as int]);
        match f(&v[i]) {
            Some(x) => {
                v.set(i, x);
                hit = true;
                assert(p(was[i as int]));
                assert forall|j: int| 0 <= j < i implies #[trigger] rows(v@)[j] == updated(was, p, u)[j] by {
                    assert(rows(v@)[j] == rows(before)[j]);
                }
                assert forall|j: int| i < j < was.len() implies #[trigger] rows(v@)[j] == was[j] by {
                    assert(rows(v@)[j] == rows(before)[j]);
                }
            },
            None => {},
        }
        i = i + 1;
    }
    assert(rows(v@) =~= updated(was, p, u));
    hit
}

/// Drops every row that `f` accepts; whether there was one.
pub(crate) fn remove<T: Row, F: Fn(&T) -> bool>(
    v: &mut Vec<T>,
    Ghost(p): Ghost<spec_fn(T::V) -> bool>,
    f: F,
) -> (r: bool)
    requires
        decides(f, p),
    ensures
        rows(final(v)@) == rows(old(v)@).filter(|x: T::V| !p(x)),
        r == any_row(rows(old(v)@), p),
{
    let ghost q = |x: T::V| !p(x);
    let keep = |r: &T| -> (b: bool)
        ensures
            b == q(r@),
        { !f(r) };
    let kept = select(v, Ghost(q), keep);
    let hit = any(v, Ghost(p), f);
    *v = kept;
    hit
}

/// Appends a row.
pub(crate) fn insert<T: Row>(v: &mut Vec<T>, row: T)
    ensures
        rows(final(v)@) == rows(old(v)@).push(row@),
{
    v.push(row);
    assert(rows(v@) =~= rows(old(v)@).push(row@));
}

/// A copy of a whole table.
pub(crate) fn dup_rows<T: Row>(v: &Vec<T>) -> (r: Vec<T>)
    ensures
        rows(r@) == rows(v@),
{
    let mut out: Vec<T> = Vec::new();
    let mut i: usize = 0;
    while i < v.len()
        invariant
            i <= v@.len(),
            out@.len() == i,
            forall|j: int| 0 <= j < i ==> #[trigger] rows(out@)[j] == rows(v@)[j],
        decreases v@.len() - i,
    {
        let ghost before = out@;
        out.push(v[i].dup());
        assert forall|j: int| 0 <= j < i implies #[trigger] rows(out@)[j] == rows(v@)[j] by {
            assert(rows(before)[j] == rows(out@)[j]);
        }
        i = i + 1;
    }
    assert(rows(out@) =~= rows(v@));
    out
}

/// The rows stand in the order `le`.
pub open spec fn in_order<V>(s: Seq<V>, le: spec_fn(V, V) -> bool) -> bool {
    forall|i: int, j: int| 0 <= i < j < s.len() ==> le(#[trigger] s[i], #[trigger] s[j])
}

/// `le` is a total order of the rows, up to ties.
pub open spec fn total_order<V>(le: spec_fn(V, V) -> bool) -> bool {
    &&& forall|a: V, b: V| #[trigger] le(a, b) || le(b, a)
    &&& forall|a: V, b: V, c: V| #[trigger] le(a, b) && #[trigger] le(b, c) ==> le(a, c)
}

/// The same rows as `s`, in the order `le`; rows that tie may stand in any order.
pub open spec fn ordered_from<V>(out: Seq<V>, s: Seq<V>, le: spec_fn(V, V) -> bool) -> bool {
    &&& in_order(out, le)
    &&& out.to_multiset() == s.to_multiset()
}

/// Puts rows in the order that `f` decides.
pub(crate) fn order<T: Row, F: Fn(&T, &T) -> bool>(
    v: Vec<T>,
    Ghost(le): Ghost<spec_fn(T::V, T::V) -> bool>,
    f: F,
) -> (r: Vec<T>)
    requires
        total_order(le),
        forall|a: &T, b: &T| #[trigger] f.requires((a, b)),
        forall|a: &T, b: &T, c: bool| #[trigger] f.ensures((a, b), c) ==> c == le(a@, b@),
    ensures
        ordered_from(rows(r@), rows(v@), le),
{
    let mut rest = v;
    let mut out: Vec<T> = Vec::new();
    let ghost whole = rows(v@);
    proof {
        broadcast use vstd::seq_lib::group_to_multiset_ensures;

        assert(rows(rest@).to_multiset().add(rows(out@).to_multiset()) =~= whole.to_multiset());
    }
    while rest.len() > 0
        invariant
            total_order(le),
            forall|a: &T, b: &T| #[trigger] f.requires((a, b)),
            forall|a: &T, b: &T, c: bool| #[trigger] f.ensures((a, b), c) ==> c == le(a@, b@),
            in_order(rows(out@), le),
            rows(rest@).to_multiset().add(rows(out@).to_multiset()) =~= whole.to_multiset(),
        decreases rest@.len(),
    {
        let ghost rest0 = rest@;
        let ghost out0 = out@;
        let x = match rest.pop() {
            Some(x) => x,
            None => {
                return out;
            },
        };
        let mut k: usize = 0;
        while k < out.len() && !f(&x, &out[k])
            invariant
                k <= out@.len(),
                out@ == out0,
                total_order(le),
                forall|a: &T, b: &T| #[trigger] f.requires((a, b)),
                forall|a: &T, b: &T, c: bool| #[trigger] f.ensures((a, b), c) ==> c == le(a@, b@),
                forall|j: int| 0 <= j < k ==> le(#[trigger] rows(out@)[j], x@),
            ensures
                k <= out@.len(),
                forall|j: int| 0 <= j < k ==> le(#[trigger] rows(out@)[j], x@),
                k < out@.len() ==> le(x@, rows(out@)[k as int]),
            decreases out@.len() - k,
        {
            assert(le(rows(out@)[k as int], x@) || le(x@, rows(out@)[k as int]));
            k = k + 1;
        }
        out.insert(k, x);
        proof {
            broadcast use vstd::seq_lib::group_to_multiset_ensures;

            let o = rows(out0);
            let n = rows(out@);
            assert(n =~= o.insert(k as int, x@));
            assert(rows(rest0) =~= rows(rest@).push(x@));
            assert forall|i: int, j: int| 0 <= i < j < n.len() implies le(
                #[trigger] n[i],
                #[trigger] n[j],
            ) by {
                if i < k && j == k {
                    assert(n[i] == o[i]);
                } else if i == k {
                    assert(le(x@, o[k as int]));
                    if j - 1 > k {
                        assert(le(o[k as int], o[j - 1]));
                    }
                } else if j < k {
                    assert(n[i] == o[i] && n[j] == o[j]);
                } else if i < k {
                    assert(n[i] == o[i] && n[j] == o[j - 1]);
                } else {
                    assert(n[i] == o[i - 1] && n[j] == o[j - 1]);
                }
            }
        }
    }
    proof {
        broadcast use vstd::seq_lib::group_to_multiset_ensures;

        assert(rows(rest@).to_multiset().add(rows(out@).to_multiset()) =~= rows(
            out@,
        ).to_multiset());
    }
    out
}

} // verus!
