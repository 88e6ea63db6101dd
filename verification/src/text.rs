//! Text as the ledger compares and copies it.

use vstd::prelude::*;

verus! {

/// Two texts are the same exactly when they hold the same characters.
pub fn same(a: &str, b: &str) -> (r: bool)
    ensures
        r == (a@ == b@),
{
    let x = a.as_bytes();
    let y = b.as_bytes();
    proof {
        vstd::utf8::encode_utf8_decode_utf8(a@);
        vstd::utf8::encode_utf8_decode_utf8(b@);
    }
    if x.len() != y.len() {
        return false;
    }
    let mut i: usize = 0;
    while i < x.len()
        invariant
            i <= x@.len(),
            x@.len() == y@.len(),
            x@ == vstd::utf8::encode_utf8(a@),
            y@ == vstd::utf8::encode_utf8(b@),
            forall|j: int| 0 <= j < i ==> x@[j] == y@[j],
        decreases x@.len() - i,
    {
        if x[i] != y[i] {
            return false;
        }
        i = i + 1;
    }
    assert(x@ =~= y@);
    true
}

/// The same for a text that may be absent: an absent one matches nothing.
pub fn opt_is(a: &Option<String>, b: &str) -> (r: bool)
    ensures
        r == (a.deep_view() == Some(b@)),
{
    match a {
        Some(s) => same(s.as_str(), b),
        None => false,
    }
}

/// An owned copy.
pub fn own(s: &str) -> (r: String)
    ensures
        r@ == s@,
{
    s.to_owned()
}

/// An owned copy of a text that may be absent.
pub fn own_opt(s: Option<&str>) -> (r: Option<String>)
    ensures
        r.deep_view() == s.deep_view(),
{
    match s {
        Some(t) => Some(t.to_owned()),
        None => None,
    }
}

/// A copy of an owned text that may be absent.
pub fn dup_opt(s: &Option<String>) -> (r: Option<String>)
    ensures
        r.deep_view() == s.deep_view(),
{
    match s {
        Some(t) => Some(t.as_str().to_owned()),
        None => None,
    }
}

/// What is given, or else the fallback.
pub open spec fn or_else<T>(given: Option<T>, fallback: Option<T>) -> Option<T> {
    match given {
        Some(x) => Some(x),
        None => fallback,
    }
}

/// The edit, or else what stands.
pub open spec fn or_keep<T>(edit: Option<T>, current: T) -> T {
    match edit {
        Some(x) => x,
        None => current,
    }
}

/// The text that is given, or else the fallback.
pub fn given_or(given: Option<&str>, fallback: &Option<String>) -> (r: Option<String>)
    ensures
        r.deep_view() == or_else(given.deep_view(), fallback.deep_view()),
{
    match given {
        Some(t) => Some(t.to_owned()),
        None => dup_opt(fallback),
    }
}

/// The number that is given, or else the fallback.
pub fn number_or(given: Option<i64>, fallback: Option<i64>) -> (r: Option<i64>)
    ensures
        r == or_else(given, fallback),
{
    match given {
        Some(n) => Some(n),
        None => fallback,
    }
}

/// An edited text, or else the one that stands.
pub fn edited(edit: Option<&str>, current: &str) -> (r: String)
    ensures
        r@ == or_keep(edit.deep_view(), current@),
{
    match edit {
        Some(t) => t.to_owned(),
        None => current.to_owned(),
    }
}

/// An edited text that may be absent, or else the one that stands.
pub fn edited_opt(edit: Option<Option<&str>>, current: &Option<String>) -> (r: Option<String>)
    ensures
        r.deep_view() == or_keep(edit.deep_view(), current.deep_view()),
{
    match edit {
        Some(t) => own_opt(t),
        None => dup_opt(current),
    }
}

/// Whether a list of texts holds this one.
pub fn listed(texts: &[String], s: &str) -> (r: bool)
    ensures
        r == texts.deep_view().contains(s@),
{
    let mut i: usize = 0;
    while i < texts.len()
        invariant
            i <= texts@.len(),
            forall|j: int| 0 <= j < i ==> #[trigger] texts@[j]@ != s@,
        decreases texts@.len() - i,
    {
        if same(texts[i].as_str(), s) {
            assert(texts.deep_view()[i as int] == s@);
            return true;
        }
        i = i + 1;
    }
    assert forall|j: int| 0 <= j < texts.deep_view().len() implies texts.deep_view()[j] != s@ by {
        assert(texts@[j]@ != s@);
    }
    false
}

/// A copy of a list of texts.
pub fn dup_texts(v: &Vec<String>) -> (r: Vec<String>)
    ensures
        r.deep_view() == v.deep_view(),
{
    let mut out: Vec<String> = Vec::new();
    let mut i: usize = 0;
    while i < v.len()
        invariant
            i <= v@.len(),
            out@.len() == i,
            forall|j: int| 0 <= j < i ==> #[trigger] out@[j]@ == v@[j]@,
        decreases v@.len() - i,
    {
        out.push(v[i].clone());
        i = i + 1;
    }
    assert(out.deep_view() =~= v.deep_view());
    out
}

/// One byte string stands at or after another in dictionary order.
pub open spec fn bytes_at_least(a: Seq<u8>, b: Seq<u8>) -> bool
    decreases b.len(),
{
    if b.len() == 0 {
        true
    } else if a.len() == 0 {
        false
    } else if a[0] == b[0] {
        bytes_at_least(a.drop_first(), b.drop_first())
    } else {
        a[0] > b[0]
    }
}

/// One text stands at or after another in the order of their UTF-8 bytes.
pub open spec fn at_least(a: Seq<char>, b: Seq<char>) -> bool {
    bytes_at_least(vstd::utf8::encode_utf8(a), vstd::utf8::encode_utf8(b))
}

/// Dictionary order is total.
proof fn lemma_bytes_total(a: Seq<u8>, b: Seq<u8>)
    ensures
        bytes_at_least(a, b) || bytes_at_least(b, a),
    decreases b.len(),
{
    if b.len() > 0 && a.len() > 0 && a[0] == b[0] {
        lemma_bytes_total(a.drop_first(), b.drop_first());
    }
}

/// Dictionary order is transitive.
proof fn lemma_bytes_transitive(a: Seq<u8>, b: Seq<u8>, c: Seq<u8>)
    requires
        bytes_at_least(a, b),
        bytes_at_least(b, c),
    ensures
        bytes_at_least(a, c),
    decreases c.len(),
{
    if c.len() > 0 && b.len() > 0 && a.len() > 0 && a[0] == b[0] && b[0] == c[0] {
        lemma_bytes_transitive(a.drop_first(), b.drop_first(), c.drop_first());
    }
}

/// The order of texts is total and transitive.
pub proof fn lemma_at_least_order()
    ensures
        forall|a: Seq<char>, b: Seq<char>| #[trigger] at_least(a, b) || at_least(b, a),
        forall|a: Seq<char>, b: Seq<char>, c: Seq<char>| #[trigger]
            at_least(a, b) && #[trigger] at_least(b, c) ==> at_least(a, c),
{
    assert forall|a: Seq<char>, b: Seq<char>| #[trigger] at_least(a, b) || at_least(b, a) by {
        lemma_bytes_total(vstd::utf8::encode_utf8(a), vstd::utf8::encode_utf8(b));
    }
    assert forall|a: Seq<char>, b: Seq<char>, c: Seq<char>| #[trigger]
        at_least(a, b) && #[trigger] at_least(b, c) implies at_least(a, c) by {
        lemma_bytes_transitive(
            vstd::utf8::encode_utf8(a),
            vstd::utf8::encode_utf8(b),
            vstd::utf8::encode_utf8(c),
        );
    }
}

/// Compares two texts.
pub fn text_at_least(a: &str, b: &str) -> (r: bool)
    ensures
        r == at_least(a@, b@),
{
    let x = a.as_bytes();
    let y = b.as_bytes();
    let mut i: usize = 0;
    assert(x@.skip(0) =~= x@);
    assert(y@.skip(0) =~= y@);
    while i < x.len() && i < y.len() && x[i] == y[i]
        invariant
            i <= x@.len(),
            i <= y@.len(),
            bytes_at_least(x@, y@) == bytes_at_least(x@.skip(i as int), y@.skip(i as int)),
        decreases x@.len() - i,
    {
        assert(x@.skip(i as int).drop_first() =~= x@.skip(i + 1));
        assert(y@.skip(i as int).drop_first() =~= y@.skip(i + 1));
        i = i + 1;
    }
    if i < y.len() {
        assert(y@.skip(i as int)[0] == y@[i as int]);
    }
    if i < x.len() {
        assert(x@.skip(i as int)[0] == x@[i as int]);
    }
    i >= y.len() || (i < x.len() && x[i] > y[i])
}

/// The first byte in which two texts differ decides which comes later; one that merely goes on is the
/// later one.
pub proof fn law_the_first_difference_decides(a: Seq<char>, b: Seq<char>, i: int)
    requires
        0 <= i <= vstd::utf8::encode_utf8(a).len(),
        i <= vstd::utf8::encode_utf8(b).len(),
        forall|j: int|
            0 <= j < i ==> #[trigger] vstd::utf8::encode_utf8(a)[j] == vstd::utf8::encode_utf8(
                b,
            )[j],
    ensures
        ({
            let x = vstd::utf8::encode_utf8(a);
            let y = vstd::utf8::encode_utf8(b);
            &&& i == y.len() ==> at_least(a, b)
            &&& i == x.len() && i < y.len() ==> !at_least(a, b)
            &&& i < x.len() && i < y.len() && x[i] != y[i] ==> (at_least(a, b) <==> x[i] > y[i])
        }),
{
    lemma_first_difference(vstd::utf8::encode_utf8(a), vstd::utf8::encode_utf8(b), i);
}

proof fn lemma_first_difference(x: Seq<u8>, y: Seq<u8>, i: int)
    requires
        0 <= i <= x.len(),
        i <= y.len(),
        forall|j: int| 0 <= j < i ==> #[trigger] x[j] == y[j],
    ensures
        i == y.len() ==> bytes_at_least(x, y),
        i == x.len() && i < y.len() ==> !bytes_at_least(x, y),
        i < x.len() && i < y.len() && x[i] != y[i] ==> (bytes_at_least(x, y) <==> x[i] > y[i]),
    decreases i,
{
    if i > 0 {
        assert(x[0] == y[0]);
        assert forall|j: int| 0 <= j < i - 1 implies #[trigger] x.drop_first()[j]
            == y.drop_first()[j] by {
            assert(x[j + 1] == y[j + 1]);
        }
        lemma_first_difference(x.drop_first(), y.drop_first(), i - 1);
    }
}

} // verus!
