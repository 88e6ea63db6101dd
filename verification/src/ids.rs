//! Random identifiers.

use vstd::prelude::*;

verus! {

/// A hexadecimal digit, in lower case.
pub open spec fn is_hex_digit(c: char) -> bool {
    '0' <= c <= '9' || 'a' <= c <= 'f'
}

/// A row identifier: hexadecimal digits in groups of eight, four, four, four and twelve, joined by
/// hyphens. The third group starts with the digit of a random identifier, and the fourth with one
/// of the four that its variant allows.
pub open spec fn is_id(s: Seq<char>) -> bool {
    &&& s.len() == 36
    &&& forall|i: int|
        0 <= i < 36 ==> if i == 8 || i == 13 || i == 18 || i == 23 {
            #[trigger] s[i] == '-'
        } else {
            is_hex_digit(s[i])
        }
    &&& s[14] == '4'
    &&& s[19] == '8' || s[19] == '9' || s[19] == 'a' || s[19] == 'b'
}

/// A fresh row identifier: `uuid::Uuid::new_v4`, in its hyphenated form. The bits are random but
/// for the version and the variant, so what is claimed of the text is its form and these two.
#[verifier::external_body]
pub(crate) fn new_id() -> (r: String)
    ensures
        is_id(r@),
{
    uuid::Uuid::new_v4().to_string()
}

/// `n` row identifiers.
pub open spec fn are_ids(s: Seq<Seq<char>>, n: nat) -> bool {
    s.len() == n && forall|i: int| 0 <= i < n ==> is_id(#[trigger] s[i])
}

/// `n` fresh row identifiers.
pub(crate) fn new_ids(n: usize) -> (r: Vec<String>)
    ensures
        r@.len() == n,
        are_ids(r.deep_view(), n as nat),
{
    let mut out: Vec<String> = Vec::new();
    while out.len() < n
        invariant
            out@.len() <= n,
            forall|i: int| 0 <= i < out@.len() ==> is_id((#[trigger] out@[i])@),
        decreases n - out@.len(),
    {
        out.push(new_id());
    }
    assert forall|i: int| 0 <= i < n implies is_id(#[trigger] out.deep_view()[i]) by {
        assert(out.deep_view()[i] == out@[i]@);
    }
    out
}

} // verus!
