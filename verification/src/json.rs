//! JSON texts, as far as the ledger looks into them.

use vstd::prelude::*;

use crate::text::same;

verus! {

/// A member of a JSON object, one level deep.
#[derive(Debug, PartialEq, Eq)]
pub enum Field {
    /// `null`.
    Null,
    /// `true` or `false`.
    Bool(bool),
    /// A number, where it is an integer of 64 bits.
    Number(Option<i64>),
    /// A string.
    Text(String),
    /// An array; of each element its text, where it is a string.
    List(Vec<Option<String>>),
    /// An object; what it holds is not looked into.
    Object,
}

/// What a `Field` holds.
#[verifier::ext_equal]
pub enum FieldView {
    Null,
    Bool(bool),
    Number(Option<i64>),
    Text(Seq<char>),
    List(Seq<Option<Seq<char>>>),
    Object,
}

impl View for Field {
    type V = FieldView;

    open spec fn view(&self) -> FieldView {
        match self {
            Field::Null => FieldView::Null,
            Field::Bool(b) => FieldView::Bool(*b),
            Field::Number(n) => FieldView::Number(*n),
            Field::Text(s) => FieldView::Text(s@),
            Field::List(l) => FieldView::List(l.deep_view()),
            Field::Object => FieldView::Object,
        }
    }
}

impl DeepView for Field {
    type V = FieldView;

    open spec fn deep_view(&self) -> FieldView {
        self.view()
    }
}

/// The members of the object that a JSON text holds; `None` where the text is not JSON, or is
/// not an object.
pub uninterp spec fn object_fields(raw: Seq<char>) -> Option<Seq<(Seq<char>, FieldView)>>;

/// Reads a JSON object: `serde_json::from_str` into a `serde_json::Map`. The text decides the
/// result alone, and each member is taken over as it is, a number by `Number::as_i64`.
#[verifier::external_body]
pub(crate) fn read_object(raw: &str) -> (r: Option<Vec<(String, Field)>>)
    ensures
        r.deep_view() == object_fields(raw@),
{
    let map: serde_json::Map<String, serde_json::Value> = serde_json::from_str(raw).ok()?;
    let field = |v: serde_json::Value| match v {
        serde_json::Value::Null => Field::Null,
        serde_json::Value::Bool(b) => Field::Bool(b),
        serde_json::Value::Number(n) => Field::Number(n.as_i64()),
        serde_json::Value::String(s) => Field::Text(s),
        serde_json::Value::Array(a) => {
            Field::List(a.into_iter().map(|x| x.as_str().map(str::to_owned)).collect())
        },
        serde_json::Value::Object(_) => Field::Object,
    };
    Some(map.into_iter().map(|(k, v)| (k, field(v))).collect())
}

/// The first member under this key.
pub open spec fn member(
    fields: Seq<(Seq<char>, FieldView)>,
    key: Seq<char>,
) -> Option<FieldView>
    decreases fields.len(),
{
    if fields.len() == 0 {
        None
    } else if fields[0].0 == key {
        Some(fields[0].1)
    } else {
        member(fields.drop_first(), key)
    }
}

/// The member under this key of the object that a JSON text holds.
pub open spec fn member_of(raw: Seq<char>, key: Seq<char>) -> Option<FieldView> {
    match object_fields(raw) {
        Some(fields) => member(fields, key),
        None => None,
    }
}

/// `member` from an index on.
proof fn lemma_member_skip(fields: Seq<(Seq<char>, FieldView)>, key: Seq<char>, i: int)
    requires
        0 <= i < fields.len(),
    ensures
        member(fields.skip(i), key) == (if fields[i].0 == key {
            Some(fields[i].1)
        } else {
            member(fields.skip(i + 1), key)
        }),
{
    assert(fields.skip(i)[0] == fields[i]);
    assert(fields.skip(i).drop_first() =~= fields.skip(i + 1));
}

/// Looks a member up.
pub(crate) fn lookup<'a>(fields: &'a Vec<(String, Field)>, key: &str) -> (r: Option<&'a Field>)
    ensures
        r.deep_view() == member(fields.deep_view(), key@),
{
    let mut i: usize = 0;
    assert(fields.deep_view().skip(0) =~= fields.deep_view());
    while i < fields.len()
        invariant
            i <= fields@.len(),
            member(fields.deep_view(), key@) == member(fields.deep_view().skip(i as int), key@),
        decreases fields@.len() - i,
    {
        proof {
            lemma_member_skip(fields.deep_view(), key@, i as int);
        }
        if same(fields[i].0.as_str(), key) {
            return Some(&fields[i].1);
        }
        i = i + 1;
    }
    None
}

/// The text of an object with a string member put into it; `None` where `object` is not the text
/// of an object.
pub uninterp spec fn with_text(object: Seq<char>, key: Seq<char>, text: Seq<char>) -> Option<
    Seq<char>,
>;

/// Puts a string member into an object: `serde_json::Map::insert`, between `serde_json::from_str`
/// and `Value::to_string`. The texts decide the result alone. The empty object takes any member.
/// Reading the result back gives the member that was put in, and every other as it was.
#[verifier::external_body]
pub(crate) fn put_text(object: &str, key: &str, text: &str) -> (r: Option<String>)
    ensures
        r.deep_view() == with_text(object@, key@, text@),
        object@ == "{}"@ ==> r is Some,
        (r is Some) == (object_fields(object@) is Some),
        r matches Some(t) ==> member_of(t@, key@) == Some(FieldView::Text(text@)),
        r matches Some(t) ==> forall|k: Seq<char>|
            k != key@ ==> #[trigger] member_of(t@, k) == member_of(object@, k),
{
    let mut map: serde_json::Map<String, serde_json::Value> = serde_json::from_str(object).ok()?;
    map.insert(key.to_owned(), serde_json::Value::String(text.to_owned()));
    Some(serde_json::Value::Object(map).to_string())
}

/// The text of an object with the value of another JSON text put into it; `None` where `object`
/// is not the text of an object, or `raw` is not JSON.
pub uninterp spec fn with_value(object: Seq<char>, key: Seq<char>, raw: Seq<char>) -> Option<
    Seq<char>,
>;

/// Puts a member given as JSON into an object: `serde_json::from_str` for the member, and the
/// steps of [`put_text`] around it. The texts decide the result alone.
#[verifier::external_body]
pub(crate) fn put_value(object: &str, key: &str, raw: &str) -> (r: Option<String>)
    ensures
        r.deep_view() == with_value(object@, key@, raw@),
{
    let mut map: serde_json::Map<String, serde_json::Value> = serde_json::from_str(object).ok()?;
    let value: serde_json::Value = serde_json::from_str(raw).ok()?;
    map.insert(key.to_owned(), value);
    Some(serde_json::Value::Object(map).to_string())
}

/// What is found under a key stands there, the first of it, and where nothing is found nothing does.
pub proof fn law_members_are_found_by_their_key(
    fields: Seq<(Seq<char>, FieldView)>,
    key: Seq<char>,
    i: int,
)
    requires
        0 <= i < fields.len(),
        fields[i].0 == key,
        forall|j: int| 0 <= j < i ==> (#[trigger] fields[j]).0 != key,
    ensures
        member(fields, key) == Some(fields[i].1),
    decreases fields.len(),
{
    if i > 0 {
        assert(fields[0].0 != key);
        let rest = fields.drop_first();
        assert forall|j: int| 0 <= j < i - 1 implies (#[trigger] rest[j]).0 != key by {
            assert(rest[j] == fields[j + 1]);
        }
        law_members_are_found_by_their_key(rest, key, i - 1);
    }
}

/// A key that stands nowhere has no member.
pub proof fn law_no_key_no_member(fields: Seq<(Seq<char>, FieldView)>, key: Seq<char>)
    requires
        forall|j: int| 0 <= j < fields.len() ==> (#[trigger] fields[j]).0 != key,
    ensures
        member(fields, key) is None,
    decreases fields.len(),
{
    if fields.len() > 0 {
        assert(fields[0].0 != key);
        let rest = fields.drop_first();
        assert forall|j: int| 0 <= j < rest.len() implies (#[trigger] rest[j]).0 != key by {
            assert(rest[j] == fields[j + 1]);
        }
        law_no_key_no_member(rest, key);
    }
}

} // verus!
