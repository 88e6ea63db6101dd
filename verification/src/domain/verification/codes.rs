//! Verification codes: made by the server, bound in time, used once.

use vstd::prelude::*;
use vstd::string::*;

use crate::arith::{plus, stored};
use crate::clock::{clock_seconds, day_of, parse_hh_mm, second_of_day, split_day};
use crate::domain::links;
use crate::domain::verification::policy;
use crate::domain::verification::policy::{Policy, PolicyView};
use crate::error::DbError;
use crate::ids::{is_id, new_id};
use crate::json::{lookup, member, object_fields, read_object, Field, FieldView};
use crate::ledger::{Ledger, LedgerView};
use crate::numeral::{integer_text, print_i64};
use crate::table::{
    any, any_row, find, find_row, insert, lemma_any_same, lemma_filter_contains, lemma_filter_push,
    lemma_find_any, lemma_find_only, lemma_listed, only, order, ordered_from, rows, select, update,
    updated, Row,
};
use crate::text::{dup_opt, own, same};

verus! {

/// The characters of a code: none that is easily taken for another.
pub const CODE_ALPHABET: &'static str = "23456789ABCDEFGHJKLMNPQRSTUVWXYZ";

/// How many characters a code has.
pub const CODE_LENGTH: usize = 7;

/// A verification code.
#[derive(Debug, PartialEq, Eq)]
pub struct Code {
    pub id: String,
    pub link_id: String,
    pub code: String,
    pub issued_at: i64,
    pub expires_at: i64,
    pub consumed_at: Option<i64>,
    /// The submission that consumed it.
    pub consumed_by_submission_id: Option<String>,
}

/// What a `Code` holds.
#[verifier::ext_equal]
pub struct CodeView {
    pub id: Seq<char>,
    pub link_id: Seq<char>,
    pub code: Seq<char>,
    pub issued_at: i64,
    pub expires_at: i64,
    pub consumed_at: Option<i64>,
    pub consumed_by_submission_id: Option<Seq<char>>,
}

impl View for Code {
    type V = CodeView;

    open spec fn view(&self) -> CodeView {
        CodeView {
            id: self.id@,
            link_id: self.link_id@,
            code: self.code@,
            issued_at: self.issued_at,
            expires_at: self.expires_at,
            consumed_at: self.consumed_at,
            consumed_by_submission_id: self.consumed_by_submission_id.deep_view(),
        }
    }
}

impl DeepView for Code {
    type V = CodeView;

    open spec fn deep_view(&self) -> CodeView {
        self.view()
    }
}

impl Row for Code {
    fn dup(&self) -> (r: Self) {
        Code {
            id: self.id.clone(),
            link_id: self.link_id.clone(),
            code: self.code.clone(),
            issued_at: self.issued_at,
            expires_at: self.expires_at,
            consumed_at: self.consumed_at,
            consumed_by_submission_id: dup_opt(&self.consumed_by_submission_id),
        }
    }
}

/// A line of the issued-code history.
#[derive(Debug, PartialEq, Eq)]
pub struct History {
    pub id: String,
    pub code: String,
    pub issued_at: i64,
    pub expires_at: i64,
    pub consumed_at: Option<i64>,
}

/// What a `History` holds.
#[verifier::ext_equal]
pub struct HistoryView {
    pub id: Seq<char>,
    pub code: Seq<char>,
    pub issued_at: i64,
    pub expires_at: i64,
    pub consumed_at: Option<i64>,
}

impl View for History {
    type V = HistoryView;

    open spec fn view(&self) -> HistoryView {
        HistoryView {
            id: self.id@,
            code: self.code@,
            issued_at: self.issued_at,
            expires_at: self.expires_at,
            consumed_at: self.consumed_at,
        }
    }
}

impl DeepView for History {
    type V = HistoryView;

    open spec fn deep_view(&self) -> HistoryView {
        self.view()
    }
}

impl Row for History {
    fn dup(&self) -> (r: Self) {
        History {
            id: self.id.clone(),
            code: self.code.clone(),
            issued_at: self.issued_at,
            expires_at: self.expires_at,
            consumed_at: self.consumed_at,
        }
    }
}

/// The code that a run of random bytes makes: each pair of bytes picks a character by its sum.
pub open spec fn code_text(entropy: Seq<u8>) -> Seq<char> {
    let pairs = (entropy.len() + 1) / 2;
    Seq::new(
        if pairs < CODE_LENGTH {
            pairs
        } else {
            CODE_LENGTH as nat
        },
        |i: int|
            CODE_ALPHABET@[(entropy[2 * i] as int + (if 2 * i + 1 < entropy.len() {
                entropy[2 * i + 1] as int
            } else {
                0
            })) % 32],
    )
}

/// A code as it is handed out: of the right length, and of the right characters.
pub open spec fn is_code(s: Seq<char>) -> bool {
    s.len() == CODE_LENGTH
        && forall|i: int| 0 <= i < s.len() ==> CODE_ALPHABET@.contains(#[trigger] s[i])
}

/// Makes a code of random bytes.
pub fn code_from_entropy(entropy: &[u8]) -> (r: String)
    ensures
        r@ == code_text(entropy@),
        entropy@.len() >= 13 ==> is_code(r@),
{
    let alphabet = CODE_ALPHABET;
    proof {
        reveal_strlit("23456789ABCDEFGHJKLMNPQRSTUVWXYZ");
    }
    let mut out = String::new();
    let mut i: usize = 0;
    let ghost whole = code_text(entropy@);
    assert(whole.take(0) =~= out@);
    while i < CODE_LENGTH && 2 * i < entropy.len()
        invariant
            i <= CODE_LENGTH,
            i <= whole.len(),
            whole == code_text(entropy@),
            alphabet@ == CODE_ALPHABET@,
            alphabet.is_ascii(),
            alphabet@.len() == 32,
            out@ == whole.take(i as int),
        decreases CODE_LENGTH - i,
    {
        let low: usize = if 2 * i + 1 < entropy.len() {
            entropy[2 * i + 1] as usize
        } else {
            0
        };
        let at: usize = (entropy[2 * i] as usize + low) % 32;
        out.append(alphabet.substring_ascii(at, at + 1));
        assert(out@ =~= whole.take(i + 1));
        i = i + 1;
    }
    assert(whole.take(i as int) =~= whole);
    out
}

/// Random text: `uuid::Uuid::new_v4`, in its simple form. The bits are random, so what is claimed
/// is that there are 32 characters, each of them ASCII.
#[verifier::external_body]
fn random_hex() -> (r: String)
    ensures
        r@.len() == 32,
        r.is_ascii(),
{
    uuid::Uuid::new_v4().simple().to_string()
}

/// Makes a random code.
pub fn generate_code_string() -> (r: String)
    ensures
        is_code(r@),
{
    let entropy = random_hex().concat(random_hex().as_str());
    proof {
        vstd::utf8::is_ascii_chars_encode_utf8(entropy@);
    }
    code_from_entropy(entropy.as_str().as_bytes())
}

/// The code has this id.
pub open spec fn by_id(id: Seq<char>) -> spec_fn(CodeView) -> bool {
    |c: CodeView| c.id == id
}

/// This link's code with this id, not consumed, and expired no longer than the grace period.
pub open spec fn redeemable(
    code_id: Seq<char>,
    link_id: Seq<char>,
    grace_period_seconds: i64,
    now: i64,
) -> spec_fn(CodeView) -> bool {
    |c: CodeView|
        c.id == code_id && c.link_id == link_id && c.consumed_at is None && c.expires_at
            + grace_period_seconds > now
}

/// The code to redeem, if it can be.
pub fn load_for_redemption(
    db: &Ledger,
    code_id: &str,
    link_id: &str,
    grace_period_seconds: i64,
    now: i64,
) -> (r: Option<Code>)
    ensures
        r.deep_view() == find_row(
            db@.codes,
            redeemable(code_id@, link_id@, grace_period_seconds, now),
        ),
{
    let ghost p = redeemable(code_id@, link_id@, grace_period_seconds, now);
    let test = |c: &Code| -> (b: bool)
        ensures
            b == p(c@),
        {
            same(c.id.as_str(), code_id) && same(c.link_id.as_str(), link_id)
                && c.consumed_at.is_none()
                && c.expires_at as i128 + grace_period_seconds as i128 > now as i128
        };
    match find(&db.codes, Ghost(p), test) {
        Some(c) => Some(c.dup()),
        None => None,
    }
}

/// Consumed by a submission.
pub open spec fn consumed(submission_id: Seq<char>, now: i64) -> spec_fn(CodeView) -> CodeView {
    |c: CodeView|
        CodeView { consumed_at: Some(now), consumed_by_submission_id: Some(submission_id), ..c }
}

/// Marks a code consumed by a submission.
pub fn consume(db: &mut Ledger, code_id: &str, submission_id: &str, now: i64)
    ensures
        final(db)@ == (LedgerView {
            codes: updated(old(db)@.codes, by_id(code_id@), consumed(submission_id@, now)),
            ..old(db)@
        }),
{
    let ghost p = by_id(code_id@);
    let ghost u = consumed(submission_id@, now);
    let change = |c: &Code| -> (n: Option<Code>)
        ensures
            match n {
                Some(x) => p(c@) && x@ == u(c@),
                None => !p(c@),
            },
        {
            if same(c.id.as_str(), code_id) {
                let mut n = c.dup();
                n.consumed_at = Some(now);
                n.consumed_by_submission_id = Some(own(submission_id));

                Some(n)
            } else {
                None
            }
        };
    update(&mut db.codes, Ghost(p), Ghost(u), change);
}

/// A code of this link that can be shown: neither consumed nor expired.
pub open spec fn live(link_id: Seq<char>, now: i64) -> spec_fn(CodeView) -> bool {
    |c: CodeView| c.link_id == link_id && c.consumed_at is None && c.expires_at > now
}

/// Newest first.
pub open spec fn newest_first() -> spec_fn(CodeView, CodeView) -> bool {
    |a: CodeView, b: CodeView| a.issued_at >= b.issued_at
}

/// The newest of some codes; of codes issued at one time it may be any.
pub open spec fn newest(codes: Seq<CodeView>, r: Option<CodeView>) -> bool {
    match r {
        Some(c) => codes.contains(c) && forall|i: int|
            0 <= i < codes.len() ==> (#[trigger] codes[i]).issued_at <= c.issued_at,
        None => codes.len() == 0,
    }
}

/// The first row of an ordering is the newest.
proof fn lemma_newest(found: Seq<CodeView>, codes: Seq<CodeView>)
    requires
        ordered_from(found, codes, newest_first()),
    ensures
        found.len() == codes.len(),
        found.len() > 0 ==> newest(codes, Some(found[0])),
{
    broadcast use vstd::seq_lib::group_to_multiset_ensures;

    assert(found.to_multiset().len() == codes.to_multiset().len());
    if found.len() > 0 {
        assert(found.contains(found[0]));
        assert(found.to_multiset().count(found[0]) > 0);
        assert(codes.contains(found[0]));
        assert forall|i: int| 0 <= i < codes.len() implies (#[trigger] codes[i]).issued_at
            <= found[0].issued_at by {
            assert(codes.contains(codes[i]));
            assert(codes.to_multiset().count(codes[i]) > 0);
            let j = choose|j: int| 0 <= j < found.len() && found[j] == codes[i];
            assert(found.contains(codes[i]));
            if j > 0 {
                assert(newest_first()(found[0], found[j]));
            }
        }
    }
}

/// The newest code of a link that can be shown.
pub fn current_unconsumed(db: &Ledger, link_id: &str, now: i64) -> (r: Option<Code>)
    ensures
        newest(db@.codes.filter(live(link_id@, now)), r.deep_view()),
{
    let ghost p = live(link_id@, now);
    let ghost le = newest_first();
    let test = |c: &Code| -> (b: bool)
        ensures
            b == p(c@),
        { same(c.link_id.as_str(), link_id) && c.consumed_at.is_none() && c.expires_at > now };
    let before = |a: &Code, b: &Code| -> (c: bool)
        ensures
            c == le(a@, b@),
        { a.issued_at >= b.issued_at };
    let found = order(select(&db.codes, Ghost(p), test), Ghost(le), before);
    proof {
        lemma_newest(rows(found@), db@.codes.filter(p));
    }
    if found.len() == 0 {
        None
    } else {
        assert(rows(found@)[0] == found@[0]@);
        Some(found[0].dup())
    }
}

/// Whether a link has a code that can be shown.
fn has_live(db: &Ledger, link_id: &str, now: i64) -> (r: bool)
    ensures
        r == any_row(db@.codes, live(link_id@, now)),
{
    let ghost p = live(link_id@, now);
    let test = |c: &Code| -> (b: bool)
        ensures
            b == p(c@),
        { same(c.link_id.as_str(), link_id) && c.consumed_at.is_none() && c.expires_at > now };
    any(&db.codes, Ghost(p), test)
}

/// A code as it is issued: not consumed.
pub open spec fn new_row(
    id: Seq<char>,
    link_id: Seq<char>,
    code: Seq<char>,
    expires_at: i64,
    now: i64,
) -> CodeView {
    CodeView {
        id,
        link_id,
        code,
        issued_at: now,
        expires_at,
        consumed_at: None,
        consumed_by_submission_id: None,
    }
}

/// The ledger after a code was issued, and the code.
pub open spec fn issued(
    db: LedgerView,
    link_id: Seq<char>,
    ttl_seconds: i64,
    id: Seq<char>,
    code: Seq<char>,
    now: i64,
) -> Result<(LedgerView, CodeView), DbError> {
    match stored(now + ttl_seconds) {
        Err(e) => Err(e),
        Ok(expires_at) => {
            let row = new_row(id, link_id, code, expires_at, now);
            Ok((LedgerView { codes: db.codes.push(row), ..db }, row))
        },
    }
}

/// Issues a code under the id and with the text given.
pub fn issue_as(
    db: &mut Ledger,
    link_id: &str,
    ttl_seconds: i64,
    id: String,
    code: String,
    now: i64,
) -> (r: Result<Code, DbError>)
    ensures
        match issued(old(db)@, link_id@, ttl_seconds, id@, code@, now) {
            Ok((after, row)) => r is Ok && r->Ok_0@ == row && final(db)@ == after,
            Err(e) => r == Err::<Code, DbError>(e) && final(db)@ == old(db)@,
        },
{
    let expires_at = match plus(now, ttl_seconds) {
        Ok(t) => t,
        Err(e) => {
            return Err(e);
        },
    };
    let row = Code {
        id,
        link_id: own(link_id),
        code,
        issued_at: now,
        expires_at,
        consumed_at: None,
        consumed_by_submission_id: None,
    };
    insert(&mut db.codes, row.dup());
    Ok(row)
}

/// Issues a random code.
pub fn issue(db: &mut Ledger, link_id: &str, ttl_seconds: i64, now: i64) -> (r: Result<
    Code,
    DbError,
>)
    ensures
        exists|id: Seq<char>, code: Seq<char>|
            is_id(id) && is_code(code) && match #[trigger] issued(
                old(db)@,
                link_id@,
                ttl_seconds,
                id,
                code,
                now,
            ) {
                Ok((after, row)) => r is Ok && r->Ok_0@ == row && final(db)@ == after,
                Err(e) => r == Err::<Code, DbError>(e) && final(db)@ == old(db)@,
            },
{
    let id = new_id();
    let code = generate_code_string();
    let ghost outcome = issued(db@, link_id@, ttl_seconds, id@, code@, now);
    assert(outcome is Ok || outcome is Err);
    issue_as(db, link_id, ttl_seconds, id, code, now)
}

/// Why a code was not issued on demand.
#[derive(Clone, Copy, Debug, PartialEq, Eq, Structural)]
pub enum RequestError {
    /// The link has a code that can be shown.
    AlreadyHaveOne,
    /// The policy does not allow it.
    NotAllowed,
    /// The ledger failed.
    Db(DbError),
}

/// Whether a policy of this kind allows codes on demand, given the members of its value. The kind
/// `on_demand_only` does, whatever they are.
pub open spec fn on_demand_allowed(
    frequency_kind: Seq<char>,
    fields: Option<Seq<(Seq<char>, FieldView)>>,
) -> bool {
    frequency_kind == "on_demand_only"@ || match fields {
        Some(fields) => member(fields, "allow_on_demand"@) == Some(FieldView::Bool(true)),
        None => false,
    }
}

/// Whether a policy of this kind allows codes on demand, given the members of its value.
pub fn allows_on_demand_by(frequency_kind: &str, fields: &Option<Vec<(String, Field)>>) -> (r: bool)
    ensures
        r == on_demand_allowed(frequency_kind@, fields.deep_view()),
{
    if same(frequency_kind, "on_demand_only") {
        return true;
    }
    match fields {
        Some(fields) => match lookup(fields, "allow_on_demand") {
            Some(Field::Bool(b)) => *b,
            _ => false,
        },
        None => false,
    }
}

/// Whether a policy allows codes on demand.
pub fn allows_on_demand(policy: &Policy) -> (r: bool)
    ensures
        r == on_demand_allowed(
            policy@.frequency_kind,
            object_fields(policy@.frequency_value),
        ),
{
    allows_on_demand_by(
        policy.frequency_kind.as_str(),
        &read_object(policy.frequency_value.as_str()),
    )
}

/// The ledger after a code was asked for on demand, and the code.
pub open spec fn requested(
    db: LedgerView,
    policy: PolicyView,
    allowed: bool,
    id: Seq<char>,
    code: Seq<char>,
    now: i64,
) -> Result<(LedgerView, CodeView), RequestError> {
    if any_row(db.codes, live(policy.link_id, now)) {
        Err(RequestError::AlreadyHaveOne)
    } else if !allowed {
        Err(RequestError::NotAllowed)
    } else {
        match issued(db, policy.link_id, policy.code_ttl_seconds, id, code, now) {
            Ok(done) => Ok(done),
            Err(e) => Err(RequestError::Db(e)),
        }
    }
}

/// Issues a code on demand under the id and with the text given, given whether the policy allows
/// it.
pub fn request_on_demand_as(
    db: &mut Ledger,
    policy: &Policy,
    allowed: bool,
    id: String,
    code: String,
    now: i64,
) -> (r: Result<Code, RequestError>)
    ensures
        match requested(old(db)@, policy@, allowed, id@, code@, now) {
            Ok((after, row)) => r is Ok && r->Ok_0@ == row && final(db)@ == after,
            Err(e) => r == Err::<Code, RequestError>(e) && final(db)@ == old(db)@,
        },
{
    if has_live(db, policy.link_id.as_str(), now) {
        return Err(RequestError::AlreadyHaveOne);
    }
    if !allowed {
        return Err(RequestError::NotAllowed);
    }
    match issue_as(db, policy.link_id.as_str(), policy.code_ttl_seconds, id, code, now) {
        Ok(c) => Ok(c),
        Err(e) => Err(RequestError::Db(e)),
    }
}

/// Issues a random code on demand. A link that has a code to show gets no second one.
pub fn request_on_demand(db: &mut Ledger, policy: &Policy, now: i64) -> (r: Result<
    Code,
    RequestError,
>)
    ensures
        exists|id: Seq<char>, code: Seq<char>|
            is_id(id) && is_code(code) && match #[trigger] requested(
                old(db)@,
                policy@,
                on_demand_allowed(policy@.frequency_kind, object_fields(policy@.frequency_value)),
                id,
                code,
                now,
            ) {
                Ok((after, row)) => r is Ok && r->Ok_0@ == row && final(db)@ == after,
                Err(e) => r == Err::<Code, RequestError>(e) && final(db)@ == old(db)@,
            },
{
    let allowed = allows_on_demand(policy);
    let id = new_id();
    let code = generate_code_string();
    let ghost outcome = requested(db@, policy@, allowed, id@, code@, now);
    assert(outcome is Ok || outcome is Err);
    request_on_demand_as(db, policy, allowed, id, code, now)
}

/// A code of this link.
pub open spec fn of_link(link_id: Seq<char>) -> spec_fn(CodeView) -> bool {
    |c: CodeView| c.link_id == link_id
}

/// As the history shows it.
pub open spec fn shown() -> spec_fn(CodeView) -> HistoryView {
    |c: CodeView|
        HistoryView {
            id: c.id,
            code: c.code,
            issued_at: c.issued_at,
            expires_at: c.expires_at,
            consumed_at: c.consumed_at,
        }
}

/// Every code that a link was issued, newest first.
pub fn history_for_link(db: &Ledger, link_id: &str) -> (r: Vec<History>)
    ensures
        exists|found: Seq<CodeView>| #[trigger]
            ordered_from(found, db@.codes.filter(of_link(link_id@)), newest_first()) && rows(r@)
                == found.map_values(shown()),
{
    let ghost p = of_link(link_id@);
    let ghost le = newest_first();
    let test = |c: &Code| -> (b: bool)
        ensures
            b == p(c@),
        { same(c.link_id.as_str(), link_id) };
    let before = |a: &Code, b: &Code| -> (c: bool)
        ensures
            c == le(a@, b@),
        { a.issued_at >= b.issued_at };
    let found = order(select(&db.codes, Ghost(p), test), Ghost(le), before);
    let mut out: Vec<History> = Vec::new();
    let mut i: usize = 0;
    while i < found.len()
        invariant
            i <= found@.len(),
            out@.len() == i,
            forall|j: int| 0 <= j < i ==> #[trigger] out@[j]@ == shown()(found@[j]@),
        decreases found@.len() - i,
    {
        let c = &found[i];
        out.push(
            History {
                id: c.id.clone(),
                code: c.code.clone(),
                issued_at: c.issued_at,
                expires_at: c.expires_at,
                consumed_at: c.consumed_at,
            },
        );
        i = i + 1;
    }
    assert(rows(out@) =~= rows(found@).map_values(shown()));
    assert(ordered_from(rows(found@), db@.codes.filter(p), le));
    out
}

/// The SHA-256 digest of some bytes.
pub uninterp spec fn sha256(bytes: Seq<u8>) -> Seq<u8>;

/// Digests bytes: `sha2`'s `Sha256::digest`. The bytes decide the digest alone, and it has 32
/// bytes.
#[verifier::external_body]
fn digest_of(bytes: &[u8]) -> (r: Vec<u8>)
    ensures
        r@ == sha256(bytes@),
        r@.len() == 32,
{
    <sha2::Sha256 as sha2::Digest>::digest(bytes).to_vec()
}

/// The number that bytes stand for, the most significant first.
pub open spec fn big_endian(bytes: Seq<u8>) -> int
    decreases bytes.len(),
{
    if bytes.len() == 0 {
        0
    } else {
        256 * big_endian(bytes.drop_last()) + bytes.last()
    }
}

/// The time of day that a digest picks from a window: its first eight bytes, modulo the window's
/// length. An empty window gives its start.
pub open spec fn picked(digest: Seq<u8>, window_start: i64, window_end: i64) -> i64 {
    if window_end <= window_start {
        window_start
    } else {
        (window_start + big_endian(digest.take(8)) % (window_end - window_start)) as i64
    }
}

/// Picks a time of day from a window by a digest.
pub fn pick_from_window(digest: &[u8], window_start: i64, window_end: i64) -> (r: i64)
    requires
        digest@.len() >= 8,
    ensures
        r == picked(digest@, window_start, window_end),
        window_start < window_end ==> window_start <= r < window_end,
{
    if window_end <= window_start {
        return window_start;
    }
    let mut n: u128 = 0;
    let mut i: usize = 0;
    while i < 8
        invariant
            i <= 8,
            digest@.len() >= 8,
            n == big_endian(digest@.take(i as int)),
            n < 0x1_0000_0000_0000_0000 || i > 8,
            i == 0 ==> n < 1,
            i == 1 ==> n < 0x100,
            i == 2 ==> n < 0x1_0000,
            i == 3 ==> n < 0x100_0000,
            i == 4 ==> n < 0x1_0000_0000,
            i == 5 ==> n < 0x100_0000_0000,
            i == 6 ==> n < 0x1_0000_0000_0000,
            i == 7 ==> n < 0x100_0000_0000_0000,
        decreases 8 - i,
    {
        n = n * 256 + digest[i] as u128;
        assert(digest@.take(i + 1).drop_last() =~= digest@.take(i as int));
        i = i + 1;
    }
    let span: i128 = window_end as i128 - window_start as i128;
    let offset: i128 = n as i128 % span;
    (window_start as i128 + offset) as i64
}

/// The text that is digested for a link and a day.
pub open spec fn window_seed(link_id: Seq<char>, day: Seq<char>) -> Seq<u8> {
    vstd::utf8::encode_utf8(link_id + ":"@ + day)
}

/// The time of day at which a code falls due within a window: the same all day, and another for
/// another link or day as the digest has it.
pub fn random_window_target_seconds(
    link_id: &str,
    day: &str,
    window_start: i64,
    window_end: i64,
) -> (r: i64)
    ensures
        r == picked(sha256(window_seed(link_id@, day@)), window_start, window_end),
        window_start < window_end ==> window_start <= r < window_end,
{
    let seed = own(link_id).concat(":").concat(day);
    pick_from_window(digest_of(seed.as_str().as_bytes()).as_slice(), window_start, window_end)
}

/// No code was issued today yet.
pub open spec fn not_yet_today(last_issued_at: Option<i64>, now: i64) -> bool {
    match last_issued_at {
        None => true,
        Some(last) => day_of(last) < day_of(now),
    }
}

/// The minute that starts at a time of day is now, and no code was issued today yet.
pub open spec fn slot_due(target: i64, last_issued_at: Option<i64>, now: i64) -> bool {
    target <= second_of_day(now) < target + 60 && not_yet_today(last_issued_at, now)
}

/// Whether the minute that starts at a time of day is now, and no code was issued today yet.
pub fn is_slot_due(target: i64, last_issued_at: Option<i64>, now: i64) -> (r: bool)
    ensures
        r == slot_due(target, last_issued_at, now),
{
    let (day, second) = split_day(now);
    let fresh = match last_issued_at {
        None => true,
        Some(last) => split_day(last).0 < day,
    };
    second >= target && (second as i128) < target as i128 + 60 && fresh
}

/// One of some times of day is due.
pub open spec fn some_slot_due(times: Seq<i64>, last_issued_at: Option<i64>, now: i64) -> bool {
    exists|i: int| 0 <= i < times.len() && slot_due(#[trigger] times[i], last_issued_at, now)
}

/// Whether one of some times of day is due.
fn any_slot_due(times: &Vec<i64>, last_issued_at: Option<i64>, now: i64) -> (r: bool)
    ensures
        r == some_slot_due(times@, last_issued_at, now),
{
    let mut i: usize = 0;
    while i < times.len()
        invariant
            i <= times@.len(),
            forall|j: int| 0 <= j < i ==> !slot_due(#[trigger] times@[j], last_issued_at, now),
        decreases times@.len() - i,
    {
        if is_slot_due(times[i], last_issued_at, now) {
            return true;
        }
        i = i + 1;
    }
    false
}

/// A member of a policy's value, where it is a whole number.
pub open spec fn number_in(fields: Option<Seq<(Seq<char>, FieldView)>>, key: Seq<char>) -> Option<
    i64,
> {
    match fields {
        Some(fields) => match member(fields, key) {
            Some(FieldView::Number(n)) => n,
            _ => None,
        },
        None => None,
    }
}

/// A member of a policy's value, where it is a whole number.
fn frequency_number(fields: &Option<Vec<(String, Field)>>, key: &str) -> (r: Option<i64>)
    ensures
        r == number_in(fields.deep_view(), key@),
{
    match fields {
        Some(fields) => match lookup(fields, key) {
            Some(Field::Number(n)) => *n,
            _ => None,
        },
        None => None,
    }
}

/// A list of texts is one of times of day.
pub open spec fn all_times(texts: Seq<Option<Seq<char>>>) -> bool {
    forall|i: int|
        0 <= i < texts.len() ==> #[trigger] texts[i] is Some && clock_seconds(texts[i]->0) is Some
}

/// The times of day that a policy's value lists; `None` where something in the list is not one.
pub open spec fn times_in(fields: Option<Seq<(Seq<char>, FieldView)>>) -> Option<Seq<i64>> {
    match fields {
        Some(fields) => match member(fields, "times"@) {
            Some(FieldView::List(texts)) => if all_times(texts) {
                Some(texts.map_values(|t: Option<Seq<char>>| clock_seconds(t->0)->0))
            } else {
                None
            },
            _ => None,
        },
        None => None,
    }
}

/// The times of day that a policy's value lists.
#[verifier::loop_isolation(false)]
fn frequency_times(fields: &Option<Vec<(String, Field)>>) -> (r: Option<Vec<i64>>)
    ensures
        match r {
            Some(times) => times_in(fields.deep_view()) == Some(times@),
            None => times_in(fields.deep_view()) is None,
        },
{
    let texts = match fields {
        Some(fields) => match lookup(fields, "times") {
            Some(Field::List(texts)) => texts,
            _ => {
                return None;
            },
        },
        None => {
            return None;
        },
    };
    let mut out: Vec<i64> = Vec::new();
    let mut i: usize = 0;
    while i < texts.len()
        invariant
            i <= texts@.len(),
            out@.len() == i,
            forall|j: int|
                0 <= j < i ==> #[trigger] texts.deep_view()[j] is Some && clock_seconds(
                    texts.deep_view()[j]->0,
                ) == Some(out@[j]),
        decreases texts@.len() - i,
    {
        assert(texts.deep_view()[i as int] == texts@[i as int].deep_view());
        match &texts[i] {
            Some(t) => match parse_hh_mm(t.as_str()) {
                Some(seconds) => {
                    out.push(seconds);
                },
                None => {
                    assert(!all_times(texts.deep_view()));
                    return None;
                },
            },
            None => {
                assert(!all_times(texts.deep_view()));
                return None;
            },
        }
        i = i + 1;
    }
    assert(out@ =~= texts.deep_view().map_values(
        |t: Option<Seq<char>>| clock_seconds(t->0)->0,
    ));
    Some(out)
}

/// A member of a policy's value, where it is a time of day.
pub open spec fn time_in(fields: Option<Seq<(Seq<char>, FieldView)>>, key: Seq<char>) -> Option<
    i64,
> {
    match fields {
        Some(fields) => match member(fields, key) {
            Some(FieldView::Text(t)) => clock_seconds(t),
            _ => None,
        },
        None => None,
    }
}

/// A member of a policy's value, where it is a time of day.
fn frequency_time(fields: &Option<Vec<(String, Field)>>, key: &str) -> (r: Option<i64>)
    ensures
        r == time_in(fields.deep_view(), key@),
{
    match fields {
        Some(fields) => match lookup(fields, key) {
            Some(Field::Text(t)) => parse_hh_mm(t.as_str()),
            _ => None,
        },
        None => None,
    }
}

/// Whether a code is due under a policy of this kind, given the members of its value.
pub open spec fn due(
    link_id: Seq<char>,
    frequency_kind: Seq<char>,
    fields: Option<Seq<(Seq<char>, FieldView)>>,
    last_issued_at: Option<i64>,
    now: i64,
) -> bool {
    if frequency_kind == "interval_hours"@ {
        match last_issued_at {
            None => true,
            Some(last) => now - last >= (match number_in(fields, "hours"@) {
                Some(hours) => hours,
                None => 24,
            }) * 3600,
        }
    } else if frequency_kind == "fixed_times_daily"@ {
        match times_in(fields) {
            None => false,
            Some(times) => some_slot_due(times, last_issued_at, now),
        }
    } else if frequency_kind == "random_within_window"@ {
        match (time_in(fields, "start"@), time_in(fields, "end"@)) {
            (Some(start), Some(end)) => slot_due(
                picked(sha256(window_seed(link_id, integer_text(day_of(now)))), start, end),
                last_issued_at,
                now,
            ),
            _ => false,
        }
    } else {
        false
    }
}

/// Whether a code is due under a policy, given the members of its value.
pub fn is_due_by(
    policy: &Policy,
    fields: &Option<Vec<(String, Field)>>,
    last_issued_at: Option<i64>,
    current_time: i64,
) -> (r: bool)
    ensures
        r == due(
            policy@.link_id,
            policy@.frequency_kind,
            fields.deep_view(),
            last_issued_at,
            current_time,
        ),
{
    let kind = policy.frequency_kind.as_str();
    if same(kind, "interval_hours") {
        let hours: i64 = match frequency_number(fields, "hours") {
            Some(h) => h,
            None => 24,
        };
        match last_issued_at {
            None => true,
            Some(last) => current_time as i128 - last as i128 >= hours as i128 * 3600,
        }
    } else if same(kind, "fixed_times_daily") {
        let times = match frequency_times(fields) {
            Some(t) => t,
            None => {
                return false;
            },
        };
        any_slot_due(&times, last_issued_at, current_time)
    } else if same(kind, "random_within_window") {
        match (frequency_time(fields, "start"), frequency_time(fields, "end")) {
            (Some(start), Some(end)) => {
                let day = print_i64(split_day(current_time).0);
                let target = random_window_target_seconds(
                    policy.link_id.as_str(),
                    day.as_str(),
                    start,
                    end,
                );
                is_slot_due(target, last_issued_at, current_time)
            },
            _ => false,
        }
    } else {
        false
    }
}

/// Whether a code is due under a policy. Times of day are in UTC.
pub fn is_due(policy: &Policy, last_issued_at: Option<i64>, current_time: i64) -> (r: bool)
    ensures
        r == due(
            policy@.link_id,
            policy@.frequency_kind,
            object_fields(policy@.frequency_value),
            last_issued_at,
            current_time,
        ),
{
    is_due_by(
        policy,
        &read_object(policy.frequency_value.as_str()),
        last_issued_at,
        current_time,
    )
}

/// When the last of some codes was issued.
pub open spec fn last_issue(codes: Seq<CodeView>) -> Option<i64>
    decreases codes.len(),
{
    if codes.len() == 0 {
        None
    } else {
        match last_issue(codes.drop_last()) {
            None => Some(codes.last().issued_at),
            Some(t) => Some(
                if codes.last().issued_at > t {
                    codes.last().issued_at
                } else {
                    t
                },
            ),
        }
    }
}

/// When a link was last issued a code. One issued at the epoch counts as none.
pub open spec fn last_issued(codes: Seq<CodeView>, link_id: Seq<char>) -> Option<i64> {
    match last_issue(codes.filter(of_link(link_id))) {
        Some(t) => if t == 0 {
            None
        } else {
            Some(t)
        },
        None => None,
    }
}

/// When a link was last issued a code.
fn last_issued_at(db: &Ledger, link_id: &str) -> (r: Option<i64>)
    ensures
        r == last_issued(db@.codes, link_id@),
{
    let ghost p = of_link(link_id@);
    let test = |c: &Code| -> (b: bool)
        ensures
            b == p(c@),
        { same(c.link_id.as_str(), link_id) };
    let found = select(&db.codes, Ghost(p), test);
    let mut last: Option<i64> = None;
    let mut i: usize = 0;
    assert(rows(found@).take(0) =~= Seq::empty());
    while i < found.len()
        invariant
            i <= found@.len(),
            last == last_issue(rows(found@).take(i as int)),
        decreases found@.len() - i,
    {
        assert(rows(found@).take(i + 1).drop_last() =~= rows(found@).take(i as int));
        assert(rows(found@).take(i + 1).last() == found@[i as int]@);
        let at = found[i].issued_at;
        last = match last {
            None => Some(at),
            Some(t) => Some(
                if at > t {
                    at
                } else {
                    t
                },
            ),
        };
        i = i + 1;
    }
    assert(rows(found@).take(i as int) =~= rows(found@));
    match last {
        Some(t) => if t == 0 {
            None
        } else {
            Some(t)
        },
        None => None,
    }
}

/// A link's policy, where the link is to be issued a code: it has none to show, and one is due.
pub open spec fn due_policy(db: LedgerView, link_id: Seq<char>, now: i64) -> Option<PolicyView> {
    match find_row(db.policies, policy::for_link(link_id)) {
        None => None,
        Some(row) => if !any_row(db.codes, live(link_id, now)) && due(
            row.policy.link_id,
            row.policy.frequency_kind,
            object_fields(row.policy.frequency_value),
            last_issued(db.codes, link_id),
            now,
        ) {
            Some(row.policy)
        } else {
            None
        },
    }
}

/// Whether a link is to be issued a code, and how long it is to live.
fn due_ttl(db: &Ledger, link_id: &str, now: i64) -> (r: Option<i64>)
    ensures
        r == (match due_policy(db@, link_id@, now) {
            Some(p) => Some(p.code_ttl_seconds),
            None => None,
        }),
{
    match policy::get_for_link(db, link_id) {
        None => None,
        Some(p) => if !has_live(db, link_id, now) && is_due(&p, last_issued_at(db, link_id), now) {
            Some(p.code_ttl_seconds)
        } else {
            None
        },
    }
}

/// How far a tick has come.
#[verifier::ext_equal]
pub struct Tick {
    /// The ledger as it stands.
    pub db: LedgerView,
    /// How many codes were issued.
    pub issued: nat,
    /// The failure that stopped it.
    pub stopped: Option<DbError>,
}

/// A tick after its first `n` links, each with the id and the text for a code.
pub open spec fn ticked(
    db: LedgerView,
    link_ids: Seq<Seq<char>>,
    fresh: Seq<(Seq<char>, Seq<char>)>,
    n: nat,
    now: i64,
) -> Tick
    decreases n,
{
    if n == 0 {
        Tick { db, issued: 0, stopped: None }
    } else {
        let before = ticked(db, link_ids, fresh, (n - 1) as nat, now);
        let link_id = link_ids[n - 1];
        if before.stopped is Some {
            before
        } else {
            match due_policy(before.db, link_id, now) {
                None => before,
                Some(p) => match issued(
                    before.db,
                    link_id,
                    p.code_ttl_seconds,
                    fresh[n - 1].0,
                    fresh[n - 1].1,
                    now,
                ) {
                    Err(e) => Tick { stopped: Some(e), ..before },
                    Ok((after, row)) => Tick {
                        db: after,
                        issued: before.issued + 1,
                        stopped: None,
                    },
                },
            }
        }
    }
}

/// A tick that has stopped goes no further.
proof fn lemma_ticked_stopped(
    db: LedgerView,
    link_ids: Seq<Seq<char>>,
    fresh: Seq<(Seq<char>, Seq<char>)>,
    k: nat,
    n: nat,
    now: i64,
)
    requires
        k <= n,
        ticked(db, link_ids, fresh, k, now).stopped is Some,
    ensures
        ticked(db, link_ids, fresh, n, now) == ticked(db, link_ids, fresh, k, now),
    decreases n,
{
    if k < n {
        lemma_ticked_stopped(db, link_ids, fresh, k, (n - 1) as nat, now);
    }
}

/// A tick over every link that codes are issued to.
pub open spec fn whole_tick(db: LedgerView, fresh: Seq<(Seq<char>, Seq<char>)>, now: i64) -> Tick {
    let link_ids = links::ids_where(db.links, links::overseen());
    ticked(db, link_ids, fresh, link_ids.len(), now)
}

/// `n` pairs of a row identifier and a code.
pub open spec fn ids_and_codes(s: Seq<(Seq<char>, Seq<char>)>, n: nat) -> bool {
    s.len() == n && forall|i: int|
        0 <= i < n ==> is_id((#[trigger] s[i]).0) && is_code(s[i].1)
}

/// Ids and random texts for codes.
fn fresh_codes(n: usize) -> (r: Vec<(String, String)>)
    ensures
        r@.len() == n,
        ids_and_codes(r.deep_view(), n as nat),
{
    let mut out: Vec<(String, String)> = Vec::new();
    while out.len() < n
        invariant
            out@.len() <= n,
            forall|i: int|
                0 <= i < out@.len() ==> is_id((#[trigger] out@[i]).0@) && is_code(out@[i].1@),
        decreases n - out@.len(),
    {
        out.push((new_id(), generate_code_string()));
    }
    assert forall|i: int| 0 <= i < n implies is_id((#[trigger] out.deep_view()[i]).0) && is_code(
        out.deep_view()[i].1,
    ) by {
        assert(out.deep_view()[i] == out@[i].deep_view());
    }
    out
}

/// Issues a random code to every active link whose policy says that one is due and that has none
/// to show; how many. What is issued stays issued when the ledger fails on a later link.
pub fn run_due_issuance_tick(db: &mut Ledger, now: i64) -> (r: Result<usize, DbError>)
    ensures
        exists|fresh: Seq<(Seq<char>, Seq<char>)>|
            {
                let tick = #[trigger] whole_tick(old(db)@, fresh, now);
                &&& ids_and_codes(
                    fresh,
                    links::ids_where(old(db)@.links, links::overseen()).len(),
                )
                &&& final(db)@ == tick.db
                &&& match tick.stopped {
                    Some(e) => r == Err::<usize, DbError>(e),
                    None => r is Ok && r->Ok_0 == tick.issued,
                }
            },
{
    let link_ids = links::overseen_ids(db);
    let fresh = fresh_codes(link_ids.len());
    let ghost start = db@;
    let ghost all = fresh.deep_view();
    let mut issued_count: usize = 0;
    let mut i: usize = 0;
    while i < link_ids.len()
        invariant
            i <= link_ids@.len(),
            issued_count <= i,
            start == old(db)@,
            fresh@.len() == link_ids@.len(),
            all == fresh.deep_view(),
            ids_and_codes(all, link_ids@.len()),
            link_ids.deep_view() == links::ids_where(start.links, links::overseen()),
            ticked(start, link_ids.deep_view(), all, i as nat, now) == (Tick {
                db: db@,
                issued: issued_count as nat,
                stopped: None,
            }),
        decreases link_ids@.len() - i,
    {
        assert(link_ids.deep_view()[i as int] == link_ids@[i as int]@);
        assert(all[i as int] == fresh@[i as int].deep_view());
        if let Some(ttl) = due_ttl(db, link_ids[i].as_str(), now) {
            match issue_as(
                db,
                link_ids[i].as_str(),
                ttl,
                fresh[i].0.clone(),
                fresh[i].1.clone(),
                now,
            ) {
                Ok(_) => {
                    issued_count = issued_count + 1;
                },
                Err(e) => {
                    proof {
                        lemma_ticked_stopped(
                            start,
                            link_ids.deep_view(),
                            all,
                            (i + 1) as nat,
                            link_ids@.len(),
                            now,
                        );
                        assert(whole_tick(start, all, now).stopped == Some(e));
                    }
                    return Err(e);
                },
            }
        }
        i = i + 1;
    }
    assert(whole_tick(start, all, now).stopped is None);
    Ok(issued_count)
}

/// A code that was consumed cannot be redeemed again, whatever the grace period.
pub proof fn law_consumed_code_is_spent(
    codes: Seq<CodeView>,
    code_id: Seq<char>,
    submission_id: Seq<char>,
    link_id: Seq<char>,
    grace_period_seconds: i64,
    now: i64,
    later: i64,
)
    ensures
        find_row(
            updated(codes, by_id(code_id), consumed(submission_id, now)),
            redeemable(code_id, link_id, grace_period_seconds, later),
        ) is None,
{
    let after = updated(codes, by_id(code_id), consumed(submission_id, now));
    assert forall|i: int| 0 <= i < after.len() implies !redeemable(
        code_id,
        link_id,
        grace_period_seconds,
        later,
    )(#[trigger] after[i]) by {}
    lemma_find_any(after, redeemable(code_id, link_id, grace_period_seconds, later));
}

/// A code can be redeemed on its own link alone.
pub proof fn law_codes_stay_on_their_link(
    codes: Seq<CodeView>,
    code_id: Seq<char>,
    link_id: Seq<char>,
    grace_period_seconds: i64,
    now: i64,
)
    ensures
        find_row(codes, redeemable(code_id, link_id, grace_period_seconds, now)) matches Some(c)
            ==> c.link_id == link_id && c.consumed_at is None && c.expires_at
            + grace_period_seconds > now,
{
    lemma_find_any(codes, redeemable(code_id, link_id, grace_period_seconds, now));
}

/// Codes are not stockpiled: after one was issued on demand, another is refused for as long as the
/// first can be shown.
pub proof fn law_no_second_code(
    db: LedgerView,
    policy: PolicyView,
    first: (Seq<char>, Seq<char>),
    second: (Seq<char>, Seq<char>),
    allowed: bool,
    now: i64,
    later: i64,
)
    requires
        requested(db, policy, allowed, first.0, first.1, now) is Ok,
        later < now + policy.code_ttl_seconds,
    ensures
        requested(
            requested(db, policy, allowed, first.0, first.1, now)->Ok_0.0,
            policy,
            allowed,
            second.0,
            second.1,
            later,
        ) == Err::<(LedgerView, CodeView), RequestError>(RequestError::AlreadyHaveOne),
{
    let after = requested(db, policy, allowed, first.0, first.1, now)->Ok_0.0;
    assert(live(policy.link_id, later)(after.codes[db.codes.len() as int]));
}

/// A policy that allows codes only on demand never has one due.
pub proof fn law_on_demand_is_never_due(
    link_id: Seq<char>,
    fields: Option<Seq<(Seq<char>, FieldView)>>,
    last_issued_at: Option<i64>,
    now: i64,
)
    ensures
        !due(link_id, "on_demand_only"@, fields, last_issued_at, now),
{
    reveal_strlit("on_demand_only");
    reveal_strlit("interval_hours");
    reveal_strlit("fixed_times_daily");
    reveal_strlit("random_within_window");
    assert("on_demand_only"@[0] == 'o' && "interval_hours"@[0] == 'i' && "fixed_times_daily"@[0]
        == 'f' && "random_within_window"@[0] == 'r');
}

/// Under a policy of daily times a link is issued one code a day at most: after a code of today,
/// none is due for the rest of the day.
pub proof fn law_once_a_day(
    link_id: Seq<char>,
    frequency_kind: Seq<char>,
    fields: Option<Seq<(Seq<char>, FieldView)>>,
    last: i64,
    now: i64,
)
    requires
        frequency_kind == "fixed_times_daily"@ || frequency_kind == "random_within_window"@,
        day_of(last) == day_of(now),
    ensures
        !due(link_id, frequency_kind, fields, Some(last), now),
{
    reveal_strlit("interval_hours");
    reveal_strlit("fixed_times_daily");
    reveal_strlit("random_within_window");
    assert("interval_hours"@[0] == 'i' && "fixed_times_daily"@[0] == 'f'
        && "random_within_window"@[0] == 'r');
    assert forall|target: i64| !slot_due(target, Some(last), now) by {}
}

/// The time of day that a digest picks lies in the window, whatever the digest.
pub proof fn law_picked_time_is_in_the_window(
    digest: Seq<u8>,
    window_start: i64,
    window_end: i64,
)
    requires
        window_start < window_end,
    ensures
        window_start <= picked(digest, window_start, window_end) < window_end,
{
}

/// A tick issues nothing to a link that has a code to show.
pub proof fn law_tick_does_not_double_issue(db: LedgerView, link_id: Seq<char>, now: i64)
    requires
        any_row(db.codes, live(link_id, now)),
    ensures
        due_policy(db, link_id, now) is None,
{
}

/// A tick only adds codes: those that there were stay, and nothing else of the ledger changes.
pub proof fn law_tick_only_issues(
    db: LedgerView,
    link_ids: Seq<Seq<char>>,
    fresh: Seq<(Seq<char>, Seq<char>)>,
    n: nat,
    now: i64,
)
    requires
        n <= link_ids.len(),
    ensures
        ({
            let tick = ticked(db, link_ids, fresh, n, now);
            &&& tick.db == LedgerView { codes: tick.db.codes, ..db }
            &&& tick.db.codes.len() == db.codes.len() + tick.issued
            &&& tick.db.codes.take(db.codes.len() as int) == db.codes
            &&& forall|i: int|
                db.codes.len() <= i < tick.db.codes.len() ==> link_ids.take(n as int).contains(
                    (#[trigger] tick.db.codes[i]).link_id,
                )
        }),
    decreases n,
{
    if n == 0 {
        assert(db.codes.take(db.codes.len() as int) =~= db.codes);
    } else {
        law_tick_only_issues(db, link_ids, fresh, (n - 1) as nat, now);
        let before = ticked(db, link_ids, fresh, (n - 1) as nat, now);
        let tick = ticked(db, link_ids, fresh, n, now);
        assert(tick.db.codes.take(db.codes.len() as int) =~= db.codes);
        assert forall|i: int| db.codes.len() <= i < tick.db.codes.len() implies link_ids.take(
            n as int,
        ).contains((#[trigger] tick.db.codes[i]).link_id) by {
            let so_far = link_ids.take(n as int);
            if i < before.db.codes.len() {
                assert(tick.db.codes[i] == before.db.codes[i]);
                let earlier = link_ids.take(n - 1);
                let k = choose|k: int|
                    0 <= k < earlier.len() && earlier[k] == before.db.codes[i].link_id;
                assert(so_far[k] == earlier[k]);
            } else {
                assert(so_far[n - 1] == tick.db.codes[i].link_id);
            }
        }
    }
}

/// Under a policy of so many hours a code is due once that many hours have passed since the last
/// one, neither earlier nor later, and at once where none was issued. A policy that does not say how
/// many stands for a day.
pub proof fn law_intervals_are_kept(
    link_id: Seq<char>,
    fields: Option<Seq<(Seq<char>, FieldView)>>,
    last: i64,
    now: i64,
    h: i64,
)
    ensures
        due(link_id, "interval_hours"@, fields, None, now),
        fields is Some && member(fields->0, "hours"@) == Some(FieldView::Number(Some(h))) ==> (due(
            link_id,
            "interval_hours"@,
            fields,
            Some(last),
            now,
        ) <==> now - last >= h * 3600),
        fields is None || !(member(fields->0, "hours"@) matches Some(FieldView::Number(Some(_))))
            ==> (due(link_id, "interval_hours"@, fields, Some(last), now) <==> now - last >= 86400),
{
}

/// Under a policy of fixed times a code is due in the minute that starts at one of its times of
/// day, once a day: not in any other minute, and not after one that was issued the same day. A list
/// that holds something else than times makes no code due.
pub proof fn law_fixed_times_are_kept(
    link_id: Seq<char>,
    fields: Seq<(Seq<char>, FieldView)>,
    texts: Seq<Option<Seq<char>>>,
    last: Option<i64>,
    now: i64,
)
    requires
        member(fields, "times"@) == Some(FieldView::List(texts)),
    ensures
        due(link_id, "fixed_times_daily"@, Some(fields), last, now) <==> {
            &&& forall|i: int|
                0 <= i < texts.len() ==> (#[trigger] texts[i]) is Some && clock_seconds(
                    texts[i]->0,
                ) is Some
            &&& exists|i: int|
                0 <= i < texts.len() && clock_seconds((#[trigger] texts[i])->0)->0 <= now as int
                    % 86400 < clock_seconds(texts[i]->0)->0 + 60
            &&& last matches Some(t) ==> t as int / 86400 < now as int / 86400
        },
{
    reveal_strlit("interval_hours");
    reveal_strlit("fixed_times_daily");
    assert("interval_hours"@[0] == 'i' && "fixed_times_daily"@[0] == 'f');
    if all_times(texts) {
        let times = texts.map_values(|t: Option<Seq<char>>| clock_seconds(t->0)->0);
        if some_slot_due(times, last, now) {
            let i = choose|i: int| 0 <= i < times.len() && slot_due(#[trigger] times[i], last, now);
            assert(clock_seconds(texts[i]->0)->0 == times[i]);
        }
        if exists|i: int|
            0 <= i < texts.len() && clock_seconds((#[trigger] texts[i])->0)->0 <= now as int % 86400
                < clock_seconds(texts[i]->0)->0 + 60 {
            let i = choose|i: int|
                0 <= i < texts.len() && clock_seconds((#[trigger] texts[i])->0)->0 <= now as int
                    % 86400 < clock_seconds(texts[i]->0)->0 + 60;
            assert(times[i] == clock_seconds(texts[i]->0)->0);
            if last matches Some(t) ==> t as int / 86400 < now as int / 86400 {
                assert(slot_due(times[i], last, now));
            }
        }
    }
}

/// Under a policy of a random time in a window a code is due in one minute of the day, which the
/// link and the day decide and which starts in the window, once a day.
pub proof fn law_random_times_are_kept(
    link_id: Seq<char>,
    fields: Seq<(Seq<char>, FieldView)>,
    from: Seq<char>,
    to: Seq<char>,
    last: Option<i64>,
    now: i64,
)
    requires
        member(fields, "start"@) == Some(FieldView::Text(from)),
        member(fields, "end"@) == Some(FieldView::Text(to)),
        clock_seconds(from) is Some,
        clock_seconds(to) is Some,
        sha256(
            vstd::utf8::encode_utf8(link_id + ":"@ + integer_text(now as int / 86400)),
        ).len() == 32,
    ensures
        ({
            let digest = sha256(
                vstd::utf8::encode_utf8(link_id + ":"@ + integer_text(now as int / 86400)),
            );
            let start = clock_seconds(from)->0 as int;
            let end = clock_seconds(to)->0 as int;
            let number: int = digest[0] * 0x100_0000_0000_0000 + digest[1] * 0x1_0000_0000_0000
                + digest[2] * 0x100_0000_0000 + digest[3] * 0x1_0000_0000 + digest[4] * 0x100_0000
                + digest[5] * 0x1_0000 + digest[6] * 0x100 + digest[7];
            let target: int = if end <= start {
                start
            } else {
                start + number % (end - start)
            };
            due(link_id, "random_within_window"@, Some(fields), last, now) <==> {
                &&& target <= now as int % 86400 < target + 60
                &&& last matches Some(t) ==> t as int / 86400 < now as int / 86400
            }
        }),
{
    reveal_strlit("interval_hours");
    reveal_strlit("fixed_times_daily");
    reveal_strlit("random_within_window");
    assert("interval_hours"@[0] == 'i' && "fixed_times_daily"@[0] == 'f'
        && "random_within_window"@[0] == 'r');
    let digest = sha256(
        vstd::utf8::encode_utf8(link_id + ":"@ + integer_text(now as int / 86400)),
    );
    let start = clock_seconds(from)->0;
    let end = clock_seconds(to)->0;
    lemma_eight_bytes(digest);
    assert(window_seed(link_id, integer_text(day_of(now))) == vstd::utf8::encode_utf8(
        link_id + ":"@ + integer_text(now as int / 86400),
    ));
    if end > start {
        let number = big_endian(digest.take(8));
        let span = end - start;
        assert(0 <= number % span < span) by (nonlinear_arith)
            requires
                span > 0,
        ;
        assert(start <= start + number % span < end);
    }
}

/// Eight bytes as a number, the most significant first.
proof fn lemma_eight_bytes(digest: Seq<u8>)
    requires
        digest.len() >= 8,
    ensures
        big_endian(digest.take(8)) == digest[0] * 0x100_0000_0000_0000 + digest[1]
            * 0x1_0000_0000_0000 + digest[2] * 0x100_0000_0000 + digest[3] * 0x1_0000_0000
            + digest[4] * 0x100_0000 + digest[5] * 0x1_0000 + digest[6] * 0x100 + digest[7],
{
    assert(digest.take(8).drop_last() =~= digest.take(7));
    assert(digest.take(7).drop_last() =~= digest.take(6));
    assert(digest.take(6).drop_last() =~= digest.take(5));
    assert(digest.take(5).drop_last() =~= digest.take(4));
    assert(digest.take(4).drop_last() =~= digest.take(3));
    assert(digest.take(3).drop_last() =~= digest.take(2));
    assert(digest.take(2).drop_last() =~= digest.take(1));
    assert(digest.take(1).drop_last() =~= Seq::<u8>::empty());
    reveal_with_fuel(big_endian, 9);
}

/// A policy that is for demand only allows it; any other does exactly where its value says so.
pub proof fn law_demand_needs_leave(
    frequency_kind: Seq<char>,
    fields: Option<Seq<(Seq<char>, FieldView)>>,
)
    ensures
        on_demand_allowed("on_demand_only"@, fields),
        frequency_kind != "on_demand_only"@ ==> (on_demand_allowed(frequency_kind, fields) <==> (
        fields is Some && member(fields->0, "allow_on_demand"@) == Some(FieldView::Bool(true)))),
{
}

/// A code is given on demand exactly where the link has none to show and its policy allows it; it
/// can be shown for as long as the policy says from now on, belongs to the link, and is not
/// consumed. A refused request leaves the ledger alone, and says which it was.
pub proof fn law_demand_is_answered(
    db: LedgerView,
    policy: PolicyView,
    allowed: bool,
    id: Seq<char>,
    code: Seq<char>,
    now: i64,
)
    ensures
        ({
            let has_one = any_row(
                db.codes,
                |c: CodeView|
                    c.link_id == policy.link_id && c.consumed_at is None && c.expires_at > now,
            );
            match requested(db, policy, allowed, id, code, now) {
                Ok((after, row)) => {
                    &&& !has_one && allowed
                    &&& after == (LedgerView { codes: db.codes.push(row), ..db })
                    &&& row.id == id && row.link_id == policy.link_id && row.code == code
                    &&& row.issued_at == now
                    &&& row.expires_at == now + policy.code_ttl_seconds
                    &&& row.consumed_at is None && row.consumed_by_submission_id is None
                },
                Err(RequestError::AlreadyHaveOne) => has_one,
                Err(RequestError::NotAllowed) => !has_one && !allowed,
                Err(RequestError::Db(_)) => !has_one && allowed && !(i64::MIN <= now
                    + policy.code_ttl_seconds <= i64::MAX),
            }
        }),
{
    lemma_any_same(
        db.codes,
        |c: CodeView|
            c.link_id == policy.link_id && c.consumed_at is None && c.expires_at > now,
        live(policy.link_id, now),
    );
}

/// A code redeems on its own link, while it is not consumed and its expiry lies no further back
/// than the grace period; that period is added to the expiry, never taken from it.
pub proof fn law_codes_redeem_in_time(
    codes: Seq<CodeView>,
    code_id: Seq<char>,
    link_id: Seq<char>,
    grace: i64,
    now: i64,
    i: int,
)
    requires
        only(codes, i, |c: CodeView| c.id == code_id),
    ensures
        ({
            let c = codes[i];
            let found = find_row(codes, redeemable(code_id, link_id, grace, now));
            if c.link_id == link_id && c.consumed_at is None && c.expires_at + grace > now {
                found == Some(c)
            } else {
                found is None
            }
        }),
{
    let named = |c: CodeView| c.id == code_id;
    let q = redeemable(code_id, link_id, grace, now);
    let c = codes[i];
    assert forall|j: int| 0 <= j < codes.len() && j != i implies !q(#[trigger] codes[j]) by {
        assert(!named(codes[j]));
    }
    if c.link_id == link_id && c.consumed_at is None && c.expires_at + grace > now {
        lemma_find_only(codes, i, q, q);
    } else {
        lemma_find_any(codes, q);
    }
}

/// Consuming a code says when and by what, and touches no other.
pub proof fn law_consuming_says_by_what(
    codes: Seq<CodeView>,
    code_id: Seq<char>,
    submission_id: Seq<char>,
    now: i64,
    i: int,
)
    requires
        0 <= i < codes.len(),
    ensures
        ({
            let after = updated(codes, by_id(code_id), consumed(submission_id, now));
            &&& after.len() == codes.len()
            &&& codes[i].id == code_id ==> after[i] == (CodeView {
                consumed_at: Some(now),
                consumed_by_submission_id: Some(submission_id),
                ..codes[i]
            })
            &&& codes[i].id != code_id ==> after[i] == codes[i]
        }),
{
}

/// What is shown as the current code is one of the link, not consumed and not expired, and no such
/// code is newer; nothing is shown where there is none.
pub proof fn law_the_newest_live_code_is_shown(
    codes: Seq<CodeView>,
    link_id: Seq<char>,
    now: i64,
    shown: Option<CodeView>,
)
    requires
        newest(codes.filter(live(link_id, now)), shown),
    ensures
        match shown {
            Some(c) => {
                &&& codes.contains(c)
                &&& c.link_id == link_id && c.consumed_at is None && c.expires_at > now
                &&& forall|i: int|
                    0 <= i < codes.len() && (#[trigger] codes[i]).link_id == link_id
                        && codes[i].consumed_at is None && codes[i].expires_at > now
                        ==> codes[i].issued_at <= c.issued_at
            },
            None => forall|i: int|
                0 <= i < codes.len() ==> !((#[trigger] codes[i]).link_id == link_id
                    && codes[i].consumed_at is None && codes[i].expires_at > now),
        },
{
    let p = live(link_id, now);
    let f = codes.filter(p);
    if let Some(c) = shown {
        lemma_filter_contains(codes, p, c);
    }
    assert forall|i: int| 0 <= i < codes.len() && p(#[trigger] codes[i]) implies f.contains(
        codes[i],
    ) by {
        lemma_filter_contains(codes, p, codes[i]);
    }
    assert forall|i: int| 0 <= i < codes.len() && p(#[trigger] codes[i]) implies (
    shown matches Some(c) && codes[i].issued_at <= c.issued_at) by {
        let k = choose|k: int| 0 <= k < f.len() && f[k] == codes[i];
        assert(f[k] == codes[i]);
    }
}

/// A link was last issued a code when its newest one was: none of its codes is newer. One issued at
/// the epoch counts as none.
pub proof fn law_the_last_issue_is_the_newest(codes: Seq<CodeView>, link_id: Seq<char>, i: int)
    requires
        0 <= i < codes.len(),
        codes[i].link_id == link_id,
    ensures
        match last_issued(codes, link_id) {
            Some(t) => codes[i].issued_at <= t && t != 0 && exists|j: int|
                0 <= j < codes.len() && (#[trigger] codes[j]).link_id == link_id
                    && codes[j].issued_at == t,
            None => codes[i].issued_at <= 0,
        },
{
    let p = of_link(link_id);
    let f = codes.filter(p);
    lemma_filter_contains(codes, p, codes[i]);
    lemma_last_issue(f);
    let k = choose|k: int| 0 <= k < f.len() && f[k] == codes[i];
    assert(f[k].issued_at <= last_issue(f)->0);
    let m = choose|m: int| 0 <= m < f.len() && (#[trigger] f[m]).issued_at == last_issue(f)->0;
    assert(f.contains(f[m]));
    lemma_filter_contains(codes, p, f[m]);
    let j = choose|j: int| 0 <= j < codes.len() && codes[j] == f[m];
    assert(codes[j].link_id == link_id);
}

proof fn lemma_last_issue(codes: Seq<CodeView>)
    ensures
        codes.len() > 0 ==> last_issue(codes) is Some,
        last_issue(codes) matches Some(t) ==> (forall|i: int|
            0 <= i < codes.len() ==> (#[trigger] codes[i]).issued_at <= t) && (exists|i: int|
            0 <= i < codes.len() && (#[trigger] codes[i]).issued_at == t),
    decreases codes.len(),
{
    if codes.len() > 0 {
        let rest = codes.drop_last();
        lemma_last_issue(rest);
        assert(codes[codes.len() - 1] == codes.last());
        assert forall|i: int| 0 <= i < codes.len() implies (#[trigger] codes[i]).issued_at
            <= last_issue(codes)->0 by {
            if i < rest.len() {
                assert(rest[i] == codes[i]);
            }
        }
        if let Some(t) = last_issue(rest) {
            let k = choose|k: int| 0 <= k < rest.len() && (#[trigger] rest[k]).issued_at == t;
            assert(codes[k] == rest[k]);
        }
    }
}

/// A tick issues a code to a link where its policy makes one due, measured from its last, and it has
/// none to show; and to no other.
pub proof fn law_ticks_go_by_the_policy(db: LedgerView, link_id: Seq<char>, now: i64, n: int)
    requires
        only(db.policies, n, |p: policy::PolicyRowView| p.policy.link_id == link_id),
    ensures
        ({
            let policy = db.policies[n].policy;
            let has_one = any_row(
                db.codes,
                |c: CodeView| c.link_id == link_id && c.consumed_at is None && c.expires_at > now,
            );
            due_policy(db, link_id, now) == (if !has_one && due(
                link_id,
                policy.frequency_kind,
                object_fields(policy.frequency_value),
                last_issued(db.codes, link_id),
                now,
            ) {
                Some(policy)
            } else {
                None
            })
        }),
{
    lemma_find_only(
        db.policies,
        n,
        |p: policy::PolicyRowView| p.policy.link_id == link_id,
        policy::for_link(link_id),
    );
    lemma_any_same(
        db.codes,
        |c: CodeView| c.link_id == link_id && c.consumed_at is None && c.expires_at > now,
        live(link_id, now),
    );
}

/// What a tick issues belongs to the link it is for, and can be shown for as long as its policy says
/// from now on.
pub proof fn law_issued_codes_live_as_long_as_the_policy_says(
    db: LedgerView,
    link_id: Seq<char>,
    ttl_seconds: i64,
    id: Seq<char>,
    code: Seq<char>,
    now: i64,
)
    ensures
        match issued(db, link_id, ttl_seconds, id, code, now) {
            Ok((after, row)) => {
                &&& after == (LedgerView { codes: db.codes.push(row), ..db })
                &&& row.id == id && row.link_id == link_id && row.code == code
                &&& row.issued_at == now && row.expires_at == now + ttl_seconds
                &&& row.consumed_at is None && row.consumed_by_submission_id is None
            },
            Err(_) => !(i64::MIN <= now + ttl_seconds <= i64::MAX),
        },
{
}

/// A code has seven characters, none of which can be taken for another: no zero and no one, no
/// letter O and no letter I.
pub proof fn law_codes_are_plain(s: Seq<char>)
    requires
        is_code(s),
    ensures
        s.len() == 7,
        !s.contains('0') && !s.contains('1') && !s.contains('O') && !s.contains('I'),
        forall|i: int|
            0 <= i < s.len() ==> '2' <= #[trigger] s[i] <= '9' || 'A' <= s[i] <= 'Z',
{
    reveal_strlit("23456789ABCDEFGHJKLMNPQRSTUVWXYZ");
    assert forall|i: int| 0 <= i < s.len() implies (('2' <= #[trigger] s[i] <= '9' || 'A' <= s[i]
        <= 'Z') && s[i] != 'O' && s[i] != 'I') by {
        assert(CODE_ALPHABET@.contains(s[i]));
    }
}

/// Each character of a code is picked by two bytes, by their sum, from all thirty-two; a last byte
/// without a second picks alone. There are seven characters, or as many as the bytes make.
pub proof fn law_codes_are_picked_by_pairs(entropy: Seq<u8>, i: int)
    ensures
        ({
            let n = code_text(entropy).len();
            &&& n <= 7
            &&& entropy.len() >= 13 ==> n == 7
            &&& entropy.len() < 13 ==> 2 * n == entropy.len() || 2 * n == entropy.len() + 1
            &&& 0 <= i < n ==> code_text(entropy)[i] == "23456789ABCDEFGHJKLMNPQRSTUVWXYZ"@[(
            entropy[2 * i] as int + (if 2 * i + 1 == entropy.len() {
                0int
            } else {
                entropy[2 * i + 1] as int
            })) % 32]
        }),
{
}

/// A history holds every code of the link and no other, the latest issue first.
pub proof fn law_code_history_is_whole(found: Seq<CodeView>, codes: Seq<CodeView>, link_id: Seq<char>)
    requires
        ordered_from(found, codes.filter(of_link(link_id)), newest_first()),
    ensures
        forall|c: CodeView| #[trigger]
            found.contains(c) <==> codes.contains(c) && c.link_id == link_id,
        forall|i: int, j: int|
            0 <= i < j < found.len() ==> (#[trigger] found[i]).issued_at >= (
            #[trigger] found[j]).issued_at,
        forall|i: int|
            0 <= i < found.len() ==> {
                let h = #[trigger] found.map_values(shown())[i];
                h.id == found[i].id && h.code == found[i].code && h.issued_at == found[i].issued_at
                    && h.expires_at == found[i].expires_at && h.consumed_at == found[i].consumed_at
            },
{
    lemma_listed(found, codes, of_link(link_id), newest_first());
}

/// A code for one link changes nothing for another.
proof fn lemma_other_links_code(db: LedgerView, row: CodeView, link_id: Seq<char>, now: i64)
    requires
        row.link_id != link_id,
    ensures
        ({
            let after = LedgerView { codes: db.codes.push(row), ..db };
            &&& due_policy(after, link_id, now) == due_policy(db, link_id, now)
            &&& after.codes.filter(of_link(link_id)) == db.codes.filter(of_link(link_id))
        }),
{
    lemma_filter_push(db.codes, row, of_link(link_id));
    let p = live(link_id, now);
    let more = db.codes.push(row);
    if any_row(more, p) {
        let i = choose|i: int| 0 <= i < more.len() && p(#[trigger] more[i]);
        assert(p(db.codes[i]));
    }
    if any_row(db.codes, p) {
        let i = choose|i: int| 0 <= i < db.codes.len() && p(#[trigger] db.codes[i]);
        assert(p(more[i]));
    }
}

/// What a tick does for one of its links, as it goes through them.
proof fn lemma_ticked_link(
    db: LedgerView,
    link_ids: Seq<Seq<char>>,
    fresh: Seq<(Seq<char>, Seq<char>)>,
    n: nat,
    i: int,
    now: i64,
)
    requires
        link_ids.no_duplicates(),
        0 <= i < link_ids.len(),
        n <= link_ids.len(),
        ticked(db, link_ids, fresh, n, now).stopped is None,
    ensures
        ({
            let link_id = link_ids[i];
            let after = ticked(db, link_ids, fresh, n, now).db;
            let old = db.codes.filter(of_link(link_id));
            let new = after.codes.filter(of_link(link_id));
            &&& n <= i ==> due_policy(after, link_id, now) == due_policy(db, link_id, now)
            &&& n <= i || due_policy(db, link_id, now) is None ==> new == old
            &&& n > i && due_policy(db, link_id, now) is Some ==> new.len() == old.len() + 1
                && new.drop_last() == old && is_issue(
                new.last(),
                link_id,
                fresh[i],
                due_policy(db, link_id, now)->0.code_ttl_seconds,
                now,
            )
        }),
    decreases n,
{
    if n > 0 {
        let before = ticked(db, link_ids, fresh, (n - 1) as nat, now);
        lemma_ticked_link(db, link_ids, fresh, (n - 1) as nat, i, now);
        let here = link_ids[n - 1];
        if let Some(p) = due_policy(before.db, here, now) {
            let (after, row) = issued(
                before.db,
                here,
                p.code_ttl_seconds,
                fresh[n - 1].0,
                fresh[n - 1].1,
                now,
            )->Ok_0;
            if n - 1 == i {
                lemma_filter_push(before.db.codes, row, of_link(here));
                let old = db.codes.filter(of_link(here));
                assert(old.push(row).drop_last() =~= old);
            } else {
                lemma_other_links_code(before.db, row, link_ids[i], now);
            }
        }
    }
}

/// A code as a tick issues it.
pub open spec fn is_issue(
    c: CodeView,
    link_id: Seq<char>,
    fresh: (Seq<char>, Seq<char>),
    ttl_seconds: i64,
    now: i64,
) -> bool {
    &&& c.id == fresh.0 && c.code == fresh.1 && c.link_id == link_id
    &&& c.issued_at == now && c.expires_at == now + ttl_seconds
    &&& c.consumed_at is None && c.consumed_by_submission_id is None
}

/// A tick that is not stopped issues one code to each of its links that is due one, with the lifetime
/// of the link's policy, and none to any other of them.
pub proof fn law_a_tick_issues_to_every_link_that_is_due(
    db: LedgerView,
    fresh: Seq<(Seq<char>, Seq<char>)>,
    now: i64,
    i: int,
)
    requires
        links::ids_where(db.links, links::overseen()).no_duplicates(),
        0 <= i < links::ids_where(db.links, links::overseen()).len(),
        whole_tick(db, fresh, now).stopped is None,
    ensures
        ({
            let link_id = links::ids_where(db.links, links::overseen())[i];
            let mine = |c: CodeView| c.link_id == link_id;
            let old = db.codes.filter(mine);
            let new = whole_tick(db, fresh, now).db.codes.filter(mine);
            match due_policy(db, link_id, now) {
                None => new == old,
                Some(p) => new.len() == old.len() + 1 && new.drop_last() == old && is_issue(
                    new.last(),
                    link_id,
                    fresh[i],
                    p.code_ttl_seconds,
                    now,
                ),
            }
        }),
{
    let link_ids = links::ids_where(db.links, links::overseen());
    let link_id = link_ids[i];
    lemma_ticked_link(db, link_ids, fresh, link_ids.len(), i, now);
    assert((|c: CodeView| c.link_id == link_id) =~= of_link(link_id));
}

/// A tick goes to the links that are active and whose oversight is not paused, and to no others.
pub proof fn law_ticks_go_to_active_links(links: Seq<links::LinkView>, id: Seq<char>)
    ensures
        links::ids_where(links, links::overseen()).contains(id) == any_row(
            links,
            |l: links::LinkView|
                l.id == id && l.status == "active"@ && l.oversight_paused_at is None,
        ),
{
    let p = links::overseen();
    links::lemma_ids_where(links, p, id);
    lemma_any_same(
        links,
        |l: links::LinkView| l.id == id && l.status == "active"@ && l.oversight_paused_at is None,
        |l: links::LinkView| p(l) && l.id == id,
    );
}

} // verus!
