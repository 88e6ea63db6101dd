//! Push subscriptions, and the identity by which the server pushes.

use vstd::prelude::*;

use crate::ids::{is_id, new_id};
use crate::ledger::{Ledger, LedgerView};
use crate::table::{
    any_row, distinct, find, find_row, insert, lemma_any_same, lemma_filter_contains,
    lemma_filter_rules_out, lemma_find_any, lemma_find_only, lemma_find_push, lemma_find_updated,
    lemma_listed, only, order, ordered_from, remove, rows, select, update, updated, Row,
};
use crate::text::{dup_opt, own, own_opt, same};

verus! {

/// The server's push identity.
#[derive(Debug, PartialEq, Eq)]
pub struct VapidKeys {
    /// URL-safe base64 of the private key, without padding.
    pub private_key_b64: String,
    /// URL-safe base64 of the uncompressed public point, without padding.
    pub public_key_b64: String,
}

/// What a `VapidKeys` holds.
#[verifier::ext_equal]
pub struct VapidKeysView {
    pub private_key_b64: Seq<char>,
    pub public_key_b64: Seq<char>,
}

impl View for VapidKeys {
    type V = VapidKeysView;

    open spec fn view(&self) -> VapidKeysView {
        VapidKeysView {
            private_key_b64: self.private_key_b64@,
            public_key_b64: self.public_key_b64@,
        }
    }
}

impl DeepView for VapidKeys {
    type V = VapidKeysView;

    open spec fn deep_view(&self) -> VapidKeysView {
        self.view()
    }
}

impl Row for VapidKeys {
    fn dup(&self) -> (r: Self) {
        VapidKeys {
            private_key_b64: self.private_key_b64.clone(),
            public_key_b64: self.public_key_b64.clone(),
        }
    }
}

/// A push subscription.
#[derive(Debug, PartialEq, Eq)]
pub struct Subscription {
    pub id: String,
    pub user_id: String,
    pub endpoint: String,
    pub p256dh_key: String,
    pub auth_key: String,
    pub user_agent: Option<String>,
    pub created_at: i64,
    pub last_seen_at: Option<i64>,
    pub disabled_at: Option<i64>,
}

/// What a `Subscription` holds.
#[verifier::ext_equal]
pub struct SubscriptionView {
    pub id: Seq<char>,
    pub user_id: Seq<char>,
    pub endpoint: Seq<char>,
    pub p256dh_key: Seq<char>,
    pub auth_key: Seq<char>,
    pub user_agent: Option<Seq<char>>,
    pub created_at: i64,
    pub last_seen_at: Option<i64>,
    pub disabled_at: Option<i64>,
}

impl View for Subscription {
    type V = SubscriptionView;

    open spec fn view(&self) -> SubscriptionView {
        SubscriptionView {
            id: self.id@,
            user_id: self.user_id@,
            endpoint: self.endpoint@,
            p256dh_key: self.p256dh_key@,
            auth_key: self.auth_key@,
            user_agent: self.user_agent.deep_view(),
            created_at: self.created_at,
            last_seen_at: self.last_seen_at,
            disabled_at: self.disabled_at,
        }
    }
}

impl DeepView for Subscription {
    type V = SubscriptionView;

    open spec fn deep_view(&self) -> SubscriptionView {
        self.view()
    }
}

impl Row for Subscription {
    fn dup(&self) -> (r: Self) {
        Subscription {
            id: self.id.clone(),
            user_id: self.user_id.clone(),
            endpoint: self.endpoint.clone(),
            p256dh_key: self.p256dh_key.clone(),
            auth_key: self.auth_key.clone(),
            user_agent: dup_opt(&self.user_agent),
            created_at: self.created_at,
            last_seen_at: self.last_seen_at,
            disabled_at: self.disabled_at,
        }
    }
}

/// The uncompressed public point that belongs to a private key.
pub uninterp spec fn public_point(private_key: Seq<u8>) -> Seq<u8>;

/// A fresh key pair: `jwt_simple`'s `ES256KeyPair::generate`, the private key by `to_bytes` and the
/// uncompressed public point by `to_bytes_uncompressed`. The private key is random, and decides
/// the public point alone; what is claimed is this, and how many bytes each has.
#[verifier::external_body]
fn new_key_pair() -> (r: (Vec<u8>, Vec<u8>))
    ensures
        r.0@.len() == 32,
        r.1@.len() == 65,
        r.1@ == public_point(r.0@),
{
    let pair = jwt_simple::algorithms::ES256KeyPair::generate();
    let public_key = pair.public_key();
    let point = jwt_simple::algorithms::ECDSAP256PublicKeyLike::public_key(&public_key);
    (pair.to_bytes(), point.to_bytes_uncompressed())
}

/// The characters of URL-safe base64, each standing for its place.
pub const URL_SAFE_ALPHABET: &'static str =
    "ABCDEFGHIJKLMNOPQRSTUVWXYZabcdefghijklmnopqrstuvwxyz0123456789-_";

/// A byte of a sequence; beyond its end there are zeros.
pub open spec fn byte_at(bytes: Seq<u8>, k: int) -> int {
    if 0 <= k < bytes.len() {
        bytes[k] as int
    } else {
        0
    }
}

/// The `i`th six bits of some bytes, as a number, the most significant bit first.
pub open spec fn six_bits(bytes: Seq<u8>, i: int) -> int {
    let k = 3 * i / 4;
    let pair = byte_at(bytes, k) * 256 + byte_at(bytes, k + 1);
    let below: int = if i % 4 == 0 {
        1024
    } else if i % 4 == 1 {
        16
    } else if i % 4 == 2 {
        64
    } else {
        256
    };
    pair / below % 64
}

/// The URL-safe base64 of some bytes, without padding: a character for every six bits, as many as
/// it takes to hold them all.
pub open spec fn base64_text(bytes: Seq<u8>) -> Seq<char> {
    Seq::new((4 * bytes.len() + 2) / 3, |i: int| URL_SAFE_ALPHABET@[six_bits(bytes, i)])
}

/// Encodes bytes: `base64`'s `URL_SAFE_NO_PAD` engine, whose text is stated whole. An input so long
/// that its encoded length leaves the range of `usize` is left out.
#[verifier::external_body]
fn base64_url_no_pad_encode(bytes: &[u8]) -> (r: String)
    requires
        bytes@.len() <= 0x1000_0000,
    ensures
        r@ == base64_text(bytes@),
{
    base64::Engine::encode(&base64::engine::general_purpose::URL_SAFE_NO_PAD, bytes)
}

/// Any identity: there is at most one.
pub open spec fn any_keys() -> spec_fn(VapidKeysView) -> bool {
    |k: VapidKeysView| true
}

/// The identity made of a key pair.
pub open spec fn identity(private_key: Seq<u8>, public_key: Seq<u8>) -> VapidKeysView {
    VapidKeysView {
        private_key_b64: base64_text(private_key),
        public_key_b64: base64_text(public_key),
    }
}

/// The ledger after the identity was asked for, and the identity: the one that stands, or else the
/// one made of a fresh key pair.
pub open spec fn identified(
    db: LedgerView,
    private_key: Seq<u8>,
    public_key: Seq<u8>,
) -> (LedgerView, VapidKeysView) {
    match find_row(db.vapid_keys, any_keys()) {
        Some(k) => (db, k),
        None => (
            LedgerView { vapid_keys: db.vapid_keys.push(identity(private_key, public_key)), ..db },
            identity(private_key, public_key),
        ),
    }
}

/// The identity, made of this key pair where there is none yet.
pub fn get_or_create_vapid_keys_from(db: &mut Ledger, private_key: &[u8], public_key: &[u8]) -> (r:
    VapidKeys)
    requires
        private_key@.len() <= 0x1000_0000,
        public_key@.len() <= 0x1000_0000,
    ensures
        (final(db)@, r@) == identified(old(db)@, private_key@, public_key@),
{
    let ghost p = any_keys();
    let test = |k: &VapidKeys| -> (b: bool)
        ensures
            b == p(k@),
        { true };
    if let Some(k) = find(&db.vapid_keys, Ghost(p), test) {
        return k.dup();
    }
    let keys = VapidKeys {
        private_key_b64: base64_url_no_pad_encode(private_key),
        public_key_b64: base64_url_no_pad_encode(public_key),
    };
    insert(&mut db.vapid_keys, keys.dup());
    keys
}

/// The identity, made on first use and the same ever after.
pub fn get_or_create_vapid_keys(db: &mut Ledger) -> (r: VapidKeys)
    ensures
        exists|private_key: Seq<u8>|
            private_key.len() == 32 && public_point(private_key).len() == 65 && (final(db)@, r@)
                == #[trigger] identified(old(db)@, private_key, public_point(private_key)),
{
    let (private_key, public_key) = new_key_pair();
    get_or_create_vapid_keys_from(db, private_key.as_slice(), public_key.as_slice())
}

/// The subscription has this endpoint.
pub open spec fn by_endpoint(endpoint: Seq<char>) -> spec_fn(SubscriptionView) -> bool {
    |s: SubscriptionView| s.endpoint == endpoint
}

/// The subscription has this id.
pub open spec fn by_id(id: Seq<char>) -> spec_fn(SubscriptionView) -> bool {
    |s: SubscriptionView| s.id == id
}

/// Registered again.
pub open spec fn renewed(
    user_id: Seq<char>,
    p256dh_key: Seq<char>,
    auth_key: Seq<char>,
    user_agent: Option<Seq<char>>,
    now: i64,
) -> spec_fn(SubscriptionView) -> SubscriptionView {
    |s: SubscriptionView|
        SubscriptionView {
            user_id,
            p256dh_key,
            auth_key,
            user_agent,
            last_seen_at: Some(now),
            disabled_at: None,
            ..s
        }
}

/// The ledger after a registration, and the id of the subscription: one that stands for the
/// endpoint is renewed, and there is never a second.
pub open spec fn registered(
    db: LedgerView,
    id: Seq<char>,
    user_id: Seq<char>,
    endpoint: Seq<char>,
    p256dh_key: Seq<char>,
    auth_key: Seq<char>,
    user_agent: Option<Seq<char>>,
    now: i64,
) -> (LedgerView, Seq<char>) {
    match find_row(db.subscriptions, by_endpoint(endpoint)) {
        Some(s) => (
            LedgerView {
                subscriptions: updated(
                    db.subscriptions,
                    by_id(s.id),
                    renewed(user_id, p256dh_key, auth_key, user_agent, now),
                ),
                ..db
            },
            s.id,
        ),
        None => (
            LedgerView {
                subscriptions: db.subscriptions.push(
                    SubscriptionView {
                        id,
                        user_id,
                        endpoint,
                        p256dh_key,
                        auth_key,
                        user_agent,
                        created_at: now,
                        last_seen_at: None,
                        disabled_at: None,
                    },
                ),
                ..db
            },
            id,
        ),
    }
}

/// Registers a subscription; its id.
pub fn register(
    db: &mut Ledger,
    user_id: &str,
    endpoint: &str,
    p256dh_key: &str,
    auth_key: &str,
    user_agent: Option<&str>,
    now: i64,
) -> (r: String)
    ensures
        exists|id: Seq<char>|
            is_id(id) && (final(db)@, r@) == #[trigger] registered(
                old(db)@,
                id,
                user_id@,
                endpoint@,
                p256dh_key@,
                auth_key@,
                user_agent.deep_view(),
                now,
            ),
{
    let id = new_id();
    let ghost outcome = registered(
        db@,
        id@,
        user_id@,
        endpoint@,
        p256dh_key@,
        auth_key@,
        user_agent.deep_view(),
        now,
    );
    let ghost q = by_endpoint(endpoint@);
    let test = |s: &Subscription| -> (b: bool)
        ensures
            b == q(s@),
        { same(s.endpoint.as_str(), endpoint) };
    let standing: Option<String> = match find(&db.subscriptions, Ghost(q), test) {
        Some(s) => Some(s.id.clone()),
        None => None,
    };
    if let Some(standing) = standing {
        let ghost p = by_id(standing@);
        let ghost u = renewed(user_id@, p256dh_key@, auth_key@, user_agent.deep_view(), now);
        let change = |s: &Subscription| -> (n: Option<Subscription>)
            ensures
                match n {
                    Some(x) => p(s@) && x@ == u(s@),
                    None => !p(s@),
                },
            {
                if same(s.id.as_str(), standing.as_str()) {
                    let mut n = s.dup();
                    n.user_id = own(user_id);
                    n.p256dh_key = own(p256dh_key);
                    n.auth_key = own(auth_key);
                    n.user_agent = own_opt(user_agent);
                    n.last_seen_at = Some(now);
                    n.disabled_at = None;

                    Some(n)
                } else {
                    None
                }
            };
        update(&mut db.subscriptions, Ghost(p), Ghost(u), change);
        assert((db@, standing@) == outcome);
        return standing;
    }
    insert(
        &mut db.subscriptions,
        Subscription {
            id: id.clone(),
            user_id: own(user_id),
            endpoint: own(endpoint),
            p256dh_key: own(p256dh_key),
            auth_key: own(auth_key),
            user_agent: own_opt(user_agent),
            created_at: now,
            last_seen_at: None,
            disabled_at: None,
        },
    );
    assert((db@, id@) == outcome);
    id
}

/// A live subscription of this user.
pub open spec fn live(user_id: Seq<char>) -> spec_fn(SubscriptionView) -> bool {
    |s: SubscriptionView| s.user_id == user_id && s.disabled_at is None
}

/// Newest first.
pub open spec fn newest_first() -> spec_fn(SubscriptionView, SubscriptionView) -> bool {
    |a: SubscriptionView, b: SubscriptionView| a.created_at >= b.created_at
}

/// A user's live subscriptions, newest first.
pub fn list_for_user(db: &Ledger, user_id: &str) -> (r: Vec<Subscription>)
    ensures
        ordered_from(rows(r@), db@.subscriptions.filter(live(user_id@)), newest_first()),
{
    let ghost p = live(user_id@);
    let ghost le = newest_first();
    let test = |s: &Subscription| -> (b: bool)
        ensures
            b == p(s@),
        { same(s.user_id.as_str(), user_id) && s.disabled_at.is_none() };
    let before = |a: &Subscription, b: &Subscription| -> (c: bool)
        ensures
            c == le(a@, b@),
        { a.created_at >= b.created_at };
    order(select(&db.subscriptions, Ghost(p), test), Ghost(le), before)
}

/// The subscriptions that a push to a user goes out to.
pub fn list_active_for_user(db: &Ledger, user_id: &str) -> (r: Vec<Subscription>)
    ensures
        ordered_from(rows(r@), db@.subscriptions.filter(live(user_id@)), newest_first()),
{
    list_for_user(db, user_id)
}

/// This user's subscription with this id.
pub open spec fn owned(id: Seq<char>, user_id: Seq<char>) -> spec_fn(SubscriptionView) -> bool {
    |s: SubscriptionView| s.id == id && s.user_id == user_id
}

/// Deletes a subscription; `false` where it is not this user's.
pub fn delete(db: &mut Ledger, id: &str, user_id: &str) -> (r: bool)
    ensures
        r == any_row(old(db)@.subscriptions, owned(id@, user_id@)),
        final(db)@ == (LedgerView {
            subscriptions: old(db)@.subscriptions.filter(
                |s: SubscriptionView| !owned(id@, user_id@)(s),
            ),
            ..old(db)@
        }),
{
    let ghost p = owned(id@, user_id@);
    let test = |s: &Subscription| -> (b: bool)
        ensures
            b == p(s@),
        { same(s.id.as_str(), id) && same(s.user_id.as_str(), user_id) };
    remove(&mut db.subscriptions, Ghost(p), test)
}

/// Deletes whatever stands for an endpoint that is gone.
pub fn remove_by_endpoint(db: &mut Ledger, endpoint: &str)
    ensures
        final(db)@ == (LedgerView {
            subscriptions: old(db)@.subscriptions.filter(
                |s: SubscriptionView| !by_endpoint(endpoint@)(s),
            ),
            ..old(db)@
        }),
{
    let ghost p = by_endpoint(endpoint@);
    let test = |s: &Subscription| -> (b: bool)
        ensures
            b == p(s@),
        { same(s.endpoint.as_str(), endpoint) };
    remove(&mut db.subscriptions, Ghost(p), test);
}

/// Seen now.
pub open spec fn seen(now: i64) -> spec_fn(SubscriptionView) -> SubscriptionView {
    |s: SubscriptionView| SubscriptionView { last_seen_at: Some(now), ..s }
}

/// Notes that a subscription was seen.
pub fn touch_last_seen(db: &mut Ledger, id: &str, now: i64)
    ensures
        final(db)@ == (LedgerView {
            subscriptions: updated(old(db)@.subscriptions, by_id(id@), seen(now)),
            ..old(db)@
        }),
{
    let ghost p = by_id(id@);
    let ghost u = seen(now);
    let change = |s: &Subscription| -> (n: Option<Subscription>)
        ensures
            match n {
                Some(x) => p(s@) && x@ == u(s@),
                None => !p(s@),
            },
        {
            if same(s.id.as_str(), id) {
                let mut n = s.dup();
                n.last_seen_at = Some(now);

                Some(n)
            } else {
                None
            }
        };
    update(&mut db.subscriptions, Ghost(p), Ghost(u), change);
}

/// Registering an endpoint again renews the one subscription that stands for it.
pub proof fn law_registering_is_idempotent(
    db: LedgerView,
    id: Seq<char>,
    again: Seq<char>,
    user_id: Seq<char>,
    endpoint: Seq<char>,
    p256dh_key: Seq<char>,
    auth_key: Seq<char>,
    user_agent: Option<Seq<char>>,
    now: i64,
    later: i64,
)
    ensures
        ({
            let (once, first) = registered(
                db,
                id,
                user_id,
                endpoint,
                p256dh_key,
                auth_key,
                user_agent,
                now,
            );
            let (twice, second) = registered(
                once,
                again,
                user_id,
                endpoint,
                p256dh_key,
                auth_key,
                user_agent,
                later,
            );
            second == first && twice.subscriptions.len() == once.subscriptions.len()
        }),
{
    let q = by_endpoint(endpoint);
    match find_row(db.subscriptions, q) {
        Some(s) => {
            lemma_find_updated(
                db.subscriptions,
                q,
                by_id(s.id),
                renewed(user_id, p256dh_key, auth_key, user_agent, now),
            );
        },
        None => {
            let row = SubscriptionView {
                id,
                user_id,
                endpoint,
                p256dh_key,
                auth_key,
                user_agent,
                created_at: now,
                last_seen_at: None,
                disabled_at: None,
            };
            lemma_find_push(db.subscriptions, row, q);
        },
    }
}

/// No two subscriptions share an endpoint.
pub open spec fn endpoints_distinct(db: LedgerView) -> bool {
    distinct(db.subscriptions, |s: SubscriptionView| s.endpoint)
}

/// Registering keeps endpoints distinct.
pub proof fn law_endpoints_stay_distinct(
    db: LedgerView,
    id: Seq<char>,
    user_id: Seq<char>,
    endpoint: Seq<char>,
    p256dh_key: Seq<char>,
    auth_key: Seq<char>,
    user_agent: Option<Seq<char>>,
    now: i64,
)
    requires
        endpoints_distinct(db),
    ensures
        endpoints_distinct(
            registered(db, id, user_id, endpoint, p256dh_key, auth_key, user_agent, now).0,
        ),
{
    let q = by_endpoint(endpoint);
    lemma_find_any(db.subscriptions, q);
    if find_row(db.subscriptions, q) is None {
        assert forall|i: int| 0 <= i < db.subscriptions.len() implies (
        #[trigger] db.subscriptions[i]).endpoint != endpoint by {
            assert(!q(db.subscriptions[i]));
        }
    }
}

/// The identity is made once: asked for again, it is the same, whatever fresh keys are at hand.
pub proof fn law_identity_is_stable(
    db: LedgerView,
    first: (Seq<u8>, Seq<u8>),
    second: (Seq<u8>, Seq<u8>),
)
    ensures
        identified(identified(db, first.0, first.1).0, second.0, second.1) == identified(
            db,
            first.0,
            first.1,
        ),
{
    let made = identity(first.0, first.1);
    lemma_find_push(db.vapid_keys, made, any_keys());
}

/// A fresh identity is there to be read: its two texts have the lengths of a private key and of a
/// public point.
pub proof fn law_fresh_identity_is_whole(db: LedgerView, private_key: Seq<u8>, public_key: Seq<u8>)
    requires
        db.vapid_keys.len() == 0,
        private_key.len() == 32,
        public_key.len() == 65,
    ensures
        identified(db, private_key, public_key).1.private_key_b64.len() == 43,
        identified(db, private_key, public_key).1.public_key_b64.len() == 87,
        identified(db, private_key, public_key).0.vapid_keys == seq![
            identity(private_key, public_key),
        ],
{
    assert(db.vapid_keys.push(identity(private_key, public_key)) =~= seq![
        identity(private_key, public_key),
    ]);
}

/// An endpoint that was removed has no subscription left.
pub proof fn law_removed_endpoint_is_gone(subscriptions: Seq<SubscriptionView>, endpoint: Seq<char>)
    ensures
        !any_row(
            subscriptions.filter(|s: SubscriptionView| !by_endpoint(endpoint)(s)),
            by_endpoint(endpoint),
        ),
{
    lemma_filter_rules_out(
        subscriptions,
        |s: SubscriptionView| !by_endpoint(endpoint)(s),
        by_endpoint(endpoint),
    );
}

/// The text of some bytes holds them: each group of four characters stands for the three bytes that
/// it was made of, six bits each, the most significant first.
pub proof fn law_four_characters_hold_three_bytes(bytes: Seq<u8>, j: int)
    requires
        0 <= j,
        3 * j + 2 < bytes.len(),
    ensures
        ({
            let a = six_bits(bytes, 4 * j);
            let b = six_bits(bytes, 4 * j + 1);
            let c = six_bits(bytes, 4 * j + 2);
            let d = six_bits(bytes, 4 * j + 3);
            &&& 0 <= a < 64 && 0 <= b < 64 && 0 <= c < 64 && 0 <= d < 64
            &&& a * 262144 + b * 4096 + c * 64 + d == bytes[3 * j] * 65536 + bytes[3 * j + 1] * 256
                + bytes[3 * j + 2]
        }),
{
    let x = bytes[3 * j] as int;
    let y = bytes[3 * j + 1] as int;
    let z = bytes[3 * j + 2] as int;
    assert(3 * (4 * j) / 4 == 3 * j && (4 * j) % 4 == 0);
    assert(3 * (4 * j + 1) / 4 == 3 * j && (4 * j + 1) % 4 == 1);
    assert(3 * (4 * j + 2) / 4 == 3 * j + 1 && (4 * j + 2) % 4 == 2);
    assert(3 * (4 * j + 3) / 4 == 3 * j + 2 && (4 * j + 3) % 4 == 3);
    let w = byte_at(bytes, 3 * j + 3);
    assert(0 <= w < 256);
    assert((x * 256 + y) / 1024 % 64 == x / 4);
    assert((x * 256 + y) / 16 % 64 == x % 4 * 16 + y / 16);
    assert((y * 256 + z) / 64 % 64 == y % 16 * 4 + z / 64);
    assert((z * 256 + w) / 256 % 64 == z % 64);
}

/// What is left over at the end is held the same way, as if zeros followed: one byte by two
/// characters, two by three. There are no more characters than that.
pub proof fn law_the_end_is_held_too(bytes: Seq<u8>, j: int)
    requires
        0 <= j,
        3 * j <= bytes.len() < 3 * j + 3,
    ensures
        base64_text(bytes).len() == 4 * j + (if bytes.len() == 3 * j {
            0int
        } else {
            bytes.len() - 3 * j + 1
        }),
        bytes.len() > 3 * j ==> six_bits(bytes, 4 * j) == bytes[3 * j] as int / 4,
        bytes.len() == 3 * j + 1 ==> six_bits(bytes, 4 * j + 1) == bytes[3 * j] as int % 4 * 16,
        bytes.len() == 3 * j + 2 ==> {
            &&& six_bits(bytes, 4 * j + 1) == bytes[3 * j] as int % 4 * 16 + bytes[3 * j + 1] as int
                / 16
            &&& six_bits(bytes, 4 * j + 2) == bytes[3 * j + 1] as int % 16 * 4
        },
{
    assert(3 * (4 * j) / 4 == 3 * j && (4 * j) % 4 == 0);
    assert(3 * (4 * j + 1) / 4 == 3 * j && (4 * j + 1) % 4 == 1);
    assert(3 * (4 * j + 2) / 4 == 3 * j + 1 && (4 * j + 2) % 4 == 2);
    if bytes.len() > 3 * j {
        let x = bytes[3 * j] as int;
        let y = byte_at(bytes, 3 * j + 1);
        assert(0 <= y < 256);
        assert((x * 256 + y) / 1024 % 64 == x / 4);
        assert((x * 256 + y) / 16 % 64 == x % 4 * 16 + y / 16);
        assert((y * 256) / 64 % 64 == y % 16 * 4);
    }
}

/// The characters that stand for six bits: the capitals, the small letters, the digits, a hyphen and
/// an underscore, in that order.
pub proof fn law_the_alphabet_is_url_safe(bytes: Seq<u8>, i: int)
    requires
        0 <= i < base64_text(bytes).len(),
    ensures
        ({
            let n = six_bits(bytes, i);
            let c = base64_text(bytes)[i] as int;
            &&& 0 <= n < 64
            &&& n < 26 ==> c == 'A' as int + n
            &&& 26 <= n < 52 ==> c == 'a' as int + (n - 26)
            &&& 52 <= n < 62 ==> c == '0' as int + (n - 52)
            &&& n == 62 ==> c == '-' as int
            &&& n == 63 ==> c == '_' as int
        }),
{
    reveal_strlit("ABCDEFGHIJKLMNOPQRSTUVWXYZabcdefghijklmnopqrstuvwxyz0123456789-_");
}

/// An identity holds the two keys that it is made of, each as its own text; one that stands is handed
/// out, and none is made then.
pub proof fn law_the_identity_holds_both_keys(
    db: LedgerView,
    private_key: Seq<u8>,
    public_key: Seq<u8>,
)
    ensures
        ({
            let (after, k) = identified(db, private_key, public_key);
            &&& db.vapid_keys.len() > 0 ==> after == db && k == db.vapid_keys[0]
            &&& db.vapid_keys.len() == 0 ==> {
                &&& after == (LedgerView { vapid_keys: db.vapid_keys.push(k), ..db })
                &&& k.private_key_b64 == base64_text(private_key)
                &&& k.public_key_b64 == base64_text(public_key)
            }
        }),
{
    if db.vapid_keys.len() > 0 {
        crate::table::lemma_find_at(db.vapid_keys, any_keys(), 0);
    } else {
        lemma_find_any(db.vapid_keys, any_keys());
    }
}

/// A registration adds a live subscription for its endpoint, or brings the one that stands for it up
/// to date and back to life; no other subscription changes.
pub proof fn law_registering_brings_up_to_date(
    db: LedgerView,
    id: Seq<char>,
    user_id: Seq<char>,
    endpoint: Seq<char>,
    p256dh_key: Seq<char>,
    auth_key: Seq<char>,
    user_agent: Option<Seq<char>>,
    now: i64,
    k: int,
)
    requires
        only(db.subscriptions, k, |s: SubscriptionView| s.endpoint == endpoint) || (forall|j: int|
            0 <= j < db.subscriptions.len() ==> (#[trigger] db.subscriptions[j]).endpoint
                != endpoint),
    ensures
        ({
            let there = 0 <= k < db.subscriptions.len() && db.subscriptions[k].endpoint == endpoint;
            let (after, given) = registered(
                db,
                id,
                user_id,
                endpoint,
                p256dh_key,
                auth_key,
                user_agent,
                now,
            );
            &&& after == (LedgerView { subscriptions: after.subscriptions, ..db })
            &&& !there ==> given == id && after.subscriptions == db.subscriptions.push(
                SubscriptionView {
                    id,
                    user_id,
                    endpoint,
                    p256dh_key,
                    auth_key,
                    user_agent,
                    created_at: now,
                    last_seen_at: None,
                    disabled_at: None,
                },
            )
            &&& there ==> {
                let s = db.subscriptions[k];
                &&& given == s.id
                &&& after.subscriptions.len() == db.subscriptions.len()
                &&& after.subscriptions[k] == (SubscriptionView {
                    user_id,
                    p256dh_key,
                    auth_key,
                    user_agent,
                    last_seen_at: Some(now),
                    disabled_at: None,
                    ..s
                })
                &&& forall|j: int|
                    0 <= j < db.subscriptions.len() && db.subscriptions[j].id != s.id
                        ==> #[trigger] after.subscriptions[j] == db.subscriptions[j]
            }
        }),
{
    let same_end = |s: SubscriptionView| s.endpoint == endpoint;
    if 0 <= k < db.subscriptions.len() && same_end(db.subscriptions[k]) {
        lemma_find_only(db.subscriptions, k, same_end, by_endpoint(endpoint));
    } else {
        lemma_find_any(db.subscriptions, by_endpoint(endpoint));
    }
}

/// A user's live subscriptions are listed, the latest first; one is taken away by its user, or by its
/// endpoint, and no other with it; and a sighting is noted on its own row.
pub proof fn law_subscriptions_are_listed_and_removed(
    listed: Seq<SubscriptionView>,
    subscriptions: Seq<SubscriptionView>,
    id: Seq<char>,
    user_id: Seq<char>,
    endpoint: Seq<char>,
    now: i64,
    x: SubscriptionView,
    k: int,
)
    requires
        ordered_from(listed, subscriptions.filter(live(user_id)), newest_first()),
        0 <= k < subscriptions.len(),
    ensures
        listed.contains(x) <==> subscriptions.contains(x) && x.user_id == user_id
            && x.disabled_at is None,
        forall|i: int, j: int|
            0 <= i < j < listed.len() ==> (#[trigger] listed[i]).created_at >= (
            #[trigger] listed[j]).created_at,
        subscriptions.filter(|s: SubscriptionView| !owned(id, user_id)(s)).contains(x)
            <==> subscriptions.contains(x) && !(x.id == id && x.user_id == user_id),
        any_row(subscriptions, owned(id, user_id)) == any_row(
            subscriptions,
            |s: SubscriptionView| s.id == id && s.user_id == user_id,
        ),
        subscriptions.filter(|s: SubscriptionView| !by_endpoint(endpoint)(s)).contains(x)
            <==> subscriptions.contains(x) && x.endpoint != endpoint,
        updated(subscriptions, by_id(id), seen(now))[k] == (if subscriptions[k].id == id {
            SubscriptionView { last_seen_at: Some(now), ..subscriptions[k] }
        } else {
            subscriptions[k]
        }),
{
    lemma_listed(listed, subscriptions, live(user_id), newest_first());
    lemma_filter_contains(subscriptions, |s: SubscriptionView| !owned(id, user_id)(s), x);
    lemma_filter_contains(subscriptions, |s: SubscriptionView| !by_endpoint(endpoint)(s), x);
    lemma_any_same(
        subscriptions,
        |s: SubscriptionView| s.id == id && s.user_id == user_id,
        owned(id, user_id),
    );
}

} // verus!
