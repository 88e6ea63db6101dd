//! Rated limits: a catalog of items, global ones and a Keyholder's own, and what each party says
//! of them. An item without a rating has not been discussed; nothing stands in for that.

use vstd::prelude::*;

use crate::ids::{is_id, new_id};
use crate::ledger::{Ledger, LedgerView};
use crate::table::{
    any, any_row, distinct, find, find_row, insert, lemma_any_same, lemma_filter_contains,
    lemma_filter_rules_out, lemma_find_any, lemma_find_only, lemma_find_push, lemma_find_updated,
    lemma_listed, only, order, ordered_from, remove, rows, select, update, updated, Row,
};
use crate::text::{
    at_least, dup_opt, edited, edited_opt, lemma_at_least_order, opt_is, or_keep, own, own_opt,
    same, text_at_least,
};

verus! {

/// A catalog item that can be rated.
#[derive(Debug, PartialEq, Eq)]
pub struct LimitItem {
    pub id: String,
    /// `None` for a global seed item, `Some` for a Keyholder's own addition.
    pub keyholder_id: Option<String>,
    pub category: String,
    pub label: String,
    pub description: Option<String>,
    pub active: bool,
    pub created_at: i64,
}

/// What a `LimitItem` holds.
#[verifier::ext_equal]
pub struct LimitItemView {
    pub id: Seq<char>,
    pub keyholder_id: Option<Seq<char>>,
    pub category: Seq<char>,
    pub label: Seq<char>,
    pub description: Option<Seq<char>>,
    pub active: bool,
    pub created_at: i64,
}

impl View for LimitItem {
    type V = LimitItemView;

    open spec fn view(&self) -> LimitItemView {
        LimitItemView {
            id: self.id@,
            keyholder_id: self.keyholder_id.deep_view(),
            category: self.category@,
            label: self.label@,
            description: self.description.deep_view(),
            active: self.active,
            created_at: self.created_at,
        }
    }
}

impl DeepView for LimitItem {
    type V = LimitItemView;

    open spec fn deep_view(&self) -> LimitItemView {
        self.view()
    }
}

impl Row for LimitItem {
    fn dup(&self) -> (r: Self) {
        LimitItem {
            id: self.id.clone(),
            keyholder_id: dup_opt(&self.keyholder_id),
            category: self.category.clone(),
            label: self.label.clone(),
            description: dup_opt(&self.description),
            active: self.active,
            created_at: self.created_at,
        }
    }
}

/// What a new item is made from.
#[derive(Debug, PartialEq, Eq)]
pub struct NewItem<'a> {
    pub keyholder_id: &'a str,
    pub category: &'a str,
    pub label: &'a str,
    pub description: Option<&'a str>,
}

/// What a `NewItem` holds.
#[verifier::ext_equal]
pub struct NewItemView {
    pub keyholder_id: Seq<char>,
    pub category: Seq<char>,
    pub label: Seq<char>,
    pub description: Option<Seq<char>>,
}

impl<'a> View for NewItem<'a> {
    type V = NewItemView;

    open spec fn view(&self) -> NewItemView {
        NewItemView {
            keyholder_id: self.keyholder_id@,
            category: self.category@,
            label: self.label@,
            description: self.description.deep_view(),
        }
    }
}

/// A partial edit.
#[derive(Debug, PartialEq, Eq)]
pub struct ItemEdit<'a> {
    pub category: Option<&'a str>,
    pub label: Option<&'a str>,
    pub description: Option<Option<&'a str>>,
    pub active: Option<bool>,
}

/// What an `ItemEdit` holds.
#[verifier::ext_equal]
pub struct ItemEditView {
    pub category: Option<Seq<char>>,
    pub label: Option<Seq<char>>,
    pub description: Option<Option<Seq<char>>>,
    pub active: Option<bool>,
}

impl<'a> View for ItemEdit<'a> {
    type V = ItemEditView;

    open spec fn view(&self) -> ItemEditView {
        ItemEditView {
            category: self.category.deep_view(),
            label: self.label.deep_view(),
            description: self.description.deep_view(),
            active: self.active,
        }
    }
}

impl ItemEditView {
    /// Nothing set.
    pub open spec fn blank() -> ItemEditView {
        ItemEditView {
            category: None,
            label: None,
            description: None,
            active: None,
        }
    }
}

impl<'a> Default for ItemEdit<'a> {
    fn default() -> (r: Self)
        ensures
            r@ == ItemEditView::blank(),
    {
        ItemEdit {
            category: None,
            label: None,
            description: None,
            active: None,
        }
    }
}

/// A submissive's rating of an item.
#[derive(Debug, PartialEq, Eq)]
pub struct Rating {
    pub id: String,
    pub submissive_id: String,
    pub limit_item_id: String,
    pub rating: String,
    pub notes: Option<String>,
    pub updated_at: i64,
}

/// What a `Rating` holds.
#[verifier::ext_equal]
pub struct RatingView {
    pub id: Seq<char>,
    pub submissive_id: Seq<char>,
    pub limit_item_id: Seq<char>,
    pub rating: Seq<char>,
    pub notes: Option<Seq<char>>,
    pub updated_at: i64,
}

impl View for Rating {
    type V = RatingView;

    open spec fn view(&self) -> RatingView {
        RatingView {
            id: self.id@,
            submissive_id: self.submissive_id@,
            limit_item_id: self.limit_item_id@,
            rating: self.rating@,
            notes: self.notes.deep_view(),
            updated_at: self.updated_at,
        }
    }
}

impl DeepView for Rating {
    type V = RatingView;

    open spec fn deep_view(&self) -> RatingView {
        self.view()
    }
}

impl Row for Rating {
    fn dup(&self) -> (r: Self) {
        Rating {
            id: self.id.clone(),
            submissive_id: self.submissive_id.clone(),
            limit_item_id: self.limit_item_id.clone(),
            rating: self.rating.clone(),
            notes: dup_opt(&self.notes),
            updated_at: self.updated_at,
        }
    }
}

/// A Keyholder's rating of an item.
#[derive(Debug, PartialEq, Eq)]
pub struct KeyholderRating {
    pub id: String,
    pub keyholder_id: String,
    pub limit_item_id: String,
    pub rating: String,
    pub notes: Option<String>,
    pub updated_at: i64,
}

/// What a `KeyholderRating` holds.
#[verifier::ext_equal]
pub struct KeyholderRatingView {
    pub id: Seq<char>,
    pub keyholder_id: Seq<char>,
    pub limit_item_id: Seq<char>,
    pub rating: Seq<char>,
    pub notes: Option<Seq<char>>,
    pub updated_at: i64,
}

impl View for KeyholderRating {
    type V = KeyholderRatingView;

    open spec fn view(&self) -> KeyholderRatingView {
        KeyholderRatingView {
            id: self.id@,
            keyholder_id: self.keyholder_id@,
            limit_item_id: self.limit_item_id@,
            rating: self.rating@,
            notes: self.notes.deep_view(),
            updated_at: self.updated_at,
        }
    }
}

impl DeepView for KeyholderRating {
    type V = KeyholderRatingView;

    open spec fn deep_view(&self) -> KeyholderRatingView {
        self.view()
    }
}

impl Row for KeyholderRating {
    fn dup(&self) -> (r: Self) {
        KeyholderRating {
            id: self.id.clone(),
            keyholder_id: self.keyholder_id.clone(),
            limit_item_id: self.limit_item_id.clone(),
            rating: self.rating.clone(),
            notes: dup_opt(&self.notes),
            updated_at: self.updated_at,
        }
    }
}

/// The item has this id.
pub open spec fn by_id(id: Seq<char>) -> spec_fn(LimitItemView) -> bool {
    |i: LimitItemView| i.id == id
}

/// The item with this id.
pub fn get_item(db: &Ledger, id: &str) -> (r: Option<LimitItem>)
    ensures
        r.deep_view() == find_row(db@.limit_items, by_id(id@)),
{
    let ghost p = by_id(id@);
    let test = |i: &LimitItem| -> (b: bool)
        ensures
            b == p(i@),
        { same(i.id.as_str(), id) };
    match find(&db.limit_items, Ghost(p), test) {
        Some(i) => Some(i.dup()),
        None => None,
    }
}

/// In this Keyholder's catalog: a global item, or their own.
pub open spec fn in_catalog(keyholder_id: Seq<char>) -> spec_fn(LimitItemView) -> bool {
    |i: LimitItemView| i.keyholder_id is None || i.keyholder_id == Some(keyholder_id)
}

/// By category, and by label within one.
pub open spec fn catalog_order() -> spec_fn(LimitItemView, LimitItemView) -> bool {
    |a: LimitItemView, b: LimitItemView|
        !at_least(a.category, b.category) || (at_least(b.category, a.category) && at_least(
            b.label,
            a.label,
        ))
}

/// The catalog order is one.
proof fn lemma_catalog_order()
    ensures
        crate::table::total_order(catalog_order()),
{
    lemma_at_least_order();
    let le = catalog_order();
    assert forall|a: LimitItemView, b: LimitItemView| #[trigger] le(a, b) || le(b, a) by {
        assert(at_least(a.category, b.category) || at_least(b.category, a.category));
        assert(at_least(a.label, b.label) || at_least(b.label, a.label));
    }
    assert forall|a: LimitItemView, b: LimitItemView, c: LimitItemView| #[trigger]
        le(a, b) && #[trigger] le(b, c) implies le(a, c) by {
        assert(at_least(a.category, b.category) || at_least(b.category, a.category));
        assert(at_least(b.category, c.category) || at_least(c.category, b.category));
        assert(at_least(a.category, c.category) || at_least(c.category, a.category));
        if at_least(a.category, c.category) {
            if !at_least(a.category, b.category) {
                assert(at_least(b.category, c.category) ==> at_least(b.category, a.category));
                if at_least(c.category, b.category) {
                    assert(at_least(a.category, c.category) && at_least(c.category, b.category));
                }
            }
        }
    }
}

/// A Keyholder's catalog, inactive items too.
pub fn list_items_for_keyholder(db: &Ledger, keyholder_id: &str) -> (r: Vec<LimitItem>)
    ensures
        ordered_from(
            rows(r@),
            db@.limit_items.filter(in_catalog(keyholder_id@)),
            catalog_order(),
        ),
{
    let ghost p = in_catalog(keyholder_id@);
    let ghost le = catalog_order();
    let test = |i: &LimitItem| -> (b: bool)
        ensures
            b == p(i@),
        { i.keyholder_id.is_none() || opt_is(&i.keyholder_id, keyholder_id) };
    let before = |a: &LimitItem, b: &LimitItem| -> (c: bool)
        ensures
            c == le(a@, b@),
        {
            !text_at_least(a.category.as_str(), b.category.as_str()) || (text_at_least(
                b.category.as_str(),
                a.category.as_str(),
            ) && text_at_least(b.label.as_str(), a.label.as_str()))
        };
    proof {
        lemma_catalog_order();
    }
    order(select(&db.limit_items, Ghost(p), test), Ghost(le), before)
}

/// A Keyholder's own addition, active.
pub open spec fn new_row(id: Seq<char>, new: NewItemView, now: i64) -> LimitItemView {
    LimitItemView {
        id,
        keyholder_id: Some(new.keyholder_id),
        category: new.category,
        label: new.label,
        description: new.description,
        active: true,
        created_at: now,
    }
}

/// Adds an item to a Keyholder's catalog.
pub fn create_item(db: &mut Ledger, new: NewItem, now: i64) -> (r: String)
    ensures
        is_id(r@),
        final(db)@ == (LedgerView {
            limit_items: old(db)@.limit_items.push(new_row(r@, new@, now)),
            ..old(db)@
        }),
{
    let id = new_id();
    insert(
        &mut db.limit_items,
        LimitItem {
            id: id.clone(),
            keyholder_id: Some(own(new.keyholder_id)),
            category: own(new.category),
            label: own(new.label),
            description: own_opt(new.description),
            active: true,
            created_at: now,
        },
    );
    id
}

/// With these terms.
pub open spec fn with_terms(
    category: Seq<char>,
    label: Seq<char>,
    description: Option<Seq<char>>,
    active: bool,
) -> spec_fn(LimitItemView) -> LimitItemView {
    |i: LimitItemView| LimitItemView { category, label, description, active, ..i }
}

/// The ledger after an edit, or nothing where the item is not this Keyholder's own: global items
/// and those of others are out of reach.
pub open spec fn item_edited(
    db: LedgerView,
    id: Seq<char>,
    keyholder_id: Seq<char>,
    edit: ItemEditView,
) -> Option<LedgerView> {
    match find_row(db.limit_items, by_id(id)) {
        None => None,
        Some(i) => if i.keyholder_id != Some(keyholder_id) {
            None
        } else {
            Some(
                LedgerView {
                    limit_items: updated(
                        db.limit_items,
                        by_id(id),
                        with_terms(
                            or_keep(edit.category, i.category),
                            or_keep(edit.label, i.label),
                            or_keep(edit.description, i.description),
                            or_keep(edit.active, i.active),
                        ),
                    ),
                    ..db
                },
            )
        },
    }
}

/// Edits an item; `false` where it is not this Keyholder's own.
pub fn update_item(db: &mut Ledger, id: &str, keyholder_id: &str, edit: ItemEdit) -> (r: bool)
    ensures
        match item_edited(old(db)@, id@, keyholder_id@, edit@) {
            Some(after) => r && final(db)@ == after,
            None => !r && final(db)@ == old(db)@,
        },
{
    let current = match get_item(db, id) {
        Some(i) => i,
        None => {
            return false;
        },
    };
    if !opt_is(&current.keyholder_id, keyholder_id) {
        return false;
    }
    let category = edited(edit.category, current.category.as_str());
    let label = edited(edit.label, current.label.as_str());
    let description = edited_opt(edit.description, &current.description);
    let active = match edit.active {
        Some(b) => b,
        None => current.active,
    };
    let ghost p = by_id(id@);
    let ghost u = with_terms(category@, label@, description.deep_view(), active);
    let change = |i: &LimitItem| -> (n: Option<LimitItem>)
        ensures
            match n {
                Some(x) => p(i@) && x@ == u(i@),
                None => !p(i@),
            },
        {
            if same(i.id.as_str(), id) {
                let mut n = i.dup();
                n.category = category.clone();
                n.label = label.clone();
                n.description = dup_opt(&description);
                n.active = active;

                Some(n)
            } else {
                None
            }
        };
    update(&mut db.limit_items, Ghost(p), Ghost(u), change);
    true
}

/// Why an item was not rated.
#[derive(Clone, Copy, Debug, PartialEq, Eq, Structural)]
pub enum SetRatingError {
    /// The rating is none of hard, soft and okay.
    InvalidRating,
    /// There is no such item.
    ItemNotFound,
}

/// Whether a rating can be given.
pub open spec fn ratable(db: LedgerView, item_id: Seq<char>, rating: Seq<char>) -> Result<
    (),
    SetRatingError,
> {
    if rating != "hard"@ && rating != "soft"@ && rating != "okay"@ {
        Err(SetRatingError::InvalidRating)
    } else if find_row(db.limit_items, by_id(item_id)) is None {
        Err(SetRatingError::ItemNotFound)
    } else {
        Ok(())
    }
}

/// Whether a rating can be given.
fn check_ratable(db: &Ledger, item_id: &str, rating: &str) -> (r: Result<(), SetRatingError>)
    ensures
        r == ratable(db@, item_id@, rating@),
{
    if !same(rating, "hard") && !same(rating, "soft") && !same(rating, "okay") {
        return Err(SetRatingError::InvalidRating);
    }
    if get_item(db, item_id).is_none() {
        return Err(SetRatingError::ItemNotFound);
    }
    Ok(())
}

/// A rating of this submissive.
pub open spec fn by_submissive(submissive_id: Seq<char>) -> spec_fn(RatingView) -> bool {
    |x: RatingView| x.submissive_id == submissive_id
}

/// This submissive's rating of this item.
pub open spec fn rating_of(submissive_id: Seq<char>, item_id: Seq<char>) -> spec_fn(
    RatingView,
) -> bool {
    |x: RatingView| x.submissive_id == submissive_id && x.limit_item_id == item_id
}

/// A submissive's ratings.
pub fn list_ratings_for_submissive(db: &Ledger, submissive_id: &str) -> (r: Vec<Rating>)
    ensures
        rows(r@) == db@.submissive_ratings.filter(by_submissive(submissive_id@)),
{
    let ghost p = by_submissive(submissive_id@);
    let test = |x: &Rating| -> (b: bool)
        ensures
            b == p(x@),
        { same(x.submissive_id.as_str(), submissive_id) };
    select(&db.submissive_ratings, Ghost(p), test)
}

/// Active.
pub open spec fn active() -> spec_fn(LimitItemView) -> bool {
    |i: LimitItemView| i.active
}

/// The active items of a Keyholder's catalog, in order.
pub open spec fn offered(items: Seq<LimitItemView>, db: LedgerView, keyholder_id: Seq<char>) -> bool {
    exists|all: Seq<LimitItemView>|
        #[trigger] ordered_from(all, db.limit_items.filter(in_catalog(keyholder_id)), catalog_order())
            && items == all.filter(active())
}

/// The active items of a Keyholder's catalog, in order.
fn list_offered(db: &Ledger, keyholder_id: &str) -> (r: Vec<LimitItem>)
    ensures
        offered(rows(r@), db@, keyholder_id@),
{
    let all = list_items_for_keyholder(db, keyholder_id);
    let ghost p = active();
    let test = |i: &LimitItem| -> (b: bool)
        ensures
            b == p(i@),
        { i.active };
    let out = select(&all, Ghost(p), test);
    assert(ordered_from(
        rows(all@),
        db@.limit_items.filter(in_catalog(keyholder_id@)),
        catalog_order(),
    ));
    out
}

/// Of this item.
pub open spec fn of_item(item_id: Seq<char>) -> spec_fn(RatingView) -> bool {
    |x: RatingView| x.limit_item_id == item_id
}

/// Each item with what a submissive says of it, if anything.
pub open spec fn rated_by_submissive(
    items: Seq<LimitItemView>,
    db: LedgerView,
    submissive_id: Seq<char>,
) -> Seq<(LimitItemView, Option<RatingView>)> {
    items.map_values(
        |i: LimitItemView|
            (
                i,
                find_row(
                    db.submissive_ratings.filter(by_submissive(submissive_id)),
                    of_item(i.id),
                ),
            ),
    )
}

/// The active items of a Keyholder's catalog, each with what a submissive says of it, if
/// anything.
pub fn list_items_with_ratings_for_submissive(
    db: &Ledger,
    keyholder_id: &str,
    submissive_id: &str,
) -> (r: Vec<(LimitItem, Option<Rating>)>)
    ensures
        exists|items: Seq<LimitItemView>|
            #[trigger] offered(items, db@, keyholder_id@) && r.deep_view() == rated_by_submissive(
                items,
                db@,
                submissive_id@,
            ),
{
    let items = list_offered(db, keyholder_id);
    let ghost all = rows(items@);
    let ratings = list_ratings_for_submissive(db, submissive_id);
    let ghost pairs = rated_by_submissive(all, db@, submissive_id@);
    let mut out: Vec<(LimitItem, Option<Rating>)> = Vec::new();
    let mut i: usize = 0;
    while i < items.len()
        invariant
            i <= items@.len(),
            out@.len() == i,
            all == rows(items@),
            pairs == rated_by_submissive(all, db@, submissive_id@),
            rows(ratings@) == db@.submissive_ratings.filter(by_submissive(submissive_id@)),
            forall|j: int| 0 <= j < i ==> #[trigger] out.deep_view()[j] == pairs[j],
        decreases items@.len() - i,
    {
        let item = &items[i];
        let ghost before = out.deep_view();
        let ghost p = of_item(item@.id);
        let test = |x: &Rating| -> (b: bool)
            ensures
                b == p(x@),
            { same(x.limit_item_id.as_str(), item.id.as_str()) };
        let rating = match find(&ratings, Ghost(p), test) {
            Some(x) => Some(x.dup()),
            None => None,
        };
        out.push((item.dup(), rating));
        assert(all[i as int] == item@);
        assert(out.deep_view()[i as int] == pairs[i as int]);
        assert forall|j: int| 0 <= j < i implies #[trigger] out.deep_view()[j] == pairs[j] by {
            assert(before[j] == out.deep_view()[j]);
        }
        i = i + 1;
    }
    assert(out.deep_view() =~= pairs);
    assert(offered(all, db@, keyholder_id@));
    out
}

/// With this rating.
pub open spec fn rerated(rating: Seq<char>, notes: Option<Seq<char>>, now: i64) -> spec_fn(
    RatingView,
) -> RatingView {
    |x: RatingView| RatingView { rating, notes, updated_at: now, ..x }
}

/// A submissive's ratings after one was given: it replaces what they said of the item before, and
/// is added where they had said nothing.
pub open spec fn rating_set(
    s: Seq<RatingView>,
    id: Seq<char>,
    submissive_id: Seq<char>,
    item_id: Seq<char>,
    rating: Seq<char>,
    notes: Option<Seq<char>>,
    now: i64,
) -> Seq<RatingView> {
    if any_row(s, rating_of(submissive_id, item_id)) {
        updated(s, rating_of(submissive_id, item_id), rerated(rating, notes, now))
    } else {
        s.push(
            RatingView {
                id,
                submissive_id,
                limit_item_id: item_id,
                rating,
                notes,
                updated_at: now,
            },
        )
    }
}

/// Rates an item on a submissive's behalf.
pub fn set_rating(
    db: &mut Ledger,
    submissive_id: &str,
    limit_item_id: &str,
    rating: &str,
    notes: Option<&str>,
    now: i64,
) -> (r: Result<(), SetRatingError>)
    ensures
        r == ratable(old(db)@, limit_item_id@, rating@),
        r is Err ==> final(db)@ == old(db)@,
        r is Ok ==> exists|id: Seq<char>|
            is_id(id) && final(db)@ == (LedgerView {
                submissive_ratings: #[trigger] rating_set(
                    old(db)@.submissive_ratings,
                    id,
                    submissive_id@,
                    limit_item_id@,
                    rating@,
                    notes.deep_view(),
                    now,
                ),
                ..old(db)@
            }),
{
    match check_ratable(db, limit_item_id, rating) {
        Ok(()) => {},
        Err(e) => {
            return Err(e);
        },
    }
    let id = new_id();
    let ghost outcome = rating_set(
        db@.submissive_ratings,
        id@,
        submissive_id@,
        limit_item_id@,
        rating@,
        notes.deep_view(),
        now,
    );
    let ghost p = rating_of(submissive_id@, limit_item_id@);
    let ghost u = rerated(rating@, notes.deep_view(), now);
    let test = |x: &Rating| -> (b: bool)
        ensures
            b == p(x@),
        { same(x.submissive_id.as_str(), submissive_id)
            && same(x.limit_item_id.as_str(), limit_item_id) };
    if any(&db.submissive_ratings, Ghost(p), test) {
        let change = |y: &Rating| -> (n: Option<Rating>)
            ensures
                match n {
                    Some(x) => p(y@) && x@ == u(y@),
                    None => !p(y@),
                },
            {
                if same(y.submissive_id.as_str(), submissive_id)
                    && same(y.limit_item_id.as_str(), limit_item_id) {
                    let mut n = y.dup();
                    n.rating = own(rating);
                    n.notes = own_opt(notes);
                    n.updated_at = now;

                    Some(n)
                } else {
                    None
                }
            };
        update(&mut db.submissive_ratings, Ghost(p), Ghost(u), change);
    } else {
        insert(
            &mut db.submissive_ratings,
            Rating {
                id,
                submissive_id: own(submissive_id),
                limit_item_id: own(limit_item_id),
                rating: own(rating),
                notes: own_opt(notes),
                updated_at: now,
            },
        );
    }
    assert(db@.submissive_ratings == outcome);
    Ok(())
}

/// Takes a submissive's rating of an item back, to not discussed; `false` where there is none.
pub fn clear_rating(db: &mut Ledger, submissive_id: &str, limit_item_id: &str) -> (r: bool)
    ensures
        r == any_row(
            old(db)@.submissive_ratings,
            rating_of(submissive_id@, limit_item_id@),
        ),
        final(db)@ == (LedgerView {
            submissive_ratings: old(db)@.submissive_ratings.filter(
                |x: RatingView| !rating_of(submissive_id@, limit_item_id@)(x),
            ),
            ..old(db)@
        }),
{
    let ghost p = rating_of(submissive_id@, limit_item_id@);
    let test = |x: &Rating| -> (b: bool)
        ensures
            b == p(x@),
        { same(x.submissive_id.as_str(), submissive_id)
            && same(x.limit_item_id.as_str(), limit_item_id) };
    remove(&mut db.submissive_ratings, Ghost(p), test)
}

/// A rating of this Keyholder.
pub open spec fn by_keyholder(keyholder_id: Seq<char>) -> spec_fn(KeyholderRatingView) -> bool {
    |x: KeyholderRatingView| x.keyholder_id == keyholder_id
}

/// This Keyholder's rating of this item.
pub open spec fn keyholder_rating_of(keyholder_id: Seq<char>, item_id: Seq<char>) -> spec_fn(
    KeyholderRatingView,
) -> bool {
    |x: KeyholderRatingView| x.keyholder_id == keyholder_id && x.limit_item_id == item_id
}

/// A Keyholder's ratings.
pub fn list_ratings_for_keyholder(db: &Ledger, keyholder_id: &str) -> (r: Vec<KeyholderRating>)
    ensures
        rows(r@) == db@.keyholder_ratings.filter(by_keyholder(keyholder_id@)),
{
    let ghost p = by_keyholder(keyholder_id@);
    let test = |x: &KeyholderRating| -> (b: bool)
        ensures
            b == p(x@),
        { same(x.keyholder_id.as_str(), keyholder_id) };
    select(&db.keyholder_ratings, Ghost(p), test)
}

/// Of this item.
pub open spec fn keyholder_of_item(item_id: Seq<char>) -> spec_fn(KeyholderRatingView) -> bool {
    |x: KeyholderRatingView| x.limit_item_id == item_id
}

/// Each item with what a Keyholder says of it, if anything.
pub open spec fn rated_by_keyholder(
    items: Seq<LimitItemView>,
    db: LedgerView,
    keyholder_id: Seq<char>,
) -> Seq<(LimitItemView, Option<KeyholderRatingView>)> {
    items.map_values(
        |i: LimitItemView|
            (
                i,
                find_row(
                    db.keyholder_ratings.filter(by_keyholder(keyholder_id)),
                    keyholder_of_item(i.id),
                ),
            ),
    )
}

/// The active items of a Keyholder's catalog, each with what they say of it themselves, if
/// anything.
pub fn list_items_with_ratings_for_keyholder(db: &Ledger, keyholder_id: &str) -> (r: Vec<
    (LimitItem, Option<KeyholderRating>),
>)
    ensures
        exists|items: Seq<LimitItemView>|
            #[trigger] offered(items, db@, keyholder_id@) && r.deep_view() == rated_by_keyholder(
                items,
                db@,
                keyholder_id@,
            ),
{
    let items = list_offered(db, keyholder_id);
    let ghost all = rows(items@);
    let ratings = list_ratings_for_keyholder(db, keyholder_id);
    let ghost pairs = rated_by_keyholder(all, db@, keyholder_id@);
    let mut out: Vec<(LimitItem, Option<KeyholderRating>)> = Vec::new();
    let mut i: usize = 0;
    while i < items.len()
        invariant
            i <= items@.len(),
            out@.len() == i,
            all == rows(items@),
            pairs == rated_by_keyholder(all, db@, keyholder_id@),
            rows(ratings@) == db@.keyholder_ratings.filter(by_keyholder(keyholder_id@)),
            forall|j: int| 0 <= j < i ==> #[trigger] out.deep_view()[j] == pairs[j],
        decreases items@.len() - i,
    {
        let item = &items[i];
        let ghost before = out.deep_view();
        let ghost p = keyholder_of_item(item@.id);
        let test = |x: &KeyholderRating| -> (b: bool)
            ensures
                b == p(x@),
            { same(x.limit_item_id.as_str(), item.id.as_str()) };
        let rating = match find(&ratings, Ghost(p), test) {
            Some(x) => Some(x.dup()),
            None => None,
        };
        out.push((item.dup(), rating));
        assert(all[i as int] == item@);
        assert(out.deep_view()[i as int] == pairs[i as int]);
        assert forall|j: int| 0 <= j < i implies #[trigger] out.deep_view()[j] == pairs[j] by {
            assert(before[j] == out.deep_view()[j]);
        }
        i = i + 1;
    }
    assert(out.deep_view() =~= pairs);
    assert(offered(all, db@, keyholder_id@));
    out
}

/// With this rating.
pub open spec fn keyholder_rerated(
    rating: Seq<char>,
    notes: Option<Seq<char>>,
    now: i64,
) -> spec_fn(KeyholderRatingView) -> KeyholderRatingView {
    |x: KeyholderRatingView| KeyholderRatingView { rating, notes, updated_at: now, ..x }
}

/// A Keyholder's ratings after one was given: it replaces what they said of the item before, and
/// is added where they had said nothing.
pub open spec fn keyholder_rating_set(
    s: Seq<KeyholderRatingView>,
    id: Seq<char>,
    keyholder_id: Seq<char>,
    item_id: Seq<char>,
    rating: Seq<char>,
    notes: Option<Seq<char>>,
    now: i64,
) -> Seq<KeyholderRatingView> {
    if any_row(s, keyholder_rating_of(keyholder_id, item_id)) {
        updated(s, keyholder_rating_of(keyholder_id, item_id), keyholder_rerated(rating, notes, now))
    } else {
        s.push(
            KeyholderRatingView {
                id,
                keyholder_id,
                limit_item_id: item_id,
                rating,
                notes,
                updated_at: now,
            },
        )
    }
}

/// Rates an item on a Keyholder's behalf.
pub fn set_keyholder_rating(
    db: &mut Ledger,
    keyholder_id: &str,
    limit_item_id: &str,
    rating: &str,
    notes: Option<&str>,
    now: i64,
) -> (r: Result<(), SetRatingError>)
    ensures
        r == ratable(old(db)@, limit_item_id@, rating@),
        r is Err ==> final(db)@ == old(db)@,
        r is Ok ==> exists|id: Seq<char>|
            is_id(id) && final(db)@ == (LedgerView {
                keyholder_ratings: #[trigger] keyholder_rating_set(
                    old(db)@.keyholder_ratings,
                    id,
                    keyholder_id@,
                    limit_item_id@,
                    rating@,
                    notes.deep_view(),
                    now,
                ),
                ..old(db)@
            }),
{
    match check_ratable(db, limit_item_id, rating) {
        Ok(()) => {},
        Err(e) => {
            return Err(e);
        },
    }
    let id = new_id();
    let ghost outcome = keyholder_rating_set(
        db@.keyholder_ratings,
        id@,
        keyholder_id@,
        limit_item_id@,
        rating@,
        notes.deep_view(),
        now,
    );
    let ghost p = keyholder_rating_of(keyholder_id@, limit_item_id@);
    let ghost u = keyholder_rerated(rating@, notes.deep_view(), now);
    let test = |x: &KeyholderRating| -> (b: bool)
        ensures
            b == p(x@),
        { same(x.keyholder_id.as_str(), keyholder_id)
            && same(x.limit_item_id.as_str(), limit_item_id) };
    if any(&db.keyholder_ratings, Ghost(p), test) {
        let change = |y: &KeyholderRating| -> (n: Option<KeyholderRating>)
            ensures
                match n {
                    Some(x) => p(y@) && x@ == u(y@),
                    None => !p(y@),
                },
            {
                if same(y.keyholder_id.as_str(), keyholder_id)
                    && same(y.limit_item_id.as_str(), limit_item_id) {
                    let mut n = y.dup();
                    n.rating = own(rating);
                    n.notes = own_opt(notes);
                    n.updated_at = now;

                    Some(n)
                } else {
                    None
                }
            };
        update(&mut db.keyholder_ratings, Ghost(p), Ghost(u), change);
    } else {
        insert(
            &mut db.keyholder_ratings,
            KeyholderRating {
                id,
                keyholder_id: own(keyholder_id),
                limit_item_id: own(limit_item_id),
                rating: own(rating),
                notes: own_opt(notes),
                updated_at: now,
            },
        );
    }
    assert(db@.keyholder_ratings == outcome);
    Ok(())
}

/// Takes a Keyholder's rating of an item back; `false` where there is none.
pub fn clear_keyholder_rating(db: &mut Ledger, keyholder_id: &str, limit_item_id: &str) -> (r: bool)
    ensures
        r == any_row(
            old(db)@.keyholder_ratings,
            keyholder_rating_of(keyholder_id@, limit_item_id@),
        ),
        final(db)@ == (LedgerView {
            keyholder_ratings: old(db)@.keyholder_ratings.filter(
                |x: KeyholderRatingView| !keyholder_rating_of(keyholder_id@, limit_item_id@)(x),
            ),
            ..old(db)@
        }),
{
    let ghost p = keyholder_rating_of(keyholder_id@, limit_item_id@);
    let test = |x: &KeyholderRating| -> (b: bool)
        ensures
            b == p(x@),
        { same(x.keyholder_id.as_str(), keyholder_id)
            && same(x.limit_item_id.as_str(), limit_item_id) };
    remove(&mut db.keyholder_ratings, Ghost(p), test)
}

/// A rating that was given is what is read, and there is still at most one per item: rating again
/// replaces it.
pub proof fn law_rating_is_read_back(
    s: Seq<RatingView>,
    id: Seq<char>,
    submissive_id: Seq<char>,
    item_id: Seq<char>,
    rating: Seq<char>,
    notes: Option<Seq<char>>,
    now: i64,
)
    ensures
        ({
            let after = rating_set(s, id, submissive_id, item_id, rating, notes, now);
            &&& find_row(after, rating_of(submissive_id, item_id)) matches Some(x) && x.rating
                == rating && x.notes == notes && x.updated_at == now
            &&& distinct(s, |x: RatingView| (x.submissive_id, x.limit_item_id)) ==> distinct(
                after,
                |x: RatingView| (x.submissive_id, x.limit_item_id),
            )
        }),
{
    let q = rating_of(submissive_id, item_id);
    let key = |x: RatingView| (x.submissive_id, x.limit_item_id);
    let row = RatingView {
        id,
        submissive_id,
        limit_item_id: item_id,
        rating,
        notes,
        updated_at: now,
    };
    lemma_find_any(s, q);
    lemma_find_updated(s, q, q, rerated(rating, notes, now));
    lemma_find_push(s, row, q);
    let after = rating_set(s, id, submissive_id, item_id, rating, notes, now);
    if distinct(s, key) {
        assert forall|i: int, j: int| 0 <= i < j < after.len() implies key(#[trigger] after[i])
            != key(#[trigger] after[j]) by {
            if j < s.len() {
                assert(key(s[i]) != key(s[j]));
            } else {
                assert(!q(s[i]));
            }
        }
    }
}

/// A rating touches nothing that was said of another item, or by another submissive.
pub proof fn law_ratings_are_apart(
    s: Seq<RatingView>,
    id: Seq<char>,
    submissive_id: Seq<char>,
    item_id: Seq<char>,
    other_submissive: Seq<char>,
    other_item: Seq<char>,
    rating: Seq<char>,
    notes: Option<Seq<char>>,
    now: i64,
)
    requires
        submissive_id != other_submissive || item_id != other_item,
    ensures
        find_row(
            rating_set(s, id, submissive_id, item_id, rating, notes, now),
            rating_of(other_submissive, other_item),
        ) == find_row(s, rating_of(other_submissive, other_item)),
{
    let q = rating_of(other_submissive, other_item);
    let p = rating_of(submissive_id, item_id);
    lemma_find_any(s, q);
    lemma_find_updated(s, q, p, rerated(rating, notes, now));
    lemma_find_push(
        s,
        RatingView {
            id,
            submissive_id,
            limit_item_id: item_id,
            rating,
            notes,
            updated_at: now,
        },
        q,
    );
}

/// A rating that was taken back is gone: the item is not discussed, which is not okay.
pub proof fn law_cleared_is_not_discussed(
    s: Seq<RatingView>,
    submissive_id: Seq<char>,
    item_id: Seq<char>,
)
    ensures
        find_row(
            s.filter(|x: RatingView| !rating_of(submissive_id, item_id)(x)),
            rating_of(submissive_id, item_id),
        ) is None,
{
    lemma_filter_rules_out(
        s,
        |x: RatingView| !rating_of(submissive_id, item_id)(x),
        rating_of(submissive_id, item_id),
    );
}

/// Global items are out of reach of every edit.
pub proof fn law_global_items_stay(
    db: LedgerView,
    id: Seq<char>,
    keyholder_id: Seq<char>,
    edit: ItemEditView,
)
    requires
        find_row(db.limit_items, by_id(id)) matches Some(i) && i.keyholder_id is None,
    ensures
        item_edited(db, id, keyholder_id, edit) is None,
{
}

/// An item of a Keyholder's own starts active; an edit by them replaces what it gives and keeps the
/// rest; global items, and those of others, are out of reach.
pub proof fn law_items_are_edited_by_their_keyholder(
    db: LedgerView,
    id: Seq<char>,
    keyholder_id: Seq<char>,
    edit: ItemEditView,
    new: NewItemView,
    now: i64,
    k: int,
)
    requires
        only(db.limit_items, k, |i: LimitItemView| i.id == id),
    ensures
        ({
            let i = db.limit_items[k];
            match item_edited(db, id, keyholder_id, edit) {
                None => i.keyholder_id is None || i.keyholder_id->0 != keyholder_id,
                Some(after) => {
                    let e = after.limit_items[k];
                    &&& i.keyholder_id == Some(keyholder_id)
                    &&& after == (LedgerView { limit_items: db.limit_items.update(k, e), ..db })
                    &&& e.id == i.id && e.keyholder_id == i.keyholder_id && e.created_at
                        == i.created_at
                    &&& edit.category is Some ==> e.category == edit.category->0
                    &&& edit.category is None ==> e.category == i.category
                    &&& edit.label is Some ==> e.label == edit.label->0
                    &&& edit.label is None ==> e.label == i.label
                    &&& edit.description is Some ==> e.description == edit.description->0
                    &&& edit.description is None ==> e.description == i.description
                    &&& edit.active is Some ==> e.active == edit.active->0
                    &&& edit.active is None ==> e.active == i.active
                },
            }
        }),
        ({
            let i = new_row(id, new, now);
            &&& i.id == id && i.keyholder_id == Some(new.keyholder_id) && i.category == new.category
            &&& i.label == new.label && i.description == new.description && i.active
            &&& i.created_at == now
        }),
{
    let named = |i: LimitItemView| i.id == id;
    lemma_find_only(db.limit_items, k, named, by_id(id));
    assert forall|j: int| 0 <= j < db.limit_items.len() && j != k implies (
    #[trigger] db.limit_items[j]).id != id by {
        assert(!named(db.limit_items[j]));
    }
}

/// A limit is hard, soft or okay, and of an item that is there.
pub proof fn law_three_ratings(db: LedgerView, item_id: Seq<char>, rating: Seq<char>)
    ensures
        ({
            let known = rating == "hard"@ || rating == "soft"@ || rating == "okay"@;
            let there = any_row(db.limit_items, |i: LimitItemView| i.id == item_id);
            match ratable(db, item_id, rating) {
                Err(SetRatingError::InvalidRating) => !known,
                Err(_) => known && !there,
                Ok(()) => known && there,
            }
        }),
{
    lemma_find_any(db.limit_items, by_id(item_id));
    lemma_any_same(db.limit_items, |i: LimitItemView| i.id == item_id, by_id(item_id));
}

/// A rating takes the place of what the same submissive said of the same item, and is added where
/// they had said nothing; every other rating stays. Clearing takes that rating away and no other.
pub proof fn law_a_rating_is_of_one_item_by_one(
    ratings: Seq<RatingView>,
    id: Seq<char>,
    submissive_id: Seq<char>,
    item_id: Seq<char>,
    rating: Seq<char>,
    notes: Option<Seq<char>>,
    now: i64,
    k: int,
    x: RatingView,
)
    requires
        0 <= k < ratings.len(),
    ensures
        ({
            let after = rating_set(ratings, id, submissive_id, item_id, rating, notes, now);
            let said = any_row(
                ratings,
                |x: RatingView| x.submissive_id == submissive_id && x.limit_item_id == item_id,
            );
            let r = ratings[k];
            &&& after[k] == (if r.submissive_id == submissive_id && r.limit_item_id == item_id {
                RatingView { rating, notes, updated_at: now, ..r }
            } else {
                r
            })
            &&& said ==> after.len() == ratings.len()
            &&& !said ==> after == ratings.push(
                RatingView {
                    id,
                    submissive_id,
                    limit_item_id: item_id,
                    rating,
                    notes,
                    updated_at: now,
                },
            )
        }),
        ratings.filter(|x: RatingView| !rating_of(submissive_id, item_id)(x)).contains(x)
            <==> ratings.contains(x) && !(x.submissive_id == submissive_id && x.limit_item_id
            == item_id),
{
    let p = |x: RatingView| x.submissive_id == submissive_id && x.limit_item_id == item_id;
    lemma_any_same(ratings, p, rating_of(submissive_id, item_id));
    if p(ratings[k]) {
        assert(any_row(ratings, p));
    }
    lemma_filter_contains(
        ratings,
        |x: RatingView| !rating_of(submissive_id, item_id)(x),
        x,
    );
}

/// The same of a Keyholder's ratings.
pub proof fn law_a_keyholders_rating_is_of_one_item(
    ratings: Seq<KeyholderRatingView>,
    id: Seq<char>,
    keyholder_id: Seq<char>,
    item_id: Seq<char>,
    rating: Seq<char>,
    notes: Option<Seq<char>>,
    now: i64,
    k: int,
    x: KeyholderRatingView,
)
    requires
        0 <= k < ratings.len(),
    ensures
        ({
            let after = keyholder_rating_set(ratings, id, keyholder_id, item_id, rating, notes, now);
            let said = any_row(
                ratings,
                |x: KeyholderRatingView|
                    x.keyholder_id == keyholder_id && x.limit_item_id == item_id,
            );
            let r = ratings[k];
            &&& after[k] == (if r.keyholder_id == keyholder_id && r.limit_item_id == item_id {
                KeyholderRatingView { rating, notes, updated_at: now, ..r }
            } else {
                r
            })
            &&& said ==> after.len() == ratings.len()
            &&& !said ==> after == ratings.push(
                KeyholderRatingView {
                    id,
                    keyholder_id,
                    limit_item_id: item_id,
                    rating,
                    notes,
                    updated_at: now,
                },
            )
        }),
        ratings.filter(
            |x: KeyholderRatingView| !keyholder_rating_of(keyholder_id, item_id)(x),
        ).contains(x) <==> ratings.contains(x) && !(x.keyholder_id == keyholder_id
            && x.limit_item_id == item_id),
{
    let p = |x: KeyholderRatingView|
        x.keyholder_id == keyholder_id && x.limit_item_id == item_id;
    lemma_any_same(ratings, p, keyholder_rating_of(keyholder_id, item_id));
    if p(ratings[k]) {
        assert(any_row(ratings, p));
    }
    lemma_filter_contains(
        ratings,
        |x: KeyholderRatingView| !keyholder_rating_of(keyholder_id, item_id)(x),
        x,
    );
}

/// A catalog holds the global items and the Keyholder's own, by category and label; what is offered
/// for rating are the active ones of it.
pub proof fn law_catalogs_hold_global_and_own_items(
    listed: Seq<LimitItemView>,
    db: LedgerView,
    keyholder_id: Seq<char>,
    items: Seq<LimitItemView>,
    x: LimitItemView,
)
    requires
        ordered_from(listed, db.limit_items.filter(in_catalog(keyholder_id)), catalog_order()),
        offered(items, db, keyholder_id),
    ensures
        listed.contains(x) <==> db.limit_items.contains(x) && (x.keyholder_id is None
            || x.keyholder_id->0 == keyholder_id),
        forall|i: int, j: int|
            0 <= i < j < listed.len() ==> at_least(
                (#[trigger] listed[j]).category,
                (#[trigger] listed[i]).category,
            ),
        forall|i: int, j: int|
            0 <= i < j < listed.len() && listed[i].category == listed[j].category ==> at_least(
                (#[trigger] listed[j]).label,
                (#[trigger] listed[i]).label,
            ),
        items.contains(x) <==> db.limit_items.contains(x) && x.active && (x.keyholder_id is None
            || x.keyholder_id->0 == keyholder_id),
{
    crate::text::lemma_at_least_order();
    lemma_listed(listed, db.limit_items, in_catalog(keyholder_id), catalog_order());
    let all = choose|all: Seq<LimitItemView>|
        #[trigger] ordered_from(all, db.limit_items.filter(in_catalog(keyholder_id)), catalog_order())
            && items == all.filter(active());
    lemma_listed(all, db.limit_items, in_catalog(keyholder_id), catalog_order());
    lemma_filter_contains(all, active(), x);
}

/// Each item is shown with what the one asked about says of that item, and with nothing where they
/// say nothing.
pub proof fn law_items_are_shown_with_their_ratings(
    items: Seq<LimitItemView>,
    db: LedgerView,
    submissive_id: Seq<char>,
    keyholder_id: Seq<char>,
    k: int,
)
    requires
        0 <= k < items.len(),
    ensures
        ({
            let shown = rated_by_submissive(items, db, submissive_id);
            let mine = |x: RatingView|
                x.submissive_id == submissive_id && x.limit_item_id == items[k].id;
            &&& shown.len() == items.len() && shown[k].0 == items[k]
            &&& shown[k].1 is None ==> !any_row(db.submissive_ratings, mine)
            &&& shown[k].1 is Some ==> mine(shown[k].1->0) && db.submissive_ratings.contains(
                shown[k].1->0,
            )
        }),
        ({
            let shown = rated_by_keyholder(items, db, keyholder_id);
            let mine = |x: KeyholderRatingView|
                x.keyholder_id == keyholder_id && x.limit_item_id == items[k].id;
            &&& shown.len() == items.len() && shown[k].0 == items[k]
            &&& shown[k].1 is None ==> !any_row(db.keyholder_ratings, mine)
            &&& shown[k].1 is Some ==> mine(shown[k].1->0) && db.keyholder_ratings.contains(
                shown[k].1->0,
            )
        }),
{
    let s = db.submissive_ratings;
    let p = by_submissive(submissive_id);
    let q = of_item(items[k].id);
    let f = s.filter(p);
    lemma_find_any(f, q);
    let mine = |x: RatingView| x.submissive_id == submissive_id && x.limit_item_id == items[k].id;
    if find_row(f, q) is Some {
        let x = find_row(f, q)->0;
        assert(f.contains(x));
        lemma_filter_contains(s, p, x);
    } else if any_row(s, mine) {
        let j = choose|j: int| 0 <= j < s.len() && mine(#[trigger] s[j]);
        lemma_filter_contains(s, p, s[j]);
        let i = choose|i: int| 0 <= i < f.len() && f[i] == s[j];
        assert(q(f[i]));
    }
    let s2 = db.keyholder_ratings;
    let p2 = by_keyholder(keyholder_id);
    let q2 = keyholder_of_item(items[k].id);
    let f2 = s2.filter(p2);
    lemma_find_any(f2, q2);
    let mine2 = |x: KeyholderRatingView|
        x.keyholder_id == keyholder_id && x.limit_item_id == items[k].id;
    if find_row(f2, q2) is Some {
        let x = find_row(f2, q2)->0;
        assert(f2.contains(x));
        lemma_filter_contains(s2, p2, x);
    } else if any_row(s2, mine2) {
        let j = choose|j: int| 0 <= j < s2.len() && mine2(#[trigger] s2[j]);
        lemma_filter_contains(s2, p2, s2[j]);
        let i = choose|i: int| 0 <= i < f2.len() && f2[i] == s2[j];
        assert(q2(f2[i]));
    }
}

/// Ratings are listed for the one asked about, all of them.
pub proof fn law_ratings_are_listed_whole(
    db: LedgerView,
    submissive_id: Seq<char>,
    keyholder_id: Seq<char>,
    x: RatingView,
    y: KeyholderRatingView,
)
    ensures
        db.submissive_ratings.filter(by_submissive(submissive_id)).contains(x)
            <==> db.submissive_ratings.contains(x) && x.submissive_id == submissive_id,
        db.keyholder_ratings.filter(by_keyholder(keyholder_id)).contains(y)
            <==> db.keyholder_ratings.contains(y) && y.keyholder_id == keyholder_id,
{
    lemma_filter_contains(db.submissive_ratings, by_submissive(submissive_id), x);
    lemma_filter_contains(db.keyholder_ratings, by_keyholder(keyholder_id), y);
}

} // verus!
