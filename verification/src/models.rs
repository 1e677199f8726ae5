//! The collection data model: media items, user records, and the full
//! per-user snapshot (`CollectionData`) that replicas exchange when they
//! synchronize.
//!
//! Every executable type has a mathematical view (`...V`) over which all
//! contracts in this crate are stated: strings become `Seq<char>`, vectors
//! become `Seq`, and the per-user mapping becomes an association sequence.

use vstd::prelude::*;

verus! {

/// The kind of media a tracked item refers to.
#[derive(Clone, Copy, PartialEq, Eq, Structural, Debug)]
pub enum MediaType {
    Book,
    Movie,
    TvSeries,
    Comic,
    ShortDrama,
    Music,
    Other,
}

/// Which shelf of a user's collection an item sits on.
#[derive(Clone, Copy, PartialEq, Eq, Structural, Debug)]
pub enum CollectionCategory {
    Favorites,
    ToWatch,
    Watched,
}

/// One tracked piece of media, owned by exactly one user's collection.
///
/// `id` is the item's identity within that user's list and `last_edited_at`
/// (epoch milliseconds, absent meaning 0) is the sole field the merge engine
/// uses to resolve conflicts. `user_rating_bits` carries the bit pattern of
/// the user's numeric rating; this crate never interprets it.
#[derive(Debug, PartialEq)]
pub struct MediaItem {
    pub id: String,
    pub title: String,
    pub director_or_author: String,
    pub description: String,
    pub release_date: String,
    pub media_type: MediaType,
    pub is_ongoing: bool,
    pub latest_update_info: Option<String>,
    pub category: Option<CollectionCategory>,
    pub saved_at: Option<i64>,
    pub poster_url: Option<String>,
    pub rating: Option<String>,
    pub cast: Option<Vec<String>>,
    pub user_progress: Option<String>,
    pub notification_enabled: Option<bool>,
    pub last_checked_at: Option<i64>,
    pub has_new_update: Option<bool>,
    pub user_review: Option<String>,
    pub custom_poster_url: Option<String>,
    pub last_edited_at: Option<i64>,
    pub status: Option<String>,
    pub added_at: Option<String>,
    pub user_rating_bits: Option<u32>,
    pub parent_collection_id: Option<String>,
    pub is_collection: Option<bool>,
}

/// Mathematical view of a `MediaItem`.
#[verifier::ext_equal]
pub struct MediaItemV {
    pub id: Seq<char>,
    pub title: Seq<char>,
    pub director_or_author: Seq<char>,
    pub description: Seq<char>,
    pub release_date: Seq<char>,
    pub media_type: MediaType,
    pub is_ongoing: bool,
    pub latest_update_info: Option<Seq<char>>,
    pub category: Option<CollectionCategory>,
    pub saved_at: Option<i64>,
    pub poster_url: Option<Seq<char>>,
    pub rating: Option<Seq<char>>,
    pub cast: Option<Seq<Seq<char>>>,
    pub user_progress: Option<Seq<char>>,
    pub notification_enabled: Option<bool>,
    pub last_checked_at: Option<i64>,
    pub has_new_update: Option<bool>,
    pub user_review: Option<Seq<char>>,
    pub custom_poster_url: Option<Seq<char>>,
    pub last_edited_at: Option<i64>,
    pub status: Option<Seq<char>>,
    pub added_at: Option<Seq<char>>,
    pub user_rating_bits: Option<u32>,
    pub parent_collection_id: Option<Seq<char>>,
    pub is_collection: Option<bool>,
}

impl View for MediaItem {
    type V = MediaItemV;

    open spec fn view(&self) -> MediaItemV {
        MediaItemV {
            id: self.id@,
            title: self.title@,
            director_or_author: self.director_or_author@,
            description: self.description@,
            release_date: self.release_date@,
            media_type: self.media_type,
            is_ongoing: self.is_ongoing,
            latest_update_info: self.latest_update_info.deep_view(),
            category: self.category,
            saved_at: self.saved_at,
            poster_url: self.poster_url.deep_view(),
            rating: self.rating.deep_view(),
            cast: self.cast.deep_view(),
            user_progress: self.user_progress.deep_view(),
            notification_enabled: self.notification_enabled,
            last_checked_at: self.last_checked_at,
            has_new_update: self.has_new_update,
            user_review: self.user_review.deep_view(),
            custom_poster_url: self.custom_poster_url.deep_view(),
            last_edited_at: self.last_edited_at,
            status: self.status.deep_view(),
            added_at: self.added_at.deep_view(),
            user_rating_bits: self.user_rating_bits,
            parent_collection_id: self.parent_collection_id.deep_view(),
            is_collection: self.is_collection,
        }
    }
}

impl DeepView for MediaItem {
    type V = MediaItemV;

    open spec fn deep_view(&self) -> MediaItemV {
        self.view()
    }
}

/// Clones an optional string; the copy is equal to the original.
pub(crate) fn clone_opt_string(o: &Option<String>) -> (r: Option<String>)
    ensures
        r == *o,
{
    match o {
        Some(s) => Some(s.clone()),
        None => None,
    }
}

/// Clones a vector of strings; the copy is equal to the original.
pub(crate) fn clone_vec_string(v: &Vec<String>) -> (r: Vec<String>)
    ensures
        r@ == v@,
{
    let mut r: Vec<String> = Vec::new();
    let n = v.len();
    for i in 0..n
        invariant
            n == v@.len(),
            r@ =~= v@.take(i as int),
    {
        r.push(v[i].clone());
    }
    proof {
        assert(r@ =~= v@);
    }
    r
}

/// Clones an optional vector of strings; the copy is equal to the original
/// up to its view.
pub(crate) fn clone_opt_vec_string(o: &Option<Vec<String>>) -> (r: Option<Vec<String>>)
    ensures
        r.deep_view() == o.deep_view(),
        r is Some <==> o is Some,
{
    match o {
        Some(v) => Some(clone_vec_string(v)),
        None => None,
    }
}

impl Clone for MediaItem {
    /// The copy has the same view as the original.
    fn clone(&self) -> (r: Self)
        ensures
            r@ == self@,
    {
        let r = MediaItem {
            id: self.id.clone(),
            title: self.title.clone(),
            director_or_author: self.director_or_author.clone(),
            description: self.description.clone(),
            release_date: self.release_date.clone(),
            media_type: self.media_type,
            is_ongoing: self.is_ongoing,
            latest_update_info: clone_opt_string(&self.latest_update_info),
            category: self.category,
            saved_at: self.saved_at,
            poster_url: clone_opt_string(&self.poster_url),
            rating: clone_opt_string(&self.rating),
            cast: clone_opt_vec_string(&self.cast),
            user_progress: clone_opt_string(&self.user_progress),
            notification_enabled: self.notification_enabled,
            last_checked_at: self.last_checked_at,
            has_new_update: self.has_new_update,
            user_review: clone_opt_string(&self.user_review),
            custom_poster_url: clone_opt_string(&self.custom_poster_url),
            last_edited_at: self.last_edited_at,
            status: clone_opt_string(&self.status),
            added_at: clone_opt_string(&self.added_at),
            user_rating_bits: self.user_rating_bits,
            parent_collection_id: clone_opt_string(&self.parent_collection_id),
            is_collection: self.is_collection,
        };
        proof {
            assert(r@ =~= self@);
        }
        r
    }
}

/// A stored user account. Merging replicas unions these records by username
/// and never overwrites an existing record.
#[derive(Debug, PartialEq)]
pub struct UserRecord {
    pub username: String,
    pub password_hash: String,
    pub created_at: i64,
}

/// Mathematical view of a `UserRecord`.
#[verifier::ext_equal]
pub struct UserRecordV {
    pub username: Seq<char>,
    pub password_hash: Seq<char>,
    pub created_at: i64,
}

impl View for UserRecord {
    type V = UserRecordV;

    open spec fn view(&self) -> UserRecordV {
        UserRecordV {
            username: self.username@,
            password_hash: self.password_hash@,
            created_at: self.created_at,
        }
    }
}

impl DeepView for UserRecord {
    type V = UserRecordV;

    open spec fn deep_view(&self) -> UserRecordV {
        self.view()
    }
}

impl Clone for UserRecord {
    /// The copy has the same view as the original.
    fn clone(&self) -> (r: Self)
        ensures
            r@ == self@,
    {
        UserRecord {
            username: self.username.clone(),
            password_hash: self.password_hash.clone(),
            created_at: self.created_at,
        }
    }
}

/// The part of a user record that is safe to hand back to callers.
#[derive(Debug, PartialEq)]
pub struct UserPublic {
    pub username: String,
}

impl View for UserPublic {
    type V = Seq<char>;

    open spec fn view(&self) -> Seq<char> {
        self.username@
    }
}

impl Clone for UserPublic {
    /// The copy has the same view as the original.
    fn clone(&self) -> (r: Self)
        ensures
            r@ == self@,
    {
        UserPublic { username: self.username.clone() }
    }
}

/// One user's ordered item list, tagged with the username that owns it.
#[derive(Debug, PartialEq)]
pub struct UserItems {
    pub username: String,
    pub items: Vec<MediaItem>,
}

/// Mathematical view of a `UserItems` entry.
#[verifier::ext_equal]
pub struct UserItemsV {
    pub username: Seq<char>,
    pub items: Seq<MediaItemV>,
}

impl View for UserItems {
    type V = UserItemsV;

    open spec fn view(&self) -> UserItemsV {
        UserItemsV { username: self.username@, items: self.items.deep_view() }
    }
}

impl DeepView for UserItems {
    type V = UserItemsV;

    open spec fn deep_view(&self) -> UserItemsV {
        self.view()
    }
}

/// Clones a vector of media items; the copy has the same view.
pub(crate) fn clone_vec_items(v: &Vec<MediaItem>) -> (r: Vec<MediaItem>)
    ensures
        r.deep_view() == v.deep_view(),
{
    let mut r: Vec<MediaItem> = Vec::new();
    let n = v.len();
    for i in 0..n
        invariant
            n == v@.len(),
            r.deep_view() =~= v.deep_view().take(i as int),
    {
        let ghost pre_deep = r.deep_view();
        let ghost pre_seq = r@;
        let c = v[i].clone();
        r.push(c);
        proof {
            assert(pre_deep.len() == i as int);
            assert(pre_seq.len() == i as int);
            assert(r@ == pre_seq.push(c));
            assert(c.deep_view() == v.deep_view()[i as int]);
            assert forall|j: int| 0 <= j < r.deep_view().len() implies r.deep_view()[j]
                == v.deep_view().take(i as int + 1)[j] by {
                assert(r.deep_view()[j] == r@[j].deep_view());
                if j < i as int {
                    assert(r@[j] == pre_seq[j]);
                    assert(pre_deep[j] == pre_seq[j].deep_view());
                    assert(pre_deep[j] == v.deep_view().take(i as int)[j]);
                } else {
                    assert(r@[j] == c);
                }
            }
            assert(r.deep_view() =~= v.deep_view().take(i as int + 1));
        }
    }
    proof {
        assert(r.deep_view() =~= v.deep_view());
    }
    r
}

impl Clone for UserItems {
    /// The copy has the same view as the original.
    fn clone(&self) -> (r: Self)
        ensures
            r@ == self@,
    {
        let r = UserItems { username: self.username.clone(), items: clone_vec_items(&self.items) };
        proof {
            assert(r@ =~= self@);
        }
        r
    }
}

/// The full exportable snapshot of one replica: the legacy flat item list,
/// the user records, and the per-user item lists. This is the unit exchanged
/// over the sync transport and the unit the merge engine operates on.
#[derive(Debug, PartialEq)]
pub struct CollectionData {
    pub items: Vec<MediaItem>,
    pub users: Vec<UserRecord>,
    pub items_by_user: Vec<UserItems>,
}

/// Mathematical view of a `CollectionData` snapshot. The per-user mapping is
/// kept as an association sequence so that list order, which the merge engine
/// preserves, stays visible in contracts.
#[verifier::ext_equal]
pub struct CollectionDataV {
    pub items: Seq<MediaItemV>,
    pub users: Seq<UserRecordV>,
    pub items_by_user: Seq<UserItemsV>,
}

impl View for CollectionData {
    type V = CollectionDataV;

    open spec fn view(&self) -> CollectionDataV {
        CollectionDataV {
            items: self.items.deep_view(),
            users: self.users.deep_view(),
            items_by_user: self.items_by_user.deep_view(),
        }
    }
}

/// Clones a vector of user records; the copy has the same view.
pub(crate) fn clone_vec_users(v: &Vec<UserRecord>) -> (r: Vec<UserRecord>)
    ensures
        r.deep_view() == v.deep_view(),
{
    let mut r: Vec<UserRecord> = Vec::new();
    let n = v.len();
    for i in 0..n
        invariant
            n == v@.len(),
            r.deep_view() =~= v.deep_view().take(i as int),
    {
        let ghost pre_deep = r.deep_view();
        let ghost pre_seq = r@;
        let c = v[i].clone();
        r.push(c);
        proof {
            assert(pre_deep.len() == i as int);
            assert(pre_seq.len() == i as int);
            assert(r@ == pre_seq.push(c));
            assert(c.deep_view() == v.deep_view()[i as int]);
            assert forall|j: int| 0 <= j < r.deep_view().len() implies r.deep_view()[j]
                == v.deep_view().take(i as int + 1)[j] by {
                assert(r.deep_view()[j] == r@[j].deep_view());
                if j < i as int {
                    assert(r@[j] == pre_seq[j]);
                    assert(pre_deep[j] == pre_seq[j].deep_view());
                    assert(pre_deep[j] == v.deep_view().take(i as int)[j]);
                } else {
                    assert(r@[j] == c);
                }
            }
            assert(r.deep_view() =~= v.deep_view().take(i as int + 1));
        }
    }
    proof {
        assert(r.deep_view() =~= v.deep_view());
    }
    r
}

/// Clones a vector of per-user entries; the copy has the same view.
pub(crate) fn clone_vec_user_items(v: &Vec<UserItems>) -> (r: Vec<UserItems>)
    ensures
        r.deep_view() == v.deep_view(),
{
    let mut r: Vec<UserItems> = Vec::new();
    let n = v.len();
    for i in 0..n
        invariant
            n == v@.len(),
            r.deep_view() =~= v.deep_view().take(i as int),
    {
        let ghost pre_deep = r.deep_view();
        let ghost pre_seq = r@;
        let c = v[i].clone();
        r.push(c);
        proof {
            assert(pre_deep.len() == i as int);
            assert(pre_seq.len() == i as int);
            assert(r@ == pre_seq.push(c));
            assert(c.deep_view() == v.deep_view()[i as int]);
            assert forall|j: int| 0 <= j < r.deep_view().len() implies r.deep_view()[j]
                == v.deep_view().take(i as int + 1)[j] by {
                assert(r.deep_view()[j] == r@[j].deep_view());
                if j < i as int {
                    assert(r@[j] == pre_seq[j]);
                    assert(pre_deep[j] == pre_seq[j].deep_view());
                    assert(pre_deep[j] == v.deep_view().take(i as int)[j]);
                } else {
                    assert(r@[j] == c);
                }
            }
            assert(r.deep_view() =~= v.deep_view().take(i as int + 1));
        }
    }
    proof {
        assert(r.deep_view() =~= v.deep_view());
    }
    r
}

impl Clone for CollectionData {
    /// The copy has the same view as the original.
    fn clone(&self) -> (r: Self)
        ensures
            r@ == self@,
    {
        let r = CollectionData {
            items: clone_vec_items(&self.items),
            users: clone_vec_users(&self.users),
            items_by_user: clone_vec_user_items(&self.items_by_user),
        };
        proof {
            assert(r@ =~= self@);
        }
        r
    }
}

impl CollectionData {
    /// An empty snapshot: no items, no users, no per-user lists.
    pub fn empty() -> (r: CollectionData)
        ensures
            r@.items.len() == 0,
            r@.users.len() == 0,
            r@.items_by_user.len() == 0,
    {
        CollectionData { items: Vec::new(), users: Vec::new(), items_by_user: Vec::new() }
    }
}

/// A push on a vector is a push on its deep view.
pub(crate) proof fn lemma_deep_view_push<T: DeepView>(v1: Vec<T>, v2: Vec<T>, x: T)
    requires
        v2@ == v1@.push(x),
    ensures
        v2.deep_view() == v1.deep_view().push(x.deep_view()),
{
    assert forall|j: int| 0 <= j < v2.deep_view().len() implies v2.deep_view()[j]
        == v1.deep_view().push(x.deep_view())[j] by {
        if j < v1@.len() {
            assert(v2@[j] == v1@[j]);
        } else {
            assert(v2@[j] == x);
        }
    }
    assert(v2.deep_view() =~= v1.deep_view().push(x.deep_view()));
}

/// An in-place update of a vector is an update of its deep view.
pub(crate) proof fn lemma_deep_view_update<T: DeepView>(v1: Vec<T>, v2: Vec<T>, i: int, x: T)
    requires
        0 <= i < v1@.len(),
        v2@ == v1@.update(i, x),
    ensures
        v2.deep_view() == v1.deep_view().update(i, x.deep_view()),
{
    assert forall|j: int| 0 <= j < v2.deep_view().len() implies v2.deep_view()[j]
        == v1.deep_view().update(i, x.deep_view())[j] by {
        if j != i {
            assert(v2@[j] == v1@[j]);
        } else {
            assert(v2@[j] == x);
        }
    }
    assert(v2.deep_view() =~= v1.deep_view().update(i, x.deep_view()));
}

/// Filtering after a push keeps the element exactly when the predicate
/// holds of it.
pub(crate) proof fn lemma_filter_push<A>(q: Seq<A>, x: A, pred: spec_fn(A) -> bool)
    ensures
        q.push(x).filter(pred) == if pred(x) {
            q.filter(pred).push(x)
        } else {
            q.filter(pred)
        },
{
    Seq::filter_distributes_over_add(q, seq![x], pred);
    assert(q.push(x) =~= q + seq![x]);
    reveal_with_fuel(Seq::filter, 2);
    assert(seq![x].drop_last() =~= Seq::<A>::empty());
    assert(seq![x].last() == x);
    if pred(x) {
        assert(q.filter(pred) + seq![x] =~= q.filter(pred).push(x));
    } else {
        assert(q.filter(pred) + Seq::<A>::empty() =~= q.filter(pred));
    }
}

} // verus!
