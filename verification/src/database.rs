//! The collection store: an in-memory `CollectionData` snapshot with the
//! read and write operations the application and the sync transport use.
//!
//! This is the pure core of the store; the surrounding application owns the
//! lock that serializes mutations and the file that persists each snapshot
//! after a successful write.

use vstd::prelude::*;

use crate::merge::{first_entry_idx, first_user_idx, find_entry_index, find_item_index,
    find_user_index, lemma_first_entry_idx, lemma_first_user_idx, merge_collection,
    merge_collection_data, seq_has_entry, seq_has_item_id, has_username};
use crate::models::{clone_vec_items, lemma_deep_view_push, lemma_deep_view_update,
    lemma_filter_push, CollectionData, CollectionDataV, MediaItem, MediaItemV, UserItems,
    UserItemsV, UserRecord};
use vstd::pervasive::VecAdditionalExecFns;

verus! {

/// Predicate keeping the items whose identifier differs from `id`.
pub open spec fn not_id(id: Seq<char>) -> spec_fn(MediaItemV) -> bool {
    |it: MediaItemV| it.id != id
}

/// Predicate keeping the items whose identifier is absent from `base`.
pub open spec fn keep_new(base: Seq<MediaItemV>) -> spec_fn(MediaItemV) -> bool {
    |it: MediaItemV| !seq_has_item_id(base, it.id)
}

/// A copy of `items` without the items whose identifier is `id`, in order.
pub fn items_without_id(items: &Vec<MediaItem>, id: &str) -> (r: Vec<MediaItem>)
    ensures
        r.deep_view() == items.deep_view().filter(not_id(id@)),
{
    let mut r: Vec<MediaItem> = Vec::new();
    let n = items.len();
    proof {
        assert(r.deep_view() =~= Seq::<MediaItemV>::empty());
        assert(items.deep_view().take(0) =~= Seq::<MediaItemV>::empty());
        reveal_with_fuel(Seq::filter, 1);
    }
    for i in 0..n
        invariant
            n == items@.len(),
            r.deep_view() == items.deep_view().take(i as int).filter(not_id(id@)),
    {
        let it = &items[i];
        proof {
            assert(it@ == items.deep_view()[i as int]);
            assert(items.deep_view().take(i as int + 1) =~= items.deep_view().take(i as int).push(
                it@,
            ));
            lemma_filter_push(items.deep_view().take(i as int), it@, not_id(id@));
        }
        if !crate::trusted::str_eq(it.id.as_str(), id) {
            let c = it.clone();
            let ghost pre_vec = r;
            r.push(c);
            proof {
                lemma_deep_view_push(pre_vec, r, c);
            }
        } else {
            proof {
                assert(!not_id(id@)(it@));
            }
        }
    }
    proof {
        assert(items.deep_view().take(n as int) =~= items.deep_view());
    }
    r
}

/// Extends `base` with the incoming items whose identifier does not occur in
/// `base`, in incoming order; the check is against `base` as it was handed
/// in, so two incoming items sharing a new identifier are both appended.
pub fn append_new_items(base: Vec<MediaItem>, incoming: &Vec<MediaItem>) -> (r: Vec<MediaItem>)
    ensures
        r.deep_view() == base.deep_view() + incoming.deep_view().filter(
            keep_new(base.deep_view()),
        ),
{
    let ghost base_v = base.deep_view();
    let snapshot = clone_vec_items(&base);
    let mut r = base;
    let n = incoming.len();
    proof {
        assert(incoming.deep_view().take(0) =~= Seq::<MediaItemV>::empty());
        reveal_with_fuel(Seq::filter, 1);
        assert(r.deep_view() =~= base_v + incoming.deep_view().take(0).filter(keep_new(base_v)));
    }
    for i in 0..n
        invariant
            n == incoming@.len(),
            snapshot.deep_view() == base_v,
            r.deep_view() == base_v + incoming.deep_view().take(i as int).filter(keep_new(base_v)),
    {
        let inc = &incoming[i];
        proof {
            assert(inc@ == incoming.deep_view()[i as int]);
            assert(incoming.deep_view().take(i as int + 1) =~= incoming.deep_view().take(
                i as int,
            ).push(inc@));
            lemma_filter_push(incoming.deep_view().take(i as int), inc@, keep_new(base_v));
        }
        match find_item_index(&snapshot, inc.id.as_str()) {
            Some(_) => {
                proof {
                    assert(!keep_new(base_v)(inc@));
                }
            },
            None => {
                proof {
                    assert(keep_new(base_v)(inc@));
                }
                let c = inc.clone();
                let ghost pre_vec = r;
                r.push(c);
                proof {
                    lemma_deep_view_push(pre_vec, r, c);
                }
            },
        }
    }
    proof {
        assert(incoming.deep_view().take(n as int) =~= incoming.deep_view());
    }
    r
}

/// `it` with the fields the export redaction strips set to nothing: the
/// user's private review and their notification switch.
pub open spec fn redacted(it: MediaItemV) -> MediaItemV {
    MediaItemV { user_review: None, notification_enabled: None, ..it }
}

/// The items as an export with redaction writes them: every item keeps all
/// its fields except the user's review and notification switch, which are
/// cleared.
pub fn redact_for_export(items: Vec<MediaItem>) -> (r: Vec<MediaItem>)
    ensures
        r.deep_view().len() == items.deep_view().len(),
        forall|i: int|
            0 <= i < r.deep_view().len() ==> r.deep_view()[i] == redacted(
                #[trigger] items.deep_view()[i],
            ),
{
    let ghost pre = items.deep_view();
    let mut r = items;
    let n = r.len();
    for i in 0..n
        invariant
            n == r@.len(),
            r@.len() == pre.len(),
            forall|k: int| 0 <= k < i ==> r.deep_view()[k] == redacted(#[trigger] pre[k]),
            forall|k: int| i <= k < pre.len() ==> r.deep_view()[k] == #[trigger] pre[k],
    {
        let mut slot = MediaItem {
            id: String::new(),
            title: String::new(),
            director_or_author: String::new(),
            description: String::new(),
            release_date: String::new(),
            media_type: crate::models::MediaType::Other,
            is_ongoing: false,
            latest_update_info: None,
            category: None,
            saved_at: None,
            poster_url: None,
            rating: None,
            cast: None,
            user_progress: None,
            notification_enabled: None,
            last_checked_at: None,
            has_new_update: None,
            user_review: None,
            custom_poster_url: None,
            last_edited_at: None,
            status: None,
            added_at: None,
            user_rating_bits: None,
            parent_collection_id: None,
            is_collection: None,
        };
        let ghost pre_vec = r;
        r.set_and_swap(i, &mut slot);
        slot.user_review = None;
        slot.notification_enabled = None;
        let ghost cleared = slot;
        r.set_and_swap(i, &mut slot);
        proof {
            assert(r@ =~= pre_vec@.update(i as int, cleared));
            lemma_deep_view_update(pre_vec, r, i as int, cleared);
            assert(cleared@ == redacted(pre[i as int]));
        }
    }
    r
}

/// The collection store. It owns one `CollectionData` snapshot; its view is
/// that snapshot's view.
pub struct Database {
    pub data: CollectionData,
}

impl View for Database {
    type V = CollectionDataV;

    open spec fn view(&self) -> CollectionDataV {
        self.data@
    }
}

impl Database {
    /// Builds a store around a snapshot, typically one read back from disk.
    pub fn new(data: CollectionData) -> (db: Database)
        ensures
            db@ == data@,
    {
        Database { data }
    }

    /// The full current snapshot, for the sync transport to serve.
    pub fn get_full_data(&self) -> (r: CollectionData)
        ensures
            r@ == self@,
    {
        self.data.clone()
    }

    /// Merges an incoming snapshot into this store by the last-writer-wins
    /// rule of the merge engine.
    pub fn merge_full_data(&mut self, incoming: &CollectionData)
        ensures
            final(self)@ == merge_collection(old(self)@, incoming@),
    {
        merge_collection_data(&mut self.data, incoming);
    }

    /// A copy of the legacy flat item list.
    pub fn get_all(&self) -> (r: Vec<MediaItem>)
        ensures
            r.deep_view() == self@.items,
    {
        clone_vec_items(&self.data.items)
    }

    /// A copy of `username`'s item list, or an empty list for an unknown user.
    pub fn get_all_for_user(&self, username: &str) -> (r: Vec<MediaItem>)
        ensures
            seq_has_entry(self@.items_by_user, username@) ==> r.deep_view()
                == self@.items_by_user[first_entry_idx(self@.items_by_user, username@)].items,
            !seq_has_entry(self@.items_by_user, username@) ==> r.deep_view() == Seq::<
                MediaItemV,
            >::empty(),
    {
        match find_entry_index(&self.data.items_by_user, username) {
            Some(j) => {
                proof {
                    lemma_first_entry_idx(self@.items_by_user, username@);
                }
                clone_vec_items(&self.data.items_by_user[j].items)
            },
            None => {
                let r: Vec<MediaItem> = Vec::new();
                proof {
                    assert(r.deep_view() =~= Seq::<MediaItemV>::empty());
                }
                r
            },
        }
    }

    /// Saves `item` for `username`: any stored item with the same identifier
    /// is dropped, then `item` is appended at the end of the user's list. A
    /// user with no list yet gets one holding just `item`.
    pub fn add_item_for_user(&mut self, username: &str, item: MediaItem)
        ensures
            final(self)@.items == old(self)@.items,
            final(self)@.users == old(self)@.users,
            seq_has_entry(old(self)@.items_by_user, username@) ==> final(self)@.items_by_user == ({
                let j = first_entry_idx(old(self)@.items_by_user, username@);
                old(self)@.items_by_user.update(
                    j,
                    UserItemsV {
                        username: old(self)@.items_by_user[j].username,
                        items: old(self)@.items_by_user[j].items.filter(not_id(item@.id)).push(
                            item@,
                        ),
                    },
                )
            }),
            !seq_has_entry(old(self)@.items_by_user, username@) ==> final(self)@.items_by_user
                == old(self)@.items_by_user.push(
                UserItemsV { username: username@, items: seq![item@] },
            ),
    {
        let ghost pre = self.data.items_by_user.deep_view();
        match find_entry_index(&self.data.items_by_user, username) {
            Some(j) => {
                proof {
                    lemma_first_entry_idx(pre, username@);
                }
                let mut entry = UserItems { username: String::new(), items: Vec::new() };
                let ghost pre_vec = self.data.items_by_user;
                self.data.items_by_user.set_and_swap(j, &mut entry);
                let UserItems { username: owner, items: owned } = entry;
                let mut kept = items_without_id(&owned, item.id.as_str());
                kept.push(item);
                let mut slot = UserItems { username: owner, items: kept };
                let ghost updated = slot;
                self.data.items_by_user.set_and_swap(j, &mut slot);
                proof {
                    assert(self.data.items_by_user@ =~= pre_vec@.update(j as int, updated));
                    lemma_deep_view_update(pre_vec, self.data.items_by_user, j as int, updated);
                    assert(updated@.items =~= pre[j as int].items.filter(not_id(item@.id)).push(
                        item@,
                    ));
                    assert(updated@ == UserItemsV {
                        username: pre[j as int].username,
                        items: pre[j as int].items.filter(not_id(item@.id)).push(item@),
                    });
                }
            },
            None => {
                let mut single: Vec<MediaItem> = Vec::new();
                proof {
                    assert(single.deep_view() =~= Seq::<MediaItemV>::empty());
                }
                single.push(item);
                let c = UserItems { username: username.to_owned(), items: single };
                let ghost pre_vec = self.data.items_by_user;
                self.data.items_by_user.push(c);
                proof {
                    lemma_deep_view_push(pre_vec, self.data.items_by_user, c);
                    assert(c@.items =~= seq![item@]);
                    assert(c@ == UserItemsV { username: username@, items: seq![item@] });
                }
            },
        }
    }

    /// Removes every item with identifier `id` from `username`'s list; an
    /// unknown user changes nothing.
    pub fn remove_item_for_user(&mut self, username: &str, id: &str)
        ensures
            final(self)@.items == old(self)@.items,
            final(self)@.users == old(self)@.users,
            seq_has_entry(old(self)@.items_by_user, username@) ==> final(self)@.items_by_user == ({
                let j = first_entry_idx(old(self)@.items_by_user, username@);
                old(self)@.items_by_user.update(
                    j,
                    UserItemsV {
                        username: old(self)@.items_by_user[j].username,
                        items: old(self)@.items_by_user[j].items.filter(not_id(id@)),
                    },
                )
            }),
            !seq_has_entry(old(self)@.items_by_user, username@) ==> final(self)@ == old(self)@,
    {
        let ghost pre = self.data.items_by_user.deep_view();
        match find_entry_index(&self.data.items_by_user, username) {
            Some(j) => {
                proof {
                    lemma_first_entry_idx(pre, username@);
                }
                let mut entry = UserItems { username: String::new(), items: Vec::new() };
                let ghost pre_vec = self.data.items_by_user;
                self.data.items_by_user.set_and_swap(j, &mut entry);
                let UserItems { username: owner, items: owned } = entry;
                let kept = items_without_id(&owned, id);
                let mut slot = UserItems { username: owner, items: kept };
                let ghost updated = slot;
                self.data.items_by_user.set_and_swap(j, &mut slot);
                proof {
                    assert(self.data.items_by_user@ =~= pre_vec@.update(j as int, updated));
                    lemma_deep_view_update(pre_vec, self.data.items_by_user, j as int, updated);
                    assert(updated@ == UserItemsV {
                        username: pre[j as int].username,
                        items: pre[j as int].items.filter(not_id(id@)),
                    });
                }
            },
            None => {
            },
        }
    }

    /// The per-item update operation was retired in favour of the per-user
    /// ones; it always fails.
    pub fn update_item(&self, _item: MediaItem) -> (r: Result<(), String>)
        ensures
            r matches Err(m) && m@ == "update_item deprecated; use per-user methods"@,
    {
        Err("update_item deprecated; use per-user methods".to_owned())
    }

    /// Bulk import for `username`: the incoming items whose identifiers are
    /// new to the user's current list are appended, in incoming order; items
    /// whose identifiers are already present are dropped.
    pub fn import_for_user(&mut self, username: &str, items: Vec<MediaItem>)
        ensures
            final(self)@.items == old(self)@.items,
            final(self)@.users == old(self)@.users,
            seq_has_entry(old(self)@.items_by_user, username@) ==> final(self)@.items_by_user == ({
                let j = first_entry_idx(old(self)@.items_by_user, username@);
                old(self)@.items_by_user.update(
                    j,
                    UserItemsV {
                        username: old(self)@.items_by_user[j].username,
                        items: old(self)@.items_by_user[j].items + items.deep_view().filter(
                            keep_new(old(self)@.items_by_user[j].items),
                        ),
                    },
                )
            }),
            !seq_has_entry(old(self)@.items_by_user, username@) ==> final(self)@.items_by_user
                == old(self)@.items_by_user.push(
                UserItemsV {
                    username: username@,
                    items: items.deep_view().filter(keep_new(Seq::<MediaItemV>::empty())),
                },
            ),
    {
        let ghost pre = self.data.items_by_user.deep_view();
        match find_entry_index(&self.data.items_by_user, username) {
            Some(j) => {
                proof {
                    lemma_first_entry_idx(pre, username@);
                }
                let mut entry = UserItems { username: String::new(), items: Vec::new() };
                let ghost pre_vec = self.data.items_by_user;
                self.data.items_by_user.set_and_swap(j, &mut entry);
                let UserItems { username: owner, items: owned } = entry;
                let extended = append_new_items(owned, &items);
                let mut slot = UserItems { username: owner, items: extended };
                let ghost updated = slot;
                self.data.items_by_user.set_and_swap(j, &mut slot);
                proof {
                    assert(self.data.items_by_user@ =~= pre_vec@.update(j as int, updated));
                    lemma_deep_view_update(pre_vec, self.data.items_by_user, j as int, updated);
                    assert(updated@ == UserItemsV {
                        username: pre[j as int].username,
                        items: pre[j as int].items + items.deep_view().filter(
                            keep_new(pre[j as int].items),
                        ),
                    });
                }
            },
            None => {
                let fresh: Vec<MediaItem> = Vec::new();
                let ghost fresh_v = fresh.deep_view();
                proof {
                    assert(fresh_v =~= Seq::<MediaItemV>::empty());
                }
                let filled = append_new_items(fresh, &items);
                let c = UserItems { username: username.to_owned(), items: filled };
                let ghost pre_vec = self.data.items_by_user;
                self.data.items_by_user.push(c);
                proof {
                    lemma_deep_view_push(pre_vec, self.data.items_by_user, c);
                    assert(c@.items =~= items.deep_view().filter(
                        keep_new(Seq::<MediaItemV>::empty()),
                    ));
                    assert(c@ == UserItemsV {
                        username: username@,
                        items: items.deep_view().filter(keep_new(Seq::<MediaItemV>::empty())),
                    });
                }
            },
        }
    }

    /// A copy of the first stored record for `username`, if there is one.
    pub fn find_user(&self, username: &str) -> (r: Option<UserRecord>)
        ensures
            match r {
                Some(u) => has_username(self@.users, username@) && u@ == self@.users[first_user_idx(
                    self@.users,
                    username@,
                )],
                None => !has_username(self@.users, username@),
            },
    {
        match find_user_index(&self.data.users, username) {
            Some(j) => {
                proof {
                    lemma_first_user_idx(self@.users, username@);
                }
                Some(self.data.users[j].clone())
            },
            None => None,
        }
    }

    /// Adds a new account. Fails, changing nothing, exactly when a record
    /// with the same username is already stored.
    pub fn add_user(&mut self, user: UserRecord) -> (r: Result<(), String>)
        ensures
            has_username(old(self)@.users, user@.username) ==> r is Err
                && final(self)@ == old(self)@,
            !has_username(old(self)@.users, user@.username) ==> r is Ok
                && final(self)@.users == old(self)@.users.push(user@)
                && final(self)@.items == old(self)@.items
                && final(self)@.items_by_user == old(self)@.items_by_user,
    {
        match find_user_index(&self.data.users, user.username.as_str()) {
            Some(_) => Err("User already exists".to_owned()),
            None => {
                let ghost pre_vec = self.data.users;
                self.data.users.push(user);
                proof {
                    lemma_deep_view_push(pre_vec, self.data.users, user);
                }
                Ok(())
            },
        }
    }
}

} // verus!
