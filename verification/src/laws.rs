//! Algebraic laws of the merge engine, proved from the spec functions in
//! `merge`: idempotence, per-item commutativity, non-destructive user union,
//! and the per-list invariants (identifier uniqueness, timestamps never
//! regressing).

use vstd::prelude::*;

use crate::merge::{first_item_idx, has_username, item_ts, lemma_first_item_idx,
    lemma_upsert_absent, lemma_upsert_present, merge_by_user, merge_collection, merge_item_seqs,
    merge_user_seqs, seq_has_entry, seq_has_item_id, upsert_entry, upsert_item};
use crate::models::{CollectionDataV, MediaItemV, UserItemsV, UserRecordV};

verus! {

/// The first item of `s` carrying `it.id` exists and is at least as new as
/// `it`; such an item makes a later arrival of `it` a no-op.
pub open spec fn covers(s: Seq<MediaItemV>, it: MediaItemV) -> bool
    decreases s.len(),
{
    if s.len() == 0 {
        false
    } else if s[0].id == it.id {
        item_ts(s[0]) >= item_ts(it)
    } else {
        covers(s.drop_first(), it)
    }
}

/// Every item of `incoming` is covered by `s`.
pub open spec fn covers_all(s: Seq<MediaItemV>, incoming: Seq<MediaItemV>) -> bool {
    forall|k: int| 0 <= k < incoming.len() ==> covers(s, #[trigger] incoming[k])
}

/// An upsert of a covered item changes nothing.
pub proof fn lemma_upsert_covered_noop(s: Seq<MediaItemV>, it: MediaItemV)
    requires
        covers(s, it),
    ensures
        upsert_item(s, it) == s,
    decreases s.len(),
{
    if s[0].id == it.id {
    } else {
        lemma_upsert_covered_noop(s.drop_first(), it);
        assert(upsert_item(s, it) =~= s);
    }
}

/// After an upsert of `it`, the list covers `it`.
pub proof fn lemma_upsert_covers(s: Seq<MediaItemV>, it: MediaItemV)
    ensures
        covers(upsert_item(s, it), it),
    decreases s.len(),
{
    if s.len() == 0 {
        assert(covers(seq![it], it));
    } else if s[0].id == it.id {
        if item_ts(it) > item_ts(s[0]) {
            let u = seq![it] + s.drop_first();
            assert(u[0] == it);
        }
    } else {
        lemma_upsert_covers(s.drop_first(), it);
        let u = seq![s[0]] + upsert_item(s.drop_first(), it);
        assert(u[0] == s[0]);
        assert(u.drop_first() =~= upsert_item(s.drop_first(), it));
    }
}

/// An upsert never uncovers an item that was covered before.
pub proof fn lemma_upsert_keeps_cover(s: Seq<MediaItemV>, x: MediaItemV, y: MediaItemV)
    requires
        covers(s, x),
    ensures
        covers(upsert_item(s, y), x),
    decreases s.len(),
{
    if s[0].id == y.id {
        if item_ts(y) > item_ts(s[0]) {
            let u = seq![y] + s.drop_first();
            assert(u[0] == y);
            assert(u.drop_first() =~= s.drop_first());
            if s[0].id == x.id {
                assert(item_ts(u[0]) >= item_ts(x));
            }
        }
    } else {
        let u = seq![s[0]] + upsert_item(s.drop_first(), y);
        assert(u[0] == s[0]);
        assert(u.drop_first() =~= upsert_item(s.drop_first(), y));
        if s[0].id == x.id {
        } else {
            lemma_upsert_keeps_cover(s.drop_first(), x, y);
        }
    }
}

/// A whole merge never uncovers an item that was covered before.
pub proof fn lemma_merge_keeps_cover(s: Seq<MediaItemV>, incoming: Seq<MediaItemV>, x: MediaItemV)
    requires
        covers(s, x),
    ensures
        covers(merge_item_seqs(s, incoming), x),
    decreases incoming.len(),
{
    if incoming.len() == 0 {
    } else {
        lemma_upsert_keeps_cover(s, x, incoming[0]);
        lemma_merge_keeps_cover(upsert_item(s, incoming[0]), incoming.drop_first(), x);
    }
}

/// After a merge, the local list covers every incoming item.
pub proof fn lemma_merge_covers_all(s: Seq<MediaItemV>, incoming: Seq<MediaItemV>)
    ensures
        covers_all(merge_item_seqs(s, incoming), incoming),
    decreases incoming.len(),
{
    if incoming.len() == 0 {
    } else {
        let u = upsert_item(s, incoming[0]);
        lemma_upsert_covers(s, incoming[0]);
        lemma_merge_keeps_cover(u, incoming.drop_first(), incoming[0]);
        lemma_merge_covers_all(u, incoming.drop_first());
        assert forall|k: int| 0 <= k < incoming.len() implies covers(
            merge_item_seqs(s, incoming),
            #[trigger] incoming[k],
        ) by {
            if k > 0 {
                assert(incoming.drop_first()[k - 1] == incoming[k]);
                assert(covers(merge_item_seqs(u, incoming.drop_first()), incoming[k]));
            }
        }
    }
}

/// Merging a list whose items are all covered changes nothing.
pub proof fn lemma_merge_covered_noop(s: Seq<MediaItemV>, incoming: Seq<MediaItemV>)
    requires
        covers_all(s, incoming),
    ensures
        merge_item_seqs(s, incoming) == s,
    decreases incoming.len(),
{
    if incoming.len() == 0 {
    } else {
        assert(covers(s, incoming[0]));
        lemma_upsert_covered_noop(s, incoming[0]);
        assert forall|k: int| 0 <= k < incoming.drop_first().len() implies covers(
            s,
            #[trigger] incoming.drop_first()[k],
        ) by {
            assert(incoming.drop_first()[k] == incoming[k + 1]);
        }
        lemma_merge_covered_noop(s, incoming.drop_first());
    }
}

/// Merge idempotence for one item list: merging the same incoming list twice
/// gives the same list as merging it once.
pub proof fn lemma_merge_items_idempotent(local: Seq<MediaItemV>, incoming: Seq<MediaItemV>)
    ensures
        merge_item_seqs(merge_item_seqs(local, incoming), incoming) == merge_item_seqs(
            local,
            incoming,
        ),
{
    lemma_merge_covers_all(local, incoming);
    lemma_merge_covered_noop(merge_item_seqs(local, incoming), incoming);
}

/// A username present locally is still present after any merge.
pub proof fn lemma_merge_users_monotone(
    local: Seq<UserRecordV>,
    incoming: Seq<UserRecordV>,
    name: Seq<char>,
)
    requires
        has_username(local, name),
    ensures
        has_username(merge_user_seqs(local, incoming), name),
    decreases incoming.len(),
{
    if incoming.len() == 0 {
    } else {
        let next = if has_username(local, incoming[0].username) {
            local
        } else {
            local.push(incoming[0])
        };
        assert(has_username(next, name)) by {
            let j = choose|j: int| 0 <= j < local.len() && local[j].username == name;
            assert(next[j].username == name);
        }
        lemma_merge_users_monotone(next, incoming.drop_first(), name);
    }
}

/// After a merge, every incoming username is present.
pub proof fn lemma_merge_users_cover(local: Seq<UserRecordV>, incoming: Seq<UserRecordV>)
    ensures
        forall|k: int|
            0 <= k < incoming.len() ==> has_username(
                merge_user_seqs(local, incoming),
                #[trigger] incoming[k].username,
            ),
    decreases incoming.len(),
{
    if incoming.len() == 0 {
    } else {
        let next = if has_username(local, incoming[0].username) {
            local
        } else {
            local.push(incoming[0])
        };
        assert(has_username(next, incoming[0].username)) by {
            if !has_username(local, incoming[0].username) {
                assert(next[local.len() as int].username == incoming[0].username);
            } else {
                let j = choose|j: int|
                    0 <= j < local.len() && local[j].username == incoming[0].username;
                assert(next[j].username == incoming[0].username);
            }
        }
        lemma_merge_users_monotone(next, incoming.drop_first(), incoming[0].username);
        lemma_merge_users_cover(next, incoming.drop_first());
        assert forall|k: int| 0 <= k < incoming.len() implies has_username(
            merge_user_seqs(local, incoming),
            #[trigger] incoming[k].username,
        ) by {
            if k > 0 {
                assert(incoming.drop_first()[k - 1] == incoming[k]);
                assert(has_username(
                    merge_user_seqs(next, incoming.drop_first()),
                    incoming[k].username,
                ));
            }
        }
    }
}

/// Merging records whose usernames are all present changes nothing.
pub proof fn lemma_merge_users_noop(local: Seq<UserRecordV>, incoming: Seq<UserRecordV>)
    requires
        forall|k: int|
            0 <= k < incoming.len() ==> has_username(local, #[trigger] incoming[k].username),
    ensures
        merge_user_seqs(local, incoming) == local,
    decreases incoming.len(),
{
    if incoming.len() == 0 {
    } else {
        assert(has_username(local, incoming[0].username));
        assert forall|k: int| 0 <= k < incoming.drop_first().len() implies has_username(
            local,
            #[trigger] incoming.drop_first()[k].username,
        ) by {
            assert(incoming.drop_first()[k] == incoming[k + 1]);
        }
        lemma_merge_users_noop(local, incoming.drop_first());
    }
}

/// Merge idempotence for user records.
pub proof fn lemma_merge_users_idempotent(local: Seq<UserRecordV>, incoming: Seq<UserRecordV>)
    ensures
        merge_user_seqs(merge_user_seqs(local, incoming), incoming) == merge_user_seqs(
            local,
            incoming,
        ),
{
    lemma_merge_users_cover(local, incoming);
    lemma_merge_users_noop(merge_user_seqs(local, incoming), incoming);
}

/// The user union is non-destructive: every local record survives any merge
/// unchanged, at its position; incoming records can only be appended after
/// them.
pub proof fn lemma_merge_users_preserves_local(
    local: Seq<UserRecordV>,
    incoming: Seq<UserRecordV>,
)
    ensures
        merge_user_seqs(local, incoming).len() >= local.len(),
        forall|j: int|
            0 <= j < local.len() ==> merge_user_seqs(local, incoming)[j] == #[trigger] local[j],
    decreases incoming.len(),
{
    if incoming.len() == 0 {
    } else {
        let next = if has_username(local, incoming[0].username) {
            local
        } else {
            local.push(incoming[0])
        };
        lemma_merge_users_preserves_local(next, incoming.drop_first());
        assert forall|j: int| 0 <= j < local.len() implies merge_user_seqs(local, incoming)[j]
            == #[trigger] local[j] by {
            assert(next[j] == local[j]);
            assert(merge_user_seqs(next, incoming.drop_first())[j] == next[j]);
        }
    }
}

/// The incoming entry `e` would change nothing: the first local entry with
/// its username already covers all its items.
pub open spec fn entry_covers(s: Seq<UserItemsV>, e: UserItemsV) -> bool
    decreases s.len(),
{
    if s.len() == 0 {
        false
    } else if s[0].username == e.username {
        covers_all(s[0].items, e.items)
    } else {
        entry_covers(s.drop_first(), e)
    }
}

/// An upsert of a covered entry changes nothing.
pub proof fn lemma_upsert_entry_covered_noop(s: Seq<UserItemsV>, e: UserItemsV)
    requires
        entry_covers(s, e),
    ensures
        upsert_entry(s, e) == s,
    decreases s.len(),
{
    if s[0].username == e.username {
        lemma_merge_covered_noop(s[0].items, e.items);
        assert(UserItemsV { username: s[0].username, items: merge_item_seqs(s[0].items, e.items) }
            == s[0]);
        assert(upsert_entry(s, e) =~= s);
    } else {
        lemma_upsert_entry_covered_noop(s.drop_first(), e);
        assert(upsert_entry(s, e) =~= s);
    }
}

/// After an upsert of `e`, the mapping covers `e`.
pub proof fn lemma_upsert_entry_covers(s: Seq<UserItemsV>, e: UserItemsV)
    ensures
        entry_covers(upsert_entry(s, e), e),
    decreases s.len(),
{
    if s.len() == 0 {
        lemma_merge_covers_all(Seq::empty(), e.items);
        let u = upsert_entry(s, e);
        assert(u[0].username == e.username);
        assert(u[0].items == merge_item_seqs(Seq::empty(), e.items));
    } else if s[0].username == e.username {
        lemma_merge_covers_all(s[0].items, e.items);
        let u = upsert_entry(s, e);
        assert(u[0].username == e.username);
        assert(u[0].items == merge_item_seqs(s[0].items, e.items));
    } else {
        lemma_upsert_entry_covers(s.drop_first(), e);
        let u = seq![s[0]] + upsert_entry(s.drop_first(), e);
        assert(u[0] == s[0]);
        assert(u.drop_first() =~= upsert_entry(s.drop_first(), e));
    }
}

/// An upsert never uncovers an entry that was covered before.
pub proof fn lemma_upsert_entry_keeps_cover(s: Seq<UserItemsV>, x: UserItemsV, y: UserItemsV)
    requires
        entry_covers(s, x),
    ensures
        entry_covers(upsert_entry(s, y), x),
    decreases s.len(),
{
    if s[0].username == y.username {
        let merged = UserItemsV {
            username: s[0].username,
            items: merge_item_seqs(s[0].items, y.items),
        };
        let u = seq![merged] + s.drop_first();
        assert(u[0] == merged);
        assert(u.drop_first() =~= s.drop_first());
        if s[0].username == x.username {
            assert(covers_all(s[0].items, x.items));
            assert forall|k: int| 0 <= k < x.items.len() implies covers(
                merged.items,
                #[trigger] x.items[k],
            ) by {
                lemma_merge_keeps_cover(s[0].items, y.items, x.items[k]);
            }
        }
    } else {
        let u = seq![s[0]] + upsert_entry(s.drop_first(), y);
        assert(u[0] == s[0]);
        assert(u.drop_first() =~= upsert_entry(s.drop_first(), y));
        if s[0].username == x.username {
        } else {
            lemma_upsert_entry_keeps_cover(s.drop_first(), x, y);
        }
    }
}

/// A whole per-user merge never uncovers a covered entry.
pub proof fn lemma_merge_by_user_keeps_cover(
    s: Seq<UserItemsV>,
    incoming: Seq<UserItemsV>,
    x: UserItemsV,
)
    requires
        entry_covers(s, x),
    ensures
        entry_covers(merge_by_user(s, incoming), x),
    decreases incoming.len(),
{
    if incoming.len() == 0 {
    } else {
        lemma_upsert_entry_keeps_cover(s, x, incoming[0]);
        lemma_merge_by_user_keeps_cover(upsert_entry(s, incoming[0]), incoming.drop_first(), x);
    }
}

/// After a per-user merge, every incoming entry is covered.
pub proof fn lemma_merge_by_user_covers(s: Seq<UserItemsV>, incoming: Seq<UserItemsV>)
    ensures
        forall|k: int|
            0 <= k < incoming.len() ==> entry_covers(
                merge_by_user(s, incoming),
                #[trigger] incoming[k],
            ),
    decreases incoming.len(),
{
    if incoming.len() == 0 {
    } else {
        let u = upsert_entry(s, incoming[0]);
        lemma_upsert_entry_covers(s, incoming[0]);
        lemma_merge_by_user_keeps_cover(u, incoming.drop_first(), incoming[0]);
        lemma_merge_by_user_covers(u, incoming.drop_first());
        assert forall|k: int| 0 <= k < incoming.len() implies entry_covers(
            merge_by_user(s, incoming),
            #[trigger] incoming[k],
        ) by {
            if k > 0 {
                assert(incoming.drop_first()[k - 1] == incoming[k]);
                assert(entry_covers(merge_by_user(u, incoming.drop_first()), incoming[k]));
            }
        }
    }
}

/// Merging a per-user mapping whose entries are all covered changes nothing.
pub proof fn lemma_merge_by_user_covered_noop(s: Seq<UserItemsV>, incoming: Seq<UserItemsV>)
    requires
        forall|k: int| 0 <= k < incoming.len() ==> entry_covers(s, #[trigger] incoming[k]),
    ensures
        merge_by_user(s, incoming) == s,
    decreases incoming.len(),
{
    if incoming.len() == 0 {
    } else {
        assert(entry_covers(s, incoming[0]));
        lemma_upsert_entry_covered_noop(s, incoming[0]);
        assert forall|k: int| 0 <= k < incoming.drop_first().len() implies entry_covers(
            s,
            #[trigger] incoming.drop_first()[k],
        ) by {
            assert(incoming.drop_first()[k] == incoming[k + 1]);
        }
        lemma_merge_by_user_covered_noop(s, incoming.drop_first());
    }
}

/// Merge idempotence for the per-user mapping.
pub proof fn lemma_merge_by_user_idempotent(local: Seq<UserItemsV>, incoming: Seq<UserItemsV>)
    ensures
        merge_by_user(merge_by_user(local, incoming), incoming) == merge_by_user(local, incoming),
{
    lemma_merge_by_user_covers(local, incoming);
    lemma_merge_by_user_covered_noop(merge_by_user(local, incoming), incoming);
}

/// Merge idempotence: merging the same incoming snapshot twice produces the
/// same state as merging it once.
pub proof fn lemma_merge_idempotent(local: CollectionDataV, incoming: CollectionDataV)
    ensures
        merge_collection(merge_collection(local, incoming), incoming) == merge_collection(
            local,
            incoming,
        ),
{
    lemma_merge_users_idempotent(local.users, incoming.users);
    lemma_merge_by_user_idempotent(local.items_by_user, incoming.items_by_user);
    assert(merge_collection(merge_collection(local, incoming), incoming) =~= merge_collection(
        local,
        incoming,
    ));
}

/// `covers` is exactly the first-occurrence condition: the first item with
/// `x.id` exists and is at least as new as `x`.
pub proof fn lemma_covers_iff_first(s: Seq<MediaItemV>, x: MediaItemV)
    ensures
        covers(s, x) <==> (seq_has_item_id(s, x.id) && item_ts(s[first_item_idx(s, x.id)])
            >= item_ts(x)),
    decreases s.len(),
{
    lemma_first_item_idx(s, x.id);
    if s.len() == 0 {
    } else if s[0].id == x.id {
    } else {
        lemma_covers_iff_first(s.drop_first(), x);
        lemma_first_item_idx(s.drop_first(), x.id);
        assert(seq_has_item_id(s, x.id) ==> seq_has_item_id(s.drop_first(), x.id)) by {
            if seq_has_item_id(s, x.id) {
                let j = choose|j: int| 0 <= j < s.len() && s[j].id == x.id;
                assert(j != 0);
                assert(s.drop_first()[j - 1].id == x.id);
            }
        }
        assert(seq_has_item_id(s.drop_first(), x.id) ==> seq_has_item_id(s, x.id)) by {
            if seq_has_item_id(s.drop_first(), x.id) {
                let j = choose|j: int|
                    0 <= j < s.drop_first().len() && s.drop_first()[j].id == x.id;
                assert(s[j + 1].id == x.id);
            }
        }
        if seq_has_item_id(s, x.id) {
            let r = first_item_idx(s.drop_first(), x.id);
            assert(first_item_idx(s, x.id) == r + 1);
            assert(s[r + 1] == s.drop_first()[r]);
        }
    }
}

/// A merge never regresses an item to an older edit: the first item with a
/// locally present identifier is at least as new after the merge as before.
pub proof fn lemma_merge_timestamps_monotone(
    local: Seq<MediaItemV>,
    incoming: Seq<MediaItemV>,
    id: Seq<char>,
)
    requires
        seq_has_item_id(local, id),
    ensures
        seq_has_item_id(merge_item_seqs(local, incoming), id),
        item_ts(
            merge_item_seqs(local, incoming)[first_item_idx(merge_item_seqs(local, incoming), id)],
        ) >= item_ts(local[first_item_idx(local, id)]),
{
    lemma_first_item_idx(local, id);
    let x = local[first_item_idx(local, id)];
    assert(x.id == id);
    lemma_covers_iff_first(local, x);
    lemma_merge_keeps_cover(local, incoming, x);
    lemma_covers_iff_first(merge_item_seqs(local, incoming), x);
}

/// No two items of `s` share an identifier.
pub open spec fn unique_ids(s: Seq<MediaItemV>) -> bool {
    forall|j: int, k: int|
        #![trigger s[j].id, s[k].id]
        0 <= j < k < s.len() ==> s[j].id != s[k].id
}

/// An upsert keeps identifiers unique: a replacement reuses the identifier
/// in place and an append brings a fresh one.
pub proof fn lemma_upsert_keeps_unique(s: Seq<MediaItemV>, it: MediaItemV)
    requires
        unique_ids(s),
    ensures
        unique_ids(upsert_item(s, it)),
{
    if seq_has_item_id(s, it.id) {
        lemma_first_item_idx(s, it.id);
        lemma_upsert_present(s, it);
        let j = first_item_idx(s, it.id);
        let u = upsert_item(s, it);
        assert forall|p: int, q: int|
            #![trigger u[p].id, u[q].id]
            0 <= p < q < u.len() implies u[p].id != u[q].id by {
            assert(u[p].id == s[p].id);
            assert(u[q].id == s[q].id);
        }
    } else {
        lemma_upsert_absent(s, it);
        let u = s.push(it);
        assert forall|p: int, q: int|
            #![trigger u[p].id, u[q].id]
            0 <= p < q < u.len() implies u[p].id != u[q].id by {
            if q == s.len() {
                assert(u[p] == s[p]);
                assert(u[q] == it);
            } else {
                assert(u[p] == s[p]);
                assert(u[q] == s[q]);
            }
        }
    }
}

/// A whole merge keeps identifiers unique within the list.
pub proof fn lemma_merge_keeps_unique(local: Seq<MediaItemV>, incoming: Seq<MediaItemV>)
    requires
        unique_ids(local),
    ensures
        unique_ids(merge_item_seqs(local, incoming)),
    decreases incoming.len(),
{
    if incoming.len() == 0 {
    } else {
        lemma_upsert_keeps_unique(local, incoming[0]);
        lemma_merge_keeps_unique(upsert_item(local, incoming[0]), incoming.drop_first());
    }
}

/// Every per-user list in `s` has unique identifiers.
pub open spec fn all_lists_unique(s: Seq<UserItemsV>) -> bool {
    forall|k: int| 0 <= k < s.len() ==> unique_ids(#[trigger] s[k].items)
}

/// A per-user upsert keeps every list's identifiers unique.
pub proof fn lemma_upsert_entry_keeps_unique(s: Seq<UserItemsV>, e: UserItemsV)
    requires
        all_lists_unique(s),
    ensures
        all_lists_unique(upsert_entry(s, e)),
    decreases s.len(),
{
    let u = upsert_entry(s, e);
    if s.len() == 0 {
        assert(unique_ids(Seq::<MediaItemV>::empty()));
        lemma_merge_keeps_unique(Seq::empty(), e.items);
        assert(u[0].items == merge_item_seqs(Seq::empty(), e.items));
        assert forall|k: int| 0 <= k < u.len() implies unique_ids(#[trigger] u[k].items) by {
            assert(k == 0);
        }
    } else if s[0].username == e.username {
        assert(unique_ids(s[0].items));
        lemma_merge_keeps_unique(s[0].items, e.items);
        assert forall|k: int| 0 <= k < u.len() implies unique_ids(#[trigger] u[k].items) by {
            if k > 0 {
                assert(u[k] == s[k]);
            } else {
                assert(u[0].items == merge_item_seqs(s[0].items, e.items));
            }
        }
    } else {
        assert forall|k: int| 0 <= k < s.drop_first().len() implies unique_ids(
            #[trigger] s.drop_first()[k].items,
        ) by {
            assert(s.drop_first()[k] == s[k + 1]);
        }
        lemma_upsert_entry_keeps_unique(s.drop_first(), e);
        assert forall|k: int| 0 <= k < u.len() implies unique_ids(#[trigger] u[k].items) by {
            if k == 0 {
                assert(u[0] == s[0]);
            } else {
                assert(u[k] == upsert_entry(s.drop_first(), e)[k - 1]);
            }
        }
    }
}

/// A whole merge keeps every per-user list's identifiers unique: the first
/// invariant of the data model.
pub proof fn lemma_merge_keeps_all_unique(local: Seq<UserItemsV>, incoming: Seq<UserItemsV>)
    requires
        all_lists_unique(local),
    ensures
        all_lists_unique(merge_by_user(local, incoming)),
    decreases incoming.len(),
{
    if incoming.len() == 0 {
    } else {
        lemma_upsert_entry_keeps_unique(local, incoming[0]);
        lemma_merge_keeps_all_unique(upsert_entry(local, incoming[0]), incoming.drop_first());
    }
}

/// A position that carries `id` and has no earlier occurrence is the first
/// occurrence.
pub proof fn lemma_first_idx_unique(s: Seq<MediaItemV>, id: Seq<char>, j: int)
    requires
        0 <= j < s.len(),
        s[j].id == id,
        forall|k: int| 0 <= k < j ==> s[k].id != id,
    ensures
        first_item_idx(s, id) == j,
{
    lemma_first_item_idx(s, id);
    assert(seq_has_item_id(s, id));
    let f = first_item_idx(s, id);
    if f < j {
        assert(s[f].id != id);
    }
    if f > j {
        assert(s[j].id != id);
    }
}

/// Two lists with the same identifiers in the same positions have the same
/// first occurrence of any identifier.
pub proof fn lemma_same_ids_same_first(s: Seq<MediaItemV>, u: Seq<MediaItemV>, id: Seq<char>)
    requires
        u.len() == s.len(),
        forall|k: int| 0 <= k < s.len() ==> (#[trigger] u[k].id) == s[k].id,
    ensures
        seq_has_item_id(u, id) <==> seq_has_item_id(s, id),
        first_item_idx(u, id) == first_item_idx(s, id),
{
    lemma_first_item_idx(s, id);
    lemma_first_item_idx(u, id);
    if seq_has_item_id(s, id) {
        let j = first_item_idx(s, id);
        assert(u[j].id == id);
        lemma_first_idx_unique(u, id, j);
    } else {
        if seq_has_item_id(u, id) {
            let k = choose|k: int| 0 <= k < u.len() && u[k].id == id;
            assert(s[k].id == id);
        }
    }
}

/// Pushing an item with another identifier moves no first occurrence.
pub proof fn lemma_first_idx_push_other(s: Seq<MediaItemV>, x: MediaItemV, id: Seq<char>)
    requires
        x.id != id,
    ensures
        seq_has_item_id(s.push(x), id) <==> seq_has_item_id(s, id),
        seq_has_item_id(s, id) ==> first_item_idx(s.push(x), id) == first_item_idx(s, id),
{
    let u = s.push(x);
    if seq_has_item_id(s, id) {
        lemma_first_item_idx(s, id);
        let j = first_item_idx(s, id);
        assert(u[j].id == id);
        assert forall|k: int| 0 <= k < j implies u[k].id != id by {
            assert(u[k] == s[k]);
        }
        lemma_first_idx_unique(u, id, j);
    } else {
        if seq_has_item_id(u, id) {
            let k = choose|k: int| 0 <= k < u.len() && u[k].id == id;
            assert(k != s.len());
            assert(s[k].id == id);
        }
    }
}

/// Unrolling a two-item merge into two upserts.
pub proof fn lemma_merge_pair_unfold(l: Seq<MediaItemV>, x: MediaItemV, y: MediaItemV)
    ensures
        merge_item_seqs(l, seq![x, y]) == upsert_item(upsert_item(l, x), y),
{
    let p = seq![x, y];
    assert(p.len() == 2);
    assert(p[0] == x);
    assert(p.drop_first() =~= seq![y]);
    assert(seq![y][0] == y);
    assert(seq![y].drop_first() =~= Seq::<MediaItemV>::empty());
    assert(merge_item_seqs(l, p) == merge_item_seqs(upsert_item(l, x), seq![y]));
    assert(merge_item_seqs(upsert_item(l, x), seq![y]) == merge_item_seqs(
        upsert_item(upsert_item(l, x), y),
        Seq::<MediaItemV>::empty(),
    ));
}

/// When at least one of two distinct identifiers is already present, the two
/// arrival orders give exactly the same list.
pub proof fn lemma_upsert_pair_exact(l: Seq<MediaItemV>, a: MediaItemV, b: MediaItemV)
    requires
        a.id != b.id,
        seq_has_item_id(l, a.id) || seq_has_item_id(l, b.id),
    ensures
        upsert_item(upsert_item(l, a), b) == upsert_item(upsert_item(l, b), a),
{
    if seq_has_item_id(l, a.id) && seq_has_item_id(l, b.id) {
        lemma_first_item_idx(l, a.id);
        lemma_first_item_idx(l, b.id);
        let ja = first_item_idx(l, a.id);
        let jb = first_item_idx(l, b.id);
        assert(ja != jb);
        lemma_upsert_present(l, a);
        lemma_upsert_present(l, b);
        let u1 = upsert_item(l, a);
        let u2 = upsert_item(l, b);
        assert(forall|k: int| 0 <= k < l.len() ==> (#[trigger] u1[k].id) == l[k].id);
        assert(forall|k: int| 0 <= k < l.len() ==> (#[trigger] u2[k].id) == l[k].id);
        lemma_same_ids_same_first(l, u1, b.id);
        lemma_same_ids_same_first(l, u2, a.id);
        lemma_upsert_present(u1, b);
        lemma_upsert_present(u2, a);
        assert(u1[jb] == l[jb]);
        assert(u2[ja] == l[ja]);
        if item_ts(a) > item_ts(l[ja]) && item_ts(b) > item_ts(l[jb]) {
            assert(upsert_item(u1, b) =~= upsert_item(u2, a));
        } else {
            assert(upsert_item(u1, b) =~= upsert_item(u2, a));
        }
    } else if seq_has_item_id(l, a.id) {
        lemma_upsert_one_present(l, a, b);
    } else {
        lemma_upsert_one_present(l, b, a);
    }
}

/// Arrival order of a present identifier and a fresh one does not matter.
proof fn lemma_upsert_one_present(l: Seq<MediaItemV>, a: MediaItemV, b: MediaItemV)
    requires
        a.id != b.id,
        seq_has_item_id(l, a.id),
        !seq_has_item_id(l, b.id),
    ensures
        upsert_item(upsert_item(l, a), b) == upsert_item(upsert_item(l, b), a),
{
    lemma_first_item_idx(l, a.id);
    let ja = first_item_idx(l, a.id);
    lemma_upsert_present(l, a);
    let u1 = upsert_item(l, a);
    assert(forall|k: int| 0 <= k < l.len() ==> (#[trigger] u1[k].id) == l[k].id);
    lemma_same_ids_same_first(l, u1, b.id);
    lemma_upsert_absent(u1, b);
    lemma_upsert_absent(l, b);
    let u2 = l.push(b);
    lemma_first_idx_push_other(l, b, a.id);
    lemma_upsert_present(u2, a);
    assert(u2[ja] == l[ja]);
    if item_ts(a) > item_ts(l[ja]) {
        assert(u1.push(b) =~= u2.update(ja, a));
    } else {
        assert(u1.push(b) =~= u2);
    }
}

/// Merge commutativity for two items with different identifiers: either
/// arrival order leaves the same collection of items (as a multiset; when at
/// least one identifier was already present, even the same list).
pub proof fn lemma_merge_pair_commutes(l: Seq<MediaItemV>, a: MediaItemV, b: MediaItemV)
    requires
        a.id != b.id,
    ensures
        merge_item_seqs(l, seq![a, b]).to_multiset() == merge_item_seqs(l, seq![b, a]).to_multiset(),
{
    broadcast use vstd::multiset::group_multiset_axioms;

    lemma_merge_pair_unfold(l, a, b);
    lemma_merge_pair_unfold(l, b, a);
    if seq_has_item_id(l, a.id) || seq_has_item_id(l, b.id) {
        lemma_upsert_pair_exact(l, a, b);
    } else {
        lemma_upsert_absent(l, a);
        lemma_upsert_absent(l, b);
        lemma_first_idx_push_other(l, a, b.id);
        lemma_first_idx_push_other(l, b, a.id);
        lemma_upsert_absent(l.push(a), b);
        lemma_upsert_absent(l.push(b), a);
        l.to_multiset_ensures();
        l.push(a).to_multiset_ensures();
        l.push(b).to_multiset_ensures();
        assert(l.push(a).push(b).to_multiset() =~= l.push(b).push(a).to_multiset());
    }
}

/// Merge commutativity for two items with the same identifier: the one with
/// the strictly greater timestamp wins whatever the arrival order, leaving
/// exactly the same list.
pub proof fn lemma_merge_pair_same_id(l: Seq<MediaItemV>, a: MediaItemV, b: MediaItemV)
    requires
        a.id == b.id,
        item_ts(a) > item_ts(b),
    ensures
        merge_item_seqs(l, seq![a, b]) == merge_item_seqs(l, seq![b, a]),
{
    lemma_merge_pair_unfold(l, a, b);
    lemma_merge_pair_unfold(l, b, a);
    if seq_has_item_id(l, a.id) {
        lemma_first_item_idx(l, a.id);
        let j = first_item_idx(l, a.id);
        lemma_upsert_present(l, a);
        lemma_upsert_present(l, b);
        let u1 = upsert_item(l, a);
        let u2 = upsert_item(l, b);
        assert(forall|k: int| 0 <= k < l.len() ==> (#[trigger] u1[k].id) == l[k].id);
        assert(forall|k: int| 0 <= k < l.len() ==> (#[trigger] u2[k].id) == l[k].id);
        lemma_same_ids_same_first(l, u1, b.id);
        lemma_same_ids_same_first(l, u2, a.id);
        lemma_upsert_present(u1, b);
        lemma_upsert_present(u2, a);
        if item_ts(b) > item_ts(l[j]) {
            assert(u2 == l.update(j, b));
            assert(u2[j] == b);
            assert(item_ts(a) > item_ts(u2[j]));
            assert(upsert_item(u2, a) =~= l.update(j, a));
            assert(u1 == l.update(j, a));
            assert(u1[j] == a);
            assert(upsert_item(u1, b) == u1);
        } else {
            assert(u2 == l);
            if item_ts(a) > item_ts(l[j]) {
                assert(upsert_item(u1, b) == u1);
            } else {
                assert(u1 == l);
            }
        }
    } else {
        lemma_upsert_absent(l, a);
        lemma_upsert_absent(l, b);
        let u1 = l.push(a);
        let u2 = l.push(b);
        lemma_first_item_idx(l, a.id);
        assert(u1[l.len() as int].id == a.id);
        assert forall|k: int| 0 <= k < l.len() implies u1[k].id != a.id by {
            assert(u1[k] == l[k]);
        }
        lemma_first_idx_unique(u1, a.id, l.len() as int);
        assert(u2[l.len() as int].id == b.id);
        assert forall|k: int| 0 <= k < l.len() implies u2[k].id != b.id by {
            assert(u2[k] == l[k]);
        }
        lemma_first_idx_unique(u2, b.id, l.len() as int);
        assert(seq_has_item_id(u1, b.id));
        assert(seq_has_item_id(u2, a.id));
        lemma_upsert_present(u1, b);
        lemma_upsert_present(u2, a);
        assert(upsert_item(u1, b) == u1);
        assert(upsert_item(u2, a) =~= u2.update(l.len() as int, a));
        assert(u2.update(l.len() as int, a) =~= u1);
    }
}

/// The mapping a per-user entry sequence denotes, from username to item
/// list; later entries would win, though the store never repeats a username.
pub open spec fn by_user_map(s: Seq<UserItemsV>) -> Map<Seq<char>, Seq<MediaItemV>>
    decreases s.len(),
{
    if s.len() == 0 {
        Map::empty()
    } else {
        by_user_map(s.drop_last()).insert(s.last().username, s.last().items)
    }
}

/// No two entries belong to the same username.
pub open spec fn unique_usernames(s: Seq<UserItemsV>) -> bool {
    forall|j: int, k: int|
        #![trigger s[j].username, s[k].username]
        0 <= j < k < s.len() ==> s[j].username != s[k].username
}

/// A username is in the mapping exactly when some entry belongs to it.
pub proof fn lemma_by_user_map_domain(s: Seq<UserItemsV>)
    ensures
        forall|k: Seq<char>| #[trigger] by_user_map(s).contains_key(k) <==> seq_has_entry(s, k),
    decreases s.len(),
{
    if s.len() == 0 {
    } else {
        lemma_by_user_map_domain(s.drop_last());
        assert forall|k: Seq<char>| #[trigger] by_user_map(s).contains_key(k) implies seq_has_entry(
            s,
            k,
        ) by {
            if k == s.last().username {
                assert(s[s.len() - 1].username == k);
            } else {
                assert(by_user_map(s.drop_last()).contains_key(k));
                assert(seq_has_entry(s.drop_last(), k));
                let j = choose|j: int|
                    0 <= j < s.drop_last().len() && (#[trigger] s.drop_last()[j].username) == k;
                assert(s[j].username == k);
            }
        }
        assert forall|k: Seq<char>| seq_has_entry(s, k) implies #[trigger] by_user_map(
            s,
        ).contains_key(k) by {
            let j = choose|j: int| 0 <= j < s.len() && (#[trigger] s[j].username) == k;
            if j < s.len() - 1 {
                assert(s.drop_last()[j].username == k);
                assert(seq_has_entry(s.drop_last(), k));
                assert(by_user_map(s.drop_last()).contains_key(k));
            }
        }
    }
}

/// With unique usernames, every entry is what the mapping holds for its
/// username.
pub proof fn lemma_by_user_map_entries(s: Seq<UserItemsV>)
    requires
        unique_usernames(s),
    ensures
        forall|j: int|
            0 <= j < s.len() ==> by_user_map(s).contains_pair(
                (#[trigger] s[j].username),
                s[j].items,
            ),
    decreases s.len(),
{
    if s.len() == 0 {
    } else {
        let dl = s.drop_last();
        assert(unique_usernames(dl)) by {
            assert(forall|j: int| 0 <= j < dl.len() ==> dl[j] == s[j]);
        }
        lemma_by_user_map_entries(dl);
        assert forall|j: int| 0 <= j < s.len() implies by_user_map(s).contains_pair(
            (#[trigger] s[j].username),
            s[j].items,
        ) by {
            if j < s.len() - 1 {
                assert(dl[j] == s[j]);
                assert(by_user_map(dl).contains_pair(s[j].username, s[j].items));
                assert(s[j].username != s[s.len() - 1].username);
            } else {
                assert(s[j] == s.last());
            }
        }
    }
}

/// Replacing the entry that belongs to a username updates the mapping at
/// that username.
proof fn lemma_by_user_map_update(s: Seq<UserItemsV>, j: int, e: UserItemsV)
    requires
        unique_usernames(s),
        0 <= j < s.len(),
        s[j].username == e.username,
    ensures
        by_user_map(s.update(j, e)) == by_user_map(s).insert(e.username, e.items),
    decreases s.len(),
{
    let u = s.update(j, e);
    if j == s.len() - 1 {
        assert(u.drop_last() =~= s.drop_last());
        assert(u.last() == e);
        assert(by_user_map(s).insert(e.username, e.items) =~= by_user_map(s.drop_last()).insert(
            e.username,
            e.items,
        ));
    } else {
        assert(u.drop_last() =~= s.drop_last().update(j, e));
        assert(u.last() == s.last());
        assert(unique_usernames(s.drop_last())) by {
            assert(forall|k: int| 0 <= k < s.drop_last().len() ==> s.drop_last()[k] == s[k]);
        }
        assert(s.drop_last()[j] == s[j]);
        lemma_by_user_map_update(s.drop_last(), j, e);
        assert(e.username != s.last().username) by {
            assert(s[j].username != s[s.len() - 1].username);
        }
        assert(by_user_map(s.drop_last()).insert(e.username, e.items).insert(
            s.last().username,
            s.last().items,
        ) =~= by_user_map(s.drop_last()).insert(s.last().username, s.last().items).insert(
            e.username,
            e.items,
        ));
    }
}

/// The item list an upsert of `e` merges into: the local list of
/// `e.username`, or an empty list when the username is new.
pub open spec fn local_list_of(m: Map<Seq<char>, Seq<MediaItemV>>, name: Seq<char>) -> Seq<
    MediaItemV,
> {
    if m.contains_key(name) {
        m[name]
    } else {
        Seq::empty()
    }
}

/// An upsert keeps usernames unique.
pub proof fn lemma_upsert_entry_keeps_unique_usernames(s: Seq<UserItemsV>, e: UserItemsV)
    requires
        unique_usernames(s),
    ensures
        unique_usernames(upsert_entry(s, e)),
{
    crate::merge::lemma_first_entry_idx(s, e.username);
    let u = upsert_entry(s, e);
    if seq_has_entry(s, e.username) {
        crate::merge::lemma_upsert_entry_present(s, e);
        assert forall|p: int, q: int|
            #![trigger u[p].username, u[q].username]
            0 <= p < q < u.len() implies u[p].username != u[q].username by {
            assert(u[p].username == s[p].username);
            assert(u[q].username == s[q].username);
        }
    } else {
        crate::merge::lemma_upsert_entry_absent(s, e);
        assert forall|p: int, q: int|
            #![trigger u[p].username, u[q].username]
            0 <= p < q < u.len() implies u[p].username != u[q].username by {
            if q == s.len() {
                assert(u[p] == s[p]);
                assert(u[q].username == e.username);
            } else {
                assert(u[p] == s[p]);
                assert(u[q] == s[q]);
            }
        }
    }
}

/// On the mapping, an upsert of `e` is an insert at `e.username` of the
/// merge of `e.items` into whatever list the username had.
pub proof fn lemma_upsert_entry_as_map(s: Seq<UserItemsV>, e: UserItemsV)
    requires
        unique_usernames(s),
    ensures
        by_user_map(upsert_entry(s, e)) == by_user_map(s).insert(
            e.username,
            merge_item_seqs(local_list_of(by_user_map(s), e.username), e.items),
        ),
{
    lemma_by_user_map_domain(s);
    crate::merge::lemma_first_entry_idx(s, e.username);
    if seq_has_entry(s, e.username) {
        let j = crate::merge::first_entry_idx(s, e.username);
        crate::merge::lemma_upsert_entry_present(s, e);
        lemma_by_user_map_entries(s);
        assert(by_user_map(s).contains_pair(s[j].username, s[j].items));
        assert(local_list_of(by_user_map(s), e.username) == s[j].items);
        let merged = UserItemsV {
            username: s[j].username,
            items: merge_item_seqs(s[j].items, e.items),
        };
        lemma_by_user_map_update(s, j, merged);
    } else {
        crate::merge::lemma_upsert_entry_absent(s, e);
        assert(!by_user_map(s).contains_key(e.username));
        assert(local_list_of(by_user_map(s), e.username) == Seq::<MediaItemV>::empty());
        let pushed = s.push(
            UserItemsV { username: e.username, items: merge_item_seqs(Seq::empty(), e.items) },
        );
        assert(pushed.drop_last() =~= s);
    }
}

/// The whole per-user merge, read as a mapping: every incoming list is
/// merged into the list of its username (an empty one when the username is
/// new), every username with nothing incoming keeps its list, and the merged
/// usernames are exactly the local and incoming ones together.
pub proof fn lemma_merge_by_user_as_map(local: Seq<UserItemsV>, incoming: Seq<UserItemsV>)
    requires
        unique_usernames(local),
        unique_usernames(incoming),
    ensures
        unique_usernames(merge_by_user(local, incoming)),
        forall|j: int|
            0 <= j < incoming.len() ==> by_user_map(merge_by_user(local, incoming)).contains_pair(
                (#[trigger] incoming[j].username),
                merge_item_seqs(
                    local_list_of(by_user_map(local), incoming[j].username),
                    incoming[j].items,
                ),
            ),
        forall|k: Seq<char>|
            by_user_map(local).contains_key(k) && !seq_has_entry(incoming, k)
                ==> #[trigger] by_user_map(merge_by_user(local, incoming)).contains_pair(
                k,
                by_user_map(local)[k],
            ),
        forall|k: Seq<char>|
            #[trigger] by_user_map(merge_by_user(local, incoming)).contains_key(k) <==> (
            by_user_map(local).contains_key(k) || seq_has_entry(incoming, k)),
    decreases incoming.len(),
{
    lemma_by_user_map_domain(local);
    lemma_by_user_map_domain(merge_by_user(local, incoming));
    if incoming.len() == 0 {
        lemma_by_user_map_entries(local);
        assert forall|k: Seq<char>|
            by_user_map(local).contains_key(k) && !seq_has_entry(incoming, k)
                implies #[trigger] by_user_map(merge_by_user(local, incoming)).contains_pair(
            k,
            by_user_map(local)[k],
        ) by {}
    } else {
        let e0 = incoming[0];
        let rest = incoming.drop_first();
        let l1 = upsert_entry(local, e0);
        lemma_upsert_entry_keeps_unique_usernames(local, e0);
        lemma_upsert_entry_as_map(local, e0);
        assert(unique_usernames(rest)) by {
            assert(forall|k: int| 0 <= k < rest.len() ==> rest[k] == incoming[k + 1]);
        }
        lemma_merge_by_user_as_map(l1, rest);
        lemma_by_user_map_domain(l1);
        lemma_by_user_map_domain(rest);
        assert(!seq_has_entry(rest, e0.username)) by {
            if seq_has_entry(rest, e0.username) {
                let j = choose|j: int|
                    0 <= j < rest.len() && (#[trigger] rest[j].username) == e0.username;
                assert(incoming[j + 1].username == incoming[0].username);
            }
        }
        let m = by_user_map(merge_by_user(local, incoming));
        assert(merge_by_user(local, incoming) == merge_by_user(l1, rest));
        // the head entry: settled by the upsert, untouched by the rest
        assert(by_user_map(l1).contains_key(e0.username));
        assert(m.contains_pair(
            e0.username,
            merge_item_seqs(local_list_of(by_user_map(local), e0.username), e0.items),
        )) by {
            assert(by_user_map(l1)[e0.username] == merge_item_seqs(
                local_list_of(by_user_map(local), e0.username),
                e0.items,
            ));
            assert(m.contains_pair(e0.username, by_user_map(l1)[e0.username]));
        }
        // the rest: their local lists are unchanged by the upsert
        assert forall|j: int| 0 <= j < incoming.len() implies m.contains_pair(
            (#[trigger] incoming[j].username),
            merge_item_seqs(
                local_list_of(by_user_map(local), incoming[j].username),
                incoming[j].items,
            ),
        ) by {
            if j > 0 {
                assert(rest[j - 1] == incoming[j]);
                assert(incoming[j].username != e0.username) by {
                    assert(incoming[0].username != incoming[j].username);
                }
                assert(local_list_of(by_user_map(l1), incoming[j].username) == local_list_of(
                    by_user_map(local),
                    incoming[j].username,
                ));
                assert(m.contains_pair(
                    rest[j - 1].username,
                    merge_item_seqs(
                        local_list_of(by_user_map(l1), rest[j - 1].username),
                        rest[j - 1].items,
                    ),
                ));
            }
        }
        // usernames with nothing incoming keep their lists
        assert forall|k: Seq<char>|
            by_user_map(local).contains_key(k) && !seq_has_entry(incoming, k) implies #[trigger] m
            .contains_pair(k, by_user_map(local)[k]) by {
            assert(k != e0.username) by {
                if k == e0.username {
                    assert(incoming[0].username == k);
                }
            }
            assert(by_user_map(l1).contains_key(k));
            assert(by_user_map(l1)[k] == by_user_map(local)[k]);
            assert(!seq_has_entry(rest, k)) by {
                if seq_has_entry(rest, k) {
                    let j = choose|j: int|
                        0 <= j < rest.len() && (#[trigger] rest[j].username) == k;
                    assert(incoming[j + 1].username == k);
                }
            }
            assert(m.contains_pair(k, by_user_map(l1)[k]));
        }
        // the merged usernames are the local and incoming ones together
        assert forall|k: Seq<char>| #[trigger] m.contains_key(k) implies (by_user_map(
            local,
        ).contains_key(k) || seq_has_entry(incoming, k)) by {
            if by_user_map(l1).contains_key(k) {
                if k == e0.username {
                    assert(incoming[0].username == k);
                }
            } else {
                let j = choose|j: int|
                    0 <= j < rest.len() && (#[trigger] rest[j].username) == k;
                assert(incoming[j + 1].username == k);
            }
        }
        assert forall|k: Seq<char>|
            (by_user_map(local).contains_key(k) || seq_has_entry(incoming, k)) implies #[trigger] m
            .contains_key(k) by {
            if seq_has_entry(incoming, k) {
                let j = choose|j: int|
                    0 <= j < incoming.len() && (#[trigger] incoming[j].username) == k;
                if j == 0 {
                    assert(by_user_map(l1).contains_key(k));
                } else {
                    assert(rest[j - 1].username == k);
                    assert(seq_has_entry(rest, k));
                }
            } else {
                assert(by_user_map(l1).contains_key(k));
            }
        }
    }
}

} // verus!
