//! The conflict-resolving merge engine.
//!
//! Merging is last-writer-wins per item: an incoming item replaces the local
//! item with the same `id` (in place, keeping its position) exactly when its
//! `last_edited_at` is strictly greater, a missing timestamp counting as 0;
//! an incoming item whose `id` is new is appended. User records are unioned
//! by username and an existing local record is never overwritten. The spec
//! functions here are the mathematical definition of that algorithm; the
//! executable functions are proved to implement them.

use vstd::prelude::*;

use crate::models::{CollectionData, CollectionDataV, MediaItem, MediaItemV, UserItems, UserItemsV,
    UserRecord, UserRecordV, lemma_deep_view_push, lemma_deep_view_update};
use vstd::pervasive::VecAdditionalExecFns;
use crate::trusted::str_eq;

verus! {

/// The timestamp the merge engine compares: `last_edited_at`, with a missing
/// value counting as 0.
pub open spec fn item_ts(it: MediaItemV) -> int {
    match it.last_edited_at {
        None => 0,
        Some(t) => t as int,
    }
}

/// Whether some item in `s` carries the identifier `id`.
pub open spec fn seq_has_item_id(s: Seq<MediaItemV>, id: Seq<char>) -> bool {
    exists|j: int| 0 <= j < s.len() && s[j].id == id
}

/// Index of the first item in `s` with identifier `id`, or -1 if there is none.
pub open spec fn first_item_idx(s: Seq<MediaItemV>, id: Seq<char>) -> int
    decreases s.len(),
{
    if s.len() == 0 {
        -1
    } else if s[0].id == id {
        0
    } else {
        let r = first_item_idx(s.drop_first(), id);
        if r < 0 {
            -1
        } else {
            r + 1
        }
    }
}

/// One step of the merge: item `it` arrives at the local list `s`. If some
/// item already carries `it.id`, the first such item is replaced in place
/// when `it` has a strictly greater timestamp and nothing changes otherwise;
/// if the identifier is new, `it` is appended.
pub open spec fn upsert_item(s: Seq<MediaItemV>, it: MediaItemV) -> Seq<MediaItemV>
    decreases s.len(),
{
    if s.len() == 0 {
        seq![it]
    } else if s[0].id == it.id {
        if item_ts(it) > item_ts(s[0]) {
            seq![it] + s.drop_first()
        } else {
            s
        }
    } else {
        seq![s[0]] + upsert_item(s.drop_first(), it)
    }
}

/// Merging a whole incoming list: its items arrive one at a time, in order.
pub open spec fn merge_item_seqs(local: Seq<MediaItemV>, incoming: Seq<MediaItemV>) -> Seq<
    MediaItemV,
>
    decreases incoming.len(),
{
    if incoming.len() == 0 {
        local
    } else {
        merge_item_seqs(upsert_item(local, incoming[0]), incoming.drop_first())
    }
}

/// Whether some record in `s` carries the username `name`.
pub open spec fn has_username(s: Seq<UserRecordV>, name: Seq<char>) -> bool {
    exists|j: int| 0 <= j < s.len() && s[j].username == name
}

/// Merging user records: an incoming record is appended only when no local
/// record carries its username; local records are never altered.
pub open spec fn merge_user_seqs(local: Seq<UserRecordV>, incoming: Seq<UserRecordV>) -> Seq<
    UserRecordV,
>
    decreases incoming.len(),
{
    if incoming.len() == 0 {
        local
    } else {
        let next = if has_username(local, incoming[0].username) {
            local
        } else {
            local.push(incoming[0])
        };
        merge_user_seqs(next, incoming.drop_first())
    }
}

/// Whether some per-user entry in `s` belongs to `name`.
pub open spec fn seq_has_entry(s: Seq<UserItemsV>, name: Seq<char>) -> bool {
    exists|j: int| 0 <= j < s.len() && s[j].username == name
}

/// One step of the per-user merge: the incoming entry `e` is merged into the
/// first local entry with the same username; a username with no local entry
/// gets a fresh list built by merging `e.items` into an empty list.
pub open spec fn upsert_entry(s: Seq<UserItemsV>, e: UserItemsV) -> Seq<UserItemsV>
    decreases s.len(),
{
    if s.len() == 0 {
        seq![UserItemsV { username: e.username, items: merge_item_seqs(Seq::empty(), e.items) }]
    } else if s[0].username == e.username {
        seq![
            UserItemsV { username: s[0].username, items: merge_item_seqs(s[0].items, e.items) },
        ] + s.drop_first()
    } else {
        seq![s[0]] + upsert_entry(s.drop_first(), e)
    }
}

/// Merging the whole per-user mapping: incoming entries arrive in order.
pub open spec fn merge_by_user(local: Seq<UserItemsV>, incoming: Seq<UserItemsV>) -> Seq<
    UserItemsV,
>
    decreases incoming.len(),
{
    if incoming.len() == 0 {
        local
    } else {
        merge_by_user(upsert_entry(local, incoming[0]), incoming.drop_first())
    }
}

/// The full merge of an incoming snapshot into a local one: users are
/// unioned by username, per-user lists are merged item by item, and the
/// legacy flat item list is left untouched.
pub open spec fn merge_collection(local: CollectionDataV, incoming: CollectionDataV) -> CollectionDataV {
    CollectionDataV {
        items: local.items,
        users: merge_user_seqs(local.users, incoming.users),
        items_by_user: merge_by_user(local.items_by_user, incoming.items_by_user),
    }
}

/// `first_item_idx` really is the first index carrying `id`: it is -1 exactly
/// when `id` is absent, and otherwise points at the first occurrence.
pub proof fn lemma_first_item_idx(s: Seq<MediaItemV>, id: Seq<char>)
    ensures
        first_item_idx(s, id) == -1 <==> !seq_has_item_id(s, id),
        seq_has_item_id(s, id) ==> {
            let j = first_item_idx(s, id);
            &&& 0 <= j < s.len()
            &&& s[j].id == id
            &&& forall|k: int| 0 <= k < j ==> s[k].id != id
        },
    decreases s.len(),
{
    if s.len() == 0 {
    } else if s[0].id == id {
    } else {
        lemma_first_item_idx(s.drop_first(), id);
        if seq_has_item_id(s.drop_first(), id) {
            let r = first_item_idx(s.drop_first(), id);
            assert(first_item_idx(s, id) == r + 1);
            assert(s[r + 1] == s.drop_first()[r]);
            assert forall|k: int| 0 <= k < r + 1 implies s[k].id != id by {
                if k > 0 {
                    assert(s[k] == s.drop_first()[k - 1]);
                }
            }
        }
        assert(seq_has_item_id(s, id) ==> seq_has_item_id(s.drop_first(), id)) by {
            if seq_has_item_id(s, id) {
                let j = choose|j: int| 0 <= j < s.len() && s[j].id == id;
                assert(j != 0);
                assert(s.drop_first()[j - 1].id == id);
            }
        }
        assert(seq_has_item_id(s.drop_first(), id) ==> seq_has_item_id(s, id)) by {
            if seq_has_item_id(s.drop_first(), id) {
                let j = choose|j: int| 0 <= j < s.drop_first().len() && s.drop_first()[j].id == id;
                assert(s[j + 1].id == id);
            }
        }
    }
}

/// When `it.id` is absent, the upsert is exactly an append.
pub proof fn lemma_upsert_absent(s: Seq<MediaItemV>, it: MediaItemV)
    requires
        !seq_has_item_id(s, it.id),
    ensures
        upsert_item(s, it) == s.push(it),
    decreases s.len(),
{
    if s.len() == 0 {
        assert(upsert_item(s, it) =~= s.push(it));
    } else {
        assert(s[0].id != it.id);
        assert(!seq_has_item_id(s.drop_first(), it.id)) by {
            if seq_has_item_id(s.drop_first(), it.id) {
                let j = choose|j: int|
                    0 <= j < s.drop_first().len() && s.drop_first()[j].id == it.id;
                assert(s[j + 1].id == it.id);
            }
        }
        lemma_upsert_absent(s.drop_first(), it);
        assert(upsert_item(s, it) =~= s.push(it));
    }
}

/// When `it.id` is present, the upsert replaces the first occurrence in place
/// if `it` is strictly newer and leaves the list unchanged otherwise.
pub proof fn lemma_upsert_present(s: Seq<MediaItemV>, it: MediaItemV)
    requires
        seq_has_item_id(s, it.id),
    ensures
        ({
            let j = first_item_idx(s, it.id);
            upsert_item(s, it) == if item_ts(it) > item_ts(s[j]) {
                s.update(j, it)
            } else {
                s
            }
        }),
    decreases s.len(),
{
    lemma_first_item_idx(s, it.id);
    let j = first_item_idx(s, it.id);
    if s[0].id == it.id {
        assert(j == 0);
        if item_ts(it) > item_ts(s[0]) {
            assert(upsert_item(s, it) =~= s.update(0, it));
        }
    } else {
        assert(seq_has_item_id(s.drop_first(), it.id)) by {
            let k = choose|k: int| 0 <= k < s.len() && s[k].id == it.id;
            assert(k != 0);
            assert(s.drop_first()[k - 1].id == it.id);
        }
        lemma_first_item_idx(s.drop_first(), it.id);
        lemma_upsert_present(s.drop_first(), it);
        assert(first_item_idx(s.drop_first(), it.id) == j - 1);
        assert(s.drop_first()[j - 1] == s[j]);
        if item_ts(it) > item_ts(s[j]) {
            assert(upsert_item(s, it) =~= s.update(j, it));
        } else {
            assert(upsert_item(s, it) =~= s);
        }
    }
}

/// Folding one more incoming item: merging `incoming.push(x)` is merging
/// `incoming` and then upserting `x`.
pub proof fn lemma_merge_item_seqs_push(local: Seq<MediaItemV>, incoming: Seq<MediaItemV>, x: MediaItemV)
    ensures
        merge_item_seqs(local, incoming.push(x)) == upsert_item(
            merge_item_seqs(local, incoming),
            x,
        ),
    decreases incoming.len(),
{
    let p = incoming.push(x);
    assert(p.len() == incoming.len() + 1);
    if incoming.len() == 0 {
        assert(p[0] == x);
        assert(p.drop_first() =~= incoming);
        assert(merge_item_seqs(local, p) == merge_item_seqs(upsert_item(local, x), incoming));
        assert(merge_item_seqs(upsert_item(local, x), incoming) == upsert_item(local, x));
        assert(merge_item_seqs(local, incoming) == local);
    } else {
        assert(p[0] == incoming[0]);
        assert(p.drop_first() =~= incoming.drop_first().push(x));
        assert(merge_item_seqs(local, p) == merge_item_seqs(
            upsert_item(local, incoming[0]),
            incoming.drop_first().push(x),
        ));
        lemma_merge_item_seqs_push(upsert_item(local, incoming[0]), incoming.drop_first(), x);
        assert(merge_item_seqs(local, incoming) == merge_item_seqs(
            upsert_item(local, incoming[0]),
            incoming.drop_first(),
        ));
    }
}

/// Folding one more incoming user record.
pub proof fn lemma_merge_user_seqs_push(local: Seq<UserRecordV>, incoming: Seq<UserRecordV>, x: UserRecordV)
    ensures
        merge_user_seqs(local, incoming.push(x)) == ({
            let m = merge_user_seqs(local, incoming);
            if has_username(m, x.username) {
                m
            } else {
                m.push(x)
            }
        }),
    decreases incoming.len(),
{
    let p = incoming.push(x);
    if incoming.len() == 0 {
        assert(p[0] == x);
        assert(p.drop_first() =~= incoming);
        let next = if has_username(local, x.username) {
            local
        } else {
            local.push(x)
        };
        assert(merge_user_seqs(local, p) == merge_user_seqs(next, incoming));
        assert(merge_user_seqs(next, incoming) == next);
        assert(merge_user_seqs(local, incoming) == local);
    } else {
        assert(p[0] == incoming[0]);
        assert(p.drop_first() =~= incoming.drop_first().push(x));
        let next = if has_username(local, incoming[0].username) {
            local
        } else {
            local.push(incoming[0])
        };
        assert(merge_user_seqs(local, p) == merge_user_seqs(next, incoming.drop_first().push(x)));
        lemma_merge_user_seqs_push(next, incoming.drop_first(), x);
        assert(merge_user_seqs(local, incoming) == merge_user_seqs(next, incoming.drop_first()));
    }
}

/// Folding one more incoming per-user entry.
pub proof fn lemma_merge_by_user_push(local: Seq<UserItemsV>, incoming: Seq<UserItemsV>, x: UserItemsV)
    ensures
        merge_by_user(local, incoming.push(x)) == upsert_entry(merge_by_user(local, incoming), x),
    decreases incoming.len(),
{
    let p = incoming.push(x);
    if incoming.len() == 0 {
        assert(p[0] == x);
        assert(p.drop_first() =~= incoming);
        assert(merge_by_user(local, p) == merge_by_user(upsert_entry(local, x), incoming));
        assert(merge_by_user(upsert_entry(local, x), incoming) == upsert_entry(local, x));
        assert(merge_by_user(local, incoming) == local);
    } else {
        assert(p[0] == incoming[0]);
        assert(p.drop_first() =~= incoming.drop_first().push(x));
        assert(merge_by_user(local, p) == merge_by_user(
            upsert_entry(local, incoming[0]),
            incoming.drop_first().push(x),
        ));
        lemma_merge_by_user_push(upsert_entry(local, incoming[0]), incoming.drop_first(), x);
        assert(merge_by_user(local, incoming) == merge_by_user(
            upsert_entry(local, incoming[0]),
            incoming.drop_first(),
        ));
    }
}

/// Index of the first item in `list` carrying `id`, if any.
pub fn find_item_index(list: &Vec<MediaItem>, id: &str) -> (r: Option<usize>)
    ensures
        match r {
            Some(j) => {
                &&& (j as int) < list.deep_view().len()
                &&& list.deep_view()[j as int].id == id@
                &&& forall|k: int| 0 <= k < j ==> list.deep_view()[k].id != id@
            },
            None => !seq_has_item_id(list.deep_view(), id@),
        },
{
    let n = list.len();
    for j in 0..n
        invariant
            n == list@.len(),
            forall|k: int| 0 <= k < j ==> list.deep_view()[k].id != id@,
    {
        proof {
            assert(list.deep_view()[j as int].id == list@[j as int]@.id);
        }
        if str_eq(list[j].id.as_str(), id) {
            return Some(j);
        }
    }
    None
}

/// The merge timestamp of an item: `last_edited_at`, or 0 when missing.
pub fn item_timestamp(it: &MediaItem) -> (t: i64)
    ensures
        t as int == item_ts(it@),
{
    match it.last_edited_at {
        Some(t) => t,
        None => 0,
    }
}

/// Merges the incoming item list into the local one, item by item in order,
/// by the last-writer-wins rule `upsert_item`.
pub fn merge_items_into(local: &mut Vec<MediaItem>, incoming: &Vec<MediaItem>)
    ensures
        final(local).deep_view() == merge_item_seqs(old(local).deep_view(), incoming.deep_view()),
{
    let n = incoming.len();
    for i in 0..n
        invariant
            n == incoming@.len(),
            local.deep_view() == merge_item_seqs(
                old(local).deep_view(),
                incoming.deep_view().take(i as int),
            ),
    {
        let ghost pre = local.deep_view();
        let inc = &incoming[i];
        proof {
            assert(inc@ == incoming.deep_view()[i as int]);
        }
        match find_item_index(local, inc.id.as_str()) {
            Some(j) => {
                proof {
                    lemma_first_item_idx(pre, inc@.id);
                    lemma_upsert_present(pre, inc@);
                    assert(first_item_idx(pre, inc@.id) == j as int);
                }
                let local_ts = item_timestamp(&local[j]);
                let incoming_ts = item_timestamp(inc);
                if incoming_ts > local_ts {
                    let c = inc.clone();
                    let ghost pre_vec = *local;
                    local.set(j, c);
                    proof {
                        lemma_deep_view_update(pre_vec, *local, j as int, c);
                        assert(local.deep_view() == upsert_item(pre, inc@));
                    }
                } else {
                    proof {
                        assert(local.deep_view() == upsert_item(pre, inc@));
                    }
                }
            },
            None => {
                proof {
                    lemma_upsert_absent(pre, inc@);
                }
                let c = inc.clone();
                let ghost pre_vec = *local;
                local.push(c);
                proof {
                    lemma_deep_view_push(pre_vec, *local, c);
                    assert(local.deep_view() == upsert_item(pre, inc@));
                }
            },
        }
        proof {
            assert(incoming.deep_view().take(i as int + 1) =~= incoming.deep_view().take(
                i as int,
            ).push(incoming.deep_view()[i as int]));
            lemma_merge_item_seqs_push(
                old(local).deep_view(),
                incoming.deep_view().take(i as int),
                incoming.deep_view()[i as int],
            );
        }
    }
    proof {
        assert(incoming.deep_view().take(n as int) =~= incoming.deep_view());
    }
}

/// Index of the first per-user entry in `s` for `name`, or -1 if there is none.
pub open spec fn first_entry_idx(s: Seq<UserItemsV>, name: Seq<char>) -> int
    decreases s.len(),
{
    if s.len() == 0 {
        -1
    } else if s[0].username == name {
        0
    } else {
        let r = first_entry_idx(s.drop_first(), name);
        if r < 0 {
            -1
        } else {
            r + 1
        }
    }
}

/// `first_entry_idx` really is the first index for `name`.
pub proof fn lemma_first_entry_idx(s: Seq<UserItemsV>, name: Seq<char>)
    ensures
        first_entry_idx(s, name) == -1 <==> !seq_has_entry(s, name),
        seq_has_entry(s, name) ==> {
            let j = first_entry_idx(s, name);
            &&& 0 <= j < s.len()
            &&& s[j].username == name
            &&& forall|k: int| 0 <= k < j ==> s[k].username != name
        },
    decreases s.len(),
{
    if s.len() == 0 {
    } else if s[0].username == name {
    } else {
        lemma_first_entry_idx(s.drop_first(), name);
        if seq_has_entry(s.drop_first(), name) {
            let r = first_entry_idx(s.drop_first(), name);
            assert(first_entry_idx(s, name) == r + 1);
            assert(s[r + 1] == s.drop_first()[r]);
            assert forall|k: int| 0 <= k < r + 1 implies s[k].username != name by {
                if k > 0 {
                    assert(s[k] == s.drop_first()[k - 1]);
                }
            }
        }
        assert(seq_has_entry(s, name) ==> seq_has_entry(s.drop_first(), name)) by {
            if seq_has_entry(s, name) {
                let j = choose|j: int| 0 <= j < s.len() && s[j].username == name;
                assert(j != 0);
                assert(s.drop_first()[j - 1].username == name);
            }
        }
        assert(seq_has_entry(s.drop_first(), name) ==> seq_has_entry(s, name)) by {
            if seq_has_entry(s.drop_first(), name) {
                let j = choose|j: int|
                    0 <= j < s.drop_first().len() && s.drop_first()[j].username == name;
                assert(s[j + 1].username == name);
            }
        }
    }
}

/// When no local entry belongs to `e.username`, the upsert appends a fresh
/// entry whose list is `e.items` merged into an empty list.
pub proof fn lemma_upsert_entry_absent(s: Seq<UserItemsV>, e: UserItemsV)
    requires
        !seq_has_entry(s, e.username),
    ensures
        upsert_entry(s, e) == s.push(
            UserItemsV { username: e.username, items: merge_item_seqs(Seq::empty(), e.items) },
        ),
    decreases s.len(),
{
    if s.len() == 0 {
        assert(upsert_entry(s, e) =~= s.push(
            UserItemsV { username: e.username, items: merge_item_seqs(Seq::empty(), e.items) },
        ));
    } else {
        assert(s[0].username != e.username);
        assert(!seq_has_entry(s.drop_first(), e.username)) by {
            if seq_has_entry(s.drop_first(), e.username) {
                let j = choose|j: int|
                    0 <= j < s.drop_first().len() && s.drop_first()[j].username == e.username;
                assert(s[j + 1].username == e.username);
            }
        }
        lemma_upsert_entry_absent(s.drop_first(), e);
        assert(upsert_entry(s, e) =~= s.push(
            UserItemsV { username: e.username, items: merge_item_seqs(Seq::empty(), e.items) },
        ));
    }
}

/// When a local entry belongs to `e.username`, the upsert merges `e.items`
/// into the first such entry, in place.
pub proof fn lemma_upsert_entry_present(s: Seq<UserItemsV>, e: UserItemsV)
    requires
        seq_has_entry(s, e.username),
    ensures
        ({
            let j = first_entry_idx(s, e.username);
            upsert_entry(s, e) == s.update(
                j,
                UserItemsV {
                    username: s[j].username,
                    items: merge_item_seqs(s[j].items, e.items),
                },
            )
        }),
    decreases s.len(),
{
    lemma_first_entry_idx(s, e.username);
    let j = first_entry_idx(s, e.username);
    if s[0].username == e.username {
        assert(j == 0);
        assert(upsert_entry(s, e) =~= s.update(
            0,
            UserItemsV { username: s[0].username, items: merge_item_seqs(s[0].items, e.items) },
        ));
    } else {
        assert(seq_has_entry(s.drop_first(), e.username)) by {
            let k = choose|k: int| 0 <= k < s.len() && s[k].username == e.username;
            assert(k != 0);
            assert(s.drop_first()[k - 1].username == e.username);
        }
        lemma_first_entry_idx(s.drop_first(), e.username);
        lemma_upsert_entry_present(s.drop_first(), e);
        assert(first_entry_idx(s.drop_first(), e.username) == j - 1);
        assert(s.drop_first()[j - 1] == s[j]);
        assert(upsert_entry(s, e) =~= s.update(
            j,
            UserItemsV { username: s[j].username, items: merge_item_seqs(s[j].items, e.items) },
        ));
    }
}

/// Index of the first user record in `s` with username `name`, or -1.
pub open spec fn first_user_idx(s: Seq<UserRecordV>, name: Seq<char>) -> int
    decreases s.len(),
{
    if s.len() == 0 {
        -1
    } else if s[0].username == name {
        0
    } else {
        let r = first_user_idx(s.drop_first(), name);
        if r < 0 {
            -1
        } else {
            r + 1
        }
    }
}

/// `first_user_idx` really is the first index with username `name`.
pub proof fn lemma_first_user_idx(s: Seq<UserRecordV>, name: Seq<char>)
    ensures
        first_user_idx(s, name) == -1 <==> !has_username(s, name),
        has_username(s, name) ==> {
            let j = first_user_idx(s, name);
            &&& 0 <= j < s.len()
            &&& s[j].username == name
            &&& forall|k: int| 0 <= k < j ==> s[k].username != name
        },
    decreases s.len(),
{
    if s.len() == 0 {
    } else if s[0].username == name {
    } else {
        lemma_first_user_idx(s.drop_first(), name);
        if has_username(s.drop_first(), name) {
            let r = first_user_idx(s.drop_first(), name);
            assert(first_user_idx(s, name) == r + 1);
            assert(s[r + 1] == s.drop_first()[r]);
            assert forall|k: int| 0 <= k < r + 1 implies s[k].username != name by {
                if k > 0 {
                    assert(s[k] == s.drop_first()[k - 1]);
                }
            }
        }
        assert(has_username(s, name) ==> has_username(s.drop_first(), name)) by {
            if has_username(s, name) {
                let j = choose|j: int| 0 <= j < s.len() && s[j].username == name;
                assert(j != 0);
                assert(s.drop_first()[j - 1].username == name);
            }
        }
        assert(has_username(s.drop_first(), name) ==> has_username(s, name)) by {
            if has_username(s.drop_first(), name) {
                let j = choose|j: int|
                    0 <= j < s.drop_first().len() && s.drop_first()[j].username == name;
                assert(s[j + 1].username == name);
            }
        }
    }
}

/// Index of some user record in `users` with username `name`, if any.
pub fn find_user_index(users: &Vec<UserRecord>, name: &str) -> (r: Option<usize>)
    ensures
        match r {
            Some(j) => {
                &&& (j as int) < users.deep_view().len()
                &&& users.deep_view()[j as int].username == name@
                &&& forall|k: int| 0 <= k < j ==> users.deep_view()[k].username != name@
            },
            None => !has_username(users.deep_view(), name@),
        },
{
    let n = users.len();
    for j in 0..n
        invariant
            n == users@.len(),
            forall|k: int| 0 <= k < j ==> users.deep_view()[k].username != name@,
    {
        proof {
            assert(users.deep_view()[j as int].username == users@[j as int]@.username);
        }
        if str_eq(users[j].username.as_str(), name) {
            return Some(j);
        }
    }
    None
}

/// Merges the incoming user records into the local ones: a record is appended
/// only when its username is new; local records are never altered.
pub fn merge_users_into(local: &mut Vec<UserRecord>, incoming: &Vec<UserRecord>)
    ensures
        final(local).deep_view() == merge_user_seqs(old(local).deep_view(), incoming.deep_view()),
{
    let n = incoming.len();
    for i in 0..n
        invariant
            n == incoming@.len(),
            local.deep_view() == merge_user_seqs(
                old(local).deep_view(),
                incoming.deep_view().take(i as int),
            ),
    {
        let ghost pre = local.deep_view();
        let inc = &incoming[i];
        proof {
            assert(inc@ == incoming.deep_view()[i as int]);
        }
        match find_user_index(local, inc.username.as_str()) {
            Some(_) => {
            },
            None => {
                let c = inc.clone();
                let ghost pre_vec = *local;
                local.push(c);
                proof {
                    lemma_deep_view_push(pre_vec, *local, c);
                }
            },
        }
        proof {
            assert(incoming.deep_view().take(i as int + 1) =~= incoming.deep_view().take(
                i as int,
            ).push(incoming.deep_view()[i as int]));
            lemma_merge_user_seqs_push(
                old(local).deep_view(),
                incoming.deep_view().take(i as int),
                incoming.deep_view()[i as int],
            );
        }
    }
    proof {
        assert(incoming.deep_view().take(n as int) =~= incoming.deep_view());
    }
}

/// Index of the first per-user entry in `by_user` for `name`, if any.
pub fn find_entry_index(by_user: &Vec<UserItems>, name: &str) -> (r: Option<usize>)
    ensures
        match r {
            Some(j) => {
                &&& (j as int) < by_user.deep_view().len()
                &&& by_user.deep_view()[j as int].username == name@
                &&& forall|k: int| 0 <= k < j ==> by_user.deep_view()[k].username != name@
            },
            None => !seq_has_entry(by_user.deep_view(), name@),
        },
{
    let n = by_user.len();
    for j in 0..n
        invariant
            n == by_user@.len(),
            forall|k: int| 0 <= k < j ==> by_user.deep_view()[k].username != name@,
    {
        proof {
            assert(by_user.deep_view()[j as int].username == by_user@[j as int]@.username);
        }
        if str_eq(by_user[j].username.as_str(), name) {
            return Some(j);
        }
    }
    None
}

/// Merges the incoming per-user mapping into the local one, entry by entry:
/// each incoming list is merged into the list of the same username, and a
/// username with no local entry gets a fresh list.
pub fn merge_entries_into(by_user: &mut Vec<UserItems>, incoming: &Vec<UserItems>)
    ensures
        final(by_user).deep_view() == merge_by_user(
            old(by_user).deep_view(),
            incoming.deep_view(),
        ),
{
    let n = incoming.len();
    for i in 0..n
        invariant
            n == incoming@.len(),
            by_user.deep_view() == merge_by_user(
                old(by_user).deep_view(),
                incoming.deep_view().take(i as int),
            ),
    {
        let ghost pre = by_user.deep_view();
        let inc = &incoming[i];
        proof {
            assert(inc@ == incoming.deep_view()[i as int]);
        }
        match find_entry_index(by_user, inc.username.as_str()) {
            Some(j) => {
                proof {
                    lemma_first_entry_idx(pre, inc@.username);
                    lemma_upsert_entry_present(pre, inc@);
                    assert(first_entry_idx(pre, inc@.username) == j as int);
                }
                let mut entry = UserItems { username: String::new(), items: Vec::new() };
                let ghost pre_vec = *by_user;
                by_user.set_and_swap(j, &mut entry);
                let UserItems { username: owner, items: mut owned } = entry;
                proof {
                    assert(owned.deep_view() == pre[j as int].items);
                }
                merge_items_into(&mut owned, &inc.items);
                let mut slot = UserItems { username: owner, items: owned };
                let ghost merged_entry = slot;
                by_user.set_and_swap(j, &mut slot);
                proof {
                    assert(by_user@ =~= pre_vec@.update(j as int, merged_entry));
                    lemma_deep_view_update(pre_vec, *by_user, j as int, merged_entry);
                    assert(merged_entry@ == UserItemsV {
                        username: pre[j as int].username,
                        items: merge_item_seqs(pre[j as int].items, inc@.items),
                    });
                    assert(by_user.deep_view() == upsert_entry(pre, inc@));
                }
            },
            None => {
                proof {
                    lemma_upsert_entry_absent(pre, inc@);
                }
                let mut fresh: Vec<MediaItem> = Vec::new();
                proof {
                    assert(fresh.deep_view() =~= Seq::<MediaItemV>::empty());
                }
                merge_items_into(&mut fresh, &inc.items);
                let c = UserItems { username: inc.username.clone(), items: fresh };
                let ghost pre_vec = *by_user;
                by_user.push(c);
                proof {
                    lemma_deep_view_push(pre_vec, *by_user, c);
                    assert(by_user.deep_view() == upsert_entry(pre, inc@));
                }
            },
        }
        proof {
            assert(incoming.deep_view().take(i as int + 1) =~= incoming.deep_view().take(
                i as int,
            ).push(incoming.deep_view()[i as int]));
            lemma_merge_by_user_push(
                old(by_user).deep_view(),
                incoming.deep_view().take(i as int),
                incoming.deep_view()[i as int],
            );
        }
    }
    proof {
        assert(incoming.deep_view().take(n as int) =~= incoming.deep_view());
    }
}

/// The full merge: users are unioned by username, per-user lists are merged
/// item by item, and the legacy flat item list is left untouched.
pub fn merge_collection_data(local: &mut CollectionData, incoming: &CollectionData)
    ensures
        final(local)@ == merge_collection(old(local)@, incoming@),
{
    merge_users_into(&mut local.users, &incoming.users);
    merge_entries_into(&mut local.items_by_user, &incoming.items_by_user);
    proof {
        assert(final(local)@ =~= merge_collection(old(local)@, incoming@));
    }
}

} // verus!