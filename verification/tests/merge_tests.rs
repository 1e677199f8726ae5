use mediatracker::database::Database;
use mediatracker::models::{CollectionData, MediaItem, MediaType, UserItems, UserRecord};

fn item(id: &str, title: &str, ts: Option<i64>) -> MediaItem {
    MediaItem {
        id: id.to_string(),
        title: title.to_string(),
        director_or_author: String::new(),
        description: String::new(),
        release_date: String::new(),
        media_type: MediaType::Movie,
        is_ongoing: false,
        latest_update_info: None,
        category: None,
        saved_at: None,
        poster_url: None,
        rating: None,
        cast: None,
        user_progress: None,
        notification_enabled: None,
        last_checked_at: None,
        has_new_update: None,
        user_review: None,
        custom_poster_url: None,
        last_edited_at: ts,
        status: None,
        added_at: None,
        user_rating_bits: None,
        parent_collection_id: None,
        is_collection: None,
    }
}

fn user(name: &str, hash: &str, created: i64) -> UserRecord {
    UserRecord {
        username: name.to_string(),
        password_hash: hash.to_string(),
        created_at: created,
    }
}

fn store_with(username: &str, items: Vec<MediaItem>) -> Database {
    let mut data = CollectionData::empty();
    data.items_by_user.push(UserItems { username: username.to_string(), items });
    Database::new(data)
}

fn snapshot_with(username: &str, items: Vec<MediaItem>) -> CollectionData {
    let mut data = CollectionData::empty();
    data.items_by_user.push(UserItems { username: username.to_string(), items });
    data
}

fn items_of<'a>(data: &'a CollectionData, username: &str) -> &'a Vec<MediaItem> {
    &data
        .items_by_user
        .iter()
        .find(|e| e.username == username)
        .expect("user entry")
        .items
}

fn find_by_id<'a>(items: &'a [MediaItem], id: &str) -> Option<&'a MediaItem> {
    items.iter().find(|it| it.id == id)
}

#[test]
fn merge_idempotent_scenario() {
    let mut db = store_with("alice", vec![item("1", "old", Some(100)), item("2", "keep", None)]);
    let incoming = snapshot_with(
        "alice",
        vec![item("1", "new", Some(200)), item("3", "extra", Some(50))],
    );
    db.merge_full_data(&incoming);
    let once = db.get_full_data();
    db.merge_full_data(&incoming);
    let twice = db.get_full_data();
    assert_eq!(once, twice);
}

#[test]
fn merge_commutes_for_distinct_ids() {
    let a = item("a", "first", Some(10));
    let b = item("b", "second", Some(20));

    let mut db1 = store_with("alice", vec![item("a", "local", Some(5))]);
    db1.merge_full_data(&snapshot_with("alice", vec![a.clone(), b.clone()]));

    let mut db2 = store_with("alice", vec![item("a", "local", Some(5))]);
    db2.merge_full_data(&snapshot_with("alice", vec![b.clone(), a.clone()]));

    let d1 = db1.get_full_data();
    let d2 = db2.get_full_data();
    let l1 = items_of(&d1, "alice");
    let l2 = items_of(&d2, "alice");
    assert_eq!(l1.len(), l2.len());
    for it in l1.iter() {
        let other = find_by_id(l2, &it.id).expect("same ids on both sides");
        assert_eq!(it, other);
    }
}

#[test]
fn merge_same_id_greater_timestamp_wins_both_orders() {
    let newer = item("x", "newer", Some(200));
    let older = item("x", "older", Some(100));

    let mut db1 = store_with("alice", vec![]);
    db1.merge_full_data(&snapshot_with("alice", vec![newer.clone(), older.clone()]));
    let mut db2 = store_with("alice", vec![]);
    db2.merge_full_data(&snapshot_with("alice", vec![older.clone(), newer.clone()]));

    let d1 = db1.get_full_data();
    let d2 = db2.get_full_data();
    assert_eq!(items_of(&d1, "alice"), items_of(&d2, "alice"));
    assert_eq!(items_of(&d1, "alice")[0].title, "newer");
}

#[test]
fn merge_tie_on_missing_timestamps_keeps_local() {
    let mut db = store_with("alice", vec![item("1", "local", None)]);
    db.merge_full_data(&snapshot_with("alice", vec![item("1", "incoming", None)]));
    let data = db.get_full_data();
    let list = items_of(&data, "alice");
    assert_eq!(list.len(), 1);
    assert_eq!(list[0].title, "local");
}

#[test]
fn merge_appends_new_item_preserving_order() {
    let mut db = store_with("alice", vec![item("1", "one", Some(1)), item("2", "two", Some(2))]);
    db.merge_full_data(&snapshot_with("alice", vec![item("3", "three", Some(3))]));
    let data = db.get_full_data();
    let list = items_of(&data, "alice");
    assert_eq!(list.len(), 3);
    assert_eq!(list[0].id, "1");
    assert_eq!(list[0].title, "one");
    assert_eq!(list[1].id, "2");
    assert_eq!(list[1].title, "two");
    assert_eq!(list[2].id, "3");
    assert_eq!(list[2].title, "three");
}

#[test]
fn merge_replaces_in_place_keeping_position() {
    let mut db = store_with(
        "alice",
        vec![item("1", "one", Some(1)), item("2", "two", Some(2)), item("3", "three", Some(3))],
    );
    db.merge_full_data(&snapshot_with("alice", vec![item("2", "two v2", Some(9))]));
    let data = db.get_full_data();
    let list = items_of(&data, "alice");
    assert_eq!(list.len(), 3);
    assert_eq!(list[1].id, "2");
    assert_eq!(list[1].title, "two v2");
    assert_eq!(list[1].last_edited_at, Some(9));
}

#[test]
fn merge_user_union_keeps_local_record() {
    let mut data = CollectionData::empty();
    data.users.push(user("alice", "local-hash", 1));
    let mut db = Database::new(data);

    let mut incoming = CollectionData::empty();
    incoming.users.push(user("alice", "remote-hash", 99));
    incoming.users.push(user("bob", "bob-hash", 7));
    db.merge_full_data(&incoming);

    let merged = db.get_full_data();
    assert_eq!(merged.users.len(), 2);
    assert_eq!(merged.users[0].username, "alice");
    assert_eq!(merged.users[0].password_hash, "local-hash");
    assert_eq!(merged.users[0].created_at, 1);
    assert_eq!(merged.users[1].username, "bob");
    assert_eq!(merged.users[1].password_hash, "bob-hash");
}

#[test]
fn merge_creates_list_for_new_username() {
    let mut db = store_with("alice", vec![item("1", "one", Some(1))]);
    db.merge_full_data(&snapshot_with("carol", vec![item("9", "nine", Some(9))]));
    let data = db.get_full_data();
    assert_eq!(items_of(&data, "alice").len(), 1);
    let carols = items_of(&data, "carol");
    assert_eq!(carols.len(), 1);
    assert_eq!(carols[0].id, "9");
}

#[test]
fn merge_leaves_legacy_flat_list_untouched() {
    let mut data = CollectionData::empty();
    data.items.push(item("legacy", "flat", None));
    let mut db = Database::new(data);
    db.merge_full_data(&snapshot_with("alice", vec![item("1", "one", Some(1))]));
    let merged = db.get_full_data();
    assert_eq!(merged.items.len(), 1);
    assert_eq!(merged.items[0].id, "legacy");
}

#[test]
fn end_to_end_push_then_fetch() {
    // Node X holds alice's item 1 at timestamp 100; node Y pushes the same
    // item edited later. A fetch afterwards must see Y's edit.
    let mut node_x = store_with("alice", vec![item("1", "original", Some(100))]);
    let pushed = snapshot_with("alice", vec![item("1", "updated", Some(200))]);
    node_x.merge_full_data(&pushed);
    let served = node_x.get_full_data();
    let list = items_of(&served, "alice");
    assert_eq!(list.len(), 1);
    assert_eq!(list[0].id, "1");
    assert_eq!(list[0].title, "updated");
    assert_eq!(list[0].last_edited_at, Some(200));
}

#[test]
fn add_item_replaces_same_id_at_end() {
    let mut db = store_with("alice", vec![item("1", "one", Some(1)), item("2", "two", Some(2))]);
    db.add_item_for_user("alice", item("1", "one v2", Some(5)));
    let data = db.get_full_data();
    let list = items_of(&data, "alice");
    assert_eq!(list.len(), 2);
    assert_eq!(list[0].id, "2");
    assert_eq!(list[1].id, "1");
    assert_eq!(list[1].title, "one v2");
}

#[test]
fn add_item_creates_list_for_new_user() {
    let mut db = Database::new(CollectionData::empty());
    db.add_item_for_user("dora", item("7", "seven", None));
    let list = db.get_all_for_user("dora");
    assert_eq!(list.len(), 1);
    assert_eq!(list[0].id, "7");
}

#[test]
fn remove_item_drops_only_that_id() {
    let mut db = store_with("alice", vec![item("1", "one", None), item("2", "two", None)]);
    db.remove_item_for_user("alice", "1");
    let list = db.get_all_for_user("alice");
    assert_eq!(list.len(), 1);
    assert_eq!(list[0].id, "2");
}

#[test]
fn remove_item_for_unknown_user_changes_nothing() {
    let mut db = store_with("alice", vec![item("1", "one", None)]);
    let before = db.get_full_data();
    db.remove_item_for_user("nobody", "1");
    assert_eq!(before, db.get_full_data());
}

#[test]
fn import_skips_ids_already_present() {
    let mut db = store_with("alice", vec![item("1", "one", None)]);
    db.import_for_user(
        "alice",
        vec![item("1", "one again", None), item("2", "two", None)],
    );
    let list = db.get_all_for_user("alice");
    assert_eq!(list.len(), 2);
    assert_eq!(list[0].title, "one");
    assert_eq!(list[1].id, "2");
}

#[test]
fn update_item_always_fails() {
    let db = Database::new(CollectionData::empty());
    let r = db.update_item(item("1", "one", None));
    assert_eq!(r, Err("update_item deprecated; use per-user methods".to_string()));
}

#[test]
fn add_user_rejects_duplicate_username() {
    let mut db = Database::new(CollectionData::empty());
    assert!(db.add_user(user("alice", "h1", 1)).is_ok());
    let r = db.add_user(user("alice", "h2", 2));
    assert_eq!(r, Err("User already exists".to_string()));
    let data = db.get_full_data();
    assert_eq!(data.users.len(), 1);
    assert_eq!(data.users[0].password_hash, "h1");
}

#[test]
fn find_user_returns_first_match() {
    let mut db = Database::new(CollectionData::empty());
    db.add_user(user("alice", "h1", 1)).unwrap();
    let found = db.find_user("alice").expect("alice exists");
    assert_eq!(found.password_hash, "h1");
    assert!(db.find_user("bob").is_none());
}

#[test]
fn get_all_for_unknown_user_is_empty() {
    let db = Database::new(CollectionData::empty());
    assert!(db.get_all_for_user("ghost").is_empty());
}

#[test]
fn get_full_data_returns_equal_snapshot() {
    let db = store_with("alice", vec![item("1", "one", Some(1))]);
    let a = db.get_full_data();
    let b = db.get_full_data();
    assert_eq!(a, b);
    assert_eq!(items_of(&a, "alice")[0].title, "one");
}

#[test]
fn redaction_clears_private_fields_only() {
    let mut it = item("1", "one", Some(5));
    it.user_review = Some("mine".to_string());
    it.notification_enabled = Some(true);
    it.poster_url = Some("p".to_string());
    let out = mediatracker::database::redact_for_export(vec![it]);
    assert_eq!(out.len(), 1);
    assert_eq!(out[0].user_review, None);
    assert_eq!(out[0].notification_enabled, None);
    assert_eq!(out[0].id, "1");
    assert_eq!(out[0].title, "one");
    assert_eq!(out[0].poster_url, Some("p".to_string()));
    assert_eq!(out[0].last_edited_at, Some(5));
}

#[test]
fn merging_empty_snapshot_changes_nothing() {
    let mut db = store_with("alice", vec![item("1", "one", Some(1))]);
    let before = db.get_full_data();
    db.merge_full_data(&CollectionData::empty());
    assert_eq!(before, db.get_full_data());
}

#[test]
fn get_all_returns_flat_list_copy() {
    let mut data = CollectionData::empty();
    data.items.push(item("f", "flat", None));
    let db = Database::new(data);
    let all = db.get_all();
    assert_eq!(all.len(), 1);
    assert_eq!(all[0].id, "f");
}
