use feed_rs::entry::Entry;
use feed_rs::errors::{client_outcome, ServeError, StoreError};
use feed_rs::feed::{Feed, FeedType, InsertFeedData, UpdateFeedData, Window};
use feed_rs::render::Store;

const NOW: i64 = 1_000_000;
const YESTERDAY: i64 = NOW - 86_400;
const TOMORROW: i64 = NOW + 86_400;

fn feed_data(name: &str, feed_type: FeedType) -> InsertFeedData {
    InsertFeedData { name: String::from(name), feed_type, description: None }
}

#[test]
fn duplicate_feed_name_conflicts() {
    let mut store = Store::new();
    store.insert_feed(feed_data("taken", FeedType::IP)).unwrap();
    let r = store.insert_feed(feed_data("taken", FeedType::Domain));
    assert_eq!(r.unwrap_err(), StoreError::Conflict);
}

#[test]
fn feed_ids_are_assigned_in_order() {
    let mut store = Store::new();
    let a = store.insert_feed(feed_data("a", FeedType::IP)).unwrap();
    let b = store.insert_feed(feed_data("b", FeedType::URL)).unwrap();
    assert_eq!(a.id, 1);
    assert_eq!(b.id, 2);
    assert!(a.digest.is_empty());
}

#[test]
fn feed_lookup_by_name_and_id() {
    let mut store = Store::new();
    let created = store.insert_feed(InsertFeedData {
        name: String::from("named"),
        feed_type: FeedType::URL,
        description: Some(String::from("a list")),
    })
    .unwrap();

    let by_name = Feed::get(store.registry(), "named").unwrap();
    assert_eq!(by_name.id, created.id);
    assert_eq!(by_name.description, "a list");

    let by_id = Feed::get_by_id(store.registry(), created.id).unwrap();
    assert_eq!(by_id.name, "named");

    assert_eq!(
        Feed::get(store.registry(), "other").unwrap_err(),
        StoreError::NotFound
    );
    assert_eq!(
        Feed::get_by_id(store.registry(), 99).unwrap_err(),
        StoreError::NotFound
    );
}

#[test]
fn feed_listing_windows() {
    let mut store = Store::new();
    store.insert_feed(feed_data("one", FeedType::IP)).unwrap();
    store.insert_feed(feed_data("two", FeedType::URL)).unwrap();
    store.insert_feed(feed_data("three", FeedType::Domain)).unwrap();

    let all = Feed::list(store.registry(), None);
    let names: Vec<String> = all.iter().map(|f| f.name.clone()).collect();
    assert_eq!(names, vec!["one", "two", "three"]);

    let first_page = Feed::list(store.registry(), Some(Window { pos: 0, size: 2 }));
    assert_eq!(first_page.len(), 2);
    assert_eq!(first_page[0].name, "one");
    assert_eq!(first_page[1].name, "two");

    let second_page = Feed::list(store.registry(), Some(Window { pos: 1, size: 2 }));
    assert_eq!(second_page.len(), 1);
    assert_eq!(second_page[0].name, "three");

    let far_page = Feed::list(store.registry(), Some(Window { pos: 7, size: 2 }));
    assert!(far_page.is_empty());
}

#[test]
fn update_feed_replaces_description_only() {
    let mut store = Store::new();
    let feed = store.insert_feed(feed_data("doc", FeedType::IP)).unwrap();
    store
        .update_feed(feed.id, UpdateFeedData { description: Some(String::from("fresh")) })
        .unwrap();
    let after = Feed::get_by_id(store.registry(), feed.id).unwrap();
    assert_eq!(after.description, "fresh");
    assert_eq!(after.name, "doc");
    assert!(matches!(after.feed_type, FeedType::IP));

    store.update_feed(feed.id, UpdateFeedData { description: None }).unwrap();
    let unchanged = Feed::get_by_id(store.registry(), feed.id).unwrap();
    assert_eq!(unchanged.description, "fresh");

    assert_eq!(
        store.update_feed(99, UpdateFeedData { description: None }).unwrap_err(),
        StoreError::NotFound
    );
}

#[test]
fn pagination_window_boundaries() {
    let mut store = Store::new();
    let feed = store.insert_feed(feed_data("paged", FeedType::IP)).unwrap();
    for value in ["10.0.0.0/24", "10.0.1.0/24", "10.0.2.0/24", "10.0.3.0/24"] {
        store
            .insert_entry(feed.id, String::from(value), None, None)
            .unwrap();
    }
    let entries = store.entries(FeedType::IP);

    let first = entries.fetch_some(feed.id, 2, None, None, None);
    let first_ids: Vec<i64> = first.iter().map(|e| e.id).collect();
    assert_eq!(first_ids, vec![1, 2]);

    // The cursor is the last returned id: the next page starts strictly
    // after it.
    let second = entries.fetch_some(feed.id, 2, Some(2), None, None);
    let second_ids: Vec<i64> = second.iter().map(|e| e.id).collect();
    assert_eq!(second_ids, vec![3, 4]);

    let done = entries.fetch_some(feed.id, 2, Some(4), None, None);
    assert!(done.is_empty());
}

#[test]
fn listing_filters_by_enabled_and_validity() {
    let mut store = Store::new();
    let feed = store.insert_feed(feed_data("mixed", FeedType::Domain)).unwrap();
    let on_forever = store
        .insert_entry(feed.id, String::from("a.test"), None, None)
        .unwrap();
    let on_expiring = store
        .insert_entry(feed.id, String::from("b.test"), None, Some(TOMORROW))
        .unwrap();
    let off = store
        .insert_entry(feed.id, String::from("c.test"), None, Some(YESTERDAY))
        .unwrap();
    store
        .update_entry(&Entry {
            id: off.id,
            value: String::from("c.test"),
            enabled: false,
            description: String::new(),
            valid_until: Some(YESTERDAY),
            feed_id: feed.id,
        })
        .unwrap();
    let entries = store.entries(FeedType::Domain);

    let only_disabled = entries.fetch_some(feed.id, 10, None, Some(false), None);
    let disabled_ids: Vec<i64> = only_disabled.iter().map(|e| e.id).collect();
    assert_eq!(disabled_ids, vec![off.id]);

    let never_expiring = entries.fetch_some(feed.id, 10, None, None, Some(None));
    let never_ids: Vec<i64> = never_expiring.iter().map(|e| e.id).collect();
    assert_eq!(never_ids, vec![on_forever.id]);

    let expiring_after_now = entries.fetch_some(feed.id, 10, None, None, Some(Some(NOW)));
    let late_ids: Vec<i64> = expiring_after_now.iter().map(|e| e.id).collect();
    assert_eq!(late_ids, vec![on_expiring.id]);
}

#[test]
fn entry_update_and_delete_on_missing_id_are_not_found() {
    let mut store = Store::new();
    let feed = store.insert_feed(feed_data("sparse", FeedType::URL)).unwrap();
    let ghost_entry = Entry {
        id: 42,
        value: String::from("https://example.test"),
        enabled: true,
        description: String::new(),
        valid_until: None,
        feed_id: feed.id,
    };
    assert_eq!(store.update_entry(&ghost_entry), Err(StoreError::NotFound));
    assert_eq!(store.delete_entry(feed.id, 42), Err(StoreError::NotFound));
}

#[test]
fn client_outcome_maps_only_not_found() {
    assert_eq!(client_outcome(StoreError::NotFound), ServeError::NotFound);
    assert_eq!(client_outcome(StoreError::Conflict), ServeError::Failure);
    assert_eq!(client_outcome(StoreError::Storage), ServeError::Failure);
    assert_eq!(client_outcome(StoreError::Validation), ServeError::Failure);
}
