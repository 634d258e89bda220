use feed_rs::entry::Entry;
use feed_rs::errors::{ServeError, StoreError};
use feed_rs::feed::{Feed, FeedType, InsertFeedData};
use feed_rs::render::{serve_feed, Store};

const NOW: i64 = 1_000_000;
const YESTERDAY: i64 = NOW - 86_400;

fn feed_data(name: &str, feed_type: FeedType) -> InsertFeedData {
    InsertFeedData { name: String::from(name), feed_type, description: None }
}

fn blocklist_store() -> (Store, i64) {
    let mut store = Store::new();
    let feed = store.insert_feed(feed_data("blocklist-a", FeedType::IP)).unwrap();
    let disabled = store
        .insert_entry(feed.id, String::from("10.0.1.0/24"), None, None)
        .unwrap();
    store
        .update_entry(&Entry {
            id: disabled.id,
            value: String::from("10.0.1.0/24"),
            enabled: false,
            description: String::new(),
            valid_until: None,
            feed_id: feed.id,
        })
        .unwrap();
    store
        .insert_entry(feed.id, String::from("10.0.2.0/24"), None, Some(YESTERDAY))
        .unwrap();
    store
        .insert_entry(feed.id, String::from("10.0.0.0/24"), None, None)
        .unwrap();
    (store, feed.id)
}

#[test]
fn blocklist_renders_only_active_entries() {
    let (mut store, _) = blocklist_store();
    let body = serve_feed(&mut store, "blocklist-a", NOW).unwrap();
    assert_eq!(body, "10.0.0.0/24\n");
}

#[test]
fn digest_matches_known_md5() {
    let mut store = Store::new();
    let feed = store.insert_feed(feed_data("blocklist-a", FeedType::IP)).unwrap();
    store
        .insert_entry(feed.id, String::from("10.0.0.0/24"), None, None)
        .unwrap();
    serve_feed(&mut store, "blocklist-a", NOW).unwrap();
    let refreshed = Feed::get(store.registry(), "blocklist-a").unwrap();
    assert_eq!(
        refreshed.digest,
        vec![143, 100, 83, 78, 103, 47, 65, 148, 67, 179, 236, 140, 22, 2, 153, 85]
    );
}

#[test]
fn empty_feed_renders_empty_body_with_empty_body_digest() {
    let mut store = Store::new();
    store.insert_feed(feed_data("empty", FeedType::Domain)).unwrap();
    let body = serve_feed(&mut store, "empty", NOW).unwrap();
    assert_eq!(body, "");
    let refreshed = Feed::get(store.registry(), "empty").unwrap();
    assert_eq!(
        refreshed.digest,
        vec![212, 29, 140, 217, 143, 0, 178, 4, 233, 128, 9, 152, 236, 248, 66, 126]
    );
}

#[test]
fn digest_memoized_across_renders() {
    let mut store = Store::new();
    let feed = store.insert_feed(feed_data("memo", FeedType::URL)).unwrap();
    assert!(feed.digest.is_empty());
    store
        .insert_entry(feed.id, String::from("https://example.test/a"), None, None)
        .unwrap();

    let first = serve_feed(&mut store, "memo", NOW).unwrap();
    let after_first = Feed::get(store.registry(), "memo").unwrap();
    assert_eq!(after_first.digest.len(), 16);

    let second = serve_feed(&mut store, "memo", NOW).unwrap();
    let after_second = Feed::get(store.registry(), "memo").unwrap();
    assert_eq!(first, second);
    assert_eq!(after_first.digest, after_second.digest);
}

#[test]
fn missing_feed_is_not_found() {
    let mut store = Store::new();
    store.insert_feed(feed_data("present", FeedType::IP)).unwrap();
    assert_eq!(serve_feed(&mut store, "absent", NOW), Err(ServeError::NotFound));
}

#[test]
fn rendering_dispatches_on_feed_kind() {
    let mut store = Store::new();
    let ip = store.insert_feed(feed_data("ips", FeedType::IP)).unwrap();
    let dom = store.insert_feed(feed_data("domains", FeedType::Domain)).unwrap();
    store
        .insert_entry(ip.id, String::from("192.0.2.0/24"), None, None)
        .unwrap();
    store
        .insert_entry(dom.id, String::from("example.test"), None, None)
        .unwrap();
    assert_eq!(serve_feed(&mut store, "ips", NOW).unwrap(), "192.0.2.0/24\n");
    assert_eq!(serve_feed(&mut store, "domains", NOW).unwrap(), "example.test\n");
}

#[test]
fn entry_for_missing_feed_is_storage_error() {
    let mut store = Store::new();
    let r = store.insert_entry(999, String::from("203.0.113.0/24"), None, None);
    assert_eq!(r.unwrap_err(), StoreError::Storage);
}

#[test]
fn entry_mutations_clear_the_cached_digest() {
    let mut store = Store::new();
    let feed = store.insert_feed(feed_data("live", FeedType::IP)).unwrap();
    store
        .insert_entry(feed.id, String::from("10.0.0.0/24"), None, None)
        .unwrap();

    let first_body = serve_feed(&mut store, "live", NOW).unwrap();
    let first_digest = Feed::get(store.registry(), "live").unwrap().digest;
    assert_eq!(first_digest.len(), 16);

    let added = store
        .insert_entry(feed.id, String::from("10.0.1.0/24"), None, None)
        .unwrap();
    assert!(Feed::get(store.registry(), "live").unwrap().digest.is_empty());

    let second_body = serve_feed(&mut store, "live", NOW).unwrap();
    let second_digest = Feed::get(store.registry(), "live").unwrap().digest;
    assert_eq!(second_body, "10.0.0.0/24\n10.0.1.0/24\n");
    assert_ne!(first_body, second_body);
    assert_ne!(first_digest, second_digest);

    store.delete_entry(feed.id, added.id).unwrap();
    assert!(Feed::get(store.registry(), "live").unwrap().digest.is_empty());
    assert_eq!(serve_feed(&mut store, "live", NOW).unwrap(), first_body);
    assert_eq!(Feed::get(store.registry(), "live").unwrap().digest, first_digest);
}

#[test]
fn update_entry_requires_matching_feed() {
    let mut store = Store::new();
    let a = store.insert_feed(feed_data("a", FeedType::IP)).unwrap();
    let b = store.insert_feed(feed_data("b", FeedType::IP)).unwrap();
    let entry = store
        .insert_entry(a.id, String::from("10.0.0.0/24"), None, None)
        .unwrap();
    let foreign = Entry {
        id: entry.id,
        value: String::from("10.0.0.0/24"),
        enabled: false,
        description: String::new(),
        valid_until: None,
        feed_id: b.id,
    };
    assert_eq!(store.update_entry(&foreign), Err(StoreError::NotFound));
    assert_eq!(store.delete_entry(b.id, entry.id), Err(StoreError::NotFound));
}

#[test]
fn delete_feed_cascades_to_its_entries_only() {
    let mut store = Store::new();
    let a = store.insert_feed(feed_data("a", FeedType::IP)).unwrap();
    let b = store.insert_feed(feed_data("b", FeedType::IP)).unwrap();
    store
        .insert_entry(a.id, String::from("10.0.0.0/24"), None, None)
        .unwrap();
    store
        .insert_entry(b.id, String::from("10.9.9.0/24"), None, None)
        .unwrap();

    store.delete_feed(a.id).unwrap();
    assert_eq!(serve_feed(&mut store, "a", NOW), Err(ServeError::NotFound));
    assert_eq!(serve_feed(&mut store, "b", NOW).unwrap(), "10.9.9.0/24\n");
    let leftover = store.entries(FeedType::IP).fetch_some(a.id, 10, None, None, None);
    assert!(leftover.is_empty());

    assert_eq!(store.delete_feed(a.id), Err(StoreError::NotFound));
}

#[test]
fn expiry_boundary_is_inclusive() {
    let mut store = Store::new();
    let feed = store.insert_feed(feed_data("edge", FeedType::IP)).unwrap();
    store
        .insert_entry(feed.id, String::from("10.0.0.0/24"), None, Some(NOW))
        .unwrap();
    // An entry expiring exactly at `now` is still active.
    assert_eq!(serve_feed(&mut store, "edge", NOW).unwrap(), "10.0.0.0/24\n");
    // One instant later it is expired.
    assert_eq!(serve_feed(&mut store, "edge", NOW + 1).unwrap(), "");
}

#[test]
fn value_stream_walks_active_values_in_order() {
    let (store, feed_id) = blocklist_store();
    let entries = store.entries(FeedType::IP);
    let mut stream = entries.fetch_values(feed_id);
    let mut got: Vec<String> = Vec::new();
    while let Some(v) = stream.next(entries, NOW) {
        got.push(v);
    }
    assert_eq!(got, vec![String::from("10.0.0.0/24")]);
    // The stream is forward-only: once exhausted it stays exhausted.
    assert!(stream.next(entries, NOW).is_none());
}
