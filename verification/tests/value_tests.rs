use feed_rs::errors::StoreError;
use feed_rs::feed::{Feed, FeedType, InsertFeedData};
use feed_rs::render::{serve_feed, Store};

const NOW: i64 = 1_000_000;

fn store_with(name: &str, feed_type: FeedType) -> (Store, i64) {
    let mut store = Store::new();
    let feed = store
        .insert_feed(InsertFeedData { name: String::from(name), feed_type, description: None })
        .unwrap();
    (store, feed.id)
}

#[test]
fn ip_values_must_be_canonical_networks() {
    let (mut store, feed_id) = store_with("nets", FeedType::IP);
    for good in ["10.0.0.0/24", "0.0.0.0/0", "255.255.255.255", "192.0.2.1", "10.0.0.1/32"] {
        store
            .insert_entry(feed_id, String::from(good), None, None)
            .unwrap();
    }
    for bad in [
        "example.test",
        "10.0.0.0/33",
        "01.2.3.4",
        "1.2.3",
        "1.2.3.4.5",
        "256.0.0.1",
        "10.0.0.0/",
        "10.0.0.0/08",
        "10.0.0.0 /24",
        "",
    ] {
        let r = store.insert_entry(feed_id, String::from(bad), None, None);
        assert_eq!(r.unwrap_err(), StoreError::Validation);
    }
}

#[test]
fn ipv6_networks_are_accepted() {
    let (mut store, feed_id) = store_with("nets6", FeedType::IP);
    for good in [
        "2001:db8::/32",
        "::1",
        "::",
        "1:2:3:4:5:6:7:8",
        "0:0:0:0:0:0:0:0",
        "1:2:3:4:5:6:7::",
        "64:ff9b::10.0.0.1/96",
        "::ffff:255.255.255.255",
        "fe80::1/128",
    ] {
        store
            .insert_entry(feed_id, String::from(good), None, None)
            .unwrap();
    }
    for bad in [
        "1::2::3",
        "12345::",
        "1:2:3:4:5:6:7:8:9",
        "1:2:3:4:5:6:7",
        ":::",
        "1:2:3:4:5:6:7:8::",
        "2001:db8::g",
        "2001:db8::/129",
        "2001:db8::/032",
        "2001:db8::/",
    ] {
        let r = store.insert_entry(feed_id, String::from(bad), None, None);
        assert_eq!(r.unwrap_err(), StoreError::Validation);
    }
}

#[test]
fn ipv6_entries_render_like_any_other() {
    let (mut store, feed_id) = store_with("mixed-nets", FeedType::IP);
    store
        .insert_entry(feed_id, String::from("10.0.0.0/24"), None, None)
        .unwrap();
    store
        .insert_entry(feed_id, String::from("2001:db8::/32"), None, None)
        .unwrap();
    assert_eq!(
        serve_feed(&mut store, "mixed-nets", NOW).unwrap(),
        "10.0.0.0/24\n2001:db8::/32\n"
    );
}

#[test]
fn url_and_domain_values_are_nonempty_single_lines() {
    let (mut store, url_id) = store_with("urls", FeedType::URL);
    store
        .insert_entry(url_id, String::from("https://example.test/x"), None, None)
        .unwrap();
    assert_eq!(
        store.insert_entry(url_id, String::new(), None, None).unwrap_err(),
        StoreError::Validation
    );

    let (mut store, dom_id) = store_with("doms", FeedType::Domain);
    store
        .insert_entry(dom_id, String::from("example.test"), None, None)
        .unwrap();
    assert_eq!(
        store.insert_entry(dom_id, String::from("a.test\nb.test"), None, None).unwrap_err(),
        StoreError::Validation
    );
}

#[test]
fn validation_failure_leaves_the_store_untouched() {
    let (mut store, feed_id) = store_with("stable", FeedType::IP);
    store
        .insert_entry(feed_id, String::from("10.0.0.0/24"), None, None)
        .unwrap();
    let body = serve_feed(&mut store, "stable", NOW).unwrap();
    let digest = Feed::get(store.registry(), "stable").unwrap().digest;

    let r = store.insert_entry(feed_id, String::from("not-a-network"), None, None);
    assert_eq!(r.unwrap_err(), StoreError::Validation);

    // The rejected value created no row and did not clear the digest.
    assert_eq!(Feed::get(store.registry(), "stable").unwrap().digest, digest);
    assert_eq!(serve_feed(&mut store, "stable", NOW).unwrap(), body);
}
