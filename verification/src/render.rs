use vstd::prelude::*;

use vstd::string::StringExecFns;

use md5::Digest;

use crate::entry::{
    active_entries, active_values, entries_wf, lookup_entry, next_entry_id, remove_entry,
    replace_entry, without_feed, Entry, EntryStore, EntryView, ValueStream,
};
use crate::errors::{client_outcome, ServeError, StoreError};
use crate::feed::{
    lemma_lookup_name_id, lemma_lookup_push, lemma_remove_feed_lookup,
    lemma_set_description_lookup, lemma_set_digest_lookup, lookup_by_id, lookup_by_name,
    next_feed_id, registry_wf, remove_feed, set_description, set_digest, Feed, FeedRegistry,
    FeedType, FeedView, InsertFeedData, UpdateFeedData,
};
use crate::value::{check_value, valid_value};

verus! {

/// The canonical plaintext body of a feed: each emitted value followed by
/// one line terminator, in stream order.
pub open spec fn body_of(vals: Seq<Seq<char>>) -> Seq<char>
    decreases vals.len(),
{
    if vals.len() == 0 {
        Seq::empty()
    } else {
        body_of(vals.drop_last()) + vals.last() + seq!['\n']
    }
}

/// One more emitted value appends one more line.
proof fn lemma_body_of_push(vals: Seq<Seq<char>>, v: Seq<char>)
    ensures
        body_of(vals.push(v)) == body_of(vals) + v + seq!['\n'],
{
    assert(vals.push(v).drop_last() =~= vals);
    assert(vals.push(v).last() == v);
}

/// Name for the 128-bit content digest the outside hash computes of a
/// body: a function of the body's characters alone.
pub uninterp spec fn md5_of(body: Seq<char>) -> Seq<u8>;

/// Relies on md5::Md5 through digest::Digest::digest: the MD5 digest of
/// the UTF-8 bytes of the body, always 16 bytes, a function of the input
/// alone.
#[verifier::external_body]
fn md5_digest(body: &str) -> (r: Vec<u8>)
    ensures
        r@ == md5_of(body@),
        r@.len() == 16,
{
    md5::Md5::digest(body.as_bytes()).to_vec()
}

/// Drains a freshly opened active-value stream into the canonical
/// plaintext body: one value per line, buffered wholly before anything is
/// handed out, so a consumer never sees a partial body.
pub fn into_string(store: &EntryStore, stream: ValueStream, now: i64) -> (r: String)
    requires
        stream.cursor == 0,
    ensures
        r@ == body_of(active_values(store@, stream.feed_id, now)),
{
    let mut st = stream;
    let mut joined = String::new();
    proof {
        assert(store@.take(0) =~= Seq::<EntryView>::empty());
        assert(active_entries(Seq::<EntryView>::empty(), stream.feed_id, now)
            == Seq::<EntryView>::empty());
        assert(active_values(store@.take(0), stream.feed_id, now) =~= Seq::<Seq<char>>::empty());
    }
    loop
        invariant
            st.cursor <= store@.len(),
            st.feed_id == stream.feed_id,
            joined@ == body_of(active_values(store@.take(st.cursor as int), stream.feed_id, now)),
        ensures
            st.cursor == store@.len(),
            joined@ == body_of(active_values(store@.take(st.cursor as int), stream.feed_id, now)),
        decreases store@.len() - st.cursor,
    {
        let ghost c0 = st.cursor;
        match st.next(store, now) {
            Some(v) => {
                proof {
                    lemma_body_of_push(
                        active_values(store@.take(c0 as int), stream.feed_id, now),
                        v@,
                    );
                    reveal_strlit("\n");
                    assert("\n"@ =~= seq!['\n']);
                }
                joined.append(v.as_str());
                joined.append("\n");
            },
            None => {
                break ;
            },
        }
    }
    proof {
        assert(store@.take(store@.len() as int) =~= store@);
    }
    joined
}

/// A feed of this kind may only hold entries whose owning feed exists in
/// the registry with the matching kind.
pub open spec fn has_feed_of_kind(feeds: Seq<FeedView>, id: i64, kind: FeedType) -> bool {
    match lookup_by_id(feeds, id) {
        Some(f) => f.feed_type == kind,
        None => false,
    }
}

/// Referential integrity of one entry collection against the registry.
pub open spec fn entries_owned(feeds: Seq<FeedView>, s: Seq<EntryView>, kind: FeedType) -> bool {
    forall|i: int| 0 <= i < s.len() ==> has_feed_of_kind(feeds, (#[trigger] s[i]).feed_id, kind)
}

/// Replacing a digest breaks no referential integrity.
proof fn lemma_owned_after_set_digest(
    feeds: Seq<FeedView>,
    s: Seq<EntryView>,
    kind: FeedType,
    fid: i64,
    d: Seq<u8>,
)
    requires
        entries_owned(feeds, s, kind),
    ensures
        entries_owned(set_digest(feeds, fid, d), s, kind),
{
    assert forall|i: int| 0 <= i < s.len() implies has_feed_of_kind(
        set_digest(feeds, fid, d),
        (#[trigger] s[i]).feed_id,
        kind,
    ) by {
        lemma_set_digest_lookup(feeds, fid, d, s[i].feed_id);
    }
}

/// Replacing a description breaks no referential integrity.
proof fn lemma_owned_after_set_description(
    feeds: Seq<FeedView>,
    s: Seq<EntryView>,
    kind: FeedType,
    fid: i64,
    d: Seq<char>,
)
    requires
        entries_owned(feeds, s, kind),
    ensures
        entries_owned(set_description(feeds, fid, d), s, kind),
{
    assert forall|i: int| 0 <= i < s.len() implies has_feed_of_kind(
        set_description(feeds, fid, d),
        (#[trigger] s[i]).feed_id,
        kind,
    ) by {
        lemma_set_description_lookup(feeds, fid, d, s[i].feed_id);
    }
}

/// Appending a feed breaks no referential integrity.
proof fn lemma_owned_after_push(feeds: Seq<FeedView>, s: Seq<EntryView>, kind: FeedType, f: FeedView)
    requires
        entries_owned(feeds, s, kind),
    ensures
        entries_owned(feeds.push(f), s, kind),
{
    assert forall|i: int| 0 <= i < s.len() implies has_feed_of_kind(
        feeds.push(f),
        (#[trigger] s[i]).feed_id,
        kind,
    ) by {
        lemma_lookup_push(feeds, f, s[i].feed_id);
    }
}

/// The whole persisted state: feed metadata and the three typed entry
/// collections, with the referential invariants between them.
pub struct Store {
    feeds: FeedRegistry,
    ip_entries: EntryStore,
    url_entries: EntryStore,
    domain_entries: EntryStore,
}

impl Store {
    /// The feed metadata collection.
    pub closed spec fn spec_feeds(&self) -> Seq<FeedView> {
        self.feeds@
    }

    /// The entry collection serving feeds of `kind`.
    pub closed spec fn spec_entries(&self, kind: FeedType) -> Seq<EntryView> {
        match kind {
            FeedType::IP => self.ip_entries@,
            FeedType::URL => self.url_entries@,
            FeedType::Domain => self.domain_entries@,
        }
    }

    /// Well-formedness of the whole store: well-formed collections, and
    /// every entry exclusively owned by an existing feed of its kind.
    pub open spec fn wf(&self) -> bool {
        &&& registry_wf(self.spec_feeds())
        &&& entries_wf(self.spec_entries(FeedType::IP))
        &&& entries_wf(self.spec_entries(FeedType::URL))
        &&& entries_wf(self.spec_entries(FeedType::Domain))
        &&& entries_owned(self.spec_feeds(), self.spec_entries(FeedType::IP), FeedType::IP)
        &&& entries_owned(self.spec_feeds(), self.spec_entries(FeedType::URL), FeedType::URL)
        &&& entries_owned(self.spec_feeds(), self.spec_entries(FeedType::Domain), FeedType::Domain)
    }

    /// An empty store.
    pub fn new() -> (r: Store)
        ensures
            r.wf(),
            r.spec_feeds() == Seq::<FeedView>::empty(),
            r.spec_entries(FeedType::IP) == Seq::<EntryView>::empty(),
            r.spec_entries(FeedType::URL) == Seq::<EntryView>::empty(),
            r.spec_entries(FeedType::Domain) == Seq::<EntryView>::empty(),
    {
        Store {
            feeds: FeedRegistry::new(),
            ip_entries: EntryStore::new(),
            url_entries: EntryStore::new(),
            domain_entries: EntryStore::new(),
        }
    }

    /// Read access to the feed metadata.
    pub fn registry(&self) -> (r: &FeedRegistry)
        ensures
            r@ == self.spec_feeds(),
    {
        &self.feeds
    }

    /// Read access to the entry collection serving `kind`.
    pub fn entries(&self, kind: FeedType) -> (r: &EntryStore)
        ensures
            r@ == self.spec_entries(kind),
    {
        match kind {
            FeedType::IP => &self.ip_entries,
            FeedType::URL => &self.url_entries,
            FeedType::Domain => &self.domain_entries,
        }
    }
}

impl Store {
    /// Creates a feed. Fails with `Conflict` when the name is taken, and
    /// with `Storage` when the id space is exhausted.
    pub fn insert_feed(&mut self, data: InsertFeedData) -> (r: Result<Feed, StoreError>)
        requires
            old(self).wf(),
        ensures
            final(self).wf(),
            forall|k: FeedType| #[trigger]
                final(self).spec_entries(k) == old(self).spec_entries(k),
            match r {
                Ok(f) => {
                    &&& lookup_by_name(old(self).spec_feeds(), data.name@) is None
                    &&& f@.id as int == next_feed_id(old(self).spec_feeds())
                    &&& f@.name == data.name@
                    &&& f@.description == (match data.description {
                        Some(d) => d@,
                        None => Seq::<char>::empty(),
                    })
                    &&& f@.feed_type == data.feed_type
                    &&& f@.digest == Seq::<u8>::empty()
                    &&& final(self).spec_feeds() == old(self).spec_feeds().push(f@)
                },
                Err(e) => final(self).spec_feeds() == old(self).spec_feeds() && ((e
                    == StoreError::Conflict && lookup_by_name(
                    old(self).spec_feeds(),
                    data.name@,
                ) is Some) || (e == StoreError::Storage && lookup_by_name(
                    old(self).spec_feeds(),
                    data.name@,
                ) is None && next_feed_id(old(self).spec_feeds()) > i64::MAX)),
            },
    {
        let r = Feed::insert(&mut self.feeds, data);
        proof {
            if r is Ok {
                let f = r->Ok_0;
                lemma_owned_after_push(
                    old(self).spec_feeds(),
                    self.spec_entries(FeedType::IP),
                    FeedType::IP,
                    f@,
                );
                lemma_owned_after_push(
                    old(self).spec_feeds(),
                    self.spec_entries(FeedType::URL),
                    FeedType::URL,
                    f@,
                );
                lemma_owned_after_push(
                    old(self).spec_feeds(),
                    self.spec_entries(FeedType::Domain),
                    FeedType::Domain,
                    f@,
                );
            }
        }
        r
    }

    /// Creates an entry under the feed keyed `feed_id`, in the collection
    /// of that feed's kind, and clears the feed's cached digest so the
    /// next render recomputes it. Fails with `Storage` when the referenced
    /// feed is missing or the id space is exhausted, and with `Validation`
    /// when the value is malformed for the feed's kind.
    pub fn insert_entry(
        &mut self,
        feed_id: i64,
        value: String,
        description: Option<String>,
        valid_until: Option<i64>,
    ) -> (r: Result<Entry, StoreError>)
        requires
            old(self).wf(),
        ensures
            final(self).wf(),
            match r {
                Ok(e) => match lookup_by_id(old(self).spec_feeds(), feed_id) {
                    Some(f) => {
                        &&& valid_value(f.feed_type, value@)
                        &&& e@.id as int == next_entry_id(old(self).spec_entries(f.feed_type))
                        &&& e@.value == value@
                        &&& e@.enabled == true
                        &&& e@.description == (match description {
                            Some(d) => d@,
                            None => Seq::<char>::empty(),
                        })
                        &&& e@.valid_until == valid_until
                        &&& e@.feed_id == feed_id
                        &&& final(self).spec_entries(f.feed_type) == old(self).spec_entries(
                            f.feed_type,
                        ).push(e@)
                        &&& forall|k: FeedType|
                            k != f.feed_type ==> #[trigger] final(self).spec_entries(k) == old(
                                self,
                            ).spec_entries(k)
                        &&& final(self).spec_feeds() == set_digest(
                            old(self).spec_feeds(),
                            feed_id,
                            Seq::<u8>::empty(),
                        )
                    },
                    None => false,
                },
                Err(err) => {
                    &&& final(self).spec_feeds() == old(self).spec_feeds()
                    &&& forall|k: FeedType| #[trigger]
                        final(self).spec_entries(k) == old(self).spec_entries(k)
                    &&& match lookup_by_id(old(self).spec_feeds(), feed_id) {
                        None => err == StoreError::Storage,
                        Some(f) => (err == StoreError::Validation && !valid_value(
                            f.feed_type,
                            value@,
                        )) || (err == StoreError::Storage && valid_value(f.feed_type, value@)
                            && next_entry_id(old(self).spec_entries(f.feed_type)) > i64::MAX),
                    }
                },
            },
    {
        let feed = match Feed::get_by_id(&self.feeds, feed_id) {
            Ok(f) => f,
            Err(_) => {
                return Err(StoreError::Storage);
            },
        };
        if !check_value(feed.feed_type, value.as_str()) {
            return Err(StoreError::Validation);
        }
        let res = match feed.feed_type {
            FeedType::IP => self.ip_entries.insert(feed_id, value, description, valid_until),
            FeedType::URL => self.url_entries.insert(feed_id, value, description, valid_until),
            FeedType::Domain => self.domain_entries.insert(feed_id, value, description, valid_until),
        };
        let e = match res {
            Ok(e) => e,
            Err(err) => {
                return Err(err);
            },
        };
        let inv = self.feeds.invalidate_digest(feed_id);
        proof {
            assert(inv is Ok);
            let kind = feed@.feed_type;
            let pushed = old(self).spec_entries(kind).push(e@);
            assert(entries_owned(old(self).spec_feeds(), pushed, kind)) by {
                assert forall|i: int| 0 <= i < pushed.len() implies has_feed_of_kind(
                    old(self).spec_feeds(),
                    (#[trigger] pushed[i]).feed_id,
                    kind,
                ) by {
                    if i < old(self).spec_entries(kind).len() {
                        assert(pushed[i] == old(self).spec_entries(kind)[i]);
                    } else {
                        assert(pushed[i] == e@);
                    }
                }
            }
            lemma_owned_after_set_digest(
                old(self).spec_feeds(),
                self.spec_entries(FeedType::IP),
                FeedType::IP,
                feed_id,
                Seq::<u8>::empty(),
            );
            lemma_owned_after_set_digest(
                old(self).spec_feeds(),
                self.spec_entries(FeedType::URL),
                FeedType::URL,
                feed_id,
                Seq::<u8>::empty(),
            );
            lemma_owned_after_set_digest(
                old(self).spec_feeds(),
                self.spec_entries(FeedType::Domain),
                FeedType::Domain,
                feed_id,
                Seq::<u8>::empty(),
            );
        }
        Ok(e)
    }

    /// Full replace of the mutable fields of the entry keyed `entry.id`
    /// under the feed keyed `entry.feed_id`, clearing that feed's cached
    /// digest. Fails with `NotFound` when the feed is missing, the entry
    /// is missing, or the entry is not owned by that feed.
    pub fn update_entry(&mut self, entry: &Entry) -> (r: Result<(), StoreError>)
        requires
            old(self).wf(),
        ensures
            final(self).wf(),
            match r {
                Ok(_) => match lookup_by_id(old(self).spec_feeds(), entry.feed_id) {
                    Some(f) => {
                        &&& lookup_entry(old(self).spec_entries(f.feed_type), entry.id) matches Some(st)
                            && st.feed_id == entry.feed_id
                        &&& final(self).spec_entries(f.feed_type) == replace_entry(
                            old(self).spec_entries(f.feed_type),
                            entry@,
                        )
                        &&& forall|k: FeedType|
                            k != f.feed_type ==> #[trigger] final(self).spec_entries(k) == old(
                                self,
                            ).spec_entries(k)
                        &&& final(self).spec_feeds() == set_digest(
                            old(self).spec_feeds(),
                            entry.feed_id,
                            Seq::<u8>::empty(),
                        )
                    },
                    None => false,
                },
                Err(err) => {
                    &&& err == StoreError::NotFound
                    &&& final(self).spec_feeds() == old(self).spec_feeds()
                    &&& forall|k: FeedType| #[trigger]
                        final(self).spec_entries(k) == old(self).spec_entries(k)
                    &&& (lookup_by_id(old(self).spec_feeds(), entry.feed_id) is None
                        || (lookup_by_id(old(self).spec_feeds(), entry.feed_id) matches Some(f)
                        && (lookup_entry(old(self).spec_entries(f.feed_type), entry.id) is None
                        || (lookup_entry(old(self).spec_entries(f.feed_type), entry.id) matches Some(st)
                        && st.feed_id != entry.feed_id))))
                },
            },
    {
        let feed = match Feed::get_by_id(&self.feeds, entry.feed_id) {
            Ok(f) => f,
            Err(_) => {
                return Err(StoreError::NotFound);
            },
        };
        let got = match feed.feed_type {
            FeedType::IP => self.ip_entries.get(entry.id),
            FeedType::URL => self.url_entries.get(entry.id),
            FeedType::Domain => self.domain_entries.get(entry.id),
        };
        let stored = match got {
            Ok(e) => e,
            Err(_) => {
                return Err(StoreError::NotFound);
            },
        };
        if stored.feed_id != entry.feed_id {
            return Err(StoreError::NotFound);
        }
        let res = match feed.feed_type {
            FeedType::IP => self.ip_entries.update(entry),
            FeedType::URL => self.url_entries.update(entry),
            FeedType::Domain => self.domain_entries.update(entry),
        };
        proof {
            assert(res is Ok);
        }
        let inv = self.feeds.invalidate_digest(entry.feed_id);
        proof {
            assert(inv is Ok);
            let kind = feed@.feed_type;
            assert(entries_owned(old(self).spec_feeds(), self.spec_entries(kind), kind)) by {
                assert forall|i: int| 0 <= i < self.spec_entries(kind).len() implies has_feed_of_kind(
                    old(self).spec_feeds(),
                    (#[trigger] self.spec_entries(kind)[i]).feed_id,
                    kind,
                ) by {
                    assert(self.spec_entries(kind)[i].feed_id == old(self).spec_entries(
                        kind,
                    )[i].feed_id);
                }
            }
            lemma_owned_after_set_digest(
                old(self).spec_feeds(),
                self.spec_entries(FeedType::IP),
                FeedType::IP,
                entry.feed_id,
                Seq::<u8>::empty(),
            );
            lemma_owned_after_set_digest(
                old(self).spec_feeds(),
                self.spec_entries(FeedType::URL),
                FeedType::URL,
                entry.feed_id,
                Seq::<u8>::empty(),
            );
            lemma_owned_after_set_digest(
                old(self).spec_feeds(),
                self.spec_entries(FeedType::Domain),
                FeedType::Domain,
                entry.feed_id,
                Seq::<u8>::empty(),
            );
        }
        Ok(())
    }

    /// Deletes the entry keyed `entry_id` under the feed keyed `feed_id`,
    /// clearing that feed's cached digest. Fails with `NotFound` when the
    /// feed is missing, the entry is missing, or the entry is not owned by
    /// that feed.
    pub fn delete_entry(&mut self, feed_id: i64, entry_id: i64) -> (r: Result<(), StoreError>)
        requires
            old(self).wf(),
        ensures
            final(self).wf(),
            match r {
                Ok(_) => match lookup_by_id(old(self).spec_feeds(), feed_id) {
                    Some(f) => {
                        &&& lookup_entry(old(self).spec_entries(f.feed_type), entry_id) matches Some(st)
                            && st.feed_id == feed_id
                        &&& final(self).spec_entries(f.feed_type) == remove_entry(
                            old(self).spec_entries(f.feed_type),
                            entry_id,
                        )
                        &&& forall|k: FeedType|
                            k != f.feed_type ==> #[trigger] final(self).spec_entries(k) == old(
                                self,
                            ).spec_entries(k)
                        &&& final(self).spec_feeds() == set_digest(
                            old(self).spec_feeds(),
                            feed_id,
                            Seq::<u8>::empty(),
                        )
                    },
                    None => false,
                },
                Err(err) => {
                    &&& err == StoreError::NotFound
                    &&& final(self).spec_feeds() == old(self).spec_feeds()
                    &&& forall|k: FeedType| #[trigger]
                        final(self).spec_entries(k) == old(self).spec_entries(k)
                    &&& (lookup_by_id(old(self).spec_feeds(), feed_id) is None || (lookup_by_id(
                        old(self).spec_feeds(),
                        feed_id,
                    ) matches Some(f) && (lookup_entry(
                        old(self).spec_entries(f.feed_type),
                        entry_id,
                    ) is None || (lookup_entry(old(self).spec_entries(f.feed_type), entry_id)
                        matches Some(st) && st.feed_id != feed_id))))
                },
            },
    {
        let feed = match Feed::get_by_id(&self.feeds, feed_id) {
            Ok(f) => f,
            Err(_) => {
                return Err(StoreError::NotFound);
            },
        };
        let got = match feed.feed_type {
            FeedType::IP => self.ip_entries.get(entry_id),
            FeedType::URL => self.url_entries.get(entry_id),
            FeedType::Domain => self.domain_entries.get(entry_id),
        };
        let stored = match got {
            Ok(e) => e,
            Err(_) => {
                return Err(StoreError::NotFound);
            },
        };
        if stored.feed_id != feed_id {
            return Err(StoreError::NotFound);
        }
        let res = match feed.feed_type {
            FeedType::IP => self.ip_entries.delete(entry_id),
            FeedType::URL => self.url_entries.delete(entry_id),
            FeedType::Domain => self.domain_entries.delete(entry_id),
        };
        proof {
            assert(res is Ok);
        }
        let inv = self.feeds.invalidate_digest(feed_id);
        proof {
            assert(inv is Ok);
            let kind = feed@.feed_type;
            assert(entries_owned(old(self).spec_feeds(), self.spec_entries(kind), kind)) by {
                assert forall|i: int| 0 <= i < self.spec_entries(kind).len() implies has_feed_of_kind(
                    old(self).spec_feeds(),
                    (#[trigger] self.spec_entries(kind)[i]).feed_id,
                    kind,
                ) by {
                    assert(old(self).spec_entries(kind).contains(self.spec_entries(kind)[i]));
                    let j = choose|j: int|
                        0 <= j < old(self).spec_entries(kind).len() && old(self).spec_entries(
                            kind,
                        )[j] == self.spec_entries(kind)[i];
                    assert(has_feed_of_kind(
                        old(self).spec_feeds(),
                        old(self).spec_entries(kind)[j].feed_id,
                        kind,
                    ));
                }
            }
            lemma_owned_after_set_digest(
                old(self).spec_feeds(),
                self.spec_entries(FeedType::IP),
                FeedType::IP,
                feed_id,
                Seq::<u8>::empty(),
            );
            lemma_owned_after_set_digest(
                old(self).spec_feeds(),
                self.spec_entries(FeedType::URL),
                FeedType::URL,
                feed_id,
                Seq::<u8>::empty(),
            );
            lemma_owned_after_set_digest(
                old(self).spec_feeds(),
                self.spec_entries(FeedType::Domain),
                FeedType::Domain,
                feed_id,
                Seq::<u8>::empty(),
            );
        }
        Ok(())
    }

    /// Administrative feed mutation: replaces the description when one is
    /// supplied. Fails with `NotFound` when the id is absent.
    pub fn update_feed(&mut self, id: i64, data: UpdateFeedData) -> (r: Result<(), StoreError>)
        requires
            old(self).wf(),
        ensures
            final(self).wf(),
            forall|k: FeedType| #[trigger]
                final(self).spec_entries(k) == old(self).spec_entries(k),
            match r {
                Ok(_) => {
                    &&& lookup_by_id(old(self).spec_feeds(), id) is Some
                    &&& final(self).spec_feeds() == (match data.description {
                        Some(d) => set_description(old(self).spec_feeds(), id, d@),
                        None => old(self).spec_feeds(),
                    })
                },
                Err(e) => {
                    &&& e == StoreError::NotFound
                    &&& lookup_by_id(old(self).spec_feeds(), id) is None
                    &&& final(self).spec_feeds() == old(self).spec_feeds()
                },
            },
    {
        let ghost descr = data.description;
        let r = Feed::update(&mut self.feeds, id, data);
        proof {
            if r is Ok {
                if let Some(d) = descr {
                    lemma_owned_after_set_description(
                        old(self).spec_feeds(),
                        self.spec_entries(FeedType::IP),
                        FeedType::IP,
                        id,
                        d@,
                    );
                    lemma_owned_after_set_description(
                        old(self).spec_feeds(),
                        self.spec_entries(FeedType::URL),
                        FeedType::URL,
                        id,
                        d@,
                    );
                    lemma_owned_after_set_description(
                        old(self).spec_feeds(),
                        self.spec_entries(FeedType::Domain),
                        FeedType::Domain,
                        id,
                        d@,
                    );
                }
            }
        }
        r
    }

    /// Deletes the feed keyed `feed_id` and, cascading, every entry it
    /// owns. Fails with `NotFound` when the id is absent.
    pub fn delete_feed(&mut self, feed_id: i64) -> (r: Result<(), StoreError>)
        requires
            old(self).wf(),
        ensures
            final(self).wf(),
            match r {
                Ok(_) => match lookup_by_id(old(self).spec_feeds(), feed_id) {
                    Some(f) => {
                        &&& final(self).spec_feeds() == remove_feed(old(self).spec_feeds(), feed_id)
                        &&& final(self).spec_entries(f.feed_type) == without_feed(
                            old(self).spec_entries(f.feed_type),
                            feed_id,
                        )
                        &&& forall|k: FeedType|
                            k != f.feed_type ==> #[trigger] final(self).spec_entries(k) == old(
                                self,
                            ).spec_entries(k)
                    },
                    None => false,
                },
                Err(e) => {
                    &&& e == StoreError::NotFound
                    &&& lookup_by_id(old(self).spec_feeds(), feed_id) is None
                    &&& final(self).spec_feeds() == old(self).spec_feeds()
                    &&& forall|k: FeedType| #[trigger]
                        final(self).spec_entries(k) == old(self).spec_entries(k)
                },
            },
    {
        let feed = match Feed::get_by_id(&self.feeds, feed_id) {
            Ok(f) => f,
            Err(e) => {
                return Err(e);
            },
        };
        let removed = self.feeds.remove(feed_id);
        proof {
            assert(removed is Ok);
        }
        match feed.feed_type {
            FeedType::IP => self.ip_entries.purge(feed_id),
            FeedType::URL => self.url_entries.purge(feed_id),
            FeedType::Domain => self.domain_entries.purge(feed_id),
        }
        proof {
            let s0 = old(self).spec_feeds();
            let kind = feed@.feed_type;
            assert forall|k: FeedType| true implies entries_owned(
                self.spec_feeds(),
                #[trigger] self.spec_entries(k),
                k,
            ) by {
                assert forall|i: int| 0 <= i < self.spec_entries(k).len() implies has_feed_of_kind(
                    self.spec_feeds(),
                    (#[trigger] self.spec_entries(k)[i]).feed_id,
                    k,
                ) by {
                    let x = self.spec_entries(k)[i];
                    if k == kind {
                        assert(old(self).spec_entries(k).contains(x));
                        let j = choose|j: int|
                            0 <= j < old(self).spec_entries(k).len() && old(self).spec_entries(
                                k,
                            )[j] == x;
                        assert(has_feed_of_kind(s0, old(self).spec_entries(k)[j].feed_id, k));
                        assert(x.feed_id != feed_id);
                        lemma_remove_feed_lookup(s0, feed_id, x.feed_id);
                    } else {
                        assert(self.spec_entries(k) == old(self).spec_entries(k));
                        assert(has_feed_of_kind(s0, x.feed_id, k));
                        assert(x.feed_id != feed_id) by {
                            if x.feed_id == feed_id {
                                assert(lookup_by_id(s0, feed_id) == Some(feed@));
                            }
                        }
                        lemma_remove_feed_lookup(s0, feed_id, x.feed_id);
                    }
                }
            }
        }
        Ok(())
    }
}

/// Serves one feed: resolves it by name, streams the active values of the
/// matching entry collection into the plaintext body, and memoizes the
/// body's digest — computed and persisted only when the cached digest is
/// empty, left untouched otherwise. A missing feed is the client-visible
/// `NotFound`; no other detail ever reaches the client.
pub fn serve_feed(store: &mut Store, name: &str, now: i64) -> (r: Result<String, ServeError>)
    requires
        old(store).wf(),
    ensures
        final(store).wf(),
        final(store).spec_entries(FeedType::IP) == old(store).spec_entries(FeedType::IP),
        final(store).spec_entries(FeedType::URL) == old(store).spec_entries(FeedType::URL),
        final(store).spec_entries(FeedType::Domain) == old(store).spec_entries(FeedType::Domain),
        match lookup_by_name(old(store).spec_feeds(), name@) {
            None => r == Err::<String, ServeError>(ServeError::NotFound)
                && final(store).spec_feeds() == old(store).spec_feeds(),
            Some(f) => {
                let body = body_of(active_values(old(store).spec_entries(f.feed_type), f.id, now));
                &&& (r matches Ok(b) && b@ == body)
                &&& (f.digest.len() == 0 ==> final(store).spec_feeds() == set_digest(
                    old(store).spec_feeds(),
                    f.id,
                    md5_of(body),
                ) && md5_of(body).len() == 16)
                &&& (f.digest.len() != 0 ==> final(store).spec_feeds() == old(store).spec_feeds())
            },
        },
{
    let feed = match Feed::get(&store.feeds, name) {
        Ok(f) => f,
        Err(e) => {
            return Err(client_outcome(e));
        },
    };
    let es = match feed.feed_type {
        FeedType::IP => &store.ip_entries,
        FeedType::URL => &store.url_entries,
        FeedType::Domain => &store.domain_entries,
    };
    let stream = es.fetch_values(feed.id);
    let body = into_string(es, stream, now);
    if feed.digest.len() == 0 {
        let digest = md5_digest(body.as_str());
        let refreshed = Feed {
            id: feed.id,
            name: feed.name,
            description: feed.description,
            feed_type: feed.feed_type,
            digest,
        };
        // Fire-and-forget persistence: the client already has a correct
        // body, so a persistence failure is never surfaced.
        let persisted = refreshed.update_digest(&mut store.feeds);
        proof {
            lemma_lookup_name_id(old(store).spec_feeds(), name@);
            assert(persisted is Ok);
            lemma_owned_after_set_digest(
                old(store).spec_feeds(),
                old(store).spec_entries(FeedType::IP),
                FeedType::IP,
                feed@.id,
                refreshed@.digest,
            );
            lemma_owned_after_set_digest(
                old(store).spec_feeds(),
                old(store).spec_entries(FeedType::URL),
                FeedType::URL,
                feed@.id,
                refreshed@.digest,
            );
            lemma_owned_after_set_digest(
                old(store).spec_feeds(),
                old(store).spec_entries(FeedType::Domain),
                FeedType::Domain,
                feed@.id,
                refreshed@.digest,
            );
        }
        Ok(body)
    } else {
        Ok(body)
    }
}

/// Law: rendering is deterministic in the active-entry set. Two entry
/// collections that agree on the active entries of a feed yield
/// byte-identical bodies and identical digests.
pub proof fn lemma_render_deterministic(
    e1: Seq<EntryView>,
    e2: Seq<EntryView>,
    feed_id: i64,
    now: i64,
)
    requires
        active_entries(e1, feed_id, now) == active_entries(e2, feed_id, now),
    ensures
        body_of(active_values(e1, feed_id, now)) == body_of(active_values(e2, feed_id, now)),
        md5_of(body_of(active_values(e1, feed_id, now))) == md5_of(
            body_of(active_values(e2, feed_id, now)),
        ),
{
}

} // verus!
