use vstd::prelude::*;

use crate::errors::StoreError;

verus! {

/// The three entry kinds a feed can carry. Fixed at creation; it selects
/// which entry collection serves the feed.
#[derive(Clone, Copy, Debug, PartialEq, Eq, Structural)]
pub enum FeedType {
    IP,
    URL,
    Domain,
}

/// A named, typed collection of entries rendered as one plaintext document.
#[derive(Debug)]
pub struct Feed {
    /// Surrogate key, assigned by the registry on insert.
    pub id: i64,
    /// Unique human-facing lookup key.
    pub name: String,
    pub description: String,
    pub feed_type: FeedType,
    /// Cached hash of the last rendered body; empty means "not yet computed".
    pub digest: Vec<u8>,
}

/// Mathematical image of a [`Feed`].
#[verifier::ext_equal]
pub ghost struct FeedView {
    pub id: i64,
    pub name: Seq<char>,
    pub description: Seq<char>,
    pub feed_type: FeedType,
    pub digest: Seq<u8>,
}

impl View for Feed {
    type V = FeedView;

    open spec fn view(&self) -> FeedView {
        FeedView {
            id: self.id,
            name: self.name@,
            description: self.description@,
            feed_type: self.feed_type,
            digest: self.digest@,
        }
    }
}

impl DeepView for Feed {
    type V = FeedView;

    open spec fn deep_view(&self) -> FeedView {
        self.view()
    }
}

impl Clone for Feed {
    fn clone(&self) -> (r: Self)
        ensures
            r@ == self@,
    {
        Feed {
            id: self.id,
            name: self.name.clone(),
            description: self.description.clone(),
            feed_type: self.feed_type,
            digest: clone_bytes(&self.digest),
        }
    }
}

/// Byte-for-byte copy of a digest.
pub fn clone_bytes(v: &Vec<u8>) -> (r: Vec<u8>)
    ensures
        r@ == v@,
{
    let mut r: Vec<u8> = Vec::new();
    let mut i: usize = 0;
    while i < v.len()
        invariant
            i <= v.len(),
            r@ == v@.take(i as int),
        decreases v.len() - i,
    {
        r.push(v[i]);
        i = i + 1;
        proof {
            assert(r@ =~= v@.take(i as int));
        }
    }
    proof {
        assert(v@.take(v@.len() as int) =~= v@);
    }
    r
}

/// Request payload for creating a feed.
pub struct InsertFeedData {
    pub name: String,
    pub feed_type: FeedType,
    pub description: Option<String>,
}

/// Request payload for administrative feed mutation.
pub struct UpdateFeedData {
    pub description: Option<String>,
}

/// An administrative pagination window: page position and page size.
#[derive(Clone, Copy, Debug, PartialEq, Eq, Structural)]
pub struct Window {
    pub pos: i32,
    pub size: i32,
}

/// Feed surrogate keys are positive and strictly increase in storage order,
/// so storage order is id order and ids are unique.
pub open spec fn feed_ids_increasing(s: Seq<FeedView>) -> bool {
    &&& forall|i: int, j: int| 0 <= i < j < s.len() ==> s[i].id < s[j].id
    &&& forall|i: int| 0 <= i < s.len() ==> (#[trigger] s[i].id) >= 1
}

/// Feed names are unique: the name is the human-facing lookup key.
pub open spec fn feed_names_unique(s: Seq<FeedView>) -> bool {
    forall|i: int, j: int| 0 <= i < j < s.len() ==> s[i].name != s[j].name
}

/// Well-formedness of the feed metadata collection.
pub open spec fn registry_wf(s: Seq<FeedView>) -> bool {
    feed_ids_increasing(s) && feed_names_unique(s)
}

/// First feed whose name equals `name`, in storage order.
pub open spec fn lookup_by_name(s: Seq<FeedView>, name: Seq<char>) -> Option<FeedView>
    decreases s.len(),
{
    if s.len() == 0 {
        None
    } else if s[0].name == name {
        Some(s[0])
    } else {
        lookup_by_name(s.drop_first(), name)
    }
}

/// First feed whose id equals `id`, in storage order.
pub open spec fn lookup_by_id(s: Seq<FeedView>, id: i64) -> Option<FeedView>
    decreases s.len(),
{
    if s.len() == 0 {
        None
    } else if s[0].id == id {
        Some(s[0])
    } else {
        lookup_by_id(s.drop_first(), id)
    }
}

/// The collection with the digest of the feed keyed `id` replaced by
/// `digest` (first occurrence; under `registry_wf` ids are unique).
pub open spec fn set_digest(s: Seq<FeedView>, id: i64, digest: Seq<u8>) -> Seq<FeedView>
    decreases s.len(),
{
    if s.len() == 0 {
        s
    } else if s[0].id == id {
        seq![FeedView { digest, ..s[0] }] + s.drop_first()
    } else {
        seq![s[0]] + set_digest(s.drop_first(), id, digest)
    }
}

/// The id the registry will assign to the next inserted feed.
pub open spec fn next_feed_id(s: Seq<FeedView>) -> int {
    if s.len() == 0 {
        1
    } else {
        s.last().id + 1
    }
}

/// Page `pos` of size `size` of the whole collection, in storage order.
pub open spec fn feed_page(s: Seq<FeedView>, pos: int, size: int) -> Seq<FeedView> {
    let start = if pos * size <= s.len() {
        pos * size
    } else {
        s.len() as int
    };
    let end = if start + size <= s.len() {
        start + size
    } else {
        s.len() as int
    };
    s.subrange(start, end)
}

/// The description of the feed keyed `id` replaced by `descr` (first
/// occurrence; under `registry_wf` ids are unique).
pub open spec fn set_description(s: Seq<FeedView>, id: i64, descr: Seq<char>) -> Seq<FeedView>
    decreases s.len(),
{
    if s.len() == 0 {
        s
    } else if s[0].id == id {
        seq![FeedView { description: descr, ..s[0] }] + s.drop_first()
    } else {
        seq![s[0]] + set_description(s.drop_first(), id, descr)
    }
}

/// The collection without the feed keyed `id` (first occurrence; under
/// `registry_wf` ids are unique).
pub open spec fn remove_feed(s: Seq<FeedView>, id: i64) -> Seq<FeedView>
    decreases s.len(),
{
    if s.len() == 0 {
        s
    } else if s[0].id == id {
        s.drop_first()
    } else {
        seq![s[0]] + remove_feed(s.drop_first(), id)
    }
}

/// A name lookup that succeeds finds an element of the collection.
proof fn lemma_lookup_name_mem(s: Seq<FeedView>, name: Seq<char>)
    ensures
        match lookup_by_name(s, name) {
            Some(f) => exists|i: int| 0 <= i < s.len() && s[i] == f,
            None => true,
        },
    decreases s.len(),
{
    if s.len() > 0 && s[0].name != name {
        lemma_lookup_name_mem(s.drop_first(), name);
        if let Some(f) = lookup_by_name(s.drop_first(), name) {
            let i = choose|i: int| 0 <= i < s.drop_first().len() && s.drop_first()[i] == f;
            assert(s[i + 1] == f);
        }
    }
}

/// Under unique ids, looking a feed up by name and then by its id returns
/// the same feed.
pub proof fn lemma_lookup_name_id(s: Seq<FeedView>, name: Seq<char>)
    requires
        feed_ids_increasing(s),
    ensures
        match lookup_by_name(s, name) {
            Some(f) => lookup_by_id(s, f.id) == Some(f),
            None => true,
        },
    decreases s.len(),
{
    if s.len() > 0 && s[0].name != name {
        let rest = s.drop_first();
        assert(feed_ids_increasing(rest)) by {
            assert forall|i: int, j: int| 0 <= i < j < rest.len() implies rest[i].id
                < rest[j].id by {
                assert(rest[i] == s[i + 1] && rest[j] == s[j + 1]);
            }
            assert forall|i: int| 0 <= i < rest.len() implies (#[trigger] rest[i].id) >= 1 by {
                assert(rest[i] == s[i + 1]);
            }
        }
        lemma_lookup_name_id(rest, name);
        if let Some(f) = lookup_by_name(rest, name) {
            lemma_lookup_name_mem(rest, name);
            let i = choose|i: int| 0 <= i < rest.len() && rest[i] == f;
            assert(rest[i] == s[i + 1]);
            assert(s[0].id < s[i + 1].id);
        }
    }
}

/// Replacing the digest at the first (under `registry_wf`: the only) index
/// holding `id` is a pointwise update.
proof fn lemma_set_digest_at(s: Seq<FeedView>, id: i64, digest: Seq<u8>, i: int)
    requires
        0 <= i < s.len(),
        s[i].id == id,
        forall|k: int| 0 <= k < i ==> s[k].id != id,
    ensures
        set_digest(s, id, digest) == s.update(i, FeedView { digest, ..s[i] }),
    decreases i,
{
    if i == 0 {
        assert(seq![FeedView { digest, ..s[0] }] + s.drop_first() =~= s.update(
            0,
            FeedView { digest, ..s[0] },
        ));
    } else {
        let rest = s.drop_first();
        assert(forall|k: int| 0 <= k < i - 1 ==> rest[k].id != id);
        lemma_set_digest_at(rest, id, digest, i - 1);
        assert(seq![s[0]] + rest.update(i - 1, FeedView { digest, ..rest[i - 1] }) =~= s.update(
            i,
            FeedView { digest, ..s[i] },
        ));
    }
}

/// Replacing the description at the first index holding `id` is a pointwise
/// update.
proof fn lemma_set_description_at(s: Seq<FeedView>, id: i64, descr: Seq<char>, i: int)
    requires
        0 <= i < s.len(),
        s[i].id == id,
        forall|k: int| 0 <= k < i ==> s[k].id != id,
    ensures
        set_description(s, id, descr) == s.update(i, FeedView { description: descr, ..s[i] }),
    decreases i,
{
    if i == 0 {
        assert(seq![FeedView { description: descr, ..s[0] }] + s.drop_first() =~= s.update(
            0,
            FeedView { description: descr, ..s[0] },
        ));
    } else {
        let rest = s.drop_first();
        assert(forall|k: int| 0 <= k < i - 1 ==> rest[k].id != id);
        lemma_set_description_at(rest, id, descr, i - 1);
        assert(seq![s[0]] + rest.update(i - 1, FeedView { description: descr, ..rest[i - 1] })
            =~= s.update(i, FeedView { description: descr, ..s[i] }));
    }
}

/// Removing the feed at the first index holding `id` deletes exactly that
/// position.
proof fn lemma_remove_feed_at(s: Seq<FeedView>, id: i64, i: int)
    requires
        0 <= i < s.len(),
        s[i].id == id,
        forall|k: int| 0 <= k < i ==> s[k].id != id,
    ensures
        remove_feed(s, id) == s.remove(i),
    decreases i,
{
    if i == 0 {
        assert(s.drop_first() =~= s.remove(0));
    } else {
        let rest = s.drop_first();
        assert(forall|k: int| 0 <= k < i - 1 ==> rest[k].id != id);
        lemma_remove_feed_at(rest, id, i - 1);
        assert(seq![s[0]] + rest.remove(i - 1) =~= s.remove(i));
    }
}

/// Metadata store for feeds: the lookup, listing, and digest-cache side of
/// the system. Entry collections are kept separately, keyed by feed id.
pub struct FeedRegistry {
    feeds: Vec<Feed>,
}

impl View for FeedRegistry {
    type V = Seq<FeedView>;

    closed spec fn view(&self) -> Seq<FeedView> {
        self.feeds.deep_view()
    }
}

/// Dropping the first feed keeps the key ordering.
proof fn lemma_feed_ids_increasing_drop_first(s: Seq<FeedView>)
    requires
        feed_ids_increasing(s),
        s.len() > 0,
    ensures
        feed_ids_increasing(s.drop_first()),
{
    let rest = s.drop_first();
    assert forall|a: int, b: int| 0 <= a < b < rest.len() implies rest[a].id < rest[b].id by {
        assert(rest[a] == s[a + 1] && rest[b] == s[b + 1]);
        assert(s[a + 1].id < s[b + 1].id);
    }
    assert forall|a: int| 0 <= a < rest.len() implies (#[trigger] rest[a].id) >= 1 by {
        assert(rest[a] == s[a + 1]);
        assert(s[a + 1].id >= 1);
    }
}

/// A lookup among feeds none of which carries the key misses.
proof fn lemma_lookup_by_id_absent(s: Seq<FeedView>, id: i64)
    requires
        forall|k: int| 0 <= k < s.len() ==> (#[trigger] s[k].id) != id,
    ensures
        lookup_by_id(s, id) is None,
    decreases s.len(),
{
    if s.len() > 0 {
        assert(forall|k: int| 0 <= k < s.drop_first().len() ==> (#[trigger] s.drop_first()[k]).id
            != id) by {
            assert forall|k: int| 0 <= k < s.drop_first().len() implies (#[trigger] s.drop_first()[k]).id
                != id by {
                assert(s.drop_first()[k] == s[k + 1]);
                assert(s[k + 1].id != id);
            }
        }
        lemma_lookup_by_id_absent(s.drop_first(), id);
    }
}

/// Replacing a digest moves no feed and changes no id, name, kind, or
/// description of any feed.
pub proof fn lemma_set_digest_lookup(s: Seq<FeedView>, fid: i64, d: Seq<u8>, id: i64)
    ensures
        match lookup_by_id(s, id) {
            Some(f) => lookup_by_id(set_digest(s, fid, d), id) matches Some(g) && g.id == f.id
                && g.name == f.name && g.feed_type == f.feed_type && g.description == f.description
                && (f.id != fid ==> g == f),
            None => lookup_by_id(set_digest(s, fid, d), id) is None,
        },
    decreases s.len(),
{
    if s.len() > 0 {
        let t = set_digest(s, fid, d);
        if s[0].id == fid {
            assert(t == seq![FeedView { digest: d, ..s[0] }] + s.drop_first());
            assert(t[0] == (FeedView { digest: d, ..s[0] }));
            assert(t.drop_first() =~= s.drop_first());
        } else {
            assert(t == seq![s[0]] + set_digest(s.drop_first(), fid, d));
            assert(t[0] == s[0]);
            assert(t.drop_first() =~= set_digest(s.drop_first(), fid, d));
            if s[0].id != id {
                lemma_set_digest_lookup(s.drop_first(), fid, d, id);
            }
        }
    }
}

/// Replacing a description moves no feed and changes no id, name, kind, or
/// digest of any feed.
pub proof fn lemma_set_description_lookup(s: Seq<FeedView>, fid: i64, d: Seq<char>, id: i64)
    ensures
        match lookup_by_id(s, id) {
            Some(f) => lookup_by_id(set_description(s, fid, d), id) matches Some(g) && g.id == f.id
                && g.name == f.name && g.feed_type == f.feed_type && g.digest == f.digest && (f.id
                != fid ==> g == f),
            None => lookup_by_id(set_description(s, fid, d), id) is None,
        },
    decreases s.len(),
{
    if s.len() > 0 {
        let t = set_description(s, fid, d);
        if s[0].id == fid {
            assert(t == seq![FeedView { description: d, ..s[0] }] + s.drop_first());
            assert(t[0] == (FeedView { description: d, ..s[0] }));
            assert(t.drop_first() =~= s.drop_first());
        } else {
            assert(t == seq![s[0]] + set_description(s.drop_first(), fid, d));
            assert(t[0] == s[0]);
            assert(t.drop_first() =~= set_description(s.drop_first(), fid, d));
            if s[0].id != id {
                lemma_set_description_lookup(s.drop_first(), fid, d, id);
            }
        }
    }
}

/// After removing the feed keyed `fid`, a lookup by `fid` misses and every
/// other lookup is unchanged.
pub proof fn lemma_remove_feed_lookup(s: Seq<FeedView>, fid: i64, id: i64)
    requires
        feed_ids_increasing(s),
    ensures
        lookup_by_id(remove_feed(s, fid), id) == (if id == fid {
            None::<FeedView>
        } else {
            lookup_by_id(s, id)
        }),
    decreases s.len(),
{
    if s.len() > 0 {
        let t = remove_feed(s, fid);
        lemma_feed_ids_increasing_drop_first(s);
        if s[0].id == fid {
            assert(t == s.drop_first());
            if id == fid {
                assert forall|k: int| 0 <= k < t.len() implies (#[trigger] t[k].id) != id by {
                    assert(t[k] == s[k + 1]);
                    assert(s[0].id < s[k + 1].id);
                }
                lemma_lookup_by_id_absent(t, id);
            }
        } else {
            assert(t == seq![s[0]] + remove_feed(s.drop_first(), fid));
            assert(t[0] == s[0]);
            assert(t.drop_first() =~= remove_feed(s.drop_first(), fid));
            if s[0].id != id {
                lemma_remove_feed_lookup(s.drop_first(), fid, id);
            }
        }
    }
}

/// Appending a feed changes no existing lookup; a key absent before finds
/// the appended feed exactly when it carries that key.
pub proof fn lemma_lookup_push(s: Seq<FeedView>, f: FeedView, id: i64)
    ensures
        lookup_by_id(s.push(f), id) == (match lookup_by_id(s, id) {
            Some(g) => Some(g),
            None => if f.id == id {
                Some(f)
            } else {
                None
            },
        }),
    decreases s.len(),
{
    let t = s.push(f);
    if s.len() == 0 {
        assert(t[0] == f);
        if f.id != id {
            assert(t.drop_first() =~= Seq::<FeedView>::empty());
        }
    } else {
        assert(t[0] == s[0]);
        assert(t.drop_first() =~= s.drop_first().push(f));
        if s[0].id != id {
            lemma_lookup_push(s.drop_first(), f, id);
        }
    }
}

/// A pointwise replacement that keeps a feed's id and name keeps the
/// collection well formed.
proof fn lemma_wf_update_same_keys(s: Seq<FeedView>, i: int, f: FeedView)
    requires
        registry_wf(s),
        0 <= i < s.len(),
        f.id == s[i].id,
        f.name == s[i].name,
    ensures
        registry_wf(s.update(i, f)),
{
    let t = s.update(i, f);
    assert forall|a: int, b: int| 0 <= a < b < t.len() implies t[a].id < t[b].id by {
        assert(s[a].id < s[b].id);
    }
    assert forall|a: int| 0 <= a < t.len() implies (#[trigger] t[a].id) >= 1 by {
        assert(s[a].id >= 1);
    }
    assert forall|a: int, b: int| 0 <= a < b < t.len() implies t[a].name != t[b].name by {
        assert(s[a].name != s[b].name);
    }
}

/// Removing one feed keeps the collection well formed.
proof fn lemma_wf_remove(s: Seq<FeedView>, i: int)
    requires
        registry_wf(s),
        0 <= i < s.len(),
    ensures
        registry_wf(s.remove(i)),
{
    let t = s.remove(i);
    assert forall|a: int, b: int| 0 <= a < b < t.len() implies t[a].id < t[b].id by {
        let a2: int = if a < i { a } else { a + 1 };
        let b2: int = if b < i { b } else { b + 1 };
        assert(t[a] == s[a2] && t[b] == s[b2]);
        assert(s[a2].id < s[b2].id);
    }
    assert forall|a: int| 0 <= a < t.len() implies (#[trigger] t[a].id) >= 1 by {
        let a2: int = if a < i { a } else { a + 1 };
        assert(t[a] == s[a2]);
        assert(s[a2].id >= 1);
    }
    assert forall|a: int, b: int| 0 <= a < b < t.len() implies t[a].name != t[b].name by {
        let a2: int = if a < i { a } else { a + 1 };
        let b2: int = if b < i { b } else { b + 1 };
        assert(t[a] == s[a2] && t[b] == s[b2]);
        assert(s[a2].name != s[b2].name);
    }
}

/// Index of the first feed whose id equals `id`.
fn find_index_by_id(feeds: &Vec<Feed>, id: i64) -> (r: Option<usize>)
    ensures
        match r {
            Some(i) => {
                &&& i < feeds.len()
                &&& feeds.deep_view()[i as int].id == id
                &&& forall|k: int| 0 <= k < i ==> feeds.deep_view()[k].id != id
                &&& lookup_by_id(feeds.deep_view(), id) == Some(feeds.deep_view()[i as int])
            },
            None => {
                &&& lookup_by_id(feeds.deep_view(), id) is None
                &&& forall|k: int|
                    0 <= k < feeds.deep_view().len() ==> feeds.deep_view()[k].id != id
            },
        },
{
    let ghost s = feeds.deep_view();
    let mut i: usize = 0;
    proof {
        assert(s.skip(0) =~= s);
    }
    while i < feeds.len()
        invariant
            i <= feeds.len(),
            s == feeds.deep_view(),
            forall|k: int| 0 <= k < i ==> s[k].id != id,
            lookup_by_id(s, id) == lookup_by_id(s.skip(i as int), id),
        decreases feeds.len() - i,
    {
        proof {
            assert(s[i as int] == feeds@[i as int]@);
            assert(s.skip(i as int)[0] == s[i as int]);
        }
        if feeds[i].id == id {
            return Some(i);
        }
        proof {
            assert(s.skip(i as int).drop_first() =~= s.skip(i as int + 1));
        }
        i = i + 1;
    }
    None
}

/// Index of the first feed whose name equals `name`.
fn find_index_by_name(feeds: &Vec<Feed>, name: &String) -> (r: Option<usize>)
    ensures
        match r {
            Some(i) => {
                &&& i < feeds.len()
                &&& feeds.deep_view()[i as int].name == name@
                &&& lookup_by_name(feeds.deep_view(), name@) == Some(feeds.deep_view()[i as int])
            },
            None => {
                &&& lookup_by_name(feeds.deep_view(), name@) is None
                &&& forall|k: int|
                    0 <= k < feeds.deep_view().len() ==> feeds.deep_view()[k].name != name@
            },
        },
{
    let ghost s = feeds.deep_view();
    let mut i: usize = 0;
    proof {
        assert(s.skip(0) =~= s);
    }
    while i < feeds.len()
        invariant
            i <= feeds.len(),
            s == feeds.deep_view(),
            forall|k: int| 0 <= k < i ==> s[k].name != name@,
            lookup_by_name(s, name@) == lookup_by_name(s.skip(i as int), name@),
        decreases feeds.len() - i,
    {
        proof {
            assert(s[i as int] == feeds@[i as int]@);
            assert(s.skip(i as int)[0] == s[i as int]);
        }
        if feeds[i].name == *name {
            return Some(i);
        }
        proof {
            assert(s.skip(i as int).drop_first() =~= s.skip(i as int + 1));
        }
        i = i + 1;
    }
    None
}

/// Replaces the stored digest of the feed keyed `feed_id`.
fn put_digest(reg: &mut FeedRegistry, feed_id: i64, digest: Vec<u8>) -> (r: Result<
    (),
    StoreError,
>)
    requires
        registry_wf(old(reg)@),
    ensures
        registry_wf(final(reg)@),
        match r {
            Ok(_) => lookup_by_id(old(reg)@, feed_id) is Some && final(reg)@ == set_digest(
                old(reg)@,
                feed_id,
                digest@,
            ),
            Err(e) => {
                &&& e == StoreError::NotFound
                &&& lookup_by_id(old(reg)@, feed_id) is None
                &&& final(reg)@ == old(reg)@
            },
        },
{
    match find_index_by_id(&reg.feeds, feed_id) {
        Some(i) => {
            let f = &reg.feeds[i];
            let updated = Feed {
                id: f.id,
                name: f.name.clone(),
                description: f.description.clone(),
                feed_type: f.feed_type,
                digest,
            };
            let ghost upd = updated@;
            reg.feeds.set(i, updated);
            proof {
                let s = old(reg)@;
                assert(reg@ =~= s.update(i as int, upd));
                assert(upd =~= (FeedView { digest: digest@, ..s[i as int] }));
                lemma_set_digest_at(s, feed_id, digest@, i as int);
                lemma_wf_update_same_keys(s, i as int, upd);
            }
            Ok(())
        },
        None => Err(StoreError::NotFound),
    }
}

impl FeedRegistry {
    /// An empty registry.
    pub fn new() -> (r: FeedRegistry)
        ensures
            r@ == Seq::<FeedView>::empty(),
    {
        let r = FeedRegistry { feeds: Vec::new() };
        proof {
            assert(r@ =~= Seq::<FeedView>::empty());
        }
        r
    }

    /// Clears the cached digest of the feed keyed `feed_id`. Entry mutation
    /// hooks call this so that a stale digest is never served.
    pub fn invalidate_digest(&mut self, feed_id: i64) -> (r: Result<(), StoreError>)
        requires
            registry_wf(old(self)@),
        ensures
            registry_wf(final(self)@),
            match r {
                Ok(_) => lookup_by_id(old(self)@, feed_id) is Some && final(self)@ == set_digest(
                    old(self)@,
                    feed_id,
                    Seq::<u8>::empty(),
                ),
                Err(e) => {
                    &&& e == StoreError::NotFound
                    &&& lookup_by_id(old(self)@, feed_id) is None
                    &&& final(self)@ == old(self)@
                },
            },
    {
        let empty: Vec<u8> = Vec::new();
        put_digest(self, feed_id, empty)
    }

    /// Removes the feed keyed `id` and hands it back.
    pub fn remove(&mut self, id: i64) -> (r: Result<Feed, StoreError>)
        requires
            registry_wf(old(self)@),
        ensures
            registry_wf(final(self)@),
            match r {
                Ok(f) => lookup_by_id(old(self)@, id) == Some(f@) && final(self)@ == remove_feed(
                    old(self)@,
                    id,
                ),
                Err(e) => {
                    &&& e == StoreError::NotFound
                    &&& lookup_by_id(old(self)@, id) is None
                    &&& final(self)@ == old(self)@
                },
            },
    {
        match find_index_by_id(&self.feeds, id) {
            Some(i) => {
                let f = self.feeds.remove(i);
                proof {
                    let s = old(self)@;
                    assert(self@ =~= s.remove(i as int));
                    lemma_remove_feed_at(s, id, i as int);
                    lemma_wf_remove(s, i as int);
                }
                Ok(f)
            },
            None => Err(StoreError::NotFound),
        }
    }
}

impl Feed {
    /// Creates a feed with a fresh id and an empty digest. Fails with
    /// `Conflict` when the name is taken, and with `Storage` when the id
    /// space is exhausted.
    pub fn insert(reg: &mut FeedRegistry, data: InsertFeedData) -> (r: Result<Feed, StoreError>)
        requires
            registry_wf(old(reg)@),
        ensures
            registry_wf(final(reg)@),
            match r {
                Ok(f) => {
                    &&& lookup_by_name(old(reg)@, data.name@) is None
                    &&& f@.id as int == next_feed_id(old(reg)@)
                    &&& f@.name == data.name@
                    &&& f@.description == (match data.description {
                        Some(d) => d@,
                        None => Seq::<char>::empty(),
                    })
                    &&& f@.feed_type == data.feed_type
                    &&& f@.digest == Seq::<u8>::empty()
                    &&& final(reg)@ == old(reg)@.push(f@)
                },
                Err(e) => final(reg)@ == old(reg)@ && ((e == StoreError::Conflict
                    && lookup_by_name(old(reg)@, data.name@) is Some) || (e == StoreError::Storage
                    && lookup_by_name(old(reg)@, data.name@) is None && next_feed_id(old(reg)@)
                    > i64::MAX)),
            },
    {
        match find_index_by_name(&reg.feeds, &data.name) {
            Some(_) => {
                return Err(StoreError::Conflict);
            },
            None => {},
        }
        let id: i64;
        if reg.feeds.len() == 0 {
            id = 1;
        } else {
            let last = reg.feeds[reg.feeds.len() - 1].id;
            proof {
                assert(old(reg)@.last() == reg.feeds@[reg.feeds@.len() - 1]@);
            }
            if last == i64::MAX {
                return Err(StoreError::Storage);
            }
            id = last + 1;
        }
        let descr = match data.description {
            Some(d) => d,
            None => String::new(),
        };
        let f = Feed {
            id,
            name: data.name,
            description: descr,
            feed_type: data.feed_type,
            digest: Vec::new(),
        };
        let out = f.clone();
        let ghost s0 = reg@;
        let ghost fv = f@;
        reg.feeds.push(f);
        proof {
            assert(reg@ =~= s0.push(fv));
            let t = s0.push(fv);
            assert forall|a: int, b: int| 0 <= a < b < t.len() implies t[a].id < t[b].id by {
                if b < s0.len() {
                    assert(s0[a].id < s0[b].id);
                } else {
                    if s0.len() > 0 && a < s0.len() - 1 {
                        assert(s0[a].id < s0[s0.len() - 1].id);
                    }
                }
            }
            assert forall|a: int| 0 <= a < t.len() implies (#[trigger] t[a].id) >= 1 by {
                if a < s0.len() {
                    assert(s0[a].id >= 1);
                }
            }
            assert forall|a: int, b: int| 0 <= a < b < t.len() implies t[a].name != t[b].name by {
                if b < s0.len() {
                    assert(s0[a].name != s0[b].name);
                } else {
                    assert(s0[a].name != fv.name);
                }
            }
        }
        Ok(out)
    }

    /// Lists feeds, whole or one page, in storage order.
    pub fn list(reg: &FeedRegistry, window: Option<Window>) -> (r: Vec<Feed>)
        requires
            window matches Some(w) ==> w.pos >= 0 && w.size >= 0,
        ensures
            match window {
                None => r.deep_view() == reg@,
                Some(w) => r.deep_view() == feed_page(reg@, w.pos as int, w.size as int),
            },
    {
        let len = reg.feeds.len();
        let start: usize;
        let end: usize;
        match window {
            None => {
                start = 0;
                end = len;
            },
            Some(w) => {
                proof {
                    assert((w.pos as u64) * (w.size as u64) <= 0x7fff_ffff * 0x7fff_ffff)
                        by (nonlinear_arith)
                        requires
                            0 <= w.pos as u64 <= 0x7fff_ffff,
                            0 <= w.size as u64 <= 0x7fff_ffff,
                    ;
                }
                let prod: u64 = (w.pos as u64) * (w.size as u64);
                start = if prod >= len as u64 {
                    len
                } else {
                    prod as usize
                };
                let size_us = w.size as usize;
                end = if len - start <= size_us {
                    len
                } else {
                    start + size_us
                };
            },
        }
        let ghost s = reg@;
        let mut out: Vec<Feed> = Vec::new();
        let mut i: usize = start;
        while i < end
            invariant
                start <= i <= end <= reg.feeds.len(),
                s == reg@,
                out@.len() == i - start,
                forall|k: int| 0 <= k < out@.len() ==> (#[trigger] out@[k])@ == s[start + k],
            decreases end - i,
        {
            proof {
                assert(s[i as int] == reg.feeds@[i as int]@);
            }
            out.push(reg.feeds[i].clone());
            i = i + 1;
        }
        proof {
            assert(out.deep_view() =~= s.subrange(start as int, end as int)) by {
                assert forall|k: int| 0 <= k < out@.len() implies out.deep_view()[k] == s.subrange(
                    start as int,
                    end as int,
                )[k] by {
                    assert(out.deep_view()[k] == out@[k].deep_view());
                    assert(out@[k].deep_view() == out@[k]@);
                }
            }
            match window {
                None => {
                    assert(s.subrange(0, s.len() as int) =~= s);
                },
                Some(w) => {
                    assert(s.subrange(start as int, end as int) =~= feed_page(
                        s,
                        w.pos as int,
                        w.size as int,
                    ));
                },
            }
        }
        out
    }

    /// Looks a feed up by name: the public serving path.
    pub fn get(reg: &FeedRegistry, name: &str) -> (r: Result<Feed, StoreError>)
        ensures
            match r {
                Ok(f) => lookup_by_name(reg@, name@) == Some(f@),
                Err(e) => e == StoreError::NotFound && lookup_by_name(reg@, name@) is None,
            },
    {
        let owned = name.to_owned();
        match find_index_by_name(&reg.feeds, &owned) {
            Some(i) => Ok(reg.feeds[i].clone()),
            None => Err(StoreError::NotFound),
        }
    }

    /// Looks a feed up by id: the administrative path.
    pub fn get_by_id(reg: &FeedRegistry, id: i64) -> (r: Result<Feed, StoreError>)
        ensures
            match r {
                Ok(f) => lookup_by_id(reg@, id) == Some(f@),
                Err(e) => e == StoreError::NotFound && lookup_by_id(reg@, id) is None,
            },
    {
        match find_index_by_id(&reg.feeds, id) {
            Some(i) => Ok(reg.feeds[i].clone()),
            None => Err(StoreError::NotFound),
        }
    }

    /// Writes this feed's digest into the registry record keyed by its id:
    /// an unconditional overwrite, used by the rendering pipeline.
    pub fn update_digest(&self, reg: &mut FeedRegistry) -> (r: Result<(), StoreError>)
        requires
            registry_wf(old(reg)@),
        ensures
            registry_wf(final(reg)@),
            match r {
                Ok(_) => lookup_by_id(old(reg)@, self.id) is Some && final(reg)@ == set_digest(
                    old(reg)@,
                    self.id,
                    self.digest@,
                ),
                Err(e) => {
                    &&& e == StoreError::NotFound
                    &&& lookup_by_id(old(reg)@, self.id) is None
                    &&& final(reg)@ == old(reg)@
                },
            },
    {
        let bytes = clone_bytes(&self.digest);
        put_digest(reg, self.id, bytes)
    }

    /// Administrative metadata mutation: replaces the description when one
    /// is supplied. Name and kind are fixed at creation.
    pub fn update(reg: &mut FeedRegistry, id: i64, data: UpdateFeedData) -> (r: Result<
        (),
        StoreError,
    >)
        requires
            registry_wf(old(reg)@),
        ensures
            registry_wf(final(reg)@),
            match r {
                Ok(_) => {
                    &&& lookup_by_id(old(reg)@, id) is Some
                    &&& final(reg)@ == (match data.description {
                        Some(d) => set_description(old(reg)@, id, d@),
                        None => old(reg)@,
                    })
                },
                Err(e) => {
                    &&& e == StoreError::NotFound
                    &&& lookup_by_id(old(reg)@, id) is None
                    &&& final(reg)@ == old(reg)@
                },
            },
    {
        match find_index_by_id(&reg.feeds, id) {
            Some(i) => {
                match data.description {
                    Some(d) => {
                        let ghost dv = d@;
                        let f = &reg.feeds[i];
                        let updated = Feed {
                            id: f.id,
                            name: f.name.clone(),
                            description: d,
                            feed_type: f.feed_type,
                            digest: clone_bytes(&f.digest),
                        };
                        let ghost upd = updated@;
                        reg.feeds.set(i, updated);
                        proof {
                            let s = old(reg)@;
                            assert(reg@ =~= s.update(i as int, upd));
                            assert(upd =~= (FeedView { description: dv, ..s[i as int] }));
                            lemma_set_description_at(s, id, dv, i as int);
                            lemma_wf_update_same_keys(s, i as int, upd);
                        }
                    },
                    None => {},
                }
                Ok(())
            },
            None => Err(StoreError::NotFound),
        }
    }
}

} // verus!
