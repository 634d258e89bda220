use vstd::prelude::*;

use vstd::multiset::Multiset;

use crate::errors::StoreError;

verus! {

/// One list item of a feed: an IP network, URL, or domain in its canonical
/// textual form, with a soft enable switch and an optional expiry instant
/// (seconds since the epoch; `None` means "never expires").
#[derive(Debug)]
pub struct Entry {
    /// Surrogate key, assigned by the collection on insert.
    pub id: i64,
    /// Canonical textual form of the list item.
    pub value: String,
    pub enabled: bool,
    pub description: String,
    pub valid_until: Option<i64>,
    /// The feed this entry belongs to, exclusively.
    pub feed_id: i64,
}

/// Mathematical image of an [`Entry`].
#[verifier::ext_equal]
pub ghost struct EntryView {
    pub id: i64,
    pub value: Seq<char>,
    pub enabled: bool,
    pub description: Seq<char>,
    pub valid_until: Option<i64>,
    pub feed_id: i64,
}

impl View for Entry {
    type V = EntryView;

    open spec fn view(&self) -> EntryView {
        EntryView {
            id: self.id,
            value: self.value@,
            enabled: self.enabled,
            description: self.description@,
            valid_until: self.valid_until,
            feed_id: self.feed_id,
        }
    }
}

impl DeepView for Entry {
    type V = EntryView;

    open spec fn deep_view(&self) -> EntryView {
        self.view()
    }
}

impl Clone for Entry {
    fn clone(&self) -> (r: Self)
        ensures
            r@ == self@,
    {
        Entry {
            id: self.id,
            value: self.value.clone(),
            enabled: self.enabled,
            description: self.description.clone(),
            valid_until: self.valid_until,
            feed_id: self.feed_id,
        }
    }
}

/// An entry is active iff it is enabled and not expired at `now`.
pub open spec fn is_active(e: EntryView, now: i64) -> bool {
    e.enabled && match e.valid_until {
        None => true,
        Some(t) => t >= now,
    }
}

/// The stream over `feed_id` emits exactly the active entries of that feed.
pub open spec fn emits(e: EntryView, feed_id: i64, now: i64) -> bool {
    e.feed_id == feed_id && is_active(e, now)
}

/// The subsequence of entries the active-value stream walks, in storage
/// order.
pub open spec fn active_entries(s: Seq<EntryView>, feed_id: i64, now: i64) -> Seq<EntryView>
    decreases s.len(),
{
    if s.len() == 0 {
        Seq::empty()
    } else {
        let prefix = active_entries(s.drop_last(), feed_id, now);
        if emits(s.last(), feed_id, now) {
            prefix.push(s.last())
        } else {
            prefix
        }
    }
}

/// The values the active-value stream emits, in storage order.
pub open spec fn active_values(s: Seq<EntryView>, feed_id: i64, now: i64) -> Seq<Seq<char>> {
    active_entries(s, feed_id, now).map_values(|e: EntryView| e.value)
}

/// Extending the walked prefix by one row extends the emitted entries by
/// that row exactly when the row is an active row of the feed.
proof fn lemma_active_take_step(s: Seq<EntryView>, feed_id: i64, now: i64, i: int)
    requires
        0 <= i < s.len(),
    ensures
        active_entries(s.take(i + 1), feed_id, now) == (if emits(s[i], feed_id, now) {
            active_entries(s.take(i), feed_id, now).push(s[i])
        } else {
            active_entries(s.take(i), feed_id, now)
        }),
{
    assert(s.take(i + 1).drop_last() =~= s.take(i));
    assert(s.take(i + 1).last() == s[i]);
}

/// The value-level image of `lemma_active_take_step`.
proof fn lemma_active_values_step(s: Seq<EntryView>, feed_id: i64, now: i64, i: int)
    requires
        0 <= i < s.len(),
    ensures
        active_values(s.take(i + 1), feed_id, now) == (if emits(s[i], feed_id, now) {
            active_values(s.take(i), feed_id, now).push(s[i].value)
        } else {
            active_values(s.take(i), feed_id, now)
        }),
{
    lemma_active_take_step(s, feed_id, now, i);
    if emits(s[i], feed_id, now) {
        assert(active_entries(s.take(i), feed_id, now).push(s[i]).map_values(
            |e: EntryView| e.value,
        ) =~= active_entries(s.take(i), feed_id, now).map_values(|e: EntryView| e.value).push(
            s[i].value,
        ));
    }
}

/// Entry surrogate keys are positive and strictly increase in storage
/// order, so storage order is id order and ids are unique.
pub open spec fn entry_ids_increasing(s: Seq<EntryView>) -> bool {
    &&& forall|i: int, j: int| 0 <= i < j < s.len() ==> s[i].id < s[j].id
    &&& forall|i: int| 0 <= i < s.len() ==> (#[trigger] s[i].id) >= 1
}

/// Well-formedness of one entry collection.
pub open spec fn entries_wf(s: Seq<EntryView>) -> bool {
    entry_ids_increasing(s)
}

/// First entry whose id equals `id`, in storage order.
pub open spec fn lookup_entry(s: Seq<EntryView>, id: i64) -> Option<EntryView>
    decreases s.len(),
{
    if s.len() == 0 {
        None
    } else if s[0].id == id {
        Some(s[0])
    } else {
        lookup_entry(s.drop_first(), id)
    }
}

/// Full replace of the mutable fields (`enabled`, `description`,
/// `valid_until`) of the entry keyed `e.id`; id, value and owning feed stay.
pub open spec fn replace_entry(s: Seq<EntryView>, e: EntryView) -> Seq<EntryView>
    decreases s.len(),
{
    if s.len() == 0 {
        s
    } else if s[0].id == e.id {
        seq![
            EntryView {
                enabled: e.enabled,
                description: e.description,
                valid_until: e.valid_until,
                ..s[0]
            },
        ] + s.drop_first()
    } else {
        seq![s[0]] + replace_entry(s.drop_first(), e)
    }
}

/// The collection without the entry keyed `id` (first occurrence; under
/// `entries_wf` ids are unique).
pub open spec fn remove_entry(s: Seq<EntryView>, id: i64) -> Seq<EntryView>
    decreases s.len(),
{
    if s.len() == 0 {
        s
    } else if s[0].id == id {
        s.drop_first()
    } else {
        seq![s[0]] + remove_entry(s.drop_first(), id)
    }
}

/// The id the collection will assign to the next inserted entry.
pub open spec fn next_entry_id(s: Seq<EntryView>) -> int {
    if s.len() == 0 {
        1
    } else {
        s.last().id + 1
    }
}

/// Replacing the mutable fields at the first (under `entries_wf`: the only)
/// index holding `e.id` is a pointwise update.
proof fn lemma_replace_entry_at(s: Seq<EntryView>, e: EntryView, i: int)
    requires
        0 <= i < s.len(),
        s[i].id == e.id,
        forall|k: int| 0 <= k < i ==> s[k].id != e.id,
    ensures
        replace_entry(s, e) == s.update(
            i,
            EntryView {
                enabled: e.enabled,
                description: e.description,
                valid_until: e.valid_until,
                ..s[i]
            },
        ),
    decreases i,
{
    let upd = EntryView {
        enabled: e.enabled,
        description: e.description,
        valid_until: e.valid_until,
        ..s[i]
    };
    if i == 0 {
        assert(seq![upd] + s.drop_first() =~= s.update(0, upd));
    } else {
        let rest = s.drop_first();
        assert(forall|k: int| 0 <= k < i - 1 ==> rest[k].id != e.id);
        lemma_replace_entry_at(rest, e, i - 1);
        assert(seq![s[0]] + rest.update(i - 1, upd) =~= s.update(i, upd));
    }
}

/// Removing the entry at the first index holding `id` deletes exactly that
/// position.
proof fn lemma_remove_entry_at(s: Seq<EntryView>, id: i64, i: int)
    requires
        0 <= i < s.len(),
        s[i].id == id,
        forall|k: int| 0 <= k < i ==> s[k].id != id,
    ensures
        remove_entry(s, id) == s.remove(i),
    decreases i,
{
    if i == 0 {
        assert(s.drop_first() =~= s.remove(0));
    } else {
        let rest = s.drop_first();
        assert(forall|k: int| 0 <= k < i - 1 ==> rest[k].id != id);
        lemma_remove_entry_at(rest, id, i - 1);
        assert(seq![s[0]] + rest.remove(i - 1) =~= s.remove(i));
    }
}

/// A pointwise replacement that keeps an entry's id keeps the collection
/// well formed.
proof fn lemma_entries_wf_update_same_id(s: Seq<EntryView>, i: int, e: EntryView)
    requires
        entries_wf(s),
        0 <= i < s.len(),
        e.id == s[i].id,
    ensures
        entries_wf(s.update(i, e)),
{
    let t = s.update(i, e);
    assert forall|a: int, b: int| 0 <= a < b < t.len() implies t[a].id < t[b].id by {
        assert(s[a].id < s[b].id);
    }
    assert forall|a: int| 0 <= a < t.len() implies (#[trigger] t[a].id) >= 1 by {
        assert(s[a].id >= 1);
    }
}

/// Removing one entry keeps the collection well formed.
proof fn lemma_entries_wf_remove(s: Seq<EntryView>, i: int)
    requires
        entries_wf(s),
        0 <= i < s.len(),
    ensures
        entries_wf(s.remove(i)),
{
    let t = s.remove(i);
    assert forall|a: int, b: int| 0 <= a < b < t.len() implies t[a].id < t[b].id by {
        let a2: int = if a < i {
            a
        } else {
            a + 1
        };
        let b2: int = if b < i {
            b
        } else {
            b + 1
        };
        assert(t[a] == s[a2] && t[b] == s[b2]);
        assert(s[a2].id < s[b2].id);
    }
    assert forall|a: int| 0 <= a < t.len() implies (#[trigger] t[a].id) >= 1 by {
        let a2: int = if a < i {
            a
        } else {
            a + 1
        };
        assert(t[a] == s[a2]);
        assert(s[a2].id >= 1);
    }
}

/// One backing collection of entries of a single kind; the generic CRUD
/// and streaming repository that serves it.
pub struct EntryStore {
    entries: Vec<Entry>,
}

impl View for EntryStore {
    type V = Seq<EntryView>;

    closed spec fn view(&self) -> Seq<EntryView> {
        self.entries.deep_view()
    }
}

/// Index of the first entry whose id equals `id`.
fn find_entry_index(entries: &Vec<Entry>, id: i64) -> (r: Option<usize>)
    ensures
        match r {
            Some(i) => {
                &&& i < entries.len()
                &&& entries.deep_view()[i as int].id == id
                &&& forall|k: int| 0 <= k < i ==> entries.deep_view()[k].id != id
                &&& lookup_entry(entries.deep_view(), id) == Some(entries.deep_view()[i as int])
            },
            None => {
                &&& lookup_entry(entries.deep_view(), id) is None
                &&& forall|k: int|
                    0 <= k < entries.deep_view().len() ==> entries.deep_view()[k].id != id
            },
        },
{
    let ghost s = entries.deep_view();
    let mut i: usize = 0;
    proof {
        assert(s.skip(0) =~= s);
    }
    while i < entries.len()
        invariant
            i <= entries.len(),
            s == entries.deep_view(),
            forall|k: int| 0 <= k < i ==> s[k].id != id,
            lookup_entry(s, id) == lookup_entry(s.skip(i as int), id),
        decreases entries.len() - i,
    {
        proof {
            assert(s[i as int] == entries@[i as int]@);
            assert(s.skip(i as int)[0] == s[i as int]);
        }
        if entries[i].id == id {
            return Some(i);
        }
        proof {
            assert(s.skip(i as int).drop_first() =~= s.skip(i as int + 1));
        }
        i = i + 1;
    }
    None
}

impl EntryStore {
    /// An empty collection.
    pub fn new() -> (r: EntryStore)
        ensures
            r@ == Seq::<EntryView>::empty(),
    {
        let r = EntryStore { entries: Vec::new() };
        proof {
            assert(r@ =~= Seq::<EntryView>::empty());
        }
        r
    }

    /// Creates an entry bound to `feed_id`, enabled by default, with a
    /// fresh id. Fails with `Storage` when the id space is exhausted;
    /// referential checks against the feed registry are the composed
    /// store's concern.
    pub fn insert(
        &mut self,
        feed_id: i64,
        value: String,
        description: Option<String>,
        valid_until: Option<i64>,
    ) -> (r: Result<Entry, StoreError>)
        requires
            entries_wf(old(self)@),
        ensures
            entries_wf(final(self)@),
            match r {
                Ok(e) => {
                    &&& e@.id as int == next_entry_id(old(self)@)
                    &&& e@.value == value@
                    &&& e@.enabled == true
                    &&& e@.description == (match description {
                        Some(d) => d@,
                        None => Seq::<char>::empty(),
                    })
                    &&& e@.valid_until == valid_until
                    &&& e@.feed_id == feed_id
                    &&& final(self)@ == old(self)@.push(e@)
                },
                Err(e) => {
                    &&& e == StoreError::Storage
                    &&& next_entry_id(old(self)@) > i64::MAX
                    &&& final(self)@ == old(self)@
                },
            },
    {
        let id: i64;
        if self.entries.len() == 0 {
            id = 1;
        } else {
            let last = self.entries[self.entries.len() - 1].id;
            proof {
                assert(old(self)@.last() == self.entries@[self.entries@.len() - 1]@);
            }
            if last == i64::MAX {
                return Err(StoreError::Storage);
            }
            id = last + 1;
        }
        let descr = match description {
            Some(d) => d,
            None => String::new(),
        };
        let e = Entry { id, value, enabled: true, description: descr, valid_until, feed_id };
        let out = e.clone();
        let ghost s0 = self@;
        let ghost ev = e@;
        self.entries.push(e);
        proof {
            assert(self@ =~= s0.push(ev));
            let t = s0.push(ev);
            assert forall|a: int, b: int| 0 <= a < b < t.len() implies t[a].id < t[b].id by {
                if b < s0.len() {
                    assert(s0[a].id < s0[b].id);
                } else {
                    if s0.len() > 0 && a < s0.len() - 1 {
                        assert(s0[a].id < s0[s0.len() - 1].id);
                    }
                }
            }
            assert forall|a: int| 0 <= a < t.len() implies (#[trigger] t[a].id) >= 1 by {
                if a < s0.len() {
                    assert(s0[a].id >= 1);
                }
            }
        }
        Ok(out)
    }

    /// Opens the lazy active-value stream of `feed_id` over this
    /// collection.
    pub fn fetch_values(&self, feed_id: i64) -> (r: ValueStream)
        ensures
            r.feed_id == feed_id,
            r.cursor == 0,
    {
        ValueStream { feed_id, cursor: 0 }
    }

    /// Paginated administrative listing: entries of `feed_id` with id
    /// strictly greater than `last_id` (0 when absent), optionally narrowed
    /// by the enable flag and by the three-way validity condition, in
    /// ascending id order, at most `quantity` of them.
    pub fn fetch_some(
        &self,
        feed_id: i64,
        quantity: i64,
        last_id: Option<i64>,
        enabled: Option<bool>,
        valid_until: Option<Option<i64>>,
    ) -> (r: Vec<Entry>)
        requires
            quantity >= 0,
        ensures
            r.deep_view() == listed(
                self@,
                feed_id,
                spec_cursor(last_id),
                enabled,
                valid_until,
                quantity as int,
            ),
    {
        let after: i64 = match last_id {
            Some(v) => v,
            None => 0,
        };
        let ghost s = self@;
        let mut out: Vec<Entry> = Vec::new();
        let ghost mut acc: Seq<EntryView> = Seq::empty();
        let mut i: usize = 0;
        proof {
            assert(s.skip(0) =~= s);
            assert(acc + listed(s, feed_id, after, enabled, valid_until, quantity as int) =~= listed(
                s,
                feed_id,
                after,
                enabled,
                valid_until,
                quantity as int,
            ));
        }
        while i < self.entries.len() && (out.len() as i64) < quantity
            invariant
                i <= self.entries.len(),
                s == self@,
                acc.len() == out@.len(),
                acc.len() <= quantity,
                forall|k: int| 0 <= k < out@.len() ==> (#[trigger] out@[k])@ == acc[k],
                listed(s, feed_id, after, enabled, valid_until, quantity as int) == acc + listed(
                    s.skip(i as int),
                    feed_id,
                    after,
                    enabled,
                    valid_until,
                    quantity - acc.len(),
                ),
            decreases self.entries.len() - i,
        {
            proof {
                assert(s[i as int] == self.entries@[i as int]@);
                assert(s.skip(i as int)[0] == s[i as int]);
                assert(s.skip(i as int).drop_first() =~= s.skip(i as int + 1));
            }
            let e = &self.entries[i];
            let matches_enabled = match enabled {
                Some(b) => e.enabled == b,
                None => true,
            };
            let matches_valid = match valid_until {
                Some(cond) => match (cond, e.valid_until) {
                    (Some(t), Some(u)) => u >= t,
                    (Some(_), None) => false,
                    (None, None) => true,
                    (None, Some(_)) => false,
                },
                None => true,
            };
            if e.feed_id == feed_id && e.id > after && matches_enabled && matches_valid {
                out.push(self.entries[i].clone());
                proof {
                    let q1 = quantity - acc.len();
                    let tail = listed(
                        s.skip(i as int + 1),
                        feed_id,
                        after,
                        enabled,
                        valid_until,
                        q1 - 1,
                    );
                    assert(listed(s.skip(i as int), feed_id, after, enabled, valid_until, q1)
                        == seq![s[i as int]] + tail);
                    assert(acc.push(s[i as int]) + tail =~= acc + (seq![s[i as int]] + tail));
                    acc = acc.push(s[i as int]);
                }
            } else {
                proof {
                    let q1 = quantity - acc.len();
                    assert(listed(s.skip(i as int), feed_id, after, enabled, valid_until, q1)
                        == listed(s.skip(i as int + 1), feed_id, after, enabled, valid_until, q1));
                }
            }
            i = i + 1;
        }
        proof {
            if i == self.entries.len() {
                assert(s.skip(i as int).len() == 0);
                assert(listed(s.skip(i as int), feed_id, after, enabled, valid_until, quantity
                    - acc.len()) == Seq::<EntryView>::empty());
            } else {
                assert(acc.len() == quantity);
                assert(listed(s.skip(i as int), feed_id, after, enabled, valid_until, 0)
                    == Seq::<EntryView>::empty());
            }
            assert(acc + Seq::<EntryView>::empty() =~= acc);
            assert(out.deep_view() =~= acc) by {
                assert forall|k: int| 0 <= k < out@.len() implies out.deep_view()[k] == acc[k] by {
                    assert(out.deep_view()[k] == out@[k].deep_view());
                    assert(out@[k].deep_view() == out@[k]@);
                }
            }
        }
        out
    }

    /// Looks an entry up by id.
    pub fn get(&self, entry_id: i64) -> (r: Result<Entry, StoreError>)
        ensures
            match r {
                Ok(e) => lookup_entry(self@, entry_id) == Some(e@),
                Err(e) => e == StoreError::NotFound && lookup_entry(self@, entry_id) is None,
            },
    {
        match find_entry_index(&self.entries, entry_id) {
            Some(i) => Ok(self.entries[i].clone()),
            None => Err(StoreError::NotFound),
        }
    }

    /// Full replace of `enabled`, `description` and `valid_until` for the
    /// entry keyed `entry.id`; fails with `NotFound` when the id is absent.
    pub fn update(&mut self, entry: &Entry) -> (r: Result<(), StoreError>)
        requires
            entries_wf(old(self)@),
        ensures
            entries_wf(final(self)@),
            match r {
                Ok(_) => {
                    &&& lookup_entry(old(self)@, entry.id) is Some
                    &&& final(self)@ == replace_entry(old(self)@, entry@)
                    &&& final(self)@.len() == old(self)@.len()
                    &&& forall|k: int|
                        0 <= k < old(self)@.len() ==> (#[trigger] final(self)@[k]).feed_id == old(
                            self,
                        )@[k].feed_id
                },
                Err(e) => {
                    &&& e == StoreError::NotFound
                    &&& lookup_entry(old(self)@, entry.id) is None
                    &&& final(self)@ == old(self)@
                },
            },
    {
        match find_entry_index(&self.entries, entry.id) {
            Some(i) => {
                let stored = &self.entries[i];
                let updated = Entry {
                    id: stored.id,
                    value: stored.value.clone(),
                    enabled: entry.enabled,
                    description: entry.description.clone(),
                    valid_until: entry.valid_until,
                    feed_id: stored.feed_id,
                };
                let ghost upd = updated@;
                self.entries.set(i, updated);
                proof {
                    let s = old(self)@;
                    assert(self@ =~= s.update(i as int, upd));
                    assert(upd =~= (EntryView {
                        enabled: entry.enabled,
                        description: entry.description@,
                        valid_until: entry.valid_until,
                        ..s[i as int]
                    }));
                    lemma_replace_entry_at(s, entry@, i as int);
                    lemma_entries_wf_update_same_id(s, i as int, upd);
                    assert forall|k: int| 0 <= k < s.len() implies (#[trigger] self@[k]).feed_id
                        == s[k].feed_id by {
                        if k != i {
                            assert(self@[k] == s[k]);
                        }
                    }
                }
                Ok(())
            },
            None => Err(StoreError::NotFound),
        }
    }

    /// Removes every entry of `feed_id`: the cascading half of a feed
    /// delete.
    pub fn purge(&mut self, feed_id: i64)
        requires
            entries_wf(old(self)@),
        ensures
            entries_wf(final(self)@),
            final(self)@ == without_feed(old(self)@, feed_id),
            forall|k: int|
                0 <= k < final(self)@.len() ==> (#[trigger] final(self)@[k]).feed_id != feed_id,
            forall|k: int|
                0 <= k < final(self)@.len() ==> old(self)@.contains(#[trigger] final(self)@[k]),
    {
        let ghost s = self@;
        let mut kept: Vec<Entry> = Vec::new();
        let ghost mut acc: Seq<EntryView> = Seq::empty();
        let mut i: usize = 0;
        proof {
            assert(s.skip(0) =~= s);
            assert(acc + without_feed(s, feed_id) =~= without_feed(s, feed_id));
        }
        while i < self.entries.len()
            invariant
                i <= self.entries.len(),
                s == self@,
                acc.len() == kept@.len(),
                forall|k: int| 0 <= k < kept@.len() ==> (#[trigger] kept@[k])@ == acc[k],
                without_feed(s, feed_id) == acc + without_feed(s.skip(i as int), feed_id),
            decreases self.entries.len() - i,
        {
            proof {
                assert(s[i as int] == self.entries@[i as int]@);
                assert(s.skip(i as int)[0] == s[i as int]);
                assert(s.skip(i as int).drop_first() =~= s.skip(i as int + 1));
            }
            if self.entries[i].feed_id != feed_id {
                kept.push(self.entries[i].clone());
                proof {
                    let tail = without_feed(s.skip(i as int + 1), feed_id);
                    assert(without_feed(s.skip(i as int), feed_id) == seq![s[i as int]] + tail);
                    assert(acc.push(s[i as int]) + tail =~= acc + (seq![s[i as int]] + tail));
                    acc = acc.push(s[i as int]);
                }
            } else {
                proof {
                    assert(without_feed(s.skip(i as int), feed_id) == without_feed(
                        s.skip(i as int + 1),
                        feed_id,
                    ));
                }
            }
            i = i + 1;
        }
        self.entries = kept;
        proof {
            assert(s.skip(s.len() as int).len() == 0);
            assert(without_feed(s.skip(s.len() as int), feed_id) == Seq::<EntryView>::empty());
            assert(acc + Seq::<EntryView>::empty() =~= acc);
            assert(self@ =~= acc) by {
                assert forall|k: int| 0 <= k < kept@.len() implies self@[k] == acc[k] by {
                    assert(self@[k] == kept@[k].deep_view());
                    assert(kept@[k].deep_view() == kept@[k]@);
                }
            }
            lemma_without_feed_wf(s, feed_id);
        }
    }

    /// Deletes the entry keyed `entry_id`; fails with `NotFound` when the
    /// id is absent.
    pub fn delete(&mut self, entry_id: i64) -> (r: Result<(), StoreError>)
        requires
            entries_wf(old(self)@),
        ensures
            entries_wf(final(self)@),
            match r {
                Ok(_) => {
                    &&& lookup_entry(old(self)@, entry_id) is Some
                    &&& final(self)@ == remove_entry(old(self)@, entry_id)
                    &&& forall|k: int|
                        0 <= k < final(self)@.len() ==> old(self)@.contains(
                            #[trigger] final(self)@[k],
                        )
                },
                Err(e) => {
                    &&& e == StoreError::NotFound
                    &&& lookup_entry(old(self)@, entry_id) is None
                    &&& final(self)@ == old(self)@
                },
            },
    {
        match find_entry_index(&self.entries, entry_id) {
            Some(i) => {
                let _ = self.entries.remove(i);
                proof {
                    let s = old(self)@;
                    assert(self@ =~= s.remove(i as int));
                    lemma_remove_entry_at(s, entry_id, i as int);
                    lemma_entries_wf_remove(s, i as int);
                    assert forall|k: int| 0 <= k < self@.len() implies s.contains(
                        #[trigger] self@[k],
                    ) by {
                        if k < i {
                            assert(self@[k] == s[k]);
                        } else {
                            assert(self@[k] == s[k + 1]);
                        }
                    }
                }
                Ok(())
            },
            None => Err(StoreError::NotFound),
        }
    }
}

/// The collection without any entry of `feed_id`: the image of a cascading
/// feed delete.
pub open spec fn without_feed(s: Seq<EntryView>, feed_id: i64) -> Seq<EntryView>
    decreases s.len(),
{
    if s.len() == 0 {
        s
    } else if s[0].feed_id == feed_id {
        without_feed(s.drop_first(), feed_id)
    } else {
        seq![s[0]] + without_feed(s.drop_first(), feed_id)
    }
}

/// Purging a feed keeps storage order and well-formedness, keeps only rows
/// of other feeds, and invents no rows.
proof fn lemma_without_feed_wf(s: Seq<EntryView>, feed_id: i64)
    requires
        entries_wf(s),
    ensures
        entries_wf(without_feed(s, feed_id)),
        forall|k: int|
            0 <= k < without_feed(s, feed_id).len() ==> (#[trigger] without_feed(
                s,
                feed_id,
            )[k]).feed_id != feed_id,
        forall|k: int|
            0 <= k < without_feed(s, feed_id).len() ==> s.contains(
                #[trigger] without_feed(s, feed_id)[k],
            ),
    decreases s.len(),
{
    if s.len() > 0 {
        let rest = s.drop_first();
        assert(entries_wf(rest)) by {
            assert forall|a: int, b: int| 0 <= a < b < rest.len() implies rest[a].id
                < rest[b].id by {
                assert(rest[a] == s[a + 1] && rest[b] == s[b + 1]);
                assert(s[a + 1].id < s[b + 1].id);
            }
            assert forall|a: int| 0 <= a < rest.len() implies (#[trigger] rest[a].id) >= 1 by {
                assert(rest[a] == s[a + 1]);
                assert(s[a + 1].id >= 1);
            }
        }
        lemma_without_feed_wf(rest, feed_id);
        let w = without_feed(s, feed_id);
        let wr = without_feed(rest, feed_id);
        assert forall|k: int| 0 <= k < wr.len() implies s.contains(wr[k]) && wr[k].id > s[0].id
            && wr[k].id >= 1 by {
            assert(rest.contains(wr[k]));
            let j = choose|j: int| 0 <= j < rest.len() && rest[j] == wr[k];
            assert(s[j + 1] == wr[k]);
            assert(s[0].id < s[j + 1].id);
            assert(s[j + 1].id >= 1);
        }
        if s[0].feed_id != feed_id {
            assert(w == seq![s[0]] + wr);
            assert forall|a: int, b: int| 0 <= a < b < w.len() implies w[a].id < w[b].id by {
                if a == 0 {
                    assert(w[b] == wr[b - 1]);
                } else {
                    assert(w[a] == wr[a - 1] && w[b] == wr[b - 1]);
                    assert(wr[a - 1].id < wr[b - 1].id);
                }
            }
            assert forall|a: int| 0 <= a < w.len() implies (#[trigger] w[a].id) >= 1 by {
                if a > 0 {
                    assert(w[a] == wr[a - 1]);
                }
            }
        }
    }
}

/// The cursor value a pagination request starts from: the given last-seen
/// id, or 0 when none was given.
pub open spec fn spec_cursor(last_id: Option<i64>) -> i64 {
    match last_id {
        Some(v) => v,
        None => 0,
    }
}

/// Whether an administrative listing with the given filters returns `e`.
pub open spec fn admits(
    e: EntryView,
    feed_id: i64,
    after_id: i64,
    enabled: Option<bool>,
    valid_until: Option<Option<i64>>,
) -> bool {
    &&& e.feed_id == feed_id
    &&& e.id > after_id
    &&& match enabled {
        Some(b) => e.enabled == b,
        None => true,
    }
    &&& match valid_until {
        Some(cond) => match (cond, e.valid_until) {
            (Some(t), Some(u)) => u >= t,
            (Some(_), None) => false,
            (None, None) => true,
            (None, Some(_)) => false,
        },
        None => true,
    }
}

/// The first `quantity` entries an administrative listing returns, in
/// storage order.
pub open spec fn listed(
    s: Seq<EntryView>,
    feed_id: i64,
    after_id: i64,
    enabled: Option<bool>,
    valid_until: Option<Option<i64>>,
    quantity: int,
) -> Seq<EntryView>
    decreases s.len(),
{
    if s.len() == 0 || quantity <= 0 {
        Seq::empty()
    } else if admits(s[0], feed_id, after_id, enabled, valid_until) {
        seq![s[0]] + listed(s.drop_first(), feed_id, after_id, enabled, valid_until, quantity - 1)
    } else {
        listed(s.drop_first(), feed_id, after_id, enabled, valid_until, quantity)
    }
}

/// A lazy, forward-only, finite, non-restartable cursor over the active
/// values of one feed, in storage order.
pub struct ValueStream {
    pub feed_id: i64,
    pub cursor: usize,
}

impl ValueStream {
    /// Emits the next active value of the feed, or `None` once the
    /// collection is exhausted. The emitted prefix is pinned by
    /// `active_values` over the rows walked so far.
    pub fn next(&mut self, store: &EntryStore, now: i64) -> (r: Option<String>)
        requires
            old(self).cursor <= store@.len(),
        ensures
            final(self).feed_id == old(self).feed_id,
            old(self).cursor <= final(self).cursor <= store@.len(),
            match r {
                Some(v) => old(self).cursor < final(self).cursor && active_values(
                    store@.take(final(self).cursor as int),
                    old(self).feed_id,
                    now,
                ) == active_values(
                    store@.take(old(self).cursor as int),
                    old(self).feed_id,
                    now,
                ).push(v@),
                None => {
                    &&& final(self).cursor == store@.len()
                    &&& active_values(store@.take(final(self).cursor as int), old(self).feed_id, now)
                        == active_values(
                        store@.take(old(self).cursor as int),
                        old(self).feed_id,
                        now,
                    )
                },
            },
    {
        let ghost s = store@;
        let feed_id = self.feed_id;
        let mut i: usize = self.cursor;
        while i < store.entries.len()
            invariant
                old(self).cursor <= i <= store.entries.len(),
                s == store@,
                feed_id == old(self).feed_id,
                self == old(self),
                active_values(s.take(i as int), feed_id, now) == active_values(
                    s.take(old(self).cursor as int),
                    feed_id,
                    now,
                ),
            decreases store.entries.len() - i,
        {
            proof {
                assert(s[i as int] == store.entries@[i as int]@);
            }
            let e = &store.entries[i];
            let live = match e.valid_until {
                None => true,
                Some(t) => t >= now,
            };
            if e.feed_id == feed_id && e.enabled && live {
                let v = e.value.clone();
                self.cursor = i + 1;
                proof {
                    lemma_active_values_step(s, feed_id, now, i as int);
                }
                return Some(v);
            }
            proof {
                lemma_active_values_step(s, feed_id, now, i as int);
            }
            i = i + 1;
        }
        self.cursor = i;
        None
    }
}

/// Law: the active-value stream never walks a disabled or expired entry,
/// and walks each active entry of the feed exactly as often as it occurs in
/// the backing collection — under well-formedness (unique ids) exactly
/// once.
pub proof fn lemma_stream_exactly_active(s: Seq<EntryView>, feed_id: i64, now: i64)
    ensures
        forall|i: int|
            0 <= i < active_entries(s, feed_id, now).len() ==> emits(
                #[trigger] active_entries(s, feed_id, now)[i],
                feed_id,
                now,
            ),
        forall|e: EntryView|
            emits(e, feed_id, now) ==> active_entries(s, feed_id, now).to_multiset().count(e)
                == s.to_multiset().count(e),
        forall|e: EntryView|
            !emits(e, feed_id, now) ==> active_entries(s, feed_id, now).to_multiset().count(e) == 0,
        entries_wf(s) ==> forall|e: EntryView|
            emits(e, feed_id, now) && s.contains(e) ==> active_entries(
                s,
                feed_id,
                now,
            ).to_multiset().count(e) == 1,
    decreases s.len(),
{
    broadcast use vstd::seq_lib::group_to_multiset_ensures;

    let act = active_entries(s, feed_id, now);
    if s.len() == 0 {
        assert(act =~= Seq::<EntryView>::empty());
        assert(Seq::<EntryView>::empty().to_multiset() =~= Multiset::<EntryView>::empty());
    } else {
        let rest = s.drop_last();
        lemma_stream_exactly_active(rest, feed_id, now);
        assert(rest.push(s.last()) =~= s);
        if entries_wf(s) {
            assert(entries_wf(rest)) by {
                assert forall|a: int, b: int| 0 <= a < b < rest.len() implies rest[a].id
                    < rest[b].id by {
                    assert(s[a].id < s[b].id);
                }
                assert forall|a: int| 0 <= a < rest.len() implies (#[trigger] rest[a].id) >= 1 by {
                    assert(s[a].id >= 1);
                }
            }
            assert(s.no_duplicates()) by {
                assert forall|a: int, b: int|
                    0 <= a < s.len() && 0 <= b < s.len() && a != b implies s[a] != s[b] by {
                    if a < b {
                        assert(s[a].id < s[b].id);
                    } else {
                        assert(s[b].id < s[a].id);
                    }
                }
            }
            s.lemma_multiset_has_no_duplicates();
            assert forall|e: EntryView| emits(e, feed_id, now) && s.contains(e) implies act
                .to_multiset()
                .count(e) == 1 by {
                assert(s.to_multiset().count(e) > 0);
                assert(s.to_multiset().count(e) == 1);
            }
        }
    }
}

} // verus!
