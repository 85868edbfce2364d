use vstd::prelude::*;

use crate::keys::{byte_views, copy_bytes, strictly_sorted};
use crate::paging::{lemma_enumeration_complete, served_correctly, PaginatedEnumerator};

verus! {

/// One key/value pair read from storage.  An absent value means the key had
/// no value at the query point; that should not happen for keys just
/// listed, but it is tolerated.
#[derive(Debug)]
pub struct StorageEntry {
    pub key: Vec<u8>,
    pub value: Option<Vec<u8>>,
}

/// The view of an optional byte vector.
pub open spec fn opt_bytes_view(o: Option<Vec<u8>>) -> Option<Seq<u8>> {
    match o {
        None => None,
        Some(b) => Some(b@),
    }
}

/// The view of a collector slot that has received its value.
pub open spec fn slot_view(slot: Option<Option<Vec<u8>>>) -> Option<Seq<u8>> {
    match slot {
        None => None,
        Some(v) => opt_bytes_view(v),
    }
}

impl StorageEntry {
    /// The entry as a pair of plain values.
    pub open spec fn view_pair(&self) -> (Seq<u8>, Option<Seq<u8>>) {
        (self.key@, opt_bytes_view(self.value))
    }
}

/// The views of a list of entries.
pub open spec fn entry_views(s: Seq<StorageEntry>) -> Seq<(Seq<u8>, Option<Seq<u8>>)> {
    s.map_values(|e: StorageEntry| e.view_pair())
}

/// Joins the values read for a fixed list of member keys into entries.
///
/// The value reads are issued concurrently and may complete in any order;
/// each response is slotted by the index of its key, so the aggregate is
/// independent of arrival order.
pub struct EntryCollector {
    pub keys: Vec<Vec<u8>>,
    pub values: Vec<Option<Option<Vec<u8>>>>,
}

impl EntryCollector {
    pub open spec fn wf(&self) -> bool {
        self.values@.len() == self.keys@.len()
    }

    /// Every slot has received its value.
    pub open spec fn complete(&self) -> bool {
        forall|i: int| 0 <= i < self.values@.len() ==> (#[trigger] self.values@[i]) is Some
    }

    /// A collector for the given member keys, with every value still
    /// outstanding.
    pub fn new(keys: Vec<Vec<u8>>) -> (r: Self)
        ensures
            r.wf(),
            r.keys == keys,
            r.values@.len() == keys@.len(),
            forall|i: int| 0 <= i < r.values@.len() ==> (#[trigger] r.values@[i]) is None,
    {
        let mut values: Vec<Option<Option<Vec<u8>>>> = Vec::new();
        let mut i: usize = 0;
        while i < keys.len()
            invariant
                i == values@.len() <= keys@.len(),
                forall|j: int| 0 <= j < values@.len() ==> (#[trigger] values@[j]) is None,
            decreases keys@.len() - i,
        {
            values.push(None);
            i = i + 1;
        }
        EntryCollector { keys, values }
    }

    pub fn key_count(&self) -> (r: usize)
        requires
            self.wf(),
        ensures
            r == self.keys@.len(),
    {
        self.keys.len()
    }

    /// The member key whose value should be requested for slot `i`.
    pub fn key_at(&self, i: usize) -> (r: &Vec<u8>)
        requires
            self.wf(),
            i < self.keys@.len(),
        ensures
            r@ == self.keys@[i as int]@,
    {
        &self.keys[i]
    }

    /// Whether slot `i` still awaits its value.
    pub fn is_pending(&self, i: usize) -> (r: bool)
        requires
            self.wf(),
            i < self.values@.len(),
        ensures
            r == (self.values@[i as int] is None),
    {
        self.values[i].is_none()
    }

    /// Record the value that arrived for member key `i`.  Slots are filled
    /// once; all other slots are untouched, so the outcome does not depend
    /// on the order in which responses arrive.
    pub fn supply(&mut self, i: usize, value: Option<Vec<u8>>)
        requires
            old(self).wf(),
            i < old(self).values@.len(),
            old(self).values@[i as int] is None,
        ensures
            final(self).wf(),
            final(self).keys == old(self).keys,
            final(self).values@ == old(self).values@.update(i as int, Some(value)),
    {
        self.values[i] = Some(value);
    }

    /// Whether every value has arrived.
    pub fn is_complete(&self) -> (r: bool)
        requires
            self.wf(),
        ensures
            r == self.complete(),
    {
        let mut i: usize = 0;
        while i < self.values.len()
            invariant
                i <= self.values@.len(),
                forall|j: int| 0 <= j < i ==> (#[trigger] self.values@[j]) is Some,
            decreases self.values@.len() - i,
        {
            if self.values[i].is_none() {
                return false;
            }
            i = i + 1;
        }
        true
    }

    /// The member entries in listing order: each key paired with the value
    /// supplied for it.
    pub fn entries(&self) -> (r: Vec<StorageEntry>)
        requires
            self.wf(),
            self.complete(),
        ensures
            r@.len() == self.keys@.len(),
            forall|i: int|
                0 <= i < r@.len() ==> (#[trigger] r@[i]).key@ == self.keys@[i]@ && opt_bytes_view(
                    r@[i].value,
                ) == slot_view(self.values@[i]),
    {
        let mut r: Vec<StorageEntry> = Vec::new();
        let mut i: usize = 0;
        while i < self.keys.len()
            invariant
                self.wf(),
                self.complete(),
                i == r@.len() <= self.keys@.len(),
                forall|j: int|
                    0 <= j < r@.len() ==> (#[trigger] r@[j]).key@ == self.keys@[j]@
                        && opt_bytes_view(r@[j].value) == slot_view(self.values@[j]),
            decreases self.keys@.len() - i,
        {
            let key = copy_bytes(&self.keys[i]);
            let value = match &self.values[i] {
                Some(v) => match v {
                    Some(bytes) => Some(copy_bytes(bytes)),
                    None => None,
                },
                None => None,
            };
            r.push(StorageEntry { key, value });
            i = i + 1;
        }
        r
    }
}

/// What an association list records under namespace key `ns`: the views of
/// the first entry list stored for it, if any.
pub open spec fn lookup_in(
    s: Seq<(Vec<u8>, Vec<StorageEntry>)>,
    ns: Seq<u8>,
) -> Option<Seq<(Seq<u8>, Option<Seq<u8>>)>>
    decreases s.len(),
{
    if s.len() == 0 {
        None
    } else if s[0].0@ == ns {
        Some(entry_views(s[0].1@))
    } else {
        lookup_in(s.drop_first(), ns)
    }
}

proof fn lemma_lookup_push(
    s: Seq<(Vec<u8>, Vec<StorageEntry>)>,
    p: (Vec<u8>, Vec<StorageEntry>),
    ns: Seq<u8>,
)
    ensures
        lookup_in(s.push(p), ns) == if lookup_in(s, ns) is Some {
            lookup_in(s, ns)
        } else if p.0@ == ns {
            Some(entry_views(p.1@))
        } else {
            None
        },
    decreases s.len(),
{
    if s.len() == 0 {
        assert(lookup_in(s, ns) is None);
        assert(s.push(p)[0] == p);
        assert(s.push(p).drop_first() =~= Seq::<(Vec<u8>, Vec<StorageEntry>)>::empty());
        assert(lookup_in(s.push(p).drop_first(), ns) is None);
    } else {
        assert(s.push(p)[0] == s[0]);
        assert(s.push(p).drop_first() =~= s.drop_first().push(p));
        lemma_lookup_push(s.drop_first(), p, ns);
        assert(lookup_in(s.push(p), ns) == if s[0].0@ == ns {
            Some(entry_views(s[0].1@))
        } else {
            lookup_in(s.drop_first().push(p), ns)
        });
        assert(lookup_in(s, ns) == if s[0].0@ == ns {
            Some(entry_views(s[0].1@))
        } else {
            lookup_in(s.drop_first(), ns)
        });
    }
}

/// The aggregate of a child-trie fetch: each child-trie namespace key,
/// mapped to the ordered key/value entries found inside that namespace.
/// Namespace keys are unique; the map imposes no order across namespaces.
pub struct ChildTrieMap {
    pub entries: Vec<(Vec<u8>, Vec<StorageEntry>)>,
}

impl ChildTrieMap {
    /// What the map records under `ns`.
    pub open spec fn lookup(&self, ns: Seq<u8>) -> Option<Seq<(Seq<u8>, Option<Seq<u8>>)>> {
        lookup_in(self.entries@, ns)
    }

    /// An empty map.
    pub fn new() -> (r: Self)
        ensures
            r.entries@.len() == 0,
            forall|ns: Seq<u8>| #[trigger] r.lookup(ns) is None,
    {
        ChildTrieMap { entries: Vec::new() }
    }

    /// How many namespaces the map holds.
    pub fn namespace_count(&self) -> (r: usize)
        ensures
            r == self.entries@.len(),
    {
        self.entries.len()
    }

    /// The entries recorded for `ns`, if that namespace is present.
    pub fn get_namespace(&self, ns: &Vec<u8>) -> (r: Option<&Vec<StorageEntry>>)
        ensures
            match r {
                None => self.lookup(ns@) is None,
                Some(es) => self.lookup(ns@) == Some(entry_views(es@)),
            },
    {
        let mut i: usize = 0;
        proof {
            assert(self.entries@.skip(0) =~= self.entries@);
        }
        while i < self.entries.len()
            invariant
                i <= self.entries@.len(),
                lookup_in(self.entries@, ns@) == lookup_in(
                    self.entries@.skip(i as int),
                    ns@,
                ),
            decreases self.entries@.len() - i,
        {
            proof {
                assert(self.entries@.skip(i as int)[0] == self.entries@[i as int]);
                assert(self.entries@.skip(i as int).drop_first() =~= self.entries@.skip(i + 1));
            }
            if bytes_eq(&self.entries[i].0, ns) {
                return Some(&self.entries[i].1);
            }
            i = i + 1;
        }
        proof {
            assert(self.entries@.skip(self.entries@.len() as int).len() == 0);
        }
        None
    }

    /// Record the entries fetched for namespace `ns`.  Returns whether the
    /// namespace was new; an already-present namespace leaves the map
    /// unchanged.
    pub fn insert_namespace(&mut self, ns: Vec<u8>, entries: Vec<StorageEntry>) -> (r: bool)
        ensures
            r == (old(self).lookup(ns@) is None),
            r ==> final(self).lookup(ns@) == Some(entry_views(entries@)),
            !r ==> *final(self) == *old(self),
            forall|other: Seq<u8>|
                other != ns@ ==> #[trigger] final(self).lookup(other) == old(self).lookup(other),
    {
        let present = {
            let got = self.get_namespace(&ns);
            got.is_some()
        };
        if present {
            return false;
        }
        proof {
            let ghost prev = self.entries@;
            assert forall|other: Seq<u8>| true implies #[trigger] lookup_in(
                prev.push((ns, entries)),
                other,
            ) == if lookup_in(prev, other) is Some {
                lookup_in(prev, other)
            } else if ns@ == other {
                Some(entry_views(entries@))
            } else {
                None
            } by {
                lemma_lookup_push(prev, (ns, entries), other);
            }
        }
        self.entries.push((ns, entries));
        true
    }
}

/// Byte-vector equality.
pub fn bytes_eq(a: &Vec<u8>, b: &Vec<u8>) -> (r: bool)
    ensures
        r == (a@ == b@),
{
    let r = a == b;
    proof {
        if r {
            assert(a@ =~= b@);
        }
    }
    r
}

/// Child-trie round trip.  Suppose the member keys of one namespace were
/// enumerated to exhaustion with pages that were correct for the sorted
/// member list `u`, a collector over exactly those keys received one value
/// per key (in whatever order), and the collector's entries were recorded
/// in a map under the namespace key.  Then the map records, under that
/// namespace, exactly the listed member keys, in listing order, each paired
/// with the value supplied for it.
pub proof fn lemma_child_trie_round_trip(
    e: &PaginatedEnumerator,
    c: &EntryCollector,
    entries: Seq<StorageEntry>,
    m: &ChildTrieMap,
    ns: Seq<u8>,
    u: Seq<Seq<u8>>,
)
    requires
        e.wf(),
        e.spec_finished(),
        strictly_sorted(u),
        served_correctly(e.spec_pages(), u, e.spec_page_size() as int),
        c.wf(),
        c.complete(),
        byte_views(c.keys@) == e.spec_keys(),
        entries.len() == c.keys@.len(),
        forall|i: int|
            0 <= i < entries.len() ==> (#[trigger] entries[i]).key@ == c.keys@[i]@
                && opt_bytes_view(entries[i].value) == slot_view(c.values@[i]),
        m.lookup(ns) == Some(entry_views(entries)),
    ensures
        m.lookup(ns) matches Some(recorded) && recorded.len() == u.len() && forall|i: int|
            0 <= i < u.len() ==> #[trigger] recorded[i] == (u[i], slot_view(c.values@[i])),
{
    lemma_enumeration_complete(e, u);
    let recorded = entry_views(entries);
    assert(byte_views(c.keys@) == u);
    assert(recorded.len() == u.len());
    assert forall|i: int| 0 <= i < u.len() implies #[trigger] recorded[i] == (
        u[i],
        slot_view(c.values@[i]),
    ) by {
        assert(entries[i].key@ == c.keys@[i]@);
        assert(byte_views(c.keys@)[i] == c.keys@[i]@);
        assert(recorded[i] == entries[i].view_pair());
    }
}

} // verus!
