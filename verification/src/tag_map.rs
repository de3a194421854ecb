//! An ordered mapping from key to tag, backed by a vector of entries.
//!
//! The repository stores its authoritative tag set in a [`TagMap`]; snapshots
//! handed to callers are maps of the same type. Entry order is preserved, so
//! publication order is deterministic. A well-formed map has pairwise
//! distinct keys.

use crate::strutil::str_eq;
use crate::tag::{Tag, TagM};
use vstd::prelude::*;

verus! {

/// One entry of a tag map: the lookup key and the tag record stored under it.
///
/// In a well-formed document the key equals the tag's `path`, but the mapping
/// is keyed by the document key, which is kept separately.
#[derive(Debug)]
pub struct TagEntry {
    pub key: String,
    pub tag: Tag,
}

/// Mathematical view of one entry.
pub ghost struct EntryM {
    pub key: Seq<char>,
    pub tag: TagM,
}

impl View for TagEntry {
    type V = EntryM;

    open spec fn view(&self) -> EntryM {
        EntryM { key: self.key@, tag: self.tag@ }
    }
}

impl Clone for TagEntry {
    fn clone(&self) -> (r: Self)
        ensures
            r@ == self@,
    {
        TagEntry { key: self.key.clone(), tag: self.tag.clone() }
    }
}

/// The views of a sequence of entries.
pub open spec fn entry_views(s: Seq<TagEntry>) -> Seq<EntryM> {
    s.map_values(|e: TagEntry| e@)
}

/// The tags of an entry sequence, in entry order.
pub open spec fn tags_of(es: Seq<EntryM>) -> Seq<TagM> {
    es.map_values(|e: EntryM| e.tag)
}

/// No two entries share a key.
pub open spec fn unique_keys(es: Seq<EntryM>) -> bool {
    forall|i: int, j: int| 0 <= i < j < es.len() ==> es[i].key != es[j].key
}

/// First-match lookup: the tag stored under `k`, if any.
pub open spec fn spec_get(es: Seq<EntryM>, k: Seq<char>) -> Option<TagM>
    decreases es.len(),
{
    if es.len() == 0 {
        None
    } else if es[0].key == k {
        Some(es[0].tag)
    } else {
        spec_get(es.drop_first(), k)
    }
}

/// First-match update of the value stored under `k`; the identity where `k`
/// is absent. Keys, entry order and every other field are unchanged.
pub open spec fn spec_update(es: Seq<EntryM>, k: Seq<char>, v: Seq<char>) -> Seq<EntryM>
    decreases es.len(),
{
    if es.len() == 0 {
        es
    } else if es[0].key == k {
        seq![EntryM { key: es[0].key, tag: TagM { value: v, ..es[0].tag } }] + es.drop_first()
    } else {
        seq![es[0]] + spec_update(es.drop_first(), k, v)
    }
}

/// The map described by an entry sequence (first match wins).
pub open spec fn map_of(es: Seq<EntryM>) -> Map<Seq<char>, TagM> {
    Map::new(|k: Seq<char>| spec_get(es, k) is Some, |k: Seq<char>| spec_get(es, k)->Some_0)
}

/// A lookup succeeds exactly when some entry holds the key.
pub proof fn lemma_get_some_iff_has(es: Seq<EntryM>, k: Seq<char>)
    ensures
        spec_get(es, k) is Some <==> exists|i: int| 0 <= i < es.len() && es[i].key == k,
    decreases es.len(),
{
    if es.len() > 0 {
        lemma_get_some_iff_has(es.drop_first(), k);
        if es[0].key != k {
            if spec_get(es, k) is Some {
                let i = choose|i: int|
                    0 <= i < es.drop_first().len() && es.drop_first()[i].key == k;
                assert(es[i + 1].key == k);
            }
            if exists|i: int| 0 <= i < es.len() && es[i].key == k {
                let i = choose|i: int| 0 <= i < es.len() && es[i].key == k;
                assert(es.drop_first()[i - 1].key == k);
            }
        }
    }
}

/// At the first index holding `k`, lookup returns that entry's tag and an
/// update rewrites exactly that position.
pub proof fn lemma_first_match(es: Seq<EntryM>, k: Seq<char>, v: Seq<char>, i: int)
    requires
        0 <= i < es.len(),
        es[i].key == k,
        forall|j: int| 0 <= j < i ==> es[j].key != k,
    ensures
        spec_get(es, k) == Some(es[i].tag),
        spec_update(es, k, v) =~= es.update(
            i,
            EntryM { key: es[i].key, tag: TagM { value: v, ..es[i].tag } },
        ),
    decreases es.len(),
{
    if i > 0 {
        lemma_first_match(es.drop_first(), k, v, i - 1);
        assert(spec_update(es, k, v) =~= seq![es[0]] + spec_update(es.drop_first(), k, v));
    }
}

/// Law: an update touches exactly the entry stored under the updated key.
/// Looking anything up afterwards finds the new value under that key, with
/// every other field kept, and exactly what was there before under every
/// other key; where the key is absent the update is the identity.
pub proof fn lemma_update_semantics(es: Seq<EntryM>, k: Seq<char>, v: Seq<char>, q: Seq<char>)
    ensures
        spec_get(es, k) is None ==> spec_update(es, k, v) == es,
        spec_get(es, k) matches Some(t) ==> (q == k ==> spec_get(spec_update(es, k, v), q)
            == Some(TagM { value: v, ..t })),
        q != k ==> spec_get(spec_update(es, k, v), q) == spec_get(es, q),
        spec_update(es, k, v).len() == es.len(),
    decreases es.len(),
{
    if es.len() > 0 {
        lemma_update_semantics(es.drop_first(), k, v, q);
        if es[0].key == k {
            assert(spec_update(es, k, v).drop_first() =~= es.drop_first());
        } else {
            assert(spec_update(es, k, v).drop_first() =~= spec_update(es.drop_first(), k, v));
            if spec_get(es, k) is None {
                assert(spec_update(es, k, v) =~= es);
            }
        }
    }
}

/// An ordered mapping from key to tag.
///
/// Entry order is insertion order; lookups return the first match. A
/// well-formed map ([`TagMap::wf`]) has pairwise distinct keys, which every
/// operation of this type preserves.
#[derive(Debug)]
pub struct TagMap {
    pub entries: Vec<TagEntry>,
}

impl View for TagMap {
    type V = Seq<EntryM>;

    open spec fn view(&self) -> Seq<EntryM> {
        entry_views(self.entries@)
    }
}

impl Clone for TagMap {
    fn clone(&self) -> (r: Self)
        ensures
            r@ == self@,
    {
        let mut entries: Vec<TagEntry> = Vec::new();
        let mut i: usize = 0;
        while i < self.entries.len()
            invariant
                i <= self.entries@.len(),
                entries@.len() == i,
                forall|j: int| 0 <= j < i ==> entries@[j]@ == self.entries@[j]@,
            decreases self.entries@.len() - i,
        {
            entries.push(self.entries[i].clone());
            i = i + 1;
        }
        proof {
            assert(entry_views(entries@) =~= entry_views(self.entries@));
        }
        TagMap { entries }
    }
}

impl TagMap {
    /// Pairwise distinct keys.
    pub open spec fn wf(&self) -> bool {
        unique_keys(self@)
    }

    /// Creates an empty map.
    pub fn new() -> (r: Self)
        ensures
            r@ == Seq::<EntryM>::empty(),
            r.wf(),
    {
        proof {
            assert(entry_views(Seq::<TagEntry>::empty()) =~= Seq::<EntryM>::empty());
        }
        TagMap { entries: Vec::new() }
    }

    /// The number of entries.
    pub fn len(&self) -> (r: usize)
        ensures
            r == self@.len(),
    {
        self.entries.len()
    }

    /// The position of the first entry holding `key`, if any.
    pub fn index_of(&self, key: &str) -> (r: Option<usize>)
        ensures
            (match r {
                Some(i) => i < self@.len() && self@[i as int].key == key@ && (forall|j: int|
                    0 <= j < i ==> self@[j].key != key@),
                None => forall|j: int| 0 <= j < self@.len() ==> self@[j].key != key@,
            }),
    {
        let mut i: usize = 0;
        while i < self.entries.len()
            invariant
                i <= self@.len(),
                forall|j: int| 0 <= j < i ==> self@[j].key != key@,
            decreases self@.len() - i,
        {
            if str_eq(self.entries[i].key.as_str(), key) {
                return Some(i);
            }
            i = i + 1;
        }
        None
    }

    /// Whether a tag is stored under `key`.
    pub fn contains_key(&self, key: &str) -> (r: bool)
        ensures
            r == (spec_get(self@, key@) is Some),
    {
        proof {
            lemma_get_some_iff_has(self@, key@);
        }
        self.index_of(key).is_some()
    }

    /// First-match lookup of the tag stored under `key`.
    pub fn get(&self, key: &str) -> (r: Option<&Tag>)
        ensures
            (match r {
                Some(t) => spec_get(self@, key@) == Some(t@),
                None => spec_get(self@, key@) is None,
            }),
    {
        proof {
            lemma_get_some_iff_has(self@, key@);
        }
        match self.index_of(key) {
            Some(i) => {
                proof {
                    lemma_first_match(self@, key@, Seq::<char>::empty(), i as int);
                }
                Some(&self.entries[i].tag)
            },
            None => None,
        }
    }

    /// Appends an entry; requires the key to be absent, so entry order and
    /// well-formedness are preserved.
    pub fn push_entry(&mut self, key: String, tag: Tag)
        requires
            spec_get(old(self)@, key@) is None,
        ensures
            final(self)@ == old(self)@.push(EntryM { key: key@, tag: tag@ }),
            old(self).wf() ==> final(self).wf(),
    {
        let ghost k = key@;
        let ghost t = tag@;
        proof {
            lemma_get_some_iff_has(old(self)@, k);
        }
        self.entries.push(TagEntry { key, tag });
        proof {
            assert(self@ =~= old(self)@.push(EntryM { key: k, tag: t }));
        }
    }

    /// Stores `tag` under `key`: replaces the first entry holding `key`, or
    /// appends a new entry when the key is absent. Under a well-formed map
    /// this is exactly map insertion.
    pub fn insert(&mut self, key: String, tag: Tag)
        ensures
            (match spec_get(old(self)@, key@) {
                Some(_) => exists|i: int|
                    {
                        &&& 0 <= i < old(self)@.len()
                        &&& old(self)@[i].key == key@
                        &&& (forall|j: int| 0 <= j < i ==> old(self)@[j].key != key@)
                        &&& final(self)@ == old(self)@.update(
                            i,
                            EntryM { key: key@, tag: tag@ },
                        )
                    },
                None => final(self)@ == old(self)@.push(EntryM { key: key@, tag: tag@ }),
            }),
            old(self).wf() ==> final(self).wf(),
    {
        let ghost k = key@;
        let ghost t = tag@;
        proof {
            lemma_get_some_iff_has(old(self)@, k);
        }
        match self.index_of(key.as_str()) {
            Some(i) => {
                self.entries[i] = TagEntry { key, tag };
                proof {
                    assert(self@ =~= old(self)@.update(i as int, EntryM { key: k, tag: t }));
                }
            },
            None => {
                self.entries.push(TagEntry { key, tag });
                proof {
                    assert(self@ =~= old(self)@.push(EntryM { key: k, tag: t }));
                }
            },
        }
    }

    /// Replaces the value of the tag stored under `key` and returns a copy of
    /// the updated tag; returns `None` and leaves the map unchanged when the
    /// key is absent. No other entry and no other field is touched.
    pub fn set_value(&mut self, key: &str, value: String) -> (r: Option<Tag>)
        ensures
            (match spec_get(old(self)@, key@) {
                Some(t) => {
                    &&& final(self)@ == spec_update(old(self)@, key@, value@)
                    &&& r matches Some(rt) && rt@ == (TagM { value: value@, ..t })
                },
                None => final(self)@ == old(self)@ && r is None,
            }),
            old(self).wf() ==> final(self).wf(),
    {
        let ghost v = value@;
        proof {
            lemma_get_some_iff_has(old(self)@, key@);
        }
        match self.index_of(key) {
            Some(i) => {
                proof {
                    lemma_first_match(old(self)@, key@, v, i as int);
                }
                self.entries[i].tag.value = value;
                proof {
                    assert(self@ =~= old(self)@.update(
                        i as int,
                        EntryM {
                            key: old(self)@[i as int].key,
                            tag: TagM { value: v, ..old(self)@[i as int].tag },
                        },
                    ));
                    assert(unique_keys(old(self)@) ==> unique_keys(self@)) by {
                        assert(forall|j: int|
                            0 <= j < self@.len() ==> self@[j].key == old(self)@[j].key);
                    }
                }
                Some(self.entries[i].tag.clone())
            },
            None => {
                proof {
                    lemma_get_some_iff_has(old(self)@, key@);
                }
                None
            },
        }
    }

    /// Copies of the stored tags, in entry order.
    pub fn values(&self) -> (r: Vec<Tag>)
        ensures
            crate::tag::tag_views(r@) == tags_of(self@),
    {
        let mut out: Vec<Tag> = Vec::new();
        let mut i: usize = 0;
        while i < self.entries.len()
            invariant
                i <= self@.len(),
                out@.len() == i,
                forall|j: int| 0 <= j < i ==> out@[j]@ == self@[j].tag,
            decreases self@.len() - i,
        {
            out.push(self.entries[i].tag.clone());
            i = i + 1;
        }
        proof {
            assert(crate::tag::tag_views(out@) =~= tags_of(self@));
        }
        out
    }

    /// Builds a map from a sequence of entries, refusing duplicate keys.
    pub fn from_entries(entries: Vec<TagEntry>) -> (r: Option<TagMap>)
        ensures
            (match r {
                Some(m) => m@ == entry_views(entries@) && m.wf(),
                None => !unique_keys(entry_views(entries@)),
            }),
    {
        let mut m = TagMap::new();
        let mut i: usize = 0;
        while i < entries.len()
            invariant
                i <= entries@.len(),
                m@ == entry_views(entries@.take(i as int)),
                m.wf(),
            decreases entries@.len() - i,
        {
            let e = entries[i].clone();
            if m.contains_key(e.key.as_str()) {
                proof {
                    lemma_get_some_iff_has(m@, e.key@);
                    let j = choose|j: int| 0 <= j < m@.len() && m@[j].key == e.key@;
                    assert(entry_views(entries@)[j] == m@[j]);
                    assert(entry_views(entries@)[i as int].key == e.key@);
                    assert(!unique_keys(entry_views(entries@)));
                }
                return None;
            }
            m.push_entry(e.key, e.tag);
            i = i + 1;
            proof {
                assert(m@ =~= entry_views(entries@.take(i as int)));
            }
        }
        proof {
            assert(entries@.take(entries@.len() as int) =~= entries@);
        }
        Some(m)
    }
}

} // verus!
