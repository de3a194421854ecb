//! The tag repository: owner of the authoritative tag set.

use crate::codec::{database_to_json, db_json, load_doc, parse_database};
use crate::error::UnsError;
use crate::tag::{Tag, TagM};
use crate::tag_map::{spec_get, spec_update, EntryM, TagMap};
use vstd::prelude::*;

verus! {

/// Data access for the authoritative tag set.
///
/// The repository exclusively owns the mapping from key to tag; callers
/// receive copies, never the stored map itself. Each method says exactly
/// what it reads or replaces in terms of [`TagRepository::tags`], the stored
/// entry sequence. An implementation describes its state by overriding
/// [`TagRepository::tags`]; the defaults are for implementations outside
/// this crate, whose state is not modelled.
pub trait TagRepository {
    /// The stored entries, in order.
    open spec fn tags(&self) -> Seq<EntryM> {
        Seq::empty()
    }

    /// The representation invariant: no two stored entries share a key.
    open spec fn inv(&self) -> bool {
        true
    }

    /// Replaces the entire stored set with the contents of `source`, a tag
    /// document, and returns the new set. On a malformed document — or one
    /// holding a key twice — the stored set is untouched and the error is
    /// `Serialization`.
    fn load_tags(&mut self, source: &str) -> (r: Result<TagMap, UnsError>)
        ensures
            (match r {
                Ok(m) => load_doc(source@) == Some(m@) && final(self).tags() == m@ && m.wf()
                    && final(self).inv(),
                Err(e) => load_doc(source@) is None && final(self).tags() == old(self).tags()
                    && old(self).inv() == final(self).inv() && e is Serialization,
            }),
    ;

    /// Serializes the given set as a tag document; the caller decides where
    /// the text is stored.
    fn save_tags(&self, tags: &TagMap) -> (r: String)
        ensures
            r@ == db_json(tags@),
    ;

    /// Point lookup: a copy of the tag stored under `path`, or `None` — not
    /// an error — when the path is absent.
    fn get_tag(&self, path: &str) -> (r: Result<Option<Tag>, UnsError>)
        ensures
            (match r {
                Ok(Some(t)) => spec_get(self.tags(), path@) == Some(t@),
                Ok(None) => spec_get(self.tags(), path@) is None,
                Err(_) => false,
            }),
    ;

    /// Replaces the value of the tag stored under `path` and returns the
    /// updated tag, every other field unchanged. Fails with `NotFound` —
    /// unlike `get_tag` — when the path is absent, leaving the set
    /// untouched.
    fn update_tag(&mut self, path: &str, value: String) -> (r: Result<Option<Tag>, UnsError>)
        ensures
            old(self).inv() ==> final(self).inv(),
            (match spec_get(old(self).tags(), path@) {
                Some(t) => final(self).tags() == spec_update(old(self).tags(), path@, value@)
                    && (r matches Ok(Some(rt)) && rt@ == (TagM { value: value@, ..t })),
                None => final(self).tags() == old(self).tags() && (r matches Err(e)
                    && e is NotFound),
            }),
    ;

    /// A copy of the entire stored set; mutating it does not affect the
    /// stored state.
    fn get_all_tags(&self) -> (r: Result<TagMap, UnsError>)
        ensures
            (match r {
                Ok(m) => m@ == self.tags(),
                Err(_) => false,
            }),
    ;

    /// A repository over the same stored set, for handing storage to
    /// another owner.
    fn duplicate(&self) -> (r: Self) where Self: Sized
        ensures
            r.tags() == self.tags(),
            r.inv() == self.inv(),
    ;
}

/// The tag-document-backed repository: an in-memory tag map loaded from and
/// saved to JSON text.
#[derive(Debug)]
pub struct JsonTagRepository {
    tags: TagMap,
}

impl JsonTagRepository {
    /// Creates an empty repository.
    pub fn new() -> (r: Self)
        ensures
            r.inv(),
            r.tags() == Seq::<EntryM>::empty(),
    {
        JsonTagRepository { tags: TagMap::new() }
    }

    /// Creates a repository over a pre-loaded tag set.
    pub fn with_tags(tags: TagMap) -> (r: Self)
        requires
            tags.wf(),
        ensures
            r.inv(),
            r.tags() == tags@,
    {
        JsonTagRepository { tags }
    }
}

impl Clone for JsonTagRepository {
    fn clone(&self) -> (r: Self)
        ensures
            r.tags() == self.tags(),
            r.inv() == self.inv(),
    {
        JsonTagRepository { tags: self.tags.clone() }
    }
}

impl TagRepository for JsonTagRepository {
    closed spec fn tags(&self) -> Seq<EntryM> {
        self.tags@
    }

    closed spec fn inv(&self) -> bool {
        self.tags.wf()
    }

    fn load_tags(&mut self, source: &str) -> (r: Result<TagMap, UnsError>) {
        match parse_database(source) {
            Ok(m) => {
                self.tags = m.clone();
                Ok(m)
            },
            Err(e) => Err(e),
        }
    }

    fn save_tags(&self, tags: &TagMap) -> (r: String) {
        database_to_json(tags)
    }

    fn get_tag(&self, path: &str) -> (r: Result<Option<Tag>, UnsError>) {
        match self.tags.get(path) {
            Some(t) => Ok(Some(t.clone())),
            None => Ok(None),
        }
    }

    fn update_tag(&mut self, path: &str, value: String) -> (r: Result<Option<Tag>, UnsError>) {
        match self.tags.set_value(path, value) {
            Some(t) => Ok(Some(t)),
            None => Err(
                UnsError::NotFound(String::from_str("Tag not found: ").concat(path)),
            ),
        }
    }

    fn get_all_tags(&self) -> (r: Result<TagMap, UnsError>) {
        Ok(self.tags.clone())
    }

    fn duplicate(&self) -> (r: Self) {
        self.clone()
    }
}

} // verus!
