//! The tag entity: one named process value.

use crate::strutil::push_char;
use vstd::prelude::*;

verus! {

/// Mathematical view of a tag: its four fields as character sequences.
pub ghost struct TagM {
    pub path: Seq<char>,
    pub name: Seq<char>,
    pub description: Seq<char>,
    pub value: Seq<char>,
}

/// A named process value.
///
/// `path` is a hierarchical identifier using `/` as separator and is the
/// unique key of a tag within a repository. `value` may change over time;
/// the other fields are fixed once loaded.
#[derive(Debug)]
pub struct Tag {
    pub path: String,
    pub name: String,
    pub description: String,
    pub value: String,
}

impl View for Tag {
    type V = TagM;

    open spec fn view(&self) -> TagM {
        TagM {
            path: self.path@,
            name: self.name@,
            description: self.description@,
            value: self.value@,
        }
    }
}

impl Clone for Tag {
    fn clone(&self) -> (r: Self)
        ensures
            r@ == self@,
    {
        Tag {
            path: self.path.clone(),
            name: self.name.clone(),
            description: self.description.clone(),
            value: self.value.clone(),
        }
    }
}

/// The views of a sequence of tags.
pub open spec fn tag_views(ts: Seq<Tag>) -> Seq<TagM> {
    ts.map_values(|t: Tag| t@)
}

/// A path with every `/` replaced by `.`.
pub open spec fn dotted(path: Seq<char>) -> Seq<char> {
    path.map_values(|c: char| if c == '/' { '.' } else { c })
}

/// The topic a tag is published to: `tags/` followed by the dotted path.
pub open spec fn topic_of(path: Seq<char>) -> Seq<char> {
    "tags/"@ + dotted(path)
}

impl Tag {
    /// Creates a new tag with the given properties.
    pub fn new(path: String, name: String, description: String, value: String) -> (r: Self)
        ensures
            r@ == (TagM { path: path@, name: name@, description: description@, value: value@ }),
    {
        Self { path, name, description, value }
    }

    /// Replaces the value of the tag and returns the previous value; every
    /// other field is left unchanged.
    pub fn update_value(&mut self, new_value: String) -> (r: String)
        ensures
            final(self)@ == (TagM { value: new_value@, ..old(self)@ }),
            r@ == old(self)@.value,
    {
        let old_value = self.value.clone();
        self.value = new_value;
        old_value
    }

    /// Derives the topic this tag is published to: `tags/` followed by the
    /// path with every `/` replaced by `.`.
    pub fn to_mqtt_topic(&self) -> (r: String)
        ensures
            r@ == topic_of(self@.path),
    {
        let mut out = String::from_str("tags/");
        let s = self.path.as_str();
        let n = s.unicode_len();
        let mut i: usize = 0;
        while i < n
            invariant
                n == s@.len(),
                s@ == self@.path,
                i <= n,
                out@ == "tags/"@ + dotted(s@.take(i as int)),
            decreases n - i,
        {
            let c = s.get_char(i);
            if c == '/' {
                push_char(&mut out, '.');
            } else {
                push_char(&mut out, c);
            }
            i = i + 1;
            proof {
                assert(out@ =~= "tags/"@ + dotted(s@.take(i as int)));
            }
        }
        proof {
            assert(s@.take(n as int) =~= s@);
        }
        out
    }
}

} // verus!
