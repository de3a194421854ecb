//! The tag service: orchestration of repository and publisher.
//!
//! The two multi-step operations are not transactions: a failure at any step
//! aborts the remaining steps, surfaces the error unchanged, and rolls
//! nothing back. The contracts below state exactly which messages have been
//! published and what the stored set holds in every outcome.

use crate::codec::load_doc;
use crate::error::UnsError;
use crate::publisher::{db_msg, tag_msg, tag_msgs, MqttPublisher, MsgM, TagDatabase};
use crate::repository::TagRepository;
use crate::tag::{Tag, TagM};
use crate::tag_map::{spec_get, spec_update, tags_of, EntryM, TagMap};
use vstd::prelude::*;

verus! {

/// Tag operations as the command layer sees them.
pub trait TagService {
    /// The authoritative entries, in order.
    open spec fn tags(&self) -> Seq<EntryM> {
        Seq::empty()
    }

    /// Every message published so far, oldest first.
    open spec fn published(&self) -> Seq<MsgM> {
        Seq::empty()
    }

    /// The representation invariant of the underlying storage.
    open spec fn inv(&self) -> bool {
        true
    }

    /// Loads tags from `source`, replacing the authoritative set, then
    /// publishes every loaded tag individually — in order — and finally the
    /// aggregate snapshot. If loading fails, nothing is published and the
    /// error is propagated unchanged; if publishing fails partway, the
    /// remaining steps do not run.
    fn load_and_publish_tags(&mut self, source: &str) -> (r: Result<(), UnsError>)
        ensures
            old(self).inv() ==> final(self).inv(),
            (match r {
                Ok(_) => load_doc(source@) matches Some(es) && final(self).tags() == es && final(self).published() == old(self).published() + tag_msgs(tags_of(es)) + seq![db_msg(es)],
                Err(e) => {
                    if load_doc(source@) is None {
                        &&& e is Serialization
                        &&& final(self).tags() == old(self).tags()
                        &&& final(self).published() == old(self).published()
                    } else {
                        &&& e is Mqtt
                        &&& (load_doc(source@) matches Some(es) && final(self).tags() == es
                            && exists|k: int|
                            0 <= k <= es.len() && final(self).published() == old(self).published() + tag_msgs(tags_of(es)).take(k))
                    }
                },
            }),
    ;

    /// Updates one tag's value in the repository, publishes the updated tag,
    /// then re-fetches the entire set and publishes it as the aggregate
    /// snapshot — exactly one individual publish followed by exactly one
    /// aggregate publish on success. An unknown path fails with `NotFound`
    /// before anything is published.
    fn update_and_publish_tag(&mut self, path: &str, value: String) -> (r: Result<(), UnsError>)
        ensures
            old(self).inv() ==> final(self).inv(),
            (match r {
                Ok(_) => spec_get(old(self).tags(), path@) matches Some(t) && final(self).tags()
                    == spec_update(old(self).tags(), path@, value@) && final(self).published()
                    == old(self).published() + seq![
                    tag_msg(TagM { value: value@, ..t }),
                    db_msg(final(self).tags()),
                ],
                Err(e) => {
                    if spec_get(old(self).tags(), path@) is None {
                        &&& e is NotFound
                        &&& final(self).tags() == old(self).tags()
                        &&& final(self).published() == old(self).published()
                    } else {
                        &&& e is Mqtt
                        &&& final(self).tags() == spec_update(old(self).tags(), path@, value@)
                        &&& (final(self).published() == old(self).published() || (spec_get(
                            old(self).tags(),
                            path@,
                        ) matches Some(t) && final(self).published() == old(self).published().push(tag_msg(TagM { value: value@, ..t }))))
                    }
                },
            }),
    ;

    /// A copy of the entire set; no publishing side effect.
    fn get_all_tags(&self) -> (r: Result<TagMap, UnsError>)
        ensures
            (match r {
                Ok(m) => m@ == self.tags(),
                Err(_) => false,
            }),
    ;

    /// Point lookup; `None`, not an error, for an absent path. No publishing
    /// side effect.
    fn get_tag(&self, path: &str) -> (r: Result<Option<Tag>, UnsError>)
        ensures
            (match r {
                Ok(Some(t)) => spec_get(self.tags(), path@) == Some(t@),
                Ok(None) => spec_get(self.tags(), path@) is None,
                Err(_) => false,
            }),
    ;

    /// A service over the same stored set and send history, for handing the
    /// shared backends to another owner.
    fn duplicate(&self) -> (r: Self) where Self: Sized
        ensures
            r.tags() == self.tags(),
            r.published() == self.published(),
            r.inv() == self.inv(),
    ;
}

/// The production service over a repository and a publisher.
pub struct TagServiceImpl<R: TagRepository, P: MqttPublisher> {
    pub repository: R,
    pub publisher: P,
}

impl<R: TagRepository, P: MqttPublisher> TagServiceImpl<R, P> {
    /// Creates a service over the given repository and publisher.
    pub fn new(repository: R, publisher: P) -> (r: Self)
        ensures
            r.tags() == repository.tags(),
            r.published() == publisher.sent(),
            r.inv() == repository.inv(),
    {
        TagServiceImpl { repository, publisher }
    }
}

impl<R: TagRepository, P: MqttPublisher> TagService for TagServiceImpl<R, P> {
    open spec fn tags(&self) -> Seq<EntryM> {
        self.repository.tags()
    }

    open spec fn published(&self) -> Seq<MsgM> {
        self.publisher.sent()
    }

    open spec fn inv(&self) -> bool {
        self.repository.inv()
    }

    fn duplicate(&self) -> (r: Self) {
        TagServiceImpl {
            repository: self.repository.duplicate(),
            publisher: self.publisher.duplicate(),
        }
    }

    fn load_and_publish_tags(&mut self, source: &str) -> (r: Result<(), UnsError>) {
        let m = match self.repository.load_tags(source) {
            Ok(m) => m,
            Err(e) => {
                return Err(e);
            },
        };
        let tags_vec = m.values();
        match self.publisher.publish_tags(&tags_vec) {
            Ok(_) => {},
            Err(e) => {
                return Err(e);
            },
        }
        let ghost es = m@;
        let data = TagDatabase { tags: m };
        match self.publisher.publish_database(&data) {
            Ok(_) => {
                proof {
                    assert(self.publisher.sent() =~= old(self).publisher.sent() + tag_msgs(
                        tags_of(es),
                    ) + seq![db_msg(es)]);
                }
                Ok(())
            },
            Err(e) => {
                proof {
                    assert(tag_msgs(tags_of(es)).take(tags_of(es).len() as int) =~= tag_msgs(
                        tags_of(es),
                    ));
                }
                Err(e)
            },
        }
    }

    fn update_and_publish_tag(&mut self, path: &str, value: String) -> (r: Result<(), UnsError>) {
        let updated = match self.repository.update_tag(path, value) {
            Ok(u) => u,
            Err(e) => {
                return Err(e);
            },
        };
        match updated {
            Some(tag) => {
                match self.publisher.publish_tag(&tag) {
                    Ok(_) => {},
                    Err(e) => {
                        return Err(e);
                    },
                }
                let all = match self.repository.get_all_tags() {
                    Ok(a) => a,
                    Err(e) => {
                        return Err(e);
                    },
                };
                let ghost es = all@;
                let data = TagDatabase { tags: all };
                match self.publisher.publish_database(&data) {
                    Ok(_) => {
                        proof {
                            assert(self.publisher.sent() =~= old(self).publisher.sent() + seq![
                                tag_msg(tag@),
                                db_msg(es),
                            ]);
                        }
                        Ok(())
                    },
                    Err(e) => Err(e),
                }
            },
            None => {
                Err(UnsError::NotFound(String::from_str("Tag not found: ").concat(path)))
            },
        }
    }

    fn get_all_tags(&self) -> (r: Result<TagMap, UnsError>) {
        self.repository.get_all_tags()
    }

    fn get_tag(&self, path: &str) -> (r: Result<Option<Tag>, UnsError>) {
        self.repository.get_tag(path)
    }
}

} // verus!
