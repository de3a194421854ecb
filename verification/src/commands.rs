//! The command layer: thin entry points invoking the tag service.
//!
//! Printing and process control live outside the crate; a handler here is
//! the decision part of a command — one service call over stored arguments.

use crate::codec::load_doc;
use crate::error::UnsError;
use crate::publisher::{db_msg, tag_msg, tag_msgs};
use crate::service::TagService;
use crate::tag::TagM;
use crate::tag_map::{spec_get, spec_update, tags_of};
use vstd::prelude::*;

verus! {

/// One executable command.
pub trait CommandHandler {
    /// Executes the command.
    fn execute(&mut self) -> (r: Result<(), UnsError>);
}

/// Loads a tag source and publishes everything in it.
pub struct RunCommandHandler<S: TagService> {
    pub tag_service: S,
    pub tags_source: String,
    pub test_mode: bool,
}

impl<S: TagService> RunCommandHandler<S> {
    /// Creates a handler over the given service and tag source text.
    pub fn new(tag_service: S, tags_source: String) -> (r: Self)
        ensures
            r.tag_service == tag_service,
            r.tags_source@ == tags_source@,
            !r.test_mode,
    {
        RunCommandHandler { tag_service, tags_source, test_mode: false }
    }

    /// Creates a handler that reports completion instead of idling: the
    /// caller running it does not wait for termination afterwards.
    pub fn new_test_mode(tag_service: S, tags_source: String) -> (r: Self)
        ensures
            r.tag_service == tag_service,
            r.tags_source@ == tags_source@,
            r.test_mode,
    {
        RunCommandHandler { tag_service, tags_source, test_mode: true }
    }
}

impl<S: TagService> CommandHandler for RunCommandHandler<S> {
    /// Loads the stored tag source and publishes everything in it, exactly
    /// as [`TagService::load_and_publish_tags`] states.
    fn execute(&mut self) -> (r: Result<(), UnsError>)
        ensures
            final(self).tags_source == old(self).tags_source,
            old(self).tag_service.inv() ==> final(self).tag_service.inv(),
            (match r {
                Ok(_) => load_doc(old(self).tags_source@) matches Some(es) && final(self).tag_service.tags() == es && final(self).tag_service.published() == old(self).tag_service.published() + tag_msgs(tags_of(es)) + seq![db_msg(es)],
                Err(e) => {
                    if load_doc(old(self).tags_source@) is None {
                        &&& e is Serialization
                        &&& final(self).tag_service.tags() == old(self).tag_service.tags()
                        &&& final(self).tag_service.published() == old(self).tag_service.published()
                    } else {
                        &&& e is Mqtt
                        &&& (load_doc(old(self).tags_source@) matches Some(es) && final(self).tag_service.tags() == es && exists|k: int|
                            0 <= k <= es.len() && final(self).tag_service.published() == old(self).tag_service.published() + tag_msgs(tags_of(es)).take(k))
                    }
                },
            }),
    {
        let source = self.tags_source.clone();
        self.tag_service.load_and_publish_tags(source.as_str())
    }
}

/// Applies one value change and publishes the result.
pub struct UpdateCommandHandler<S: TagService> {
    pub tag_service: S,
    pub path: String,
    pub value: String,
}

impl<S: TagService> UpdateCommandHandler<S> {
    /// Creates a handler over the given service, path and new value.
    pub fn new(tag_service: S, path: String, value: String) -> (r: Self)
        ensures
            r.tag_service == tag_service,
            r.path@ == path@,
            r.value@ == value@,
    {
        UpdateCommandHandler { tag_service, path, value }
    }
}

impl<S: TagService> CommandHandler for UpdateCommandHandler<S> {
    /// Applies the stored value change and publishes the result, exactly as
    /// [`TagService::update_and_publish_tag`] states.
    fn execute(&mut self) -> (r: Result<(), UnsError>)
        ensures
            final(self).path == old(self).path && final(self).value == old(self).value,
            old(self).tag_service.inv() ==> final(self).tag_service.inv(),
            (match r {
                Ok(_) => spec_get(old(self).tag_service.tags(), old(self).path@) matches Some(t)
                    && final(self).tag_service.tags() == spec_update(
                    old(self).tag_service.tags(),
                    old(self).path@,
                    old(self).value@,
                ) && final(self).tag_service.published() == old(self).tag_service.published()
                    + seq![
                    tag_msg(TagM { value: old(self).value@, ..t }),
                    db_msg(final(self).tag_service.tags()),
                ],
                Err(e) => {
                    if spec_get(old(self).tag_service.tags(), old(self).path@) is None {
                        &&& e is NotFound
                        &&& final(self).tag_service.tags() == old(self).tag_service.tags()
                        &&& final(self).tag_service.published() == old(self).tag_service.published()
                    } else {
                        &&& e is Mqtt
                        &&& final(self).tag_service.tags() == spec_update(
                            old(self).tag_service.tags(),
                            old(self).path@,
                            old(self).value@,
                        )
                        &&& (final(self).tag_service.published() == old(self).tag_service.published() || (spec_get(
                            old(self).tag_service.tags(),
                            old(self).path@,
                        ) matches Some(t) && final(self).tag_service.published() == old(self).tag_service.published().push(tag_msg(TagM { value: old(self).value@, ..t }))))
                    }
                },
            }),
    {
        let path = self.path.clone();
        let value = self.value.clone();
        self.tag_service.update_and_publish_tag(path.as_str(), value)
    }
}

/// Builds command handlers over one shared service.
///
/// Each handler receives a duplicate of the factory's service — same stored
/// set, same send history — through [`TagService::duplicate`].
pub struct CommandFactory<S: TagService> {
    pub tag_service: S,
}

impl<S: TagService> CommandFactory<S> {
    /// Creates a factory over the given service.
    pub fn new(tag_service: S) -> (r: Self)
        ensures
            r.tag_service == tag_service,
    {
        CommandFactory { tag_service }
    }

    /// Creates a handler for the run command, over a duplicate of the
    /// factory's service.
    pub fn create_run_command(&self, tags_source: String) -> (r: RunCommandHandler<S>)
        ensures
            r.tags_source@ == tags_source@,
            !r.test_mode,
            r.tag_service.tags() == self.tag_service.tags(),
            r.tag_service.published() == self.tag_service.published(),
            r.tag_service.inv() == self.tag_service.inv(),
    {
        RunCommandHandler::new(self.tag_service.duplicate(), tags_source)
    }

    /// Creates a handler for the run command that reports completion
    /// instead of idling, over a duplicate of the factory's service.
    pub fn create_run_command_test_mode(&self, tags_source: String) -> (r: RunCommandHandler<S>)
        ensures
            r.tags_source@ == tags_source@,
            r.test_mode,
            r.tag_service.tags() == self.tag_service.tags(),
            r.tag_service.published() == self.tag_service.published(),
            r.tag_service.inv() == self.tag_service.inv(),
    {
        RunCommandHandler::new_test_mode(self.tag_service.duplicate(), tags_source)
    }

    /// Creates a handler for the update command, over a duplicate of the
    /// factory's service.
    pub fn create_update_command(&self, path: String, value: String) -> (r: UpdateCommandHandler<
        S,
    >)
        ensures
            r.path@ == path@,
            r.value@ == value@,
            r.tag_service.tags() == self.tag_service.tags(),
            r.tag_service.published() == self.tag_service.published(),
            r.tag_service.inv() == self.tag_service.inv(),
    {
        UpdateCommandHandler::new(self.tag_service.duplicate(), path, value)
    }
}

} // verus!
