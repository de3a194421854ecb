//! The command-line surface as plain values.
//!
//! Argument parsing and file reading live outside the crate; they hand over
//! a [`Cli`] value whose run command already carries the tag source text.

use crate::codec::load_doc;
use crate::commands::{CommandFactory, CommandHandler};
use crate::error::UnsError;
use crate::publisher::{db_msg, tag_msg, tag_msgs};
use crate::service::TagService;
use crate::tag::TagM;
use crate::tag_map::{spec_get, spec_update, tags_of};
use vstd::prelude::*;

verus! {

/// One parsed invocation.
pub struct Cli {
    pub command: Commands,
}

/// The commands the tool offers.
pub enum Commands {
    /// Load a tag source and publish everything in it.
    Run { tags_source: String },
    /// Apply one value change and publish the result.
    Update { path: String, value: String },
}

/// Dispatches parsed invocations to command handlers.
pub struct CliHandler<S: TagService> {
    pub command_factory: CommandFactory<S>,
}

impl<S: TagService> CliHandler<S> {
    /// Creates a handler over the given service.
    pub fn new(tag_service: S) -> (r: Self)
        ensures
            r.command_factory.tag_service == tag_service,
    {
        CliHandler { command_factory: CommandFactory::new(tag_service) }
    }

    /// Runs one parsed invocation: builds the matching command handler,
    /// executes it, and keeps the executed handler's service as the held
    /// one — so the command's whole effect on the stored set and the
    /// publish history is stated here, exactly as the two handlers state
    /// it.
    pub fn run(&mut self, cli: Cli) -> (r: Result<(), UnsError>)
        ensures
            old(self).command_factory.tag_service.inv() ==> final(self).command_factory.tag_service.inv(),
            (match cli.command {
                Commands::Run { tags_source } => (match r {
                    Ok(_) => load_doc(tags_source@) matches Some(es) && final(self).command_factory.tag_service.tags() == es && final(self).command_factory.tag_service.published() == old(self).command_factory.tag_service.published() + tag_msgs(tags_of(es)) + seq![
                        db_msg(es),
                    ],
                    Err(e) => {
                        if load_doc(tags_source@) is None {
                            &&& e is Serialization
                            &&& final(self).command_factory.tag_service.tags() == old(self).command_factory.tag_service.tags()
                            &&& final(self).command_factory.tag_service.published() == old(self).command_factory.tag_service.published()
                        } else {
                            &&& e is Mqtt
                            &&& (load_doc(tags_source@) matches Some(es) && final(self).command_factory.tag_service.tags() == es && exists|k: int|
                                0 <= k <= es.len() && final(self).command_factory.tag_service.published() == old(self).command_factory.tag_service.published() + tag_msgs(
                                    tags_of(es),
                                ).take(k))
                        }
                    },
                }),
                Commands::Update { path, value } => (match r {
                    Ok(_) => spec_get(old(self).command_factory.tag_service.tags(), path@)
                        matches Some(t) && final(self).command_factory.tag_service.tags()
                        == spec_update(
                        old(self).command_factory.tag_service.tags(),
                        path@,
                        value@,
                    ) && final(self).command_factory.tag_service.published() == old(self).command_factory.tag_service.published() + seq![
                        tag_msg(TagM { value: value@, ..t }),
                        db_msg(final(self).command_factory.tag_service.tags()),
                    ],
                    Err(e) => {
                        if spec_get(old(self).command_factory.tag_service.tags(), path@)
                            is None {
                            &&& e is NotFound
                            &&& final(self).command_factory.tag_service.tags() == old(self).command_factory.tag_service.tags()
                            &&& final(self).command_factory.tag_service.published() == old(self).command_factory.tag_service.published()
                        } else {
                            &&& e is Mqtt
                            &&& final(self).command_factory.tag_service.tags() == spec_update(
                                old(self).command_factory.tag_service.tags(),
                                path@,
                                value@,
                            )
                            &&& (final(self).command_factory.tag_service.published() == old(self).command_factory.tag_service.published() || (spec_get(
                                old(self).command_factory.tag_service.tags(),
                                path@,
                            ) matches Some(t) && final(self).command_factory.tag_service.published()
                                == old(self).command_factory.tag_service.published().push(
                                tag_msg(TagM { value: value@, ..t }),
                            )))
                        }
                    },
                }),
            }),
    {
        match cli.command {
            Commands::Run { tags_source } => {
                let mut command = self.command_factory.create_run_command(tags_source);
                let r = command.execute();
                self.command_factory.tag_service = command.tag_service;
                r
            },
            Commands::Update { path, value } => {
                let mut command = self.command_factory.create_update_command(path, value);
                let r = command.execute();
                self.command_factory.tag_service = command.tag_service;
                r
            },
        }
    }
}

} // verus!
