//! The commands that clients send to the span-tracking actor.

use crate::time::Timestamp;
use vstd::prelude::*;

verus! {

/// One request to the actor.
#[derive(Debug)]
pub enum Command {
    /// Opens a span under the client's number `span_id`. `child_of` and
    /// `follows_from` name the spans it descends from or succeeds; `time`
    /// is when it started, where the client knows better than the actor's
    /// clock.
    StartSpan {
        span_id: u64,
        operation_name: String,
        child_of: Option<u64>,
        follows_from: Option<u64>,
        tags: Vec<(String, String)>,
        time: Option<Timestamp>,
    },
    /// Closes the span that was opened under `span_id`.
    Finish { span_id: u64, finish_time: Option<Timestamp> },
}

/// What a command says, with its texts as sequences of characters.
pub enum CommandView {
    StartSpan {
        span_id: u64,
        operation_name: Seq<char>,
        child_of: Option<u64>,
        follows_from: Option<u64>,
        tags: Seq<(Seq<char>, Seq<char>)>,
        time: Option<Timestamp>,
    },
    Finish { span_id: u64, finish_time: Option<Timestamp> },
}

/// The keys and values of a list of tags, as sequences of characters.
pub open spec fn tags_view(tags: Seq<(String, String)>) -> Seq<(Seq<char>, Seq<char>)> {
    Seq::new(tags.len(), |i: int| (tags[i].0@, tags[i].1@))
}

/// The views of a list of commands, in order.
pub open spec fn commands_view(commands: Seq<Command>) -> Seq<CommandView> {
    Seq::new(commands.len(), |i: int| commands[i]@)
}

impl View for Command {
    type V = CommandView;

    open spec fn view(&self) -> CommandView {
        match *self {
            Command::StartSpan { span_id, operation_name, child_of, follows_from, tags, time } => {
                CommandView::StartSpan {
                    span_id,
                    operation_name: operation_name@,
                    child_of,
                    follows_from,
                    tags: tags_view(tags@),
                    time,
                }
            },
            Command::Finish { span_id, finish_time } => CommandView::Finish {
                span_id,
                finish_time,
            },
        }
    }
}

impl Command {
    /// The client's number of the span that the command is about.
    pub fn span_id(&self) -> (id: u64)
        ensures
            id == match self@ {
                CommandView::StartSpan { span_id, .. } => span_id,
                CommandView::Finish { span_id, .. } => span_id,
            },
    {
        match self {
            Command::StartSpan { span_id, .. } => *span_id,
            Command::Finish { span_id, .. } => *span_id,
        }
    }
}

} // verus!
