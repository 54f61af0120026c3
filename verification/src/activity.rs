//! The record of what an application does: its messages, its turns, the actions
//! it refused, and who was connected.

use vstd::prelude::*;

use crate::caller::Caller;
use crate::text::{
    chars_of, concat2, copy_opt, decimal, opt_copy, opt_str, opt_text, same, to_decimal,
};

verus! {

/// How something that is on record went.
#[derive(Clone, Copy, Debug, PartialEq, Eq, Structural)]
pub enum ActivityOutcome {
    Started,
    Succeeded,
    Failed,
    Cancelled,
    Info,
    Connected,
    Disconnected,
}

/// One entry of the record. `run` is the turn that it belongs to.
#[derive(Debug, PartialEq, Eq)]
pub enum Record {
    /// A message by somebody in the room.
    Message {
        by: Caller,
        name: String,
        outcome: ActivityOutcome,
        run: Option<String>,
        message: Option<String>,
        detail: Option<String>,
    },
    /// A message by the host itself.
    HostMessage {
        name: String,
        outcome: ActivityOutcome,
        run: Option<String>,
        message: Option<String>,
        detail: Option<String>,
    },
    /// The assistant or the host moved on.
    Lifecycle {
        name: String,
        outcome: ActivityOutcome,
        run: Option<String>,
        detail: Option<String>,
    },
    /// Something about a provider.
    Provider { name: String, outcome: ActivityOutcome, run: Option<String>, provider: String },
    /// Something went wrong.
    Failure { name: String, caller: Option<Caller>, run: Option<String>, error: String },
    /// An action that was asked for.
    Action {
        by: Caller,
        action: String,
        outcome: ActivityOutcome,
        run: Option<String>,
        detail: Option<String>,
    },
    /// A client came or went.
    Connection { name: String, outcome: ActivityOutcome, detail: Option<String> },
}

/// An entry of the record in contracts.
pub enum RecordView {
    Message {
        by: Caller,
        name: Seq<char>,
        outcome: ActivityOutcome,
        run: Option<Seq<char>>,
        message: Option<Seq<char>>,
        detail: Option<Seq<char>>,
    },
    HostMessage {
        name: Seq<char>,
        outcome: ActivityOutcome,
        run: Option<Seq<char>>,
        message: Option<Seq<char>>,
        detail: Option<Seq<char>>,
    },
    Lifecycle {
        name: Seq<char>,
        outcome: ActivityOutcome,
        run: Option<Seq<char>>,
        detail: Option<Seq<char>>,
    },
    Provider {
        name: Seq<char>,
        outcome: ActivityOutcome,
        run: Option<Seq<char>>,
        provider: Seq<char>,
    },
    Failure { name: Seq<char>, caller: Option<Caller>, run: Option<Seq<char>>, error: Seq<char> },
    Action {
        by: Caller,
        action: Seq<char>,
        outcome: ActivityOutcome,
        run: Option<Seq<char>>,
        detail: Option<Seq<char>>,
    },
    Connection { name: Seq<char>, outcome: ActivityOutcome, detail: Option<Seq<char>> },
}

impl View for Record {
    type V = RecordView;

    open spec fn view(&self) -> RecordView {
        match self {
            Record::Message { by, name, outcome, run, message, detail } => RecordView::Message {
                by: *by,
                name: name@,
                outcome: *outcome,
                run: opt_text(*run),
                message: opt_text(*message),
                detail: opt_text(*detail),
            },
            Record::HostMessage { name, outcome, run, message, detail } => RecordView::HostMessage {
                name: name@,
                outcome: *outcome,
                run: opt_text(*run),
                message: opt_text(*message),
                detail: opt_text(*detail),
            },
            Record::Lifecycle { name, outcome, run, detail } => RecordView::Lifecycle {
                name: name@,
                outcome: *outcome,
                run: opt_text(*run),
                detail: opt_text(*detail),
            },
            Record::Provider { name, outcome, run, provider } => RecordView::Provider {
                name: name@,
                outcome: *outcome,
                run: opt_text(*run),
                provider: provider@,
            },
            Record::Failure { name, caller, run, error } => RecordView::Failure {
                name: name@,
                caller: *caller,
                run: opt_text(*run),
                error: error@,
            },
            Record::Action { by, action, outcome, run, detail } => RecordView::Action {
                by: *by,
                action: action@,
                outcome: *outcome,
                run: opt_text(*run),
                detail: opt_text(*detail),
            },
            Record::Connection { name, outcome, detail } => RecordView::Connection {
                name: name@,
                outcome: *outcome,
                detail: opt_text(*detail),
            },
        }
    }
}

pub open spec fn record_views(records: Seq<Record>) -> Seq<RecordView> {
    Seq::new(records.len(), |i: int| records[i]@)
}

/// How long a message is: the record holds no message's text.
pub open spec fn size_note(text: Seq<char>) -> Seq<char> {
    decimal(text.len()) + " characters"@
}

/// How long a message is.
pub fn size_note_of(text: &str) -> (note: String)
    ensures
        note@ == size_note(text@),
{
    let count: u64 = chars_of(text).len() as u64;
    concat2(&to_decimal(count), " characters")
}

// Turns.

/// How a turn goes that moves on to a lifecycle word.
pub open spec fn lifecycle_outcome(word: Seq<char>) -> ActivityOutcome {
    if word == "warming"@ || word == "thinking"@ || word == "awaiting"@ {
        ActivityOutcome::Started
    } else if word == "ready"@ || word == "done"@ {
        ActivityOutcome::Succeeded
    } else if word == "failed"@ {
        ActivityOutcome::Failed
    } else {
        ActivityOutcome::Info
    }
}

/// How a turn goes that moves on to a lifecycle word.
pub fn outcome_of(word: &str) -> (outcome: ActivityOutcome)
    ensures
        outcome == lifecycle_outcome(word@),
{
    if same(word, "warming") || same(word, "thinking") || same(word, "awaiting") {
        ActivityOutcome::Started
    } else if same(word, "ready") || same(word, "done") {
        ActivityOutcome::Succeeded
    } else if same(word, "failed") {
        ActivityOutcome::Failed
    } else {
        ActivityOutcome::Info
    }
}

/// What goes on record when the lifecycle moves on: the word itself, the
/// provider once it is ready, and the failure where there is one.
pub open spec fn lifecycle_records(
    word: Seq<char>,
    question: Option<Seq<char>>,
    run: Option<Seq<char>>,
    provider: Seq<char>,
) -> Seq<RecordView> {
    let moved = Seq::empty().push(
        RecordView::Lifecycle {
            name: "lifecycle."@ + word,
            outcome: lifecycle_outcome(word),
            run,
            detail: question,
        },
    );
    if word == "ready"@ {
        moved.push(
            RecordView::Provider {
                name: "provider.ready"@,
                outcome: ActivityOutcome::Succeeded,
                run,
                provider,
            },
        )
    } else if word == "failed"@ {
        moved.push(
            RecordView::Failure {
                name: "lifecycle.failed"@,
                caller: None,
                run,
                error: match question {
                    Some(question) => question,
                    None => "runtime lifecycle failed"@,
                },
            },
        )
    } else {
        moved
    }
}

/// Puts on record that the lifecycle moves on.
pub fn record_lifecycle(
    records: &mut Vec<Record>,
    word: &str,
    question: Option<&str>,
    run: &Option<String>,
    provider: &str,
)
    ensures
        record_views(final(records)@) == record_views(old(records)@) + lifecycle_records(
            word@,
            opt_str(question),
            opt_text(*run),
            provider@,
        ),
{
    records.push(
        Record::Lifecycle {
            name: concat2("lifecycle.", word),
            outcome: outcome_of(word),
            run: copy_opt(run),
            detail: opt_copy(question),
        },
    );
    if same(word, "ready") {
        records.push(
            Record::Provider {
                name: "provider.ready".to_owned(),
                outcome: ActivityOutcome::Succeeded,
                run: copy_opt(run),
                provider: provider.to_owned(),
            },
        );
    } else if same(word, "failed") {
        let error: &str = match question {
            Some(question) => question,
            None => "runtime lifecycle failed",
        };
        records.push(
            Record::Failure {
                name: "lifecycle.failed".to_owned(),
                caller: None,
                run: copy_opt(run),
                error: error.to_owned(),
            },
        );
    }
    proof {
        assert(record_views(records@) =~= record_views(old(records)@) + lifecycle_records(
            word@,
            opt_str(question),
            opt_text(*run),
            provider@,
        ));
    }
}

// Refused callers.

/// What goes on record of a caller who is nobody: the action that was asked for,
/// and the failure.
pub open spec fn stranger_records(
    name: Seq<char>,
    action: Seq<char>,
    run: Option<Seq<char>>,
    detail: Seq<char>,
) -> Seq<RecordView> {
    Seq::empty().push(
        RecordView::Action {
            by: Caller::Unknown,
            action,
            outcome: ActivityOutcome::Failed,
            run,
            detail: Some(detail),
        },
    ).push(RecordView::Failure { name, caller: Some(Caller::Unknown), run, error: detail })
}

/// What goes on record of a caller who is nobody.
pub fn refused_stranger(name: &str, action: &str, run: Option<&str>, detail: &str) -> (records: Vec<
    Record,
>)
    ensures
        record_views(records@) == stranger_records(name@, action@, opt_str(run), detail@),
{
    let mut records: Vec<Record> = Vec::new();
    records.push(
        Record::Action {
            by: Caller::Unknown,
            action: action.to_owned(),
            outcome: ActivityOutcome::Failed,
            run: opt_copy(run),
            detail: Some(detail.to_owned()),
        },
    );
    records.push(
        Record::Failure {
            name: name.to_owned(),
            caller: Some(Caller::Unknown),
            run: opt_copy(run),
            error: detail.to_owned(),
        },
    );
    proof {
        assert(record_views(records@) =~= stranger_records(name@, action@, opt_str(run), detail@));
    }
    records
}

// Connections.

/// The two ways in which a client listens.
#[derive(Clone, Copy, Debug, PartialEq, Eq, Structural)]
pub enum Listening {
    /// To events.
    Events,
    /// To the binary replica.
    Replica,
}

impl Listening {
    /// The name on record.
    pub open spec fn text(self) -> Seq<char> {
        match self {
            Listening::Events => "connection.sse"@,
            Listening::Replica => "connection.websocket"@,
        }
    }

    pub fn name(self) -> (name: &'static str)
        ensures
            name@ == self.text(),
    {
        match self {
            Listening::Events => "connection.sse",
            Listening::Replica => "connection.websocket",
        }
    }

    /// What goes on record when a client begins to listen.
    pub open spec fn arrival(self) -> RecordView {
        RecordView::Connection {
            name: self.text(),
            outcome: ActivityOutcome::Connected,
            detail: Some(
                match self {
                    Listening::Events => "AG-UI event subscriber connected"@,
                    Listening::Replica => "binary surface subscriber connected"@,
                },
            ),
        }
    }

    /// What goes on record when a client is gone.
    pub open spec fn departure(self) -> RecordView {
        RecordView::Connection {
            name: self.text(),
            outcome: ActivityOutcome::Disconnected,
            detail: Some("transport subscriber disconnected"@),
        }
    }

    /// What goes on record when a client begins to listen.
    pub fn connected(self) -> (record: Record)
        ensures
            record@ == self.arrival(),
    {
        let detail: &str = match self {
            Listening::Events => "AG-UI event subscriber connected",
            Listening::Replica => "binary surface subscriber connected",
        };
        Record::Connection {
            name: self.name().to_owned(),
            outcome: ActivityOutcome::Connected,
            detail: Some(detail.to_owned()),
        }
    }

    /// What goes on record when a client is gone.
    pub fn disconnected(self) -> (record: Record)
        ensures
            record@ == self.departure(),
    {
        Record::Connection {
            name: self.name().to_owned(),
            outcome: ActivityOutcome::Disconnected,
            detail: Some("transport subscriber disconnected".to_owned()),
        }
    }
}

// The start.

/// What goes on record when an application starts to listen at an address.
pub open spec fn start_records(address: Seq<char>, provider: Seq<char>) -> Seq<RecordView> {
    Seq::empty().push(
        RecordView::Lifecycle {
            name: "runtime.started"@,
            outcome: ActivityOutcome::Started,
            run: None,
            detail: Some("listening on "@ + address),
        },
    ).push(
        RecordView::Provider {
            name: "provider.selected"@,
            outcome: ActivityOutcome::Info,
            run: None,
            provider,
        },
    )
}

/// What goes on record when an application starts to listen at an address.
pub fn started_records(address: &str, provider: &str) -> (records: Vec<Record>)
    ensures
        record_views(records@) == start_records(address@, provider@),
{
    let mut records: Vec<Record> = Vec::new();
    records.push(
        Record::Lifecycle {
            name: "runtime.started".to_owned(),
            outcome: ActivityOutcome::Started,
            run: None,
            detail: Some(concat2("listening on ", address)),
        },
    );
    records.push(
        Record::Provider {
            name: "provider.selected".to_owned(),
            outcome: ActivityOutcome::Info,
            run: None,
            provider: provider.to_owned(),
        },
    );
    proof {
        assert(record_views(records@) =~= start_records(address@, provider@));
    }
    records
}

} // verus!
