//! The conversation as its clients see and hear it: one assistant message that
//! streams, a bounded transcript that replays, and speech sentence by sentence.

use vstd::prelude::*;

use crate::activity::{
    lifecycle_records, record_lifecycle, record_views, size_note, size_note_of, ActivityOutcome,
    Record, RecordView,
};
use crate::caller::Caller;
use crate::events::{custom, event_views, Event, EventView};
use crate::json::{empty_object, json_text, object, text_or_null, Json, JsonView};
use crate::labels::{fresh_hex, fresh_id};
use crate::text::{
    blank, chars_of, concat2, copy_opt, opt_str, opt_text, same, string_of, texts, trim, trimmed,
};

verus! {

/// A command to the one speaker.
#[derive(Debug, PartialEq, Eq)]
pub enum Narration {
    /// Speak this line behind what is already queued.
    Say(String),
    /// Stop, and drop everything still queued.
    Hush,
}

/// A speaker command in contracts.
pub enum NarrationView {
    Say(Seq<char>),
    Hush,
}

impl View for Narration {
    type V = NarrationView;

    open spec fn view(&self) -> NarrationView {
        match self {
            Narration::Say(text) => NarrationView::Say(text@),
            Narration::Hush => NarrationView::Hush,
        }
    }
}

pub open spec fn narration_views(commands: Seq<Narration>) -> Seq<NarrationView> {
    Seq::new(commands.len(), |i: int| commands[i]@)
}

/// What a step of the conversation sends: events to the clients, commands to the
/// speaker, and what goes on record, each in order.
#[derive(Debug, PartialEq)]
pub struct Effects {
    pub events: Vec<Event>,
    pub speech: Vec<Narration>,
    pub records: Vec<Record>,
}

/// What a step sends, in contracts.
#[verifier::ext_equal]
pub struct EffectsView {
    pub events: Seq<EventView>,
    pub speech: Seq<NarrationView>,
    pub records: Seq<RecordView>,
}

impl View for Effects {
    type V = EffectsView;

    open spec fn view(&self) -> EffectsView {
        EffectsView {
            events: event_views(self.events@),
            speech: narration_views(self.speech@),
            records: record_views(self.records@),
        }
    }
}

/// Nothing is sent.
pub open spec fn silence() -> EffectsView {
    EffectsView { events: Seq::empty(), speech: Seq::empty(), records: Seq::empty() }
}

impl EffectsView {
    pub open spec fn event(self, event: EventView) -> EffectsView {
        EffectsView { events: self.events.push(event), ..self }
    }

    pub open spec fn say(self, command: NarrationView) -> EffectsView {
        EffectsView { speech: self.speech.push(command), ..self }
    }

    pub open spec fn record(self, record: RecordView) -> EffectsView {
        EffectsView { records: self.records.push(record), ..self }
    }

    /// The lifecycle moves on to a word.
    pub open spec fn lifecycle(
        self,
        word: Seq<char>,
        question: Option<Seq<char>>,
        run: Option<Seq<char>>,
        provider: Seq<char>,
    ) -> EffectsView {
        EffectsView {
            events: self.events.push(tutor_notice(word, question)),
            records: self.records + lifecycle_records(word, question, run, provider),
            ..self
        }
    }
}

impl Effects {
    /// Nothing is sent.
    pub fn none() -> (effects: Effects)
        ensures
            effects@ == silence(),
    {
        let effects: Effects = Effects {
            events: Vec::new(),
            speech: Vec::new(),
            records: Vec::new(),
        };
        proof {
            assert(effects@ =~= silence());
        }
        effects
    }

    fn send(&mut self, event: Event)
        ensures
            final(self)@ == old(self)@.event(event@),
    {
        let ghost before = self.events@;
        self.events.push(event);
        proof {
            assert(event_views(self.events@) =~= event_views(before).push(event@));
        }
    }

    fn command(&mut self, command: Narration)
        ensures
            final(self)@ == old(self)@.say(command@),
    {
        let ghost before = self.speech@;
        self.speech.push(command);
        proof {
            assert(narration_views(self.speech@) =~= narration_views(before).push(command@));
        }
    }

    fn record(&mut self, record: Record)
        ensures
            final(self)@ == old(self)@.record(record@),
    {
        let ghost before = self.records@;
        self.records.push(record);
        proof {
            assert(record_views(self.records@) =~= record_views(before).push(record@));
        }
    }

    fn lifecycle(&mut self, word: &str, question: Option<&str>, run: &Option<String>, provider: &str)
        ensures
            final(self)@ == old(self)@.lifecycle(
                word@,
                opt_str(question),
                opt_text(*run),
                provider@,
            ),
    {
        self.send(tutor_event_value(word, question));
        record_lifecycle(&mut self.records, word, question, run, provider);
    }
}

// Sentences.

/// White space in ASCII.
pub open spec fn ascii_space(c: char) -> bool {
    c == ' ' || c == '\t' || c == '\n' || c == '\u{C}' || c == '\r'
}

/// Whether a sentence ends at a position: at a line's end, or at a full stop,
/// an exclamation or a question mark that white space follows.
pub open spec fn sentence_ends(s: Seq<char>, i: int) -> bool {
    ||| s[i] == '\n'
    ||| {
        &&& s[i] == '.' || s[i] == '!' || s[i] == '?'
        &&& i + 1 < s.len()
        &&& ascii_space(s[i + 1])
    }
}

/// The first position at which a sentence ends.
pub open spec fn first_end(s: Seq<char>) -> Option<int> {
    crate::lists::first_index(s.len(), |i: int| sentence_ends(s, i))
}

/// The position of the next sentence end.
pub fn sentence_break(buffer: &Vec<char>) -> (end: Option<usize>)
    ensures
        match end {
            Some(i) => i < buffer.len() && first_end(buffer@) == Some(i as int),
            None => first_end(buffer@) is None,
        },
{
    let ghost ends = |i: int| sentence_ends(buffer@, i);
    let mut i: usize = 0;
    while i < buffer.len()
        invariant
            i <= buffer@.len(),
            ends == (|i: int| sentence_ends(buffer@, i)),
            crate::lists::first_index(i as nat, ends) is None,
        decreases buffer@.len() - i,
    {
        let c: char = buffer[i];
        let mut here: bool = c == '\n';
        if !here && (c == '.' || c == '!' || c == '?') && i + 1 < buffer.len() {
            let next: char = buffer[i + 1];
            here = next == ' ' || next == '\t' || next == '\n' || next == '\u{C}' || next == '\r';
        }
        if here {
            proof {
                assert(ends(i as int));
                crate::lists::lemma_first_index_grows((i + 1) as nat, buffer@.len(), ends);
            }
            return Some(i);
        }
        proof {
            assert(!ends(i as int));
        }
        i += 1;
    }
    None
}

/// The whole sentences at the start of a text, as they stand.
pub open spec fn whole_sentences(s: Seq<char>) -> Seq<Seq<char>>
    decreases s.len(),
    via whole_sentences_shrink
{
    match first_end(s) {
        Some(i) => Seq::empty().push(s.take(i + 1)) + whole_sentences(s.skip(i + 1)),
        None => Seq::empty(),
    }
}

#[via_fn]
proof fn whole_sentences_shrink(s: Seq<char>) {
    crate::lists::lemma_first_index(s.len(), |i: int| sentence_ends(s, i));
}

/// What is left of a text behind its whole sentences.
pub open spec fn unfinished(s: Seq<char>) -> Seq<char>
    decreases s.len(),
    via unfinished_shrink
{
    match first_end(s) {
        Some(i) => unfinished(s.skip(i + 1)),
        None => s,
    }
}

#[via_fn]
proof fn unfinished_shrink(s: Seq<char>) {
    crate::lists::lemma_first_index(s.len(), |i: int| sentence_ends(s, i));
}

/// Texts one after the other.
pub open spec fn concatenated(pieces: Seq<Seq<char>>) -> Seq<char>
    decreases pieces.len(),
{
    if pieces.len() == 0 {
        Seq::empty()
    } else {
        pieces[0] + concatenated(pieces.skip(1))
    }
}

/// Cutting a text into sentences loses nothing: the whole sentences and what is
/// left make up the text again.
pub proof fn law_sentences_lose_nothing(s: Seq<char>)
    ensures
        concatenated(whole_sentences(s)) + unfinished(s) == s,
    decreases s.len(),
{
    crate::lists::lemma_first_index(s.len(), |i: int| sentence_ends(s, i));
    match first_end(s) {
        Some(i) => {
            let rest = s.skip(i + 1);
            law_sentences_lose_nothing(rest);
            let pieces = whole_sentences(s);
            assert(pieces.skip(1) =~= whole_sentences(rest));
            assert(pieces[0] == s.take(i + 1));
            assert(concatenated(pieces) + unfinished(s) =~= s.take(i + 1) + (concatenated(
                whole_sentences(rest),
            ) + unfinished(rest)));
            assert(s.take(i + 1) + rest =~= s);
        },
        None => {
            assert(concatenated(whole_sentences(s)) + unfinished(s) =~= s);
        },
    }
}

/// Characters that are not spoken.
pub open spec fn unspoken(c: char) -> bool {
    c == '*' || c == '_' || c == '`' || c == '#' || c == '>' || c == '|' || c == '~'
}

/// A text as it is spoken: without the markup characters.
pub open spec fn speakable(s: Seq<char>) -> Seq<char> {
    s.filter(|c: char| !unspoken(c))
}

/// A text as it is spoken.
pub fn sanitize_for_speech(text: &str) -> (spoken: String)
    ensures
        spoken@ == speakable(text@),
{
    let chars: Vec<char> = chars_of(text);
    let ghost keep = |c: char| !unspoken(c);
    let mut spoken: String = String::new();
    let mut i: usize = 0;
    proof {
        reveal(Seq::filter);
        assert(text@.take(0) =~= Seq::empty());
    }
    while i < chars.len()
        invariant
            i <= chars@.len(),
            chars@ == text@,
            keep == (|c: char| !unspoken(c)),
            spoken@ == text@.take(i as int).filter(keep),
        decreases chars@.len() - i,
    {
        let c: char = chars[i];
        proof {
            crate::lists::lemma_filter_next(text@, keep, i as int);
        }
        if !(c == '*' || c == '_' || c == '`' || c == '#' || c == '>' || c == '|' || c == '~') {
            spoken.push(c);
        }
        i += 1;
    }
    proof {
        assert(text@.take(text@.len() as int) =~= text@);
    }
    spoken
}

/// What the speaker is told for a list of sentences: each that is not blank,
/// trimmed and without markup.
pub open spec fn spoken_lines(sentences: Seq<Seq<char>>) -> Seq<NarrationView>
    decreases sentences.len(),
{
    if sentences.len() == 0 {
        Seq::empty()
    } else {
        let before = spoken_lines(sentences.drop_last());
        if blank(sentences.last()) {
            before
        } else {
            before.push(NarrationView::Say(speakable(trimmed(sentences.last()))))
        }
    }
}

// The conversation.

/// The assistant message that is streaming.
#[derive(Debug, PartialEq, Eq)]
pub struct ActiveMessage {
    pub id: String,
    pub text: String,
}

/// A streaming message in contracts.
pub struct MessageView {
    pub id: Seq<char>,
    pub text: Seq<char>,
}

/// One line of the transcript.
#[derive(Debug, PartialEq, Eq)]
pub struct Line {
    pub by: String,
    pub text: String,
}

/// A line in contracts.
pub struct LineView {
    pub by: Seq<char>,
    pub text: Seq<char>,
}

pub open spec fn line_views(lines: Seq<Line>) -> Seq<LineView> {
    Seq::new(lines.len(), |i: int| LineView { by: lines[i].by@, text: lines[i].text@ })
}

/// The state of the conversation.
#[derive(Debug, PartialEq, Eq)]
pub struct Conversation {
    /// The assistant message that is streaming.
    pub active: Option<ActiveMessage>,
    /// The process session whose output counts.
    pub stream_session: Option<String>,
    /// What was streamed and is not spoken yet.
    pub speech: String,
    /// The transcript for reconnecting clients.
    pub history: Vec<Line>,
    /// Whether speech is on.
    pub audio_on: bool,
    /// Whether a turn is running.
    pub busy: bool,
    /// Whether the provider is starting.
    pub warming: bool,
    /// Whether the provider is up.
    pub ready: bool,
    /// Whether the assistant waits for the person.
    pub awaiting: bool,
    /// Why the provider is down.
    pub provider_error: Option<String>,
    /// The provider's id.
    pub provider: String,
    /// The turn that runs, as it is on record.
    pub run: Option<String>,
}

/// The conversation in contracts.
#[verifier::ext_equal]
pub struct ConversationView {
    pub active: Option<MessageView>,
    pub stream_session: Option<Seq<char>>,
    pub speech: Seq<char>,
    pub history: Seq<LineView>,
    pub audio_on: bool,
    pub busy: bool,
    pub warming: bool,
    pub ready: bool,
    pub awaiting: bool,
    pub provider_error: Option<Seq<char>>,
    pub provider: Seq<char>,
    pub run: Option<Seq<char>>,
}

pub open spec fn message_view(message: Option<ActiveMessage>) -> Option<MessageView> {
    match message {
        Some(message) => Some(MessageView { id: message.id@, text: message.text@ }),
        None => None,
    }
}

impl View for Conversation {
    type V = ConversationView;

    open spec fn view(&self) -> ConversationView {
        ConversationView {
            active: message_view(self.active),
            stream_session: opt_text(self.stream_session),
            speech: self.speech@,
            history: line_views(self.history@),
            audio_on: self.audio_on,
            busy: self.busy,
            warming: self.warming,
            ready: self.ready,
            awaiting: self.awaiting,
            provider_error: opt_text(self.provider_error),
            provider: self.provider@,
            run: opt_text(self.run),
        }
    }
}

/// The transcript with one more line, without its surrounding white space; a
/// blank line is left out, and only the newest eighty lines are kept.
pub open spec fn recorded(history: Seq<LineView>, by: Seq<char>, text: Seq<char>) -> Seq<LineView> {
    if blank(text) {
        history
    } else {
        let grown = history.push(LineView { by, text: trimmed(text) });
        if grown.len() > 80 {
            grown.skip(grown.len() - 80)
        } else {
            grown
        }
    }
}

/// A step of the conversation: the state after it, and what it sends.
pub struct Step {
    pub state: ConversationView,
    pub effects: EffectsView,
}

/// The message that is streaming ends: it goes into the transcript, the clients
/// are told, and how it ended goes on record.
pub open spec fn finished(state: ConversationView, outcome: ActivityOutcome) -> Step {
    match state.active {
        None => Step { state, effects: silence() },
        Some(message) => Step {
            state: ConversationView {
                active: None,
                history: recorded(state.history, "tutor"@, message.text),
                ..state
            },
            effects: silence().event(EventView::TextMessageEnd { id: message.id }).record(
                RecordView::Message {
                    by: Caller::Agent,
                    name: "message.assistant_finished"@,
                    outcome,
                    run: state.run,
                    message: Some(message.id),
                    detail: Some(size_note(message.text)),
                },
            ),
        },
    }
}

/// A streamed piece arrives. It counts only while a turn runs and the provider
/// is not starting: it opens a message or adds to the open one, and whole
/// sentences are spoken.
pub open spec fn chunk_step(state: ConversationView, text: Seq<char>, fresh: Seq<char>) -> Step {
    if text.len() == 0 || state.warming || !state.busy {
        Step { state, effects: silence() }
    } else {
        let id = match state.active {
            Some(message) => message.id,
            None => fresh,
        };
        let so_far = match state.active {
            Some(message) => message.text,
            None => Seq::empty(),
        };
        let heard = state.speech + text;
        let opening = match state.active {
            Some(_) => silence(),
            None => silence().event(EventView::TextMessageStart { id }).record(
                RecordView::Message {
                    by: Caller::Agent,
                    name: "message.assistant_started"@,
                    outcome: ActivityOutcome::Started,
                    run: state.run,
                    message: Some(id),
                    detail: None,
                },
            ),
        };
        Step {
            state: ConversationView {
                active: Some(MessageView { id, text: so_far + text }),
                speech: unfinished(heard),
                ..state
            },
            effects: EffectsView {
                events: opening.events.push(EventView::TextMessageContent { id, delta: text }),
                speech: if state.audio_on {
                    spoken_lines(whole_sentences(heard))
                } else {
                    Seq::empty()
                },
                ..opening
            },
        }
    }
}

/// A streamed piece arrives from a process session; it counts only where that
/// session is the one whose output counts.
pub open spec fn session_chunk_step(
    state: ConversationView,
    session: Seq<char>,
    text: Seq<char>,
    fresh: Seq<char>,
) -> Step {
    if state.stream_session != Some(session) {
        Step { state, effects: silence() }
    } else {
        chunk_step(state, text, fresh)
    }
}

/// A turn's output ends: what is left is spoken, and the message ends.
pub open spec fn flush_step(state: ConversationView) -> Step {
    let ended = finished(
        ConversationView { speech: Seq::empty(), ..state },
        ActivityOutcome::Succeeded,
    );
    if !blank(state.speech) && state.audio_on {
        Step {
            state: ended.state,
            effects: EffectsView {
                speech: Seq::empty().push(NarrationView::Say(speakable(trimmed(state.speech)))),
                ..ended.effects
            },
        }
    } else {
        ended
    }
}

/// A turn's output is cut off: speech stops, what is left is dropped, and the
/// message ends.
pub open spec fn cancel_step(state: ConversationView) -> Step {
    let ended = finished(
        ConversationView { speech: Seq::empty(), ..state },
        ActivityOutcome::Cancelled,
    );
    Step {
        state: ended.state,
        effects: EffectsView {
            speech: Seq::empty().push(NarrationView::Hush),
            ..ended.effects
        },
    }
}

/// Whether the assistant waits for the person, after a lifecycle word.
pub open spec fn awaiting_after(awaiting: bool, word: Seq<char>) -> bool {
    if word == "awaiting"@ {
        true
    } else if word == "thinking"@ || word == "warming"@ || word == "failed"@ {
        false
    } else {
        awaiting
    }
}

/// The event for a lifecycle word.
pub open spec fn tutor_notice(word: Seq<char>, question: Option<Seq<char>>) -> EventView {
    EventView::Custom {
        name: "surface.tutor"@,
        value: empty_object().with("state"@, JsonView::Text(word)).with(
            "question"@,
            text_or_null(question),
        ),
    }
}

/// The lifecycle moves on, and the clients are told.
pub open spec fn tutor_step(
    state: ConversationView,
    word: Seq<char>,
    question: Option<Seq<char>>,
) -> Step {
    Step {
        state: ConversationView { awaiting: awaiting_after(state.awaiting, word), ..state },
        effects: silence().lifecycle(word, question, state.run, state.provider),
    }
}

/// The person's turn begins as a run of its own: old speech stops, the line goes
/// into the transcript, the clients see it, and the assistant is thinking.
pub open spec fn human_turn_step(
    state: ConversationView,
    by: Seq<char>,
    text: Seq<char>,
    live: Option<EventView>,
    question: Option<Seq<char>>,
    fresh: Seq<char>,
) -> Step {
    let run = Some("run-"@ + fresh);
    let submitted = silence().say(NarrationView::Hush).record(
        RecordView::Message {
            by: Caller::Human,
            name: "message.human_submitted"@,
            outcome: ActivityOutcome::Started,
            run,
            message: None,
            detail: Some(size_note(text)),
        },
    );
    let shown = match live {
        Some(event) => submitted.event(event),
        None => submitted,
    };
    Step {
        state: ConversationView {
            busy: true,
            history: recorded(state.history, by, text),
            awaiting: false,
            run,
            ..state
        },
        effects: shown.lifecycle("thinking"@, question, run, state.provider),
    }
}

/// A complete message is said at once: an open message ends before it.
pub open spec fn notice_step(state: ConversationView, text: Seq<char>, fresh: Seq<char>) -> Step {
    if blank(text) {
        Step { state, effects: silence() }
    } else {
        let ended = finished(state, ActivityOutcome::Cancelled);
        Step {
            state: ConversationView {
                history: recorded(ended.state.history, "tutor"@, text),
                ..ended.state
            },
            effects: ended.effects.event(EventView::TextMessageStart { id: fresh }).event(
                EventView::TextMessageContent { id: fresh, delta: trimmed(text) },
            ).event(EventView::TextMessageEnd { id: fresh }).record(
                RecordView::HostMessage {
                    name: "message.host_notice"@,
                    outcome: ActivityOutcome::Succeeded,
                    run: state.run,
                    message: Some(fresh),
                    detail: Some(size_note(trimmed(text))),
                },
            ),
        }
    }
}

/// A turn ends: nothing runs any more, and the clients are told.
pub open spec fn finish_step(state: ConversationView) -> Step {
    Step {
        state: ConversationView { busy: false, run: None, ..state },
        effects: silence().lifecycle("done"@, None, state.run, state.provider),
    }
}

/// A turn fails: speech stops, the open message ends, the provider is down.
pub open spec fn fail_step(state: ConversationView, error: Seq<char>) -> Step {
    let ended = finished(
        ConversationView { speech: Seq::empty(), ..state },
        ActivityOutcome::Failed,
    );
    Step {
        state: ConversationView {
            ready: false,
            warming: false,
            provider_error: Some(error),
            busy: false,
            awaiting: false,
            run: None,
            ..ended.state
        },
        effects: (EffectsView {
            speech: Seq::empty().push(NarrationView::Hush),
            ..ended.effects
        }).lifecycle("failed"@, Some(error), state.run, state.provider),
    }
}

/// Another provider is asked for, or the same one anew: it is starting, and
/// whatever was wrong before is over.
pub open spec fn switch_step(state: ConversationView) -> Step {
    Step {
        state: ConversationView {
            ready: false,
            warming: true,
            provider_error: None,
            awaiting: false,
            ..state
        },
        effects: silence().lifecycle("warming"@, None, state.run, state.provider),
    }
}

/// Speech is turned on or off; what is being said stops when it is turned off.
pub open spec fn audio_step(state: ConversationView, on: bool) -> Step {
    Step {
        state: ConversationView { audio_on: on, ..state },
        effects: if on {
            silence()
        } else {
            silence().say(NarrationView::Hush)
        },
    }
}

/// What a reconnecting client is sent of the message that is streaming.
pub open spec fn active_replay(state: ConversationView) -> Seq<EventView> {
    match state.active {
        None => Seq::empty(),
        Some(message) => Seq::empty().push(
            EventView::TextMessageStart { id: message.id },
        ).push(EventView::TextMessageContent { id: message.id, delta: message.text }),
    }
}

/// Whether a step is the beginning of the person's turn, as a run of that name.
pub open spec fn begun_turn(
    state: ConversationView,
    by: Seq<char>,
    text: Seq<char>,
    live: Option<EventView>,
    question: Option<Seq<char>>,
    fresh: Seq<char>,
    step: Step,
) -> bool {
    step == human_turn_step(state, by, text, live, question, fresh)
}

pub open spec fn opt_event(event: Option<Event>) -> Option<EventView> {
    match event {
        Some(event) => Some(event@),
        None => None,
    }
}

/// How the assistant is doing, for a client that connects.
pub open spec fn tutor_state(state: ConversationView) -> JsonView {
    match state.provider_error {
        Some(error) => empty_object().with("state"@, JsonView::Text("failed"@)).with(
            "question"@,
            JsonView::Text(error),
        ),
        None => empty_object().with(
            "state"@,
            JsonView::Text(
                if state.warming || !state.ready {
                    "warming"@
                } else if state.busy {
                    "thinking"@
                } else {
                    "ready"@
                },
            ),
        ),
    }
}

/// A lifecycle event in the transcript of clients.
pub fn tutor_event_value(word: &str, question: Option<&str>) -> (event: Event)
    ensures
        event@ == tutor_notice(word@, opt_str(question)),
{
    let value: Json = match question {
        Some(question) => json_text(question),
        None => crate::json::json_null(),
    };
    custom("surface.tutor", object().with("state", json_text(word)).with("question", value))
}

/// Whether the assistant waits for the person, after a lifecycle word.
pub fn awaits_after(awaiting: bool, word: &str) -> (result: bool)
    ensures
        result == awaiting_after(awaiting, word@),
{
    if same(word, "awaiting") {
        true
    } else if same(word, "thinking") || same(word, "warming") || same(word, "failed") {
        false
    } else {
        awaiting
    }
}

impl Conversation {
    /// A conversation before its first turn.
    pub fn new(provider: &str, audio_on: bool) -> (conversation: Conversation)
        ensures
            conversation@ == (ConversationView {
                active: None,
                stream_session: None,
                speech: Seq::empty(),
                history: Seq::empty(),
                audio_on,
                busy: false,
                warming: true,
                ready: false,
                awaiting: false,
                provider_error: None,
                provider: provider@,
                run: None,
            }),
    {
        let conversation: Conversation = Conversation {
            active: None,
            stream_session: None,
            speech: String::new(),
            history: Vec::new(),
            audio_on,
            busy: false,
            warming: true,
            ready: false,
            awaiting: false,
            provider_error: None,
            provider: provider.to_owned(),
            run: None,
        };
        proof {
            assert(conversation@.history =~= Seq::empty());
        }
        conversation
    }

    /// Adds a line to the transcript.
    pub fn push_history(&mut self, by: &str, text: &str)
        ensures
            final(self)@ == (ConversationView {
                history: recorded(old(self)@.history, by@, text@),
                ..old(self)@
            }),
    {
        let line: &str = trim(text);
        if line.is_empty() {
            return;
        }
        let ghost before = line_views(self.history@);
        self.history.push(Line { by: by.to_owned(), text: line.to_owned() });
        let ghost grown = before.push(LineView { by: by@, text: trimmed(text@) });
        let ghost mut dropped: int = 0;
        proof {
            assert(line_views(self.history@) =~= grown);
            assert(grown.skip(0) =~= grown);
        }
        let ghost rest = ConversationView { history: Seq::empty(), ..self@ };
        while self.history.len() > 80
            invariant
                0 <= dropped <= grown.len(),
                line_views(self.history@) == grown.skip(dropped),
                dropped > 0 ==> grown.len() - dropped >= 80,
                rest == (ConversationView { history: Seq::empty(), ..self@ }),
            decreases self.history@.len(),
        {
            let ghost earlier = self.history@;
            self.history.remove(0);
            proof {
                assert(line_views(self.history@) =~= line_views(earlier).skip(1));
                assert(grown.skip(dropped).skip(1) =~= grown.skip(dropped + 1));
                assert(line_views(earlier).len() == grown.len() - dropped);
                dropped = dropped + 1;
            }
        }
        proof {
            assert(line_views(self.history@).len() == grown.len() - dropped);
        }
    }

    fn finish_active_message(&mut self, outcome: ActivityOutcome, effects: &mut Effects)
        ensures
            final(self)@ == finished(old(self)@, outcome).state,
            final(effects)@ == (EffectsView {
                events: old(effects)@.events + finished(old(self)@, outcome).effects.events,
                records: old(effects)@.records + finished(old(self)@, outcome).effects.records,
                ..old(effects)@
            }),
    {
        let ghost ended = finished(self@, outcome).effects;
        let ghost sent = effects@;
        match self.active.take() {
            None => {},
            Some(message) => {
                self.push_history("tutor", &message.text);
                effects.send(Event::TextMessageEnd { id: message.id.clone() });
                effects.record(
                    Record::Message {
                        by: Caller::Agent,
                        name: "message.assistant_finished".to_owned(),
                        outcome,
                        run: copy_opt(&self.run),
                        message: Some(message.id),
                        detail: Some(size_note_of(&message.text)),
                    },
                );
            },
        }
        proof {
            assert(effects@.events =~= sent.events + ended.events);
            assert(effects@.records =~= sent.records + ended.records);
        }
    }

    fn speak_sentences(&mut self, effects: &mut Effects)
        ensures
            final(self)@ == (ConversationView {
                speech: unfinished(old(self)@.speech),
                ..old(self)@
            }),
            final(effects)@ == (EffectsView {
                speech: if old(self)@.audio_on {
                    old(effects)@.speech + spoken_lines(whole_sentences(old(self)@.speech))
                } else {
                    old(effects)@.speech
                },
                ..old(effects)@
            }),
    {
        let ghost heard = self.speech@;
        let ghost sent = effects@.speech;
        let mut rest: Vec<char> = chars_of(&self.speech);
        let ghost mut done: Seq<Seq<char>> = Seq::empty();
        proof {
            assert(done + whole_sentences(heard) =~= whole_sentences(heard));
            assert(sent + spoken_lines(done) =~= sent);
        }
        loop
            invariant
                whole_sentences(heard) == done + whole_sentences(rest@),
                unfinished(heard) == unfinished(rest@),
                effects@ == (EffectsView {
                    speech: if self.audio_on {
                        sent + spoken_lines(done)
                    } else {
                        sent
                    },
                    ..old(effects)@
                }),
                sent == old(effects)@.speech,
                *self == *old(self),
            ensures
                whole_sentences(heard) == done,
                unfinished(heard) == rest@,
            decreases rest@.len(),
        {
            match sentence_break(&rest) {
                None => {
                    proof {
                        assert(done + Seq::<Seq<char>>::empty() =~= done);
                    }
                    break;
                },
                Some(end) => {
                    let piece: String = string_of(&rest, 0, end + 1);
                    let ghost whole = rest@;
                    let sentence: &str = trim(&piece);
                    if !sentence.is_empty() && self.audio_on {
                        effects.command(Narration::Say(sanitize_for_speech(sentence)));
                    }
                    let mut tail: Vec<char> = Vec::new();
                    let mut k: usize = end + 1;
                    while k < rest.len()
                        invariant
                            end < k <= rest@.len(),
                            tail@ == rest@.subrange(end + 1, k as int),
                        decreases rest@.len() - k,
                    {
                        tail.push(rest[k]);
                        proof {
                            assert(rest@.subrange(end + 1, k + 1) =~= rest@.subrange(
                                end + 1,
                                k as int,
                            ).push(rest@[k as int]));
                        }
                        k += 1;
                    }
                    rest = tail;
                    proof {
                        assert(whole.subrange(0, end + 1) =~= whole.take(end + 1));
                        assert(rest@ =~= whole.skip(end + 1));
                        let next = done.push(piece@);
                        assert(next.drop_last() =~= done);
                        assert(next.last() == piece@);
                        assert(done + (Seq::empty().push(piece@) + whole_sentences(rest@)) =~= next
                            + whole_sentences(rest@));
                        if !blank(piece@) {
                            assert((sent + spoken_lines(done)).push(
                                NarrationView::Say(speakable(trimmed(piece@))),
                            ) =~= sent + spoken_lines(next));
                        }
                        done = next;
                    }
                },
            }
        }
        self.speech = string_of(&rest, 0, rest.len());
        proof {
            assert(rest@.subrange(0, rest@.len() as int) =~= rest@);
        }
    }

    /// Takes a streamed piece of the assistant's message. `fresh` is the id for
    /// a message that it opens.
    pub fn narrate_chunk(&mut self, text: &str, fresh: &str) -> (effects: Effects)
        ensures
            final(self)@ == chunk_step(old(self)@, text@, fresh@).state,
            effects@ == chunk_step(old(self)@, text@, fresh@).effects,
    {
        let mut effects: Effects = Effects::none();
        if text.is_empty() || self.warming || !self.busy {
            return effects;
        }
        let mut message: ActiveMessage = match self.active.take() {
            Some(message) => message,
            None => {
                effects.record(
                    Record::Message {
                        by: Caller::Agent,
                        name: "message.assistant_started".to_owned(),
                        outcome: ActivityOutcome::Started,
                        run: copy_opt(&self.run),
                        message: Some(fresh.to_owned()),
                        detail: None,
                    },
                );
                effects.send(Event::TextMessageStart { id: fresh.to_owned() });
                ActiveMessage { id: fresh.to_owned(), text: String::new() }
            },
        };
        message.text.append(text);
        effects.send(
            Event::TextMessageContent { id: message.id.clone(), delta: text.to_owned() },
        );
        self.active = Some(message);
        self.speech.append(text);
        self.speak_sentences(&mut effects);
        proof {
            assert(effects@.speech =~= chunk_step(old(self)@, text@, fresh@).effects.speech);
        }
        effects
    }

    /// Takes a streamed piece from a process session.
    pub fn narrate_provider_chunk(&mut self, session: &str, text: &str, fresh: &str) -> (effects:
        Effects)
        ensures
            final(self)@ == session_chunk_step(old(self)@, session@, text@, fresh@).state,
            effects@ == session_chunk_step(old(self)@, session@, text@, fresh@).effects,
    {
        if !crate::text::is_some_text(&self.stream_session, session) {
            return Effects::none();
        }
        self.narrate_chunk(text, fresh)
    }

    /// Ends a turn's output.
    pub fn narrate_flush(&mut self) -> (effects: Effects)
        ensures
            final(self)@ == flush_step(old(self)@).state,
            effects@ == flush_step(old(self)@).effects,
    {
        let mut effects: Effects = Effects::none();
        let rest: String = self.speech.clone();
        self.speech = String::new();
        let line: &str = trim(&rest);
        if !line.is_empty() && self.audio_on {
            effects.command(Narration::Say(sanitize_for_speech(line)));
        }
        self.finish_active_message(ActivityOutcome::Succeeded, &mut effects);
        proof {
            assert(effects@ =~= flush_step(old(self)@).effects);
        }
        effects
    }

    /// Cuts a turn's output off.
    pub fn narrate_cancel(&mut self) -> (effects: Effects)
        ensures
            final(self)@ == cancel_step(old(self)@).state,
            effects@ == cancel_step(old(self)@).effects,
    {
        let mut effects: Effects = Effects::none();
        effects.command(Narration::Hush);
        self.speech = String::new();
        self.finish_active_message(ActivityOutcome::Cancelled, &mut effects);
        proof {
            assert(effects@ =~= cancel_step(old(self)@).effects);
        }
        effects
    }

    /// Stops speech and drops what is queued.
    pub fn hush(&self) -> (effects: Effects)
        ensures
            effects@ == silence().say(NarrationView::Hush),
    {
        let mut effects: Effects = Effects::none();
        effects.command(Narration::Hush);
        effects
    }

    /// Turns speech on or off.
    pub fn set_audio(&mut self, on: bool) -> (effects: Effects)
        ensures
            final(self)@ == audio_step(old(self)@, on).state,
            effects@ == audio_step(old(self)@, on).effects,
    {
        self.audio_on = on;
        if on {
            Effects::none()
        } else {
            self.hush()
        }
    }

    /// Drops what a former session left open, without telling anybody.
    pub fn reset_narration(&mut self)
        ensures
            final(self)@ == (ConversationView {
                speech: Seq::empty(),
                active: None,
                ..old(self)@
            }),
    {
        self.speech = String::new();
        self.active = None;
    }

    /// Says a complete message at once.
    pub fn emit_narrate(&mut self, text: &str, fresh: &str) -> (effects: Effects)
        ensures
            final(self)@ == notice_step(old(self)@, text@, fresh@).state,
            effects@ == notice_step(old(self)@, text@, fresh@).effects,
    {
        let mut effects: Effects = Effects::none();
        let line: &str = trim(text);
        if line.is_empty() {
            return effects;
        }
        self.finish_active_message(ActivityOutcome::Cancelled, &mut effects);
        proof {
            assert(effects@ =~= finished(old(self)@, ActivityOutcome::Cancelled).effects);
        }
        self.push_history("tutor", text);
        effects.send(Event::TextMessageStart { id: fresh.to_owned() });
        effects.send(Event::TextMessageContent { id: fresh.to_owned(), delta: line.to_owned() });
        effects.send(Event::TextMessageEnd { id: fresh.to_owned() });
        effects.record(
            Record::HostMessage {
                name: "message.host_notice".to_owned(),
                outcome: ActivityOutcome::Succeeded,
                run: copy_opt(&self.run),
                message: Some(fresh.to_owned()),
                detail: Some(size_note_of(line)),
            },
        );
        effects
    }

    /// Moves the lifecycle on.
    pub fn tutor_event(&mut self, word: &str, question: Option<&str>) -> (effects: Effects)
        ensures
            final(self)@ == tutor_step(old(self)@, word@, opt_str(question)).state,
            effects@ == tutor_step(old(self)@, word@, opt_str(question)).effects,
    {
        let mut effects: Effects = Effects::none();
        self.awaiting = awaits_after(self.awaiting, word);
        effects.lifecycle(word, question, &self.run, &self.provider);
        effects
    }

    /// Adds a line to the transcript and shows it to the clients.
    pub fn push_history_and_surface_event(
        &mut self,
        by: &str,
        text: &str,
        name: &str,
        value: Json,
    ) -> (effects: Effects)
        ensures
            final(self)@ == (ConversationView {
                history: recorded(old(self)@.history, by@, text@),
                ..old(self)@
            }),
            effects@ == silence().event(EventView::Custom { name: name@, value: value@ }),
    {
        let mut effects: Effects = Effects::none();
        self.push_history(by, text);
        effects.send(custom(name, value));
        effects
    }

    /// Begins the person's turn. `fresh` names the run.
    pub fn begin_human_turn_with(
        &mut self,
        by: &str,
        text: &str,
        live: Option<Event>,
        question: Option<&str>,
        fresh: &str,
    ) -> (effects: Effects)
        ensures
            final(self)@ == human_turn_step(
                old(self)@,
                by@,
                text@,
                opt_event(live),
                opt_str(question),
                fresh@,
            ).state,
            effects@ == human_turn_step(
                old(self)@,
                by@,
                text@,
                opt_event(live),
                opt_str(question),
                fresh@,
            ).effects,
    {
        let mut effects: Effects = Effects::none();
        self.run = Some(concat2("run-", fresh));
        effects.record(
            Record::Message {
                by: Caller::Human,
                name: "message.human_submitted".to_owned(),
                outcome: ActivityOutcome::Started,
                run: copy_opt(&self.run),
                message: None,
                detail: Some(size_note_of(text)),
            },
        );
        self.busy = true;
        effects.command(Narration::Hush);
        self.push_history(by, text);
        match live {
            Some(event) => {
                effects.send(event);
            },
            None => {},
        }
        self.awaiting = false;
        effects.lifecycle("thinking", question, &self.run, &self.provider);
        effects
    }

    /// Begins the person's turn, as a run with a name of its own.
    pub fn begin_human_turn(
        &mut self,
        by: &str,
        text: &str,
        live: Option<Event>,
        question: Option<&str>,
    ) -> (effects: Effects)
        ensures
            exists|fresh: Seq<char>|
                fresh_hex(fresh) && #[trigger] begun_turn(
                    old(self)@,
                    by@,
                    text@,
                    opt_event(live),
                    opt_str(question),
                    fresh,
                    Step { state: final(self)@, effects: effects@ },
                ),
    {
        let fresh: String = fresh_id();
        let effects: Effects = self.begin_human_turn_with(by, text, live, question, &fresh);
        proof {
            assert(fresh_hex(fresh@));
            assert(begun_turn(
                old(self)@,
                by@,
                text@,
                opt_event(live),
                opt_str(question),
                fresh@,
                Step { state: self@, effects: effects@ },
            ));
        }
        effects
    }

    /// Ends a turn.
    pub fn finish_turn(&mut self) -> (effects: Effects)
        ensures
            final(self)@ == finish_step(old(self)@).state,
            effects@ == finish_step(old(self)@).effects,
    {
        let mut effects: Effects = Effects::none();
        self.busy = false;
        effects.lifecycle("done", None, &self.run, &self.provider);
        self.run = None;
        effects
    }

    /// Ends a turn that no provider could take.
    pub fn fail_turn(&mut self, error: &str) -> (effects: Effects)
        ensures
            final(self)@ == fail_step(old(self)@, error@).state,
            effects@ == fail_step(old(self)@, error@).effects,
    {
        let mut effects: Effects = Effects::none();
        effects.command(Narration::Hush);
        self.speech = String::new();
        self.finish_active_message(ActivityOutcome::Failed, &mut effects);
        self.ready = false;
        self.warming = false;
        self.provider_error = Some(error.to_owned());
        self.busy = false;
        self.awaiting = false;
        proof {
            let ended = finished(
                ConversationView { speech: Seq::empty(), ..old(self)@ },
                ActivityOutcome::Failed,
            );
            assert(effects@ =~= EffectsView {
                speech: Seq::empty().push(NarrationView::Hush),
                ..ended.effects
            });
        }
        effects.lifecycle("failed", Some(error), &self.run, &self.provider);
        self.run = None;
        effects
    }

    /// Asks for another provider, or for the same one anew.
    pub fn begin_switch(&mut self) -> (effects: Effects)
        ensures
            final(self)@ == switch_step(old(self)@).state,
            effects@ == switch_step(old(self)@).effects,
    {
        let mut effects: Effects = Effects::none();
        self.ready = false;
        self.warming = true;
        self.provider_error = None;
        self.awaiting = false;
        effects.lifecycle("warming", None, &self.run, &self.provider);
        effects
    }

    /// What a reconnecting client is sent of the message that is streaming.
    pub fn active_message_events(&self) -> (events: Vec<Event>)
        ensures
            event_views(events@) == active_replay(self@),
    {
        let mut events: Vec<Event> = Vec::new();
        match &self.active {
            None => {},
            Some(message) => {
                events.push(Event::TextMessageStart { id: message.id.clone() });
                events.push(
                    Event::TextMessageContent {
                        id: message.id.clone(),
                        delta: message.text.clone(),
                    },
                );
            },
        }
        proof {
            assert(event_views(events@) =~= active_replay(self@));
        }
        events
    }

    /// How the assistant is doing, for a client that connects.
    pub fn initial_tutor_state(&self) -> (value: Json)
        ensures
            value@ == tutor_state(self@),
    {
        match &self.provider_error {
            Some(error) => object().with("state", json_text("failed")).with(
                "question",
                json_text(error),
            ),
            None => object().with(
                "state",
                json_text(
                    if self.warming || !self.ready {
                        "warming"
                    } else if self.busy {
                        "thinking"
                    } else {
                        "ready"
                    },
                ),
            ),
        }
    }
}

// Laws of the conversation.

/// The transcript never holds more than eighty lines, and a line that is not
/// blank is its newest.
pub proof fn law_the_transcript_is_bounded_and_keeps_the_newest(
    history: Seq<LineView>,
    by: Seq<char>,
    text: Seq<char>,
)
    requires
        history.len() <= 80,
    ensures
        recorded(history, by, text).len() <= 80,
        !blank(text) ==> recorded(history, by, text).last() == (LineView {
            by,
            text: trimmed(text),
        }),
        history.len() < 80 && !blank(text) ==> recorded(history, by, text) == history.push(
            LineView { by, text: trimmed(text) },
        ),
{
}

/// Two streamed pieces and the end of the turn make one message for the clients
/// and one line in the transcript, both holding the pieces in order.
pub proof fn law_streamed_pieces_form_one_message_and_one_line(
    state: ConversationView,
    first: Seq<char>,
    second: Seq<char>,
    one: Seq<char>,
    other: Seq<char>,
)
    requires
        state.busy,
        !state.warming,
        state.active is None,
        first.len() > 0,
        second.len() > 0,
    ensures
        ({
            let a = chunk_step(state, first, one);
            let b = chunk_step(a.state, second, other);
            let c = flush_step(b.state);
            &&& a.effects.events + b.effects.events + c.effects.events =~= Seq::empty().push(
                EventView::TextMessageStart { id: one },
            ).push(EventView::TextMessageContent { id: one, delta: first }).push(
                EventView::TextMessageContent { id: one, delta: second },
            ).push(EventView::TextMessageEnd { id: one })
            &&& c.state.history == recorded(state.history, "tutor"@, first + second)
            &&& c.state.active is None
            &&& c.state.speech.len() == 0
        }),
{
    let a = chunk_step(state, first, one);
    let b = chunk_step(a.state, second, other);
    assert(a.state.active == Some(MessageView { id: one, text: first })) by {
        assert(Seq::<char>::empty() + first =~= first);
    }
    assert(b.state.active == Some(MessageView { id: one, text: first + second }));
}

/// Once a turn was cut off and nothing runs any more, a late piece changes
/// nothing and reaches nobody.
pub proof fn law_a_late_piece_is_ignored(
    state: ConversationView,
    session: Seq<char>,
    text: Seq<char>,
    fresh: Seq<char>,
)
    requires
        !state.busy,
    ensures
        ({
            let stopped = cancel_step(state).state;
            &&& stopped.active is None
            &&& stopped.speech.len() == 0
            &&& chunk_step(stopped, text, fresh) == (Step { state: stopped, effects: silence() })
            &&& session_chunk_step(stopped, session, text, fresh) == (Step {
                state: stopped,
                effects: silence(),
            })
        }),
{
}

/// A piece from another session than the one whose output counts changes
/// nothing and reaches nobody.
pub proof fn law_a_foreign_session_is_ignored(
    state: ConversationView,
    session: Seq<char>,
    text: Seq<char>,
    fresh: Seq<char>,
)
    requires
        state.stream_session != Some(session),
    ensures
        session_chunk_step(state, session, text, fresh) == (Step { state, effects: silence() }),
{
}

/// A client that reconnects while a message streams gets every piece once: what
/// is replayed to it and the piece that follows make up the message.
pub proof fn law_replay_and_live_pieces_make_up_the_message(
    state: ConversationView,
    text: Seq<char>,
    fresh: Seq<char>,
)
    requires
        state.busy,
        !state.warming,
        state.active is Some,
        text.len() > 0,
    ensures
        ({
            let next = chunk_step(state, text, fresh);
            let message = state.active->0;
            &&& active_replay(state) == Seq::empty().push(
                EventView::TextMessageStart { id: message.id },
            ).push(EventView::TextMessageContent { id: message.id, delta: message.text })
            &&& next.effects.events =~= Seq::empty().push(
                EventView::TextMessageContent { id: message.id, delta: text },
            )
            &&& next.state.active == Some(
                MessageView { id: message.id, text: message.text + text },
            )
        }),
{
}

/// An accepted turn shows its line and the thinking assistant together, and a
/// client that connects after it finds both.
pub proof fn law_an_accepted_turn_is_one_transition(
    state: ConversationView,
    by: Seq<char>,
    text: Seq<char>,
    live: Option<EventView>,
    question: Option<Seq<char>>,
    fresh: Seq<char>,
)
    requires
        state.ready,
        !state.warming,
        state.provider_error is None,
        !blank(text),
        state.history.len() <= 80,
    ensures
        ({
            let next = human_turn_step(state, by, text, live, question, fresh).state;
            &&& next.history.last() == (LineView { by, text: trimmed(text) })
            &&& tutor_state(next) == empty_object().with("state"@, JsonView::Text("thinking"@))
        }),
{
}

/// After a failed turn nothing runs, nothing streams, and a client that
/// connects is told of the failure.
pub proof fn law_a_failed_turn_is_terminal(state: ConversationView, error: Seq<char>)
    ensures
        ({
            let next = fail_step(state, error).state;
            &&& !next.busy
            &&& next.run is None
            &&& next.active is None
            &&& next.speech.len() == 0
            &&& tutor_state(next) == empty_object().with("state"@, JsonView::Text("failed"@)).with(
                "question"@,
                JsonView::Text(error),
            )
        }),
{
}

/// Once speech is turned off, nothing that streams is said until it is turned on
/// again.
pub proof fn law_nothing_is_said_with_audio_off(
    state: ConversationView,
    session: Seq<char>,
    text: Seq<char>,
    fresh: Seq<char>,
)
    ensures
        ({
            let quiet = audio_step(state, false);
            let a = chunk_step(quiet.state, text, fresh);
            let b = session_chunk_step(quiet.state, session, text, fresh);
            let c = flush_step(a.state);
            &&& quiet.effects.speech == Seq::empty().push(NarrationView::Hush)
            &&& a.effects.speech.len() == 0
            &&& b.effects.speech.len() == 0
            &&& c.effects.speech.len() == 0
            &&& !a.state.audio_on && !b.state.audio_on && !c.state.audio_on
        }),
{
}

/// Asking for a provider again ends a failure: a client that connects is told
/// that the provider is starting.
pub proof fn law_a_switch_ends_a_failure(state: ConversationView)
    ensures
        tutor_state(switch_step(state).state) == empty_object().with(
            "state"@,
            JsonView::Text("warming"@),
        ),
{
}

/// A turn goes on record as one run: the person's message and the assistant's
/// are under the run's name, and once the turn has ended none runs.
pub proof fn law_a_turn_is_on_record_as_one_run(
    state: ConversationView,
    by: Seq<char>,
    text: Seq<char>,
    live: Option<EventView>,
    question: Option<Seq<char>>,
    fresh: Seq<char>,
    piece: Seq<char>,
    id: Seq<char>,
)
    requires
        !state.warming,
        state.active is None,
        piece.len() > 0,
    ensures
        ({
            let run = Some("run-"@ + fresh);
            let a = human_turn_step(state, by, text, live, question, fresh);
            let b = chunk_step(a.state, piece, id);
            let c = flush_step(b.state);
            let d = finish_step(c.state);
            &&& a.effects.records[0] == (RecordView::Message {
                by: Caller::Human,
                name: "message.human_submitted"@,
                outcome: ActivityOutcome::Started,
                run,
                message: None,
                detail: Some(size_note(text)),
            })
            &&& b.effects.records =~= Seq::empty().push(
                RecordView::Message {
                    by: Caller::Agent,
                    name: "message.assistant_started"@,
                    outcome: ActivityOutcome::Started,
                    run,
                    message: Some(id),
                    detail: None,
                },
            )
            &&& c.effects.records =~= Seq::empty().push(
                RecordView::Message {
                    by: Caller::Agent,
                    name: "message.assistant_finished"@,
                    outcome: ActivityOutcome::Succeeded,
                    run,
                    message: Some(id),
                    detail: Some(size_note(piece)),
                },
            )
            &&& d.effects.records =~= lifecycle_records("done"@, None, run, state.provider)
            &&& d.state.run is None
        }),
{
    assert(Seq::<char>::empty() + piece =~= piece);
}

// The speaker.

/// The lines that wait to be spoken, and whether one is being spoken.
#[derive(Debug, PartialEq, Eq)]
pub struct SpeechQueue {
    pub lines: Vec<String>,
    pub speaking: bool,
}

/// The speaker's queue in contracts.
#[verifier::ext_equal]
pub struct QueueView {
    pub lines: Seq<Seq<char>>,
    pub speaking: bool,
}

impl View for SpeechQueue {
    type V = QueueView;

    open spec fn view(&self) -> QueueView {
        QueueView { lines: texts(self.lines@), speaking: self.speaking }
    }
}

/// What the speaker does next.
#[derive(Clone, Copy, Debug, PartialEq, Eq, Structural)]
pub enum SpeakerAction {
    /// Go on as before.
    Continue,
    /// Stop the line that is being spoken.
    Stop,
    /// Stop the line that is being spoken, and end.
    StopAndExit,
    /// End.
    Exit,
}

/// The queue after a command, or after the commands ended, and what to do.
pub open spec fn after_command(queue: QueueView, command: Option<NarrationView>) -> (
    QueueView,
    SpeakerAction,
) {
    match command {
        Some(NarrationView::Say(text)) => (
            QueueView { lines: queue.lines.push(text), ..queue },
            SpeakerAction::Continue,
        ),
        Some(NarrationView::Hush) => (
            QueueView { lines: Seq::empty(), speaking: false },
            if queue.speaking {
                SpeakerAction::Stop
            } else {
                SpeakerAction::Continue
            },
        ),
        None => (
            QueueView { speaking: false, ..queue },
            if queue.speaking {
                SpeakerAction::StopAndExit
            } else {
                SpeakerAction::Exit
            },
        ),
    }
}

pub open spec fn opt_narration(command: Option<Narration>) -> Option<NarrationView> {
    match command {
        Some(command) => Some(command@),
        None => None,
    }
}

impl SpeechQueue {
    /// A silent speaker.
    pub fn new() -> (queue: SpeechQueue)
        ensures
            queue@ == (QueueView { lines: Seq::empty(), speaking: false }),
    {
        let queue: SpeechQueue = SpeechQueue { lines: Vec::new(), speaking: false };
        proof {
            assert(queue@.lines =~= Seq::empty());
        }
        queue
    }

    /// Takes a command, or the end of the commands.
    pub fn command(&mut self, command: Option<Narration>) -> (action: SpeakerAction)
        ensures
            (final(self)@, action) == after_command(old(self)@, opt_narration(command)),
    {
        match command {
            Some(Narration::Say(text)) => {
                let ghost before = self.lines@;
                self.lines.push(text);
                proof {
                    assert(texts(self.lines@) =~= texts(before).push(text@));
                }
                SpeakerAction::Continue
            },
            Some(Narration::Hush) => {
                let speaking: bool = self.speaking;
                self.lines.clear();
                self.speaking = false;
                proof {
                    assert(texts(self.lines@) =~= Seq::empty());
                }
                if speaking {
                    SpeakerAction::Stop
                } else {
                    SpeakerAction::Continue
                }
            },
            None => {
                let speaking: bool = self.speaking;
                self.speaking = false;
                if speaking {
                    SpeakerAction::StopAndExit
                } else {
                    SpeakerAction::Exit
                }
            },
        }
    }

    /// The line to speak next, where none is being spoken: the oldest that
    /// waits.
    pub fn next_line(&mut self) -> (line: Option<String>)
        ensures
            line is Some <==> !old(self)@.speaking && old(self)@.lines.len() > 0,
            match line {
                Some(line) => {
                    &&& line@ == old(self)@.lines[0]
                    &&& final(self)@ == (QueueView {
                        lines: old(self)@.lines.skip(1),
                        speaking: true,
                    })
                },
                None => final(self)@ == old(self)@,
            },
    {
        if self.speaking || self.lines.len() == 0 {
            return None;
        }
        let ghost before = self.lines@;
        let line: String = self.lines.remove(0);
        self.speaking = true;
        proof {
            assert(texts(self.lines@) =~= texts(before).skip(1));
        }
        Some(line)
    }

    /// The line that was being spoken is over, or could not be spoken.
    pub fn line_ended(&mut self)
        ensures
            final(self)@ == (QueueView { speaking: false, ..old(self)@ }),
    {
        self.speaking = false;
    }
}

/// After a hush nothing is queued and nothing is spoken.
pub proof fn law_hush_silences_everything(queue: QueueView)
    ensures
        after_command(queue, Some(NarrationView::Hush)).0 == (QueueView {
            lines: Seq::empty(),
            speaking: false,
        }),
        queue.speaking ==> after_command(queue, Some(NarrationView::Hush)).1 is Stop,
{
}

/// A line queues behind those that already wait, whatever is being spoken.
pub proof fn law_lines_are_spoken_in_order(queue: QueueView, text: Seq<char>)
    ensures
        ({
            let next = after_command(queue, Some(NarrationView::Say(text))).0;
            &&& next.lines.drop_last() =~= queue.lines
            &&& next.lines.last() == text
            &&& next.speaking == queue.speaking
        }),
{
}

} // verus!
