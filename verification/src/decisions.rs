//! Decisions that wait for the human: what counts as a reply, and which of the
//! waiting decisions a reply, a cancelled waiter or a departing provider closes.

use vstd::prelude::*;

use crate::events::{decision_closed, decision_closed_event, event_views, Event, EventView};
use crate::json::{text_or, Json, JsonView};
use crate::lists::{
    first_index, lemma_filter_next, lemma_first_index, lemma_is_first_index, reports,
};
use crate::routes::{error_body, error_json, Reply, ReplyView};
use crate::text::{
    before, concat2, concat3, debug_quote, debug_text, list_contains, same, text_before, texts,
    trim, trimmed,
};

verus! {

/// What a decision accepts as a reply.
#[derive(Debug, PartialEq, Eq)]
pub enum ReplyKind {
    /// Any object that names the decision.
    Any,
    /// Approved or rejected; a rejection can require a comment.
    Approval { require_reject_comment: bool },
    /// One of the offered options; some of them require a text.
    Choice { allowed: Vec<String>, text_required_for: Vec<String> },
}

/// A reply kind in contracts.
pub enum KindView {
    Any,
    Approval { require_reject_comment: bool },
    Choice { allowed: Seq<Seq<char>>, text_required_for: Seq<Seq<char>> },
}

impl View for ReplyKind {
    type V = KindView;

    open spec fn view(&self) -> KindView {
        match self {
            ReplyKind::Any => KindView::Any,
            ReplyKind::Approval { require_reject_comment } => KindView::Approval {
                require_reject_comment: *require_reject_comment,
            },
            ReplyKind::Choice { allowed, text_required_for } => KindView::Choice {
                allowed: texts(allowed@),
                text_required_for: texts(text_required_for@),
            },
        }
    }
}

/// A trimmed text member, empty where it is absent or no text.
pub open spec fn trimmed_member(body: JsonView, name: Seq<char>) -> Seq<char> {
    match body.text_member(name) {
        Some(text) => trimmed(text),
        None => ""@,
    }
}

/// Whether a member is there and is no text.
pub open spec fn wrong_text(body: JsonView, name: Seq<char>) -> bool {
    body.member(name) is Some && body.text_member(name) is None
}

/// What is wrong with a reply.
pub open spec fn reply_problem(kind: KindView, body: JsonView) -> Option<Seq<char>> {
    if !(body is Object) {
        Some("decision reply must be a JSON object"@)
    } else {
        match kind {
            KindView::Any => None,
            KindView::Approval { require_reject_comment } => {
                let status = trimmed_member(body, "status"@);
                if status != "approved"@ && status != "rejected"@ {
                    Some("approval decision `status` must be `approved` or `rejected`"@)
                } else if wrong_text(body, "comment"@) {
                    Some("approval decision `comment` must be a string"@)
                } else if status == "rejected"@ && require_reject_comment && trimmed_member(
                    body,
                    "comment"@,
                ).len() == 0 {
                    Some("a rejected decision requires a non-empty `comment`"@)
                } else {
                    None
                }
            },
            KindView::Choice { allowed, text_required_for } => {
                let chosen = trimmed_member(body, "chosen"@);
                if chosen.len() == 0 {
                    Some("choice decision requires a non-empty string `chosen`"@)
                } else if !allowed.contains(chosen) {
                    Some("choice decision selected unknown option "@ + debug_text(chosen))
                } else if wrong_text(body, "text"@) {
                    Some("choice decision `text` must be a string when present"@)
                } else if text_required_for.contains(chosen) && trimmed_member(body, "text"@).len()
                    == 0 {
                    Some(
                        "choice decision "@ + debug_text(chosen)
                            + " requires non-empty human-authored `text`"@,
                    )
                } else {
                    None
                }
            },
        }
    }
}

fn trimmed_member_text<'a>(body: &'a Json, name: &str) -> (text: &'a str)
    ensures
        text@ == trimmed_member(body@, name@),
{
    match body.str_member(name) {
        Some(text) => trim(text),
        None => "",
    }
}

fn has_wrong_text(body: &Json, name: &str) -> (result: bool)
    ensures
        result == wrong_text(body@, name@),
{
    match body.get(name) {
        Some(value) => value.as_str().is_none(),
        None => false,
    }
}

/// Whether a body is a reply that a decision accepts.
pub fn validate_decision_reply(reply_kind: &ReplyKind, body: &Json) -> (outcome: Result<(), String>)
    ensures
        reports(outcome, reply_problem(reply_kind@, body@)),
{
    if !body.is_object() {
        return Err("decision reply must be a JSON object".to_owned());
    }
    match reply_kind {
        ReplyKind::Any => Ok(()),
        ReplyKind::Approval { require_reject_comment } => {
            let status: &str = trimmed_member_text(body, "status");
            let rejected: bool = same(status, "rejected");
            if !same(status, "approved") && !rejected {
                return Err(
                    "approval decision `status` must be `approved` or `rejected`".to_owned(),
                );
            }
            if has_wrong_text(body, "comment") {
                return Err("approval decision `comment` must be a string".to_owned());
            }
            if rejected && *require_reject_comment && trimmed_member_text(
                body,
                "comment",
            ).is_empty() {
                return Err("a rejected decision requires a non-empty `comment`".to_owned());
            }
            Ok(())
        },
        ReplyKind::Choice { allowed, text_required_for } => {
            let chosen: &str = trimmed_member_text(body, "chosen");
            if chosen.is_empty() {
                return Err("choice decision requires a non-empty string `chosen`".to_owned());
            }
            if !list_contains(allowed, chosen) {
                return Err(
                    concat2("choice decision selected unknown option ", &debug_quote(chosen)),
                );
            }
            if has_wrong_text(body, "text") {
                return Err("choice decision `text` must be a string when present".to_owned());
            }
            if list_contains(text_required_for, chosen) && trimmed_member_text(
                body,
                "text",
            ).is_empty() {
                return Err(
                    concat3(
                        "choice decision ",
                        &debug_quote(chosen),
                        " requires non-empty human-authored `text`",
                    ),
                );
            }
            Ok(())
        },
    }
}

// Waiting decisions.

/// A decision that waits for its reply.
#[derive(Debug, PartialEq, Eq)]
pub struct PendingDecision {
    /// The identity of the waiter.
    pub token: String,
    /// What the decision accepts as a reply.
    pub reply_kind: ReplyKind,
    /// The event that was sent for the decision, in its wire form.
    pub event_json: String,
    /// Whether the reply handler is still there, so that no reply has claimed
    /// the decision.
    pub unclaimed: bool,
    /// Whether the waiter can still be told.
    pub receiver: bool,
}

/// A waiting decision in contracts.
pub struct PendingView {
    pub token: Seq<char>,
    pub reply_kind: KindView,
    pub event_json: Seq<char>,
    pub unclaimed: bool,
    pub receiver: bool,
}

impl View for PendingDecision {
    type V = PendingView;

    open spec fn view(&self) -> PendingView {
        PendingView {
            token: self.token@,
            reply_kind: self.reply_kind@,
            event_json: self.event_json@,
            unclaimed: self.unclaimed,
            receiver: self.receiver,
        }
    }
}

/// A waiting decision under its id.
pub struct Entry {
    pub id: Seq<char>,
    pub pending: PendingView,
}

/// The decisions that wait, each under its own id.
#[derive(Debug, PartialEq, Eq)]
pub struct PendingDecisions {
    entries: Vec<(String, PendingDecision)>,
}

impl View for PendingDecisions {
    type V = Seq<Entry>;

    closed spec fn view(&self) -> Seq<Entry> {
        Seq::new(
            self.entries@.len(),
            |i: int| Entry { id: self.entries@[i].0@, pending: self.entries@[i].1@ },
        )
    }
}

/// Whether no two decisions wait under the same id.
pub open spec fn distinct(entries: Seq<Entry>) -> bool {
    forall|i: int, j: int|
        0 <= i < j < entries.len() ==> (#[trigger] entries[i]).id != (#[trigger] entries[j]).id
}

/// Where a decision stands that waits under the given id.
pub open spec fn position(entries: Seq<Entry>, id: Seq<char>) -> Option<int> {
    first_index(entries.len(), |i: int| entries[i].id == id)
}

/// Whether a decision waits under the given id.
pub open spec fn waiting(entries: Seq<Entry>, id: Seq<char>) -> bool {
    position(entries, id) is Some
}

/// The decision at a position, claimed, with its waiter as given.
pub open spec fn claimed(entry: Entry, receiver: bool) -> Entry {
    Entry { pending: PendingView { unclaimed: false, receiver, ..entry.pending }, ..entry }
}

/// What a posted reply leads to.
#[derive(Debug, PartialEq)]
pub enum ClaimStep {
    /// Answer at once.
    Answer(Reply),
    /// Run the handler of this decision.
    Run { id: String, token: String },
}

/// A claim in contracts.
pub enum ClaimView {
    Answer(ReplyView),
    Run { id: Seq<char>, token: Seq<char> },
}

impl View for ClaimStep {
    type V = ClaimView;

    open spec fn view(&self) -> ClaimView {
        match self {
            ClaimStep::Answer(reply) => ClaimView::Answer(reply@),
            ClaimStep::Run { id, token } => ClaimView::Run { id: id@, token: token@ },
        }
    }
}

/// An answer that carries an error.
pub open spec fn error_reply(status: u16, message: Seq<char>) -> ReplyView {
    ReplyView { status, body: error_body(message) }
}

/// An answer that carries an error.
pub fn reply_error(status: u16, message: &str) -> (reply: Reply)
    ensures
        reply@ == error_reply(status, message@),
{
    Reply { status, body: error_json(message) }
}

/// What a posted reply leads to, and the waiting decisions after it. A reply
/// that the decision does not accept changes nothing; an accepted one claims
/// the decision, once.
pub open spec fn claim_outcome(entries: Seq<Entry>, body: JsonView) -> (Seq<Entry>, ClaimView) {
    let id = trimmed(text_or(body.text_member("id"@), ""@));
    if id.len() == 0 {
        (entries, ClaimView::Answer(error_reply(400, "missing decision id"@)))
    } else {
        match position(entries, id) {
            None => (entries, ClaimView::Answer(error_reply(409, "no pending decision"@))),
            Some(i) => match reply_problem(entries[i].pending.reply_kind, body) {
                Some(message) => (entries, ClaimView::Answer(error_reply(422, message))),
                None => if !entries[i].pending.unclaimed {
                    (
                        entries,
                        ClaimView::Answer(
                            error_reply(409, "decision is already being resolved"@),
                        ),
                    )
                } else if !entries[i].pending.receiver {
                    (
                        entries.update(i, claimed(entries[i], false)),
                        ClaimView::Answer(error_reply(409, "decision receiver is unavailable"@)),
                    )
                } else {
                    (
                        entries.update(i, claimed(entries[i], false)),
                        ClaimView::Run { id, token: entries[i].pending.token },
                    )
                },
            },
        }
    }
}

/// Whether the decision under an id belongs to the waiter and is claimed.
pub open spec fn claimed_by(entries: Seq<Entry>, id: Seq<char>, token: Seq<char>) -> bool {
    position(entries, id) matches Some(i) && entries[i].pending.token == token
        && !entries[i].pending.unclaimed
}

/// Whether the decision under an id belongs to the waiter and is not claimed.
pub open spec fn closable_by(entries: Seq<Entry>, id: Seq<char>, token: Seq<char>) -> bool {
    position(entries, id) matches Some(i) && entries[i].pending.token == token
        && entries[i].pending.unclaimed
}

/// The waiting decisions without the one under an id.
pub open spec fn without(entries: Seq<Entry>, id: Seq<char>) -> Seq<Entry> {
    match position(entries, id) {
        Some(i) => entries.remove(i),
        None => entries,
    }
}

/// Decisions that no reply has claimed.
pub open spec fn is_unclaimed() -> spec_fn(Entry) -> bool {
    |entry: Entry| entry.pending.unclaimed
}

/// Decisions that a reply has claimed.
pub open spec fn is_claimed() -> spec_fn(Entry) -> bool {
    |entry: Entry| !entry.pending.unclaimed
}

/// The closing events for a list of decisions.
pub open spec fn closing_events(entries: Seq<Entry>, reason: Seq<char>) -> Seq<EventView> {
    Seq::new(entries.len(), |i: int| decision_closed(entries[i].id, reason))
}

/// Decisions in the order of their ids, with one more.
pub open spec fn insert_by_id(sorted: Seq<Entry>, entry: Entry) -> Seq<Entry>
    decreases sorted.len(),
{
    if sorted.len() == 0 || !text_before(entry.id, sorted.last().id) {
        sorted.push(entry)
    } else {
        insert_by_id(sorted.drop_last(), entry).push(sorted.last())
    }
}

/// Decisions in the order of their ids.
pub open spec fn by_id(entries: Seq<Entry>) -> Seq<Entry>
    decreases entries.len(),
{
    if entries.len() == 0 {
        Seq::empty()
    } else {
        insert_by_id(by_id(entries.drop_last()), entries.last())
    }
}

/// The events of a list of decisions.
pub open spec fn pending_texts(entries: Seq<Entry>) -> Seq<Seq<char>> {
    Seq::new(entries.len(), |i: int| entries[i].pending.event_json)
}

impl PendingDecisions {
    /// No two decisions wait under the same id.
    pub open spec fn wf(&self) -> bool {
        distinct(self@)
    }

    /// No waiting decisions.
    pub fn new() -> (result: PendingDecisions)
        ensures
            result.wf(),
            result@ == Seq::<Entry>::empty(),
    {
        let result: PendingDecisions = PendingDecisions { entries: Vec::new() };
        proof {
            assert(result@ =~= Seq::<Entry>::empty());
        }
        result
    }

    /// How many decisions wait.
    pub fn len(&self) -> (count: usize)
        ensures
            count == self@.len(),
    {
        self.entries.len()
    }

    fn find(&self, id: &str) -> (result: Option<usize>)
        ensures
            match result {
                Some(i) => position(self@, id@) == Some(i as int) && i < self@.len()
                    && self@[i as int].id == id@,
                None => position(self@, id@) is None,
            },
    {
        let ghost here = |i: int| self@[i].id == id@;
        let mut i: usize = 0;
        while i < self.entries.len()
            invariant
                i <= self.entries@.len(),
                here == (|i: int| self@[i].id == id@),
                forall|k: int| 0 <= k < i ==> !(#[trigger] here(k)),
            decreases self.entries@.len() - i,
        {
            if same(&self.entries[i].0, id) {
                proof {
                    assert(here(i as int));
                    lemma_is_first_index(self@.len(), here, i as int);
                }
                return Some(i);
            }
            proof {
                assert(!here(i as int));
            }
            i += 1;
        }
        proof {
            lemma_first_index(self@.len(), here);
        }
        None
    }

    /// Whether a decision waits under the given id.
    pub fn contains(&self, id: &str) -> (result: bool)
        ensures
            result == waiting(self@, id@),
    {
        self.find(id).is_some()
    }

    /// The waiter's token of the decision under the given id.
    pub fn token(&self, id: &str) -> (result: Option<&str>)
        ensures
            match result {
                Some(token) => position(self@, id@) matches Some(i) && token@
                    == self@[i].pending.token,
                None => !waiting(self@, id@),
            },
    {
        match self.find(id) {
            Some(i) => Some(self.entries[i].1.token.as_str()),
            None => None,
        }
    }

    /// Takes up a decision under a new id and gives the event to send for it;
    /// where one already waits under that id, hands the new one back.
    pub fn register_pending_decision(&mut self, id: String, pending: PendingDecision) -> (result:
        Result<Event, PendingDecision>)
        requires
            old(self).wf(),
        ensures
            final(self).wf(),
            result is Ok <==> !waiting(old(self)@, id@),
            match result {
                Ok(event) => {
                    &&& event@ == EventView::Encoded(pending@.event_json)
                    &&& final(self)@ == old(self)@.push(Entry { id: id@, pending: pending@ })
                },
                Err(back) => {
                    &&& back == pending
                    &&& final(self)@ == old(self)@
                },
            },
    {
        if self.contains(&id) {
            return Err(pending);
        }
        let event: Event = Event::Encoded(pending.event_json.clone());
        let ghost before = self@;
        proof {
            lemma_first_index(self@.len(), |i: int| self@[i].id == id@);
            assert forall|k: int| 0 <= k < before.len() implies (#[trigger] before[k]).id
                != id@ by {
                let here = |i: int| before[i].id == id@;
                assert(!here(k));
            }
        }
        self.entries.push((id, pending));
        proof {
            assert(self@ =~= before.push(Entry { id: id@, pending: pending@ }));
        }
        Ok(event)
    }

    /// Lets a posted reply claim the decision it names.
    pub fn claim(&mut self, body: &Json) -> (step: ClaimStep)
        requires
            old(self).wf(),
        ensures
            final(self).wf(),
            (final(self)@, step@) == claim_outcome(old(self)@, body@),
    {
        let id: &str = trim(body.str_member_or("id", ""));
        if id.is_empty() {
            return ClaimStep::Answer(reply_error(400, "missing decision id"));
        }
        let i: usize = match self.find(id) {
            Some(i) => i,
            None => {
                return ClaimStep::Answer(reply_error(409, "no pending decision"));
            },
        };
        match validate_decision_reply(&self.entries[i].1.reply_kind, body) {
            Ok(()) => {},
            Err(message) => {
                return ClaimStep::Answer(reply_error(422, &message));
            },
        }
        if !self.entries[i].1.unclaimed {
            return ClaimStep::Answer(reply_error(409, "decision is already being resolved"));
        }
        let ghost before = self@;
        let receiver: bool = self.entries[i].1.receiver;
        let token: String = self.entries[i].1.token.clone();
        let (name, mut pending) = self.entries.remove(i);
        pending.unclaimed = false;
        pending.receiver = false;
        self.entries.insert(i, (name, pending));
        proof {
            assert(self@ =~= before.update(i as int, claimed(before[i as int], false)));
        }
        if !receiver {
            return ClaimStep::Answer(reply_error(409, "decision receiver is unavailable"));
        }
        ClaimStep::Run { id: id.to_owned(), token }
    }

    /// Ends a claimed decision after its handler ran: removes it where it is
    /// still the same waiter's, and gives the event to send and the answer.
    pub fn settle(&mut self, id: &str, token: &str, outcome: &Result<(), String>) -> (result: (
        Event,
        Reply,
    ))
        requires
            old(self).wf(),
        ensures
            final(self).wf(),
            final(self)@ == (if claimed_by(old(self)@, id@, token@) {
                without(old(self)@, id@)
            } else {
                old(self)@
            }),
            match outcome {
                Ok(_) => {
                    &&& result.0@ == decision_closed(id@, "resolved"@)
                    &&& result.1@ == (ReplyView {
                        status: 200,
                        body: crate::json::empty_object().with("ok"@, JsonView::Bool(true)),
                    })
                },
                Err(message) => {
                    &&& result.0@ == decision_closed(id@, "failed"@)
                    &&& result.1@ == error_reply(422, message@)
                },
            },
    {
        self.remove_claimed(id, token);
        match outcome {
            Ok(_) => (
                decision_closed_event(id, "resolved"),
                Reply {
                    status: 200,
                    body: crate::json::object().with("ok", crate::json::json_bool(true)),
                },
            ),
            Err(message) => (decision_closed_event(id, "failed"), reply_error(422, message)),
        }
    }

    /// Ends a claimed decision whose handler never finished: removes it where
    /// it is still the same waiter's, and gives the event to send for that.
    pub fn abort(&mut self, id: &str, token: &str) -> (event: Option<Event>)
        requires
            old(self).wf(),
        ensures
            final(self).wf(),
            event is Some <==> claimed_by(old(self)@, id@, token@),
            match event {
                Some(event) => {
                    &&& event@ == decision_closed(id@, "aborted"@)
                    &&& final(self)@ == without(old(self)@, id@)
                },
                None => final(self)@ == old(self)@,
            },
    {
        if self.remove_claimed(id, token) {
            Some(decision_closed_event(id, "aborted"))
        } else {
            None
        }
    }

    fn remove_claimed(&mut self, id: &str, token: &str) -> (removed: bool)
        requires
            old(self).wf(),
        ensures
            final(self).wf(),
            removed == claimed_by(old(self)@, id@, token@),
            final(self)@ == (if removed {
                without(old(self)@, id@)
            } else {
                old(self)@
            }),
    {
        match self.find(id) {
            Some(i) => if same(&self.entries[i].1.token, token) && !self.entries[i].1.unclaimed {
                self.remove_at(i);
                true
            } else {
                false
            },
            None => false,
        }
    }

    fn remove_at(&mut self, i: usize) -> (pending: PendingDecision)
        requires
            old(self).wf(),
            i < old(self)@.len(),
        ensures
            final(self).wf(),
            pending@ == old(self)@[i as int].pending,
            final(self)@ == old(self)@.remove(i as int),
    {
        let ghost before = self@;
        let (_, pending) = self.entries.remove(i);
        proof {
            assert(self@ =~= before.remove(i as int));
        }
        pending
    }

    /// Closes a decision for its own waiter: only where the waiter's token is
    /// the decision's and no reply has claimed it.
    pub fn close_pending_decision_if_token(&mut self, id: &str, token: &str, reason: &str) -> (result:
        Option<(PendingDecision, Event)>)
        requires
            old(self).wf(),
        ensures
            final(self).wf(),
            result is Some <==> closable_by(old(self)@, id@, token@),
            match result {
                Some((pending, event)) => {
                    &&& pending@ == old(self)@[position(old(self)@, id@)->0].pending
                    &&& event@ == decision_closed(id@, reason@)
                    &&& final(self)@ == without(old(self)@, id@)
                },
                None => final(self)@ == old(self)@,
            },
    {
        match self.find(id) {
            Some(i) => if same(&self.entries[i].1.token, token) && self.entries[i].1.unclaimed {
                let pending: PendingDecision = self.remove_at(i);
                Some((pending, decision_closed_event(id, reason)))
            } else {
                None
            },
            None => None,
        }
    }

    /// Closes every decision that no reply has claimed, and gives one event for
    /// each.
    pub fn close_all_pending_decisions(&mut self, reason: &str) -> (events: Vec<Event>)
        requires
            old(self).wf(),
        ensures
            final(self).wf(),
            final(self)@ == old(self)@.filter(is_claimed()),
            event_views(events@) == closing_events(old(self)@.filter(is_unclaimed()), reason@),
    {
        let ghost all = self@;
        let mut events: Vec<Event> = Vec::new();
        let mut i: usize = 0;
        let ghost mut done: int = 0;
        proof {
            reveal(Seq::filter);
            assert(all.take(0) =~= Seq::empty());
            assert(all.take(0).filter(is_claimed()) + all.skip(0) =~= all);
            assert(event_views(events@) =~= closing_events(
                all.take(0).filter(is_unclaimed()),
                reason@,
            ));
        }
        while i < self.entries.len()
            invariant
                0 <= done <= all.len(),
                distinct(all),
                i == all.take(done).filter(is_claimed()).len(),
                self@ == all.take(done).filter(is_claimed()) + all.skip(done),
                event_views(events@) == closing_events(
                    all.take(done).filter(is_unclaimed()),
                    reason@,
                ),
            decreases self.entries@.len() - i,
        {
            proof {
                assert(self@.len() == i + (all.len() - done));
                assert(self@[i as int] == all.skip(done)[0]);
                lemma_filter_next(all, is_claimed(), done);
                lemma_filter_next(all, is_unclaimed(), done);
            }
            let ghost kept = all.take(done).filter(is_claimed());
            let ghost closed = all.take(done).filter(is_unclaimed());
            let ghost entry = all[done];
            if self.entries[i].1.unclaimed {
                let ghost before = self@;
                let ghost earlier = events@;
                let event: Event = decision_closed_event(&self.entries[i].0, reason);
                events.push(event);
                self.entries.remove(i);
                proof {
                    assert(self@ =~= before.remove(i as int));
                    assert((kept + all.skip(done)).remove(i as int) =~= kept + all.skip(done + 1));
                    assert(event_views(events@) =~= event_views(earlier).push(event@));
                    assert(closing_events(closed.push(entry), reason@) =~= closing_events(
                        closed,
                        reason@,
                    ).push(decision_closed(entry.id, reason@)));
                }
            } else {
                proof {
                    assert(kept + all.skip(done) =~= kept.push(entry) + all.skip(done + 1));
                }
                i += 1;
            }
            proof {
                done = done + 1;
            }
        }
        proof {
            assert(self@.len() == i + (all.len() - done));
            assert(all.take(done) =~= all);
            assert(all.take(done).filter(is_claimed()) + all.skip(done) =~= all.filter(
                is_claimed(),
            ));
            lemma_filter_distinct(all, is_claimed());
        }
        events
    }

    /// The events of every waiting decision, in the order of the ids.
    pub fn pending_decision_events(&self) -> (events: Vec<String>)
        ensures
            texts(events@) == pending_texts(by_id(self@)),
    {
        let mut order: Vec<usize> = Vec::new();
        let ghost mut sorted: Seq<Entry> = Seq::empty();
        let mut i: usize = 0;
        proof {
            assert(self@.take(0) =~= Seq::empty());
        }
        while i < self.entries.len()
            invariant
                i <= self.entries@.len(),
                sorted == by_id(self@.take(i as int)),
                order@.len() == sorted.len(),
                forall|k: int|
                    0 <= k < order@.len() ==> (#[trigger] order@[k]) < self@.len()
                        && self@[order@[k] as int] == sorted[k],
            decreases self.entries@.len() - i,
        {
            let mut at: usize = order.len();
            let ghost entry = self@[i as int];
            proof {
                assert(sorted.take(sorted.len() as int) =~= sorted);
                assert(insert_by_id(sorted, entry) =~= insert_by_id(
                    sorted.take(sorted.len() as int),
                    entry,
                ) + sorted.skip(sorted.len() as int));
            }
            while at > 0 && before(&self.entries[i].0, &self.entries[order[at - 1]].0)
                invariant
                    i < self.entries@.len(),
                    at <= order@.len(),
                    entry == self@[i as int],
                    order@.len() == sorted.len(),
                    forall|k: int|
                        0 <= k < order@.len() ==> (#[trigger] order@[k]) < self@.len()
                            && self@[order@[k] as int] == sorted[k],
                    insert_by_id(sorted, entry) == insert_by_id(sorted.take(at as int), entry)
                        + sorted.skip(at as int),
                decreases at,
            {
                proof {
                    let head = sorted.take(at as int);
                    assert(self@[order@[at - 1] as int] == sorted[at - 1]);
                    assert(head.drop_last() =~= sorted.take(at - 1));
                    assert(head.last() == sorted[at - 1]);
                    assert(insert_by_id(sorted.take(at - 1), entry).push(sorted[at - 1])
                        + sorted.skip(at as int) =~= insert_by_id(sorted.take(at - 1), entry)
                        + sorted.skip(at - 1));
                }
                at -= 1;
            }
            proof {
                if at > 0 {
                    assert(self@[order@[at - 1] as int] == sorted[at - 1]);
                    assert(sorted.take(at as int).last() == sorted[at - 1]);
                }
            }
            let ghost earlier = order@;
            order.insert(at, i);
            proof {
                let next = sorted.take(at as int).push(entry) + sorted.skip(at as int);
                assert(next == insert_by_id(sorted, entry));
                assert forall|k: int| 0 <= k < order@.len() implies (#[trigger] order@[k])
                    < self@.len() && self@[order@[k] as int] == next[k] by {
                    if k < at {
                        assert(order@[k] == earlier[k]);
                    } else if k > at {
                        assert(order@[k] == earlier[k - 1]);
                    }
                }
                assert(self@.take(i + 1).drop_last() =~= self@.take(i as int));
                assert(self@.take(i + 1).last() == entry);
                sorted = next;
            }
            i += 1;
        }
        proof {
            assert(self@.take(self@.len() as int) =~= self@);
        }
        let mut events: Vec<String> = Vec::new();
        let mut k: usize = 0;
        while k < order.len()
            invariant
                k <= order@.len(),
                order@.len() == sorted.len(),
                forall|j: int|
                    0 <= j < order@.len() ==> (#[trigger] order@[j]) < self@.len()
                        && self@[order@[j] as int] == sorted[j],
                events@.len() == k,
                forall|j: int|
                    0 <= j < k ==> (#[trigger] events@[j])@ == sorted[j].pending.event_json,
            decreases order@.len() - k,
        {
            proof {
                assert(self@[order@[k as int] as int] == sorted[k as int]);
            }
            events.push(self.entries[order[k]].1.event_json.clone());
            k += 1;
        }
        proof {
            assert(texts(events@) =~= pending_texts(by_id(self@)));
        }
        events
    }
}

proof fn lemma_filter_distinct(entries: Seq<Entry>, keep: spec_fn(Entry) -> bool)
    requires
        distinct(entries),
    ensures
        distinct(entries.filter(keep)),
        forall|k: int|
            0 <= k < entries.filter(keep).len() ==> entries.contains(
                #[trigger] entries.filter(keep)[k],
            ),
    decreases entries.len(),
{
    reveal(Seq::filter);
    if entries.len() > 0 {
        let rest = entries.drop_last();
        lemma_filter_distinct(rest, keep);
        let kept = rest.filter(keep);
        assert forall|k: int| 0 <= k < entries.filter(keep).len() implies entries.contains(
            #[trigger] entries.filter(keep)[k],
        ) by {
            if k < kept.len() {
                assert(rest.contains(kept[k]));
                let j = choose|j: int| 0 <= j < rest.len() && rest[j] == kept[k];
                assert(entries[j] == kept[k]);
            } else {
                assert(entries[entries.len() - 1] == entries.last());
            }
        }
        if keep(entries.last()) {
            assert forall|k: int| 0 <= k < kept.len() implies (#[trigger] kept[k]).id
                != entries.last().id by {
                assert(rest.contains(kept[k]));
                let j = choose|j: int| 0 <= j < rest.len() && rest[j] == kept[k];
                assert(entries[j] == kept[k]);
                assert(entries[entries.len() - 1] == entries.last());
            }
        }
    }
}

// Laws.

proof fn lemma_position(entries: Seq<Entry>, id: Seq<char>, at: int)
    requires
        distinct(entries),
        0 <= at < entries.len(),
        entries[at].id == id,
    ensures
        position(entries, id) == Some(at),
{
    let here = |i: int| entries[i].id == id;
    assert(here(at));
    assert forall|k: int| 0 <= k < at implies !(#[trigger] here(k)) by {
        assert(entries[k].id != entries[at].id);
    }
    lemma_is_first_index(entries.len(), here, at);
}

/// A reply that a decision does not accept leaves every waiting decision as it
/// was, so the decision can still be answered.
pub proof fn law_a_refused_reply_consumes_nothing(entries: Seq<Entry>, body: JsonView)
    ensures
        ({
            let id = trimmed(text_or(body.text_member("id"@), ""@));
            position(entries, id) matches Some(i) && reply_problem(
                entries[i].pending.reply_kind,
                body,
            ) is Some ==> claim_outcome(entries, body).0 == entries
                && claim_outcome(entries, body).1 is Answer
        }),
{
}

/// A decision is claimed at most once: after a reply has claimed it, no other
/// reply runs its handler.
pub proof fn law_a_decision_is_claimed_once(entries: Seq<Entry>, first: JsonView, second: JsonView)
    requires
        distinct(entries),
        claim_outcome(entries, first).1 is Run,
        trimmed(text_or(second.text_member("id"@), ""@)) == trimmed(
            text_or(first.text_member("id"@), ""@),
        ),
    ensures
        !(claim_outcome(claim_outcome(entries, first).0, second).1 is Run),
{
    let id = trimmed(text_or(first.text_member("id"@), ""@));
    let i = position(entries, id)->0;
    lemma_first_index(entries.len(), |k: int| entries[k].id == id);
    let after = claim_outcome(entries, first).0;
    assert(after =~= entries.update(i, claimed(entries[i], false)));
    assert(distinct(after)) by {
        assert forall|a: int, b: int| 0 <= a < b < after.len() implies (#[trigger] after[a]).id
            != (#[trigger] after[b]).id by {
            assert(after[a].id == entries[a].id);
            assert(after[b].id == entries[b].id);
        }
    }
    lemma_position(after, id, i);
}

/// A waiter whose token is not the decision's own closes nothing, so an old
/// waiter cannot close a newer decision that took the same id.
pub proof fn law_a_stale_token_closes_nothing(entries: Seq<Entry>, id: Seq<char>, token: Seq<char>)
    requires
        position(entries, id) matches Some(i) ==> entries[i].pending.token != token,
    ensures
        !closable_by(entries, id, token),
        !claimed_by(entries, id, token),
{
}

/// Closing everything leaves exactly the claimed decisions, and a claimed
/// decision survives it.
pub proof fn law_a_claimed_decision_survives_closing_all(entries: Seq<Entry>, at: int)
    requires
        0 <= at < entries.len(),
    ensures
        entries.filter(is_claimed()).contains(entries[at]) <==> !entries[at].pending.unclaimed,
{
    broadcast use vstd::seq_lib::group_filter_ensures;

    let kept = entries.filter(is_claimed());
    if kept.contains(entries[at]) {
        let k = choose|k: int| 0 <= k < kept.len() && kept[k] == entries[at];
        assert(is_claimed()(kept[k]));
    } else {
        assert(is_claimed()(entries[at]) ==> kept.contains(entries[at]));
    }
}

/// Whether decisions stand in the order of their ids.
pub open spec fn sorted_by_id(entries: Seq<Entry>) -> bool {
    forall|i: int, j: int|
        0 <= i < j < entries.len() ==> !text_before(
            (#[trigger] entries[j]).id,
            (#[trigger] entries[i]).id,
        )
}

proof fn lemma_insert_by_id(sorted: Seq<Entry>, entry: Entry)
    requires
        sorted_by_id(sorted),
    ensures
        sorted_by_id(insert_by_id(sorted, entry)),
        insert_by_id(sorted, entry).to_multiset() =~= sorted.to_multiset().insert(entry),
        forall|i: int|
            0 <= i < insert_by_id(sorted, entry).len() ==> {
                let item = #[trigger] insert_by_id(sorted, entry)[i];
                item == entry || sorted.contains(item)
            },
    decreases sorted.len(),
{
    broadcast use vstd::seq_lib::group_to_multiset_ensures;

    let result = insert_by_id(sorted, entry);
    if sorted.len() == 0 {
    } else if !text_before(entry.id, sorted.last().id) {
        let top = sorted.last().id;
        assert forall|i: int, j: int| 0 <= i < j < result.len() implies !text_before(
            (#[trigger] result[j]).id,
            (#[trigger] result[i]).id,
        ) by {
            if j == sorted.len() && i < sorted.len() - 1 {
                let low = sorted[i].id;
                assert(!text_before(top, low));
                if text_before(entry.id, low) {
                    crate::text::lemma_before_total(entry.id, top);
                    if text_before(top, entry.id) {
                        crate::text::lemma_before_transitive(top, entry.id, low);
                    }
                }
            }
        }
        assert forall|i: int| 0 <= i < result.len() implies {
            let item = #[trigger] result[i];
            item == entry || sorted.contains(item)
        } by {
            if i < sorted.len() {
                assert(sorted.contains(sorted[i]));
            }
        }
    } else {
        let rest = sorted.drop_last();
        let inner = insert_by_id(rest, entry);
        lemma_insert_by_id(rest, entry);
        let top = sorted.last().id;
        assert forall|i: int| 0 <= i < inner.len() implies !text_before(
            top,
            (#[trigger] inner[i]).id,
        ) by {
            let item = inner[i];
            if item == entry {
                if text_before(top, entry.id) {
                    crate::text::lemma_before_transitive(top, entry.id, top);
                    crate::text::lemma_before_irreflexive(top);
                }
            } else {
                let k = choose|k: int| 0 <= k < rest.len() && rest[k] == item;
                assert(sorted[k] == item);
                assert(sorted[sorted.len() - 1] == sorted.last());
            }
        }
        assert forall|i: int, j: int| 0 <= i < j < result.len() implies !text_before(
            (#[trigger] result[j]).id,
            (#[trigger] result[i]).id,
        ) by {
            if j < inner.len() {
                assert(result[j] == inner[j]);
            }
            assert(result[i] == inner[i]);
        }
        assert forall|i: int| 0 <= i < result.len() implies {
            let item = #[trigger] result[i];
            item == entry || sorted.contains(item)
        } by {
            if i < inner.len() {
                assert(result[i] == inner[i]);
                if inner[i] != entry {
                    let k = choose|k: int| 0 <= k < rest.len() && rest[k] == inner[i];
                    assert(sorted[k] == inner[i]);
                }
            } else {
                assert(sorted[sorted.len() - 1] == sorted.last());
            }
        }
        assert(sorted =~= rest.push(sorted.last()));
        assert(result.to_multiset() =~= inner.to_multiset().insert(sorted.last()));
        assert(sorted.to_multiset() =~= rest.to_multiset().insert(sorted.last()));
    }
}

/// A reconnecting client is given every waiting decision, each once, in the
/// order of the ids.
pub proof fn law_replay_holds_every_waiting_decision_in_order(entries: Seq<Entry>)
    ensures
        sorted_by_id(by_id(entries)),
        by_id(entries).to_multiset() =~= entries.to_multiset(),
    decreases entries.len(),
{
    broadcast use vstd::seq_lib::group_to_multiset_ensures;

    if entries.len() > 0 {
        law_replay_holds_every_waiting_decision_in_order(entries.drop_last());
        lemma_insert_by_id(by_id(entries.drop_last()), entries.last());
        assert(entries =~= entries.drop_last().push(entries.last()));
        assert(entries.to_multiset() =~= entries.drop_last().to_multiset().insert(entries.last()));
    }
}

} // verus!
