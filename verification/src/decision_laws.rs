//! What holds of replies to waiting decisions, whatever the reply and whatever
//! waits.

use vstd::prelude::*;

use crate::decisions::{
    claim_outcome, claimed_by, closable_by, closing_events, distinct, error_reply, is_unclaimed,
    pending_texts, position, reply_problem, waiting, without, ClaimView, Entry, KindView,
};
use crate::events::{decision_closed, EventView};
use crate::json::{group_reading, JsonView};
use crate::lists::{lemma_first_index, lemma_is_first_index};
use crate::text::{blank, lemma_blank, trimmed};

verus! {

/// Whether a value has a text under a name that is not blank.
pub open spec fn says(value: JsonView, name: Seq<char>) -> bool {
    value.text_member(name) matches Some(text) && !blank(text)
}

/// Whether a value has nothing but a text under a name, if anything.
pub open spec fn text_if_any(value: JsonView, name: Seq<char>) -> bool {
    value.member(name) is None || value.text_member(name) is Some
}

/// Whether a value has the given text under a name, up to surrounding white
/// space.
pub open spec fn gives(value: JsonView, name: Seq<char>, word: Seq<char>) -> bool {
    value.text_member(name) matches Some(text) && trimmed(text) == word
}

proof fn lemma_words()
    ensures
        "approved"@.len() == 8,
        "approved"@[0] == 'a',
        "rejected"@.len() == 8,
        "rejected"@[0] == 'r',
        ""@.len() == 0,
{
    reveal_strlit("approved");
    reveal_strlit("rejected");
    reveal_strlit("");
}

/// A choice is accepted exactly where the reply is an object that chooses one of
/// the offered options, has no other thing than a text for its text, and has a
/// text that is not blank where the chosen option requires one.
pub proof fn law_a_choice_is_accepted_with_the_text_it_requires(
    allowed: Seq<Seq<char>>,
    text_required_for: Seq<Seq<char>>,
    body: JsonView,
)
    ensures
        reply_problem(KindView::Choice { allowed, text_required_for }, body) is None <==> {
            &&& body is Object
            &&& text_if_any(body, "text"@)
            &&& exists|k: int|
                0 <= k < allowed.len() && (#[trigger] allowed[k]).len() > 0 && gives(
                    body,
                    "chosen"@,
                    allowed[k],
                ) && (says(body, "text"@) || !text_required_for.contains(allowed[k]))
        },
{
    lemma_words();
    let chosen = body.text_member("chosen"@);
    if chosen is Some && allowed.contains(trimmed(chosen->0)) {
        let k = choose|k: int| 0 <= k < allowed.len() && allowed[k] == trimmed(chosen->0);
        assert(gives(body, "chosen"@, allowed[k]));
    }
    assert forall|k: int| 0 <= k < allowed.len() && gives(body, "chosen"@, allowed[k]) implies
        allowed.contains(trimmed(chosen->0)) by {
        assert(allowed.contains(allowed[k]));
    }
}

/// A reply that chooses an offered option and has a text that is not blank is
/// accepted, whichever options require a text.
pub proof fn law_a_choice_with_a_text_is_accepted(
    allowed: Seq<Seq<char>>,
    text_required_for: Seq<Seq<char>>,
    body: JsonView,
    option: Seq<char>,
)
    requires
        body is Object,
        option.len() > 0,
        allowed.contains(option),
        gives(body, "chosen"@, option),
        says(body, "text"@),
    ensures
        reply_problem(KindView::Choice { allowed, text_required_for }, body) is None,
{
}

/// An approval is accepted exactly where the reply is an object that approves or
/// rejects, has no other thing than a text for its comment, and comments where
/// it rejects and a rejection has to be commented.
pub proof fn law_an_approval_is_accepted_with_the_comment_it_requires(
    require_reject_comment: bool,
    body: JsonView,
)
    ensures
        reply_problem(KindView::Approval { require_reject_comment }, body) is None <==> {
            &&& body is Object
            &&& text_if_any(body, "comment"@)
            &&& gives(body, "status"@, "approved"@) || (gives(body, "status"@, "rejected"@) && (
            says(body, "comment"@) || !require_reject_comment))
        },
{
    lemma_words();
}

/// Any object is a reply to a decision that asks for nothing in particular, and
/// nothing else is a reply to any decision.
pub proof fn law_replies_are_objects(kind: KindView, body: JsonView)
    ensures
        reply_problem(KindView::Any, body) is None <==> body is Object,
        reply_problem(kind, body) is None ==> body is Object,
{
}

proof fn lemma_found(entries: Seq<Entry>, id: Seq<char>, at: int)
    requires
        distinct(entries),
        0 <= at < entries.len(),
        entries[at].id == id,
    ensures
        position(entries, id) == Some(at),
{
    let here = |i: int| entries[i].id == id;
    assert(here(at));
    assert forall|k: int| 0 <= k < at implies !(#[trigger] here(k)) by {
        assert(entries[k].id != entries[at].id);
    }
    lemma_is_first_index(entries.len(), here, at);
}

/// A reply that names a waiting decision, and that the decision accepts, runs
/// that decision for its waiter where nobody has claimed it and the waiter can
/// still be told. From then on the decision is claimed; it waits on under its
/// id, and no other decision is touched.
pub proof fn law_an_accepted_reply_runs_its_decision(
    entries: Seq<Entry>,
    body: JsonView,
    at: int,
)
    requires
        distinct(entries),
        0 <= at < entries.len(),
        entries[at].id.len() > 0,
        gives(body, "id"@, entries[at].id),
        reply_problem(entries[at].pending.reply_kind, body) is None,
        entries[at].pending.unclaimed,
        entries[at].pending.receiver,
    ensures
        ({
            let (after, step) = claim_outcome(entries, body);
            &&& step == (ClaimView::Run {
                id: entries[at].id,
                token: entries[at].pending.token,
            })
            &&& after.len() == entries.len()
            &&& forall|k: int| 0 <= k < entries.len() && k != at ==> after[k] == entries[k]
            &&& after[at].id == entries[at].id
            &&& after[at].pending.token == entries[at].pending.token
            &&& after[at].pending.reply_kind == entries[at].pending.reply_kind
            &&& after[at].pending.event_json == entries[at].pending.event_json
            &&& !after[at].pending.unclaimed
            &&& claimed_by(after, entries[at].id, entries[at].pending.token)
        }),
{
    lemma_found(entries, entries[at].id, at);
    let after = claim_outcome(entries, body).0;
    assert(distinct(after)) by {
        assert forall|a: int, b: int| 0 <= a < b < after.len() implies (#[trigger] after[a]).id
            != (#[trigger] after[b]).id by {
            assert(after[a].id == entries[a].id);
            assert(after[b].id == entries[b].id);
        }
    }
    lemma_found(after, entries[at].id, at);
}

/// A choice that offers what the reply chooses runs for a reply with a text of
/// its own, whichever options require a text.
pub proof fn law_a_choice_with_a_text_runs_its_decision(
    entries: Seq<Entry>,
    body: JsonView,
    at: int,
    option: Seq<char>,
)
    requires
        distinct(entries),
        0 <= at < entries.len(),
        entries[at].id.len() > 0,
        gives(body, "id"@, entries[at].id),
        body is Object,
        entries[at].pending.reply_kind is Choice,
        entries[at].pending.reply_kind->allowed.contains(option),
        option.len() > 0,
        gives(body, "chosen"@, option),
        says(body, "text"@),
        entries[at].pending.unclaimed,
        entries[at].pending.receiver,
    ensures
        claim_outcome(entries, body).1 == (ClaimView::Run {
            id: entries[at].id,
            token: entries[at].pending.token,
        }),
{
    law_a_choice_with_a_text_is_accepted(
        entries[at].pending.reply_kind->allowed,
        entries[at].pending.reply_kind->text_required_for,
        body,
        option,
    );
    law_an_accepted_reply_runs_its_decision(entries, body, at);
}

/// An error answer says what is wrong under `error`, and that it is not `ok`.
pub proof fn law_an_error_answer_says_what_is_wrong(status: u16, message: Seq<char>)
    ensures
        error_reply(status, message).status == status,
        error_reply(status, message).body.text_member("error"@) == Some(message),
        error_reply(status, message).body.truth_member("ok"@) == Some(false),
{
    broadcast use group_reading;

    reveal_strlit("ok");
    reveal_strlit("error");
    assert("ok"@.len() != "error"@.len());
}

/// A reply that does not run a decision is answered with an error: that it names
/// no decision, that nothing waits under the name, that the decision does not
/// accept it and why, or that the decision is taken.
pub proof fn law_a_reply_that_runs_nothing_is_told_why(entries: Seq<Entry>, body: JsonView)
    requires
        distinct(entries),
    ensures
        !says(body, "id"@) ==> claim_outcome(entries, body) == (
            entries,
            ClaimView::Answer(error_reply(400, "missing decision id"@)),
        ),
        says(body, "id"@) && (forall|k: int|
            0 <= k < entries.len() ==> !gives(body, "id"@, (#[trigger] entries[k]).id))
            ==> claim_outcome(entries, body) == (
            entries,
            ClaimView::Answer(error_reply(409, "no pending decision"@)),
        ),
        forall|k: int|
            0 <= k < entries.len() && (#[trigger] entries[k]).id.len() > 0 && gives(
                body,
                "id"@,
                entries[k].id,
            ) ==> {
                let problem = reply_problem(entries[k].pending.reply_kind, body);
                let (after, step) = claim_outcome(entries, body);
                &&& problem is Some ==> after == entries && step == ClaimView::Answer(
                    error_reply(422, problem->0),
                )
                &&& problem is None && !entries[k].pending.unclaimed ==> after == entries
                    && step == ClaimView::Answer(
                    error_reply(409, "decision is already being resolved"@),
                )
                &&& problem is None && entries[k].pending.unclaimed
                    && !entries[k].pending.receiver ==> step == ClaimView::Answer(
                    error_reply(409, "decision receiver is unavailable"@),
                )
            },
{
    lemma_words();
    lemma_blank(""@);
    if says(body, "id"@) {
        let id = trimmed(body.text_member("id"@)->0);
        let here = |i: int| entries[i].id == id;
        lemma_first_index(entries.len(), here);
        if position(entries, id) is Some {
            let at = position(entries, id)->0;
            assert(here(at));
            assert(gives(body, "id"@, entries[at].id));
        }
    }
    assert forall|k: int|
        0 <= k < entries.len() && (#[trigger] entries[k]).id.len() > 0 && gives(
            body,
            "id"@,
            entries[k].id,
        ) implies position(entries, entries[k].id) == Some(k) by {
        lemma_found(entries, entries[k].id, k);
    }
}

/// Once a decision is taken out, nothing waits under its id, and everything else
/// waits on in its order.
pub proof fn law_a_closed_decision_is_gone_and_the_others_stay(entries: Seq<Entry>, at: int)
    requires
        distinct(entries),
        0 <= at < entries.len(),
    ensures
        ({
            let after = without(entries, entries[at].id);
            &&& !waiting(after, entries[at].id)
            &&& after == entries.take(at) + entries.skip(at + 1)
            &&& distinct(after)
        }),
{
    let id = entries[at].id;
    lemma_found(entries, id, at);
    let after = without(entries, id);
    assert(after =~= entries.take(at) + entries.skip(at + 1));
    assert forall|k: int| 0 <= k < after.len() implies (#[trigger] after[k]).id != id by {
        if k < at {
            assert(entries[k].id != entries[at].id);
        } else {
            assert(after[k] == entries[k + 1]);
            assert(entries[at].id != entries[k + 1].id);
        }
    }
    let here = |i: int| after[i].id == id;
    lemma_first_index(after.len(), here);
    if position(after, id) is Some {
        let k = position(after, id)->0;
        assert(here(k));
        assert(after[k].id != id);
    }
    assert forall|a: int, b: int| 0 <= a < b < after.len() implies (#[trigger] after[a]).id
        != (#[trigger] after[b]).id by {
        let c = if a < at {
            a
        } else {
            a + 1
        };
        let d = if b < at {
            b
        } else {
            b + 1
        };
        assert(after[a] == entries[c]);
        assert(after[b] == entries[d]);
    }
}

/// A waiting decision is closed by its own waiter exactly while no reply has
/// claimed it, and ended by its handler exactly once one has.
pub proof fn law_a_waiter_closes_what_no_reply_has_claimed(
    entries: Seq<Entry>,
    at: int,
    token: Seq<char>,
)
    requires
        distinct(entries),
        0 <= at < entries.len(),
    ensures
        closable_by(entries, entries[at].id, token) <==> token == entries[at].pending.token
            && entries[at].pending.unclaimed,
        claimed_by(entries, entries[at].id, token) <==> token == entries[at].pending.token
            && !entries[at].pending.unclaimed,
{
    lemma_found(entries, entries[at].id, at);
}

/// The event that closes a decision names it and says why.
pub proof fn law_a_closing_event_names_its_decision(id: Seq<char>, reason: Seq<char>)
    ensures
        decision_closed(id, reason) matches EventView::Custom { name, value }
            && name == "surface.decision.closed"@ && value.text_member("id"@) == Some(id)
            && value.text_member("reason"@) == Some(reason),
{
    broadcast use group_reading;

    reveal_strlit("id");
    reveal_strlit("reason");
    assert("id"@.len() != "reason"@.len());
}

/// Closing everything closes each decision that no reply has claimed, with the
/// reason that was given.
pub proof fn law_closing_all_tells_of_each_unclaimed_decision(
    entries: Seq<Entry>,
    at: int,
    reason: Seq<char>,
)
    requires
        0 <= at < entries.len(),
        entries[at].pending.unclaimed,
    ensures
        closing_events(entries.filter(is_unclaimed()), reason).contains(
            decision_closed(entries[at].id, reason),
        ),
{
    broadcast use vstd::seq_lib::group_filter_ensures;

    let open = entries.filter(is_unclaimed());
    assert(is_unclaimed()(entries[at]));
    assert(open.contains(entries[at]));
    let k = choose|k: int| 0 <= k < open.len() && open[k] == entries[at];
    assert(closing_events(open, reason)[k] == decision_closed(entries[at].id, reason));
}

/// What a reconnecting client is given of a decision is the event that was sent
/// for it.
pub proof fn law_a_replayed_decision_is_the_event_that_was_sent(entries: Seq<Entry>, at: int)
    requires
        0 <= at < entries.len(),
    ensures
        pending_texts(entries).len() == entries.len(),
        pending_texts(entries)[at] == entries[at].pending.event_json,
{
}

} // verus!
