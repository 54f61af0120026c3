//! What a conversation says, shows and keeps, whatever is streamed into it.

use vstd::prelude::*;

use crate::activity::{ActivityOutcome, RecordView};
use crate::events::EventView;
use crate::json::{group_reading, JsonView};
use crate::lists::{lemma_first_index, lemma_is_first_index};
use crate::narration::{
    active_replay, audio_step, cancel_step, chunk_step, concatenated, fail_step, finish_step,
    first_end, flush_step, human_turn_step, law_sentences_lose_nothing, notice_step, recorded,
    sentence_ends, session_chunk_step, speakable, spoken_lines, switch_step, tutor_notice,
    tutor_state, tutor_step, unfinished, unspoken, whole_sentences, ConversationView, LineView,
    MessageView, NarrationView,
};
use crate::text::{blank, is_space, lemma_blank, trimmed};
use crate::text_laws::{all_space, law_trimming_takes_the_surrounding_space};

verus! {

// Speech.

/// Characters that are neither markup nor white space.
pub open spec fn solid() -> spec_fn(char) -> bool {
    |c: char| !unspoken(c) && !is_space(c)
}

/// The characters of a text that are neither markup nor white space.
pub open spec fn substance(s: Seq<char>) -> Seq<char> {
    s.filter(solid())
}

/// Everything that speaker commands say, one line behind the other.
pub open spec fn said(commands: Seq<NarrationView>) -> Seq<char>
    decreases commands.len(),
{
    if commands.len() == 0 {
        Seq::empty()
    } else {
        said(commands.drop_last()) + match commands.last() {
            NarrationView::Say(text) => text,
            NarrationView::Hush => Seq::empty(),
        }
    }
}

/// The conversation after some streamed pieces. `fresh` gives each piece the id
/// that it would open a message with.
pub open spec fn streamed(
    state: ConversationView,
    pieces: Seq<Seq<char>>,
    fresh: Seq<Seq<char>>,
) -> ConversationView
    decreases pieces.len(),
{
    if pieces.len() == 0 {
        state
    } else {
        chunk_step(
            streamed(state, pieces.drop_last(), fresh),
            pieces.last(),
            fresh[pieces.len() - 1],
        ).state
    }
}

/// What the speaker is told while pieces are streamed.
pub open spec fn spoken_while(
    state: ConversationView,
    pieces: Seq<Seq<char>>,
    fresh: Seq<Seq<char>>,
) -> Seq<NarrationView>
    decreases pieces.len(),
{
    if pieces.len() == 0 {
        Seq::empty()
    } else {
        spoken_while(state, pieces.drop_last(), fresh) + chunk_step(
            streamed(state, pieces.drop_last(), fresh),
            pieces.last(),
            fresh[pieces.len() - 1],
        ).effects.speech
    }
}

/// What the clients are sent while pieces are streamed.
pub open spec fn shown_while(
    state: ConversationView,
    pieces: Seq<Seq<char>>,
    fresh: Seq<Seq<char>>,
) -> Seq<EventView>
    decreases pieces.len(),
{
    if pieces.len() == 0 {
        Seq::empty()
    } else {
        shown_while(state, pieces.drop_last(), fresh) + chunk_step(
            streamed(state, pieces.drop_last(), fresh),
            pieces.last(),
            fresh[pieces.len() - 1],
        ).effects.events
    }
}

/// The text of streamed pieces.
pub open spec fn whole(pieces: Seq<Seq<char>>) -> Seq<char>
    decreases pieces.len(),
{
    if pieces.len() == 0 {
        Seq::empty()
    } else {
        whole(pieces.drop_last()) + pieces.last()
    }
}

/// Where the first sentence of a text ends does not change when the text goes
/// on.
proof fn lemma_first_end_stays(a: Seq<char>, b: Seq<char>)
    requires
        first_end(a) is Some,
    ensures
        0 <= first_end(a)->0 < a.len(),
        first_end(a + b) == first_end(a),
{
    let ends = |i: int| sentence_ends(a, i);
    let later = |i: int| sentence_ends(a + b, i);
    lemma_first_index(a.len(), ends);
    let at = first_end(a)->0;
    assert(ends(at));
    assert(later(at));
    assert forall|k: int| 0 <= k < at implies !(#[trigger] later(k)) by {
        assert(!ends(k));
    }
    lemma_is_first_index((a + b).len(), later, at);
}

/// A text that goes on has the whole sentences that it had, and then those of
/// what was unfinished with what follows.
pub proof fn law_sentences_come_as_the_text_goes_on(a: Seq<char>, b: Seq<char>)
    ensures
        whole_sentences(a + b) == whole_sentences(a) + whole_sentences(unfinished(a) + b),
        unfinished(a + b) == unfinished(unfinished(a) + b),
    decreases a.len(),
{
    match first_end(a) {
        Some(at) => {
            lemma_first_end_stays(a, b);
            let rest = a.skip(at + 1);
            law_sentences_come_as_the_text_goes_on(rest, b);
            assert((a + b).take(at + 1) =~= a.take(at + 1));
            assert((a + b).skip(at + 1) =~= rest + b);
            assert(whole_sentences(a + b) =~= whole_sentences(a) + whole_sentences(
                unfinished(a) + b,
            ));
        },
        None => {
            assert(whole_sentences(a + b) =~= whole_sentences(a) + whole_sentences(
                unfinished(a) + b,
            ));
        },
    }
}

/// No sentence ends in what is left of a text behind its whole sentences, and a
/// whole sentence ends nowhere before its last character.
pub proof fn law_a_whole_sentence_ends_once(s: Seq<char>)
    ensures
        first_end(unfinished(s)) is None,
        forall|k: int|
            0 <= k < whole_sentences(s).len() ==> {
                let sentence = #[trigger] whole_sentences(s)[k];
                &&& sentence.len() > 0
                &&& sentence.last() == '\n' || sentence.last() == '.' || sentence.last() == '!'
                    || sentence.last() == '?'
                &&& forall|i: int|
                    0 <= i < sentence.len() - 1 ==> !#[trigger] sentence_ends(sentence, i)
            },
    decreases s.len(),
{
    let ends = |i: int| sentence_ends(s, i);
    lemma_first_index(s.len(), ends);
    if let Some(at) = first_end(s) {
        let rest = s.skip(at + 1);
        law_a_whole_sentence_ends_once(rest);
        assert(ends(at));
        let all = whole_sentences(s);
        let head = s.take(at + 1);
        assert forall|i: int| 0 <= i < head.len() - 1 implies !#[trigger] sentence_ends(
            head,
            i,
        ) by {
            assert(!ends(i));
        }
        assert forall|k: int| 0 <= k < all.len() implies {
            let sentence = #[trigger] all[k];
            &&& sentence.len() > 0
            &&& sentence.last() == '\n' || sentence.last() == '.' || sentence.last() == '!'
                || sentence.last() == '?'
            &&& forall|i: int|
                0 <= i < sentence.len() - 1 ==> !#[trigger] sentence_ends(sentence, i)
        } by {
            if k > 0 {
                assert(all[k] == whole_sentences(rest)[k - 1]);
            } else {
                assert(all[0] == head);
            }
        }
    }
}

proof fn lemma_spoken_in_turn(a: Seq<Seq<char>>, b: Seq<Seq<char>>)
    ensures
        spoken_lines(a + b) == spoken_lines(a) + spoken_lines(b),
    decreases b.len(),
{
    if b.len() == 0 {
        assert(a + b =~= a);
        assert(spoken_lines(a) + spoken_lines(b) =~= spoken_lines(a));
    } else {
        lemma_spoken_in_turn(a, b.drop_last());
        assert((a + b).drop_last() =~= a + b.drop_last());
        assert((a + b).last() == b.last());
        assert(spoken_lines(a + b) =~= spoken_lines(a) + spoken_lines(b));
    }
}

proof fn lemma_streaming(
    state: ConversationView,
    pieces: Seq<Seq<char>>,
    fresh: Seq<Seq<char>>,
)
    requires
        state.busy,
        !state.warming,
    ensures
        ({
            let after = streamed(state, pieces, fresh);
            &&& after.busy && !after.warming
            &&& after.audio_on == state.audio_on
            &&& after.history == state.history
            &&& after.run == state.run
            &&& first_end(state.speech) is None ==> first_end(after.speech) is None
            &&& unfinished(after.speech) == unfinished(state.speech + whole(pieces))
        }),
        state.audio_on ==> spoken_while(state, pieces, fresh) + spoken_lines(
            whole_sentences(streamed(state, pieces, fresh).speech),
        ) == spoken_lines(whole_sentences(state.speech + whole(pieces))),
    decreases pieces.len(),
{
    let after = streamed(state, pieces, fresh);
    if pieces.len() == 0 {
        assert(state.speech + whole(pieces) =~= state.speech);
        assert(spoken_while(state, pieces, fresh) + spoken_lines(whole_sentences(state.speech))
            =~= spoken_lines(whole_sentences(state.speech)));
    } else {
        let earlier = pieces.drop_last();
        let last = pieces.last();
        lemma_streaming(state, earlier, fresh);
        let before = streamed(state, earlier, fresh);
        let so_far = state.speech + whole(earlier);
        let heard = before.speech + last;
        assert(state.speech + whole(pieces) =~= so_far + last);
        if last.len() == 0 {
            assert(after == before);
            assert(so_far + last =~= so_far);
            assert(spoken_while(state, pieces, fresh) =~= spoken_while(state, earlier, fresh));
        } else {
            law_sentences_come_as_the_text_goes_on(so_far, last);
            law_sentences_come_as_the_text_goes_on(before.speech, last);
            law_sentences_come_as_the_text_goes_on(heard, Seq::empty());
            assert(unfinished(heard) + Seq::<char>::empty() =~= unfinished(heard));
            assert(heard + Seq::<char>::empty() =~= heard);
            assert(after.speech == unfinished(heard));
            law_a_whole_sentence_ends_once(heard);
            if state.audio_on {
                let one = spoken_while(state, earlier, fresh);
                assert(whole_sentences(unfinished(heard)) =~= Seq::empty());
                lemma_spoken_in_turn(
                    whole_sentences(before.speech),
                    whole_sentences(unfinished(before.speech) + last),
                );
                lemma_spoken_in_turn(
                    whole_sentences(so_far),
                    whole_sentences(unfinished(so_far) + last),
                );
                assert(one + (spoken_lines(whole_sentences(before.speech)) + spoken_lines(
                    whole_sentences(unfinished(before.speech) + last),
                )) =~= one + spoken_lines(whole_sentences(before.speech)) + spoken_lines(
                    whole_sentences(unfinished(before.speech) + last),
                ));
                assert(spoken_while(state, pieces, fresh) =~= one + spoken_lines(
                    whole_sentences(heard),
                ));
                assert(spoken_while(state, pieces, fresh) + spoken_lines(
                    whole_sentences(after.speech),
                ) =~= spoken_while(state, pieces, fresh));
            }
        }
    }
}

/// With speech on, the commands while pieces are streamed and the commands at
/// the turn's end together say the whole sentences of the text and then its
/// unfinished rest, where that is not blank: once, trimmed and without markup.
pub proof fn law_a_turn_says_its_sentences_and_its_rest(
    state: ConversationView,
    pieces: Seq<Seq<char>>,
    fresh: Seq<Seq<char>>,
)
    requires
        state.busy,
        !state.warming,
        state.audio_on,
        first_end(state.speech) is None,
    ensures
        ({
            let text = state.speech + whole(pieces);
            let rest = unfinished(text);
            let last = flush_step(streamed(state, pieces, fresh));
            &&& spoken_while(state, pieces, fresh) + last.effects.speech == spoken_lines(
                whole_sentences(text),
            ) + (if blank(rest) {
                Seq::empty()
            } else {
                seq![NarrationView::Say(speakable(trimmed(rest)))]
            })
            &&& last.state.speech.len() == 0
        }),
{
    lemma_streaming(state, pieces, fresh);
    let after = streamed(state, pieces, fresh);
    let text = state.speech + whole(pieces);
    law_a_whole_sentence_ends_once(text);
    assert(whole_sentences(after.speech) =~= Seq::empty());
    assert(spoken_while(state, pieces, fresh) + Seq::<NarrationView>::empty() =~= spoken_while(
        state,
        pieces,
        fresh,
    ));
    let rest = unfinished(text);
    assert(flush_step(after).effects.speech =~= if blank(rest) {
        Seq::empty()
    } else {
        seq![NarrationView::Say(speakable(trimmed(rest)))]
    });
}

proof fn lemma_no_substance(s: Seq<char>)
    requires
        all_space(s),
    ensures
        substance(s) == Seq::<char>::empty(),
    decreases s.len(),
{
    reveal(Seq::filter);
    if s.len() > 0 {
        assert(is_space(s[s.len() - 1]));
        assert forall|i: int| 0 <= i < s.drop_last().len() implies is_space(
            #[trigger] s.drop_last()[i],
        ) by {
            assert(s.drop_last()[i] == s[i]);
        }
        lemma_no_substance(s.drop_last());
    }
}

proof fn lemma_speakable_keeps_substance(s: Seq<char>)
    ensures
        substance(speakable(s)) == substance(s),
    decreases s.len(),
{
    reveal(Seq::filter);
    if s.len() > 0 {
        let keep = |c: char| !unspoken(c);
        lemma_speakable_keeps_substance(s.drop_last());
        let head = speakable(s.drop_last());
        if keep(s.last()) {
            assert(speakable(s) == head.push(s.last()));
            assert(speakable(s).drop_last() =~= head);
            assert(speakable(s).last() == s.last());
        } else {
            assert(speakable(s) == head);
        }
    }
}

proof fn lemma_trimming_keeps_substance(s: Seq<char>)
    ensures
        substance(trimmed(s)) == substance(s),
{
    broadcast use Seq::filter_distributes_over_add;

    let cut = law_trimming_takes_the_surrounding_space(s);
    let lead = s.take(cut.0);
    let tail = s.skip(cut.1);
    lemma_no_substance(lead);
    lemma_no_substance(tail);
    assert((lead + trimmed(s) + tail).filter(solid()) == (lead + trimmed(s)).filter(solid())
        + tail.filter(solid()));
    assert((lead + trimmed(s)).filter(solid()) == lead.filter(solid()) + trimmed(s).filter(
        solid(),
    ));
    assert(substance(s) =~= substance(trimmed(s)));
}

proof fn lemma_said_in_turn(a: Seq<NarrationView>, b: Seq<NarrationView>)
    ensures
        said(a + b) == said(a) + said(b),
    decreases b.len(),
{
    if b.len() == 0 {
        assert(a + b =~= a);
        assert(said(a) + said(b) =~= said(a));
    } else {
        lemma_said_in_turn(a, b.drop_last());
        assert((a + b).drop_last() =~= a + b.drop_last());
        assert((a + b).last() == b.last());
        assert(said(a + b) =~= said(a) + said(b));
    }
}

proof fn lemma_concatenated_last(list: Seq<Seq<char>>)
    requires
        list.len() > 0,
    ensures
        concatenated(list) == concatenated(list.drop_last()) + list.last(),
    decreases list.len(),
{
    if list.len() == 1 {
        assert(list.skip(1) =~= Seq::empty());
        assert(list.drop_last() =~= Seq::empty());
        assert(concatenated(list.skip(1)) =~= Seq::<char>::empty());
        assert(concatenated(list) =~= concatenated(list.drop_last()) + list.last());
    } else {
        let rest = list.skip(1);
        lemma_concatenated_last(rest);
        assert(rest.drop_last() =~= list.drop_last().skip(1));
        assert(concatenated(list) =~= concatenated(list.drop_last()) + list.last());
    }
}

proof fn lemma_spoken_substance(sentences: Seq<Seq<char>>)
    ensures
        substance(said(spoken_lines(sentences))) == substance(concatenated(sentences)),
    decreases sentences.len(),
{
    broadcast use Seq::filter_distributes_over_add;

    if sentences.len() == 0 {
        assert(said(spoken_lines(sentences)) =~= concatenated(sentences));
    } else {
        let last = sentences.last();
        lemma_spoken_substance(sentences.drop_last());
        lemma_concatenated_last(sentences);
        let before = spoken_lines(sentences.drop_last());
        assert(substance(concatenated(sentences)) =~= substance(
            concatenated(sentences.drop_last()),
        ) + substance(last));
        if blank(last) {
            lemma_blank(last);
            lemma_no_substance(last);
            assert(substance(concatenated(sentences)) =~= substance(said(before)));
        } else {
            let line = speakable(trimmed(last));
            lemma_speakable_keeps_substance(trimmed(last));
            lemma_trimming_keeps_substance(last);
            assert(spoken_lines(sentences).drop_last() =~= before);
            assert(said(spoken_lines(sentences)) == said(before) + line);
            assert(substance(said(before) + line) =~= substance(said(before)) + substance(line));
        }
    }
}

/// With speech on, everything that was streamed in a turn has been said when it
/// ends, in order and once: what was said and what was streamed differ only in
/// white space and markup.
pub proof fn law_everything_streamed_is_said(
    state: ConversationView,
    pieces: Seq<Seq<char>>,
    fresh: Seq<Seq<char>>,
)
    requires
        state.busy,
        !state.warming,
        state.audio_on,
        first_end(state.speech) is None,
    ensures
        substance(
            said(
                spoken_while(state, pieces, fresh) + flush_step(
                    streamed(state, pieces, fresh),
                ).effects.speech,
            ),
        ) == substance(state.speech + whole(pieces)),
{
    broadcast use Seq::filter_distributes_over_add;

    law_a_turn_says_its_sentences_and_its_rest(state, pieces, fresh);
    let text = state.speech + whole(pieces);
    let rest = unfinished(text);
    let sentences = whole_sentences(text);
    law_sentences_lose_nothing(text);
    lemma_spoken_substance(sentences);
    assert(substance(text) =~= substance(concatenated(sentences)) + substance(rest));
    let lines = spoken_lines(sentences);
    if blank(rest) {
        lemma_blank(rest);
        lemma_no_substance(rest);
        assert(lines + Seq::<NarrationView>::empty() =~= lines);
        assert(substance(text) =~= substance(said(lines)));
    } else {
        let line = NarrationView::Say(speakable(trimmed(rest)));
        lemma_said_in_turn(lines, seq![line]);
        assert(seq![line].drop_last() =~= Seq::<NarrationView>::empty());
        assert(said(Seq::<NarrationView>::empty()) =~= Seq::<char>::empty());
        assert(said(seq![line]) =~= speakable(trimmed(rest)));
        lemma_speakable_keeps_substance(trimmed(rest));
        lemma_trimming_keeps_substance(rest);
        assert(substance(said(lines) + said(seq![line])) =~= substance(said(lines)) + substance(
            said(seq![line]),
        ));
    }
}

proof fn lemma_speakable_is_clean(s: Seq<char>)
    ensures
        forall|i: int| 0 <= i < speakable(s).len() ==> !unspoken(#[trigger] speakable(s)[i]),
{
    broadcast use vstd::seq_lib::group_filter_ensures;

    let keep = |c: char| !unspoken(c);
    assert forall|i: int| 0 <= i < speakable(s).len() implies !unspoken(
        #[trigger] speakable(s)[i],
    ) by {
        assert(keep(s.filter(keep)[i]));
    }
}

/// The characters of markup.
pub open spec fn markup(c: char) -> bool {
    "*_`#>|~"@.contains(c)
}

/// Whether a command says a line without markup.
pub open spec fn says_no_markup(command: NarrationView) -> bool {
    command matches NarrationView::Say(text) && forall|i: int|
        0 <= i < text.len() ==> !markup(#[trigger] text[i])
}

/// Nothing that is said holds a character of markup, and a text without markup
/// is said as it is.
pub proof fn law_markup_is_never_said(sentences: Seq<Seq<char>>, s: Seq<char>)
    ensures
        forall|k: int|
            0 <= k < spoken_lines(sentences).len() ==> says_no_markup(
                #[trigger] spoken_lines(sentences)[k],
            ),
        forall|i: int| 0 <= i < speakable(s).len() ==> !markup(#[trigger] speakable(s)[i]),
        (forall|i: int| 0 <= i < s.len() ==> !markup(#[trigger] s[i])) ==> speakable(s) == s,
    decreases sentences.len(), s.len(),
{
    reveal_strlit("*_`#>|~");
    assert forall|c: char| #[trigger] markup(c) <==> unspoken(c) by {
        let all = "*_`#>|~"@;
        assert(all.len() == 7);
        assert(all[0] == '*' && all[1] == '_' && all[2] == '`' && all[3] == '#' && all[4] == '>'
            && all[5] == '|' && all[6] == '~');
        if unspoken(c) {
            let k: int = if c == '*' {
                0
            } else if c == '_' {
                1
            } else if c == '`' {
                2
            } else if c == '#' {
                3
            } else if c == '>' {
                4
            } else if c == '|' {
                5
            } else {
                6
            };
            assert(all[k] == c);
        }
    }
    lemma_speakable_is_clean(s);
    reveal(Seq::filter);
    if s.len() > 0 {
        law_markup_is_never_said(sentences, s.drop_last());
        if forall|i: int| 0 <= i < s.len() ==> !markup(#[trigger] s[i]) {
            assert forall|i: int| 0 <= i < s.drop_last().len() implies !markup(
                #[trigger] s.drop_last()[i],
            ) by {
                assert(s.drop_last()[i] == s[i]);
            }
            assert(!markup(s[s.len() - 1]));
            assert(speakable(s) =~= s);
        }
    } else {
        assert(speakable(s) =~= s);
    }
    if sentences.len() > 0 {
        law_markup_is_never_said(sentences.drop_last(), Seq::empty());
        let line = speakable(trimmed(sentences.last()));
        lemma_speakable_is_clean(trimmed(sentences.last()));
        assert(says_no_markup(NarrationView::Say(line)));
        let before = spoken_lines(sentences.drop_last());
        assert forall|k: int| 0 <= k < spoken_lines(sentences).len() implies says_no_markup(
            #[trigger] spoken_lines(sentences)[k],
        ) by {
            if k < before.len() {
                assert(spoken_lines(sentences)[k] == before[k]);
            }
        }
    }
}

// What the clients see.

/// Pieces that are streamed while no message is open open one message, under the
/// first piece's id, and show each piece in order; the turn's end ends it and
/// puts its text into the transcript.
pub proof fn law_pieces_are_shown_as_one_message(
    state: ConversationView,
    pieces: Seq<Seq<char>>,
    fresh: Seq<Seq<char>>,
)
    requires
        state.busy,
        !state.warming,
        state.active is None,
        pieces.len() > 0,
        forall|k: int| 0 <= k < pieces.len() ==> (#[trigger] pieces[k]).len() > 0,
    ensures
        ({
            let after = streamed(state, pieces, fresh);
            let shown = shown_while(state, pieces, fresh);
            let last = flush_step(after);
            &&& after.active == Some(MessageView { id: fresh[0], text: whole(pieces) })
            &&& after.history == state.history
            &&& shown.len() == pieces.len() + 1
            &&& shown[0] == (EventView::TextMessageStart { id: fresh[0] })
            &&& forall|k: int|
                0 <= k < pieces.len() ==> #[trigger] shown[k + 1] == (
                EventView::TextMessageContent { id: fresh[0], delta: pieces[k] })
            &&& last.effects.events == seq![EventView::TextMessageEnd { id: fresh[0] }]
            &&& last.state.active is None
            &&& last.state.history == recorded(state.history, "tutor"@, whole(pieces))
        }),
    decreases pieces.len(),
{
    let earlier = pieces.drop_last();
    let before = streamed(state, earlier, fresh);
    let shown = shown_while(state, pieces, fresh);
    assert(pieces[pieces.len() - 1].len() > 0);
    lemma_streaming(state, earlier, fresh);
    if pieces.len() == 1 {
        assert(shown_while(state, earlier, fresh) =~= Seq::empty());
        assert(Seq::<char>::empty() + pieces.last() =~= whole(pieces));
        assert(shown =~= seq![
            EventView::TextMessageStart { id: fresh[0] },
            EventView::TextMessageContent { id: fresh[0], delta: pieces[0] },
        ]);
    } else {
        law_pieces_are_shown_as_one_message(state, earlier, fresh);
        let so_far = shown_while(state, earlier, fresh);
        assert(shown =~= so_far.push(
            EventView::TextMessageContent { id: fresh[0], delta: pieces.last() },
        ));
        assert forall|k: int| 0 <= k < pieces.len() implies #[trigger] shown[k + 1] == (
        EventView::TextMessageContent { id: fresh[0], delta: pieces[k] }) by {
            if k < earlier.len() {
                assert(so_far[k + 1] == (EventView::TextMessageContent {
                    id: fresh[0],
                    delta: earlier[k],
                }));
            }
        }
    }
    let after = streamed(state, pieces, fresh);
    assert(flush_step(after).effects.events =~= seq![EventView::TextMessageEnd { id: fresh[0] }]);
}

/// A client that connects while a message streams is shown it from its start,
/// with all of its text so far.
pub proof fn law_a_streaming_message_is_replayed(
    state: ConversationView,
    pieces: Seq<Seq<char>>,
    fresh: Seq<Seq<char>>,
)
    requires
        state.busy,
        !state.warming,
        state.active is None,
        pieces.len() > 0,
        forall|k: int| 0 <= k < pieces.len() ==> (#[trigger] pieces[k]).len() > 0,
    ensures
        active_replay(state).len() == 0,
        active_replay(streamed(state, pieces, fresh)) == seq![
            EventView::TextMessageStart { id: fresh[0] },
            EventView::TextMessageContent { id: fresh[0], delta: whole(pieces) },
        ],
{
    law_pieces_are_shown_as_one_message(state, pieces, fresh);
    assert(active_replay(streamed(state, pieces, fresh)) =~= seq![
        EventView::TextMessageStart { id: fresh[0] },
        EventView::TextMessageContent { id: fresh[0], delta: whole(pieces) },
    ]);
}

/// A notice reaches the clients as one message of its own, whole and trimmed,
/// and is in the transcript; a message that was open has ended before it. A
/// blank notice does nothing.
pub proof fn law_a_notice_is_shown_whole(
    state: ConversationView,
    text: Seq<char>,
    fresh: Seq<char>,
)
    requires
        state.history.len() <= 80,
    ensures
        ({
            let next = notice_step(state, text, fresh);
            let events = next.effects.events;
            &&& blank(text) ==> next.state == state && events.len() == 0
                && next.effects.speech.len() == 0 && next.effects.records.len() == 0
            &&& !blank(text) ==> {
                &&& next.state.active is None
                &&& next.state.history.last() == (LineView {
                    by: "tutor"@,
                    text: trimmed(text),
                })
                &&& events.len() >= 3
                &&& events.skip(events.len() - 3) == seq![
                    EventView::TextMessageStart { id: fresh },
                    EventView::TextMessageContent { id: fresh, delta: trimmed(text) },
                    EventView::TextMessageEnd { id: fresh },
                ]
                &&& state.active matches Some(message) ==> events.len() == 4 && events[0] == (
                EventView::TextMessageEnd { id: message.id })
                &&& state.active is None ==> events.len() == 3
                &&& next.effects.speech.len() == 0
            }
        }),
{
    let next = notice_step(state, text, fresh);
    let events = next.effects.events;
    if !blank(text) {
        assert(events.skip(events.len() - 3) =~= seq![
            EventView::TextMessageStart { id: fresh },
            EventView::TextMessageContent { id: fresh, delta: trimmed(text) },
            EventView::TextMessageEnd { id: fresh },
        ]);
    }
}

/// A turn that is cut off, or that fails, hushes the speaker, says nothing of
/// what was left, and ends the open message for the clients with its text in
/// the transcript.
pub proof fn law_a_turn_cut_short_ends_its_message(state: ConversationView, error: Seq<char>)
    ensures
        ({
            let cut = cancel_step(state);
            let failed = fail_step(state, error);
            &&& cut.effects.speech == seq![NarrationView::Hush]
            &&& failed.effects.speech == seq![NarrationView::Hush]
            &&& cut.state.speech.len() == 0 && failed.state.speech.len() == 0
            &&& cut.state.active is None && failed.state.active is None
            &&& state.active matches Some(message) ==> {
                &&& cut.effects.events == seq![EventView::TextMessageEnd { id: message.id }]
                &&& cut.state.history == recorded(state.history, "tutor"@, message.text)
                &&& failed.effects.events == seq![
                    EventView::TextMessageEnd { id: message.id },
                    tutor_notice("failed"@, Some(error)),
                ]
                &&& failed.state.history == recorded(state.history, "tutor"@, message.text)
                &&& cut.effects.records.len() == 1
                &&& cut.effects.records[0] matches RecordView::Message {
                    outcome,
                    run,
                    message: id,
                    ..
                } && outcome == ActivityOutcome::Cancelled && run == state.run && id == Some(
                    message.id,
                )
                &&& failed.effects.records[0] matches RecordView::Message {
                    outcome,
                    run,
                    message: id,
                    ..
                } && outcome == ActivityOutcome::Failed && run == state.run && id == Some(
                    message.id,
                )
            }
            &&& state.active is None ==> cut.effects.events.len() == 0 && cut.state.history
                == state.history && failed.effects.events == seq![
                tutor_notice("failed"@, Some(error)),
            ] && failed.state.history == state.history
            &&& failed.state.provider_error == Some(error)
            &&& !failed.state.ready && !failed.state.warming && !failed.state.busy
                && !failed.state.awaiting
            &&& cut.state.busy == state.busy && cut.state.run == state.run && cut.state.ready
                == state.ready
        }),
{
    let cut = cancel_step(state);
    let failed = fail_step(state, error);
    assert(cut.effects.speech =~= seq![NarrationView::Hush]);
    assert(failed.effects.speech =~= seq![NarrationView::Hush]);
    if let Some(message) = state.active {
        assert(cut.effects.events =~= seq![EventView::TextMessageEnd { id: message.id }]);
        assert(failed.effects.events =~= seq![
            EventView::TextMessageEnd { id: message.id },
            tutor_notice("failed"@, Some(error)),
        ]);
    } else {
        assert(failed.effects.events =~= seq![tutor_notice("failed"@, Some(error))]);
    }
}

proof fn lemma_names()
    ensures
        "state"@.len() == 5,
        "question"@.len() == 8,
        "thinking"@.len() == 8,
        "thinking"@[0] == 't',
        "awaiting"@.len() == 8,
        "awaiting"@[0] == 'a',
        "warming"@.len() == 7,
        "failed"@.len() == 6,
        "ready"@.len() == 5,
        "ready"@[0] == 'r',
        "done"@.len() == 4,
{
    reveal_strlit("state");
    reveal_strlit("question");
    reveal_strlit("thinking");
    reveal_strlit("awaiting");
    reveal_strlit("warming");
    reveal_strlit("failed");
    reveal_strlit("ready");
    reveal_strlit("done");
}

/// A lifecycle event says the state and the question, `null` where there is
/// none.
pub proof fn law_a_lifecycle_event_says_state_and_question(
    word: Seq<char>,
    question: Option<Seq<char>>,
)
    ensures
        tutor_notice(word, question) matches EventView::Custom { name, value }
            && name == "surface.tutor"@ && value.text_member("state"@) == Some(word)
            && value.text_member("question"@) == question && (question is None
            ==> value.member("question"@) == Some(JsonView::Null)),
{
    broadcast use group_reading;

    lemma_names();
}

/// A client that connects is told of a failure and why, that the assistant is
/// starting, that it is thinking, or that it is ready: in that order of rank,
/// and never of a question where nothing failed.
pub proof fn law_a_connecting_client_hears_how_the_assistant_is(state: ConversationView)
    ensures
        ({
            let told = tutor_state(state);
            let word = told.text_member("state"@);
            &&& state.provider_error matches Some(error) ==> word == Some("failed"@)
                && told.text_member("question"@) == Some(error)
            &&& state.provider_error is None ==> told.member("question"@) is None
            &&& state.provider_error is None && (state.warming || !state.ready) ==> word == Some(
                "warming"@,
            )
            &&& state.provider_error is None && !state.warming && state.ready && state.busy
                ==> word == Some("thinking"@)
            &&& state.provider_error is None && !state.warming && state.ready && !state.busy
                ==> word == Some("ready"@)
        }),
{
    broadcast use group_reading;

    lemma_names();
}

/// The assistant waits for the person from the word that says so until it
/// thinks, starts or fails.
pub proof fn law_waiting_lasts_until_the_assistant_moves(
    state: ConversationView,
    question: Option<Seq<char>>,
    word: Seq<char>,
)
    ensures
        tutor_step(state, "awaiting"@, question).state.awaiting,
        !tutor_step(state, "thinking"@, question).state.awaiting,
        !tutor_step(state, "warming"@, question).state.awaiting,
        !tutor_step(state, "failed"@, question).state.awaiting,
        tutor_step(state, "done"@, question).state.awaiting == state.awaiting,
        tutor_step(state, "ready"@, question).state.awaiting == state.awaiting,
        tutor_step(state, word, question).effects.events == seq![tutor_notice(word, question)],
        tutor_step(state, word, question).effects.speech.len() == 0,
        tutor_step(state, word, question).state == (ConversationView {
            awaiting: tutor_step(state, word, question).state.awaiting,
            ..state
        }),
{
    lemma_names();
    assert(tutor_step(state, word, question).effects.events =~= seq![
        tutor_notice(word, question),
    ]);
}

/// A person's turn hushes old speech first, shows the person's line before the
/// thinking assistant, and runs from then on under a name of its own; what was
/// streaming, and whether speech is on, stay as they were.
pub proof fn law_a_persons_turn_begins_in_order(
    state: ConversationView,
    by: Seq<char>,
    text: Seq<char>,
    live: Option<EventView>,
    question: Option<Seq<char>>,
    fresh: Seq<char>,
)
    requires
        state.history.len() <= 80,
    ensures
        ({
            let next = human_turn_step(state, by, text, live, question, fresh);
            &&& next.effects.speech == seq![NarrationView::Hush]
            &&& next.effects.events == (match live {
                Some(event) => seq![event],
                None => Seq::empty(),
            }) + seq![tutor_notice("thinking"@, question)]
            &&& next.state.busy && !next.state.awaiting
            &&& next.state.run matches Some(run) && fresh.is_suffix_of(
                run,
            )
            &&& next.state.history.len() <= 80
            &&& !blank(text) ==> next.state.history.last() == (LineView {
                by,
                text: trimmed(text),
            })
            &&& blank(text) ==> next.state.history == state.history
            &&& next.state.active == state.active && next.state.speech == state.speech
            &&& next.state.audio_on == state.audio_on && next.state.ready == state.ready
                && next.state.warming == state.warming
            &&& next.state.provider_error == state.provider_error && next.state.provider
                == state.provider && next.state.stream_session == state.stream_session
        }),
{
    let next = human_turn_step(state, by, text, live, question, fresh);
    assert(next.effects.speech =~= seq![NarrationView::Hush]);
    assert(next.effects.events =~= (match live {
        Some(event) => seq![event],
        None => Seq::empty(),
    }) + seq![tutor_notice("thinking"@, question)]);
    let run = "run-"@ + fresh;
    assert(run.subrange(run.len() - fresh.len(), run.len() as int) =~= fresh);
}

/// When a turn is done nothing runs, the clients are told so, and the transcript,
/// the open message and what is still to be said stay; the next person can then
/// be answered.
pub proof fn law_a_done_turn_leaves_the_rest_alone(state: ConversationView)
    ensures
        ({
            let next = finish_step(state);
            &&& !next.state.busy && next.state.run is None
            &&& next.state == (ConversationView { busy: false, run: None, ..state })
            &&& next.effects.events == seq![tutor_notice("done"@, None)]
            &&& next.effects.speech.len() == 0
        }),
{
    assert(finish_step(state).effects.events =~= seq![tutor_notice("done"@, None)]);
}

/// Asking for a provider makes it the one that is starting: the failure before
/// it is forgotten, nobody is waited for, and the clients are told; the
/// transcript and the turn stay.
pub proof fn law_a_provider_starts_over(state: ConversationView)
    ensures
        ({
            let next = switch_step(state);
            &&& next.state.warming && !next.state.ready && !next.state.awaiting
            &&& next.state.provider_error is None
            &&& next.state.history == state.history && next.state.busy == state.busy
                && next.state.run == state.run && next.state.active == state.active
                && next.state.speech == state.speech && next.state.audio_on == state.audio_on
            &&& next.effects.events == seq![tutor_notice("warming"@, None)]
            &&& next.effects.speech.len() == 0
        }),
{
    assert(switch_step(state).effects.events =~= seq![tutor_notice("warming"@, None)]);
}

/// Turning speech off hushes at once, turning it on says nothing, and either
/// changes nothing else.
pub proof fn law_speech_is_switched_alone(state: ConversationView, on: bool)
    ensures
        ({
            let next = audio_step(state, on);
            &&& next.state == (ConversationView { audio_on: on, ..state })
            &&& next.effects.speech == (if on {
                Seq::empty()
            } else {
                seq![NarrationView::Hush]
            })
            &&& next.effects.events.len() == 0
        }),
{
    assert(audio_step(state, on).effects.speech =~= if on {
        Seq::empty()
    } else {
        seq![NarrationView::Hush]
    });
}

/// The transcript keeps the newest lines in order: what is in it after a line
/// was put in is the end of what was there with the line behind it, all of it
/// unless that makes more than eighty.
pub proof fn law_the_transcript_keeps_its_end(
    history: Seq<LineView>,
    by: Seq<char>,
    text: Seq<char>,
)
    requires
        history.len() <= 80,
    ensures
        ({
            let next = recorded(history, by, text);
            let line = LineView { by, text: trimmed(text) };
            &&& blank(text) ==> next == history
            &&& !blank(text) ==> next.is_suffix_of(history.push(line))
            &&& !blank(text) && history.len() < 80 ==> next == history.push(line)
            &&& !blank(text) && history.len() == 80 ==> next.len() == 80
        }),
{
    let line = LineView { by, text: trimmed(text) };
    let grown = history.push(line);
    let next = recorded(history, by, text);
    if !blank(text) {
        assert(grown.subrange(grown.len() - next.len(), grown.len() as int) =~= next);
    }
}

/// A streamed piece changes and says something exactly where it is not empty, a
/// turn runs and the provider is up; a piece of a process session counts as any
/// other where that session's output counts, and not at all where it does not.
pub proof fn law_a_piece_counts_only_while_a_turn_runs(
    state: ConversationView,
    session: Seq<char>,
    text: Seq<char>,
    fresh: Seq<char>,
)
    ensures
        ({
            let step = chunk_step(state, text, fresh);
            let counts = text.len() > 0 && state.busy && !state.warming;
            &&& step.effects.events.len() > 0 <==> counts
            &&& !counts ==> step.state == state && step.effects.speech.len() == 0
                && step.effects.records.len() == 0
            &&& counts ==> step.state.active is Some && text.is_suffix_of(
                step.state.active->0.text,
            )
            &&& step.state.busy == state.busy && step.state.history == state.history
                && step.state.run == state.run
        }),
        state.stream_session == Some(session) ==> session_chunk_step(state, session, text, fresh)
            == chunk_step(state, text, fresh),
        state.stream_session != Some(session) ==> ({
            let step = session_chunk_step(state, session, text, fresh);
            &&& step.state == state
            &&& step.effects.events.len() == 0 && step.effects.speech.len() == 0
                && step.effects.records.len() == 0
        }),
{
    let step = chunk_step(state, text, fresh);
    if text.len() > 0 && state.busy && !state.warming {
        let whole = step.state.active->0.text;
        assert(whole.subrange(whole.len() - text.len(), whole.len() as int) =~= text);
    }
}

/// A whole sentence comes out of a text exactly where the text holds a line's
/// end, or a full stop, an exclamation or a question mark with white space right
/// behind it.
pub proof fn law_a_sentence_comes_out_at_its_mark(s: Seq<char>)
    ensures
        whole_sentences(s).len() > 0 <==> exists|i: int|
            0 <= i < s.len() && (#[trigger] s[i] == '\n' || ((s[i] == '.' || s[i] == '!' || s[i]
                == '?') && i + 1 < s.len() && (s[i + 1] == ' ' || s[i + 1] == '\t' || s[i + 1]
                == '\n' || s[i + 1] == '\r' || s[i + 1] == '\u{C}'))),
{
    let ends = |i: int| sentence_ends(s, i);
    lemma_first_index(s.len(), ends);
    if exists|i: int|
        0 <= i < s.len() && (#[trigger] s[i] == '\n' || ((s[i] == '.' || s[i] == '!' || s[i] == '?')
            && i + 1 < s.len() && (s[i + 1] == ' ' || s[i + 1] == '\t' || s[i + 1] == '\n' || s[i
            + 1] == '\r' || s[i + 1] == '\u{C}'))) {
        let i = choose|i: int|
            0 <= i < s.len() && (#[trigger] s[i] == '\n' || ((s[i] == '.' || s[i] == '!' || s[i]
                == '?') && i + 1 < s.len() && (s[i + 1] == ' ' || s[i + 1] == '\t' || s[i + 1]
                == '\n' || s[i + 1] == '\r' || s[i + 1] == '\u{C}')));
        assert(ends(i));
    }
    if let Some(at) = first_end(s) {
        assert(ends(at));
        assert(s[at] == s[at]);
    }
}

} // verus!
