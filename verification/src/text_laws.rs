//! What trimming, splitting, ordering and printing do to any text.

use vstd::prelude::*;

use crate::text::{
    ascii_lowered, blank, decimal, digit_char, is_control, is_digit, is_space, joined,
    lemma_split_nonempty, split_first, split_on, text_before, trim_end, trim_end_of, trim_start,
    trim_start_of, trimmed,
};

verus! {

/// Whether every character of a text is white space.
pub open spec fn all_space(s: Seq<char>) -> bool {
    forall|i: int| 0 <= i < s.len() ==> is_space(#[trigger] s[i])
}

/// Whether a text neither begins nor ends with white space.
pub open spec fn snug(s: Seq<char>) -> bool {
    s.len() > 0 ==> !is_space(s[0]) && !is_space(s.last())
}

/// Whether a text holds another at some place.
pub open spec fn mentions(text: Seq<char>, part: Seq<char>) -> bool {
    exists|at: int| 0 <= at && #[trigger] text.skip(at).take(part.len() as int) == part && at
        + part.len() <= text.len()
}

/// A text holds what stands between its two ends.
pub proof fn lemma_mentions(text: Seq<char>, head: Seq<char>, part: Seq<char>, tail: Seq<char>)
    requires
        text == head + part + tail,
    ensures
        mentions(text, part),
{
    let at = head.len() as int;
    assert(text.skip(at).take(part.len() as int) =~= part);
}

/// What a part of a text holds, the text holds.
pub proof fn lemma_mentions_within(
    text: Seq<char>,
    head: Seq<char>,
    part: Seq<char>,
    tail: Seq<char>,
    inner: Seq<char>,
)
    requires
        text == head + part + tail,
        mentions(part, inner),
    ensures
        mentions(text, inner),
{
    let at = choose|at: int| 0 <= at && #[trigger] part.skip(at).take(inner.len() as int) == inner
        && at + inner.len() <= part.len();
    let here = at + head.len() as int;
    assert(text.skip(here).take(inner.len() as int) =~= part.skip(at).take(inner.len() as int));
}

/// Texts that are joined stand in the result, each whole.
pub proof fn law_joined_texts_are_all_there(list: Seq<Seq<char>>, sep: Seq<char>, k: int)
    requires
        0 <= k < list.len(),
    ensures
        mentions(joined(list, sep), list[k]),
    decreases list.len(),
{
    let whole = joined(list, sep);
    if list.len() == 1 {
        lemma_mentions(whole, Seq::empty(), list[0], Seq::empty());
        assert(whole =~= Seq::<char>::empty() + list[0] + Seq::<char>::empty());
    } else if k == list.len() - 1 {
        let head = joined(list.drop_last(), sep) + sep;
        assert(whole =~= head + list[k] + Seq::<char>::empty());
        lemma_mentions(whole, head, list[k], Seq::empty());
    } else {
        let part = joined(list.drop_last(), sep);
        law_joined_texts_are_all_there(list.drop_last(), sep, k);
        assert(whole =~= Seq::<char>::empty() + part + (sep + list.last()));
        lemma_mentions_within(whole, Seq::empty(), part, sep + list.last(), list[k]);
    }
}

/// Of printable ASCII only the space is white space; the tab and the ends of
/// lines are white space too.
pub proof fn law_printed_characters_are_no_space(c: char)
    ensures
        '!' <= c <= '~' ==> !is_space(c) && !is_control(c),
        c == ' ' || c == '\t' || c == '\n' || c == '\r' ==> is_space(c),
        c == '\t' || c == '\n' || c == '\r' ==> is_control(c),
{
}

proof fn lemma_trim_start_cut(s: Seq<char>) -> (from: int)
    ensures
        0 <= from <= s.len(),
        trim_start(s) == s.skip(from),
        all_space(s.take(from)),
        from < s.len() ==> !is_space(s[from]),
    decreases s.len(),
{
    if s.len() > 0 && is_space(s[0]) {
        let rest = lemma_trim_start_cut(s.skip(1));
        assert(s.skip(1).skip(rest) =~= s.skip(rest + 1));
        assert forall|i: int| 0 <= i < rest + 1 implies is_space(
            #[trigger] s.take(rest + 1)[i],
        ) by {
            if i > 0 {
                assert(s.skip(1).take(rest)[i - 1] == s[i]);
            }
        }
        rest + 1
    } else {
        assert(s.skip(0) =~= s);
        0
    }
}

proof fn lemma_trim_end_cut(s: Seq<char>) -> (to: int)
    ensures
        0 <= to <= s.len(),
        trim_end(s) == s.take(to),
        all_space(s.skip(to)),
        to > 0 ==> !is_space(s[to - 1]),
    decreases s.len(),
{
    if s.len() > 0 && is_space(s.last()) {
        let to = lemma_trim_end_cut(s.drop_last());
        assert(s.drop_last().take(to) =~= s.take(to));
        assert forall|i: int| 0 <= i < s.len() - to implies is_space(#[trigger] s.skip(to)[i]) by {
            if i < s.len() - to - 1 {
                assert(s.drop_last().skip(to)[i] == s[to + i]);
            }
        }
        to
    } else {
        assert(s.take(s.len() as int) =~= s);
        s.len() as int
    }
}

/// Trimming takes white space from both ends of a text, all of it and nothing
/// else.
pub proof fn law_trimming_takes_the_surrounding_space(s: Seq<char>) -> (cut: (int, int))
    ensures
        0 <= cut.0 <= cut.1 <= s.len(),
        trimmed(s) == s.subrange(cut.0, cut.1),
        all_space(s.take(cut.0)),
        all_space(s.skip(cut.1)),
        snug(trimmed(s)),
        s == s.take(cut.0) + trimmed(s) + s.skip(cut.1),
{
    let from = lemma_trim_start_cut(s);
    let inner = s.skip(from);
    let len = lemma_trim_end_cut(inner);
    let to = from + len;
    assert(inner.take(len) =~= s.subrange(from, to));
    assert(inner.skip(len) =~= s.skip(to));
    if len > 0 {
        assert(inner[len - 1] == s[to - 1]);
        if is_space(s[from]) {
            assert(from < s.len());
        }
    }
    assert(s =~= s.take(from) + trimmed(s) + s.skip(to));
    (from, to)
}

/// A text without white space at its ends is left alone, so trimming again
/// changes nothing.
pub proof fn law_trimming_twice_is_trimming(s: Seq<char>)
    ensures
        snug(s) ==> trimmed(s) == s,
        trimmed(trimmed(s)) == trimmed(s),
        blank(s) <==> all_space(s),
{
    law_trimming_takes_the_surrounding_space(s);
    let once = trimmed(s);
    let cut = law_trimming_takes_the_surrounding_space(once);
    if once.len() > 0 {
        if cut.0 > 0 {
            assert(is_space(once.take(cut.0)[0]));
        }
        if cut.1 < once.len() {
            let tail = once.skip(cut.1);
            assert(is_space(tail[tail.len() - 1]));
        }
        assert(once.subrange(0, once.len() as int) =~= once);
    }
    if snug(s) {
        let own = law_trimming_takes_the_surrounding_space(s);
        if s.len() > 0 {
            if own.0 > 0 {
                assert(is_space(s.take(own.0)[0]));
            }
            if own.1 < s.len() {
                let tail = s.skip(own.1);
                assert(is_space(tail[tail.len() - 1]));
            }
        }
        assert(s.subrange(0, s.len() as int) =~= s);
    }
    crate::text::lemma_blank(s);
}

/// Splitting a text at a character and joining the pieces with it gives the text
/// back, and no piece holds the character.
pub proof fn law_split_pieces_join_to_the_text(s: Seq<char>, sep: char)
    ensures
        joined(split_on(s, sep), seq![sep]) == s,
        forall|k: int|
            0 <= k < split_on(s, sep).len() ==> !(#[trigger] split_on(s, sep)[k]).contains(sep),
    decreases s.len(),
{
    let all = split_on(s, sep);
    if s.len() == 0 {
        assert(joined(all, seq![sep]) =~= s);
    } else {
        let rest = s.drop_last();
        let pieces = split_on(rest, sep);
        law_split_pieces_join_to_the_text(rest, sep);
        lemma_split_nonempty(rest, sep);
        if s.last() == sep {
            assert(all.drop_last() =~= pieces);
            assert(joined(all, seq![sep]) =~= rest + seq![sep] + Seq::<char>::empty());
            assert(s =~= rest + seq![sep] + Seq::<char>::empty());
            assert forall|k: int| 0 <= k < all.len() implies !(#[trigger] all[k]).contains(
                sep,
            ) by {
                if k < pieces.len() {
                    assert(all[k] == pieces[k]);
                }
            }
        } else {
            let grown = pieces.last().push(s.last());
            assert(all.drop_last() =~= pieces.drop_last());
            assert(all.last() == grown);
            if pieces.len() == 1 {
                assert(all.len() == 1);
                assert(joined(all, seq![sep]) == grown);
                assert(grown =~= s);
            } else {
                assert(joined(all, seq![sep]) =~= joined(pieces.drop_last(), seq![sep]) + seq![sep]
                    + grown);
                assert(joined(pieces, seq![sep]) =~= joined(pieces.drop_last(), seq![sep])
                    + seq![sep] + pieces.last());
                assert(s =~= rest.push(s.last()));
                assert(joined(pieces.drop_last(), seq![sep]) + seq![sep] + grown =~= (joined(
                    pieces.drop_last(),
                    seq![sep],
                ) + seq![sep] + pieces.last()).push(s.last()));
            }
            assert forall|k: int| 0 <= k < all.len() implies !(#[trigger] all[k]).contains(
                sep,
            ) by {
                if k < pieces.len() - 1 {
                    assert(all[k] == pieces[k]);
                } else {
                    assert(!pieces[pieces.len() - 1].contains(sep));
                    assert forall|j: int| 0 <= j < grown.len() implies grown[j] != sep by {
                        if j < pieces.last().len() {
                            assert(pieces.last().contains(pieces.last()[j]));
                        }
                    }
                }
            }
        }
    }
}

/// Splitting a text once cuts it at the first occurrence of the character, and
/// fails exactly where there is none.
pub proof fn law_splitting_once_cuts_at_the_first(s: Seq<char>, sep: char)
    ensures
        split_first(s, sep) is Some <==> s.contains(sep),
        split_first(s, sep) matches Some((head, tail)) ==> {
            &&& s == head + seq![sep] + tail
            &&& !head.contains(sep)
        },
    decreases s.len(),
{
    if s.len() > 0 {
        if s[0] == sep {
            assert(s =~= Seq::<char>::empty() + seq![sep] + s.skip(1));
            assert(s.contains(sep));
        } else {
            let rest = s.skip(1);
            law_splitting_once_cuts_at_the_first(rest, sep);
            if rest.contains(sep) {
                let k = choose|k: int| 0 <= k < rest.len() && rest[k] == sep;
                assert(s[k + 1] == sep);
            } else if s.contains(sep) {
                let k = choose|k: int| 0 <= k < s.len() && s[k] == sep;
                assert(rest[k - 1] == sep);
            }
            if let Some((head, tail)) = split_first(rest, sep) {
                let whole = seq![s[0]] + head;
                assert(s =~= seq![s[0]] + rest);
                assert(s =~= whole + seq![sep] + tail);
                assert forall|j: int| 0 <= j < whole.len() implies whole[j] != sep by {
                    if j > 0 {
                        assert(head.contains(head[j - 1]));
                    }
                }
            }
        }
    }
}

/// Taking a character from the end of a text takes all of it there, and nothing
/// else.
pub proof fn law_trailing_characters_are_taken(s: Seq<char>, c: char)
    ensures
        trim_end_of(s, c).len() <= s.len(),
        trim_end_of(s, c) == s.take(trim_end_of(s, c).len() as int),
        forall|i: int| trim_end_of(s, c).len() <= i < s.len() ==> s[i] == c,
        trim_end_of(s, c).len() > 0 ==> trim_end_of(s, c).last() != c,
    decreases s.len(),
{
    if s.len() > 0 && s.last() == c {
        law_trailing_characters_are_taken(s.drop_last(), c);
        assert forall|i: int| trim_end_of(s, c).len() <= i < s.len() implies s[i] == c by {
            if i < s.len() - 1 {
                assert(s.drop_last()[i] == s[i]);
            }
        }
    }
}

/// Taking a character from the start of a text takes all of it there, and
/// nothing else.
pub proof fn law_leading_characters_are_taken(s: Seq<char>, c: char)
    ensures
        trim_start_of(s, c).len() <= s.len(),
        trim_start_of(s, c) == s.skip(s.len() - trim_start_of(s, c).len()),
        forall|i: int| 0 <= i < s.len() - trim_start_of(s, c).len() ==> s[i] == c,
        trim_start_of(s, c).len() > 0 ==> trim_start_of(s, c)[0] != c,
    decreases s.len(),
{
    if s.len() > 0 && s[0] == c {
        law_leading_characters_are_taken(s.skip(1), c);
        let kept = trim_start_of(s, c);
        assert(s.skip(s.len() - kept.len()) =~= s.skip(1).skip(s.len() - 1 - kept.len()));
        assert forall|i: int| 0 <= i < s.len() - kept.len() implies s[i] == c by {
            if i > 0 {
                assert(s.skip(1)[i - 1] == s[i]);
            }
        }
    }
}

/// Texts are ordered by the first character in which they differ, the lower code
/// point first, and a text comes before every longer one that it begins.
pub proof fn law_the_first_difference_orders_texts(
    head: Seq<char>,
    a: Seq<char>,
    b: Seq<char>,
)
    ensures
        a.len() > 0 && b.len() > 0 && a[0] < b[0] ==> text_before(head + a, head + b)
            && !text_before(head + b, head + a),
        b.len() > 0 ==> text_before(head, head + b) && !text_before(head + b, head),
    decreases head.len(),
{
    if head.len() > 0 {
        law_the_first_difference_orders_texts(head.skip(1), a, b);
        assert((head + a).skip(1) =~= head.skip(1) + a);
        assert((head + b).skip(1) =~= head.skip(1) + b);
    } else {
        assert(head + a =~= a);
        assert(head + b =~= b);
    }
}

/// Making a text's ASCII capitals small changes nothing else: a capital gets the
/// small letter thirty-two code points above it.
pub proof fn law_only_capitals_are_made_small(s: Seq<char>, i: int)
    requires
        0 <= i < s.len(),
    ensures
        ascii_lowered(s).len() == s.len(),
        'A' <= s[i] <= 'Z' ==> ascii_lowered(s)[i] as int == s[i] as int + 32,
        !('A' <= s[i] <= 'Z') ==> ascii_lowered(s)[i] == s[i],
{
}

/// The number that decimal digits write.
pub open spec fn number_of(digits: Seq<char>) -> nat
    decreases digits.len(),
{
    if digits.len() == 0 {
        0
    } else {
        (10 * number_of(digits.drop_last()) + (digits.last() as int - 48)) as nat
    }
}

/// A number in decimal is read back as the number, from digits alone and without
/// a leading zero; so two numbers are never written alike.
pub proof fn law_a_decimal_is_read_back(n: nat)
    ensures
        number_of(decimal(n)) == n,
        decimal(n).len() > 0,
        n > 0 ==> decimal(n)[0] != '0',
        forall|i: int| 0 <= i < decimal(n).len() ==> is_digit(#[trigger] decimal(n)[i]),
    decreases n,
{
    if n < 10 {
        assert(digit_char(n) as int == 48 + n);
        assert(decimal(n).drop_last() =~= Seq::empty());
        assert(number_of(Seq::<char>::empty()) == 0);
        assert(decimal(n).last() == digit_char(n));
    } else {
        law_a_decimal_is_read_back(n / 10);
        let head = decimal(n / 10);
        assert(decimal(n).drop_last() =~= head);
        assert(digit_char(n % 10) as int == 48 + n % 10);
        assert(decimal(n).last() == digit_char(n % 10));
        assert(number_of(decimal(n)) == 10 * (n / 10) + n % 10);
        assert forall|i: int| 0 <= i < decimal(n).len() implies is_digit(
            #[trigger] decimal(n)[i],
        ) by {
            if i < head.len() {
                assert(decimal(n)[i] == head[i]);
            }
        }
    }
}

} // verus!
