//! Text as sequences of characters: the small vocabulary of string operations
//! that the rest of the library states its contracts in.

use vstd::prelude::*;

verus! {

/// `String::push` appends one character to the end of the string.
pub assume_specification[ String::push ](s: &mut String, c: char)
    ensures
        final(s)@ == old(s)@.push(c),
;

/// `str`'s `==` holds exactly when both sides hold the same characters.
pub assume_specification[ <str as PartialEq>::eq ](a: &str, b: &str) -> (verdict: bool)
    ensures
        verdict == (a@ == b@),
;

/// What `{:?}` prints for a text: the text in double quotes, with escapes.
pub uninterp spec fn debug_text(s: Seq<char>) -> Seq<char>;

/// `format!("{:?}")` of a `str`: the quoted, escaped form of the text, a
/// function of the text alone.
#[verifier::external_body]
pub(crate) fn debug_quote(s: &str) -> (quoted: String)
    ensures
        quoted@ == debug_text(s@),
{
    format!("{:?}", s)
}

/// What `str::to_lowercase` gives for a text.
pub uninterp spec fn lowercase(s: Seq<char>) -> Seq<char>;

/// `str::to_lowercase`: the Unicode lowercase of a text, a function of the
/// text alone.
#[verifier::external_body]
pub(crate) fn to_lowercase(s: &str) -> (lower: String)
    ensures
        lower@ == lowercase(s@),
{
    s.to_lowercase()
}

/// The texts that a list of strings holds.
pub open spec fn texts(list: Seq<String>) -> Seq<Seq<char>> {
    Seq::new(list.len(), |i: int| list[i]@)
}

/// The text that an optional string holds.
pub open spec fn opt_text(value: Option<String>) -> Option<Seq<char>> {
    match value {
        Some(text) => Some(text@),
        None => None,
    }
}

/// The text that an optional string slice holds.
pub open spec fn opt_str(value: Option<&str>) -> Option<Seq<char>> {
    match value {
        Some(text) => Some(text@),
        None => None,
    }
}

/// A copy of an optional string.
pub fn copy_opt(value: &Option<String>) -> (copy: Option<String>)
    ensures
        opt_text(copy) == opt_text(*value),
{
    match value {
        Some(text) => Some(text.clone()),
        None => None,
    }
}

/// An optional string slice as a string of its own.
pub fn opt_copy(value: Option<&str>) -> (copy: Option<String>)
    ensures
        opt_text(copy) == opt_str(value),
{
    match value {
        Some(text) => Some(text.to_owned()),
        None => None,
    }
}

/// A copy of a list of strings.
pub fn copy_texts(list: &Vec<String>) -> (copy: Vec<String>)
    ensures
        texts(copy@) == texts(list@),
{
    let mut copy: Vec<String> = Vec::new();
    let mut i: usize = 0;
    while i < list.len()
        invariant
            i <= list@.len(),
            copy@.len() == i,
            forall|k: int| 0 <= k < i ==> #[trigger] copy@[k]@ == list@[k]@,
        decreases list@.len() - i,
    {
        copy.push(list[i].clone());
        i += 1;
    }
    proof {
        assert(texts(copy@) =~= texts(list@));
    }
    copy
}

/// Whether two texts are the same.
pub fn same(a: &str, b: &str) -> (result: bool)
    ensures
        result == (a@ == b@),
{
    *a == *b
}

/// Whether an optional text is present and is the given one.
pub fn is_some_text(value: &Option<String>, expected: &str) -> (result: bool)
    ensures
        result == (opt_text(*value) == Some(expected@)),
{
    match value {
        Some(text) => same(text, expected),
        None => false,
    }
}

/// Two texts one after the other.
pub fn concat2(a: &str, b: &str) -> (result: String)
    ensures
        result@ == a@ + b@,
{
    let mut result: String = a.to_owned();
    result.append(b);
    result
}

/// Three texts one after the other.
pub fn concat3(a: &str, b: &str, c: &str) -> (result: String)
    ensures
        result@ == a@ + b@ + c@,
{
    let mut result: String = concat2(a, b);
    result.append(c);
    result
}

/// Four texts one after the other.
pub fn concat4(a: &str, b: &str, c: &str, d: &str) -> (result: String)
    ensures
        result@ == a@ + b@ + c@ + d@,
{
    let mut result: String = concat3(a, b, c);
    result.append(d);
    result
}

/// Five texts one after the other.
pub fn concat5(a: &str, b: &str, c: &str, d: &str, e: &str) -> (result: String)
    ensures
        result@ == a@ + b@ + c@ + d@ + e@,
{
    let mut result: String = concat4(a, b, c, d);
    result.append(e);
    result
}

/// The characters of a text.
pub fn chars_of(s: &str) -> (chars: Vec<char>)
    ensures
        chars@ == s@,
{
    let mut chars: Vec<char> = Vec::new();
    for c in it: s.chars()
        invariant
            chars@ == it.seq().take(it.index()),
            it.seq() == s@,
    {
        proof {
            assert(it.seq().take(it.index() + 1) =~= it.seq().take(it.index()).push(c));
        }
        chars.push(c);
    }
    proof {
        assert(s@.take(s@.len() as int) =~= s@);
    }
    chars
}

/// The text made of the characters from `from` up to `to`.
pub fn string_of(chars: &Vec<char>, from: usize, to: usize) -> (s: String)
    requires
        from <= to <= chars@.len(),
    ensures
        s@ == chars@.subrange(from as int, to as int),
{
    let mut s: String = String::new();
    let mut i: usize = from;
    while i < to
        invariant
            from <= i <= to <= chars@.len(),
            s@ == chars@.subrange(from as int, i as int),
        decreases to - i,
    {
        s.push(chars[i]);
        proof {
            assert(chars@.subrange(from as int, i + 1) =~= chars@.subrange(
                from as int,
                i as int,
            ).push(chars@[i as int]));
        }
        i += 1;
    }
    s
}

// Character classes.

/// The Unicode White_Space property.
pub open spec fn is_space(c: char) -> bool {
    ||| '\u{9}' <= c <= '\u{D}'
    ||| c == ' '
    ||| c == '\u{85}'
    ||| c == '\u{A0}'
    ||| c == '\u{1680}'
    ||| '\u{2000}' <= c <= '\u{200A}'
    ||| c == '\u{2028}'
    ||| c == '\u{2029}'
    ||| c == '\u{202F}'
    ||| c == '\u{205F}'
    ||| c == '\u{3000}'
}

/// Whether a character is white space.
pub fn space(c: char) -> (result: bool)
    ensures
        result == is_space(c),
{
    ('\u{9}' <= c && c <= '\u{D}') || c == ' ' || c == '\u{85}' || c == '\u{A0}' || c == '\u{1680}'
        || ('\u{2000}' <= c && c <= '\u{200A}') || c == '\u{2028}' || c == '\u{2029}' || c
        == '\u{202F}' || c == '\u{205F}' || c == '\u{3000}'
}

pub open spec fn is_lower_ascii(c: char) -> bool {
    'a' <= c <= 'z'
}

pub open spec fn is_upper_ascii(c: char) -> bool {
    'A' <= c <= 'Z'
}

pub open spec fn is_digit(c: char) -> bool {
    '0' <= c <= '9'
}

pub open spec fn is_alnum_ascii(c: char) -> bool {
    is_lower_ascii(c) || is_upper_ascii(c) || is_digit(c)
}

/// The Unicode control characters (general category Cc).
pub open spec fn is_control(c: char) -> bool {
    c <= '\u{1F}' || '\u{7F}' <= c <= '\u{9F}'
}

pub fn lower_ascii(c: char) -> (result: bool)
    ensures
        result == is_lower_ascii(c),
{
    'a' <= c && c <= 'z'
}

pub fn digit(c: char) -> (result: bool)
    ensures
        result == is_digit(c),
{
    '0' <= c && c <= '9'
}

pub fn alnum_ascii(c: char) -> (result: bool)
    ensures
        result == is_alnum_ascii(c),
{
    ('a' <= c && c <= 'z') || ('A' <= c && c <= 'Z') || ('0' <= c && c <= '9')
}

pub fn control(c: char) -> (result: bool)
    ensures
        result == is_control(c),
{
    c <= '\u{1F}' || ('\u{7F}' <= c && c <= '\u{9F}')
}

// Trimming.

/// A text without its leading white space.
pub open spec fn trim_start(s: Seq<char>) -> Seq<char>
    decreases s.len(),
{
    if s.len() > 0 && is_space(s[0]) {
        trim_start(s.skip(1))
    } else {
        s
    }
}

/// A text without its trailing white space.
pub open spec fn trim_end(s: Seq<char>) -> Seq<char>
    decreases s.len(),
{
    if s.len() > 0 && is_space(s.last()) {
        trim_end(s.drop_last())
    } else {
        s
    }
}

/// A text without its leading and trailing white space.
pub open spec fn trimmed(s: Seq<char>) -> Seq<char> {
    trim_end(trim_start(s))
}

/// A text that holds nothing but white space.
pub open spec fn blank(s: Seq<char>) -> bool {
    trimmed(s).len() == 0
}

proof fn lemma_trim_start_from(s: Seq<char>, k: int)
    requires
        0 <= k <= s.len(),
        forall|i: int| 0 <= i < k ==> is_space(#[trigger] s[i]),
        k < s.len() ==> !is_space(s[k]),
    ensures
        trim_start(s) == s.skip(k),
    decreases k,
{
    if k == 0 {
        assert(s.skip(0) =~= s);
    } else {
        assert(is_space(s[0]));
        let rest = s.skip(1);
        assert forall|i: int| 0 <= i < k - 1 implies is_space(#[trigger] rest[i]) by {
            assert(rest[i] == s[i + 1]);
        }
        if k < s.len() {
            assert(rest[k - 1] == s[k]);
        }
        lemma_trim_start_from(rest, k - 1);
        assert(rest.skip(k - 1) =~= s.skip(k));
    }
}

proof fn lemma_trim_end_to(s: Seq<char>, k: int)
    requires
        0 <= k <= s.len(),
        forall|i: int| k <= i < s.len() ==> is_space(#[trigger] s[i]),
        k > 0 ==> !is_space(s[k - 1]),
    ensures
        trim_end(s) == s.take(k),
    decreases s.len() - k,
{
    if k == s.len() {
        assert(s.take(k) =~= s);
    } else {
        assert(is_space(s[s.len() - 1]));
        let rest = s.drop_last();
        assert forall|i: int| k <= i < rest.len() implies is_space(#[trigger] rest[i]) by {
            assert(rest[i] == s[i]);
        }
        if k > 0 {
            assert(rest[k - 1] == s[k - 1]);
        }
        lemma_trim_end_to(rest, k);
        assert(rest.take(k) =~= s.take(k));
    }
}

/// The text without its leading and trailing white space.
pub fn trim<'a>(s: &'a str) -> (result: &'a str)
    ensures
        result@ == trimmed(s@),
{
    let chars: Vec<char> = chars_of(s);
    let mut from: usize = 0;
    while from < chars.len() && space(chars[from])
        invariant
            from <= chars@.len(),
            chars@ == s@,
            forall|i: int| 0 <= i < from ==> is_space(#[trigger] chars@[i]),
        decreases chars@.len() - from,
    {
        from += 1;
    }
    let mut to: usize = chars.len();
    while to > from && space(chars[to - 1])
        invariant
            from <= to <= chars@.len(),
            chars@ == s@,
            forall|i: int| to <= i < chars@.len() ==> is_space(#[trigger] chars@[i]),
        decreases to,
    {
        to -= 1;
    }
    proof {
        lemma_trim_start_from(s@, from as int);
        let tail = s@.skip(from as int);
        assert forall|i: int| to - from <= i < tail.len() implies is_space(#[trigger] tail[i]) by {
            assert(tail[i] == s@[i + from]);
        }
        if to > from {
            assert(tail[to - from - 1] == s@[to - 1]);
        }
        lemma_trim_end_to(tail, to - from);
        assert(tail.take(to - from) =~= s@.subrange(from as int, to as int));
    }
    s.substring_char(from, to)
}

/// Whether a text is empty once trimmed.
pub fn is_blank(s: &str) -> (result: bool)
    ensures
        result == blank(s@),
{
    trim(s).is_empty()
}

/// A text is blank exactly when every character of it is white space.
pub proof fn lemma_blank(s: Seq<char>)
    ensures
        blank(s) <==> (forall|i: int| 0 <= i < s.len() ==> is_space(#[trigger] s[i])),
    decreases s.len(),
{
    if s.len() == 0 {
        assert(trim_start(s) == s);
    } else if is_space(s[0]) {
        let rest = s.skip(1);
        lemma_blank(rest);
        assert(trim_start(s) == trim_start(rest));
        if blank(s) {
            assert forall|i: int| 0 <= i < s.len() implies is_space(#[trigger] s[i]) by {
                if i > 0 {
                    assert(rest[i - 1] == s[i]);
                }
            }
        } else {
            let j = choose|j: int| 0 <= j < rest.len() && !is_space(#[trigger] rest[j]);
            assert(!is_space(s[j + 1]));
        }
    } else {
        assert(trim_start(s) == s);
        lemma_trim_end_keeps_first(s);
    }
}

proof fn lemma_trim_end_keeps_first(s: Seq<char>)
    requires
        s.len() > 0,
        !is_space(s[0]),
    ensures
        trim_end(s).len() > 0,
    decreases s.len(),
{
    if is_space(s.last()) {
        assert(s.len() > 1);
        assert(s.drop_last()[0] == s[0]);
        lemma_trim_end_keeps_first(s.drop_last());
    }
}

// Prefixes and searching.

/// Whether `needle` stands in `s` at position `at`.
pub open spec fn stands_at(s: Seq<char>, needle: Seq<char>, at: int) -> bool {
    &&& 0 <= at
    &&& at + needle.len() <= s.len()
    &&& s.subrange(at, at + needle.len()) == needle
}

/// Whether `needle` stands somewhere in `s`.
pub open spec fn has_text(s: Seq<char>, needle: Seq<char>) -> bool {
    exists|at: int| stands_at(s, needle, at)
}

/// Whether `s` begins with `prefix`.
pub open spec fn begins_with(s: Seq<char>, prefix: Seq<char>) -> bool {
    stands_at(s, prefix, 0)
}

/// Whether `needle` stands in `s` at position `at`.
pub fn chars_at(s: &Vec<char>, needle: &Vec<char>, at: usize) -> (result: bool)
    ensures
        result == stands_at(s@, needle@, at as int),
{
    if at > s.len() || needle.len() > s.len() - at {
        return false;
    }
    let mut i: usize = 0;
    while i < needle.len()
        invariant
            at + needle.len() <= s.len(),
            i <= needle@.len(),
            forall|k: int| 0 <= k < i ==> s@[at + k] == needle@[k],
        decreases needle@.len() - i,
    {
        if s[at + i] != needle[i] {
            proof {
                assert(s@.subrange(at as int, at + needle@.len())[i as int] != needle@[i as int]);
            }
            return false;
        }
        i += 1;
    }
    proof {
        assert(s@.subrange(at as int, at + needle@.len()) =~= needle@);
    }
    true
}

/// Whether `s` begins with `prefix`.
pub fn starts_with(s: &str, prefix: &str) -> (result: bool)
    ensures
        result == begins_with(s@, prefix@),
{
    chars_at(&chars_of(s), &chars_of(prefix), 0)
}

/// The rest of `s` behind `prefix`, where `s` begins with it.
pub fn strip_prefix<'a>(s: &'a str, prefix: &str) -> (result: Option<&'a str>)
    ensures
        result is Some <==> begins_with(s@, prefix@),
        result matches Some(rest) ==> rest@ == s@.skip(prefix@.len() as int),
{
    let chars: Vec<char> = chars_of(s);
    let head: Vec<char> = chars_of(prefix);
    if chars_at(&chars, &head, 0) {
        proof {
            assert(s@.subrange(prefix@.len() as int, s@.len() as int) =~= s@.skip(
                prefix@.len() as int,
            ));
        }
        Some(s.substring_char(head.len(), chars.len()))
    } else {
        None
    }
}

/// Whether `needle` stands somewhere in `s`.
pub fn contains(s: &str, needle: &str) -> (result: bool)
    ensures
        result == has_text(s@, needle@),
{
    let chars: Vec<char> = chars_of(s);
    let sought: Vec<char> = chars_of(needle);
    let mut at: usize = 0;
    while at < chars.len()
        invariant
            at <= chars@.len(),
            chars@ == s@,
            sought@ == needle@,
            forall|k: int| 0 <= k < at ==> !stands_at(s@, needle@, k),
        decreases chars@.len() - at,
    {
        if chars_at(&chars, &sought, at) {
            return true;
        }
        at += 1;
    }
    chars_at(&chars, &sought, at)
}

/// Whether the character stands somewhere in `s`.
pub fn contains_char(s: &str, c: char) -> (result: bool)
    ensures
        result == s@.contains(c),
{
    let chars: Vec<char> = chars_of(s);
    let mut i: usize = 0;
    while i < chars.len()
        invariant
            i <= chars@.len(),
            chars@ == s@,
            forall|k: int| 0 <= k < i ==> s@[k] != c,
        decreases chars@.len() - i,
    {
        if chars[i] == c {
            return true;
        }
        i += 1;
    }
    false
}

/// Whether a list of strings holds the given text.
pub fn list_contains(list: &Vec<String>, sought: &str) -> (result: bool)
    ensures
        result == texts(list@).contains(sought@),
{
    let mut i: usize = 0;
    while i < list.len()
        invariant
            i <= list@.len(),
            forall|k: int| 0 <= k < i ==> texts(list@)[k] != sought@,
        decreases list@.len() - i,
    {
        if same(&list[i], sought) {
            proof {
                assert(texts(list@)[i as int] == sought@);
            }
            return true;
        }
        i += 1;
    }
    false
}

// Splitting.

/// The pieces of a text between the occurrences of a character.
pub open spec fn split_on(s: Seq<char>, sep: char) -> Seq<Seq<char>>
    decreases s.len(),
{
    if s.len() == 0 {
        seq![Seq::empty()]
    } else {
        let pieces = split_on(s.drop_last(), sep);
        if s.last() == sep {
            pieces.push(Seq::empty())
        } else {
            pieces.drop_last().push(pieces.last().push(s.last()))
        }
    }
}

/// A text always has at least one piece.
pub proof fn lemma_split_nonempty(s: Seq<char>, sep: char)
    ensures
        split_on(s, sep).len() > 0,
    decreases s.len(),
{
    if s.len() > 0 {
        lemma_split_nonempty(s.drop_last(), sep);
    }
}

/// The pieces of a text between the occurrences of a character.
pub fn split(s: &str, sep: char) -> (pieces: Vec<String>)
    ensures
        texts(pieces@) == split_on(s@, sep),
        pieces@.len() > 0,
{
    let chars: Vec<char> = chars_of(s);
    let mut pieces: Vec<String> = Vec::new();
    let mut current: String = String::new();
    let mut i: usize = 0;
    proof {
        assert(s@.take(0) =~= Seq::empty());
        assert(texts(pieces@).push(current@) =~= split_on(s@.take(0), sep));
    }
    while i < chars.len()
        invariant
            i <= chars@.len(),
            chars@ == s@,
            texts(pieces@).push(current@) == split_on(s@.take(i as int), sep),
        decreases chars@.len() - i,
    {
        let c: char = chars[i];
        let ghost before = texts(pieces@).push(current@);
        proof {
            assert(s@.take(i + 1).drop_last() =~= s@.take(i as int));
            assert(s@.take(i + 1).last() == c);
            assert(before.drop_last() =~= texts(pieces@));
        }
        if c == sep {
            let ghost earlier = pieces@;
            pieces.push(current);
            current = String::new();
            proof {
                assert(texts(pieces@) =~= before);
            }
        } else {
            current.push(c);
        }
        i += 1;
    }
    let ghost earlier = pieces@;
    pieces.push(current);
    proof {
        assert(s@.take(s@.len() as int) =~= s@);
        assert(texts(pieces@) =~= texts(earlier).push(current@));
    }
    pieces
}

/// A text up to the first occurrence of a character, and what follows it.
pub open spec fn split_first(s: Seq<char>, sep: char) -> Option<(Seq<char>, Seq<char>)>
    decreases s.len(),
{
    if s.len() == 0 {
        None
    } else if s[0] == sep {
        Some((Seq::empty(), s.skip(1)))
    } else {
        match split_first(s.skip(1), sep) {
            Some((head, tail)) => Some((seq![s[0]] + head, tail)),
            None => None,
        }
    }
}

proof fn lemma_split_first_at(s: Seq<char>, sep: char, at: int)
    requires
        0 <= at <= s.len(),
        forall|k: int| 0 <= k < at ==> s[k] != sep,
        at < s.len() ==> s[at] == sep,
    ensures
        at < s.len() ==> split_first(s, sep) == Some((s.take(at), s.skip(at + 1))),
        at == s.len() ==> split_first(s, sep) is None,
    decreases at,
{
    if at == 0 {
        assert(s.take(0) =~= Seq::empty());
    } else {
        let rest = s.skip(1);
        assert forall|k: int| 0 <= k < at - 1 implies rest[k] != sep by {
            assert(rest[k] == s[k + 1]);
        }
        if at < s.len() {
            assert(rest[at - 1] == s[at]);
        }
        lemma_split_first_at(rest, sep, at - 1);
        if at < s.len() {
            assert(seq![s[0]] + rest.take(at - 1) =~= s.take(at));
            assert(rest.skip(at) =~= s.skip(at + 1));
        }
    }
}

/// A text up to the first occurrence of a character, and what follows it.
pub fn split_once<'a>(s: &'a str, sep: char) -> (result: Option<(&'a str, &'a str)>)
    ensures
        match result {
            Some((head, tail)) => split_first(s@, sep) == Some((head@, tail@)),
            None => split_first(s@, sep) is None,
        },
{
    let chars: Vec<char> = chars_of(s);
    let mut at: usize = 0;
    while at < chars.len() && chars[at] != sep
        invariant
            at <= chars@.len(),
            chars@ == s@,
            forall|k: int| 0 <= k < at ==> s@[k] != sep,
        decreases chars@.len() - at,
    {
        at += 1;
    }
    proof {
        lemma_split_first_at(s@, sep, at as int);
        if at < s@.len() {
            assert(s@.subrange(0, at as int) =~= s@.take(at as int));
            assert(s@.subrange(at + 1, s@.len() as int) =~= s@.skip(at + 1));
        }
    }
    if at < chars.len() {
        Some((s.substring_char(0, at), s.substring_char(at + 1, chars.len())))
    } else {
        None
    }
}

/// A text without the trailing occurrences of a character.
pub open spec fn trim_end_of(s: Seq<char>, c: char) -> Seq<char>
    decreases s.len(),
{
    if s.len() > 0 && s.last() == c {
        trim_end_of(s.drop_last(), c)
    } else {
        s
    }
}

/// A text without the leading occurrences of a character.
pub open spec fn trim_start_of(s: Seq<char>, c: char) -> Seq<char>
    decreases s.len(),
{
    if s.len() > 0 && s[0] == c {
        trim_start_of(s.skip(1), c)
    } else {
        s
    }
}

/// A text without the trailing occurrences of a character.
pub fn trim_end_char<'a>(s: &'a str, c: char) -> (result: &'a str)
    ensures
        result@ == trim_end_of(s@, c),
{
    let chars: Vec<char> = chars_of(s);
    let mut to: usize = chars.len();
    proof {
        assert(s@.take(s@.len() as int) =~= s@);
    }
    while to > 0 && chars[to - 1] == c
        invariant
            to <= chars@.len(),
            chars@ == s@,
            trim_end_of(s@, c) == trim_end_of(s@.take(to as int), c),
        decreases to,
    {
        proof {
            assert(s@.take(to as int).drop_last() =~= s@.take(to - 1));
        }
        to -= 1;
    }
    proof {
        assert(s@.subrange(0, to as int) =~= s@.take(to as int));
    }
    s.substring_char(0, to)
}

/// A text without the leading occurrences of a character.
pub fn trim_start_char<'a>(s: &'a str, c: char) -> (result: &'a str)
    ensures
        result@ == trim_start_of(s@, c),
{
    let chars: Vec<char> = chars_of(s);
    let mut from: usize = 0;
    proof {
        assert(s@.skip(0) =~= s@);
    }
    while from < chars.len() && chars[from] == c
        invariant
            from <= chars@.len(),
            chars@ == s@,
            trim_start_of(s@, c) == trim_start_of(s@.skip(from as int), c),
        decreases chars@.len() - from,
    {
        proof {
            assert(s@.skip(from as int).skip(1) =~= s@.skip(from + 1));
        }
        from += 1;
    }
    proof {
        assert(s@.subrange(from as int, s@.len() as int) =~= s@.skip(from as int));
    }
    s.substring_char(from, chars.len())
}

// ASCII case.

/// A character with the ASCII capitals made small.
pub open spec fn ascii_lower(c: char) -> char {
    if is_upper_ascii(c) {
        ((c as u32) + 32) as char
    } else {
        c
    }
}

/// A text with the ASCII capitals made small.
pub open spec fn ascii_lowered(s: Seq<char>) -> Seq<char> {
    Seq::new(s.len(), |i: int| ascii_lower(s[i]))
}

/// A character with the ASCII capitals made small.
pub fn lower_char(c: char) -> (result: char)
    ensures
        result == ascii_lower(c),
{
    if 'A' <= c && c <= 'Z' {
        let code: u8 = c as u8;
        (code + 32) as char
    } else {
        c
    }
}

/// A text with the ASCII capitals made small.
pub fn to_ascii_lowercase(s: &str) -> (result: String)
    ensures
        result@ == ascii_lowered(s@),
{
    let chars: Vec<char> = chars_of(s);
    let mut result: String = String::new();
    let mut i: usize = 0;
    while i < chars.len()
        invariant
            i <= chars@.len(),
            chars@ == s@,
            result@ == ascii_lowered(s@).take(i as int),
        decreases chars@.len() - i,
    {
        result.push(lower_char(chars[i]));
        proof {
            assert(ascii_lowered(s@).take(i + 1) =~= ascii_lowered(s@).take(i as int).push(
                ascii_lowered(s@)[i as int],
            ));
        }
        i += 1;
    }
    proof {
        assert(ascii_lowered(s@).take(s@.len() as int) =~= ascii_lowered(s@));
    }
    result
}

// Order.

/// Whether `a` comes strictly before `b` in the order of code points, a proper
/// prefix before what it begins. It is the order of the two texts' UTF-8.
pub open spec fn text_before(a: Seq<char>, b: Seq<char>) -> bool
    decreases a.len(),
{
    if b.len() == 0 {
        false
    } else if a.len() == 0 {
        true
    } else if a[0] == b[0] {
        text_before(a.skip(1), b.skip(1))
    } else {
        a[0] < b[0]
    }
}

/// Whether `a` comes strictly before `b` in the order of code points.
pub fn before(a: &str, b: &str) -> (result: bool)
    ensures
        result == text_before(a@, b@),
{
    let left: Vec<char> = chars_of(a);
    let right: Vec<char> = chars_of(b);
    let mut i: usize = 0;
    proof {
        assert(a@.skip(0) =~= a@);
        assert(b@.skip(0) =~= b@);
    }
    while i < left.len() && i < right.len() && left[i] == right[i]
        invariant
            left@ == a@,
            right@ == b@,
            i <= a@.len(),
            i <= b@.len(),
            text_before(a@, b@) == text_before(a@.skip(i as int), b@.skip(i as int)),
        decreases left@.len() - i,
    {
        proof {
            assert(a@.skip(i as int).skip(1) =~= a@.skip(i + 1));
            assert(b@.skip(i as int).skip(1) =~= b@.skip(i + 1));
        }
        i += 1;
    }
    if i == right.len() {
        false
    } else if i == left.len() {
        true
    } else {
        left[i] < right[i]
    }
}

/// The order of texts is irreflexive.
pub proof fn lemma_before_irreflexive(a: Seq<char>)
    ensures
        !text_before(a, a),
    decreases a.len(),
{
    if a.len() > 0 {
        lemma_before_irreflexive(a.skip(1));
    }
}

/// Two different texts stand in one order or the other.
pub proof fn lemma_before_total(a: Seq<char>, b: Seq<char>)
    ensures
        a == b || text_before(a, b) || text_before(b, a),
    decreases a.len(),
{
    if a.len() > 0 && b.len() > 0 && a[0] == b[0] {
        lemma_before_total(a.skip(1), b.skip(1));
        if a.skip(1) == b.skip(1) {
            assert(a =~= b) by {
                assert forall|i: int| 0 <= i < a.len() implies a[i] == b[i] by {
                    if i > 0 {
                        assert(a.skip(1)[i - 1] == b.skip(1)[i - 1]);
                    }
                }
            }
        }
    } else if a.len() == 0 && b.len() == 0 {
        assert(a =~= b);
    }
}

/// The order of texts is transitive.
pub proof fn lemma_before_transitive(a: Seq<char>, b: Seq<char>, c: Seq<char>)
    requires
        text_before(a, b),
        text_before(b, c),
    ensures
        text_before(a, c),
    decreases a.len(),
{
    if a.len() > 0 && a[0] == b[0] && b[0] == c[0] {
        lemma_before_transitive(a.skip(1), b.skip(1), c.skip(1));
    }
}

// Numbers.

/// The decimal digit for a number below ten.
pub open spec fn digit_char(d: nat) -> char {
    (48 + d) as u8 as char
}

/// A number in decimal, without leading zeros.
pub open spec fn decimal(n: nat) -> Seq<char>
    decreases n,
{
    if n < 10 {
        seq![digit_char(n)]
    } else {
        decimal(n / 10).push(digit_char(n % 10))
    }
}

/// A number in decimal.
pub fn to_decimal(n: u64) -> (result: String)
    ensures
        result@ == decimal(n as nat),
    decreases n,
{
    if n < 10 {
        let mut result: String = String::new();
        result.push((48 + n as u8) as char);
        proof {
            assert(result@ =~= seq![digit_char(n as nat)]);
        }
        result
    } else {
        let mut result: String = to_decimal(n / 10);
        result.push((48 + (n % 10) as u8) as char);
        result
    }
}

// Lists.

/// Texts one after the other, with `sep` between them.
pub open spec fn joined(list: Seq<Seq<char>>, sep: Seq<char>) -> Seq<char>
    decreases list.len(),
{
    if list.len() == 0 {
        Seq::empty()
    } else if list.len() == 1 {
        list[0]
    } else {
        joined(list.drop_last(), sep) + sep + list.last()
    }
}

/// Texts one after the other, with `sep` between them.
pub fn join(list: &Vec<String>, sep: &str) -> (result: String)
    ensures
        result@ == joined(texts(list@), sep@),
{
    if list.len() == 0 {
        return String::new();
    }
    let mut result: String = list[0].clone();
    let mut i: usize = 1;
    proof {
        assert(texts(list@).take(1) =~= seq![list@[0]@]);
    }
    while i < list.len()
        invariant
            1 <= i <= list@.len(),
            result@ == joined(texts(list@).take(i as int), sep@),
        decreases list@.len() - i,
    {
        result.append(sep);
        result.append(&list[i]);
        proof {
            let next = texts(list@).take(i + 1);
            assert(next.drop_last() =~= texts(list@).take(i as int));
            assert(next.last() == list@[i as int]@);
        }
        i += 1;
    }
    proof {
        assert(texts(list@).take(list@.len() as int) =~= texts(list@));
    }
    result
}

/// What `{:?}` prints for each text of a list.
pub open spec fn debug_each(list: Seq<Seq<char>>) -> Seq<Seq<char>> {
    Seq::new(list.len(), |i: int| debug_text(list[i]))
}

/// What `{:?}` prints for a list of texts: the quoted texts in square
/// brackets, with a comma and a space between them.
pub open spec fn debug_list(list: Seq<Seq<char>>) -> Seq<char> {
    "["@ + joined(debug_each(list), ", "@) + "]"@
}

/// What `{:?}` prints for a list of texts.
pub fn debug_quote_list(list: &Vec<String>) -> (result: String)
    ensures
        result@ == debug_list(texts(list@)),
{
    let mut quoted: Vec<String> = Vec::new();
    let mut i: usize = 0;
    while i < list.len()
        invariant
            i <= list@.len(),
            quoted@.len() == i,
            forall|k: int| 0 <= k < i ==> #[trigger] quoted@[k]@ == debug_text(list@[k]@),
        decreases list@.len() - i,
    {
        quoted.push(debug_quote(&list[i]));
        i += 1;
    }
    proof {
        assert(texts(quoted@) =~= debug_each(texts(list@)));
    }
    concat3("[", &join(&quoted, ", "), "]")
}

} // verus!
