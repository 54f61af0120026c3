//! Display names that nobody else in the room is using.

use vstd::prelude::*;

use crate::caller::{AttachedAgent, Person};
use crate::lists::{first_index, lemma_first_index, lemma_first_index_grows};
use crate::text::{
    blank, chars_of, concat3, decimal, is_digit, list_contains, string_of, texts, to_decimal, trim,
    trimmed,
};

verus! {

/// A digit of a hexadecimal number in small letters.
pub open spec fn is_hex(c: char) -> bool {
    is_digit(c) || 'a' <= c <= 'f'
}

/// `uuid::Uuid::new_v4` in its simple form: thirty-two hexadecimal digits in
/// small letters. Nothing is said of which ones, as they are random.
#[verifier::external_body]
pub(crate) fn fresh_id() -> (id: String)
    ensures
        id@.len() == 32,
        forall|i: int| 0 <= i < 32 ==> is_hex(#[trigger] id@[i]),
{
    uuid::Uuid::new_v4().simple().to_string()
}

/// A fresh id of the host's own making.
pub open spec fn fresh_hex(fresh: Seq<char>) -> bool {
    &&& fresh.len() == 32
    &&& forall|i: int| 0 <= i < 32 ==> is_hex(#[trigger] fresh[i])
}

/// A new random id.
pub fn new_id() -> (id: String)
    ensures
        id@.len() == 32,
        forall|i: int| 0 <= i < 32 ==> is_hex(#[trigger] id@[i]),
{
    fresh_id()
}

/// The name that a label starts from: what was proposed, cut to a hundred
/// characters, or a generic one.
pub open spec fn base_label(proposed: Seq<char>) -> Seq<char> {
    if blank(proposed) {
        "agent"@
    } else if trimmed(proposed).len() > 100 {
        trimmed(proposed).take(100)
    } else {
        trimmed(proposed)
    }
}

/// The `k`-th way to tell a base apart: `base-2`, `base-3` and so on.
pub open spec fn numbered(base: Seq<char>, k: int) -> Seq<char> {
    base + "-"@ + decimal((k + 2) as nat)
}

/// The first number whose label is free, out of ninety-eight.
pub open spec fn free_number(base: Seq<char>, taken: Seq<Seq<char>>) -> Option<int> {
    first_index(98, |k: int| !taken.contains(numbered(base, k)))
}

/// The label for a proposed name: the base itself where it is free, else the
/// first free numbered one, else the base with the fresh id.
pub open spec fn chosen_label(
    proposed: Seq<char>,
    taken: Seq<Seq<char>>,
    fresh: Seq<char>,
) -> Seq<char> {
    let base = base_label(proposed);
    if !taken.contains(base) {
        base
    } else {
        match free_number(base, taken) {
            Some(k) => numbered(base, k),
            None => base + "-"@ + fresh,
        }
    }
}

fn base_of(proposed: &str) -> (base: String)
    ensures
        base@ == base_label(proposed@),
{
    let proposed: &str = trim(proposed);
    if proposed.is_empty() {
        return "agent".to_owned();
    }
    let chars: Vec<char> = chars_of(proposed);
    let to: usize = if chars.len() > 100 {
        100
    } else {
        chars.len()
    };
    proof {
        assert(proposed@.subrange(0, proposed@.len() as int) =~= proposed@);
        if chars@.len() > 100 {
            assert(proposed@.subrange(0, 100) =~= proposed@.take(100));
        }
    }
    string_of(&chars, 0, to)
}

fn free_label(base: &str, taken: &Vec<String>) -> (label: Option<String>)
    ensures
        match label {
            Some(label) => free_number(base@, texts(taken@)) matches Some(k) && label@ == numbered(
                base@,
                k,
            ),
            None => free_number(base@, texts(taken@)) is None,
        },
{
    let ghost free = |k: int| !texts(taken@).contains(numbered(base@, k));
    let mut k: u64 = 0;
    while k < 98
        invariant
            k <= 98,
            free == (|k: int| !texts(taken@).contains(numbered(base@, k))),
            first_index(k as nat, free) is None,
        decreases 98 - k,
    {
        let candidate: String = concat3(base, "-", &to_decimal(k + 2));
        if !list_contains(taken, &candidate) {
            proof {
                assert(free(k as int));
                lemma_first_index_grows((k + 1) as nat, 98, free);
            }
            return Some(candidate);
        }
        k += 1;
    }
    None
}

/// The label for a proposed name, with a fresh id for the case that every
/// numbered label is taken.
pub fn unique_label_with(proposed: &str, taken: &Vec<String>, fresh: &str) -> (label: String)
    ensures
        label@ == chosen_label(proposed@, texts(taken@), fresh@),
{
    let base: String = base_of(proposed);
    if !list_contains(taken, &base) {
        return base;
    }
    match free_label(&base, taken) {
        Some(label) => label,
        None => concat3(&base, "-", fresh),
    }
}

/// Disambiguates a proposed display name against the names already in use.
pub fn unique_label(proposed: &str, taken: &Vec<String>) -> (label: String)
    ensures
        exists|fresh: Seq<char>|
            fresh_hex(fresh) && label@ == #[trigger] chosen_label(
                proposed@,
                texts(taken@),
                fresh,
            ),
{
    let base: String = base_of(proposed);
    let ghost unused = Seq::new(32, |i: int| '0');
    proof {
        assert(fresh_hex(unused));
    }
    if !list_contains(taken, &base) {
        proof {
            assert(base@ == chosen_label(proposed@, texts(taken@), unused));
        }
        return base;
    }
    match free_label(&base, taken) {
        Some(label) => {
            proof {
                assert(label@ == chosen_label(proposed@, texts(taken@), unused));
            }
            label
        },
        None => {
            let fresh: String = fresh_id();
            let label: String = concat3(&base, "-", &fresh);
            proof {
                assert(fresh_hex(fresh@));
                assert(label@ == chosen_label(proposed@, texts(taken@), fresh@));
            }
            label
        },
    }
}

/// The labels of a list of agents.
pub open spec fn agent_labels(agents: Seq<AttachedAgent>) -> Seq<Seq<char>> {
    Seq::new(agents.len(), |i: int| agents[i].label@)
}

/// The names of a list of people.
pub open spec fn person_names(people: Seq<Person>) -> Seq<Seq<char>> {
    Seq::new(people.len(), |i: int| people[i].name@)
}

fn push_agent_labels(list: &mut Vec<String>, agents: &Vec<AttachedAgent>)
    ensures
        texts(final(list)@) == texts(old(list)@) + agent_labels(agents@),
{
    let ghost before = texts(list@);
    let mut i: usize = 0;
    proof {
        assert(agent_labels(agents@).take(0) =~= Seq::empty());
        assert(before + Seq::<Seq<char>>::empty() =~= before);
    }
    while i < agents.len()
        invariant
            i <= agents@.len(),
            texts(list@) == before + agent_labels(agents@).take(i as int),
        decreases agents@.len() - i,
    {
        let ghost earlier = list@;
        list.push(agents[i].label.clone());
        proof {
            assert(texts(list@) =~= texts(earlier).push(agents@[i as int].label@));
            assert(agent_labels(agents@).take(i + 1) =~= agent_labels(agents@).take(i as int).push(
                agents@[i as int].label@,
            ));
            assert(before + agent_labels(agents@).take(i as int).push(agents@[i as int].label@)
                =~= (before + agent_labels(agents@).take(i as int)).push(
                agents@[i as int].label@,
            ));
        }
        i += 1;
    }
    proof {
        assert(agent_labels(agents@).take(agents@.len() as int) =~= agent_labels(agents@));
    }
}

/// Every display name spoken for, by an agent or by a person.
pub fn names_in_use(agents: &Vec<AttachedAgent>, people: &Vec<Person>) -> (names: Vec<String>)
    ensures
        texts(names@) == agent_labels(agents@) + person_names(people@),
{
    let mut names: Vec<String> = Vec::new();
    push_agent_labels(&mut names, agents);
    let ghost before = agent_labels(agents@);
    let mut i: usize = 0;
    proof {
        assert(texts(names@) =~= before);
        assert(before + person_names(people@).take(0) =~= before);
    }
    while i < people.len()
        invariant
            i <= people@.len(),
            texts(names@) == before + person_names(people@).take(i as int),
        decreases people@.len() - i,
    {
        let ghost earlier = names@;
        names.push(people[i].name.clone());
        proof {
            assert(texts(names@) =~= texts(earlier).push(people@[i as int].name@));
            assert(before + person_names(people@).take(i + 1) =~= (before + person_names(
                people@,
            ).take(i as int)).push(people@[i as int].name@));
        }
        i += 1;
    }
    proof {
        assert(person_names(people@).take(people@.len() as int) =~= person_names(people@));
    }
    names
}

/// A display name that nobody present and no attached agent is using, with a
/// fresh id for the case that every numbered name is taken.
pub fn unique_participant_label_with(
    proposed: &str,
    presence_labels: &Vec<String>,
    agents: &Vec<AttachedAgent>,
    fresh: &str,
) -> (label: String)
    ensures
        label@ == chosen_label(
            proposed@,
            texts(presence_labels@) + agent_labels(agents@),
            fresh@,
        ),
{
    let mut taken: Vec<String> = crate::text::copy_texts(presence_labels);
    push_agent_labels(&mut taken, agents);
    unique_label_with(proposed, &taken, fresh)
}

/// A display name that nobody present and no attached agent is using.
pub fn unique_participant_label(
    proposed: &str,
    presence_labels: &Vec<String>,
    agents: &Vec<AttachedAgent>,
) -> (label: String)
    ensures
        exists|fresh: Seq<char>|
            fresh_hex(fresh) && label@ == #[trigger] chosen_label(
                proposed@,
                texts(presence_labels@) + agent_labels(agents@),
                fresh,
            ),
{
    let mut taken: Vec<String> = crate::text::copy_texts(presence_labels);
    push_agent_labels(&mut taken, agents);
    unique_label(proposed, &taken)
}

/// A chosen label is not one of those in use, unless all ninety-nine ways of
/// telling the name apart are, and the fresh id happens to be one too.
pub proof fn law_a_chosen_label_is_free(
    proposed: Seq<char>,
    taken: Seq<Seq<char>>,
    fresh: Seq<char>,
)
    requires
        !taken.contains(base_label(proposed) + "-"@ + fresh),
    ensures
        !taken.contains(chosen_label(proposed, taken, fresh)),
{
    let base = base_label(proposed);
    lemma_first_index(98, |k: int| !taken.contains(numbered(base, k)));
}

/// An unused name is left alone.
pub proof fn law_an_unused_name_is_left_alone(
    proposed: Seq<char>,
    taken: Seq<Seq<char>>,
    fresh: Seq<char>,
)
    requires
        !taken.contains(base_label(proposed)),
    ensures
        chosen_label(proposed, taken, fresh) == base_label(proposed),
{
}

/// A base label is never empty and never longer than a hundred characters.
pub proof fn law_a_base_label_is_bounded(proposed: Seq<char>)
    ensures
        0 < base_label(proposed).len() <= 100,
{
    reveal_strlit("agent");
}

/// A chosen label is never empty.
pub proof fn law_a_chosen_label_is_never_empty(
    proposed: Seq<char>,
    taken: Seq<Seq<char>>,
    fresh: Seq<char>,
)
    ensures
        chosen_label(proposed, taken, fresh).len() > 0,
{
    law_a_base_label_is_bounded(proposed);
}

} // verus!
