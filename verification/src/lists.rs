//! The first place in a list at which something holds.

use vstd::prelude::*;

verus! {

/// The first index below `n` at which `holds` is true.
pub open spec fn first_index(n: nat, holds: spec_fn(int) -> bool) -> Option<int>
    decreases n,
{
    if n == 0 {
        None
    } else {
        match first_index((n - 1) as nat, holds) {
            Some(i) => Some(i),
            None => if holds(n - 1) {
                Some(n - 1)
            } else {
                None
            },
        }
    }
}

/// The first index at which something holds stays the first when the list grows.
pub proof fn lemma_first_index_grows(m: nat, n: nat, holds: spec_fn(int) -> bool)
    requires
        m <= n,
        first_index(m, holds) is Some,
    ensures
        first_index(n, holds) == first_index(m, holds),
    decreases n - m,
{
    if m < n {
        lemma_first_index_grows(m, (n - 1) as nat, holds);
    }
}

/// The first index is in range, holds, and nothing before it does; where there
/// is none, nothing in range holds.
pub proof fn lemma_first_index(n: nat, holds: spec_fn(int) -> bool)
    ensures
        match first_index(n, holds) {
            Some(i) => {
                &&& 0 <= i < n
                &&& holds(i)
                &&& forall|k: int| 0 <= k < i ==> !(#[trigger] holds(k))
            },
            None => forall|k: int| 0 <= k < n ==> !(#[trigger] holds(k)),
        },
    decreases n,
{
    if n > 0 {
        lemma_first_index((n - 1) as nat, holds);
    }
}

/// An index that holds, with none before it that does, is the first.
pub proof fn lemma_is_first_index(n: nat, holds: spec_fn(int) -> bool, at: int)
    requires
        0 <= at < n,
        holds(at),
        forall|k: int| 0 <= k < at ==> !(#[trigger] holds(k)),
    ensures
        first_index(n, holds) == Some(at),
{
    lemma_first_index(n, holds);
}

/// The first problem found when checking `n` things in order.
pub open spec fn first_problem(n: nat, problem: spec_fn(int) -> Option<Seq<char>>) -> Option<
    Seq<char>,
>
    decreases n,
{
    if n == 0 {
        None
    } else {
        match first_problem((n - 1) as nat, problem) {
            Some(message) => Some(message),
            None => problem(n - 1),
        }
    }
}

/// A problem found early stays the first when there is more to check.
pub proof fn lemma_first_problem_grows(
    m: nat,
    n: nat,
    problem: spec_fn(int) -> Option<Seq<char>>,
)
    requires
        m <= n,
        first_problem(m, problem) is Some,
    ensures
        first_problem(n, problem) == first_problem(m, problem),
    decreases n - m,
{
    if m < n {
        lemma_first_problem_grows(m, (n - 1) as nat, problem);
    }
}

/// There is no problem exactly when nothing checked has one.
pub proof fn lemma_no_problem(n: nat, problem: spec_fn(int) -> Option<Seq<char>>)
    ensures
        first_problem(n, problem) is None <==> (forall|k: int|
            0 <= k < n ==> (#[trigger] problem(k)) is None),
    decreases n,
{
    if n > 0 {
        lemma_no_problem((n - 1) as nat, problem);
    }
}

/// One check after another: the first problem of the two.
pub open spec fn or_else(first: Option<Seq<char>>, second: Option<Seq<char>>) -> Option<Seq<char>> {
    match first {
        Some(message) => Some(message),
        None => second,
    }
}

/// Whether the outcome of a check is an error with exactly the problem's
/// message, or success where there is no problem.
pub open spec fn reports<T>(outcome: Result<T, String>, problem: Option<Seq<char>>) -> bool {
    match outcome {
        Ok(_) => problem is None,
        Err(message) => problem == Some(message@),
    }
}

/// Filtering one element more keeps it at the end, or leaves it out.
pub proof fn lemma_filter_next<T>(list: Seq<T>, keep: spec_fn(T) -> bool, i: int)
    requires
        0 <= i < list.len(),
    ensures
        list.take(i + 1).filter(keep) == (if keep(list[i]) {
            list.take(i).filter(keep).push(list[i])
        } else {
            list.take(i).filter(keep)
        }),
{
    reveal(Seq::filter);
    assert(list.take(i + 1).drop_last() =~= list.take(i));
    assert(list.take(i + 1).last() == list[i]);
}

} // verus!
