//! Declared dependencies of extensions: the host services that they need, and
//! the documents that they share.

use vstd::prelude::*;

use crate::lists::reports;
use crate::text::{
    before, blank, concat2, concat3, concat5, debug_list, debug_quote, debug_quote_list,
    debug_text, is_blank, list_contains, same, text_before, texts,
};

verus! {

/// A host service without which an extension cannot run.
#[derive(Debug, PartialEq, Eq)]
pub struct ServiceRequirement {
    pub service: &'static str,
    /// Why the extension needs it, in a sentence.
    pub reason: &'static str,
}

impl ServiceRequirement {
    pub fn new(service: &'static str, reason: &'static str) -> (requirement: ServiceRequirement)
        ensures
            requirement.service@ == service@,
            requirement.reason@ == reason@,
    {
        ServiceRequirement { service, reason }
    }
}

/// Another extension through which one reads or writes.
#[derive(Debug, PartialEq, Eq)]
pub struct ExtensionDependency {
    pub extension: &'static str,
    /// The exact version that is expected.
    pub version: &'static str,
    /// Why the dependency is there, in a sentence.
    pub reason: &'static str,
}

impl ExtensionDependency {
    pub fn new(extension: &'static str, version: &'static str, reason: &'static str) -> (dependency:
        ExtensionDependency)
        ensures
            dependency.extension@ == extension@,
            dependency.version@ == version@,
            dependency.reason@ == reason@,
    {
        ExtensionDependency { extension, version, reason }
    }
}

/// A document that an extension owns or writes.
#[derive(Debug, PartialEq, Eq)]
pub struct DocumentClaim {
    pub document: &'static str,
    /// What the extension does with it, in a sentence.
    pub reason: &'static str,
}

impl DocumentClaim {
    pub fn new(document: &'static str, reason: &'static str) -> (claim: DocumentClaim)
        ensures
            claim.document@ == document@,
            claim.reason@ == reason@,
    {
        DocumentClaim { document, reason }
    }
}

// Named things in order.

/// The names of some entries.
pub open spec fn entry_names<S>(entries: Seq<(Seq<char>, S)>) -> Seq<Seq<char>> {
    Seq::new(entries.len(), |i: int| entries[i].0)
}

/// What stands under a name.
pub open spec fn entry_value<S>(entries: Seq<(Seq<char>, S)>, name: Seq<char>) -> Option<S>
    decreases entries.len(),
{
    if entries.len() == 0 {
        None
    } else if entries[0].0 == name {
        Some(entries[0].1)
    } else {
        entry_value(entries.skip(1), name)
    }
}

/// Entries in the order of their names, with one more.
pub open spec fn insert_entry<S>(entries: Seq<(Seq<char>, S)>, name: Seq<char>, value: S) -> Seq<
    (Seq<char>, S),
>
    decreases entries.len(),
{
    if entries.len() == 0 || !text_before(name, entries.last().0) {
        entries.push((name, value))
    } else {
        insert_entry(entries.drop_last(), name, value).push(entries.last())
    }
}

proof fn lemma_entry_value<S>(entries: Seq<(Seq<char>, S)>, name: Seq<char>)
    ensures
        entry_value(entries, name) is Some <==> entry_names(entries).contains(name),
    decreases entries.len(),
{
    if entries.len() > 0 {
        let rest = entries.skip(1);
        lemma_entry_value(rest, name);
        assert(entry_names(entries)[0] == entries[0].0);
        if entry_names(rest).contains(name) {
            let k = choose|k: int| 0 <= k < rest.len() && entry_names(rest)[k] == name;
            assert(entry_names(entries)[k + 1] == name);
        }
        if entry_names(entries).contains(name) && entries[0].0 != name {
            let k = choose|k: int| 0 <= k < entries.len() && entry_names(entries)[k] == name;
            assert(entry_names(rest)[k - 1] == name);
        }
    }
}

proof fn lemma_entry_push<S>(entries: Seq<(Seq<char>, S)>, last: (Seq<char>, S), name: Seq<char>)
    ensures
        entry_value(entries.push(last), name) == (if entry_value(entries, name) is Some {
            entry_value(entries, name)
        } else if last.0 == name {
            Some(last.1)
        } else {
            None
        }),
    decreases entries.len(),
{
    let all = entries.push(last);
    reveal_with_fuel(entry_value, 2);
    if entries.len() == 0 {
        assert(all[0] == last);
        assert(all.skip(1) =~= Seq::empty());
    } else {
        assert(all[0] == entries[0]);
        assert(all.skip(1) =~= entries.skip(1).push(last));
        lemma_entry_push(entries.skip(1), last, name);
    }
}

/// Whether entries stand in the order of their names, each name once.
pub open spec fn sorted_entries<S>(entries: Seq<(Seq<char>, S)>) -> bool {
    forall|i: int, j: int|
        0 <= i < j < entries.len() ==> text_before(
            (#[trigger] entries[i]).0,
            (#[trigger] entries[j]).0,
        )
}

/// Inserting under a new name leaves every other name what it had, gives the new
/// one its value, and keeps the order.
pub proof fn law_inserting_adds_one_name<S>(
    entries: Seq<(Seq<char>, S)>,
    name: Seq<char>,
    value: S,
    other: Seq<char>,
)
    requires
        entry_value(entries, name) is None,
    ensures
        entry_value(insert_entry(entries, name, value), other) == (if other == name {
            Some(value)
        } else {
            entry_value(entries, other)
        }),
        sorted_entries(entries) ==> sorted_entries(insert_entry(entries, name, value)),
        insert_entry(entries, name, value).len() == entries.len() + 1,
        forall|i: int|
            0 <= i < insert_entry(entries, name, value).len() ==> {
                let entry = #[trigger] insert_entry(entries, name, value)[i];
                entry == (name, value) || entries.contains(entry)
            },
    decreases entries.len(),
{
    let result = insert_entry(entries, name, value);
    lemma_entry_value(entries, name);
    lemma_entry_push(entries, (name, value), other);
    if entries.len() == 0 {
    } else {
        let rest = entries.drop_last();
        let last = entries.last();
        assert(entries =~= rest.push(last));
        assert(entries[entries.len() - 1] == last);
        assert(entry_names(entries)[entries.len() - 1] == last.0);
        lemma_entry_push(rest, last, name);
        lemma_entry_push(rest, last, other);
        crate::text::lemma_before_total(name, last.0);
        if !text_before(name, last.0) {
            if sorted_entries(entries) {
                assert forall|i: int, j: int| 0 <= i < j < result.len() implies text_before(
                    (#[trigger] result[i]).0,
                    (#[trigger] result[j]).0,
                ) by {
                    if j == entries.len() && i < entries.len() - 1 {
                        crate::text::lemma_before_transitive(entries[i].0, last.0, name);
                    }
                }
            }
            assert forall|i: int| 0 <= i < result.len() implies {
                let entry = #[trigger] result[i];
                entry == (name, value) || entries.contains(entry)
            } by {
                if i < entries.len() {
                    assert(entries.contains(entries[i]));
                }
            }
        } else {
            let inner = insert_entry(rest, name, value);
            law_inserting_adds_one_name(rest, name, value, other);
            lemma_entry_push(inner, last, other);
            assert forall|i: int| 0 <= i < inner.len() implies {
                let entry = #[trigger] inner[i];
                &&& entry == (name, value) || entries.contains(entry)
                &&& sorted_entries(entries) ==> text_before(entry.0, last.0)
            } by {
                let entry = inner[i];
                if entry != (name, value) {
                    assert(rest.contains(entry));
                    let k = choose|k: int| 0 <= k < rest.len() && rest[k] == entry;
                    assert(entries[k] == entry);
                }
            }
            if sorted_entries(entries) {
                assert(sorted_entries(rest));
                assert forall|i: int, j: int| 0 <= i < j < result.len() implies text_before(
                    (#[trigger] result[i]).0,
                    (#[trigger] result[j]).0,
                ) by {
                    if j < inner.len() {
                        assert(text_before(inner[i].0, inner[j].0));
                    } else {
                        assert(text_before(inner[i].0, last.0));
                    }
                }
            }
        }
    }
}

// Host services.

/// The services that an application provides, by name. What a service is, is the
/// application's own.
pub struct ServiceRegistry<S> {
    services: Vec<(String, S)>,
}

impl<S> View for ServiceRegistry<S> {
    type V = Seq<(Seq<char>, S)>;

    closed spec fn view(&self) -> Seq<(Seq<char>, S)> {
        Seq::new(self.services@.len(), |i: int| (self.services@[i].0@, self.services@[i].1))
    }
}

/// Why a service cannot be provided under a name.
pub open spec fn provide_problem<S>(services: Seq<(Seq<char>, S)>, name: Seq<char>) -> Option<
    Seq<char>,
> {
    if blank(name) {
        Some("a host service name cannot be empty"@)
    } else if entry_names(services).contains(name) {
        Some(
            "host service "@ + debug_text(name)
                + " is already provided; registering it twice would let load order decide which implementation extensions receive"@,
        )
    } else {
        None
    }
}

/// What resolving a name under which nothing is provided says.
pub open spec fn absent_message<S>(services: Seq<(Seq<char>, S)>, name: Seq<char>) -> Seq<char> {
    "host service "@ + debug_text(name) + " was not provided (available: "@ + debug_list(
        entry_names(services),
    ) + ")"@
}

/// What resolving a service as something else than it is says.
pub open spec fn mistyped_message(name: Seq<char>, expected: Seq<char>) -> Seq<char> {
    "host service "@ + debug_text(name) + " was provided, but not as "@ + expected
}

impl<S> ServiceRegistry<S> {
    pub fn new() -> (registry: ServiceRegistry<S>)
        ensures
            registry@ == Seq::<(Seq<char>, S)>::empty(),
    {
        let registry: ServiceRegistry<S> = ServiceRegistry { services: Vec::new() };
        proof {
            assert(registry@ =~= Seq::<(Seq<char>, S)>::empty());
        }
        registry
    }

    fn position(&self, name: &str) -> (result: Option<usize>)
        ensures
            match result {
                Some(i) => i < self.services@.len() && entry_value(self@, name@) == Some(
                    self.services@[i as int].1,
                ),
                None => entry_value(self@, name@) is None,
            },
    {
        let ghost all = self@;
        let mut i: usize = 0;
        proof {
            assert(all.skip(0) =~= all);
        }
        while i < self.services.len()
            invariant
                i <= self.services@.len(),
                all == self@,
                all.len() == self.services@.len(),
                entry_value(all, name@) == entry_value(all.skip(i as int), name@),
            decreases self.services@.len() - i,
        {
            proof {
                assert(all.skip(i as int)[0] == all[i as int]);
                assert(all.skip(i as int).skip(1) =~= all.skip(i + 1));
            }
            if same(&self.services[i].0, name) {
                return Some(i);
            }
            i += 1;
        }
        None
    }

    /// Provides a service. A name is given out once, and never replaced.
    pub fn provide(&mut self, name: &str, service: S) -> (outcome: Result<(), String>)
        ensures
            reports(outcome, provide_problem(old(self)@, name@)),
            final(self)@ == (if outcome is Ok {
                insert_entry(old(self)@, name@, service)
            } else {
                old(self)@
            }),
    {
        if is_blank(name) {
            return Err("a host service name cannot be empty".to_owned());
        }
        proof {
            lemma_entry_value(self@, name@);
        }
        if self.position(name).is_some() {
            return Err(
                concat3(
                    "host service ",
                    &debug_quote(name),
                    " is already provided; registering it twice would let load order decide which implementation extensions receive",
                ),
            );
        }
        let ghost all = self@;
        let mut i: usize = self.services.len();
        proof {
            assert(all.take(i as int) =~= all);
            assert(insert_entry(all.take(i as int), name@, service) + all.skip(i as int)
                =~= insert_entry(all, name@, service));
        }
        while i > 0 && before(name, &self.services[i - 1].0)
            invariant
                all == self@,
                i <= self.services@.len(),
                insert_entry(all, name@, service) == insert_entry(
                    all.take(i as int),
                    name@,
                    service,
                ) + all.skip(i as int),
            decreases i,
        {
            proof {
                assert(all.take(i as int).drop_last() =~= all.take(i - 1));
                assert(all.take(i as int).last() == all[i - 1]);
                assert(insert_entry(all.take(i - 1), name@, service).push(all[i - 1]) + all.skip(
                    i as int,
                ) =~= insert_entry(all.take(i - 1), name@, service) + all.skip(i - 1));
            }
            i -= 1;
        }
        proof {
            if i > 0 {
                assert(all.take(i as int).last() == all[i - 1]);
            }
        }
        self.services.insert(i, (name.to_owned(), service));
        proof {
            assert(self@ =~= all.take(i as int).push((name@, service)) + all.skip(i as int));
        }
        Ok(())
    }

    /// Whether something is provided under a name.
    pub fn provides(&self, name: &str) -> (result: bool)
        ensures
            result == entry_names(self@).contains(name@),
    {
        proof {
            lemma_entry_value(self@, name@);
        }
        self.position(name).is_some()
    }

    /// Every name, in order.
    pub fn names(&self) -> (names: Vec<String>)
        ensures
            texts(names@) == entry_names(self@),
    {
        let mut names: Vec<String> = Vec::new();
        let mut i: usize = 0;
        while i < self.services.len()
            invariant
                i <= self.services@.len(),
                names@.len() == i,
                forall|k: int| 0 <= k < i ==> (#[trigger] names@[k])@ == self.services@[k].0@,
            decreases self.services@.len() - i,
        {
            names.push(self.services[i].0.clone());
            i += 1;
        }
        proof {
            assert(texts(names@) =~= entry_names(self@));
        }
        names
    }

    pub fn is_empty(&self) -> (result: bool)
        ensures
            result == (self@.len() == 0),
    {
        self.services.len() == 0
    }

    /// Resolves a service as what the extension expects. A name under which
    /// nothing is provided fails otherwise than a service that is something
    /// else.
    pub fn resolve<T, F: Fn(&S) -> Option<T>>(&self, name: &str, expected: &str, cast: F) -> (result:
        Result<T, String>)
        requires
            forall|service: &S| call_requires(cast, (service,)),
        ensures
            match entry_value(self@, name@) {
                None => result matches Err(message) && message@ == absent_message(self@, name@),
                Some(service) => match result {
                    Ok(found) => call_ensures(cast, (&service,), Some(found)),
                    Err(message) => call_ensures(cast, (&service,), None) && message@
                        == mistyped_message(name@, expected@),
                },
            },
    {
        match self.position(name) {
            Some(i) => match cast(&self.services[i].1) {
                Some(found) => Ok(found),
                None => Err(
                    concat2(
                        &concat3("host service ", &debug_quote(name), " was provided, but not as "),
                        expected,
                    ),
                ),
            },
            None => Err(
                concat5(
                    "host service ",
                    &debug_quote(name),
                    " was not provided (available: ",
                    &debug_quote_list(&self.names()),
                    ")",
                ),
            ),
        }
    }
}

// Shared documents.

/// A document with one owner, and a revision that advances once for each
/// transaction that commits.
#[derive(Debug, PartialEq, Eq)]
pub struct SharedDocument {
    name: String,
    owner: String,
    revision: u64,
}

/// A document in contracts.
pub struct DocumentView {
    pub name: Seq<char>,
    pub owner: Seq<char>,
    pub revision: u64,
}

impl View for SharedDocument {
    type V = DocumentView;

    closed spec fn view(&self) -> DocumentView {
        DocumentView { name: self.name@, owner: self.owner@, revision: self.revision }
    }
}

impl SharedDocument {
    pub fn new(name: &str, owner: &str) -> (document: SharedDocument)
        ensures
            document@ == (DocumentView { name: name@, owner: owner@, revision: 0 }),
    {
        SharedDocument { name: name.to_owned(), owner: owner.to_owned(), revision: 0 }
    }

    pub fn name(&self) -> (name: &str)
        ensures
            name@ == self@.name,
    {
        self.name.as_str()
    }

    /// The extension that owns the document.
    pub fn owner(&self) -> (owner: &str)
        ensures
            owner@ == self@.owner,
    {
        self.owner.as_str()
    }

    /// The revision as of the last transaction that committed.
    pub fn revision(&self) -> (revision: u64)
        ensures
            revision == self@.revision,
    {
        self.revision
    }

    /// Advances the revision, once the writes of a transaction are made.
    pub fn advance(&mut self) -> (revision: u64)
        requires
            old(self)@.revision < u64::MAX,
        ensures
            revision == old(self)@.revision + 1,
            final(self)@ == (DocumentView { revision, ..old(self)@ }),
    {
        self.revision = self.revision + 1;
        self.revision
    }
}

impl SharedDocument {
    /// Opens a transaction on the document, for a thread that holds some
    /// documents open. Where the thread holds this one, staging has reached back
    /// into the document that it stages against: that is refused.
    pub fn transact<W>(&self, held: &mut HeldDocuments) -> (result: Result<Transaction<W>, String>)
        ensures
            match result {
                Ok(transaction) => {
                    &&& !old(held)@.contains(self@.name)
                    &&& final(held)@ == old(held)@.push(self@.name)
                    &&& transaction@ == opened::<W>(self@)
                },
                Err(message) => {
                    &&& old(held)@.contains(self@.name)
                    &&& final(held)@ == old(held)@
                    &&& message@ == reentrant_message(self@.name)
                },
            },
    {
        match held.enter(&self.name) {
            Ok(()) => Ok(Transaction::begin(self)),
            Err(message) => Err(message),
        }
    }
}

/// The documents that one thread holds open.
pub struct HeldDocuments {
    names: Vec<String>,
}

impl View for HeldDocuments {
    type V = Seq<Seq<char>>;

    closed spec fn view(&self) -> Seq<Seq<char>> {
        texts(self.names@)
    }
}

/// What opening a document twice says.
pub open spec fn reentrant_message(name: Seq<char>) -> Seq<char> {
    "document "@ + debug_text(name)
        + " is already open in a transaction on this thread; staging must not re-enter the document it is staging against"@
}

/// Which names are other ones.
pub open spec fn other_names(name: Seq<char>) -> spec_fn(Seq<char>) -> bool {
    |other: Seq<char>| other != name
}

impl HeldDocuments {
    pub fn new() -> (held: HeldDocuments)
        ensures
            held@ == Seq::<Seq<char>>::empty(),
    {
        let held: HeldDocuments = HeldDocuments { names: Vec::new() };
        proof {
            assert(held@ =~= Seq::<Seq<char>>::empty());
        }
        held
    }

    /// Notes that the thread opens a document, or refuses where it has it open.
    pub fn enter(&mut self, name: &str) -> (outcome: Result<(), String>)
        ensures
            reports(
                outcome,
                if old(self)@.contains(name@) {
                    Some(reentrant_message(name@))
                } else {
                    None
                },
            ),
            final(self)@ == (if old(self)@.contains(name@) {
                old(self)@
            } else {
                old(self)@.push(name@)
            }),
    {
        if list_contains(&self.names, name) {
            return Err(
                concat3(
                    "document ",
                    &debug_quote(name),
                    " is already open in a transaction on this thread; staging must not re-enter the document it is staging against",
                ),
            );
        }
        let ghost before = self@;
        self.names.push(name.to_owned());
        proof {
            assert(self@ =~= before.push(name@));
        }
        Ok(())
    }

    /// Notes that the thread no longer has a document open.
    pub fn leave(&mut self, name: &str)
        ensures
            final(self)@ == old(self)@.filter(other_names(name@)),
    {
        let ghost all = self@;
        let ghost keep = other_names(name@);
        let mut kept: Vec<String> = Vec::new();
        let mut i: usize = 0;
        proof {
            reveal(Seq::filter);
            assert(texts(kept@) =~= all.take(0).filter(keep));
        }
        while i < self.names.len()
            invariant
                i <= self.names@.len(),
                all == texts(self.names@),
                keep == other_names(name@),
                texts(kept@) == all.take(i as int).filter(keep),
            decreases self.names@.len() - i,
        {
            let ghost before = kept@;
            proof {
                crate::lists::lemma_filter_next(all, keep, i as int);
            }
            if !same(&self.names[i], name) {
                kept.push(self.names[i].clone());
                proof {
                    assert(texts(kept@) =~= texts(before).push(all[i as int]));
                }
            }
            i += 1;
        }
        proof {
            assert(all.take(i as int) =~= all);
        }
        self.names = kept;
    }
}

/// An all-or-nothing write to one document. Participants stage what they would
/// write, and nothing is written before all have staged.
pub struct Transaction<W> {
    document: String,
    revision: u64,
    staged: Vec<(String, W)>,
    rejected: Option<(String, String)>,
}

/// A transaction in contracts.
pub struct TransactionView<W> {
    pub document: Seq<char>,
    pub revision: u64,
    pub staged: Seq<(Seq<char>, W)>,
    pub rejected: Option<(Seq<char>, Seq<char>)>,
}

impl<W> View for Transaction<W> {
    type V = TransactionView<W>;

    closed spec fn view(&self) -> TransactionView<W> {
        TransactionView {
            document: self.document@,
            revision: self.revision,
            staged: Seq::new(self.staged@.len(), |i: int| (self.staged@[i].0@, self.staged@[i].1)),
            rejected: match self.rejected {
                Some((extension, error)) => Some((extension@, error@)),
                None => None,
            },
        }
    }
}

/// A transaction on a document before anybody staged.
pub open spec fn opened<W>(document: DocumentView) -> TransactionView<W> {
    TransactionView::<W> {
        document: document.name,
        revision: document.revision,
        staged: Seq::empty(),
        rejected: None,
    }
}

/// What a participant stages: what it would write, or why it will not.
pub open spec fn staging<W>(outcome: Result<W, String>) -> Result<W, Seq<char>> {
    match outcome {
        Ok(write) => Ok(write),
        Err(error) => Err(error@),
    }
}

/// A transaction after one more participant. After a rejection nothing counts
/// any more.
pub open spec fn staged_after<W>(
    transaction: TransactionView<W>,
    extension: Seq<char>,
    outcome: Result<W, Seq<char>>,
) -> TransactionView<W> {
    if transaction.rejected is Some {
        transaction
    } else {
        match outcome {
            Ok(write) => TransactionView {
                staged: transaction.staged.push((extension, write)),
                ..transaction
            },
            Err(error) => TransactionView { rejected: Some((extension, error)), ..transaction },
        }
    }
}

/// What a rejected transaction says.
pub open spec fn rejected_message(document: Seq<char>, extension: Seq<char>, error: Seq<char>) -> Seq<
    char,
> {
    "transaction on document "@ + debug_text(document) + " was rejected by "@ + extension + (": "@
        + error + "; no participant's write was applied"@)
}

/// Whether every one of some writes can be made, whatever the state.
pub open spec fn callable<S, W: FnOnce(S) -> S>(writes: Seq<W>) -> bool {
    forall|i: int, state: S|
        0 <= i < writes.len() ==> #[trigger] call_requires(writes[i], (state,))
}

/// Whether some writes, each made once and in order, lead through some states:
/// from the first to the second by the first write, and so on.
pub open spec fn passes_through<S, W: FnOnce(S) -> S>(writes: Seq<W>, states: Seq<S>) -> bool {
    &&& states.len() == writes.len() + 1
    &&& forall|i: int|
        0 <= i < writes.len() ==> call_ensures(#[trigger] writes[i], (states[i],), states[i + 1])
}

/// Whether some writes, each made once and in order, lead from one state to
/// another.
pub open spec fn leads_to<S, W: FnOnce(S) -> S>(writes: Seq<W>, start: S, end: S) -> bool {
    exists|states: Seq<S>| #[trigger]
        passes_through(writes, states) && states[0] == start && states[writes.len() as int] == end
}

/// A new revision, or why there is none.
pub open spec fn revision_result(result: Result<u64, String>) -> Result<u64, Seq<char>> {
    match result {
        Ok(revision) => Ok(revision),
        Err(message) => Err(message@),
    }
}

/// What committing a transaction leads to: the writes are made in order, and
/// then the revision advances; or nothing is written and the revision stays.
pub open spec fn committed<S, W: FnOnce(S) -> S>(
    transaction: TransactionView<W>,
    before: DocumentView,
    after: DocumentView,
    start: S,
    end: S,
    result: Result<u64, Seq<char>>,
) -> bool {
    match transaction.rejected {
        Some((extension, error)) => {
            &&& result == Err::<u64, Seq<char>>(
                rejected_message(transaction.document, extension, error),
            )
            &&& after == before
            &&& end == start
        },
        None => {
            &&& result == Ok::<u64, Seq<char>>((before.revision + 1) as u64)
            &&& after == (DocumentView { revision: (before.revision + 1) as u64, ..before })
            &&& leads_to(staged_writes(transaction.staged), start, end)
        },
    }
}

/// The writes that some participants staged, in order.
pub open spec fn staged_writes<W>(staged: Seq<(Seq<char>, W)>) -> Seq<W> {
    Seq::new(staged.len(), |i: int| staged[i].1)
}

impl<W> Transaction<W> {
    /// Begins a transaction on a document.
    pub fn begin(document: &SharedDocument) -> (transaction: Transaction<W>)
        ensures
            transaction@ == opened::<W>(document@),
    {
        let transaction: Transaction<W> = Transaction {
            document: document.name.clone(),
            revision: document.revision,
            staged: Vec::new(),
            rejected: None,
        };
        proof {
            assert(transaction@.staged =~= Seq::empty());
        }
        transaction
    }

    /// The document's name.
    pub fn document(&self) -> (name: &str)
        ensures
            name@ == self@.document,
    {
        self.document.as_str()
    }

    /// The revision that the transaction gives the document if it commits.
    pub fn pending_revision(&self) -> (revision: u64)
        requires
            self@.revision < u64::MAX,
        ensures
            revision == self@.revision + 1,
    {
        self.revision + 1
    }

    /// Stages one participant's write. `stage` does not run once a participant
    /// has rejected the transaction.
    pub fn stage<F: FnOnce() -> Result<W, String>>(&mut self, extension: &str, stage: F)
        requires
            old(self)@.rejected is None ==> call_requires(stage, ()),
        ensures
            old(self)@.rejected is Some ==> final(self)@ == old(self)@,
            old(self)@.rejected is None ==> exists|outcome: Result<W, String>| #[trigger]
                call_ensures(stage, (), outcome) && final(self)@ == staged_after(
                    old(self)@,
                    extension@,
                    staging(outcome),
                ),
    {
        if self.rejected.is_some() {
            return;
        }
        let outcome: Result<W, String> = stage();
        self.note(extension, outcome);
    }

    /// Takes what one participant staged.
    pub fn note(&mut self, extension: &str, outcome: Result<W, String>)
        ensures
            final(self)@ == staged_after(old(self)@, extension@, staging(outcome)),
    {
        if self.rejected.is_some() {
            return;
        }
        let ghost before = self@;
        match outcome {
            Ok(write) => {
                self.staged.push((extension.to_owned(), write));
                proof {
                    assert(self@.staged =~= before.staged.push((extension@, write)));
                }
            },
            Err(error) => {
                self.rejected = Some((extension.to_owned(), error));
                proof {
                    assert(self@.staged =~= before.staged);
                }
            },
        }
    }

    /// The participants so far, in order.
    pub fn participants(&self) -> (names: Vec<String>)
        ensures
            texts(names@) == entry_names(self@.staged),
    {
        let mut names: Vec<String> = Vec::new();
        let mut i: usize = 0;
        while i < self.staged.len()
            invariant
                i <= self.staged@.len(),
                names@.len() == i,
                forall|k: int| 0 <= k < i ==> (#[trigger] names@[k])@ == self.staged@[k].0@,
            decreases self.staged@.len() - i,
        {
            names.push(self.staged[i].0.clone());
            i += 1;
        }
        proof {
            assert(texts(names@) =~= entry_names(self@.staged));
        }
        names
    }

    /// Gives a transaction up. None of its writes is made, and the thread no
    /// longer holds the document open.
    pub fn abandon(self, held: &mut HeldDocuments)
        ensures
            final(held)@ == old(held)@.filter(other_names(self@.document)),
    {
        held.leave(&self.document);
    }

    /// The writes that are to be made, in the order in which they were staged, or
    /// who rejected the transaction.
    pub fn into_writes(self) -> (result: Result<Vec<W>, String>)
        ensures
            match (self@.rejected, result) {
                (Some((extension, error)), Err(message)) => message@ == rejected_message(
                    self@.document,
                    extension,
                    error,
                ),
                (None, Ok(writes)) => writes@ == staged_writes(self@.staged),
                _ => false,
            },
    {
        let ghost all = self@.staged;
        match &self.rejected {
            Some((extension, error)) => {
                let head: String = concat3(
                    "transaction on document ",
                    &debug_quote(&self.document),
                    " was rejected by ",
                );
                return Err(
                    concat3(
                        &head,
                        extension,
                        &concat3(": ", error, "; no participant's write was applied"),
                    ),
                );
            },
            None => {},
        }
        let mut writes: Vec<W> = Vec::new();
        let mut staged: Vec<(String, W)> = self.staged;
        let ghost source = staged@;
        while staged.len() > 0
            invariant
                writes@.len() + staged@.len() == source.len(),
                staged@ == source.skip(writes@.len() as int),
                forall|k: int| 0 <= k < writes@.len() ==> #[trigger] writes@[k] == source[k].1,
            decreases staged@.len(),
        {
            let (_, write): (String, W) = staged.remove(0);
            writes.push(write);
            proof {
                assert(staged@ =~= source.skip(writes@.len() as int));
            }
        }
        proof {
            assert(writes@ =~= staged_writes(all));
        }
        Ok(writes)
    }

    /// Commits the transaction: makes every staged write, in order, advances the
    /// revision once, and gives the new one. A rejected transaction makes no
    /// write and leaves the revision. Either way the thread no longer holds the
    /// document open. The writes act on a state that goes from each to the next;
    /// writes that share what they act on among themselves take the empty one.
    pub fn commit<S>(
        self,
        document: &mut SharedDocument,
        held: &mut HeldDocuments,
        state: S,
    ) -> (outcome: (S, Result<u64, String>)) where W: FnOnce(S) -> S
        requires
            self@.document == old(document)@.name,
            self@.revision == old(document)@.revision,
            self@.revision < u64::MAX,
            self@.rejected is None ==> callable::<S, W>(staged_writes(self@.staged)),
        ensures
            final(held)@ == old(held)@.filter(other_names(self@.document)),
            committed(
                self@,
                old(document)@,
                final(document)@,
                state,
                outcome.0,
                revision_result(outcome.1),
            ),
    {
        let ghost staged = self@.staged;
        let name: String = self.document.clone();
        let mut writes: Vec<W> = match self.into_writes() {
            Ok(writes) => writes,
            Err(message) => {
                held.leave(&name);
                return (state, Err(message));
            },
        };
        let ghost all = writes@;
        let ghost mut made: int = 0;
        let ghost mut states: Seq<S> = seq![state];
        let mut current: S = state;
        proof {
            assert(all.take(0) =~= Seq::<W>::empty());
            assert(writes@ =~= all.skip(0));
        }
        while writes.len() > 0
            invariant
                callable::<S, W>(all),
                0 <= made <= all.len(),
                writes@ == all.skip(made),
                states.len() == made + 1,
                states[0] == state,
                states[made] == current,
                passes_through(all.take(made), states),
            decreases writes@.len(),
        {
            let write: W = writes.remove(0);
            let ghost before = states;
            let ghost given = current;
            proof {
                assert(write == all[made]);
                assert(writes@ =~= all.skip(made + 1));
                assert(call_requires(all[made], (current,)));
            }
            current = write(current);
            proof {
                states = before.push(current);
                let taken = all.take(made + 1);
                assert forall|i: int| 0 <= i < taken.len() implies call_ensures(
                    #[trigger] taken[i],
                    (states[i],),
                    states[i + 1],
                ) by {
                    if i < made {
                        assert(all.take(made)[i] == taken[i]);
                        assert(states[i] == before[i] && states[i + 1] == before[i + 1]);
                    } else {
                        assert(taken[i] == write && states[i] == given);
                    }
                }
                made = made + 1;
            }
        }
        proof {
            assert(all.take(made) =~= all);
        }
        let revision: u64 = document.advance();
        held.leave(&name);
        (current, Ok(revision))
    }
}

/// A transaction after several participants, in order.
pub open spec fn staged_all<W>(
    transaction: TransactionView<W>,
    outcomes: Seq<(Seq<char>, Result<W, Seq<char>>)>,
) -> TransactionView<W>
    decreases outcomes.len(),
{
    if outcomes.len() == 0 {
        transaction
    } else {
        staged_after(
            staged_all(transaction, outcomes.drop_last()),
            outcomes.last().0,
            outcomes.last().1,
        )
    }
}

/// A transaction is all or nothing: it is free to commit exactly if every
/// participant staged, and then holds every write in order; otherwise it names
/// a participant that rejected it, with every one before it having staged.
pub proof fn law_a_transaction_is_all_or_nothing<W>(
    document: Seq<char>,
    revision: u64,
    outcomes: Seq<(Seq<char>, Result<W, Seq<char>>)>,
)
    ensures
        ({
            let start = TransactionView::<W> {
                document,
                revision,
                staged: Seq::empty(),
                rejected: None,
            };
            let end = staged_all(start, outcomes);
            &&& end.document == document
            &&& end.revision == revision
            &&& end.rejected is None <==> (forall|i: int|
                0 <= i < outcomes.len() ==> (#[trigger] outcomes[i]).1 is Ok)
            &&& end.rejected is None ==> staged_writes(end.staged) == Seq::new(
                outcomes.len(),
                |i: int| outcomes[i].1->Ok_0,
            )
            &&& end.rejected matches Some((extension, error)) ==> exists|i: int|
                0 <= i < outcomes.len() && #[trigger] outcomes[i] == (
                    extension,
                    Err::<W, Seq<char>>(error),
                ) && forall|j: int| 0 <= j < i ==> (#[trigger] outcomes[j]).1 is Ok
        }),
    decreases outcomes.len(),
{
    let start = TransactionView::<W> { document, revision, staged: Seq::empty(), rejected: None };
    let end = staged_all(start, outcomes);
    if outcomes.len() == 0 {
        assert(staged_writes(end.staged) =~= Seq::new(
            outcomes.len(),
            |i: int| outcomes[i].1->Ok_0,
        ));
    } else {
        let rest = outcomes.drop_last();
        let last = outcomes.last();
        law_a_transaction_is_all_or_nothing(document, revision, rest);
        let earlier = staged_all(start, rest);
        assert(outcomes[outcomes.len() - 1] == last);
        assert forall|i: int| 0 <= i < rest.len() implies #[trigger] outcomes[i] == rest[i] by {}
        if earlier.rejected is Some {
            let (extension, error) = earlier.rejected->0;
            let i = choose|i: int|
                0 <= i < rest.len() && #[trigger] rest[i] == (
                    extension,
                    Err::<W, Seq<char>>(error),
                ) && forall|j: int| 0 <= j < i ==> (#[trigger] rest[j]).1 is Ok;
            assert(outcomes[i] == (extension, Err::<W, Seq<char>>(error)));
            assert forall|j: int| 0 <= j < i implies (#[trigger] outcomes[j]).1 is Ok by {
                assert(rest[j].1 is Ok);
            }
        } else {
            assert forall|j: int| 0 <= j < rest.len() implies (#[trigger] outcomes[j]).1 is Ok by {
                assert(rest[j].1 is Ok);
            }
            if last.1 is Ok {
                let writes = Seq::new(outcomes.len(), |i: int| outcomes[i].1->Ok_0);
                let before = Seq::new(rest.len(), |i: int| rest[i].1->Ok_0);
                assert(staged_writes(end.staged) =~= staged_writes(earlier.staged).push(
                    last.1->Ok_0,
                ));
                assert(writes =~= before.push(last.1->Ok_0));
            } else {
                assert(end.rejected == Some((last.0, last.1->Err_0)));
                assert(outcomes[outcomes.len() - 1] == (last.0, Err::<W, Seq<char>>(last.1->Err_0)));
            }
        }
    }
}

/// Committing what several participants staged, in order, makes every write, in
/// that order, and advances the revision once; unless one of them rejected the
/// transaction: then nothing is written, the revision stays, and the first who
/// rejected it is named with the reason.
pub proof fn law_a_commit_makes_all_writes_in_order_or_none<S, W: FnOnce(S) -> S>(
    document: DocumentView,
    outcomes: Seq<(Seq<char>, Result<W, Seq<char>>)>,
    after: DocumentView,
    start: S,
    end: S,
    result: Result<u64, Seq<char>>,
)
    requires
        document.revision < u64::MAX,
        committed(staged_all(opened::<W>(document), outcomes), document, after, start, end, result),
    ensures
        (forall|i: int| 0 <= i < outcomes.len() ==> (#[trigger] outcomes[i]).1 is Ok) ==> {
            &&& result == Ok::<u64, Seq<char>>((document.revision + 1) as u64)
            &&& after == (DocumentView { revision: (document.revision + 1) as u64, ..document })
            &&& leads_to(Seq::new(outcomes.len(), |i: int| outcomes[i].1->Ok_0), start, end)
        },
        (exists|i: int| 0 <= i < outcomes.len() && (#[trigger] outcomes[i]).1 is Err) ==> {
            &&& after == document
            &&& end == start
            &&& exists|j: int|
                0 <= j < outcomes.len() && (#[trigger] outcomes[j]).1 is Err && result == Err::<
                    u64,
                    Seq<char>,
                >(rejected_message(document.name, outcomes[j].0, outcomes[j].1->Err_0)) && forall|
                    k: int,
                |
                    0 <= k < j ==> (#[trigger] outcomes[k]).1 is Ok
        },
{
    law_a_transaction_is_all_or_nothing(document.name, document.revision, outcomes);
    let last = staged_all(opened::<W>(document), outcomes);
    if last.rejected is Some {
        let (extension, error) = last.rejected->0;
        let j = choose|j: int|
            0 <= j < outcomes.len() && #[trigger] outcomes[j] == (
                extension,
                Err::<W, Seq<char>>(error),
            ) && forall|k: int| 0 <= k < j ==> (#[trigger] outcomes[k]).1 is Ok;
        assert(outcomes[j].1 is Err);
    }
}

// The documents of a composition.

/// Every shared document of one composition.
#[derive(Debug)]
pub struct DocumentRegistry {
    documents: Vec<SharedDocument>,
}

impl View for DocumentRegistry {
    type V = Seq<DocumentView>;

    closed spec fn view(&self) -> Seq<DocumentView> {
        Seq::new(self.documents@.len(), |i: int| self.documents@[i]@)
    }
}

pub open spec fn document_names(documents: Seq<DocumentView>) -> Seq<Seq<char>> {
    Seq::new(documents.len(), |i: int| documents[i].name)
}

/// The documents in the order of their names, with one more, which takes the
/// place of another of the same name.
pub open spec fn put_document(documents: Seq<DocumentView>, document: DocumentView) -> Seq<
    DocumentView,
>
    decreases documents.len(),
{
    if documents.len() == 0 {
        documents.push(document)
    } else if documents.last().name == document.name {
        documents.drop_last().push(document)
    } else if text_before(documents.last().name, document.name) {
        documents.push(document)
    } else {
        put_document(documents.drop_last(), document).push(documents.last())
    }
}

/// The document of a name.
pub open spec fn document_of(documents: Seq<DocumentView>, name: Seq<char>) -> Option<DocumentView>
    decreases documents.len(),
{
    if documents.len() == 0 {
        None
    } else if documents.last().name == name {
        Some(documents.last())
    } else {
        document_of(documents.drop_last(), name)
    }
}

impl DocumentRegistry {
    pub fn new() -> (registry: DocumentRegistry)
        ensures
            registry@ == Seq::<DocumentView>::empty(),
    {
        let registry: DocumentRegistry = DocumentRegistry { documents: Vec::new() };
        proof {
            assert(registry@ =~= Seq::<DocumentView>::empty());
        }
        registry
    }

    /// Registers a document and its owner.
    pub fn declare(&mut self, document: &str, owner: &str)
        ensures
            final(self)@ == put_document(
                old(self)@,
                DocumentView { name: document@, owner: owner@, revision: 0 },
            ),
    {
        let made: SharedDocument = SharedDocument::new(document, owner);
        let ghost all = self@;
        let mut i: usize = self.documents.len();
        proof {
            assert(all.take(i as int) =~= all);
            assert(put_document(all.take(i as int), made@) + all.skip(i as int) =~= put_document(
                all,
                made@,
            ));
        }
        while i > 0 && !same(&self.documents[i - 1].name, document) && !before(
            &self.documents[i - 1].name,
            document,
        )
            invariant
                all == self@,
                made@.name == document@,
                i <= self.documents@.len(),
                put_document(all, made@) == put_document(all.take(i as int), made@) + all.skip(
                    i as int,
                ),
            decreases i,
        {
            proof {
                assert(self.documents@[i - 1]@ == all[i - 1]);
                assert(all.take(i as int).drop_last() =~= all.take(i - 1));
                assert(all.take(i as int).last() == all[i - 1]);
                assert(put_document(all.take(i - 1), made@).push(all[i - 1]) + all.skip(i as int)
                    =~= put_document(all.take(i - 1), made@) + all.skip(i - 1));
            }
            i -= 1;
        }
        proof {
            if i > 0 {
                assert(self.documents@[i - 1]@ == all[i - 1]);
                assert(all.take(i as int).last() == all[i - 1]);
            }
        }
        if i > 0 && same(&self.documents[i - 1].name, document) {
            self.documents.set(i - 1, made);
            proof {
                assert(self@ =~= all.take(i as int).drop_last().push(made@) + all.skip(i as int));
            }
        } else {
            self.documents.insert(i, made);
            proof {
                assert(self@ =~= all.take(i as int).push(made@) + all.skip(i as int));
            }
        }
    }

    fn position(&self, document: &str) -> (position: Option<usize>)
        ensures
            match position {
                Some(i) => {
                    &&& i < self.documents@.len()
                    &&& self@.len() == self.documents@.len()
                    &&& self@[i as int].name == document@
                    &&& document_of(self@, document@) == Some(self@[i as int])
                    &&& self@[i as int] == self.documents@[i as int]@
                    &&& forall|k: int| i < k < self@.len() ==> (#[trigger] self@[k]).name
                        != document@
                },
                None => document_of(self@, document@) is None,
            },
    {
        let ghost all = self@;
        let mut i: usize = self.documents.len();
        proof {
            assert(all.take(i as int) =~= all);
        }
        while i > 0
            invariant
                all == self@,
                i <= self.documents@.len(),
                document_of(all, document@) == document_of(all.take(i as int), document@),
                forall|k: int| i <= k < all.len() ==> (#[trigger] all[k]).name != document@,
            decreases i,
        {
            proof {
                assert(self.documents@[i - 1]@ == all[i - 1]);
                assert(all.take(i as int).drop_last() =~= all.take(i - 1));
                assert(all.take(i as int).last() == all[i - 1]);
            }
            if same(&self.documents[i - 1].name, document) {
                return Some(i - 1);
            }
            i -= 1;
        }
        None
    }

    /// The document of a name.
    pub fn get(&self, document: &str) -> (result: Result<&SharedDocument, String>)
        ensures
            match result {
                Ok(found) => document_of(self@, document@) == Some(found@),
                Err(message) => document_of(self@, document@) is None && message@
                    == "no composed extension owns document "@ + debug_text(document@)
                    + " (composed: "@ + debug_list(document_names(self@)) + ")"@,
            },
    {
        match self.position(document) {
            Some(i) => {
                return Ok(&self.documents[i]);
            },
            None => {},
        }
        Err(
            concat5(
                "no composed extension owns document ",
                &debug_quote(document),
                " (composed: ",
                &debug_quote_list(&self.names()),
                ")",
            ),
        )
    }

    /// Commits a transaction on one of the documents, as [`Transaction::commit`]
    /// does. Every other document stays as it is.
    pub fn commit<S, W>(
        &mut self,
        transaction: Transaction<W>,
        held: &mut HeldDocuments,
        state: S,
    ) -> (outcome: (S, Result<u64, String>)) where W: FnOnce(S) -> S
        requires
            document_of(old(self)@, transaction@.document) matches Some(document)
                && document.revision == transaction@.revision,
            transaction@.revision < u64::MAX,
            transaction@.rejected is None ==> callable::<S, W>(staged_writes(transaction@.staged)),
        ensures
            final(held)@ == old(held)@.filter(other_names(transaction@.document)),
            document_of(final(self)@, transaction@.document) matches Some(after) && committed(
                transaction@,
                document_of(old(self)@, transaction@.document)->0,
                after,
                state,
                outcome.0,
                revision_result(outcome.1),
            ),
            forall|other: Seq<char>|
                other != transaction@.document ==> #[trigger] document_of(final(self)@, other)
                    == document_of(old(self)@, other),
            document_names(final(self)@) == document_names(old(self)@),
    {
        let ghost before = self@;
        let ghost name = transaction@.document;
        match self.position(&transaction.document) {
            Some(i) => {
                let outcome: (S, Result<u64, String>) = transaction.commit(
                    &mut self.documents[i],
                    held,
                    state,
                );
                proof {
                    let after = self.documents@[i as int]@;
                    assert(self@ =~= before.update(i as int, after));
                    lemma_document_updated(before, i as int, after);
                    assert(document_names(self@) =~= document_names(before));
                }
                outcome
            },
            None => vstd::pervasive::unreached(),
        }
    }

    /// Every name, in order.
    pub fn names(&self) -> (names: Vec<String>)
        ensures
            texts(names@) == document_names(self@),
    {
        let mut names: Vec<String> = Vec::new();
        let mut i: usize = 0;
        while i < self.documents.len()
            invariant
                i <= self.documents@.len(),
                names@.len() == i,
                forall|k: int| 0 <= k < i ==> (#[trigger] names@[k])@ == self.documents@[k]@.name,
            decreases self.documents@.len() - i,
        {
            names.push(self.documents[i].name.clone());
            i += 1;
        }
        proof {
            assert(texts(names@) =~= document_names(self@));
        }
        names
    }

    pub fn is_empty(&self) -> (result: bool)
        ensures
            result == (self@.len() == 0),
    {
        self.documents.len() == 0
    }
}

proof fn lemma_document_updated(documents: Seq<DocumentView>, i: int, document: DocumentView)
    requires
        0 <= i < documents.len(),
        documents[i].name == document.name,
        forall|k: int| i < k < documents.len() ==> (#[trigger] documents[k]).name != document.name,
    ensures
        document_of(documents.update(i, document), document.name) == Some(document),
        forall|other: Seq<char>|
            other != document.name ==> #[trigger] document_of(documents.update(i, document), other)
                == document_of(documents, other),
    decreases documents.len(),
{
    let result = documents.update(i, document);
    let rest = documents.drop_last();
    if i == documents.len() - 1 {
        assert(result.drop_last() =~= rest);
    } else {
        assert(result.drop_last() =~= rest.update(i, document));
        assert(documents[documents.len() - 1].name != document.name);
        assert forall|k: int| i < k < rest.len() implies (#[trigger] rest[k]).name
            != document.name by {
            assert(documents[k] == rest[k]);
        }
        lemma_document_updated(rest, i, document);
        assert forall|other: Seq<char>| other != document.name implies #[trigger] document_of(
            result,
            other,
        ) == document_of(documents, other) by {
            assert(document_of(rest.update(i, document), other) == document_of(rest, other));
        }
    }
}

/// A document that was declared is found, with its owner and at its first
/// revision, and declaring it leaves every other one as it was.
pub proof fn law_a_declared_document_is_found(
    documents: Seq<DocumentView>,
    document: DocumentView,
    other: Seq<char>,
)
    ensures
        document_of(put_document(documents, document), document.name) == Some(document),
        other != document.name ==> document_of(put_document(documents, document), other)
            == document_of(documents, other),
    decreases documents.len(),
{
    let result = put_document(documents, document);
    if documents.len() == 0 {
        assert(result.drop_last() =~= documents);
    } else if documents.last().name == document.name {
        assert(result.drop_last() =~= documents.drop_last());
    } else if text_before(documents.last().name, document.name) {
        assert(result.drop_last() =~= documents);
    } else {
        law_a_declared_document_is_found(documents.drop_last(), document, other);
        assert(result.drop_last() =~= put_document(documents.drop_last(), document));
    }
}

/// A thread that leaves a document can open it again, and has every other one
/// open as before.
pub proof fn law_a_document_that_was_left_can_be_opened(
    held: Seq<Seq<char>>,
    name: Seq<char>,
    other: Seq<char>,
)
    ensures
        !held.filter(other_names(name)).contains(name),
        other != name ==> held.filter(other_names(name)).contains(other) == held.contains(other),
{
    broadcast use vstd::seq_lib::group_filter_ensures;

    let kept = held.filter(other_names(name));
    if kept.contains(name) {
        let k = choose|k: int| 0 <= k < kept.len() && kept[k] == name;
        assert(other_names(name)(kept[k]));
    }
    if other != name && held.contains(other) {
        let k = choose|k: int| 0 <= k < held.len() && held[k] == other;
        assert(other_names(name)(held[k]));
        assert(kept.contains(held[k]));
    }
    if kept.contains(other) {
        held.lemma_filter_contains_rev(other_names(name), other);
    }
}

} // verus!
