use std::any::Any;
use std::cell::RefCell;
use std::rc::Rc;
use std::sync::Arc;

use ag_ui_surface::services::{
    DocumentClaim, DocumentRegistry, ExtensionDependency, HeldDocuments, ServiceRegistry,
    ServiceRequirement, SharedDocument, Transaction,
};

type Service = Arc<dyn Any + Send + Sync>;

#[derive(Debug)]
struct Repo(&'static str);
#[derive(Debug)]
struct NotARepo;

fn resolve<T: Send + Sync + 'static>(
    registry: &ServiceRegistry<Service>,
    name: &str,
    expected: &str,
) -> Result<Arc<T>, String> {
    registry.resolve(name, expected, |service: &Service| {
        service.clone().downcast::<T>().ok()
    })
}

fn with_repository() -> ServiceRegistry<Service> {
    let mut registry = ServiceRegistry::new();
    let service: Service = Arc::new(Repo("/workspace"));
    registry.provide("repository", service).expect("provide the repository service");
    registry
}

#[test]
fn a_service_resolves_to_its_concrete_type() {
    let registry = with_repository();
    assert!(registry.provides("repository"));
    let repo = resolve::<Repo>(&registry, "repository", "Repo").expect("resolve the repository service");
    assert_eq!(repo.0, "/workspace");
}

#[test]
fn absent_and_mistyped_services_fail_differently() {
    let registry = with_repository();

    let absent = resolve::<Repo>(&registry, "telemetry", "Repo")
        .expect_err("an unprovided service must not resolve");
    assert!(absent.contains("was not provided"), "{absent}");
    assert!(absent.contains("repository"), "{absent}");

    let mistyped = resolve::<NotARepo>(&registry, "repository", "NotARepo")
        .expect_err("a service provided under another type must not resolve");
    assert!(mistyped.contains("but not as"), "{mistyped}");
    assert_eq!(mistyped, "host service \"repository\" was provided, but not as NotARepo");
}

#[test]
fn providing_a_name_twice_is_refused_rather_than_overwritten() {
    let mut registry: ServiceRegistry<Service> = ServiceRegistry::new();
    registry
        .provide("repository", Arc::new(Repo("/first")))
        .expect("provide the repository service");
    let error = registry
        .provide("repository", Arc::new(Repo("/second")))
        .expect_err("a duplicate service name must be refused");
    assert!(error.contains("already provided"), "{error}");
    assert_eq!(
        resolve::<Repo>(&registry, "repository", "Repo").expect("resolve the repository service").0,
        "/first"
    );
}

#[test]
fn names_are_listed_in_order() {
    let mut registry: ServiceRegistry<u8> = ServiceRegistry::new();
    assert!(registry.is_empty());
    for name in ["walrus", "ant", "moth"] {
        registry.provide(name, 1).unwrap();
    }
    assert_eq!(registry.names(), ["ant", "moth", "walrus"]);
    assert!(!registry.is_empty());
    assert_eq!(
        registry.provide("  ", 1),
        Err("a host service name cannot be empty".to_string())
    );
    assert_eq!(
        registry.resolve("bee", "u8", |n: &u8| Some(*n)),
        Err("host service \"bee\" was not provided (available: [\"ant\", \"moth\", \"walrus\"])"
            .to_string())
    );
    assert!(!registry.provides("bee"));
}

#[test]
fn declarations_keep_what_they_are_given() {
    let requirement = ServiceRequirement::new("repository", "reads sources");
    assert_eq!((requirement.service, requirement.reason), ("repository", "reads sources"));
    let dependency = ExtensionDependency::new("board", "1.0.0", "draws cards");
    assert_eq!(
        (dependency.extension, dependency.version, dependency.reason),
        ("board", "1.0.0", "draws cards")
    );
    let claim = DocumentClaim::new("studio", "owns the cards");
    assert_eq!((claim.document, claim.reason), ("studio", "owns the cards"));
}

type Write = Box<dyn FnOnce(())>;

/// The documents of a composition, and those that this thread holds open.
struct Studio {
    registry: DocumentRegistry,
    held: HeldDocuments,
}

impl Studio {
    fn new() -> Studio {
        let mut registry = DocumentRegistry::new();
        registry.declare("studio", "projection");
        Studio { registry, held: HeldDocuments::new() }
    }

    fn document(&self) -> &SharedDocument {
        self.registry.get("studio").expect("the declared document resolves")
    }

    fn transact<W>(&mut self) -> Result<Transaction<W>, String> {
        let document = self.registry.get("studio").expect("the declared document resolves");
        document.transact(&mut self.held)
    }

    fn commit(&mut self, transaction: Transaction<Write>) -> Result<u64, String> {
        self.registry.commit(transaction, &mut self.held, ()).1
    }
}

fn write(to: &Rc<RefCell<Vec<String>>>, text: String) -> Write {
    let to = to.clone();
    Box::new(move |()| to.borrow_mut().push(text))
}

#[test]
fn a_committed_transaction_applies_every_view_and_advances_once() {
    let mut studio = Studio::new();
    let cards = Rc::new(RefCell::new(Vec::new()));
    let approvals = Rc::new(RefCell::new(Vec::new()));
    assert_eq!(studio.document().revision(), 0);

    let mut transaction = studio.transact().expect("open a transaction");
    let stamped = transaction.pending_revision();
    transaction.stage("projection", || Ok(write(&cards, format!("card@{stamped}"))));
    transaction.stage("alignment", || Ok(write(&approvals, format!("approved@{stamped}"))));
    assert_eq!(transaction.participants(), vec!["projection", "alignment"]);
    assert!(cards.borrow().is_empty(), "staging writes nothing");
    assert_eq!(studio.commit(transaction).expect("commit"), 1);

    assert_eq!(*cards.borrow(), vec!["card@1".to_string()]);
    assert_eq!(*approvals.borrow(), vec!["approved@1".to_string()]);
    assert_eq!(studio.document().revision(), 1);
}

#[test]
fn a_rejection_by_any_view_leaves_no_write_behind() {
    let mut studio = Studio::new();
    let cards = Rc::new(RefCell::new(Vec::new()));

    let mut transaction = studio.transact().expect("open a transaction");
    transaction.stage("projection", || Ok(write(&cards, "card".to_string())));
    transaction.stage("alignment", || Err("the projection revision moved under me".to_string()));
    let error =
        studio.commit(transaction).expect_err("a rejected transaction must not commit");

    assert!(error.contains("rejected by alignment"), "{error}");
    assert!(error.contains("no participant's write was applied"), "{error}");
    assert!(
        cards.borrow().is_empty(),
        "the first participant's write must never have been made: {:?}",
        cards.borrow()
    );
    assert_eq!(
        studio.document().revision(),
        0,
        "a rejected transaction must not advance the revision"
    );
    assert!(studio.transact::<Write>().is_ok(), "a rejected transaction must release the document");
}

#[test]
fn staging_stops_once_a_participant_has_rejected() {
    let mut studio = Studio::new();
    let ran = RefCell::new(Vec::<&str>::new());

    let mut transaction = studio.transact::<Write>().expect("open a transaction");
    transaction.stage("first", || {
        ran.borrow_mut().push("first");
        Err("no".to_string())
    });
    transaction.stage("second", || {
        ran.borrow_mut().push("second");
        let write: Write = Box::new(|()| {});
        Ok(write)
    });
    let _ = studio.commit(transaction);
    assert_eq!(
        *ran.borrow(),
        vec!["first"],
        "staging after a rejection risks side effects for a write that cannot happen"
    );
}

#[test]
fn a_dropped_transaction_aborts_and_releases_the_document() {
    let mut studio = Studio::new();
    let cards = Rc::new(RefCell::new(Vec::new()));
    {
        let mut transaction = studio.transact().expect("open a transaction");
        transaction.stage("projection", || Ok(write(&cards, "card".to_string())));
        transaction.abandon(&mut studio.held);
    }
    assert!(
        cards.borrow().is_empty(),
        "an abandoned transaction must apply nothing"
    );
    assert_eq!(studio.document().revision(), 0);
    let transaction =
        studio.transact().expect("a dropped transaction must release the document");
    assert_eq!(transaction.document(), "studio");
    studio.commit(transaction).expect("commit");
    assert_eq!(studio.document().revision(), 1);
}

#[test]
fn writes_are_made_in_the_order_in_which_they_were_staged() {
    type Step = Box<dyn FnOnce(Vec<u8>) -> Vec<u8>>;
    let step = |n: u8| -> Step {
        Box::new(move |mut seen: Vec<u8>| {
            seen.push(n);
            seen
        })
    };
    let mut document = SharedDocument::new("studio", "projection");
    let mut held = HeldDocuments::new();
    let mut transaction: Transaction<Step> = document.transact(&mut held).unwrap();
    for n in [3, 1, 2] {
        transaction.stage("any", || Ok(step(n)));
    }
    let (seen, revision) = transaction.commit(&mut document, &mut held, vec![0]);
    assert_eq!((seen, revision), (vec![0, 3, 1, 2], Ok(1)));

    let mut rejected: Transaction<Step> = document.transact(&mut held).unwrap();
    rejected.stage("first", || Ok(step(9)));
    rejected.stage("second", || Err("no".to_string()));
    let (seen, outcome) = rejected.commit(&mut document, &mut held, vec![7]);
    assert_eq!(seen, [7]);
    assert!(outcome.unwrap_err().contains("rejected by second: no"));
    assert_eq!(document.revision(), 1);

    let empty: Transaction<Step> = document.transact(&mut held).unwrap();
    assert_eq!(empty.commit(&mut document, &mut held, vec![]), (vec![], Ok(2)));

    let mut noted: Transaction<u8> = Transaction::begin(&document);
    noted.note("first", Ok(1));
    noted.note("second", Ok(2));
    assert_eq!(noted.into_writes(), Ok(vec![1, 2]));
    assert_eq!(document.advance(), 3);
}

#[test]
fn a_commit_leaves_other_documents_alone() {
    let mut studio = Studio::new();
    studio.registry.declare("atlas", "maps");
    studio.registry.declare("zoo", "animals");
    let transaction = studio.transact().expect("open a transaction");
    assert_eq!(studio.commit(transaction), Ok(1));
    let revision = |name: &str| studio.registry.get(name).unwrap().revision();
    assert_eq!((revision("atlas"), revision("studio"), revision("zoo")), (0, 1, 0));
    assert_eq!(studio.registry.names(), ["atlas", "studio", "zoo"]);
    assert_eq!(studio.document().owner(), "projection");
}

#[test]
fn re_entering_a_document_reports_a_bug_instead_of_deadlocking() {
    let mut studio = Studio::new();
    let outer = studio.transact::<Write>().expect("open a transaction");
    studio.held.enter("other").expect("another document");
    let error = studio
        .transact::<Write>()
        .err()
        .expect("re-entering the same document on one thread must not deadlock");
    assert!(error.contains("already open in a transaction"), "{error}");

    outer.abandon(&mut studio.held);
    assert!(
        studio.transact::<Write>().is_ok(),
        "the document is available again once the first transaction ends"
    );
    assert!(studio.held.enter("other").is_err());
}

#[test]
fn an_undeclared_document_does_not_resolve() {
    let mut registry = DocumentRegistry::new();
    assert!(registry.is_empty());
    registry.declare("studio", "projection");
    registry.declare("atlas", "maps");
    assert_eq!(registry.names(), ["atlas", "studio"]);
    let error = registry.get("review").expect_err("a document nobody owns must not resolve");
    assert!(error.contains("no composed extension owns"), "{error}");
    assert!(error.contains("studio"), "{error}");
    assert_eq!(registry.get("studio").map(|found| found.owner().to_string()), Ok("projection".to_string()));
    registry.declare("studio", "another");
    assert_eq!(registry.get("studio").map(|found| found.owner().to_string()), Ok("another".to_string()));
    assert_eq!(registry.names().len(), 2);
}
