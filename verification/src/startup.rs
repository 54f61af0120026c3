//! What has to hold before an application serves anything.

use vstd::prelude::*;

use crate::actions::{action_views, needs_human_route_cookie, ActionDef, ActionView};
use crate::attention::{host_action_views, install, install_problem, Installation};
use crate::awareness::new_service;
use crate::client_module::{
    human_actions, manifest_of, manifest_problem, module_views, ClientModule, ExtensionManifest,
    ModuleView,
};
use crate::http::{
    action_route_actions, action_route_endpoints, layout_problem, mount_directories,
    mount_prefixes, route_endpoints, validate_http_layout, ActionRouteDef, Endpoint, HttpMethod,
    Mount, RouteDef,
};
use crate::lists::{first_problem, lemma_first_problem_grows, or_else, reports};
use crate::mcp::{catalog_problem, tool_views, tools_among, Catalog};
use crate::paths::{path_under, under};
use crate::providers::{
    connections_among, default_id_with, distinct_ids, environment_choice, find,
    law_explicit_selection_never_falls_through, provider_views, registered, registry_view,
    saved_connections, saved_views, EnvValue, Provider, ProviderView, Providers, SavedEntry,
    SavedView, Vendor, VendorView,
};
use crate::text::{
    concat2, concat3, concat4, debug_quote, debug_text, list_contains, opt_str, opt_text, same,
    texts,
};

verus! {

/// Why an application does not serve.
#[derive(Debug, PartialEq, Eq)]
pub enum AppError {
    /// Something required was not given.
    MissingConfiguration(&'static str),
    /// Something that was given is not accepted.
    InvalidConfiguration(String),
    /// The address to listen at is none.
    InvalidAddress(String),
    /// The address cannot be listened at.
    Bind(String),
    /// The server stopped.
    Serve(String),
}

/// An error in contracts.
pub enum AppErrorView {
    MissingConfiguration(Seq<char>),
    InvalidConfiguration(Seq<char>),
    InvalidAddress(Seq<char>),
    Bind(Seq<char>),
    Serve(Seq<char>),
}

impl View for AppError {
    type V = AppErrorView;

    open spec fn view(&self) -> AppErrorView {
        match self {
            AppError::MissingConfiguration(message) => AppErrorView::MissingConfiguration(message@),
            AppError::InvalidConfiguration(message) => AppErrorView::InvalidConfiguration(message@),
            AppError::InvalidAddress(message) => AppErrorView::InvalidAddress(message@),
            AppError::Bind(message) => AppErrorView::Bind(message@),
            AppError::Serve(message) => AppErrorView::Serve(message@),
        }
    }
}

impl AppErrorView {
    /// What the error says.
    pub open spec fn text(self) -> Seq<char> {
        match self {
            AppErrorView::MissingConfiguration(message) => message,
            AppErrorView::InvalidConfiguration(message) => "invalid application configuration: "@
                + message,
            AppErrorView::InvalidAddress(message) => "invalid listen address: "@ + message,
            AppErrorView::Bind(message) => "failed to bind HTTP listener: "@ + message,
            AppErrorView::Serve(message) => "HTTP server failed: "@ + message,
        }
    }
}

impl AppError {
    /// What the error says.
    pub fn message(&self) -> (text: String)
        ensures
            text@ == self@.text(),
    {
        match self {
            AppError::MissingConfiguration(message) => {
                let text: &str = message;
                text.to_owned()
            },
            AppError::InvalidConfiguration(message) => concat2(
                "invalid application configuration: ",
                message,
            ),
            AppError::InvalidAddress(message) => concat2("invalid listen address: ", message),
            AppError::Bind(message) => concat2("failed to bind HTTP listener: ", message),
            AppError::Serve(message) => concat2("HTTP server failed: ", message),
        }
    }
}

/// Whether an outcome is exactly the failure that is due, or success where none
/// is.
pub open spec fn fails_with<T>(outcome: Result<T, AppError>, problem: Option<AppErrorView>) -> bool {
    match outcome {
        Ok(_) => problem is None,
        Err(error) => problem == Some(error@),
    }
}

/// A problem as an error in the configuration.
pub open spec fn invalid(problem: Option<Seq<char>>) -> Option<AppErrorView> {
    match problem {
        Some(message) => Some(AppErrorView::InvalidConfiguration(message)),
        None => None,
    }
}

/// The first of two errors.
pub open spec fn first_error(first: Option<AppErrorView>, second: Option<AppErrorView>) -> Option<
    AppErrorView,
> {
    match first {
        Some(error) => Some(error),
        None => second,
    }
}

/// An error where something required is not given.
pub open spec fn required(given: bool, message: Seq<char>) -> Option<AppErrorView> {
    if given {
        None
    } else {
        Some(AppErrorView::MissingConfiguration(message))
    }
}

/// The optional routes for the person in the loop.
#[derive(Clone, Copy, Debug, PartialEq, Eq, Structural)]
pub struct Hitl {
    pub barge_in: bool,
    pub decisions: bool,
    pub focus: bool,
}

impl Hitl {
    /// None of them.
    pub fn none() -> (hitl: Hitl)
        ensures
            hitl == (Hitl { barge_in: false, decisions: false, focus: false }),
    {
        Hitl { barge_in: false, decisions: false, focus: false }
    }

    /// The paths of the routes that are wanted.
    pub open spec fn paths(self) -> Seq<Seq<char>> {
        let focus = if self.focus {
            Seq::empty().push("/semantic"@)
        } else {
            Seq::empty()
        };
        let barge_in = if self.barge_in {
            focus.push("/interrupt"@)
        } else {
            focus
        };
        if self.decisions {
            barge_in.push("/decision"@)
        } else {
            barge_in
        }
    }

    /// The paths of the routes that are wanted.
    pub fn routes(self) -> (paths: Vec<String>)
        ensures
            texts(paths@) == self.paths(),
    {
        let mut paths: Vec<String> = Vec::new();
        if self.focus {
            paths.push("/semantic".to_owned());
        }
        if self.barge_in {
            paths.push("/interrupt".to_owned());
        }
        if self.decisions {
            paths.push("/decision".to_owned());
        }
        proof {
            assert(texts(paths@) =~= self.paths());
        }
        paths
    }
}

// The parts.

/// What a surface says of itself.
pub struct SurfaceParts {
    pub namespaces: Vec<String>,
    pub actions: Vec<ActionDef>,
}

/// The parts that an application cannot do without.
pub struct Configured {
    pub installed: Installation,
    pub providers: Vec<Provider>,
}

pub open spec fn parts_view(surface: Option<SurfaceParts>) -> Option<
    (Seq<Seq<char>>, Seq<ActionView>),
> {
    match surface {
        Some(parts) => Some((texts(parts.namespaces@), action_views(parts.actions@))),
        None => None,
    }
}

/// The actions that an application has: the surface's own, and the host's where
/// the surface has targets.
pub open spec fn installed_actions(namespaces: Seq<Seq<char>>, actions: Seq<ActionView>) -> Seq<
    ActionView,
> {
    if namespaces.len() == 0 {
        actions
    } else {
        actions + host_action_views()
    }
}

/// Which part is missing or not accepted.
pub open spec fn parts_problem(
    surface: Option<(Seq<Seq<char>>, Seq<ActionView>)>,
    providers: bool,
    auth: bool,
) -> Option<AppErrorView> {
    match surface {
        None => Some(AppErrorView::MissingConfiguration("App::surface(...) is required"@)),
        Some((namespaces, actions)) => first_error(
            invalid(install_problem(namespaces, actions)),
            first_error(
                required(providers, "App::providers(...) is required"@),
                required(auth, "App::auth(...) is required"@),
            ),
        ),
    }
}

/// Takes the parts that an application cannot do without. `auth` is whether it
/// has a store of credentials.
pub fn configure(surface: Option<SurfaceParts>, providers: Option<Providers>, auth: bool) -> (result:
    Result<Configured, AppError>)
    ensures
        fails_with(result, parts_problem(parts_view(surface), providers is Some, auth)),
        result matches Ok(configured) ==> {
            let parts = surface->0;
            &&& provider_views(configured.providers@) == provider_views((providers->0).0@)
            &&& action_views(configured.installed.actions@) == installed_actions(
                texts(parts.namespaces@),
                action_views(parts.actions@),
            )
            &&& configured.installed.service@ == new_service(texts(parts.namespaces@))
        },
{
    let parts: SurfaceParts = match surface {
        Some(parts) => parts,
        None => {
            return Err(AppError::MissingConfiguration("App::surface(...) is required"));
        },
    };
    let installed: Installation = match install(&parts.namespaces, parts.actions) {
        Ok(installed) => installed,
        Err(message) => {
            return Err(AppError::InvalidConfiguration(message));
        },
    };
    let providers: Vec<Provider> = match providers {
        Some(providers) => providers.0,
        None => {
            return Err(AppError::MissingConfiguration("App::providers(...) is required"));
        },
    };
    if !auth {
        return Err(AppError::MissingConfiguration("App::auth(...) is required"));
    }
    Ok(Configured { installed, providers })
}

// The composition.

/// The providers with the first `n` saved connections, or the first collision.
pub open spec fn merged(
    providers: Seq<ProviderView>,
    connections: Seq<ProviderView>,
    n: nat,
) -> Result<Seq<ProviderView>, Seq<char>>
    decreases n,
{
    if n == 0 {
        Ok(providers)
    } else {
        match merged(providers, connections, (n - 1) as nat) {
            Err(message) => Err(message),
            Ok(list) => if registered(list, connections[n - 1].id) {
                Err(
                    "saved connection id `"@ + connections[n - 1].id
                        + "` collides with a configured provider"@,
                )
            } else {
                Ok(list.push(connections[n - 1]))
            },
        }
    }
}

proof fn lemma_merged_fails(
    providers: Seq<ProviderView>,
    connections: Seq<ProviderView>,
    m: nat,
    n: nat,
)
    requires
        m <= n,
        merged(providers, connections, m) is Err,
    ensures
        merged(providers, connections, n) == merged(providers, connections, m),
    decreases n - m,
{
    if m < n {
        lemma_merged_fails(providers, connections, m, (n - 1) as nat);
    }
}

/// Adds saved connections to the providers. None may take a provider's id.
pub fn merge_connections(providers: Vec<Provider>, connections: Vec<Provider>) -> (result: Result<
    Vec<Provider>,
    String,
>)
    ensures
        registry_view(result) == merged(
            provider_views(providers@),
            provider_views(connections@),
            connections@.len(),
        ),
{
    let ghost start = provider_views(providers@);
    let ghost all = provider_views(connections@);
    let ghost mut done: nat = 0;
    let mut list: Vec<Provider> = providers;
    let mut rest: Vec<Provider> = connections;
    proof {
        assert(all.skip(0) =~= all);
    }
    while rest.len() > 0
        invariant
            done + rest@.len() == all.len(),
            all == provider_views(connections@),
            start == provider_views(providers@),
            provider_views(rest@) == all.skip(done as int),
            merged(start, all, done) == Ok::<Seq<ProviderView>, Seq<char>>(provider_views(list@)),
        decreases rest@.len(),
    {
        let ghost before = rest@;
        let connection: Provider = rest.remove(0);
        proof {
            assert(provider_views(before)[0] == all.skip(done as int)[0]);
            assert(connection@ == all[done as int]);
            assert(provider_views(rest@) =~= provider_views(before).skip(1));
            assert(all.skip(done as int).skip(1) =~= all.skip((done + 1) as int));
        }
        if find(&list, &connection.id).is_some() {
            let message: String = concat3(
                "saved connection id `",
                &connection.id,
                "` collides with a configured provider",
            );
            proof {
                lemma_merged_fails(start, all, (done + 1) as nat, all.len());
            }
            return Err(message);
        }
        let ghost earlier = list@;
        list.push(connection);
        proof {
            assert(provider_views(list@) =~= provider_views(earlier).push(all[done as int]));
            done = done + 1;
        }
    }
    Ok(list)
}

/// What an application is made of.
pub struct Composition<'a> {
    pub actions: &'a Vec<ActionDef>,
    pub modules: &'a Vec<ClientModule>,
    pub routes: &'a Vec<RouteDef>,
    pub action_routes: &'a Vec<ActionRouteDef>,
    pub mounts: &'a Vec<Mount>,
}

/// What happened outside while an application was put together: opening its
/// record of activity, and compiling the schemas of its actions.
pub struct Outside {
    pub activity: Result<(), String>,
    pub schemas: Result<(), String>,
}

/// What an application serves.
pub struct Composed {
    pub manifest: ExtensionManifest,
    pub providers: Vec<Provider>,
    pub static_dir: String,
    /// Whether browsers are given the person's cookie.
    pub human_cookie: bool,
}

/// The providers, with the connections that the person saved.
pub open spec fn all_providers(providers: Seq<ProviderView>, saved: Seq<SavedView>) -> Result<
    Seq<ProviderView>,
    Seq<char>,
> {
    match connections_among(saved, saved.len()) {
        Err(message) => Err(message),
        Ok(connections) => merged(providers, connections, connections.len()),
    }
}

/// What an application is made of, in contracts.
pub struct CompositionView {
    pub actions: Seq<ActionView>,
    pub modules: Seq<ModuleView>,
    pub routes: Seq<Endpoint>,
    pub action_routes: Seq<Endpoint>,
    /// The actions that the action routes name.
    pub routed_actions: Seq<Seq<char>>,
    pub prefixes: Seq<Seq<char>>,
    /// The directories that are served at the prefixes.
    pub directories: Seq<Seq<char>>,
}

impl<'a> View for Composition<'a> {
    type V = CompositionView;

    open spec fn view(&self) -> CompositionView {
        CompositionView {
            actions: action_views(self.actions@),
            modules: module_views(self.modules@),
            routes: route_endpoints(self.routes@),
            action_routes: action_route_endpoints(self.action_routes@),
            routed_actions: action_route_actions(self.action_routes@),
            prefixes: mount_prefixes(self.mounts@),
            directories: mount_directories(self.mounts@),
        }
    }
}

/// Why an application cannot be put together.
pub open spec fn composition_problem(
    parts: CompositionView,
    outside: Outside,
    providers: Seq<ProviderView>,
    saved: Seq<SavedView>,
    prompt: bool,
    static_dir: bool,
) -> Option<AppErrorView> {
    let manifest = manifest_problem(parts.modules, human_actions(parts.actions));
    if outside.activity is Err {
        Some(AppErrorView::InvalidConfiguration(outside.activity->Err_0@))
    } else if outside.schemas is Err {
        Some(AppErrorView::InvalidConfiguration(outside.schemas->Err_0@))
    } else if manifest is Some {
        Some(AppErrorView::InvalidConfiguration("invalid client module: "@ + manifest->0))
    } else {
        match all_providers(providers, saved) {
            Err(message) => Some(AppErrorView::InvalidConfiguration(message)),
            Ok(list) => if !prompt {
                Some(
                    AppErrorView::MissingConfiguration(
                        "App::prompt(...) is required: your agent's persona/method"@,
                    ),
                )
            } else if list.len() == 0 {
                Some(AppErrorView::InvalidConfiguration("no providers configured"@))
            } else if !static_dir {
                Some(AppErrorView::MissingConfiguration("App::static_dir(...) is required"@))
            } else {
                invalid(
                    layout_problem(
                        parts.routes,
                        parts.action_routes,
                        parts.routed_actions,
                        parts.actions,
                        parts.prefixes,
                    ),
                )
            },
        }
    }
}

/// Puts an application together.
pub fn compose(
    parts: &Composition,
    outside: Outside,
    providers: Vec<Provider>,
    saved: Vec<SavedEntry>,
    prompt: bool,
    static_dir: Option<String>,
) -> (result: Result<Composed, AppError>)
    ensures
        fails_with(
            result,
            composition_problem(
                parts@,
                outside,
                provider_views(providers@),
                saved_views(saved@),
                prompt,
                static_dir is Some,
            ),
        ),
        result matches Ok(composed) ==> {
            &&& composed.manifest@ == manifest_of(parts@.modules, human_actions(parts@.actions))
            &&& all_providers(provider_views(providers@), saved_views(saved@)) == Ok::<
                Seq<ProviderView>,
                Seq<char>,
            >(provider_views(composed.providers@))
            &&& Some(composed.static_dir@) == opt_text(static_dir)
            &&& composed.human_cookie == crate::actions::any_human(parts@.actions)
        },
{
    match outside.activity {
        Ok(()) => {},
        Err(message) => {
            return Err(AppError::InvalidConfiguration(message));
        },
    }
    match outside.schemas {
        Ok(()) => {},
        Err(message) => {
            return Err(AppError::InvalidConfiguration(message));
        },
    }
    let manifest: ExtensionManifest = match ExtensionManifest::from_surface(
        parts.modules,
        parts.actions,
    ) {
        Ok(manifest) => manifest,
        Err(message) => {
            return Err(
                AppError::InvalidConfiguration(concat2("invalid client module: ", &message)),
            );
        },
    };
    let connections: Vec<Provider> = match saved_connections(saved) {
        Ok(connections) => connections,
        Err(message) => {
            return Err(AppError::InvalidConfiguration(message));
        },
    };
    let providers: Vec<Provider> = match merge_connections(providers, connections) {
        Ok(providers) => providers,
        Err(message) => {
            return Err(AppError::InvalidConfiguration(message));
        },
    };
    if !prompt {
        return Err(
            AppError::MissingConfiguration(
                "App::prompt(...) is required: your agent's persona/method",
            ),
        );
    }
    if providers.len() == 0 {
        return Err(AppError::InvalidConfiguration("no providers configured".to_owned()));
    }
    let static_dir: String = match static_dir {
        Some(dir) => dir,
        None => {
            return Err(AppError::MissingConfiguration("App::static_dir(...) is required"));
        },
    };
    match validate_http_layout(parts.routes, parts.action_routes, parts.actions, parts.mounts) {
        Ok(()) => {},
        Err(message) => {
            return Err(AppError::InvalidConfiguration(message));
        },
    }
    let human_cookie: bool = needs_human_route_cookie(parts.actions);
    Ok(Composed { manifest, providers, static_dir, human_cookie })
}

// The directories.

/// What stands at a path.
#[derive(Debug, PartialEq, Eq)]
pub enum PathFact {
    /// It cannot be looked at, and why.
    Unreadable(String),
    Directory,
    /// A file, and why it cannot be opened, where it cannot be.
    File(Option<String>),
    Other,
}

/// Why a directory cannot be served.
pub open spec fn directory_problem(label: Seq<char>, path: Seq<char>, fact: PathFact) -> Option<
    Seq<char>,
> {
    if path.len() == 0 {
        Some(label + " must not be empty"@)
    } else {
        match fact {
            PathFact::Unreadable(error) => Some(
                label + " "@ + path + (" cannot be read: "@ + error@),
            ),
            PathFact::Directory => None,
            _ => Some(label + " "@ + path + " is not a directory"@),
        }
    }
}

fn check_directory(label: &str, path: &str, fact: &PathFact) -> (outcome: Result<(), String>)
    ensures
        reports(outcome, directory_problem(label@, path@, *fact)),
{
    if path.is_empty() {
        return Err(concat2(label, " must not be empty"));
    }
    match fact {
        PathFact::Unreadable(error) => Err(
            concat4(label, " ", path, &concat2(" cannot be read: ", error)),
        ),
        PathFact::Directory => Ok(()),
        _ => Err(concat4(label, " ", path, " is not a directory")),
    }
}

/// Why a file cannot be served.
pub open spec fn file_problem(label: Seq<char>, path: Seq<char>, fact: PathFact) -> Option<
    Seq<char>,
> {
    match fact {
        PathFact::Unreadable(error) => Some(label + " "@ + path + (" cannot be read: "@ + error@)),
        PathFact::File(None) => None,
        PathFact::File(Some(error)) => Some(
            label + " "@ + path + (" cannot be opened: "@ + error@),
        ),
        _ => Some(label + " "@ + path + " is not a regular file"@),
    }
}

fn check_file(label: &str, path: &str, fact: &PathFact) -> (outcome: Result<(), String>)
    ensures
        reports(outcome, file_problem(label@, path@, *fact)),
{
    match fact {
        PathFact::Unreadable(error) => Err(
            concat4(label, " ", path, &concat2(" cannot be read: ", error)),
        ),
        PathFact::File(None) => Ok(()),
        PathFact::File(Some(error)) => Err(
            concat4(label, " ", path, &concat2(" cannot be opened: ", error)),
        ),
        _ => Err(concat4(label, " ", path, " is not a regular file")),
    }
}

/// Why a mount's directory cannot be served.
pub open spec fn mounted_problem(mounts: Seq<Mount>, facts: Seq<PathFact>, i: int) -> Option<
    Seq<char>,
> {
    directory_problem(
        "static mount "@ + debug_text(mounts[i].prefix@),
        mounts[i].dir@,
        facts[i],
    )
}

/// What stands at the paths that an application serves from.
pub struct ServedPaths {
    pub static_dir: PathFact,
    /// The page itself, in the static directory.
    pub entry: PathFact,
    pub pkg_dir: PathFact,
    pub mounts: Vec<PathFact>,
}

/// Why the directories cannot be served.
pub open spec fn directories_problem(
    static_dir: Seq<char>,
    pkg_dir: Option<Seq<char>>,
    mounts: Seq<Mount>,
    facts: ServedPaths,
) -> Option<Seq<char>> {
    or_else(
        directory_problem("static directory"@, static_dir, facts.static_dir),
        or_else(
            file_problem("static entry"@, under(static_dir, "index.html"@), facts.entry),
            or_else(
                match pkg_dir {
                    Some(dir) => directory_problem("package directory"@, dir, facts.pkg_dir),
                    None => None,
                },
                first_problem(
                    mounts.len(),
                    |i: int| mounted_problem(mounts, facts.mounts@, i),
                ),
            ),
        ),
    )
}

/// Checks that every directory can be served, before anything is.
pub fn validate_static_directories(
    static_dir: &str,
    pkg_dir: Option<&str>,
    mounts: &Vec<Mount>,
    facts: &ServedPaths,
) -> (outcome: Result<(), String>)
    requires
        facts.mounts@.len() == mounts@.len(),
    ensures
        reports(
            outcome,
            directories_problem(static_dir@, opt_str(pkg_dir), mounts@, *facts),
        ),
{
    match check_directory("static directory", static_dir, &facts.static_dir) {
        Ok(()) => {},
        Err(message) => {
            return Err(message);
        },
    }
    match check_file("static entry", &path_under(static_dir, "index.html"), &facts.entry) {
        Ok(()) => {},
        Err(message) => {
            return Err(message);
        },
    }
    match pkg_dir {
        Some(dir) => match check_directory("package directory", dir, &facts.pkg_dir) {
            Ok(()) => {},
            Err(message) => {
                return Err(message);
            },
        },
        None => {},
    }
    check_mounts(mounts, &facts.mounts)
}

fn check_mounts(mounts: &Vec<Mount>, facts: &Vec<PathFact>) -> (outcome: Result<(), String>)
    requires
        facts@.len() == mounts@.len(),
    ensures
        reports(
            outcome,
            first_problem(mounts@.len(), |i: int| mounted_problem(mounts@, facts@, i)),
        ),
{
    let ghost problem = |i: int| mounted_problem(mounts@, facts@, i);
    let mut i: usize = 0;
    while i < mounts.len()
        invariant
            i <= mounts@.len(),
            facts@.len() == mounts@.len(),
            problem == (|i: int| mounted_problem(mounts@, facts@, i)),
            first_problem(i as nat, problem) is None,
        decreases mounts@.len() - i,
    {
        let label: String = concat2("static mount ", &debug_quote(&mounts[i].prefix));
        match check_directory(&label, &mounts[i].dir, &facts[i]) {
            Ok(()) => {
                proof {
                    assert(problem(i as int) is None);
                }
            },
            Err(message) => {
                proof {
                    assert(problem(i as int) == Some(message@));
                    lemma_first_problem_grows((i + 1) as nat, mounts@.len(), problem);
                }
                return Err(message);
            },
        }
        i += 1;
    }
    Ok(())
}

/// Why agents cannot work in a directory.
pub open spec fn workplace_problem(
    named: Result<String, String>,
    canonical: Result<String, String>,
    directory: bool,
) -> Option<Seq<char>> {
    match named {
        Err(error) => Some("failed to resolve default agent working directory: "@ + error@),
        Ok(dir) => if dir@.len() == 0 {
            Some("agent working directory must not be empty"@)
        } else {
            match canonical {
                Err(error) => Some(
                    "agent working directory "@ + dir@ + " cannot be resolved: "@ + error@,
                ),
                Ok(path) => if directory {
                    None
                } else {
                    Some("agent working directory "@ + path@ + " is not a directory"@)
                },
            }
        },
    }
}

/// Where agents work: the directory that was named, or the current one, with its
/// real path. `named` says why there is no current one, `canonical` why the path
/// leads nowhere.
pub fn agent_directory(
    named: Result<String, String>,
    canonical: Result<String, String>,
    directory: bool,
) -> (result: Result<String, AppError>)
    ensures
        fails_with(result, invalid(workplace_problem(named, canonical, directory))),
        result matches Ok(path) ==> canonical matches Ok(resolved) && path@ == resolved@,
{
    let dir: String = match named {
        Ok(dir) => dir,
        Err(error) => {
            return Err(
                AppError::InvalidConfiguration(
                    concat2("failed to resolve default agent working directory: ", &error),
                ),
            );
        },
    };
    if dir.as_str().is_empty() {
        return Err(
            AppError::InvalidConfiguration("agent working directory must not be empty".to_owned()),
        );
    }
    match canonical {
        Err(error) => Err(
            AppError::InvalidConfiguration(
                concat4("agent working directory ", &dir, " cannot be resolved: ", &error),
            ),
        ),
        Ok(path) => if directory {
            Ok(path)
        } else {
            Err(
                AppError::InvalidConfiguration(
                    concat3("agent working directory ", &path, " is not a directory"),
                ),
            )
        },
    }
}

// The address.

/// An address to listen at: its four numbers where it has four, and how it is
/// written.
#[derive(Debug, PartialEq, Eq)]
pub struct ListenAddress {
    pub octets: Option<(u8, u8, u8, u8)>,
    pub text: String,
}

/// Why an application does not listen at an address.
pub open spec fn address_problem(parsed: Result<ListenAddress, String>) -> Option<AppErrorView> {
    match parsed {
        Err(error) => Some(AppErrorView::InvalidAddress(error@)),
        Ok(address) => if address.octets == Some((127u8, 0u8, 0u8, 1u8)) {
            None
        } else {
            Some(
                AppErrorView::InvalidConfiguration(
                    "listen address "@ + address.text@
                        + " is not 127.0.0.1; browser-facing control and credential routes are loopback-only"@,
                ),
            )
        },
    }
}

/// Accepts the one address that an application listens at. `parsed` is the
/// address, or why there is none.
pub fn loopback_socket_addr(parsed: Result<ListenAddress, String>) -> (result: Result<
    ListenAddress,
    AppError,
>)
    ensures
        fails_with(result, address_problem(parsed)),
        result matches Ok(address) ==> parsed == Ok::<ListenAddress, String>(address),
{
    match parsed {
        Err(error) => Err(AppError::InvalidAddress(error)),
        Ok(address) => {
            let local: bool = match address.octets {
                Some((a, b, c, d)) => a == 127 && b == 0 && c == 0 && d == 1,
                None => false,
            };
            if local {
                Ok(address)
            } else {
                Err(
                    AppError::InvalidConfiguration(
                        concat3(
                            "listen address ",
                            &address.text,
                            " is not 127.0.0.1; browser-facing control and credential routes are loopback-only",
                        ),
                    ),
                )
            }
        },
    }
}

// The start.

/// What an application starts with.
pub struct Started {
    pub catalog: Catalog,
    pub provider_id: String,
}

/// Why an application does not start.
pub open spec fn start_problem(
    actions: Seq<ActionView>,
    byok: Result<(), String>,
    providers: Seq<ProviderView>,
    vendor: VendorView,
    preferred: Option<Seq<char>>,
    agui: EnvValue,
    canvas: EnvValue,
) -> Option<AppErrorView> {
    match catalog_problem(actions) {
        Some(message) => Some(
            AppErrorView::InvalidConfiguration("invalid MCP action catalog: "@ + message),
        ),
        None => match byok {
            Err(message) => Some(AppErrorView::InvalidConfiguration(message@)),
            Ok(()) => match environment_choice(providers, vendor, preferred, agui, canvas) {
                Err(message) => Some(AppErrorView::InvalidConfiguration(message)),
                Ok(None) => Some(
                    AppErrorView::InvalidConfiguration("no provider can be selected"@),
                ),
                Ok(Some(_)) => None,
            },
        },
    }
}

/// Starts an application: the catalog for agents, and the provider to begin
/// with.
pub fn start(
    actions: &Vec<ActionDef>,
    byok: Result<(), String>,
    providers: &Vec<Provider>,
    vendor: &Vendor,
    preferred: Option<&str>,
    agui: &EnvValue,
    canvas: &EnvValue,
) -> (result: Result<Started, AppError>)
    ensures
        fails_with(
            result,
            start_problem(
                action_views(actions@),
                byok,
                provider_views(providers@),
                vendor@,
                opt_str(preferred),
                *agui,
                *canvas,
            ),
        ),
        result matches Ok(started) ==> {
            &&& tool_views(started.catalog.tools@) == tools_among(
                action_views(actions@),
                actions@.len(),
            )
            &&& environment_choice(
                provider_views(providers@),
                vendor@,
                opt_str(preferred),
                *agui,
                *canvas,
            ) == Ok::<Option<Seq<char>>, Seq<char>>(Some(started.provider_id@))
        },
{
    let catalog: Catalog = match Catalog::from_actions(actions) {
        Ok(catalog) => catalog,
        Err(message) => {
            return Err(
                AppError::InvalidConfiguration(concat2("invalid MCP action catalog: ", &message)),
            );
        },
    };
    match byok {
        Ok(()) => {},
        Err(message) => {
            return Err(AppError::InvalidConfiguration(message));
        },
    }
    match default_id_with(providers, vendor, preferred, agui, canvas) {
        Err(message) => Err(AppError::InvalidConfiguration(message)),
        Ok(None) => Err(
            AppError::InvalidConfiguration("no provider can be selected".to_owned()),
        ),
        Ok(Some(provider_id)) => Ok(Started { catalog, provider_id }),
    }
}

// The routes.

/// Each of some paths once, where it first stands.
pub open spec fn distinct(paths: Seq<Seq<char>>) -> Seq<Seq<char>>
    decreases paths.len(),
{
    if paths.len() == 0 {
        Seq::empty()
    } else if paths.drop_last().contains(paths.last()) {
        distinct(paths.drop_last())
    } else {
        distinct(paths.drop_last()).push(paths.last())
    }
}

proof fn lemma_distinct(paths: Seq<Seq<char>>)
    ensures
        forall|path: Seq<char>| #[trigger] distinct(paths).contains(path) <==> paths.contains(path),
    decreases paths.len(),
{
    if paths.len() > 0 {
        let rest = paths.drop_last();
        lemma_distinct(rest);
        assert forall|path: Seq<char>| #[trigger] distinct(paths).contains(path)
            <==> paths.contains(path) by {
            if paths.contains(path) {
                let k = choose|k: int| 0 <= k < paths.len() && paths[k] == path;
                if k < rest.len() {
                    assert(rest[k] == path);
                }
                if rest.contains(path) {
                    assert(distinct(rest).contains(path));
                    let m = choose|m: int| 0 <= m < distinct(rest).len() && distinct(rest)[m] == path;
                    assert(distinct(paths)[m] == path);
                } else {
                    assert(path == paths.last());
                    assert(distinct(paths).last() == path);
                }
            }
            if distinct(paths).contains(path) {
                let m = choose|m: int| 0 <= m < distinct(paths).len() && distinct(paths)[m] == path;
                if m < distinct(rest).len() {
                    assert(distinct(rest)[m] == path);
                    assert(distinct(rest).contains(path));
                    assert(rest.contains(path));
                    let k = choose|k: int| 0 <= k < rest.len() && rest[k] == path;
                    assert(paths[k] == path);
                } else {
                    assert(path == paths.last());
                    assert(paths[paths.len() - 1] == path);
                }
            }
        }
    }
}

/// The paths of some routes, each once: a router takes all methods of a path
/// together.
pub fn distinct_paths(paths: &Vec<String>) -> (result: Vec<String>)
    ensures
        texts(result@) == distinct(texts(paths@)),
        forall|path: Seq<char>| #[trigger]
            texts(result@).contains(path) <==> texts(paths@).contains(path),
{
    let ghost all = texts(paths@);
    let mut result: Vec<String> = Vec::new();
    let mut i: usize = 0;
    proof {
        assert(texts(result@) =~= distinct(all.take(0)));
    }
    while i < paths.len()
        invariant
            i <= paths@.len(),
            all == texts(paths@),
            texts(result@) == distinct(all.take(i as int)),
        decreases paths@.len() - i,
    {
        let ghost before = result@;
        proof {
            assert(all.take(i + 1).drop_last() =~= all.take(i as int));
            assert(all.take(i + 1).last() == paths@[i as int]@);
            lemma_distinct(all.take(i as int));
            assert(distinct(all.take(i as int)).contains(paths@[i as int]@) <==> all.take(
                i as int,
            ).contains(paths@[i as int]@));
        }
        if !list_contains(&result, &paths[i]) {
            result.push(paths[i].clone());
            proof {
                assert(texts(result@) =~= texts(before).push(all[i as int]));
            }
        }
        i += 1;
    }
    proof {
        assert(all.take(i as int) =~= all);
        lemma_distinct(all);
    }
    result
}

/// Whether a surface's route begins a mission: the runtime starts a turn after
/// the surface has accepted it.
pub fn is_mission_post(route: &RouteDef) -> (result: bool)
    ensures
        result == (route.path@ == "/mission"@ && route.method is Post),
{
    same(&route.path, "/mission") && route.method == HttpMethod::Post
}

// Laws.

/// An application starts only with a provider that it has.
pub proof fn law_an_application_starts_with_a_provider_that_it_has(
    actions: Seq<ActionView>,
    byok: Result<(), String>,
    providers: Seq<ProviderView>,
    vendor: VendorView,
    preferred: Option<Seq<char>>,
    agui: EnvValue,
    canvas: EnvValue,
)
    requires
        start_problem(actions, byok, providers, vendor, preferred, agui, canvas) is None,
    ensures
        environment_choice(providers, vendor, preferred, agui, canvas) matches Ok(Some(id))
            && registered(providers, id),
{
    let named = match agui {
        EnvValue::Text(id) => Some(("AGUI_PROVIDER"@, id@)),
        _ => match canvas {
            EnvValue::Text(id) => Some(("CANVAS_PROVIDER"@, id@)),
            _ => None,
        },
    };
    law_explicit_selection_never_falls_through(providers, vendor, preferred, named);
}

/// Saved connections never replace a provider: those that were configured stay
/// where they are, and ids stay distinct.
pub proof fn law_saved_connections_replace_nothing(
    providers: Seq<ProviderView>,
    connections: Seq<ProviderView>,
    n: nat,
)
    requires
        n <= connections.len(),
        distinct_ids(providers),
        merged(providers, connections, n) is Ok,
    ensures
        ({
            let list = merged(providers, connections, n)->Ok_0;
            &&& distinct_ids(list)
            &&& list == providers + connections.take(n as int)
        }),
    decreases n,
{
    if n == 0 {
        assert(providers + connections.take(0) =~= providers);
    } else {
        law_saved_connections_replace_nothing(providers, connections, (n - 1) as nat);
        let list = merged(providers, connections, (n - 1) as nat)->Ok_0;
        let next = connections[n - 1];
        assert(!registered(list, next.id));
        assert(list.push(next) =~= providers + connections.take(n as int));
        assert forall|i: int, j: int| 0 <= i < j < list.push(next).len() implies (
        #[trigger] list.push(next)[i]).id != (#[trigger] list.push(next)[j]).id by {
            if j == list.len() {
                assert(list[i].id != next.id);
            }
        }
    }
}

/// Each path is routed once.
pub proof fn law_each_path_is_routed_once(paths: Seq<Seq<char>>)
    ensures
        distinct(paths).no_duplicates(),
    decreases paths.len(),
{
    if paths.len() > 0 {
        let rest = paths.drop_last();
        law_each_path_is_routed_once(rest);
        lemma_distinct(rest);
        if !rest.contains(paths.last()) {
            assert(!distinct(rest).contains(paths.last()));
            assert forall|i: int, j: int|
                0 <= i < distinct(paths).len() && 0 <= j < distinct(paths).len() && i
                    != j implies distinct(paths)[i] != distinct(paths)[j] by {
                let known = distinct(rest);
                if i < known.len() && j < known.len() {
                    assert(known[i] != known[j]);
                } else if i < known.len() {
                    assert(known.contains(known[i]));
                } else {
                    assert(known.contains(known[j]));
                }
            }
        }
    }
}

} // verus!
