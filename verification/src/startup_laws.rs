//! What an application needs to start, and what it is once it has.

use vstd::prelude::*;

use crate::actions::ActionView;
use crate::attention::install_problem;
use crate::launch::{
    launch_problem, launched, launched_providers, made_of, workplace, App, Launched, World,
};
use crate::lists::lemma_no_problem;
use crate::providers::{
    distinct_ids, provider_views, registered, EnvValue, ProviderView, SavedView, VendorView,
};
use crate::startup::{
    address_problem, all_providers, composition_problem, directories_problem, directory_problem,
    distinct, fails_with, file_problem, installed_actions,
    law_an_application_starts_with_a_provider_that_it_has, law_saved_connections_replace_nothing,
    merged, mounted_problem, parts_problem, parts_view, start_problem, workplace_problem, AppError,
    AppErrorView, CompositionView, ListenAddress, Outside, PathFact, ServedPaths,
};
use crate::text::opt_text;
use crate::text_laws::{lemma_mentions, mentions};

verus! {

// Errors.

/// An error says what it was made with, and every error but that of a missing
/// part says before it what kind it is.
pub proof fn law_an_error_says_what_is_wrong(error: AppErrorView, message: Seq<char>)
    requires
        error == AppErrorView::MissingConfiguration(message) || error
            == AppErrorView::InvalidConfiguration(message) || error == AppErrorView::InvalidAddress(
            message,
        ) || error == AppErrorView::Bind(message) || error == AppErrorView::Serve(message),
    ensures
        message.is_suffix_of(error.text()),
        error is MissingConfiguration <==> error.text() == message,
{
    reveal_strlit("invalid application configuration: ");
    reveal_strlit("invalid listen address: ");
    reveal_strlit("failed to bind HTTP listener: ");
    reveal_strlit("HTTP server failed: ");
    let text = error.text();
    assert(text.subrange(text.len() - message.len(), text.len() as int) =~= message);
}

/// A step succeeds exactly where nothing is wrong, and otherwise fails with what
/// is wrong.
pub proof fn law_a_step_fails_for_its_problem<T>(
    outcome: Result<T, AppError>,
    problem: Option<AppErrorView>,
)
    requires
        fails_with(outcome, problem),
    ensures
        outcome is Ok <==> problem is None,
        outcome matches Err(error) ==> problem == Some(error@),
{
}

// The parts.

/// An application has its parts exactly where it has a surface that can be
/// installed, providers and a store of credentials.
pub proof fn law_an_application_needs_its_parts(
    surface: Option<(Seq<Seq<char>>, Seq<ActionView>)>,
    providers: bool,
    auth: bool,
)
    ensures
        parts_problem(surface, providers, auth) is None <==> {
            &&& surface matches Some((namespaces, actions)) && install_problem(
                namespaces,
                actions,
            ) is None
            &&& providers
            &&& auth
        },
        surface is None ==> (parts_problem(surface, providers, auth)->0 is MissingConfiguration),
        surface matches Some((namespaces, actions)) ==> (install_problem(namespaces, actions)
            matches Some(message) ==> parts_problem(surface, providers, auth) == Some(
            AppErrorView::InvalidConfiguration(message),
        )),
{
}

/// An application has the actions of its surface, first and in their order, and
/// no others where the surface has no targets.
pub proof fn law_an_application_has_its_surfaces_actions(
    namespaces: Seq<Seq<char>>,
    actions: Seq<ActionView>,
)
    ensures
        actions.is_prefix_of(installed_actions(namespaces, actions)),
        installed_actions(namespaces, actions).len() == actions.len() <==> (namespaces.len() == 0
            || crate::attention::host_action_views().len() == 0),
{
    let all = installed_actions(namespaces, actions);
    assert(all.subrange(0, actions.len() as int) =~= actions);
}

// The providers.

/// Saved connections are taken up behind the providers exactly where each has an
/// id that nothing before it has, and the first that has not is named.
pub proof fn law_a_saved_connection_needs_an_id_of_its_own(
    providers: Seq<ProviderView>,
    connections: Seq<ProviderView>,
    n: nat,
)
    requires
        n <= connections.len(),
    ensures
        merged(providers, connections, n) is Ok <==> forall|k: int|
            0 <= k < n ==> !registered(
                providers + connections.take(k),
                (#[trigger] connections[k]).id,
            ),
        merged(providers, connections, n) matches Ok(list) ==> list == providers
            + connections.take(n as int),
        merged(providers, connections, n) matches Err(message) ==> exists|k: int|
            0 <= k < n && registered(
                providers + connections.take(k),
                (#[trigger] connections[k]).id,
            ) && mentions(message, connections[k].id),
    decreases n,
{
    if n == 0 {
        assert(providers + connections.take(0) =~= providers);
    } else {
        let m = (n - 1) as nat;
        law_a_saved_connection_needs_an_id_of_its_own(providers, connections, m);
        let next = connections[n - 1];
        match merged(providers, connections, m) {
            Ok(list) => {
                assert(list == providers + connections.take(n - 1));
                assert(list.push(next) =~= providers + connections.take(n as int));
                if registered(list, next.id) {
                    let message = merged(providers, connections, n)->Err_0;
                    lemma_mentions(
                        message,
                        "saved connection id `"@,
                        next.id,
                        "` collides with a configured provider"@,
                    );
                }
            },
            Err(message) => {
                let k = choose|k: int|
                    0 <= k < m && registered(
                        providers + connections.take(k),
                        (#[trigger] connections[k]).id,
                    ) && mentions(message, connections[k].id);
                assert(registered(providers + connections.take(k), connections[k].id));
            },
        }
    }
}

// What is served.

/// A directory can be served exactly where its path is not empty and a directory
/// is there; otherwise the message begins with what it was for, and says where
/// it was looked for and why it could not be read.
pub proof fn law_a_served_directory_is_there(label: Seq<char>, path: Seq<char>, fact: PathFact)
    ensures
        directory_problem(label, path, fact) is None <==> path.len() > 0 && fact is Directory,
        directory_problem(label, path, fact) matches Some(message) ==> {
            &&& label.is_prefix_of(message)
            &&& mentions(message, path)
            &&& path.len() > 0 ==> (fact matches PathFact::Unreadable(error) ==> (error@).is_suffix_of(
                message,
            ))
        },
{
    if let Some(message) = directory_problem(label, path, fact) {
        assert(message.subrange(0, label.len() as int) =~= label);
        if path.len() == 0 {
            lemma_mentions(message, message, path, Seq::empty());
        } else {
            match fact {
                PathFact::Unreadable(error) => {
                    lemma_mentions(message, label + " "@, path, " cannot be read: "@ + error@);
                    assert(message.subrange(message.len() - error@.len(), message.len() as int)
                        =~= error@);
                },
                _ => {
                    lemma_mentions(message, label + " "@, path, " is not a directory"@);
                },
            }
        }
    }
}

/// A file can be served exactly where one is there that can be opened; otherwise
/// the message begins with what it was for, and says where it was looked for and
/// what went wrong.
pub proof fn law_a_served_file_can_be_opened(label: Seq<char>, path: Seq<char>, fact: PathFact)
    ensures
        file_problem(label, path, fact) is None <==> fact == PathFact::File(None),
        file_problem(label, path, fact) matches Some(message) ==> {
            &&& label.is_prefix_of(message)
            &&& mentions(message, path)
            &&& fact matches PathFact::Unreadable(error) ==> (error@).is_suffix_of(message)
            &&& fact matches PathFact::File(Some(error)) ==> (error@).is_suffix_of(message)
        },
{
    if let Some(message) = file_problem(label, path, fact) {
        assert(message.subrange(0, label.len() as int) =~= label);
        match fact {
            PathFact::Unreadable(error) => {
                lemma_mentions(message, label + " "@, path, " cannot be read: "@ + error@);
                assert(message.subrange(message.len() - error@.len(), message.len() as int)
                    =~= error@);
            },
            PathFact::File(Some(error)) => {
                lemma_mentions(message, label + " "@, path, " cannot be opened: "@ + error@);
                assert(message.subrange(message.len() - error@.len(), message.len() as int)
                    =~= error@);
            },
            _ => {
                lemma_mentions(message, label + " "@, path, " is not a regular file"@);
            },
        }
    }
}

/// An application serves its files exactly where the static directory, the page
/// in it, the package directory where there is one, and the directory of every
/// mount are there.
pub proof fn law_everything_that_is_served_is_there(
    static_dir: Seq<char>,
    pkg_dir: Option<Seq<char>>,
    mounts: Seq<crate::http::Mount>,
    facts: ServedPaths,
)
    ensures
        directories_problem(static_dir, pkg_dir, mounts, facts) is None <==> {
            &&& static_dir.len() > 0 && facts.static_dir is Directory
            &&& facts.entry == PathFact::File(None)
            &&& pkg_dir matches Some(dir) ==> dir.len() > 0 && facts.pkg_dir is Directory
            &&& forall|i: int|
                0 <= i < mounts.len() ==> (#[trigger] mounts[i]).dir@.len() > 0
                    && facts.mounts@[i] is Directory
        },
{
    let problem = |i: int| mounted_problem(mounts, facts.mounts@, i);
    lemma_no_problem(mounts.len(), problem);
    if forall|i: int| 0 <= i < mounts.len() ==> (#[trigger] problem(i)) is None {
        assert forall|i: int| 0 <= i < mounts.len() implies (#[trigger] mounts[i]).dir@.len() > 0
            && facts.mounts@[i] is Directory by {
            assert(problem(i) is None);
        }
    } else {
        let i = choose|i: int| 0 <= i < mounts.len() && (#[trigger] problem(i)) is Some;
        assert(!(mounts[i].dir@.len() > 0 && facts.mounts@[i] is Directory));
    }
}

/// Agents work in a directory exactly where one is named, its path leads
/// somewhere and a directory is there; a named directory counts before the
/// current one.
pub proof fn law_agents_work_in_a_directory(
    named: Result<String, String>,
    canonical: Result<String, String>,
    directory: bool,
)
    ensures
        workplace_problem(named, canonical, directory) is None <==> {
            &&& named matches Ok(dir) && dir@.len() > 0
            &&& canonical is Ok
            &&& directory
        },
        named matches Err(error) ==> (error@).is_suffix_of(
            workplace_problem(named, canonical, directory)->0,
        ),
        named matches Ok(dir) ==> (dir@.len() > 0 ==> (canonical matches Err(error) ==> ({
            let message = workplace_problem(named, canonical, directory)->0;
            mentions(message, dir@) && (error@).is_suffix_of(message)
        }))),
{
    if let Some(message) = workplace_problem(named, canonical, directory) {
        match named {
            Err(error) => {
                assert(message.subrange(message.len() - error@.len(), message.len() as int)
                    =~= error@);
            },
            Ok(dir) => {
                if dir@.len() > 0 && canonical is Err {
                    let error = canonical->Err_0@;
                    assert(message =~= "agent working directory "@ + dir@ + (
                    " cannot be resolved: "@ + error));
                    lemma_mentions(
                        message,
                        "agent working directory "@,
                        dir@,
                        " cannot be resolved: "@ + error,
                    );
                    assert(message.subrange(message.len() - error.len(), message.len() as int)
                        =~= error);
                }
            },
        }
    }
}

/// A directory that is named for agents is the one they work in, whatever the
/// current one is; without one they work in the current one.
pub proof fn law_a_named_directory_comes_before_the_current_one(
    app: App,
    world: World,
    other: World,
)
    ensures
        app.agent_cwd matches Some(dir) ==> workplace(app, world) == Ok::<String, String>(dir),
        app.agent_cwd is Some ==> workplace(app, world) == workplace(app, other),
        app.agent_cwd is None ==> workplace(app, world) == world.current_dir,
{
}

/// An application listens at an address exactly where it is that of this machine
/// alone, and a refused address is named.
pub proof fn law_an_application_listens_to_this_machine_alone(
    parsed: Result<ListenAddress, String>,
)
    ensures
        address_problem(parsed) is None <==> (parsed matches Ok(address) && address.octets == Some(
            (127u8, 0u8, 0u8, 1u8),
        )),
        parsed matches Err(error) ==> address_problem(parsed) == Some(
            AppErrorView::InvalidAddress(error@),
        ),
        address_problem(parsed) is Some ==> (parsed matches Ok(address) ==> mentions(
            (address_problem(parsed)->0).text(),
            address.text@,
        )),
{
    if address_problem(parsed) is Some && parsed is Ok {
        let text = (address_problem(parsed)->0).text();
        let head = "invalid application configuration: "@ + "listen address "@;
        let tail =
            " is not 127.0.0.1; browser-facing control and credential routes are loopback-only"@;
        assert(text =~= head + (parsed->Ok_0).text@ + tail);
        lemma_mentions(text, head, (parsed->Ok_0).text@, tail);
    }
}

/// Routed paths keep their order: those of the first routes come first.
pub proof fn law_routed_paths_keep_their_order(paths: Seq<Seq<char>>, more: Seq<Seq<char>>)
    ensures
        distinct(paths).is_prefix_of(distinct(paths + more)),
        more.len() == 1 ==> (distinct(paths + more) == distinct(paths) <==> paths.contains(more[0])),
    decreases more.len(),
{
    let all = paths + more;
    if more.len() == 0 {
        assert(all =~= paths);
    } else {
        let less = more.drop_last();
        law_routed_paths_keep_their_order(paths, less);
        assert(all.drop_last() =~= paths + less);
        let known = distinct(paths + less);
        assert(distinct(all).subrange(0, distinct(paths).len() as int) =~= known.subrange(
            0,
            distinct(paths).len() as int,
        ));
        if more.len() == 1 {
            assert(paths + less =~= paths);
            assert(all.last() == more[0]);
            if !paths.contains(more[0]) {
                assert(distinct(all).len() == distinct(paths).len() + 1);
            }
        }
    }
}

// The start.

/// An application is put together exactly where its record of activity and its
/// schemas could be made, its modules make a manifest, its providers have ids of
/// their own and are not none, it has a prompt and a static directory, and its
/// layout has no conflict.
pub proof fn law_an_application_is_put_together_whole(
    parts: CompositionView,
    outside: Outside,
    providers: Seq<ProviderView>,
    saved: Seq<SavedView>,
    prompt: bool,
    static_dir: bool,
)
    ensures
        composition_problem(parts, outside, providers, saved, prompt, static_dir) is None <==> {
            &&& outside.activity is Ok && outside.schemas is Ok
            &&& crate::client_module::manifest_problem(
                parts.modules,
                crate::client_module::human_actions(parts.actions),
            ) is None
            &&& all_providers(providers, saved) matches Ok(list) && list.len() > 0
            &&& prompt && static_dir
            &&& crate::http::layout_problem(
                parts.routes,
                parts.action_routes,
                parts.routed_actions,
                parts.actions,
                parts.prefixes,
            ) is None
        },
        outside.activity matches Err(error) ==> composition_problem(
            parts,
            outside,
            providers,
            saved,
            prompt,
            static_dir,
        ) == Some(AppErrorView::InvalidConfiguration(error@)),
{
}

/// An application starts exactly where its actions make a catalog, the person's
/// own endpoint can be used, and a provider can be chosen.
pub proof fn law_an_application_starts_with_a_catalog_and_a_provider(
    actions: Seq<ActionView>,
    byok: Result<(), String>,
    providers: Seq<ProviderView>,
    vendor: VendorView,
    preferred: Option<Seq<char>>,
    agui: EnvValue,
    canvas: EnvValue,
)
    ensures
        start_problem(actions, byok, providers, vendor, preferred, agui, canvas) is None <==> {
            &&& crate::mcp::catalog_problem(actions) is None
            &&& byok is Ok
            &&& crate::providers::environment_choice(
                providers,
                vendor,
                preferred,
                agui,
                canvas,
            ) matches Ok(Some(id)) && registered(providers, id)
        },
        start_problem(actions, byok, providers, vendor, preferred, agui, canvas) is Some ==> (
        start_problem(actions, byok, providers, vendor, preferred, agui, canvas)->0
            is InvalidConfiguration),
{
    if start_problem(actions, byok, providers, vendor, preferred, agui, canvas) is None {
        law_an_application_starts_with_a_provider_that_it_has(
            actions,
            byok,
            providers,
            vendor,
            preferred,
            agui,
            canvas,
        );
    }
}

/// An application that starts has its surface's actions first, one extension for
/// each of its modules, its own providers first and with ids of their own, a
/// provider to begin with that is among them, and listens to this machine alone.
pub proof fn law_a_started_application_is_what_was_configured(
    app: App,
    world: World,
    vendor: VendorView,
    ready: Launched,
)
    requires
        launch_problem(app, world, vendor) is None,
        launched(app, world, vendor, ready),
        distinct_ids(provider_views((app.providers->0).0@)),
    ensures
        app.surface is Some && (parts_view(app.surface)->0).1.is_prefix_of(
            crate::actions::action_views(ready.actions@),
        ),
        ready.manifest@.extensions.len() == app.pages.modules@.len(),
        forall|i: int|
            0 <= i < app.pages.modules@.len() ==> (#[trigger] ready.manifest@.extensions[i]).id
                == app.pages.modules@[i].id@,
        provider_views((app.providers->0).0@).is_prefix_of(provider_views(ready.providers@)),
        distinct_ids(provider_views(ready.providers@)),
        registered(provider_views(ready.providers@), ready.provider_id@),
        ready.address.octets == Some((127u8, 0u8, 0u8, 1u8)),
        world.address == Ok::<ListenAddress, String>(ready.address),
        opt_text(app.static_dir) == Some(ready.static_dir@),
        world.canonical_dir matches Ok(path) && ready.directory@ == path@,
{
    let own = provider_views((app.providers->0).0@);
    let (namespaces, actions) = parts_view(app.surface)->0;
    law_an_application_has_its_surfaces_actions(namespaces, actions);
    let saved = crate::providers::saved_views(world.saved@);
    let connections = crate::providers::connections_among(saved, saved.len())->Ok_0;
    law_saved_connections_replace_nothing(own, connections, connections.len());
    let list = launched_providers(app, world);
    assert(list.subrange(0, own.len() as int) =~= own);
    law_an_application_starts_with_a_provider_that_it_has(
        made_of(app).actions,
        world.byok,
        list,
        vendor,
        opt_text(app.default_provider),
        world.agui,
        world.canvas,
    );
}

} // verus!
