//! An application, from its parts to its start.

use vstd::prelude::*;

use crate::actions::{action_views, ActionDef};
use crate::attention::{check_install, Installation};
use crate::awareness::{new_service, SemanticTargetService};
use crate::client_module::{
    all_assets, asset_problem, asset_views, extension_assets, human_actions, manifest_of,
    module_views, validate_extension_assets, Asset, AssetView, ClientModule, DescriptorView,
    ExtensionManifest,
};
use crate::http::{
    action_route_actions, action_route_endpoints, mount_directories, mount_prefixes,
    route_endpoints, ActionRouteDef, Mount, RouteDef,
};
use crate::json::text_or;
use crate::lists::first_problem;
use crate::mcp::{tool_views, tools_among, Catalog};
use crate::providers::{
    environment_choice, provider_views, saved_views, EnvValue, Provider, ProviderView, Providers,
    SavedEntry, Vendor, VendorView,
};
use crate::startup::{
    address_problem, agent_directory, all_providers, compose, composition_problem, configure,
    directories_problem, fails_with, first_error, installed_actions, invalid, loopback_socket_addr,
    parts_problem, parts_view, start, start_problem, validate_static_directories,
    workplace_problem, AppError, AppErrorView, Composed, Composition, CompositionView, Configured,
    Hitl, ListenAddress, Outside, ServedPaths, Started, SurfaceParts,
};
use crate::text::{list_contains, opt_text, texts};

verus! {

/// What a surface serves to browsers.
pub struct Pages {
    pub modules: Vec<ClientModule>,
    pub routes: Vec<RouteDef>,
    pub action_routes: Vec<ActionRouteDef>,
}

/// An application that is being put together.
pub struct App {
    pub surface: Option<SurfaceParts>,
    pub pages: Pages,
    pub providers: Option<Providers>,
    pub default_provider: Option<String>,
    /// Whether it has a store of credentials.
    pub auth: bool,
    /// Where its record is kept, if not beside the credentials.
    pub activity_path: Option<String>,
    pub prompt: Option<String>,
    pub voice: bool,
    pub hitl: Hitl,
    pub static_dir: Option<String>,
    pub pkg_dir: Option<String>,
    pub agent_cwd: Option<String>,
    pub mounts: Vec<Mount>,
}

impl App {
    /// An application with nothing in it.
    pub fn new() -> (app: App)
        ensures
            app.surface is None,
            app.pages.modules@.len() == 0,
            app.pages.routes@.len() == 0,
            app.pages.action_routes@.len() == 0,
            app.providers is None,
            app.default_provider is None,
            !app.auth,
            app.activity_path is None,
            app.prompt is None,
            !app.voice,
            app.hitl == (Hitl { barge_in: false, decisions: false, focus: false }),
            app.static_dir is None,
            app.pkg_dir is None,
            app.agent_cwd is None,
            app.mounts@.len() == 0,
    {
        App {
            surface: None,
            pages: Pages { modules: Vec::new(), routes: Vec::new(), action_routes: Vec::new() },
            providers: None,
            default_provider: None,
            auth: false,
            activity_path: None,
            prompt: None,
            voice: false,
            hitl: Hitl::none(),
            static_dir: None,
            pkg_dir: None,
            agent_cwd: None,
            mounts: Vec::new(),
        }
    }

    /// Gives it a surface and what the surface serves.
    pub fn surface(self, parts: SurfaceParts, pages: Pages) -> (app: App)
        ensures
            app == (App { surface: Some(parts), pages, ..self }),
    {
        let mut app: App = self;
        app.surface = Some(parts);
        app.pages = pages;
        app
    }

    /// Gives it a surface that may have failed to come up.
    pub fn try_surface(self, made: Result<(SurfaceParts, Pages), String>) -> (result: Result<
        App,
        String,
    >)
        ensures
            match made {
                Ok((parts, pages)) => result == Ok::<App, String>(
                    App { surface: Some(parts), pages, ..self },
                ),
                Err(error) => result == Err::<App, String>(error),
            },
    {
        match made {
            Ok((parts, pages)) => Ok(self.surface(parts, pages)),
            Err(error) => Err(error),
        }
    }

    /// Gives it providers.
    pub fn providers(self, providers: Providers) -> (app: App)
        ensures
            app == (App { providers: Some(providers), ..self }),
    {
        let mut app: App = self;
        app.providers = Some(providers);
        app
    }

    /// Names the provider to begin with where the environment names none.
    pub fn default_provider(self, id: String) -> (app: App)
        ensures
            app == (App { default_provider: Some(id), ..self }),
    {
        let mut app: App = self;
        app.default_provider = Some(id);
        app
    }

    /// Says that it has a store of credentials.
    pub fn auth(self) -> (app: App)
        ensures
            app == (App { auth: true, ..self }),
    {
        let mut app: App = self;
        app.auth = true;
        app
    }

    /// Names the place of the record of what happens.
    pub fn activity_store(self, path: String) -> (app: App)
        ensures
            app == (App { activity_path: Some(path), ..self }),
    {
        let mut app: App = self;
        app.activity_path = Some(path);
        app
    }

    /// Where the record is kept: at the place that was named, or else beside the
    /// credentials.
    pub fn activity_place(&self, beside_credentials: &str) -> (path: String)
        ensures
            path@ == text_or(opt_text(self.activity_path), beside_credentials@),
    {
        match &self.activity_path {
            Some(path) => path.clone(),
            None => beside_credentials.to_owned(),
        }
    }

    /// Whether the parts are there that an application cannot do without. This
    /// comes before anything is asked of the world.
    pub fn check_parts(&self) -> (outcome: Result<(), AppError>)
        ensures
            fails_with(
                outcome,
                parts_problem(parts_view(self.surface), self.providers is Some, self.auth),
            ),
    {
        match &self.surface {
            None => {
                return Err(AppError::MissingConfiguration("App::surface(...) is required"));
            },
            Some(parts) => match check_install(&parts.namespaces, &parts.actions) {
                Ok(()) => {},
                Err(message) => {
                    return Err(AppError::InvalidConfiguration(message));
                },
            },
        }
        if self.providers.is_none() {
            return Err(AppError::MissingConfiguration("App::providers(...) is required"));
        }
        if !self.auth {
            return Err(AppError::MissingConfiguration("App::auth(...) is required"));
        }
        Ok(())
    }

    /// Tells its agent what it is and how it works.
    pub fn prompt(self, prompt: String) -> (app: App)
        ensures
            app == (App { prompt: Some(prompt), ..self }),
    {
        let mut app: App = self;
        app.prompt = Some(prompt);
        app
    }

    /// Turns speech on or off to begin with.
    pub fn voice(self, enabled: bool) -> (app: App)
        ensures
            app == (App { voice: enabled, ..self }),
    {
        let mut app: App = self;
        app.voice = enabled;
        app
    }

    /// Chooses the optional routes for the person in the loop.
    pub fn hitl(self, hitl: Hitl) -> (app: App)
        ensures
            app == (App { hitl, ..self }),
    {
        let mut app: App = self;
        app.hitl = hitl;
        app
    }

    /// Names the directory of the browser's files.
    pub fn static_dir(self, dir: String) -> (app: App)
        ensures
            app == (App { static_dir: Some(dir), ..self }),
    {
        let mut app: App = self;
        app.static_dir = Some(dir);
        app
    }

    /// Names the directory of the extensions' packages.
    pub fn pkg_dir(self, dir: String) -> (app: App)
        ensures
            app == (App { pkg_dir: Some(dir), ..self }),
    {
        let mut app: App = self;
        app.pkg_dir = Some(dir);
        app
    }

    /// Names the directory in which agents work.
    pub fn agent_cwd(self, dir: String) -> (app: App)
        ensures
            app == (App { agent_cwd: Some(dir), ..self }),
    {
        let mut app: App = self;
        app.agent_cwd = Some(dir);
        app
    }

    /// Serves one more directory at a prefix.
    pub fn mount(self, prefix: &str, dir: String) -> (app: App)
        ensures
            app == (App { mounts: app.mounts, ..self }),
            app.mounts@.len() == self.mounts@.len() + 1,
            app.mounts@.drop_last() == self.mounts@,
            app.mounts@.last().prefix@ == prefix@,
            app.mounts@.last().dir@ == dir@,
    {
        let mut app: App = self;
        app.mounts.push(Mount { prefix: prefix.to_owned(), dir });
        proof {
            assert(app.mounts@.drop_last() =~= self.mounts@);
        }
        app
    }
}

/// What the world around an application says while it starts.
pub struct World {
    pub outside: Outside,
    /// The entries of the store of credentials.
    pub saved: Vec<SavedEntry>,
    pub paths: ServedPaths,
    pub current_dir: Result<String, String>,
    /// The real path of the directory in which agents work.
    pub canonical_dir: Result<String, String>,
    /// Whether there is a directory at that path.
    pub is_directory: bool,
    /// Paths at which there is a regular file.
    pub files: Vec<String>,
    pub address: Result<ListenAddress, String>,
    /// Whether the person's own endpoint can be used.
    pub byok: Result<(), String>,
    pub agui: EnvValue,
    pub canvas: EnvValue,
}

/// An application that is ready to serve.
pub struct Launched {
    pub actions: Vec<ActionDef>,
    pub service: SemanticTargetService,
    pub manifest: ExtensionManifest,
    pub catalog: Catalog,
    pub providers: Vec<Provider>,
    pub provider_id: String,
    pub static_dir: String,
    pub human_cookie: bool,
    /// The directory in which agents work.
    pub directory: String,
    pub address: ListenAddress,
}

/// The directory in which agents are to work: the one that was named, or else
/// the current one.
pub open spec fn workplace(app: App, world: World) -> Result<String, String> {
    match app.agent_cwd {
        Some(dir) => Ok(dir),
        None => world.current_dir,
    }
}

/// What an application is made of.
pub open spec fn made_of(app: App) -> CompositionView {
    let (namespaces, actions) = parts_view(app.surface)->0;
    CompositionView {
        actions: installed_actions(namespaces, actions),
        modules: module_views(app.pages.modules@),
        routes: route_endpoints(app.pages.routes@),
        action_routes: action_route_endpoints(app.pages.action_routes@),
        routed_actions: action_route_actions(app.pages.action_routes@),
        prefixes: mount_prefixes(app.mounts@),
        directories: mount_directories(app.mounts@),
    }
}

/// Which of some assets are there.
pub open spec fn assets_present(assets: Seq<AssetView>, files: Seq<Seq<char>>) -> Seq<bool> {
    Seq::new(
        assets.len(),
        |i: int|
            match assets[i].path {
                Some(path) => files.contains(path),
                None => false,
            },
    )
}

/// The first asset that is not served.
pub open spec fn assets_problem(
    extensions: Seq<DescriptorView>,
    static_dir: Seq<char>,
    pkg_dir: Option<Seq<char>>,
    mounts: Seq<Mount>,
    files: Seq<Seq<char>>,
) -> Option<Seq<char>> {
    let assets = all_assets(extensions, static_dir, pkg_dir, mounts);
    let present = assets_present(assets, files);
    first_problem(assets.len(), |i: int| asset_problem(assets, present, i))
}

/// The providers of an application, with the connections that the person saved.
pub open spec fn launched_providers(app: App, world: World) -> Seq<ProviderView> {
    all_providers(provider_views((app.providers->0).0@), saved_views(world.saved@))->Ok_0
}

/// Why an application does not start: the first thing that is wrong, in the order
/// in which they are looked at.
pub open spec fn launch_problem(app: App, world: World, vendor: VendorView) -> Option<
    AppErrorView,
> {
    let parts = parts_problem(parts_view(app.surface), app.providers is Some, app.auth);
    if parts is Some {
        parts
    } else {
        let made = made_of(app);
        let composition = composition_problem(
            made,
            world.outside,
            provider_views((app.providers->0).0@),
            saved_views(world.saved@),
            app.prompt is Some,
            app.static_dir is Some,
        );
        if composition is Some {
            composition
        } else {
            let manifest = manifest_of(made.modules, human_actions(made.actions));
            let static_dir = (app.static_dir->0)@;
            let pkg_dir = opt_text(app.pkg_dir);
            first_error(
                invalid(directories_problem(static_dir, pkg_dir, app.mounts@, world.paths)),
                first_error(
                    invalid(
                        workplace_problem(
                            workplace(app, world),
                            world.canonical_dir,
                            world.is_directory,
                        ),
                    ),
                    first_error(
                        invalid(
                            assets_problem(
                                manifest.extensions,
                                static_dir,
                                pkg_dir,
                                app.mounts@,
                                texts(world.files@),
                            ),
                        ),
                        first_error(
                            address_problem(world.address),
                            start_problem(
                                made.actions,
                                world.byok,
                                launched_providers(app, world),
                                vendor,
                                opt_text(app.default_provider),
                                world.agui,
                                world.canvas,
                            ),
                        ),
                    ),
                ),
            )
        }
    }
}

/// What an application that starts is.
pub open spec fn launched(app: App, world: World, vendor: VendorView, ready: Launched) -> bool {
    let made = made_of(app);
    &&& action_views(ready.actions@) == made.actions
    &&& ready.service@ == new_service((parts_view(app.surface)->0).0)
    &&& ready.manifest@ == manifest_of(made.modules, human_actions(made.actions))
    &&& tool_views(ready.catalog.tools@) == tools_among(made.actions, made.actions.len())
    &&& provider_views(ready.providers@) == launched_providers(app, world)
    &&& environment_choice(
        launched_providers(app, world),
        vendor,
        opt_text(app.default_provider),
        world.agui,
        world.canvas,
    ) == Ok::<Option<Seq<char>>, Seq<char>>(Some(ready.provider_id@))
    &&& Some(ready.static_dir@) == opt_text(app.static_dir)
    &&& ready.human_cookie == crate::actions::any_human(made.actions)
    &&& world.canonical_dir matches Ok(path) && ready.directory@ == path@
    &&& world.address == Ok::<ListenAddress, String>(ready.address)
}

fn slice_of(text: &Option<String>) -> (slice: Option<&str>)
    ensures
        crate::text::opt_str(slice) == opt_text(*text),
{
    match text {
        Some(text) => Some(text.as_str()),
        None => None,
    }
}

fn check_assets(
    manifest: &ExtensionManifest,
    static_dir: &str,
    pkg_dir: Option<&str>,
    mounts: &Vec<Mount>,
    files: &Vec<String>,
) -> (outcome: Result<(), String>)
    ensures
        crate::lists::reports(
            outcome,
            assets_problem(
                manifest@.extensions,
                static_dir@,
                crate::text::opt_str(pkg_dir),
                mounts@,
                texts(files@),
            ),
        ),
{
    let assets: Vec<Asset> = extension_assets(manifest, static_dir, pkg_dir, mounts);
    let ghost all = asset_views(assets@);
    let ghost expected = assets_present(all, texts(files@));
    let mut present: Vec<bool> = Vec::new();
    let mut i: usize = 0;
    proof {
        assert(present@ =~= expected.take(0));
    }
    while i < assets.len()
        invariant
            i <= assets@.len(),
            all == asset_views(assets@),
            expected == assets_present(all, texts(files@)),
            present@ == expected.take(i as int),
        decreases assets@.len() - i,
    {
        let found: bool = match &assets[i].path {
            Some(path) => list_contains(files, path),
            None => false,
        };
        present.push(found);
        proof {
            assert(all[i as int] == assets@[i as int]@);
            assert(expected.take(i + 1) =~= expected.take(i as int).push(expected[i as int]));
        }
        i += 1;
    }
    proof {
        assert(present@ =~= expected);
    }
    validate_extension_assets(&assets, &present)
}

/// Starts an application, given what the world says.
pub fn launch(app: App, world: World, vendor: &Vendor) -> (result: Result<Launched, AppError>)
    requires
        world.paths.mounts@.len() == app.mounts@.len(),
    ensures
        fails_with(result, launch_problem(app, world, vendor@)),
        result matches Ok(ready) ==> launched(app, world, vendor@, ready),
{
    let Configured { installed, providers } = match configure(
        app.surface,
        app.providers,
        app.auth,
    ) {
        Ok(configured) => configured,
        Err(error) => {
            return Err(error);
        },
    };
    let Installation { actions, service } = installed;
    let parts: Composition = Composition {
        actions: &actions,
        modules: &app.pages.modules,
        routes: &app.pages.routes,
        action_routes: &app.pages.action_routes,
        mounts: &app.mounts,
    };
    let prompt: bool = app.prompt.is_some();
    let composed: Composed = match compose(
        &parts,
        world.outside,
        providers,
        world.saved,
        prompt,
        app.static_dir,
    ) {
        Ok(composed) => composed,
        Err(error) => {
            return Err(error);
        },
    };
    let pkg_dir: Option<&str> = slice_of(&app.pkg_dir);
    match validate_static_directories(&composed.static_dir, pkg_dir, &app.mounts, &world.paths) {
        Ok(()) => {},
        Err(message) => {
            return Err(AppError::InvalidConfiguration(message));
        },
    }
    let named: Result<String, String> = match app.agent_cwd {
        Some(dir) => Ok(dir),
        None => world.current_dir,
    };
    let directory: String = match agent_directory(named, world.canonical_dir, world.is_directory) {
        Ok(directory) => directory,
        Err(error) => {
            return Err(error);
        },
    };
    match check_assets(
        &composed.manifest,
        &composed.static_dir,
        pkg_dir,
        &app.mounts,
        &world.files,
    ) {
        Ok(()) => {},
        Err(message) => {
            return Err(AppError::InvalidConfiguration(message));
        },
    }
    let address: ListenAddress = match loopback_socket_addr(world.address) {
        Ok(address) => address,
        Err(error) => {
            return Err(error);
        },
    };
    let preferred: Option<&str> = slice_of(&app.default_provider);
    match start(
        &actions,
        world.byok,
        &composed.providers,
        vendor,
        preferred,
        &world.agui,
        &world.canvas,
    ) {
        Ok(Started { catalog, provider_id }) => Ok(
            Launched {
                actions,
                service,
                manifest: composed.manifest,
                catalog,
                providers: composed.providers,
                provider_id,
                static_dir: composed.static_dir,
                human_cookie: composed.human_cookie,
                directory,
                address,
            },
        ),
        Err(error) => Err(error),
    }
}

/// Nothing starts unless everything holds: the parts are there, the layout has no
/// conflicts, every directory and asset can be served, the address is the local
/// one, and a provider can be selected.
pub proof fn law_nothing_starts_unless_everything_holds(
    app: App,
    world: World,
    vendor: VendorView,
)
    requires
        launch_problem(app, world, vendor) is None,
    ensures
        ({
            let made = made_of(app);
            let manifest = manifest_of(made.modules, human_actions(made.actions));
            let static_dir = (app.static_dir->0)@;
            let pkg_dir = opt_text(app.pkg_dir);
            &&& app.surface is Some && app.providers is Some && app.auth && app.prompt is Some
                && app.static_dir is Some
            &&& crate::client_module::manifest_problem(
                made.modules,
                human_actions(made.actions),
            ) is None
            &&& crate::http::layout_problem(
                made.routes,
                made.action_routes,
                made.routed_actions,
                made.actions,
                made.prefixes,
            ) is None
            &&& directories_problem(static_dir, pkg_dir, app.mounts@, world.paths) is None
            &&& assets_problem(
                manifest.extensions,
                static_dir,
                pkg_dir,
                app.mounts@,
                texts(world.files@),
            ) is None
            &&& world.address matches Ok(address) && address.octets == Some(
                (127u8, 0u8, 0u8, 1u8),
            )
            &&& launched_providers(app, world).len() > 0
            &&& crate::mcp::catalog_problem(made.actions) is None
        }),
{
}

} // verus!
