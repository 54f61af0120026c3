//! The HTTP face of an application: which paths it may claim, which requests
//! it lets in, and what it answers.

use vstd::prelude::*;

use crate::actions::{action_index, action_views, declares, ActionDef, ActionView};
use crate::lists::{first_problem, lemma_first_problem_grows, lemma_no_problem, or_else, reports};
use crate::text::{
    begins_with, chars_of, concat2, concat3, concat4, contains, debug_quote, debug_text, has_text,
    is_space, same, space, split, split_on, strip_prefix, texts,
};

verus! {

/// The methods that a surface's route can have.
#[derive(Clone, Copy, Debug, PartialEq, Eq, Hash, Structural)]
pub enum HttpMethod {
    Get,
    Post,
    Put,
    Delete,
}

impl HttpMethod {
    pub open spec fn name(self) -> Seq<char> {
        match self {
            HttpMethod::Get => "Get"@,
            HttpMethod::Post => "Post"@,
            HttpMethod::Put => "Put"@,
            HttpMethod::Delete => "Delete"@,
        }
    }

    /// The method's name in messages.
    pub fn label(self) -> (label: &'static str)
        ensures
            label@ == self.name(),
    {
        match self {
            HttpMethod::Get => "Get",
            HttpMethod::Post => "Post",
            HttpMethod::Put => "Put",
            HttpMethod::Delete => "Delete",
        }
    }
}

/// A route that a surface contributes.
#[derive(Debug, PartialEq, Eq)]
pub struct RouteDef {
    pub method: HttpMethod,
    pub path: String,
}

/// A mutation route over one of the surface's actions.
#[derive(Debug, PartialEq, Eq)]
pub struct ActionRouteDef {
    pub method: HttpMethod,
    pub path: String,
    pub action: String,
}

impl ActionRouteDef {
    /// A form-compatible `POST` route over `action`.
    pub fn post(path: &str, action: &str) -> (route: ActionRouteDef)
        ensures
            route.method == HttpMethod::Post,
            route.path@ == path@,
            route.action@ == action@,
    {
        ActionRouteDef {
            method: HttpMethod::Post,
            path: path.to_owned(),
            action: action.to_owned(),
        }
    }
}

/// A path with the method it answers to.
pub struct Endpoint {
    pub path: Seq<char>,
    pub method: HttpMethod,
}

pub open spec fn route_endpoints(routes: Seq<RouteDef>) -> Seq<Endpoint> {
    Seq::new(routes.len(), |i: int| Endpoint { path: routes[i].path@, method: routes[i].method })
}

pub open spec fn action_route_endpoints(routes: Seq<ActionRouteDef>) -> Seq<Endpoint> {
    Seq::new(routes.len(), |i: int| Endpoint { path: routes[i].path@, method: routes[i].method })
}

pub open spec fn action_route_actions(routes: Seq<ActionRouteDef>) -> Seq<Seq<char>> {
    Seq::new(routes.len(), |i: int| routes[i].action@)
}

/// The paths that the runtime serves itself.
pub open spec fn runtime_paths() -> Seq<Seq<char>> {
    seq![
        "/_agui/client.js"@,
        "/_agui/provider-settings.js"@,
        "/_agui/provider-settings.css"@,
        "/_agui/conversation.js"@,
        "/_agui/conversation.css"@,
        "/_agui/semantic-targets.js"@,
        "/_agui/semantic-targets.css"@,
        "/extensions"@,
        "/activity"@,
        "/activity/events"@,
        "/mcp"@,
        "/ws"@,
        "/events"@,
        "/debug/stats"@,
        "/control"@,
        "/ask"@,
        "/surface/action"@,
        "/surface/me"@,
        "/canvas-tool"@,
        "/provider"@,
        "/auth"@,
        "/connections"@,
        "/models/openrouter"@,
        "/surface/state"@,
        "/canvas-state"@,
        "/canvas.png"@,
        "/canvas-image"@,
        "/semantic-targets"@,
        "/semantic-targets/presence"@,
        "/semantic-targets/focus"@,
        "/semantic-targets/clear"@,
        "/semantic"@,
        "/interrupt"@,
        "/decision"@,
        "/pkg"@,
    ]
}

/// The paths that the runtime serves itself.
pub fn runtime_route_paths() -> (paths: Vec<String>)
    ensures
        texts(paths@) == runtime_paths(),
{
    let mut paths: Vec<String> = Vec::new();
    paths.push("/_agui/client.js".to_owned());
    paths.push("/_agui/provider-settings.js".to_owned());
    paths.push("/_agui/provider-settings.css".to_owned());
    paths.push("/_agui/conversation.js".to_owned());
    paths.push("/_agui/conversation.css".to_owned());
    paths.push("/_agui/semantic-targets.js".to_owned());
    paths.push("/_agui/semantic-targets.css".to_owned());
    paths.push("/extensions".to_owned());
    paths.push("/activity".to_owned());
    paths.push("/activity/events".to_owned());
    paths.push("/mcp".to_owned());
    paths.push("/ws".to_owned());
    paths.push("/events".to_owned());
    paths.push("/debug/stats".to_owned());
    paths.push("/control".to_owned());
    paths.push("/ask".to_owned());
    paths.push("/surface/action".to_owned());
    paths.push("/surface/me".to_owned());
    paths.push("/canvas-tool".to_owned());
    paths.push("/provider".to_owned());
    paths.push("/auth".to_owned());
    paths.push("/connections".to_owned());
    paths.push("/models/openrouter".to_owned());
    paths.push("/surface/state".to_owned());
    paths.push("/canvas-state".to_owned());
    paths.push("/canvas.png".to_owned());
    paths.push("/canvas-image".to_owned());
    paths.push("/semantic-targets".to_owned());
    paths.push("/semantic-targets/presence".to_owned());
    paths.push("/semantic-targets/focus".to_owned());
    paths.push("/semantic-targets/clear".to_owned());
    paths.push("/semantic".to_owned());
    paths.push("/interrupt".to_owned());
    paths.push("/decision".to_owned());
    paths.push("/pkg".to_owned());
    proof {
        assert(texts(paths@) =~= runtime_paths());
    }
    paths
}

/// A piece of a path that a router takes literally.
pub open spec fn literal_segment(segment: Seq<char>) -> bool {
    &&& segment.len() > 0
    &&& segment != "."@
    &&& segment != ".."@
    &&& segment[0] != ':'
}

/// A character that has no place in a literal path.
pub open spec fn pattern_char(c: char) -> bool {
    is_space(c) || c == '?' || c == '#' || c == '{' || c == '}' || c == '*'
}

/// A path that a router takes literally: absolute, longer than the root, with
/// no empty, relative or parameter segment and no pattern characters.
pub open spec fn literal_path(path: Seq<char>) -> bool {
    &&& path.len() > 1
    &&& path[0] == '/'
    &&& path.last() != '/'
    &&& !has_text(path, "//"@)
    &&& forall|i: int| 0 <= i < path.len() ==> !pattern_char(#[trigger] path[i])
    &&& forall|k: int|
        1 <= k < split_on(path, '/').len() ==> literal_segment(#[trigger] split_on(path, '/')[k])
}

fn segment_ok(segment: &str) -> (ok: bool)
    ensures
        ok == literal_segment(segment@),
{
    let chars: Vec<char> = chars_of(segment);
    chars.len() > 0 && !same(segment, ".") && !same(segment, "..") && chars[0] != ':'
}

/// Whether a path can be handed to a router as it is.
pub fn valid_literal_http_path(path: &str) -> (valid: bool)
    ensures
        valid == literal_path(path@),
{
    let chars: Vec<char> = chars_of(path);
    if chars.len() <= 1 || chars[0] != '/' || chars[chars.len() - 1] == '/' || contains(path, "//") {
        return false;
    }
    let mut i: usize = 0;
    while i < chars.len()
        invariant
            i <= chars@.len(),
            chars@ == path@,
            forall|k: int| 0 <= k < i ==> !pattern_char(#[trigger] path@[k]),
        decreases chars@.len() - i,
    {
        let c: char = chars[i];
        if space(c) || c == '?' || c == '#' || c == '{' || c == '}' || c == '*' {
            proof {
                assert(pattern_char(path@[i as int]));
            }
            return false;
        }
        i += 1;
    }
    let segments: Vec<String> = split(path, '/');
    let mut k: usize = 1;
    while k < segments.len()
        invariant
            1 <= k <= segments@.len(),
            texts(segments@) == split_on(path@, '/'),
            forall|j: int| 1 <= j < k ==> literal_segment(#[trigger] split_on(path@, '/')[j]),
        decreases segments@.len() - k,
    {
        if !segment_ok(&segments[k]) {
            proof {
                assert(!literal_segment(texts(segments@)[k as int]));
            }
            return false;
        }
        proof {
            assert(literal_segment(texts(segments@)[k as int]));
        }
        k += 1;
    }
    true
}

/// Whether a path is the prefix itself or lies below it.
pub open spec fn owned_by(path: Seq<char>, prefix: Seq<char>) -> bool {
    ||| path == prefix
    ||| {
        &&& begins_with(path, prefix)
        &&& prefix.len() < path.len()
        &&& path[prefix.len() as int] == '/'
    }
}

/// Whether a path is the prefix itself or lies below it.
pub fn path_is_owned_by_mount(path: &str, prefix: &str) -> (owned: bool)
    ensures
        owned == owned_by(path@, prefix@),
{
    if same(path, prefix) {
        return true;
    }
    match strip_prefix(path, prefix) {
        Some(rest) => {
            let chars: Vec<char> = chars_of(rest);
            proof {
                if rest@.len() > 0 {
                    assert(rest@[0] == path@[prefix@.len() as int]);
                }
            }
            chars.len() > 0 && chars[0] == '/'
        },
        None => false,
    }
}

/// A path that the runtime keeps for itself.
pub open spec fn runtime_owned(path: Seq<char>) -> bool {
    ||| runtime_paths().contains(path)
    ||| owned_by(path, "/_agui"@)
    ||| owned_by(path, "/pkg"@)
}

/// A mount prefix that would cover, or lie under, a path of the runtime's.
pub open spec fn mount_hits_runtime(prefix: Seq<char>) -> bool {
    ||| exists|i: int|
        0 <= i < runtime_paths().len() && owned_by(#[trigger] runtime_paths()[i], prefix)
    ||| owned_by(prefix, "/_agui"@)
    ||| owned_by(prefix, "/pkg"@)
}

/// Whether a path is one that the runtime keeps for itself.
pub fn is_runtime_owned(path: &str) -> (owned: bool)
    ensures
        owned == runtime_owned(path@),
{
    let paths: Vec<String> = runtime_route_paths();
    crate::text::list_contains(&paths, path) || path_is_owned_by_mount(path, "/_agui")
        || path_is_owned_by_mount(path, "/pkg")
}

fn mount_conflicts_with_runtime(prefix: &str) -> (hit: bool)
    ensures
        hit == mount_hits_runtime(prefix@),
{
    let paths: Vec<String> = runtime_route_paths();
    let mut i: usize = 0;
    while i < paths.len()
        invariant
            i <= paths@.len(),
            texts(paths@) == runtime_paths(),
            forall|k: int| 0 <= k < i ==> !owned_by(#[trigger] runtime_paths()[k], prefix@),
        decreases paths@.len() - i,
    {
        let owned: bool = path_is_owned_by_mount(&paths[i], prefix);
        proof {
            assert(texts(paths@)[i as int] == paths@[i as int]@);
        }
        if owned {
            proof {
                assert(owned_by(runtime_paths()[i as int], prefix@));
            }
            return true;
        }
        i += 1;
    }
    path_is_owned_by_mount(prefix, "/_agui") || path_is_owned_by_mount(prefix, "/pkg")
}

/// A directory of public assets, and the path prefix it is served at.
#[derive(Debug, PartialEq, Eq)]
pub struct Mount {
    pub prefix: String,
    pub dir: String,
}

pub open spec fn mount_prefixes(mounts: Seq<Mount>) -> Seq<Seq<char>> {
    Seq::new(mounts.len(), |i: int| mounts[i].prefix@)
}

pub open spec fn mount_directories(mounts: Seq<Mount>) -> Seq<Seq<char>> {
    Seq::new(mounts.len(), |i: int| mounts[i].dir@)
}

/// Whether the endpoint at `i` is claimed a second time.
pub open spec fn claimed_before(endpoints: Seq<Endpoint>, i: int) -> bool {
    exists|j: int| 0 <= j < i && #[trigger] endpoints[j] == endpoints[i]
}

/// What is wrong with the route at `i`.
pub open spec fn route_problem(routes: Seq<Endpoint>, i: int) -> Option<Seq<char>> {
    let path = routes[i].path;
    if !literal_path(path) {
        Some("invalid surface route path "@ + debug_text(path))
    } else if runtime_owned(path) {
        Some("surface route "@ + debug_text(path) + " conflicts with a runtime-owned path"@)
    } else if claimed_before(routes, i) {
        Some("duplicate surface route "@ + routes[i].method.name() + " "@ + debug_text(path))
    } else {
        None
    }
}

/// What is wrong with the action route at `i`.
pub open spec fn action_route_problem(
    routes: Seq<Endpoint>,
    action_routes: Seq<Endpoint>,
    named: Seq<Seq<char>>,
    actions: Seq<ActionView>,
    i: int,
) -> Option<Seq<char>> {
    let path = action_routes[i].path;
    let quoted = debug_text(path);
    if action_routes[i].method is Get {
        Some("action-backed surface route "@ + quoted + " must use a mutating HTTP method"@)
    } else if !declares(actions, named[i]) {
        Some(
            "action-backed surface route "@ + quoted + " names unknown action "@ + debug_text(
                named[i],
            ),
        )
    } else if !literal_path(path) {
        Some("invalid action-backed surface route path "@ + quoted)
    } else if runtime_owned(path) {
        Some("action-backed surface route "@ + quoted + " conflicts with a runtime-owned path"@)
    } else if claimed_before(routes + action_routes, routes.len() + i) {
        Some("duplicate surface route "@ + action_routes[i].method.name() + " "@ + quoted)
    } else {
        None
    }
}

/// Whether the mount at `i` overlaps an earlier one.
pub open spec fn overlaps_mount(prefixes: Seq<Seq<char>>, i: int) -> bool {
    exists|j: int|
        0 <= j < i && (owned_by(prefixes[i], #[trigger] prefixes[j]) || owned_by(
            prefixes[j],
            prefixes[i],
        ))
}

/// Whether a mount prefix covers one of the endpoints.
pub open spec fn covers_endpoint(prefix: Seq<char>, endpoints: Seq<Endpoint>) -> bool {
    exists|j: int| 0 <= j < endpoints.len() && owned_by((#[trigger] endpoints[j]).path, prefix)
}

/// What is wrong with the mount at `i`.
pub open spec fn mount_problem(
    prefixes: Seq<Seq<char>>,
    endpoints: Seq<Endpoint>,
    i: int,
) -> Option<Seq<char>> {
    let prefix = prefixes[i];
    let quoted = debug_text(prefix);
    if !literal_path(prefix) {
        Some("invalid static mount prefix "@ + quoted)
    } else if mount_hits_runtime(prefix) {
        Some("static mount prefix "@ + quoted + " conflicts with a runtime-owned path"@)
    } else if overlaps_mount(prefixes, i) {
        Some("static mount prefix "@ + quoted + " overlaps another static mount"@)
    } else if covers_endpoint(prefix, endpoints) {
        Some("static mount prefix "@ + quoted + " overlaps a surface route"@)
    } else {
        None
    }
}

/// What is wrong with a layout: the first problem of the routes, then of the
/// action routes, then of the mounts.
pub open spec fn layout_problem(
    routes: Seq<Endpoint>,
    action_routes: Seq<Endpoint>,
    named: Seq<Seq<char>>,
    actions: Seq<ActionView>,
    prefixes: Seq<Seq<char>>,
) -> Option<Seq<char>> {
    or_else(
        first_problem(routes.len(), |i: int| route_problem(routes, i)),
        or_else(
            first_problem(
                action_routes.len(),
                |i: int| action_route_problem(routes, action_routes, named, actions, i),
            ),
            first_problem(
                prefixes.len(),
                |i: int| mount_problem(prefixes, routes + action_routes, i),
            ),
        ),
    )
}

fn check_route(routes: &Vec<RouteDef>, i: usize) -> (outcome: Result<(), String>)
    requires
        i < routes@.len(),
    ensures
        reports(outcome, route_problem(route_endpoints(routes@), i as int)),
{
    let ghost endpoints = route_endpoints(routes@);
    let path: &str = routes[i].path.as_str();
    if !valid_literal_http_path(path) {
        return Err(concat2("invalid surface route path ", &debug_quote(path)));
    }
    if is_runtime_owned(path) {
        return Err(
            concat3(
                "surface route ",
                &debug_quote(path),
                " conflicts with a runtime-owned path",
            ),
        );
    }
    let mut j: usize = 0;
    while j < i
        invariant
            j <= i < routes@.len(),
            endpoints == route_endpoints(routes@),
            path@ == endpoints[i as int].path,
            route_problem(endpoints, i as int) == (if claimed_before(endpoints, i as int) {
                Some(
                    "duplicate surface route "@ + endpoints[i as int].method.name() + " "@
                        + debug_text(path@),
                )
            } else {
                None
            }),
            forall|k: int| 0 <= k < j ==> #[trigger] endpoints[k] != endpoints[i as int],
        decreases i - j,
    {
        if same(&routes[j].path, path) && routes[j].method == routes[i].method {
            proof {
                assert(endpoints[j as int] == endpoints[i as int]);
            }
            return Err(
                concat4(
                    "duplicate surface route ",
                    routes[i].method.label(),
                    " ",
                    &debug_quote(path),
                ),
            );
        }
        j += 1;
    }
    Ok(())
}

fn endpoint_claimed(
    routes: &Vec<RouteDef>,
    action_routes: &Vec<ActionRouteDef>,
    i: usize,
) -> (claimed: bool)
    requires
        i < action_routes@.len(),
    ensures
        claimed == claimed_before(
            route_endpoints(routes@) + action_route_endpoints(action_routes@),
            routes@.len() + i,
        ),
{
    let ghost all = route_endpoints(routes@) + action_route_endpoints(action_routes@);
    let ghost at = routes@.len() + i;
    let mut j: usize = 0;
    while j < routes.len()
        invariant
            j <= routes@.len(),
            i < action_routes@.len(),
            all == route_endpoints(routes@) + action_route_endpoints(action_routes@),
            at == routes@.len() + i,
            forall|k: int| 0 <= k < j ==> #[trigger] all[k] != all[at],
        decreases routes@.len() - j,
    {
        if same(&routes[j].path, &action_routes[i].path) && routes[j].method
            == action_routes[i].method {
            proof {
                assert(all[j as int] == all[at]);
            }
            return true;
        }
        j += 1;
    }
    let mut j: usize = 0;
    while j < i
        invariant
            j <= i < action_routes@.len(),
            all == route_endpoints(routes@) + action_route_endpoints(action_routes@),
            at == routes@.len() + i,
            forall|k: int| 0 <= k < routes@.len() + j ==> #[trigger] all[k] != all[at],
        decreases i - j,
    {
        if same(&action_routes[j].path, &action_routes[i].path) && action_routes[j].method
            == action_routes[i].method {
            proof {
                assert(all[routes@.len() + j] == all[at]);
            }
            return true;
        }
        proof {
            assert forall|k: int| 0 <= k < routes@.len() + j + 1 implies #[trigger] all[k]
                != all[at] by {
                if k == routes@.len() + j {
                    assert(all[k].path == action_routes@[j as int].path@);
                }
            }
        }
        j += 1;
    }
    false
}

fn check_action_route(
    routes: &Vec<RouteDef>,
    action_routes: &Vec<ActionRouteDef>,
    actions: &Vec<ActionDef>,
    i: usize,
) -> (outcome: Result<(), String>)
    requires
        i < action_routes@.len(),
    ensures
        reports(
            outcome,
            action_route_problem(
                route_endpoints(routes@),
                action_route_endpoints(action_routes@),
                action_route_actions(action_routes@),
                action_views(actions@),
                i as int,
            ),
        ),
{
    let path: &str = action_routes[i].path.as_str();
    let quoted: String = debug_quote(path);
    if action_routes[i].method == HttpMethod::Get {
        return Err(
            concat3(
                "action-backed surface route ",
                &quoted,
                " must use a mutating HTTP method",
            ),
        );
    }
    if action_index(actions, &action_routes[i].action).is_none() {
        return Err(
            concat4(
                "action-backed surface route ",
                &quoted,
                " names unknown action ",
                &debug_quote(&action_routes[i].action),
            ),
        );
    }
    if !valid_literal_http_path(path) {
        return Err(concat2("invalid action-backed surface route path ", &quoted));
    }
    if is_runtime_owned(path) {
        return Err(
            concat3(
                "action-backed surface route ",
                &quoted,
                " conflicts with a runtime-owned path",
            ),
        );
    }
    if endpoint_claimed(routes, action_routes, i) {
        return Err(
            concat4(
                "duplicate surface route ",
                action_routes[i].method.label(),
                " ",
                &quoted,
            ),
        );
    }
    Ok(())
}

fn overlaps_earlier_mount(mounts: &Vec<Mount>, i: usize) -> (overlap: bool)
    requires
        i < mounts@.len(),
    ensures
        overlap == overlaps_mount(mount_prefixes(mounts@), i as int),
{
    let ghost prefixes = mount_prefixes(mounts@);
    let mut j: usize = 0;
    while j < i
        invariant
            j <= i < mounts@.len(),
            prefixes == mount_prefixes(mounts@),
            forall|k: int|
                0 <= k < j ==> !owned_by(prefixes[i as int], #[trigger] prefixes[k]) && !owned_by(
                    prefixes[k],
                    prefixes[i as int],
                ),
        decreases i - j,
    {
        if path_is_owned_by_mount(&mounts[i].prefix, &mounts[j].prefix) || path_is_owned_by_mount(
            &mounts[j].prefix,
            &mounts[i].prefix,
        ) {
            proof {
                assert(owned_by(prefixes[i as int], prefixes[j as int]) || owned_by(
                    prefixes[j as int],
                    prefixes[i as int],
                ));
            }
            return true;
        }
        j += 1;
    }
    false
}

fn covers_surface_route(
    prefix: &str,
    routes: &Vec<RouteDef>,
    action_routes: &Vec<ActionRouteDef>,
) -> (covers: bool)
    ensures
        covers == covers_endpoint(
            prefix@,
            route_endpoints(routes@) + action_route_endpoints(action_routes@),
        ),
{
    let ghost all = route_endpoints(routes@) + action_route_endpoints(action_routes@);
    let mut j: usize = 0;
    while j < routes.len()
        invariant
            j <= routes@.len(),
            all == route_endpoints(routes@) + action_route_endpoints(action_routes@),
            forall|k: int| 0 <= k < j ==> !owned_by((#[trigger] all[k]).path, prefix@),
        decreases routes@.len() - j,
    {
        if path_is_owned_by_mount(&routes[j].path, prefix) {
            proof {
                assert(owned_by(all[j as int].path, prefix@));
            }
            return true;
        }
        j += 1;
    }
    let mut j: usize = 0;
    while j < action_routes.len()
        invariant
            j <= action_routes@.len(),
            all == route_endpoints(routes@) + action_route_endpoints(action_routes@),
            forall|k: int|
                0 <= k < routes@.len() + j ==> !owned_by((#[trigger] all[k]).path, prefix@),
        decreases action_routes@.len() - j,
    {
        if path_is_owned_by_mount(&action_routes[j].path, prefix) {
            proof {
                assert(owned_by(all[routes@.len() + j].path, prefix@));
            }
            return true;
        }
        proof {
            assert forall|k: int| 0 <= k < routes@.len() + j + 1 implies !owned_by(
                (#[trigger] all[k]).path,
                prefix@,
            ) by {
                if k == routes@.len() + j {
                    assert(all[k].path == action_routes@[j as int].path@);
                }
            }
        }
        j += 1;
    }
    false
}

fn check_mount(
    mounts: &Vec<Mount>,
    routes: &Vec<RouteDef>,
    action_routes: &Vec<ActionRouteDef>,
    i: usize,
) -> (outcome: Result<(), String>)
    requires
        i < mounts@.len(),
    ensures
        reports(
            outcome,
            mount_problem(
                mount_prefixes(mounts@),
                route_endpoints(routes@) + action_route_endpoints(action_routes@),
                i as int,
            ),
        ),
{
    let prefix: &str = mounts[i].prefix.as_str();
    let quoted: String = debug_quote(prefix);
    if !valid_literal_http_path(prefix) {
        return Err(concat2("invalid static mount prefix ", &quoted));
    }
    if mount_conflicts_with_runtime(prefix) {
        return Err(
            concat3("static mount prefix ", &quoted, " conflicts with a runtime-owned path"),
        );
    }
    if overlaps_earlier_mount(mounts, i) {
        return Err(concat3("static mount prefix ", &quoted, " overlaps another static mount"));
    }
    if covers_surface_route(prefix, routes, action_routes) {
        return Err(concat3("static mount prefix ", &quoted, " overlaps a surface route"));
    }
    Ok(())
}

/// Validate every route and mount before a router is built from them.
pub fn validate_http_layout(
    routes: &Vec<RouteDef>,
    action_routes: &Vec<ActionRouteDef>,
    actions: &Vec<ActionDef>,
    mounts: &Vec<Mount>,
) -> (outcome: Result<(), String>)
    ensures
        reports(
            outcome,
            layout_problem(
                route_endpoints(routes@),
                action_route_endpoints(action_routes@),
                action_route_actions(action_routes@),
                action_views(actions@),
                mount_prefixes(mounts@),
            ),
        ),
{
    let ghost plain = route_endpoints(routes@);
    let ghost backed = action_route_endpoints(action_routes@);
    let ghost named = action_route_actions(action_routes@);
    let ghost declared = action_views(actions@);
    let ghost prefixes = mount_prefixes(mounts@);
    let ghost of_route = |i: int| route_problem(plain, i);
    let ghost of_action_route = |i: int| action_route_problem(plain, backed, named, declared, i);
    let ghost of_mount = |i: int| mount_problem(prefixes, plain + backed, i);
    let mut i: usize = 0;
    while i < routes.len()
        invariant
            i <= routes@.len(),
            plain == route_endpoints(routes@),
            of_route == (|i: int| route_problem(plain, i)),
            first_problem(i as nat, of_route) is None,
        decreases routes@.len() - i,
    {
        match check_route(routes, i) {
            Ok(()) => {},
            Err(message) => {
                proof {
                    lemma_first_problem_grows((i + 1) as nat, plain.len(), of_route);
                }
                return Err(message);
            },
        }
        i += 1;
    }
    let mut i: usize = 0;
    while i < action_routes.len()
        invariant
            i <= action_routes@.len(),
            plain == route_endpoints(routes@),
            backed == action_route_endpoints(action_routes@),
            named == action_route_actions(action_routes@),
            declared == action_views(actions@),
            of_action_route == (|i: int|
                action_route_problem(plain, backed, named, declared, i)),
            of_route == (|i: int| route_problem(plain, i)),
            first_problem(plain.len(), of_route) is None,
            first_problem(i as nat, of_action_route) is None,
        decreases action_routes@.len() - i,
    {
        match check_action_route(routes, action_routes, actions, i) {
            Ok(()) => {},
            Err(message) => {
                proof {
                    lemma_first_problem_grows((i + 1) as nat, backed.len(), of_action_route);
                }
                return Err(message);
            },
        }
        i += 1;
    }
    let mut i: usize = 0;
    while i < mounts.len()
        invariant
            i <= mounts@.len(),
            plain == route_endpoints(routes@),
            backed == action_route_endpoints(action_routes@),
            prefixes == mount_prefixes(mounts@),
            of_mount == (|i: int| mount_problem(prefixes, plain + backed, i)),
            named == action_route_actions(action_routes@),
            declared == action_views(actions@),
            of_route == (|i: int| route_problem(plain, i)),
            of_action_route == (|i: int|
                action_route_problem(plain, backed, named, declared, i)),
            first_problem(plain.len(), of_route) is None,
            first_problem(backed.len(), of_action_route) is None,
            first_problem(i as nat, of_mount) is None,
        decreases mounts@.len() - i,
    {
        match check_mount(mounts, routes, action_routes, i) {
            Ok(()) => {},
            Err(message) => {
                proof {
                    lemma_first_problem_grows((i + 1) as nat, prefixes.len(), of_mount);
                }
                return Err(message);
            },
        }
        i += 1;
    }
    Ok(())
}

/// In an accepted layout no two routes claim the same endpoint, every path is
/// literal and not the runtime's, every mount prefix is literal and neither
/// covers a path of the runtime's nor is one, no mount covers a route, no two
/// mounts overlap, and every action route mutates through a declared action.
pub proof fn law_an_accepted_layout_has_no_conflicts(
    routes: Seq<Endpoint>,
    action_routes: Seq<Endpoint>,
    named: Seq<Seq<char>>,
    actions: Seq<ActionView>,
    prefixes: Seq<Seq<char>>,
)
    requires
        named.len() == action_routes.len(),
        layout_problem(routes, action_routes, named, actions, prefixes) is None,
    ensures
        forall|i: int, j: int|
            0 <= i < j < routes.len() + action_routes.len() ==> #[trigger] (routes
                + action_routes)[i] != #[trigger] (routes + action_routes)[j],
        forall|i: int|
            0 <= i < routes.len() + action_routes.len() ==> literal_path(
                (#[trigger] (routes + action_routes)[i]).path,
            ) && !runtime_owned((routes + action_routes)[i].path),
        forall|i: int|
            0 <= i < action_routes.len() ==> !((#[trigger] action_routes[i]).method is Get)
                && declares(actions, named[i]),
        forall|i: int|
            0 <= i < prefixes.len() ==> literal_path(#[trigger] prefixes[i]) && !runtime_owned(
                prefixes[i],
            ) && !mount_hits_runtime(prefixes[i]),
        forall|i: int, j: int|
            0 <= i < prefixes.len() && 0 <= j < runtime_paths().len() ==> !owned_by(
                #[trigger] runtime_paths()[j],
                #[trigger] prefixes[i],
            ),
        forall|i: int, j: int|
            0 <= i < prefixes.len() && 0 <= j < routes.len() + action_routes.len() ==> !owned_by(
                (#[trigger] (routes + action_routes)[j]).path,
                #[trigger] prefixes[i],
            ),
        forall|i: int, j: int|
            0 <= i < j < prefixes.len() ==> !owned_by(#[trigger] prefixes[i], #[trigger] prefixes[j])
                && !owned_by(prefixes[j], prefixes[i]),
{
    let of_route = |i: int| route_problem(routes, i);
    let of_action_route = |i: int| action_route_problem(routes, action_routes, named, actions, i);
    let of_mount = |i: int| mount_problem(prefixes, routes + action_routes, i);
    let all = routes + action_routes;
    lemma_no_problem(routes.len(), of_route);
    lemma_no_problem(action_routes.len(), of_action_route);
    lemma_no_problem(prefixes.len(), of_mount);
    assert forall|j: int| 0 <= j < all.len() implies literal_path((#[trigger] all[j]).path)
        && !runtime_owned(all[j].path) && !claimed_before(all, j) by {
        if j < routes.len() {
            assert(of_route(j) is None);
            if claimed_before(all, j) {
                let i = choose|i: int| 0 <= i < j && #[trigger] all[i] == all[j];
                assert(routes[i] == routes[j]);
            }
        } else {
            assert(of_action_route(j - routes.len()) is None);
        }
    }
    assert forall|i: int, j: int| 0 <= i < j < all.len() implies #[trigger] all[i]
        != #[trigger] all[j] by {
        assert(!claimed_before(all, j));
    }
    assert forall|i: int| 0 <= i < action_routes.len() implies !((
    #[trigger] action_routes[i]).method is Get) && declares(actions, named[i]) by {
        assert(of_action_route(i) is None);
    }
    assert forall|i: int| 0 <= i < prefixes.len() implies literal_path(#[trigger] prefixes[i])
        && !runtime_owned(prefixes[i]) && !mount_hits_runtime(prefixes[i]) by {
        assert(of_mount(i) is None);
        if runtime_paths().contains(prefixes[i]) {
            let k = choose|k: int|
                0 <= k < runtime_paths().len() && runtime_paths()[k] == prefixes[i];
            assert(owned_by(runtime_paths()[k], prefixes[i]));
        }
    }
    assert forall|i: int, j: int| 0 <= i < prefixes.len() && 0 <= j < all.len() implies !owned_by(
        (#[trigger] all[j]).path,
        #[trigger] prefixes[i],
    ) by {
        assert(of_mount(i) is None);
    }
    assert forall|i: int, j: int| 0 <= i < j < prefixes.len() implies !owned_by(
        #[trigger] prefixes[i],
        #[trigger] prefixes[j],
    ) && !owned_by(prefixes[j], prefixes[i]) by {
        assert(of_mount(j) is None);
    }
}

} // verus!
