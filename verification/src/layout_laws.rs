//! Which paths are whose, and which package is served.

use vstd::prelude::*;

use crate::actions::{declares, ActionView};
use crate::http::{
    action_route_problem, claimed_before, covers_endpoint, layout_problem, literal_path,
    mount_hits_runtime, mount_problem, overlaps_mount, owned_by, pattern_char, route_problem,
    runtime_owned, runtime_paths, Endpoint, HttpMethod,
};
use crate::lists::lemma_no_problem;
use crate::protocol_pkg::{
    build_hint, lines_of, newest_of, planned, tail_of, Facts, PkgErrorView, PlanView,
};
use crate::text::{joined, lemma_split_nonempty, split_on};
use crate::text_laws::{
    law_joined_texts_are_all_there, law_split_pieces_join_to_the_text, lemma_mentions, mentions,
};

verus! {

// Paths.

/// Methods have names of their own.
pub proof fn law_methods_have_names_of_their_own(one: HttpMethod, other: HttpMethod)
    ensures
        one.name() == other.name() ==> one == other,
        one.name().len() > 0,
{
    reveal_strlit("Get");
    reveal_strlit("Post");
    reveal_strlit("Put");
    reveal_strlit("Delete");
    assert("Get"@.len() == 3 && "Get"@[0] == 'G');
    assert("Put"@.len() == 3 && "Put"@[0] == 'P');
    assert("Post"@.len() == 4);
    assert("Delete"@.len() == 6);
}

/// A prefix owns itself and whatever stands behind it and a slash, and nothing
/// else: not what only begins with the same characters.
pub proof fn law_a_prefix_owns_what_is_below_it(path: Seq<char>, prefix: Seq<char>)
    ensures
        owned_by(path, prefix) <==> path == prefix || exists|rest: Seq<char>|
            path == #[trigger] (prefix + seq!['/'] + rest),
        owned_by(prefix, prefix),
        forall|c: char| c != '/' ==> !owned_by(#[trigger] prefix.push(c), prefix),
{
    if owned_by(path, prefix) && path != prefix {
        let rest = path.skip((prefix.len() + 1) as int);
        assert(path =~= prefix + seq!['/'] + rest) by {
            assert forall|i: int| 0 <= i < prefix.len() implies path[i] == prefix[i] by {
                assert(path.subrange(0, prefix.len() as int)[i] == path[i]);
            }
        }
    }
    if exists|rest: Seq<char>| path == #[trigger] (prefix + seq!['/'] + rest) {
        let rest = choose|rest: Seq<char>| path == #[trigger] (prefix + seq!['/'] + rest);
        assert(path[prefix.len() as int] == '/');
        assert(path.subrange(0, prefix.len() as int) =~= prefix);
    }
    assert forall|c: char| c != '/' implies !owned_by(#[trigger] prefix.push(c), prefix) by {
        assert(prefix.push(c)[prefix.len() as int] == c);
    }
}

/// What a prefix owns, everything that owns the prefix owns too.
pub proof fn law_ownership_passes_down(path: Seq<char>, middle: Seq<char>, prefix: Seq<char>)
    requires
        owned_by(path, middle),
        owned_by(middle, prefix),
    ensures
        owned_by(path, prefix),
{
    law_a_prefix_owns_what_is_below_it(path, middle);
    law_a_prefix_owns_what_is_below_it(middle, prefix);
    if path != middle && middle != prefix {
        let low = choose|rest: Seq<char>| path == #[trigger] (middle + seq!['/'] + rest);
        let high = choose|rest: Seq<char>| middle == #[trigger] (prefix + seq!['/'] + rest);
        assert(path =~= prefix + seq!['/'] + (high + seq!['/'] + low));
        law_a_prefix_owns_what_is_below_it(path, prefix);
    }
}

/// A literal path begins with a slash, goes on behind it, ends in something else,
/// and holds no space and nothing that a router would read as a pattern.
pub proof fn law_a_literal_path_is_plain(path: Seq<char>, i: int)
    requires
        literal_path(path),
        0 <= i < path.len(),
    ensures
        path.len() >= 2,
        path[0] == '/',
        path.last() != '/',
        !crate::text::is_space(path[i]),
        path[i] != '?' && path[i] != '#' && path[i] != '{' && path[i] != '}' && path[i] != '*',
        i > 0 && path[i] == '/' ==> path[i - 1] != '/' && path[i + 1] != '/' && path[i + 1] != ':',
        path[0] == '/' ==> path[1] != ':' && path[1] != '/',
{
    assert(!pattern_char(path[i]));
    lemma_segment_starts(path, 0);
    if i > 0 && path[i] == '/' {
        lemma_segment_starts(path, i);
        reveal_strlit("//");
        if path[i - 1] == '/' {
            assert(path.subrange(i - 1, i + 1) =~= "//"@);
            assert(crate::text::stands_at(path, "//"@, i - 1));
        }
        if path[i + 1] == '/' {
            assert(path.subrange(i, i + 2) =~= "//"@);
            assert(crate::text::stands_at(path, "//"@, i));
        }
    }
}

/// Behind each slash of a literal path a literal segment begins.
proof fn lemma_segment_starts(path: Seq<char>, at: int)
    requires
        literal_path(path),
        0 <= at < path.len(),
        path[at] == '/',
    ensures
        at + 1 < path.len(),
        path[at + 1] != ':',
        path[at + 1] != '/',
{
    if at + 1 == path.len() {
        assert(path.last() == '/');
    }
    reveal_strlit("//");
    if path[at + 1] == '/' {
        assert(path.subrange(at, at + 2) =~= "//"@);
        assert(crate::text::stands_at(path, "//"@, at));
    }
    let k = lemma_piece_behind(path, '/', at);
    let piece = split_on(path, '/')[k];
    assert(crate::http::literal_segment(piece));
    assert(piece[0] == path[at + 1]);
}

/// The piece of a text that begins behind one of its separators.
proof fn lemma_piece_behind(s: Seq<char>, sep: char, at: int) -> (k: int)
    requires
        0 <= at < s.len(),
        s[at] == sep,
    ensures
        1 <= k < split_on(s, sep).len(),
        split_on(s, sep)[k].len() > 0 ==> at + 1 < s.len() && split_on(s, sep)[k][0] == s[at + 1],
        split_on(s, sep)[k].len() == 0 && k == split_on(s, sep).len() - 1 ==> at + 1 == s.len(),
    decreases s.len(),
{
    let less = s.drop_last();
    lemma_split_nonempty(less, sep);
    let pieces = split_on(less, sep);
    if at == s.len() - 1 {
        pieces.len() as int
    } else {
        assert(less[at] == sep);
        let k = lemma_piece_behind(less, sep, at);
        if s.last() != sep && k == pieces.len() - 1 {
            assert(split_on(s, sep)[k] == pieces.last().push(s.last()));
        } else {
            assert(split_on(s, sep)[k] == pieces[k]);
        }
        k
    }
}

/// What is below a path that the runtime keeps a whole tree of is the runtime's,
/// and a mount there or above any path of the runtime's conflicts with it.
pub proof fn law_the_runtime_keeps_its_trees(rest: Seq<char>, prefix: Seq<char>, i: int)
    requires
        0 <= i < runtime_paths().len(),
    ensures
        runtime_owned(runtime_paths()[i]),
        runtime_owned("/_agui"@ + seq!['/'] + rest),
        runtime_owned("/pkg"@ + seq!['/'] + rest),
        mount_hits_runtime(runtime_paths()[i]),
        mount_hits_runtime("/_agui"@ + seq!['/'] + rest),
        mount_hits_runtime("/pkg"@ + seq!['/'] + rest),
        owned_by(runtime_paths()[i], prefix) ==> mount_hits_runtime(prefix),
{
    law_a_prefix_owns_what_is_below_it("/_agui"@ + seq!['/'] + rest, "/_agui"@);
    law_a_prefix_owns_what_is_below_it("/pkg"@ + seq!['/'] + rest, "/pkg"@);
    law_a_prefix_owns_what_is_below_it(runtime_paths()[i], runtime_paths()[i]);
    assert(runtime_paths().contains(runtime_paths()[i]));
}

/// Every path at which the runtime answers a browser or an agent itself is the
/// runtime's: no route of a surface takes it and no mount covers it.
pub proof fn law_the_runtime_keeps_its_own_paths(prefix: Seq<char>)
    ensures
        runtime_owned("/_agui/client.js"@),
        runtime_owned("/_agui/provider-settings.js"@),
        runtime_owned("/_agui/provider-settings.css"@),
        runtime_owned("/_agui/conversation.js"@),
        runtime_owned("/_agui/conversation.css"@),
        runtime_owned("/_agui/semantic-targets.js"@),
        runtime_owned("/_agui/semantic-targets.css"@),
        runtime_owned("/extensions"@),
        runtime_owned("/activity"@),
        runtime_owned("/activity/events"@),
        runtime_owned("/mcp"@),
        runtime_owned("/ws"@),
        runtime_owned("/events"@),
        runtime_owned("/debug/stats"@),
        runtime_owned("/control"@),
        runtime_owned("/ask"@),
        runtime_owned("/surface/action"@),
        runtime_owned("/surface/me"@),
        runtime_owned("/canvas-tool"@),
        runtime_owned("/provider"@),
        runtime_owned("/auth"@),
        runtime_owned("/connections"@),
        runtime_owned("/models/openrouter"@),
        runtime_owned("/surface/state"@),
        runtime_owned("/canvas-state"@),
        runtime_owned("/canvas.png"@),
        runtime_owned("/canvas-image"@),
        runtime_owned("/semantic-targets"@),
        runtime_owned("/semantic-targets/presence"@),
        runtime_owned("/semantic-targets/focus"@),
        runtime_owned("/semantic-targets/clear"@),
        runtime_owned("/semantic"@),
        runtime_owned("/interrupt"@),
        runtime_owned("/decision"@),
        runtime_owned("/pkg"@),
        forall|i: int|
            0 <= i < runtime_paths().len() && owned_by(#[trigger] runtime_paths()[i], prefix)
                ==> mount_hits_runtime(prefix),
{
    let paths = runtime_paths();
    assert(paths[0] == "/_agui/client.js"@);
    assert(paths[1] == "/_agui/provider-settings.js"@);
    assert(paths[2] == "/_agui/provider-settings.css"@);
    assert(paths[3] == "/_agui/conversation.js"@);
    assert(paths[4] == "/_agui/conversation.css"@);
    assert(paths[5] == "/_agui/semantic-targets.js"@);
    assert(paths[6] == "/_agui/semantic-targets.css"@);
    assert(paths[7] == "/extensions"@);
    assert(paths[8] == "/activity"@);
    assert(paths[9] == "/activity/events"@);
    assert(paths[10] == "/mcp"@);
    assert(paths[11] == "/ws"@);
    assert(paths[12] == "/events"@);
    assert(paths[13] == "/debug/stats"@);
    assert(paths[14] == "/control"@);
    assert(paths[15] == "/ask"@);
    assert(paths[16] == "/surface/action"@);
    assert(paths[17] == "/surface/me"@);
    assert(paths[18] == "/canvas-tool"@);
    assert(paths[19] == "/provider"@);
    assert(paths[20] == "/auth"@);
    assert(paths[21] == "/connections"@);
    assert(paths[22] == "/models/openrouter"@);
    assert(paths[23] == "/surface/state"@);
    assert(paths[24] == "/canvas-state"@);
    assert(paths[25] == "/canvas.png"@);
    assert(paths[26] == "/canvas-image"@);
    assert(paths[27] == "/semantic-targets"@);
    assert(paths[28] == "/semantic-targets/presence"@);
    assert(paths[29] == "/semantic-targets/focus"@);
    assert(paths[30] == "/semantic-targets/clear"@);
    assert(paths[31] == "/semantic"@);
    assert(paths[32] == "/interrupt"@);
    assert(paths[33] == "/decision"@);
    assert(paths[34] == "/pkg"@);
}

/// A layout without conflicts is accepted: where every path and prefix is
/// literal and not the runtime's, no two routes are the same, every action route
/// mutates through a declared action, no two mounts overlap and no mount covers a
/// route.
pub proof fn law_a_layout_without_conflicts_is_accepted(
    routes: Seq<Endpoint>,
    action_routes: Seq<Endpoint>,
    named: Seq<Seq<char>>,
    actions: Seq<ActionView>,
    prefixes: Seq<Seq<char>>,
)
    requires
        named.len() == action_routes.len(),
        (routes + action_routes).no_duplicates(),
        forall|i: int|
            0 <= i < routes.len() + action_routes.len() ==> literal_path(
                (#[trigger] (routes + action_routes)[i]).path,
            ) && !runtime_owned((routes + action_routes)[i].path),
        forall|i: int|
            0 <= i < action_routes.len() ==> !((#[trigger] action_routes[i]).method is Get)
                && declares(actions, named[i]),
        forall|i: int|
            0 <= i < prefixes.len() ==> literal_path(#[trigger] prefixes[i])
                && !mount_hits_runtime(prefixes[i]),
        forall|i: int, j: int|
            0 <= i < prefixes.len() && 0 <= j < routes.len() + action_routes.len() ==> !owned_by(
                (#[trigger] (routes + action_routes)[j]).path,
                #[trigger] prefixes[i],
            ),
        forall|i: int, j: int|
            0 <= i < j < prefixes.len() ==> !owned_by(#[trigger] prefixes[i], #[trigger] prefixes[j])
                && !owned_by(prefixes[j], prefixes[i]),
    ensures
        layout_problem(routes, action_routes, named, actions, prefixes) is None,
{
    let all = routes + action_routes;
    let of_route = |i: int| route_problem(routes, i);
    let of_action_route = |i: int| action_route_problem(routes, action_routes, named, actions, i);
    let of_mount = |i: int| mount_problem(prefixes, all, i);
    lemma_no_problem(routes.len(), of_route);
    lemma_no_problem(action_routes.len(), of_action_route);
    lemma_no_problem(prefixes.len(), of_mount);
    assert forall|i: int| 0 <= i < routes.len() implies (#[trigger] of_route(i)) is None by {
        assert(all[i] == routes[i]);
        if claimed_before(routes, i) {
            let j = choose|j: int| 0 <= j < i && #[trigger] routes[j] == routes[i];
            assert(all[j] == all[i]);
        }
    }
    assert forall|i: int| 0 <= i < action_routes.len() implies (#[trigger] of_action_route(i))
        is None by {
        let at = routes.len() + i;
        assert(all[at] == action_routes[i]);
        if claimed_before(all, at) {
            let j = choose|j: int| 0 <= j < at && #[trigger] all[j] == all[at];
        }
    }
    assert forall|i: int| 0 <= i < prefixes.len() implies (#[trigger] of_mount(i)) is None by {
        if overlaps_mount(prefixes, i) {
            let j = choose|j: int|
                0 <= j < i && (owned_by(prefixes[i], #[trigger] prefixes[j]) || owned_by(
                    prefixes[j],
                    prefixes[i],
                ));
        }
        if covers_endpoint(prefixes[i], all) {
            let j = choose|j: int|
                0 <= j < all.len() && owned_by((#[trigger] all[j]).path, prefixes[i]);
        }
    }
}

// The package.

/// A package that was named is served where it is there and refused where it is
/// not, whatever could be built. Otherwise the default one is served as it is
/// while it is current, built where that is needed and can be done, served with a
/// warning where it is there but stale, and refused where there is none.
pub proof fn law_a_plan_follows_what_is_there(
    explicit: Option<Seq<char>>,
    default_dir: Seq<char>,
    crate_dir: Seq<char>,
    facts: Facts,
)
    ensures
        ({
            let plan = planned(explicit, default_dir, crate_dir, facts);
            let dir = match explicit {
                Some(dir) => dir,
                None => default_dir,
            };
            let buildable = explicit is None && facts.wasm_pack && facts.checkout;
            let current = facts.built && (explicit is Some || !facts.stale);
            &&& plan is Build <==> !current && buildable
            &&& plan is Refuse <==> !facts.built && !buildable
            &&& plan is Serve <==> facts.built && (current || !buildable)
            &&& plan matches PlanView::Serve { dir: served, stale_warning } ==> served == dir
                && stale_warning == !current
            &&& plan matches PlanView::Build { crate_dir: built, dir: served } ==> built
                == crate_dir && served == dir
        }),
{
}

/// A refusal says how to get a package, and from which sources, and names the
/// directory where one was named.
pub proof fn law_a_refusal_says_how_to_get_a_package(
    explicit: Option<Seq<char>>,
    default_dir: Seq<char>,
    crate_dir: Seq<char>,
    facts: Facts,
)
    ensures
        mentions(build_hint(crate_dir), crate_dir),
        planned(explicit, default_dir, crate_dir, facts) matches PlanView::Refuse(reason) ==> {
            &&& build_hint(crate_dir).is_suffix_of(reason)
            &&& explicit matches Some(dir) ==> mentions(reason, dir)
        },
{
    let hint = build_hint(crate_dir);
    lemma_mentions(
        hint,
        "build it with `wasm-pack build "@,
        crate_dir,
        " --release --target web --out-dir pkg` or point App::protocol_pkg_dir(...) at a built package"@,
    );
    if let PlanView::Refuse(reason) = planned(explicit, default_dir, crate_dir, facts) {
        assert(reason.subrange(reason.len() - hint.len(), reason.len() as int) =~= hint);
        if let Some(dir) = explicit {
            let tail =
                ") does not contain ag_ui_wasm_client.js and ag_ui_wasm_client_bg.wasm; "@ + hint;
            assert(reason =~= "App::protocol_pkg_dir("@ + dir + tail);
            lemma_mentions(reason, "App::protocol_pkg_dir("@, dir, tail);
        }
    }
}

/// The newest moment is one of those that are known, none of them is later, and
/// there is one where any is known.
pub proof fn law_no_moment_is_later_than_the_newest(moments: Seq<Option<u128>>)
    ensures
        newest_of(moments) is Some ==> moments.contains(newest_of(moments)),
        forall|i: int|
            0 <= i < moments.len() ==> ((#[trigger] moments[i]) matches Some(moment) ==> (
            newest_of(moments) matches Some(newest) && moment <= newest)),
    decreases moments.len(),
{
    if moments.len() > 0 {
        let less = moments.drop_last();
        law_no_moment_is_later_than_the_newest(less);
        assert forall|i: int| 0 <= i < moments.len() implies ((#[trigger] moments[i]) matches Some(
            moment,
        ) ==> (newest_of(moments) matches Some(newest) && moment <= newest)) by {
            if i < less.len() {
                assert(less[i] == moments[i]);
            }
        }
        if newest_of(moments) is Some {
            if newest_of(moments) == moments.last() {
                assert(moments[moments.len() - 1] == newest_of(moments));
            } else {
                let k = choose|k: int| 0 <= k < less.len() && less[k] == newest_of(less);
                assert(moments[k] == newest_of(moments));
            }
        }
    }
}

/// The lines of a text without carriage returns are the text: joined by newlines
/// they give it back, but for a newline at its end, and no line holds one.
pub proof fn law_lines_are_the_text(text: Seq<char>)
    requires
        !text.contains('\r'),
    ensures
        text.len() == 0 ==> lines_of(text).len() == 0,
        text.len() > 0 && text.last() != '\n' ==> joined(lines_of(text), seq!['\n']) == text,
        text.len() > 0 && text.last() == '\n' ==> joined(lines_of(text), seq!['\n']) + seq!['\n']
            == text,
        forall|k: int|
            0 <= k < lines_of(text).len() ==> !(#[trigger] lines_of(text)[k]).contains('\n'),
{
    let pieces = split_on(text, '\n');
    lemma_split_nonempty(text, '\n');
    law_split_pieces_join_to_the_text(text, '\n');
    let lines = lines_of(text);
    assert forall|k: int| 0 <= k < lines.len() implies #[trigger] lines[k] == pieces[k] by {
        if pieces[k].len() > 0 && pieces[k].last() == '\r' {
            law_joined_texts_are_all_there(pieces, seq!['\n'], k);
            let part = pieces[k];
            let at = choose|at: int|
                0 <= at && #[trigger] text.skip(at).take(part.len() as int) == part && at
                    + part.len() <= text.len();
            assert(text[at + part.len() - 1] == text.skip(at).take(part.len() as int)[part.len()
                - 1]);
        }
    }
    if pieces.last().len() > 0 {
        assert(lines =~= pieces);
    } else {
        assert(lines =~= pieces.drop_last());
    }
    if text.len() > 0 {
        if text.last() == '\n' {
            assert(pieces.last() =~= Seq::<char>::empty());
            lemma_split_nonempty(text.drop_last(), '\n');
            assert(pieces.len() > 1);
            assert(joined(pieces, seq!['\n']) =~= joined(lines, seq!['\n']) + seq!['\n']);
        } else {
            assert(pieces.last().len() > 0);
        }
    }
}

/// What is kept of a build's output is its end: all of it up to thirty lines, and
/// the last thirty of more.
pub proof fn law_the_end_of_the_output_is_kept(lines: Seq<Seq<char>>)
    ensures
        tail_of(lines).is_suffix_of(lines),
        lines.len() <= 30 ==> tail_of(lines) == lines,
        lines.len() > 30 ==> tail_of(lines).len() == 30,
{
    let tail = tail_of(lines);
    assert(lines.subrange(lines.len() - tail.len(), lines.len() as int) =~= tail);
}

/// An error of the package says where it happened and what is known of it.
pub proof fn law_a_package_error_says_everything(error: PkgErrorView)
    ensures
        error matches PkgErrorView::Missing { dir, missing, hint } ==> mentions(error.text(), dir)
            && mentions(error.text(), missing) && hint.is_suffix_of(error.text()),
        error matches PkgErrorView::NotACheckout { crate_dir } ==> mentions(error.text(), crate_dir),
        error matches PkgErrorView::Spawn { crate_dir, source } ==> mentions(error.text(), crate_dir)
            && source.is_suffix_of(error.text()),
        error matches PkgErrorView::Build { crate_dir, status, stderr_tail } ==> mentions(
            error.text(),
            crate_dir,
        ) && mentions(error.text(), status) && stderr_tail.is_suffix_of(error.text()),
{
    let text = error.text();
    match error {
        PkgErrorView::Missing { dir, missing, hint } => {
            let head = "protocol package "@;
            let rest = " is missing "@ + missing + ("; "@ + hint);
            assert(text =~= head + dir + rest);
            lemma_mentions(text, head, dir, rest);
            lemma_mentions(text, head + dir + " is missing "@, missing, "; "@ + hint);
            assert(text.subrange(text.len() - hint.len(), text.len() as int) =~= hint);
        },
        PkgErrorView::NotACheckout { crate_dir } => {
            lemma_mentions(
                text,
                "protocol client crate "@,
                crate_dir,
                " is not a checkout (no Cargo.toml); set App::protocol_pkg_dir(...) to a built package"@,
            );
        },
        PkgErrorView::Spawn { crate_dir, source } => {
            let head = "wasm-pack could not be started for "@;
            assert(text =~= head + crate_dir + (": "@ + source));
            lemma_mentions(text, head, crate_dir, ": "@ + source);
            assert(text.subrange(text.len() - source.len(), text.len() as int) =~= source);
        },
        PkgErrorView::Build { crate_dir, status, stderr_tail } => {
            let head = "wasm-pack build of "@;
            let rest = " failed ("@ + status + ("):\n"@ + stderr_tail);
            assert(text =~= head + crate_dir + rest);
            lemma_mentions(text, head, crate_dir, rest);
            lemma_mentions(text, head + crate_dir + " failed ("@, status, "):\n"@ + stderr_tail);
            assert(text.subrange(text.len() - stderr_tail.len(), text.len() as int)
                =~= stderr_tail);
        },
    }
}

} // verus!
