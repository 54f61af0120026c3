//! What a browser is told of the extensions, and where their files are.

use vstd::prelude::*;

use crate::actions::ActionView;
use crate::client_module::{
    all_assets, asset_path, asset_problem, assets_of, descriptor_value, for_humans, foreign_action,
    human_actions, id_taken, is_module_id, manifest_of, manifest_problem, manifest_value,
    mount_path, mount_taken, mounted_at, ownership_problem, place_problem, same_origin, url_path,
    value_problem, values_problem, AssetView, DescriptorView, ModuleView,
};
use crate::http::Mount;
use crate::json::{
    group_reading, item_under, law_texts_are_read_back, lists_under, read_texts, under, JsonView,
};
use crate::launch::{assets_present, assets_problem};
use crate::lists::lemma_no_problem;
use crate::text::{begins_with, blank, has_text, trim_end_of, trim_start_of};

verus! {

// Modules.

/// An extension's id is made of small letters, digits, dots, underscores and
/// dashes, and is not empty.
pub proof fn law_an_extension_id_is_plain(id: Seq<char>)
    ensures
        is_module_id(id) <==> id.len() > 0 && forall|i: int|
            0 <= i < id.len() ==> 'a' <= #[trigger] id[i] <= 'z' || '0' <= id[i] <= '9' || id[i]
                == '.' || id[i] == '_' || id[i] == '-',
{
    assert forall|i: int| 0 <= i < id.len() implies crate::client_module::is_module_id_char(
        #[trigger] id[i],
    ) == ('a' <= id[i] <= 'z' || '0' <= id[i] <= '9' || id[i] == '.' || id[i] == '_' || id[i]
        == '-') by {}
    if id.len() > 0 && forall|i: int|
        0 <= i < id.len() ==> 'a' <= #[trigger] id[i] <= 'z' || '0' <= id[i] <= '9' || id[i] == '.'
            || id[i] == '_' || id[i] == '-' {
        assert(is_module_id(id));
    }
    if is_module_id(id) {
        assert forall|i: int| 0 <= i < id.len() implies 'a' <= #[trigger] id[i] <= 'z' || '0'
            <= id[i] <= '9' || id[i] == '.' || id[i] == '_' || id[i] == '-' by {
            assert(crate::client_module::is_module_id_char(id[i]));
        }
    }
}

/// A path of the same origin begins with one slash, and nowhere in it are two
/// dots together, a backslash, or the mark behind a scheme.
pub proof fn law_a_path_of_the_same_origin_stays_there(path: Seq<char>)
    ensures
        same_origin(path) ==> {
            &&& path.len() > 0 && path[0] == '/'
            &&& path.len() > 1 ==> path[1] != '/'
            &&& forall|i: int| 0 <= i < path.len() ==> #[trigger] path[i] != '\\'
            &&& forall|i: int|
                0 <= i < path.len() - 1 && #[trigger] path[i] == '.' ==> path[i + 1] != '.'
            &&& forall|i: int|
                0 <= i < path.len() - 2 && #[trigger] path[i] == ':' && path[i + 1] == '/'
                    ==> path[i + 2] != '/'
        },
        path.len() > 0 && path[0] == '/' && (path.len() > 1 ==> path[1] != '/') && (forall|i: int|
            0 <= i < path.len() ==> #[trigger] path[i] != '.' && path[i] != '\\' && path[i] != ':')
            ==> same_origin(path),
{
    reveal_strlit("/");
    reveal_strlit("//");
    reveal_strlit("..");
    reveal_strlit("://");
    if same_origin(path) {
        assert(path.subrange(0, 1)[0] == path[0]);
        if path.len() > 1 && path[1] == '/' {
            assert(path.subrange(0, 2) =~= "//"@);
        }
        assert forall|i: int| 0 <= i < path.len() - 1 && #[trigger] path[i] == '.' implies path[i
            + 1] != '.' by {
            if path[i + 1] == '.' {
                assert(path.subrange(i, i + 2) =~= ".."@);
                assert(crate::text::stands_at(path, ".."@, i));
            }
        }
        assert forall|i: int|
            0 <= i < path.len() - 2 && #[trigger] path[i] == ':' && path[i + 1] == '/' implies path[i
            + 2] != '/' by {
            if path[i + 2] == '/' {
                assert(path.subrange(i, i + 3) =~= "://"@);
                assert(crate::text::stands_at(path, "://"@, i));
            }
        }
    }
    if path.len() > 0 && path[0] == '/' && (path.len() > 1 ==> path[1] != '/') && (forall|i: int|
        0 <= i < path.len() ==> #[trigger] path[i] != '.' && path[i] != '\\' && path[i] != ':') {
        assert(path.subrange(0, 1) =~= "/"@);
        if begins_with(path, "//"@) {
            assert(path.subrange(0, 2)[1] == path[1]);
        }
        if has_text(path, ".."@) {
            let at = choose|at: int| crate::text::stands_at(path, ".."@, at);
            assert(path.subrange(at, at + 2)[0] == path[at]);
        }
        if has_text(path, "://"@) {
            let at = choose|at: int| crate::text::stands_at(path, "://"@, at);
            assert(path.subrange(at, at + 3)[0] == path[at]);
        }
    }
}

/// A list of names is accepted exactly where none is blank and none stands in it
/// twice.
pub proof fn law_listed_names_are_distinct(id: Seq<char>, kind: Seq<char>, values: Seq<Seq<char>>)
    ensures
        values_problem(id, kind, values) is None <==> values.no_duplicates() && forall|i: int|
            0 <= i < values.len() ==> !blank(#[trigger] values[i]),
{
    let problem = |i: int| value_problem(id, kind, values, i);
    lemma_no_problem(values.len(), problem);
    if values_problem(id, kind, values) is None {
        assert forall|i: int| 0 <= i < values.len() implies !blank(#[trigger] values[i]) by {
            assert(problem(i) is None);
        }
        assert forall|i: int, j: int|
            0 <= i < values.len() && 0 <= j < values.len() && i != j implies values[i]
            != values[j] by {
            let (low, high) = if i < j {
                (i, j)
            } else {
                (j, i)
            };
            assert(problem(high) is None);
            assert(values.take(high)[low] == values[low]);
        }
    }
    if values.no_duplicates() && forall|i: int|
        0 <= i < values.len() ==> !blank(#[trigger] values[i]) {
        assert forall|i: int| 0 <= i < values.len() implies (#[trigger] problem(i)) is None by {
            if values.take(i).contains(values[i]) {
                let j = choose|j: int|
                    0 <= j < values.take(i).len() && values.take(i)[j] == values[i];
                assert(values[j] == values[i]);
            }
        }
    }
}

/// Whether some names are distinct and none is blank.
pub open spec fn distinct_names(values: Seq<Seq<char>>) -> bool {
    values.no_duplicates() && forall|i: int| 0 <= i < values.len() ==> !blank(#[trigger] values[i])
}

/// A module is accepted exactly where its id is plain, its version and its mount
/// say something, what it lists is distinct, and every path of it is of the same
/// origin.
pub proof fn law_a_module_is_accepted_as_a_whole(module: ModuleView)
    ensures
        module.problem() is None <==> {
            &&& is_module_id(module.id)
            &&& !blank(module.version)
            &&& !blank(module.mount_id)
            &&& distinct_names(module.events)
            &&& distinct_names(module.capabilities)
            &&& module.actions matches Some(actions) ==> distinct_names(actions)
            &&& module.module matches Some(path) ==> same_origin(path)
            &&& module.wasm matches Some(wasm) ==> same_origin(wasm.js) && same_origin(wasm.wasm)
        },
{
    law_listed_names_are_distinct(module.id, "event"@, module.events);
    law_listed_names_are_distinct(module.id, "capability"@, module.capabilities);
    if let Some(actions) = module.actions {
        law_listed_names_are_distinct(module.id, "action"@, actions);
    }
}

/// A name is among those that a person may call exactly where an action of that
/// name admits people.
pub proof fn law_people_may_call_what_admits_them(actions: Seq<ActionView>, name: Seq<char>)
    ensures
        human_actions(actions).contains(name) <==> exists|i: int|
            0 <= i < actions.len() && (#[trigger] actions[i]).audience.admits_human()
                && actions[i].name == name,
{
    let kept = actions.filter(for_humans());
    let names = human_actions(actions);
    if names.contains(name) {
        let k = choose|k: int| 0 <= k < names.len() && names[k] == name;
        assert(kept.contains(kept[k]));
        actions.lemma_filter_contains_rev(for_humans(), kept[k]);
        actions.lemma_filter_pred(for_humans(), k);
        let i = choose|i: int| 0 <= i < actions.len() && actions[i] == kept[k];
        assert(actions[i].audience.admits_human());
    }
    if exists|i: int|
        0 <= i < actions.len() && (#[trigger] actions[i]).audience.admits_human() && actions[i].name
            == name {
        let i = choose|i: int|
            0 <= i < actions.len() && (#[trigger] actions[i]).audience.admits_human()
                && actions[i].name == name;
        actions.lemma_filter_contains(for_humans(), i);
        assert(kept.contains(actions[i]));
        let k = choose|k: int| 0 <= k < kept.len() && kept[k] == actions[i];
        assert(names[k] == name);
    }
}

/// Modules make a manifest exactly where each is accepted, no two have one id or
/// one mount, every action that one owns is one that a person may call, and each
/// of several says which it owns.
pub proof fn law_modules_make_a_manifest_together(modules: Seq<ModuleView>, human: Seq<Seq<char>>)
    ensures
        manifest_problem(modules, human) is None <==> {
            &&& forall|i: int| 0 <= i < modules.len() ==> (#[trigger] modules[i]).problem() is None
            &&& forall|i: int, j: int|
                0 <= i < j < modules.len() ==> (#[trigger] modules[i]).id != (
                #[trigger] modules[j]).id && modules[i].mount_id != modules[j].mount_id
            &&& forall|i: int|
                0 <= i < modules.len() ==> owns_human_actions(#[trigger] modules[i], human)
            &&& modules.len() > 1 ==> forall|i: int|
                0 <= i < modules.len() ==> (#[trigger] modules[i]).actions is Some
        },
{
    let problem = |i: int| place_problem(modules, human, i);
    lemma_no_problem(modules.len(), problem);
    let composed = modules.len() > 1;
    assert forall|i: int| 0 <= i < modules.len() implies (ownership_problem(
        #[trigger] modules[i],
        human,
        composed,
    ) is None <==> owns_human_actions(modules[i], human) && (composed ==> modules[i].actions
        is Some)) by {
        if let Some(actions) = modules[i].actions {
            let foreign = |k: int| foreign_action(modules[i].id, actions, human, k);
            lemma_no_problem(actions.len(), foreign);
            if ownership_problem(modules[i], human, composed) is None {
                assert forall|k: int| 0 <= k < actions.len() implies human.contains(
                    #[trigger] actions[k],
                ) by {
                    assert(foreign(k) is None);
                }
            } else {
                let k = choose|k: int| 0 <= k < actions.len() && (#[trigger] foreign(k)) is Some;
                assert(!human.contains(actions[k]));
            }
        }
    }
    if manifest_problem(modules, human) is None {
        assert forall|i: int| 0 <= i < modules.len() implies (#[trigger] modules[i]).problem()
            is None && owns_human_actions(modules[i], human) && (composed ==> modules[i].actions
            is Some) by {
            assert(problem(i) is None);
        }
        assert forall|i: int, j: int| 0 <= i < j < modules.len() implies (#[trigger] modules[i]).id
            != (#[trigger] modules[j]).id && modules[i].mount_id != modules[j].mount_id by {
            assert(problem(j) is None);
            assert(!id_taken(modules, j) && !mount_taken(modules, j));
        }
    } else {
        let i = choose|i: int| 0 <= i < modules.len() && (#[trigger] problem(i)) is Some;
        if id_taken(modules, i) {
            let j = choose|j: int| 0 <= j < i && (#[trigger] modules[j]).id == modules[i].id;
            assert(modules[j].id == modules[i].id);
        } else if mount_taken(modules, i) {
            let j = choose|j: int|
                0 <= j < i && (#[trigger] modules[j]).mount_id == modules[i].mount_id;
            assert(modules[j].mount_id == modules[i].mount_id);
        }
        assert(modules[i].problem() is Some || id_taken(modules, i) || mount_taken(modules, i)
            || ownership_problem(modules[i], human, composed) is Some);
    }
}

/// Whether every action that a module says it owns is one that a person may
/// call.
pub open spec fn owns_human_actions(module: ModuleView, human: Seq<Seq<char>>) -> bool {
    module.actions matches Some(actions) ==> forall|k: int|
        0 <= k < actions.len() ==> human.contains(#[trigger] actions[k])
}

// On the wire.

/// The names of a manifest's members differ.
proof fn lemma_names()
    ensures
        "id"@.len() == 2,
        "id"@[0] == 'i',
        "version"@.len() == 7,
        "version"@[0] == 'v',
        "loading"@.len() == 7,
        "loading"@[0] == 'l',
        "module"@.len() == 6,
        "module"@[0] == 'm',
        "mount"@.len() == 5,
        "actions"@.len() == 7,
        "actions"@[0] == 'a',
        "events"@.len() == 6,
        "events"@[0] == 'e',
        "capabilities"@.len() == 12,
        "required"@.len() == 8,
        "required"@[0] == 'r',
        "wasm"@.len() == 4,
        "pkgName"@.len() == 7,
        "pkgName"@[0] == 'p',
        "js"@.len() == 2,
        "js"@[0] == 'j',
        "schemaVersion"@.len() == 13,
        "protocol"@.len() == 8,
        "protocol"@[0] == 'p',
        "extensions"@.len() == 10,
{
    reveal_strlit("id");
    reveal_strlit("version");
    reveal_strlit("loading");
    reveal_strlit("module");
    reveal_strlit("mount");
    reveal_strlit("actions");
    reveal_strlit("events");
    reveal_strlit("capabilities");
    reveal_strlit("required");
    reveal_strlit("wasm");
    reveal_strlit("pkgName");
    reveal_strlit("js");
    reveal_strlit("schemaVersion");
    reveal_strlit("protocol");
    reveal_strlit("extensions");
}

/// A browser reads of each module what the module says of itself: where a module
/// lists no actions it owns all that a person may call, and it is loaded by the
/// browser exactly where it has a path to load it from.
pub proof fn law_a_browser_is_told_of_each_module(
    modules: Seq<ModuleView>,
    human: Seq<Seq<char>>,
    i: int,
)
    requires
        0 <= i < modules.len(),
    ensures
        ({
            let value = manifest_value(manifest_of(modules, human));
            let told = item_under(value, "extensions"@, i);
            let module = modules[i];
            &&& lists_under(value, "extensions"@, modules.len())
            &&& under(value, "protocol"@) == JsonView::Text("ag-ui"@)
            &&& under(value, "schemaVersion"@) == JsonView::Number("1"@)
            &&& under(told, "id"@) == JsonView::Text(module.id)
            &&& under(told, "version"@) == JsonView::Text(module.version)
            &&& under(told, "mount"@) == JsonView::Text(module.mount_id)
            &&& under(told, "required"@) == JsonView::Bool(module.required)
            &&& read_texts(under(told, "events"@)) == module.events
            &&& read_texts(under(told, "capabilities"@)) == module.capabilities
            &&& module.actions matches Some(actions) ==> read_texts(under(told, "actions"@))
                == actions
            &&& module.actions is None ==> read_texts(under(told, "actions"@)) == human
            &&& match module.module {
                Some(path) => under(told, "module"@) == JsonView::Text(path) && under(
                    told,
                    "loading"@,
                ) == JsonView::Text("lazy"@),
                None => under(told, "module"@) is Null && under(told, "loading"@)
                    == JsonView::Text("host"@),
            }
            &&& match module.wasm {
                Some(wasm) => under(under(told, "wasm"@), "pkgName"@) == JsonView::Text(
                    wasm.pkg_name,
                ) && under(under(told, "wasm"@), "js"@) == JsonView::Text(wasm.js) && under(
                    under(told, "wasm"@),
                    "wasm"@,
                ) == JsonView::Text(wasm.wasm),
                None => under(told, "wasm"@) is Null,
            }
        }),
{
    broadcast use group_reading;

    lemma_names();
    let manifest = manifest_of(modules, human);
    let extension = manifest.extensions[i];
    assert(item_under(manifest_value(manifest), "extensions"@, i) == descriptor_value(extension));
    law_texts_are_read_back(extension.events);
    law_texts_are_read_back(extension.capabilities);
    law_texts_are_read_back(extension.actions);
    reveal_strlit("1");
    reveal_with_fuel(crate::text::decimal, 2);
    assert(crate::text::decimal(1) =~= "1"@);
}

// Assets.

/// The path of a url is what stands before its query and its fragment.
pub proof fn law_a_url_path_ends_before_its_query(url: Seq<char>, more: Seq<char>)
    ensures
        url_path(url).is_prefix_of(url),
        !url_path(url).contains('?') && !url_path(url).contains('#'),
        url_path(url).len() < url.len() ==> url[url_path(url).len() as int] == '?'
            || url[url_path(url).len() as int] == '#',
        url_path(url) == url ==> url_path(url + seq!['?'] + more) == url && url_path(
            url + seq!['#'] + more,
        ) == url,
    decreases url.len(),
{
    let path = url_path(url);
    if url.len() > 0 && url[0] != '?' && url[0] != '#' {
        let rest = url.skip(1);
        law_a_url_path_ends_before_its_query(rest, more);
        assert(path.len() == 1 + url_path(rest).len());
        assert forall|i: int| 0 <= i < path.len() implies path[i] == url[i] && path[i] != '?'
            && path[i] != '#' by {
            if i > 0 {
                assert(path[i] == url_path(rest)[i - 1]);
                assert(url_path(rest).contains(url_path(rest)[i - 1]));
                assert(rest.subrange(0, url_path(rest).len() as int)[i - 1] == rest[i - 1]);
            }
        }
        if path == url {
            assert(url_path(rest) =~= rest) by {
                assert(path.skip(1) =~= url_path(rest));
            }
            assert((url + seq!['?'] + more).skip(1) =~= rest + seq!['?'] + more);
            assert((url + seq!['#'] + more).skip(1) =~= rest + seq!['#'] + more);
            assert(url_path(url + seq!['?'] + more) =~= url);
            assert(url_path(url + seq!['#'] + more) =~= url);
        }
        if path.len() < url.len() {
            assert(url[path.len() as int] == rest[url_path(rest).len() as int]);
        }
    } else if url.len() == 0 {
        assert((url + seq!['?'] + more)[0] == '?');
        assert((url + seq!['#'] + more)[0] == '#');
    }
    assert(url.subrange(0, path.len() as int) =~= path);
}

/// A mount's files are behind its prefix and a slash, however the prefix is
/// written.
pub proof fn law_a_mount_is_at_its_prefix(name: Seq<char>)
    requires
        name.len() > 0,
        name[0] != '/',
        name.last() != '/',
    ensures
        mount_path(name) == seq!['/'] + name + seq!['/'],
        mount_path(seq!['/'] + name) == seq!['/'] + name + seq!['/'],
        mount_path(seq!['/'] + name + seq!['/']) == seq!['/'] + name + seq!['/'],
{
    reveal_strlit("/");
    assert("/"@ =~= seq!['/']);
    let led = seq!['/'] + name;
    let closed = led + seq!['/'];
    assert(trim_end_of(name, '/') == name);
    assert(trim_start_of(name, '/') == name);
    assert(led.last() == name.last());
    assert(trim_end_of(led, '/') == led);
    assert(led.skip(1) =~= name);
    assert(trim_start_of(led, '/') == name);
    assert(closed.drop_last() =~= led);
    assert(trim_end_of(closed, '/') == led);
}

/// What is behind the prefix of the first mount that has a path is looked for in
/// that mount's directory, and a path that no mount has is in none.
pub proof fn law_the_first_mount_has_a_path(path: Seq<char>, mounts: Seq<Mount>)
    ensures
        mounted_at(path, mounts) is None <==> forall|k: int|
            0 <= k < mounts.len() ==> !begins_with(path, mount_path((#[trigger] mounts[k]).prefix@)),
        forall|k: int|
            0 <= k < mounts.len() && begins_with(path, mount_path((#[trigger] mounts[k]).prefix@))
                && (forall|j: int|
                0 <= j < k ==> !begins_with(path, mount_path((#[trigger] mounts[j]).prefix@)))
                ==> mounted_at(path, mounts) == Some(
                crate::paths::under(
                    mounts[k].dir@,
                    path.skip(mount_path(mounts[k].prefix@).len() as int),
                ),
            ),
    decreases mounts.len(),
{
    if mounts.len() > 0 {
        let rest = mounts.skip(1);
        law_the_first_mount_has_a_path(path, rest);
        let first = begins_with(path, mount_path(mounts[0].prefix@));
        if !first {
            if mounted_at(path, rest) is None {
                assert forall|k: int| 0 <= k < mounts.len() implies !begins_with(
                    path,
                    mount_path((#[trigger] mounts[k]).prefix@),
                ) by {
                    if k > 0 {
                        assert(rest[k - 1] == mounts[k]);
                    }
                }
            } else {
                let k = choose|k: int|
                    0 <= k < rest.len() && begins_with(
                        path,
                        mount_path((#[trigger] rest[k]).prefix@),
                    );
                assert(mounts[k + 1] == rest[k]);
            }
        }
        assert forall|k: int|
            0 <= k < mounts.len() && begins_with(path, mount_path((#[trigger] mounts[k]).prefix@))
                && (forall|j: int|
                0 <= j < k ==> !begins_with(
                    path,
                    mount_path((#[trigger] mounts[j]).prefix@),
                )) implies mounted_at(path, mounts) == Some(
            crate::paths::under(
                mounts[k].dir@,
                path.skip(mount_path(mounts[k].prefix@).len() as int),
            ),
        ) by {
            if k > 0 {
                assert(!begins_with(path, mount_path(mounts[0].prefix@)));
                assert(rest[k - 1] == mounts[k]);
                assert forall|j: int| 0 <= j < k - 1 implies !begins_with(
                    path,
                    mount_path((#[trigger] rest[j]).prefix@),
                ) by {
                    assert(rest[j] == mounts[j + 1]);
                }
            }
        }
    }
}

/// A package's file is in the package directory, another file in the static
/// directory where no mount has it, and a query or a fragment changes nothing.
pub proof fn law_an_asset_is_where_its_path_says(
    rest: Seq<char>,
    more: Seq<char>,
    static_dir: Seq<char>,
    pkg_dir: Option<Seq<char>>,
    mounts: Seq<Mount>,
)
    requires
        url_path(rest) == rest,
    ensures
        pkg_dir matches Some(dir) ==> asset_path("/pkg/"@ + rest, static_dir, pkg_dir, mounts)
            == Some(crate::paths::under(dir, rest)),
        pkg_dir is None ==> asset_path("/pkg/"@ + rest, static_dir, pkg_dir, mounts) is None,
        !begins_with(rest, "/pkg/"@) ==> (mounted_at(rest, mounts) matches Some(found)
            ==> asset_path(rest, static_dir, pkg_dir, mounts) == Some(found)),
        !begins_with(rest, "/pkg/"@) && mounted_at(rest, mounts) is None ==> asset_path(
            rest,
            static_dir,
            pkg_dir,
            mounts,
        ) == Some(crate::paths::under(static_dir, trim_start_of(rest, '/'))),
        asset_path(rest + seq!['?'] + more, static_dir, pkg_dir, mounts) == asset_path(
            rest,
            static_dir,
            pkg_dir,
            mounts,
        ),
        asset_path(rest + seq!['#'] + more, static_dir, pkg_dir, mounts) == asset_path(
            rest,
            static_dir,
            pkg_dir,
            mounts,
        ),
{
    law_a_url_path_ends_before_its_query(rest, more);
    reveal_strlit("/pkg/");
    let url = "/pkg/"@ + rest;
    law_a_url_path_ends_before_its_query(url, more);
    let path = url_path(url);
    if path.len() < url.len() {
        let at = path.len() as int;
        if at < 5 {
            assert(url[at] == "/pkg/"@[at]);
        } else {
            assert(url[at] == rest[at - 5]);
            assert(rest.contains(rest[at - 5]));
        }
    }
    assert(path =~= url) by {
        assert(url.subrange(0, path.len() as int) =~= url);
    }
    assert(url.subrange(0, 5) =~= "/pkg/"@);
    assert(url.skip(5) =~= rest);
}

/// Whether an asset is among some, under its url and with the place where it is
/// looked for.
pub open spec fn looked_for(
    assets: Seq<AssetView>,
    extension: Seq<char>,
    url: Seq<char>,
    path: Option<Seq<char>>,
) -> bool {
    exists|k: int|
        0 <= k < assets.len() && (#[trigger] assets[k]).extension == extension && assets[k].url
            == url && assets[k].path == path
}

/// Every file that an extension names is looked for, where its path says.
pub proof fn law_every_file_of_an_extension_is_looked_for(
    extensions: Seq<DescriptorView>,
    static_dir: Seq<char>,
    pkg_dir: Option<Seq<char>>,
    mounts: Seq<Mount>,
    i: int,
)
    requires
        0 <= i < extensions.len(),
    ensures
        ({
            let assets = all_assets(extensions, static_dir, pkg_dir, mounts);
            let id = extensions[i].id;
            &&& extensions[i].module matches Some(url) ==> looked_for(
                assets,
                id,
                url,
                asset_path(url, static_dir, pkg_dir, mounts),
            )
            &&& extensions[i].wasm matches Some(wasm) ==> looked_for(
                assets,
                id,
                wasm.js,
                asset_path(wasm.js, static_dir, pkg_dir, mounts),
            ) && looked_for(
                assets,
                id,
                wasm.wasm,
                asset_path(wasm.wasm, static_dir, pkg_dir, mounts),
            )
        }),
    decreases extensions.len(),
{
    let assets = all_assets(extensions, static_dir, pkg_dir, mounts);
    let less = extensions.drop_last();
    let before = all_assets(less, static_dir, pkg_dir, mounts);
    let own = assets_of(extensions.last(), static_dir, pkg_dir, mounts);
    assert forall|k: int| 0 <= k < before.len() implies assets[k] == #[trigger] before[k] by {}
    assert forall|k: int| 0 <= k < own.len() implies assets[before.len() + k]
        == #[trigger] own[k] by {}
    if i < less.len() {
        law_every_file_of_an_extension_is_looked_for(less, static_dir, pkg_dir, mounts, i);
        assert(less[i] == extensions[i]);
        if let Some(url) = extensions[i].module {
            lemma_looked_for_further(
                before,
                assets,
                less[i].id,
                url,
                asset_path(url, static_dir, pkg_dir, mounts),
            );
        }
        if let Some(wasm) = extensions[i].wasm {
            lemma_looked_for_further(
                before,
                assets,
                less[i].id,
                wasm.js,
                asset_path(wasm.js, static_dir, pkg_dir, mounts),
            );
            lemma_looked_for_further(
                before,
                assets,
                less[i].id,
                wasm.wasm,
                asset_path(wasm.wasm, static_dir, pkg_dir, mounts),
            );
        }
    } else {
        let at = before.len() as int;
        if extensions[i].module is Some {
            assert(own[0].url == extensions[i].module->0);
            assert(assets[at] == own[0]);
        }
        if extensions[i].wasm is Some {
            let last = own.len() - 1;
            assert(assets[at + last - 1] == own[last - 1]);
            assert(assets[at + last] == own[last]);
        }
    }
}

proof fn lemma_looked_for_further(
    before: Seq<AssetView>,
    assets: Seq<AssetView>,
    extension: Seq<char>,
    url: Seq<char>,
    path: Option<Seq<char>>,
)
    requires
        looked_for(before, extension, url, path),
        before.len() <= assets.len(),
        forall|k: int| 0 <= k < before.len() ==> assets[k] == #[trigger] before[k],
    ensures
        looked_for(assets, extension, url, path),
{
    let k = choose|k: int|
        0 <= k < before.len() && (#[trigger] before[k]).extension == extension && before[k].url
            == url && before[k].path == path;
    assert(assets[k] == before[k]);
}

/// Where nothing is wrong with the assets, every one that is looked for has a
/// place, and a file is there.
pub proof fn law_served_assets_are_there(
    extensions: Seq<DescriptorView>,
    static_dir: Seq<char>,
    pkg_dir: Option<Seq<char>>,
    mounts: Seq<Mount>,
    files: Seq<Seq<char>>,
)
    ensures
        ({
            let assets = all_assets(extensions, static_dir, pkg_dir, mounts);
            assets_problem(extensions, static_dir, pkg_dir, mounts, files) is None <==> forall|
                k: int,
            |
                0 <= k < assets.len() ==> ((#[trigger] assets[k]).path is Some && files.contains(
                    assets[k].path->0,
                ))
        }),
{
    let assets = all_assets(extensions, static_dir, pkg_dir, mounts);
    let present = assets_present(assets, files);
    let problem = |i: int| asset_problem(assets, present, i);
    lemma_no_problem(assets.len(), problem);
    if assets_problem(extensions, static_dir, pkg_dir, mounts, files) is None {
        assert forall|k: int| 0 <= k < assets.len() implies (#[trigger] assets[k]).path is Some
            && files.contains(assets[k].path->0) by {
            assert(problem(k) is None);
        }
    } else {
        let k = choose|k: int| 0 <= k < assets.len() && (#[trigger] problem(k)) is Some;
        assert(!(assets[k].path is Some && files.contains(assets[k].path->0)));
    }
}

} // verus!
