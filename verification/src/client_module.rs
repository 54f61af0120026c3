//! The browser half of extensions: which modules exist, which actions they own,
//! and where their assets are.

use vstd::prelude::*;

use crate::actions::{action_views, ActionDef, ActionView};
use crate::http::Mount;
use crate::json::{
    empty_object, json_bool, json_items, json_number, json_text, json_texts, lemma_array_view,
    object, text_array, Json, JsonView,
};
use crate::lists::{first_problem, lemma_filter_next, lemma_first_problem_grows, or_else, reports};
use crate::paths::{path_under, under};
use crate::text::{
    begins_with, blank, chars_of, concat2, concat3, concat4, concat5, contains, contains_char,
    copy_opt, copy_texts, debug_quote, debug_text, digit, has_text, is_blank, is_digit,
    is_lower_ascii, list_contains, lower_ascii, opt_str, opt_text, same, starts_with, strip_prefix,
    texts, trim_end_char, trim_end_of, trim_start_char, trim_start_of,
};

verus! {

/// A compiled renderer, by same-origin paths.
#[derive(Debug, PartialEq, Eq)]
pub struct WasmMount {
    pub pkg_name: String,
    /// The path of its loader.
    pub js: String,
    /// The path of its binary.
    pub wasm: String,
}

/// A renderer in contracts.
#[verifier::ext_equal]
pub struct WasmView {
    pub pkg_name: Seq<char>,
    pub js: Seq<char>,
    pub wasm: Seq<char>,
}

impl View for WasmMount {
    type V = WasmView;

    open spec fn view(&self) -> WasmView {
        WasmView { pkg_name: self.pkg_name@, js: self.js@, wasm: self.wasm@ }
    }
}

pub open spec fn opt_wasm(wasm: Option<WasmMount>) -> Option<WasmView> {
    match wasm {
        Some(wasm) => Some(wasm@),
        None => None,
    }
}

fn copy_wasm(wasm: &Option<WasmMount>) -> (copy: Option<WasmMount>)
    ensures
        opt_wasm(copy) == opt_wasm(*wasm),
{
    match wasm {
        Some(wasm) => Some(
            WasmMount {
                pkg_name: wasm.pkg_name.clone(),
                js: wasm.js.clone(),
                wasm: wasm.wasm.clone(),
            },
        ),
        None => None,
    }
}

/// The browser half of one extension.
#[derive(Debug, PartialEq, Eq)]
pub struct ClientModule {
    pub id: String,
    pub version: String,
    /// The path of its module. Without one the host's page holds the view.
    pub module: Option<String>,
    /// The renderer to mount, where the view is drawn.
    pub wasm: Option<WasmMount>,
    /// The element that the page keeps for it.
    pub mount_id: String,
    /// The events that it takes.
    pub events: Vec<String>,
    /// The actions that it owns. A sole module without a list owns every one.
    pub actions: Option<Vec<String>>,
    pub capabilities: Vec<String>,
    /// Whether a failure to load it is shown.
    pub required: bool,
}

/// A browser module in contracts.
#[verifier::ext_equal]
pub struct ModuleView {
    pub id: Seq<char>,
    pub version: Seq<char>,
    pub module: Option<Seq<char>>,
    pub wasm: Option<WasmView>,
    pub mount_id: Seq<char>,
    pub events: Seq<Seq<char>>,
    pub actions: Option<Seq<Seq<char>>>,
    pub capabilities: Seq<Seq<char>>,
    pub required: bool,
}

pub open spec fn opt_texts(list: Option<Vec<String>>) -> Option<Seq<Seq<char>>> {
    match list {
        Some(list) => Some(texts(list@)),
        None => None,
    }
}

impl View for ClientModule {
    type V = ModuleView;

    open spec fn view(&self) -> ModuleView {
        ModuleView {
            id: self.id@,
            version: self.version@,
            module: opt_text(self.module),
            wasm: opt_wasm(self.wasm),
            mount_id: self.mount_id@,
            events: texts(self.events@),
            actions: opt_texts(self.actions),
            capabilities: texts(self.capabilities@),
            required: self.required,
        }
    }
}

pub open spec fn module_views(modules: Seq<ClientModule>) -> Seq<ModuleView> {
    Seq::new(modules.len(), |i: int| modules[i]@)
}

// Checks.

/// A character that an extension's id may hold.
pub open spec fn is_module_id_char(c: char) -> bool {
    is_lower_ascii(c) || is_digit(c) || c == '.' || c == '_' || c == '-'
}

/// Whether a text is an extension's id.
pub open spec fn is_module_id(id: Seq<char>) -> bool {
    id.len() > 0 && forall|i: int| 0 <= i < id.len() ==> is_module_id_char(#[trigger] id[i])
}

fn module_id(id: &str) -> (result: bool)
    ensures
        result == is_module_id(id@),
{
    let chars: Vec<char> = chars_of(id);
    if chars.len() == 0 {
        return false;
    }
    let mut i: usize = 0;
    while i < chars.len()
        invariant
            chars@ == id@,
            i <= chars@.len(),
            chars@.len() > 0,
            forall|k: int| 0 <= k < i ==> is_module_id_char(#[trigger] chars@[k]),
        decreases chars@.len() - i,
    {
        let c: char = chars[i];
        if !(lower_ascii(c) || digit(c) || c == '.' || c == '_' || c == '-') {
            proof {
                assert(!is_module_id_char(id@[i as int]));
            }
            return false;
        }
        i += 1;
    }
    true
}

/// Whether a path is absolute, of the same origin, and goes nowhere upwards.
pub open spec fn same_origin(path: Seq<char>) -> bool {
    &&& begins_with(path, "/"@)
    &&& !begins_with(path, "//"@)
    &&& !has_text(path, ".."@)
    &&& !path.contains('\\')
    &&& !has_text(path, "://"@)
}

fn same_origin_path(path: &str) -> (result: bool)
    ensures
        result == same_origin(path@),
{
    starts_with(path, "/") && !starts_with(path, "//") && !contains(path, "..") && !contains_char(
        path,
        '\\',
    ) && !contains(path, "://")
}

/// Why one value of a list is not accepted.
pub open spec fn value_problem(
    id: Seq<char>,
    kind: Seq<char>,
    values: Seq<Seq<char>>,
    i: int,
) -> Option<Seq<char>> {
    if blank(values[i]) || values.take(i).contains(values[i]) {
        Some(
            "extension "@ + id + " has an empty or duplicate "@ + kind + (": "@ + debug_text(
                values[i],
            )),
        )
    } else {
        None
    }
}

/// Why a list of values is not accepted.
pub open spec fn values_problem(id: Seq<char>, kind: Seq<char>, values: Seq<Seq<char>>) -> Option<
    Seq<char>,
> {
    first_problem(values.len(), |i: int| value_problem(id, kind, values, i))
}

fn check_values(id: &str, kind: &str, values: &Vec<String>) -> (outcome: Result<(), String>)
    ensures
        reports(outcome, values_problem(id@, kind@, texts(values@))),
{
    let ghost all = texts(values@);
    let ghost problem = |i: int| value_problem(id@, kind@, all, i);
    let mut i: usize = 0;
    while i < values.len()
        invariant
            i <= values@.len(),
            all == texts(values@),
            problem == (|i: int| value_problem(id@, kind@, all, i)),
            first_problem(i as nat, problem) is None,
        decreases values@.len() - i,
    {
        let again: bool = named_before(values, i);
        if is_blank(&values[i]) || again {
            let message: String = concat5(
                "extension ",
                id,
                " has an empty or duplicate ",
                kind,
                &concat2(": ", &debug_quote(&values[i])),
            );
            proof {
                assert(problem(i as int) == Some(message@));
                lemma_first_problem_grows((i + 1) as nat, all.len(), problem);
            }
            return Err(message);
        }
        proof {
            assert(problem(i as int) is None);
        }
        i += 1;
    }
    Ok(())
}

/// Whether a value is named before its place.
fn named_before(values: &Vec<String>, at: usize) -> (known: bool)
    requires
        at < values@.len(),
    ensures
        known == texts(values@).take(at as int).contains(texts(values@)[at as int]),
{
    let ghost all = texts(values@);
    let mut i: usize = 0;
    while i < at
        invariant
            i <= at < values@.len(),
            all == texts(values@),
            forall|k: int| 0 <= k < i ==> all[k] != all[at as int],
        decreases at - i,
    {
        if same(&values[i], &values[at]) {
            proof {
                assert(all.take(at as int)[i as int] == all[at as int]);
            }
            return true;
        }
        i += 1;
    }
    false
}

/// Why a module's own path is not accepted.
pub open spec fn module_path_problem(module: ModuleView) -> Option<Seq<char>> {
    match module.module {
        Some(path) => if same_origin(path) {
            None
        } else {
            Some(
                "extension "@ + module.id + " module "@ + debug_text(path)
                    + " must be a same-origin absolute path"@,
            )
        },
        None => None,
    }
}

/// Why a path of a renderer is not accepted.
pub open spec fn wasm_path_problem(id: Seq<char>, kind: Seq<char>, path: Seq<char>) -> Option<
    Seq<char>,
> {
    if same_origin(path) {
        None
    } else {
        Some(
            "extension "@ + id + " wasm "@ + kind + " path "@ + (debug_text(path)
                + " must be a same-origin absolute path"@),
        )
    }
}

fn check_wasm_path(id: &str, kind: &str, path: &str) -> (outcome: Result<(), String>)
    ensures
        reports(outcome, wasm_path_problem(id@, kind@, path@)),
{
    if same_origin_path(path) {
        Ok(())
    } else {
        let head: String = concat5("extension ", id, " wasm ", kind, " path ");
        Err(
            concat2(
                &head,
                &concat2(&debug_quote(path), " must be a same-origin absolute path"),
            ),
        )
    }
}

impl ModuleView {
    /// Why a module is not accepted.
    pub open spec fn problem(self) -> Option<Seq<char>> {
        if !is_module_id(self.id) {
            Some(
                "extension id "@ + debug_text(self.id)
                    + " must contain only lowercase ASCII letters, digits, '.', '_' or '-'"@,
            )
        } else if blank(self.version) {
            Some("extension "@ + self.id + " has an empty version"@)
        } else if blank(self.mount_id) {
            Some("extension "@ + self.id + " has an empty mount id"@)
        } else {
            or_else(
                values_problem(self.id, "event"@, self.events),
                or_else(
                    values_problem(self.id, "capability"@, self.capabilities),
                    or_else(
                        match self.actions {
                            Some(actions) => values_problem(self.id, "action"@, actions),
                            None => None,
                        },
                        or_else(
                            module_path_problem(self),
                            match self.wasm {
                                Some(wasm) => or_else(
                                    wasm_path_problem(self.id, "js"@, wasm.js),
                                    wasm_path_problem(self.id, "wasm"@, wasm.wasm),
                                ),
                                None => None,
                            },
                        ),
                    ),
                ),
            )
        }
    }
}

impl ClientModule {
    /// A module that the browser imports when the manifest arrives.
    pub fn lazy(id: &str, version: &str, module: &str, mount_id: &str) -> (result: ClientModule)
        ensures
            result@ == (ModuleView {
                id: id@,
                version: version@,
                module: Some(module@),
                wasm: None,
                mount_id: mount_id@,
                events: Seq::empty(),
                actions: None,
                capabilities: Seq::empty(),
                required: true,
            }),
    {
        ClientModule {
            id: id.to_owned(),
            version: version.to_owned(),
            module: Some(module.to_owned()),
            wasm: None,
            mount_id: mount_id.to_owned(),
            events: Vec::new(),
            actions: None,
            capabilities: Vec::new(),
            required: true,
        }
    }

    /// A view that the host's page holds.
    pub fn host(id: &str, version: &str, mount_id: &str) -> (result: ClientModule)
        ensures
            result@ == (ModuleView {
                id: id@,
                version: version@,
                module: None,
                wasm: None,
                mount_id: mount_id@,
                events: Seq::empty(),
                actions: None,
                capabilities: Seq::empty(),
                required: true,
            }),
    {
        ClientModule {
            id: id.to_owned(),
            version: version.to_owned(),
            module: None,
            wasm: None,
            mount_id: mount_id.to_owned(),
            events: Vec::new(),
            actions: None,
            capabilities: Vec::new(),
            required: true,
        }
    }

    pub fn wasm(self, wasm: WasmMount) -> (result: ClientModule)
        ensures
            result@ == (ModuleView { wasm: Some(wasm@), ..self@ }),
    {
        let mut result: ClientModule = self;
        result.wasm = Some(wasm);
        result
    }

    pub fn event(self, name: &str) -> (result: ClientModule)
        ensures
            result@ == (ModuleView { events: self@.events.push(name@), ..self@ }),
    {
        let mut result: ClientModule = self;
        result.events.push(name.to_owned());
        proof {
            assert(result@.events =~= self@.events.push(name@));
        }
        result
    }

    /// Names an action that the module owns.
    pub fn action(self, name: &str) -> (result: ClientModule)
        ensures
            result@ == (ModuleView {
                actions: Some(
                    (match self@.actions {
                        Some(actions) => actions,
                        None => Seq::empty(),
                    }).push(name@),
                ),
                ..self@
            }),
    {
        let ghost earlier = self@.actions;
        let mut actions: Vec<String> = match self.actions {
            Some(actions) => actions,
            None => Vec::new(),
        };
        let ghost before = actions@;
        actions.push(name.to_owned());
        proof {
            assert(texts(actions@) =~= texts(before).push(name@));
            assert(earlier is None ==> texts(before) =~= Seq::empty());
        }
        ClientModule {
            id: self.id,
            version: self.version,
            module: self.module,
            wasm: self.wasm,
            mount_id: self.mount_id,
            events: self.events,
            actions: Some(actions),
            capabilities: self.capabilities,
            required: self.required,
        }
    }

    /// Says that the module owns no action.
    pub fn no_actions(self) -> (result: ClientModule)
        ensures
            result@ == (ModuleView { actions: Some(Seq::empty()), ..self@ }),
    {
        let mut result: ClientModule = self;
        result.actions = Some(Vec::new());
        proof {
            assert(result@.actions->0 =~= Seq::empty());
        }
        result
    }

    pub fn capability(self, name: &str) -> (result: ClientModule)
        ensures
            result@ == (ModuleView { capabilities: self@.capabilities.push(name@), ..self@ }),
    {
        let mut result: ClientModule = self;
        result.capabilities.push(name.to_owned());
        proof {
            assert(result@.capabilities =~= self@.capabilities.push(name@));
        }
        result
    }

    /// Says that the page stays usable without the module.
    pub fn optional(self) -> (result: ClientModule)
        ensures
            result@ == (ModuleView { required: false, ..self@ }),
    {
        let mut result: ClientModule = self;
        result.required = false;
        result
    }

    /// Checks the module by itself.
    pub fn validate(&self) -> (outcome: Result<(), String>)
        ensures
            reports(outcome, self@.problem()),
    {
        if !module_id(&self.id) {
            return Err(
                concat3(
                    "extension id ",
                    &debug_quote(&self.id),
                    " must contain only lowercase ASCII letters, digits, '.', '_' or '-'",
                ),
            );
        }
        if is_blank(&self.version) {
            return Err(concat3("extension ", &self.id, " has an empty version"));
        }
        if is_blank(&self.mount_id) {
            return Err(concat3("extension ", &self.id, " has an empty mount id"));
        }
        match check_values(&self.id, "event", &self.events) {
            Err(message) => {
                return Err(message);
            },
            Ok(()) => {},
        }
        match check_values(&self.id, "capability", &self.capabilities) {
            Err(message) => {
                return Err(message);
            },
            Ok(()) => {},
        }
        match &self.actions {
            Some(actions) => match check_values(&self.id, "action", actions) {
                Err(message) => {
                    return Err(message);
                },
                Ok(()) => {},
            },
            None => {},
        }
        match &self.module {
            Some(path) => {
                if !same_origin_path(path) {
                    return Err(
                        concat5(
                            "extension ",
                            &self.id,
                            " module ",
                            &debug_quote(path),
                            " must be a same-origin absolute path",
                        ),
                    );
                }
            },
            None => {},
        }
        match &self.wasm {
            Some(wasm) => match check_wasm_path(&self.id, "js", &wasm.js) {
                Err(message) => Err(message),
                Ok(()) => check_wasm_path(&self.id, "wasm", &wasm.wasm),
            },
            None => Ok(()),
        }
    }
}

// The manifest.

/// What a browser is told of one extension.
#[derive(Debug, PartialEq, Eq)]
pub struct ExtensionDescriptor {
    pub id: String,
    pub version: String,
    /// `lazy` or `host`.
    pub loading: String,
    pub module: Option<String>,
    pub mount: String,
    pub actions: Vec<String>,
    pub events: Vec<String>,
    pub capabilities: Vec<String>,
    pub required: bool,
    pub wasm: Option<WasmMount>,
}

/// A descriptor in contracts.
#[verifier::ext_equal]
pub struct DescriptorView {
    pub id: Seq<char>,
    pub version: Seq<char>,
    pub loading: Seq<char>,
    pub module: Option<Seq<char>>,
    pub mount: Seq<char>,
    pub actions: Seq<Seq<char>>,
    pub events: Seq<Seq<char>>,
    pub capabilities: Seq<Seq<char>>,
    pub required: bool,
    pub wasm: Option<WasmView>,
}

impl View for ExtensionDescriptor {
    type V = DescriptorView;

    open spec fn view(&self) -> DescriptorView {
        DescriptorView {
            id: self.id@,
            version: self.version@,
            loading: self.loading@,
            module: opt_text(self.module),
            mount: self.mount@,
            actions: texts(self.actions@),
            events: texts(self.events@),
            capabilities: texts(self.capabilities@),
            required: self.required,
            wasm: opt_wasm(self.wasm),
        }
    }
}

pub open spec fn descriptor_views(list: Seq<ExtensionDescriptor>) -> Seq<DescriptorView> {
    Seq::new(list.len(), |i: int| list[i]@)
}

/// What a browser is told of the extensions that are active.
#[derive(Debug, PartialEq, Eq)]
pub struct ExtensionManifest {
    pub schema_version: u32,
    pub protocol: String,
    pub extensions: Vec<ExtensionDescriptor>,
}

/// A manifest in contracts.
#[verifier::ext_equal]
pub struct ManifestView {
    pub schema_version: u32,
    pub protocol: Seq<char>,
    pub extensions: Seq<DescriptorView>,
}

impl View for ExtensionManifest {
    type V = ManifestView;

    open spec fn view(&self) -> ManifestView {
        ManifestView {
            schema_version: self.schema_version,
            protocol: self.protocol@,
            extensions: descriptor_views(self.extensions@),
        }
    }
}

/// Which actions a person may call.
pub open spec fn for_humans() -> spec_fn(ActionView) -> bool {
    |action: ActionView| action.audience.admits_human()
}

/// The names of the actions that a person may call.
pub open spec fn human_actions(actions: Seq<ActionView>) -> Seq<Seq<char>> {
    actions.filter(for_humans()).map_values(|action: ActionView| action.name)
}

fn human_action_names(actions: &Vec<ActionDef>) -> (names: Vec<String>)
    ensures
        texts(names@) == human_actions(action_views(actions@)),
{
    let ghost all = action_views(actions@);
    let ghost name = |action: ActionView| action.name;
    let mut names: Vec<String> = Vec::new();
    let mut i: usize = 0;
    proof {
        reveal(Seq::filter);
        assert(texts(names@) =~= all.take(0).filter(for_humans()).map_values(name));
    }
    while i < actions.len()
        invariant
            i <= actions@.len(),
            all == action_views(actions@),
            name == (|action: ActionView| action.name),
            texts(names@) == all.take(i as int).filter(for_humans()).map_values(name),
        decreases actions@.len() - i,
    {
        let ghost before = names@;
        proof {
            lemma_filter_next(all, for_humans(), i as int);
            assert(all[i as int] == actions@[i as int]@);
        }
        if actions[i].audience.human() {
            names.push(actions[i].name.clone());
            proof {
                let kept = all.take(i as int).filter(for_humans());
                assert(kept.push(all[i as int]).map_values(name) =~= kept.map_values(name).push(
                    all[i as int].name,
                ));
                assert(texts(names@) =~= texts(before).push(all[i as int].name));
            }
        }
        i += 1;
    }
    proof {
        assert(all.take(i as int) =~= all);
    }
    names
}

/// The first action of a list that a person may not call.
pub open spec fn foreign_action(
    id: Seq<char>,
    actions: Seq<Seq<char>>,
    human: Seq<Seq<char>>,
    i: int,
) -> Option<Seq<char>> {
    if human.contains(actions[i]) {
        None
    } else {
        Some("extension "@ + id + " declares unknown or non-human action "@ + actions[i])
    }
}

/// Why a module's claim to actions is not accepted.
pub open spec fn ownership_problem(
    module: ModuleView,
    human: Seq<Seq<char>>,
    composed: bool,
) -> Option<Seq<char>> {
    match module.actions {
        None => if composed {
            Some(
                "extension "@ + module.id
                    + " must declare action ownership in a composed Surface"@,
            )
        } else {
            None
        },
        Some(actions) => first_problem(
            actions.len(),
            |i: int| foreign_action(module.id, actions, human, i),
        ),
    }
}

/// Whether the module at one place has the id of an earlier one.
pub open spec fn id_taken(modules: Seq<ModuleView>, i: int) -> bool {
    exists|j: int| 0 <= j < i && (#[trigger] modules[j]).id == modules[i].id
}

/// Whether the module at one place has the mount of an earlier one.
pub open spec fn mount_taken(modules: Seq<ModuleView>, i: int) -> bool {
    exists|j: int| 0 <= j < i && (#[trigger] modules[j]).mount_id == modules[i].mount_id
}

/// Why the module at one place is not accepted beside the others.
pub open spec fn place_problem(modules: Seq<ModuleView>, human: Seq<Seq<char>>, i: int) -> Option<
    Seq<char>,
> {
    if modules[i].problem() is Some {
        modules[i].problem()
    } else if id_taken(modules, i) {
        Some("duplicate extension id: "@ + modules[i].id)
    } else if mount_taken(modules, i) {
        Some("duplicate extension mount: "@ + modules[i].mount_id)
    } else {
        ownership_problem(modules[i], human, modules.len() > 1)
    }
}

/// Why some modules make no manifest.
pub open spec fn manifest_problem(modules: Seq<ModuleView>, human: Seq<Seq<char>>) -> Option<
    Seq<char>,
> {
    first_problem(modules.len(), |i: int| place_problem(modules, human, i))
}

/// What a browser is told of one module.
pub open spec fn described(module: ModuleView, human: Seq<Seq<char>>) -> DescriptorView {
    DescriptorView {
        id: module.id,
        version: module.version,
        loading: if module.module is Some {
            "lazy"@
        } else {
            "host"@
        },
        module: module.module,
        mount: module.mount_id,
        actions: match module.actions {
            Some(actions) => actions,
            None => human,
        },
        events: module.events,
        capabilities: module.capabilities,
        required: module.required,
        wasm: module.wasm,
    }
}

/// The manifest of some modules.
pub open spec fn manifest_of(modules: Seq<ModuleView>, human: Seq<Seq<char>>) -> ManifestView {
    ManifestView {
        schema_version: 1,
        protocol: "ag-ui"@,
        extensions: Seq::new(modules.len(), |i: int| described(modules[i], human)),
    }
}

fn check_ownership(module: &ClientModule, human: &Vec<String>, composed: bool) -> (outcome: Result<
    (),
    String,
>)
    ensures
        reports(outcome, ownership_problem(module@, texts(human@), composed)),
{
    match &module.actions {
        None => if composed {
            Err(
                concat3(
                    "extension ",
                    &module.id,
                    " must declare action ownership in a composed Surface",
                ),
            )
        } else {
            Ok(())
        },
        Some(actions) => {
            let ghost all = texts(actions@);
            let ghost problem = |i: int| foreign_action(module@.id, all, texts(human@), i);
            let mut i: usize = 0;
            while i < actions.len()
                invariant
                    i <= actions@.len(),
                    all == texts(actions@),
                    module@.actions == Some(all),
                    problem == (|i: int| foreign_action(module@.id, all, texts(human@), i)),
                    first_problem(i as nat, problem) is None,
                decreases actions@.len() - i,
            {
                if !list_contains(human, &actions[i]) {
                    let message: String = concat4(
                        "extension ",
                        &module.id,
                        " declares unknown or non-human action ",
                        &actions[i],
                    );
                    proof {
                        assert(problem(i as int) == Some(message@));
                        lemma_first_problem_grows((i + 1) as nat, all.len(), problem);
                    }
                    return Err(message);
                }
                proof {
                    assert(problem(i as int) is None);
                }
                i += 1;
            }
            Ok(())
        },
    }
}

fn describe_module(module: &ClientModule, human: &Vec<String>) -> (descriptor: ExtensionDescriptor)
    ensures
        descriptor@ == described(module@, texts(human@)),
{
    let actions: Vec<String> = match &module.actions {
        Some(actions) => copy_texts(actions),
        None => copy_texts(human),
    };
    let loading: String = if module.module.is_some() {
        "lazy".to_owned()
    } else {
        "host".to_owned()
    };
    ExtensionDescriptor {
        id: module.id.clone(),
        version: module.version.clone(),
        loading,
        module: copy_opt(&module.module),
        mount: module.mount_id.clone(),
        actions,
        events: copy_texts(&module.events),
        capabilities: copy_texts(&module.capabilities),
        required: module.required,
        wasm: copy_wasm(&module.wasm),
    }
}

impl ExtensionManifest {
    /// The manifest of a surface's modules, over the actions that a person may
    /// call.
    pub fn from_surface(modules: &Vec<ClientModule>, actions: &Vec<ActionDef>) -> (result: Result<
        ExtensionManifest,
        String,
    >)
        ensures
            reports(
                result,
                manifest_problem(module_views(modules@), human_actions(action_views(actions@))),
            ),
            result matches Ok(manifest) ==> manifest@ == manifest_of(
                module_views(modules@),
                human_actions(action_views(actions@)),
            ),
    {
        let human: Vec<String> = human_action_names(actions);
        let composed: bool = modules.len() > 1;
        let ghost all = module_views(modules@);
        let ghost names = texts(human@);
        let ghost problem = |i: int| place_problem(all, names, i);
        let mut extensions: Vec<ExtensionDescriptor> = Vec::new();
        let mut i: usize = 0;
        while i < modules.len()
            invariant
                i <= modules@.len(),
                all == module_views(modules@),
                names == texts(human@),
                names == human_actions(action_views(actions@)),
                composed == (modules@.len() > 1),
                problem == (|i: int| place_problem(all, names, i)),
                first_problem(i as nat, problem) is None,
                extensions@.len() == i,
                forall|k: int|
                    0 <= k < i ==> (#[trigger] extensions@[k])@ == described(all[k], names),
            decreases modules@.len() - i,
        {
            let module: &ClientModule = &modules[i];
            let outcome: Result<(), String> = check_place(modules, i, &human, composed);
            match outcome {
                Err(message) => {
                    proof {
                        assert(problem(i as int) == Some(message@));
                        lemma_first_problem_grows((i + 1) as nat, all.len(), problem);
                    }
                    return Err(message);
                },
                Ok(()) => {
                    proof {
                        assert(problem(i as int) is None);
                    }
                },
            }
            extensions.push(describe_module(module, &human));
            i += 1;
        }
        proof {
            assert(descriptor_views(extensions@) =~= manifest_of(all, names).extensions);
        }
        Ok(ExtensionManifest { schema_version: 1, protocol: "ag-ui".to_owned(), extensions })
    }
}

fn check_place(modules: &Vec<ClientModule>, i: usize, human: &Vec<String>, composed: bool) -> (outcome:
    Result<(), String>)
    requires
        i < modules@.len(),
        composed == (modules@.len() > 1),
    ensures
        reports(outcome, place_problem(module_views(modules@), texts(human@), i as int)),
{
    let ghost all = module_views(modules@);
    let module: &ClientModule = &modules[i];
    match module.validate() {
        Err(message) => {
            return Err(message);
        },
        Ok(()) => {},
    }
    let mut same_id: bool = false;
    let mut same_mount: bool = false;
    let mut j: usize = 0;
    while j < i
        invariant
            j <= i < modules@.len(),
            all == module_views(modules@),
            module@ == all[i as int],
            same_id == (exists|k: int| 0 <= k < j && (#[trigger] all[k]).id == all[i as int].id),
            same_mount == (exists|k: int|
                0 <= k < j && (#[trigger] all[k]).mount_id == all[i as int].mount_id),
        decreases i - j,
    {
        proof {
            assert(all[j as int] == modules@[j as int]@);
        }
        if same(&modules[j].id, &module.id) {
            same_id = true;
        }
        if same(&modules[j].mount_id, &module.mount_id) {
            same_mount = true;
        }
        j += 1;
    }
    if same_id {
        return Err(concat2("duplicate extension id: ", &module.id));
    }
    if same_mount {
        return Err(concat2("duplicate extension mount: ", &module.mount_id));
    }
    check_ownership(module, human, composed)
}

// On the wire.

pub open spec fn wasm_value(wasm: WasmView) -> JsonView {
    empty_object().with("pkgName"@, JsonView::Text(wasm.pkg_name)).with(
        "js"@,
        JsonView::Text(wasm.js),
    ).with("wasm"@, JsonView::Text(wasm.wasm))
}

pub open spec fn descriptor_value(extension: DescriptorView) -> JsonView {
    let head = empty_object().with("id"@, JsonView::Text(extension.id)).with(
        "version"@,
        JsonView::Text(extension.version),
    ).with("loading"@, JsonView::Text(extension.loading));
    let body = (match extension.module {
        Some(module) => head.with("module"@, JsonView::Text(module)),
        None => head,
    }).with("mount"@, JsonView::Text(extension.mount)).with(
        "actions"@,
        text_array(extension.actions),
    ).with("events"@, text_array(extension.events)).with(
        "capabilities"@,
        text_array(extension.capabilities),
    ).with("required"@, JsonView::Bool(extension.required));
    match extension.wasm {
        Some(wasm) => body.with("wasm"@, wasm_value(wasm)),
        None => body,
    }
}

pub open spec fn manifest_value(manifest: ManifestView) -> JsonView {
    empty_object().with(
        "schemaVersion"@,
        JsonView::Number(crate::text::decimal(manifest.schema_version as nat)),
    ).with("protocol"@, JsonView::Text(manifest.protocol)).with(
        "extensions"@,
        JsonView::Array(
            Seq::new(
                manifest.extensions.len(),
                |i: int| descriptor_value(manifest.extensions[i]),
            ),
        ),
    )
}

fn descriptor_json(extension: &ExtensionDescriptor) -> (value: Json)
    ensures
        value@ == descriptor_value(extension@),
{
    let mut value: Json = object().with("id", json_text(&extension.id)).with(
        "version",
        json_text(&extension.version),
    ).with("loading", json_text(&extension.loading));
    match &extension.module {
        Some(module) => {
            value = value.with("module", json_text(module));
        },
        None => {},
    }
    value = value.with("mount", json_text(&extension.mount)).with(
        "actions",
        json_texts(&extension.actions),
    ).with("events", json_texts(&extension.events)).with(
        "capabilities",
        json_texts(&extension.capabilities),
    ).with("required", json_bool(extension.required));
    match &extension.wasm {
        Some(wasm) => value.with(
            "wasm",
            object().with("pkgName", json_text(&wasm.pkg_name)).with(
                "js",
                json_text(&wasm.js),
            ).with("wasm", json_text(&wasm.wasm)),
        ),
        None => value,
    }
}

/// A manifest on the wire.
pub fn manifest_json(manifest: &ExtensionManifest) -> (value: Json)
    ensures
        value@ == manifest_value(manifest@),
{
    let mut items: Vec<Json> = Vec::new();
    let mut i: usize = 0;
    while i < manifest.extensions.len()
        invariant
            i <= manifest.extensions@.len(),
            items@.len() == i,
            forall|k: int|
                0 <= k < i ==> (#[trigger] items@[k])@ == descriptor_value(
                    manifest.extensions@[k]@,
                ),
        decreases manifest.extensions@.len() - i,
    {
        items.push(descriptor_json(&manifest.extensions[i]));
        i += 1;
    }
    proof {
        lemma_array_view(items);
        assert(json_items(items@) =~= Seq::new(
            manifest@.extensions.len(),
            |i: int| descriptor_value(manifest@.extensions[i]),
        ));
    }
    object().with(
        "schemaVersion",
        json_number(&crate::text::to_decimal(manifest.schema_version as u64)),
    ).with("protocol", json_text(&manifest.protocol)).with("extensions", Json::Array(items))
}

// Assets.

/// A url without its query and fragment.
pub open spec fn url_path(url: Seq<char>) -> Seq<char>
    decreases url.len(),
{
    if url.len() == 0 || url[0] == '?' || url[0] == '#' {
        Seq::empty()
    } else {
        Seq::empty().push(url[0]) + url_path(url.skip(1))
    }
}

fn path_of_url<'a>(url: &'a str) -> (path: &'a str)
    ensures
        path@ == url_path(url@),
{
    let chars: Vec<char> = chars_of(url);
    let mut i: usize = 0;
    proof {
        assert(url@.skip(0) =~= url@);
        assert(url@.take(0) + url_path(url@.skip(0)) =~= url_path(url@));
    }
    while i < chars.len() && chars[i] != '?' && chars[i] != '#'
        invariant
            chars@ == url@,
            i <= chars@.len(),
            url_path(url@) == url@.take(i as int) + url_path(url@.skip(i as int)),
        decreases chars@.len() - i,
    {
        proof {
            assert(url@.skip(i as int).skip(1) =~= url@.skip(i + 1));
            assert(url@.skip(i as int)[0] == url@[i as int]);
            assert(url@.take(i as int) + (Seq::empty().push(url@[i as int]) + url_path(
                url@.skip(i + 1),
            )) =~= url@.take(i + 1) + url_path(url@.skip(i + 1)));
        }
        i += 1;
    }
    proof {
        if i < chars@.len() {
            assert(url@.skip(i as int)[0] == url@[i as int]);
        }
        assert(url_path(url@.skip(i as int)) =~= Seq::empty());
        assert(url@.subrange(0, i as int) =~= url@.take(i as int) + url_path(
            url@.skip(i as int),
        ));
    }
    url.substring_char(0, i)
}

/// The prefix under which a mount's assets are.
pub open spec fn mount_path(prefix: Seq<char>) -> Seq<char> {
    "/"@ + trim_start_of(trim_end_of(prefix, '/'), '/') + "/"@
}

/// Where the first mount that holds a path has it.
pub open spec fn mounted_at(path: Seq<char>, mounts: Seq<Mount>) -> Option<Seq<char>>
    decreases mounts.len(),
{
    if mounts.len() == 0 {
        None
    } else {
        let prefix = mount_path(mounts[0].prefix@);
        if begins_with(path, prefix) {
            Some(under(mounts[0].dir@, path.skip(prefix.len() as int)))
        } else {
            mounted_at(path, mounts.skip(1))
        }
    }
}

/// Where an asset is: in the package directory, in the first mount that holds
/// it, or in the static directory.
pub open spec fn asset_path(
    url: Seq<char>,
    static_dir: Seq<char>,
    pkg_dir: Option<Seq<char>>,
    mounts: Seq<Mount>,
) -> Option<Seq<char>> {
    let path = url_path(url);
    if begins_with(path, "/pkg/"@) {
        match pkg_dir {
            Some(dir) => Some(under(dir, path.skip("/pkg/"@.len() as int))),
            None => None,
        }
    } else {
        match mounted_at(path, mounts) {
            Some(found) => Some(found),
            None => Some(under(static_dir, trim_start_of(path, '/'))),
        }
    }
}

/// Where an asset is.
pub fn extension_asset_path(
    url: &str,
    static_dir: &str,
    pkg_dir: Option<&str>,
    mounts: &Vec<Mount>,
) -> (result: Option<String>)
    ensures
        opt_text(result) == asset_path(url@, static_dir@, opt_str(pkg_dir), mounts@),
{
    let path: &str = path_of_url(url);
    match strip_prefix(path, "/pkg/") {
        Some(relative) => {
            return match pkg_dir {
                Some(dir) => Some(path_under(dir, relative)),
                None => None,
            };
        },
        None => {},
    }
    let mut i: usize = 0;
    proof {
        assert(mounts@.skip(0) =~= mounts@);
    }
    while i < mounts.len()
        invariant
            i <= mounts@.len(),
            path@ == url_path(url@),
            !begins_with(path@, "/pkg/"@),
            mounted_at(path@, mounts@) == mounted_at(path@, mounts@.skip(i as int)),
        decreases mounts@.len() - i,
    {
        proof {
            assert(mounts@.skip(i as int)[0] == mounts@[i as int]);
            assert(mounts@.skip(i as int).skip(1) =~= mounts@.skip(i + 1));
        }
        let name: &str = trim_start_char(trim_end_char(&mounts[i].prefix, '/'), '/');
        let prefix: String = concat3("/", name, "/");
        match strip_prefix(path, &prefix) {
            Some(relative) => {
                return Some(path_under(&mounts[i].dir, relative));
            },
            None => {},
        }
        i += 1;
    }
    Some(path_under(static_dir, trim_start_char(path, '/')))
}

/// An asset that an extension needs, and where it is expected.
#[derive(Debug, PartialEq, Eq)]
pub struct Asset {
    pub extension: String,
    pub kind: &'static str,
    pub url: String,
    pub path: Option<String>,
}

/// An asset in contracts.
#[verifier::ext_equal]
pub struct AssetView {
    pub extension: Seq<char>,
    pub kind: Seq<char>,
    pub url: Seq<char>,
    pub path: Option<Seq<char>>,
}

impl View for Asset {
    type V = AssetView;

    open spec fn view(&self) -> AssetView {
        AssetView {
            extension: self.extension@,
            kind: self.kind@,
            url: self.url@,
            path: opt_text(self.path),
        }
    }
}

pub open spec fn asset_views(assets: Seq<Asset>) -> Seq<AssetView> {
    Seq::new(assets.len(), |i: int| assets[i]@)
}

/// The assets that one extension needs, in order.
pub open spec fn assets_of(
    extension: DescriptorView,
    static_dir: Seq<char>,
    pkg_dir: Option<Seq<char>>,
    mounts: Seq<Mount>,
) -> Seq<AssetView> {
    let asset = |kind: Seq<char>, url: Seq<char>|
        AssetView {
            extension: extension.id,
            kind,
            url,
            path: asset_path(url, static_dir, pkg_dir, mounts),
        };
    let module = match extension.module {
        Some(module) => Seq::empty().push(asset("module"@, module)),
        None => Seq::empty(),
    };
    match extension.wasm {
        Some(wasm) => module.push(asset("wasm JS"@, wasm.js)).push(asset("wasm binary"@, wasm.wasm)),
        None => module,
    }
}

/// The assets that some extensions need, in order.
pub open spec fn all_assets(
    extensions: Seq<DescriptorView>,
    static_dir: Seq<char>,
    pkg_dir: Option<Seq<char>>,
    mounts: Seq<Mount>,
) -> Seq<AssetView>
    decreases extensions.len(),
{
    if extensions.len() == 0 {
        Seq::empty()
    } else {
        all_assets(extensions.drop_last(), static_dir, pkg_dir, mounts) + assets_of(
            extensions.last(),
            static_dir,
            pkg_dir,
            mounts,
        )
    }
}

fn push_asset(
    assets: &mut Vec<Asset>,
    extension: &str,
    kind: &'static str,
    url: &str,
    static_dir: &str,
    pkg_dir: Option<&str>,
    mounts: &Vec<Mount>,
)
    ensures
        asset_views(final(assets)@) == asset_views(old(assets)@).push(
            AssetView {
                extension: extension@,
                kind: kind@,
                url: url@,
                path: asset_path(url@, static_dir@, opt_str(pkg_dir), mounts@),
            },
        ),
{
    let ghost before = assets@;
    let path: Option<String> = extension_asset_path(url, static_dir, pkg_dir, mounts);
    assets.push(Asset { extension: extension.to_owned(), kind, url: url.to_owned(), path });
    proof {
        assert(asset_views(assets@) =~= asset_views(before).push(asset_views(assets@).last()));
    }
}

/// The assets that a manifest's extensions need, in order.
pub fn extension_assets(
    manifest: &ExtensionManifest,
    static_dir: &str,
    pkg_dir: Option<&str>,
    mounts: &Vec<Mount>,
) -> (assets: Vec<Asset>)
    ensures
        asset_views(assets@) == all_assets(
            manifest@.extensions,
            static_dir@,
            opt_str(pkg_dir),
            mounts@,
        ),
{
    let ghost all = manifest@.extensions;
    let ghost pkg = opt_str(pkg_dir);
    let mut assets: Vec<Asset> = Vec::new();
    let mut i: usize = 0;
    proof {
        assert(asset_views(assets@) =~= all_assets(all.take(0), static_dir@, pkg, mounts@));
    }
    while i < manifest.extensions.len()
        invariant
            i <= manifest.extensions@.len(),
            all == manifest@.extensions,
            pkg == opt_str(pkg_dir),
            asset_views(assets@) == all_assets(all.take(i as int), static_dir@, pkg, mounts@),
        decreases manifest.extensions@.len() - i,
    {
        let extension: &ExtensionDescriptor = &manifest.extensions[i];
        let ghost start = asset_views(assets@);
        let ghost own = assets_of(extension@, static_dir@, pkg, mounts@);
        proof {
            assert(all.take(i + 1).drop_last() =~= all.take(i as int));
            assert(all.take(i + 1).last() == extension@);
        }
        match &extension.module {
            Some(module) => {
                push_asset(
                    &mut assets,
                    &extension.id,
                    "module",
                    module,
                    static_dir,
                    pkg_dir,
                    mounts,
                );
            },
            None => {},
        }
        match &extension.wasm {
            Some(wasm) => {
                push_asset(
                    &mut assets,
                    &extension.id,
                    "wasm JS",
                    &wasm.js,
                    static_dir,
                    pkg_dir,
                    mounts,
                );
                push_asset(
                    &mut assets,
                    &extension.id,
                    "wasm binary",
                    &wasm.wasm,
                    static_dir,
                    pkg_dir,
                    mounts,
                );
            },
            None => {},
        }
        proof {
            assert(asset_views(assets@) =~= start + own);
        }
        i += 1;
    }
    proof {
        assert(all.take(i as int) =~= all);
    }
    assets
}

/// Why one asset is not served: nothing serves its url, or the file is not
/// there.
pub open spec fn asset_problem(assets: Seq<AssetView>, present: Seq<bool>, i: int) -> Option<
    Seq<char>,
> {
    let asset = assets[i];
    let head = "extension "@ + asset.extension + " "@ + asset.kind + " "@;
    match asset.path {
        None => Some(head + (debug_text(asset.url) + " has no matching static mount"@)),
        Some(path) => if present[i] {
            None
        } else {
            Some(head + (debug_text(asset.url) + " is missing at "@ + path))
        },
    }
}

/// Checks that every asset is served. `present` says of each whether its file is
/// there.
pub fn validate_extension_assets(assets: &Vec<Asset>, present: &Vec<bool>) -> (outcome: Result<
    (),
    String,
>)
    requires
        present@.len() == assets@.len(),
    ensures
        reports(
            outcome,
            first_problem(
                assets@.len(),
                |i: int| asset_problem(asset_views(assets@), present@, i),
            ),
        ),
{
    let ghost all = asset_views(assets@);
    let ghost problem = |i: int| asset_problem(all, present@, i);
    let mut i: usize = 0;
    while i < assets.len()
        invariant
            i <= assets@.len(),
            present@.len() == assets@.len(),
            all == asset_views(assets@),
            problem == (|i: int| asset_problem(all, present@, i)),
            first_problem(i as nat, problem) is None,
        decreases assets@.len() - i,
    {
        let asset: &Asset = &assets[i];
        let head: String = concat5("extension ", &asset.extension, " ", asset.kind, " ");
        let tail: Option<String> = match &asset.path {
            None => Some(concat2(&debug_quote(&asset.url), " has no matching static mount")),
            Some(path) => if present[i] {
                None
            } else {
                Some(concat3(&debug_quote(&asset.url), " is missing at ", path))
            },
        };
        match tail {
            Some(tail) => {
                let message: String = concat2(&head, &tail);
                proof {
                    assert(problem(i as int) == Some(message@));
                    lemma_first_problem_grows((i + 1) as nat, all.len(), problem);
                }
                return Err(message);
            },
            None => {
                proof {
                    assert(problem(i as int) is None);
                }
            },
        }
        i += 1;
    }
    Ok(())
}

// Laws.

/// In an accepted manifest every extension has its own id and its own mount, its
/// module is of the same origin, and every action that it owns is one that a
/// person may call.
pub proof fn law_an_accepted_manifest_names_only_human_actions(
    modules: Seq<ModuleView>,
    human: Seq<Seq<char>>,
    i: int,
)
    requires
        manifest_problem(modules, human) is None,
        0 <= i < modules.len(),
    ensures
        ({
            let extension = manifest_of(modules, human).extensions[i];
            &&& is_module_id(extension.id)
            &&& extension.module matches Some(path) ==> same_origin(path)
            &&& forall|k: int|
                0 <= k < extension.actions.len() ==> human.contains(#[trigger] extension.actions[k])
            &&& forall|j: int|
                0 <= j < i ==> (#[trigger] manifest_of(modules, human).extensions[j]).id
                    != extension.id && manifest_of(modules, human).extensions[j].mount
                    != extension.mount
        }),
{
    let problem = |i: int| place_problem(modules, human, i);
    crate::lists::lemma_no_problem(modules.len(), problem);
    assert(problem(i) is None);
    let extension = manifest_of(modules, human).extensions[i];
    match modules[i].actions {
        Some(actions) => {
            let foreign = |k: int| foreign_action(modules[i].id, actions, human, k);
            crate::lists::lemma_no_problem(actions.len(), foreign);
            assert forall|k: int| 0 <= k < extension.actions.len() implies human.contains(
                #[trigger] extension.actions[k],
            ) by {
                assert(foreign(k) is None);
            }
        },
        None => {
            assert forall|k: int| 0 <= k < extension.actions.len() implies human.contains(
                #[trigger] extension.actions[k],
            ) by {
                assert(human[k] == extension.actions[k]);
            }
        },
    }
    assert forall|j: int| 0 <= j < i implies (#[trigger] manifest_of(
        modules,
        human,
    ).extensions[j]).id != extension.id && manifest_of(modules, human).extensions[j].mount
        != extension.mount by {
        assert(modules[j].id != modules[i].id);
        assert(modules[j].mount_id != modules[i].mount_id);
    }
}

/// Where several modules make up a surface, each says which actions it owns.
pub proof fn law_composed_modules_declare_their_actions(
    modules: Seq<ModuleView>,
    human: Seq<Seq<char>>,
    i: int,
)
    requires
        manifest_problem(modules, human) is None,
        modules.len() > 1,
        0 <= i < modules.len(),
    ensures
        modules[i].actions is Some,
{
    let problem = |i: int| place_problem(modules, human, i);
    crate::lists::lemma_no_problem(modules.len(), problem);
    assert(problem(i) is None);
}

} // verus!
