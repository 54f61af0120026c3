//! The provider settings that the person edits: saved connections, keys and
//! models, the active provider, and what the settings page is told of them.

use vstd::prelude::*;

use crate::decisions::{error_reply, reply_error};
use crate::json::{
    empty_object, json_bool, json_items, json_null, json_opt_text, json_text, json_texts,
    lemma_array_view, object, text_array, text_or, text_or_null, Json, JsonView,
};
use crate::labels::{fresh_hex, fresh_id};
use crate::lists::lemma_filter_next;
use crate::mcp::or_null;
use crate::providers::{
    canonical_view, connection_id, connection_provider, find, found, id_char, is_user_connection,
    provider_views, registered, valid_connection_id, AuthKind, Backend, BackendView, Provider,
    ProviderView,
};
use crate::routes::{Reply, ReplyView};
use crate::text::{
    concat2, concat3, contains, copy_texts, debug_quote, debug_text, has_text, lowercase, opt_str,
    opt_text, same, texts, to_lowercase, trim, trimmed,
};
use crate::textmap::{value_at, TextMap};

verus! {

/// The endpoint and model of the single connection slot.
#[derive(Debug, PartialEq, Eq)]
pub struct Byok {
    pub base_url: String,
    pub model: String,
}

/// The single connection slot in contracts.
pub struct ByokView {
    pub base_url: Seq<char>,
    pub model: Seq<char>,
}

impl View for Byok {
    type V = ByokView;

    open spec fn view(&self) -> ByokView {
        ByokView { base_url: self.base_url@, model: self.model@ }
    }
}

/// What the key store says of a provider, and whether its endpoint is on this
/// machine.
#[derive(Debug, PartialEq, Eq)]
pub struct AuthStatus {
    pub kind: String,
    pub ready: bool,
    pub source: String,
    pub detail: Option<String>,
    pub local: bool,
}

/// A provider's status in contracts.
pub struct StatusView {
    pub kind: Seq<char>,
    pub ready: bool,
    pub source: Seq<char>,
    pub detail: Option<Seq<char>>,
    pub local: bool,
}

impl View for AuthStatus {
    type V = StatusView;

    open spec fn view(&self) -> StatusView {
        StatusView {
            kind: self.kind@,
            ready: self.ready,
            source: self.source@,
            detail: opt_text(self.detail),
            local: self.local,
        }
    }
}

/// Which provider is active, and how it is doing.
#[derive(Debug, PartialEq, Eq)]
pub struct ActiveProvider {
    pub id: String,
    pub ready: bool,
    pub warming: bool,
    pub error: Option<String>,
}

/// The active provider in contracts.
pub struct ActiveView {
    pub id: Seq<char>,
    pub ready: bool,
    pub warming: bool,
    pub error: Option<Seq<char>>,
}

impl View for ActiveProvider {
    type V = ActiveView;

    open spec fn view(&self) -> ActiveView {
        ActiveView {
            id: self.id@,
            ready: self.ready,
            warming: self.warming,
            error: opt_text(self.error),
        }
    }
}

// What the settings page is told.

/// The endpoint in effect for a provider.
pub open spec fn effective_url(provider: ProviderView, byok: ByokView) -> Seq<char> {
    if provider.id == "openai"@ {
        byok.base_url
    } else {
        text_or(provider.base_url, ""@)
    }
}

/// The model in effect for a provider: the person's choice where there is one.
pub open spec fn effective_model(
    provider: ProviderView,
    byok: ByokView,
    overrides: Map<Seq<char>, Seq<char>>,
) -> Seq<char> {
    if provider.id == "openai"@ {
        byok.model
    } else {
        match value_at(overrides, provider.id) {
            Some(model) => model,
            None => text_or(provider.model, ""@),
        }
    }
}

/// Whether the person can edit a provider's key.
pub open spec fn editable(provider: ProviderView) -> bool {
    provider.backend is OpenAi && provider.auth is ApiKey
}

/// Whether a local server makes up for a missing key.
pub open spec fn keyless(provider: ProviderView, status: StatusView) -> bool {
    !status.ready && editable(provider) && status.local
}

/// How a provider is doing.
pub open spec fn runtime_word(provider: ProviderView, active: ActiveView) -> Seq<char> {
    if provider.id != active.id {
        "not-selected"@
    } else if active.error is Some {
        "failed"@
    } else if active.ready {
        "ready"@
    } else if active.warming {
        "warming"@
    } else {
        "not-ready"@
    }
}

/// Which kind of provider it is.
pub open spec fn group_word(provider: ProviderView) -> Seq<char> {
    if provider.backend.managed() {
        "managed"@
    } else if connection_id(provider.id) {
        "connection"@
    } else {
        "preset"@
    }
}

/// The tools that a provider's own agent may use.
pub open spec fn own_tools(provider: ProviderView) -> Seq<Seq<char>> {
    match provider.backend {
        BackendView::PiRpc { builtin_tools, .. } => builtin_tools,
        _ => Seq::empty(),
    }
}

/// The name of a provider's adapter.
pub open spec fn adapter_word(provider: ProviderView) -> Seq<char> {
    match provider.backend {
        BackendView::Acp { .. } => "acp"@,
        BackendView::PiRpc { .. } => "pi-rpc"@,
        BackendView::OpenAi => "openai-compatible"@,
    }
}

/// What the settings page is told of one provider. No key is part of it.
pub open spec fn provider_status(
    provider: ProviderView,
    status: StatusView,
    active: ActiveView,
    byok: ByokView,
    overrides: Map<Seq<char>, Seq<char>>,
) -> JsonView {
    empty_object().with("id"@, JsonView::Text(provider.id)).with(
        "label"@,
        JsonView::Text(provider.label),
    ).with("kind"@, JsonView::Text(status.kind)).with(
        "configured"@,
        JsonView::Bool(status.ready || keyless(provider, status)),
    ).with(
        "source"@,
        JsonView::Text(
            if keyless(provider, status) {
                "local"@
            } else {
                status.source
            },
        ),
    ).with(
        "detail"@,
        if keyless(provider, status) {
            JsonView::Text("local server, no key needed"@)
        } else {
            text_or_null(status.detail)
        },
    ).with("note"@, JsonView::Text(provider.auth_note)).with(
        "adapter"@,
        JsonView::Text(adapter_word(provider)),
    ).with("runtime_state"@, JsonView::Text(runtime_word(provider, active))).with(
        "editable"@,
        JsonView::Bool(editable(provider)),
    ).with("byok"@, JsonView::Bool(provider.id == "openai"@)).with(
        "group"@,
        JsonView::Text(group_word(provider)),
    ).with("deletable"@, JsonView::Bool(connection_id(provider.id))).with(
        "vision"@,
        JsonView::Bool(provider.vision),
    ).with("model"@, JsonView::Text(effective_model(provider, byok, overrides))).with(
        "base_url"@,
        JsonView::Text(effective_url(provider, byok)),
    ).with("builtin_tools"@, text_array(own_tools(provider)))
}

/// What the settings page is told of every provider.
pub open spec fn settings_snapshot(
    providers: Seq<ProviderView>,
    statuses: Seq<StatusView>,
    active: ActiveView,
    byok: ByokView,
    overrides: Map<Seq<char>, Seq<char>>,
) -> JsonView {
    empty_object().with("current"@, JsonView::Text(active.id)).with(
        "ready"@,
        JsonView::Bool(active.ready),
    ).with("warming"@, JsonView::Bool(active.warming)).with(
        "error"@,
        text_or_null(active.error),
    ).with(
        "byok"@,
        empty_object().with("base_url"@, JsonView::Text(byok.base_url)).with(
            "model"@,
            JsonView::Text(byok.model),
        ),
    ).with(
        "providers"@,
        JsonView::Array(
            Seq::new(
                providers.len(),
                |i: int| provider_status(providers[i], statuses[i], active, byok, overrides),
            ),
        ),
    )
}

pub open spec fn status_views(statuses: Seq<AuthStatus>) -> Seq<StatusView> {
    Seq::new(statuses.len(), |i: int| statuses[i]@)
}

/// The endpoint in effect for a provider.
pub fn effective_base_url(provider: &Provider, byok: &Byok) -> (url: String)
    ensures
        url@ == effective_url(provider@, byok@),
{
    if same(&provider.id, "openai") {
        byok.base_url.clone()
    } else {
        match &provider.base_url {
            Some(url) => url.clone(),
            None => "".to_owned(),
        }
    }
}

fn effective_model_text(provider: &Provider, byok: &Byok, overrides: &TextMap) -> (model: String)
    ensures
        model@ == effective_model(provider@, byok@, overrides@),
{
    if same(&provider.id, "openai") {
        byok.model.clone()
    } else {
        match overrides.get(&provider.id) {
            Some(model) => model.to_owned(),
            None => match &provider.model {
                Some(model) => model.clone(),
                None => "".to_owned(),
            },
        }
    }
}

fn provider_status_json(
    provider: &Provider,
    status: &AuthStatus,
    active: &ActiveProvider,
    byok: &Byok,
    overrides: &TextMap,
) -> (result: Json)
    ensures
        result@ == provider_status(provider@, status@, active@, byok@, overrides@),
{
    let can_edit: bool = matches!(provider.backend, Backend::OpenAi) && provider.auth
        == AuthKind::ApiKey;
    let no_key: bool = !status.ready && can_edit && status.local;
    let selected: bool = same(&provider.id, &active.id);
    let runtime_state: &str = if !selected {
        "not-selected"
    } else if active.error.is_some() {
        "failed"
    } else if active.ready {
        "ready"
    } else if active.warming {
        "warming"
    } else {
        "not-ready"
    };
    let deletable: bool = is_user_connection(provider);
    let group: &str = if provider.backend.is_managed_agent() {
        "managed"
    } else if deletable {
        "connection"
    } else {
        "preset"
    };
    let tools: Vec<String> = match &provider.backend {
        Backend::PiRpc { builtin_tools, .. } => copy_texts(builtin_tools),
        _ => {
            let none: Vec<String> = Vec::new();
            proof {
                assert(texts(none@) =~= Seq::empty());
            }
            none
        },
    };
    let source: Json = if no_key {
        json_text("local")
    } else {
        json_text(&status.source)
    };
    let detail: Json = if no_key {
        json_text("local server, no key needed")
    } else {
        json_opt_text(&status.detail)
    };
    object().with("id", json_text(&provider.id)).with("label", json_text(&provider.label)).with(
        "kind",
        json_text(&status.kind),
    ).with("configured", json_bool(status.ready || no_key)).with("source", source).with(
        "detail",
        detail,
    ).with("note", json_text(&provider.auth_note)).with(
        "adapter",
        json_text(provider.backend.adapter()),
    ).with("runtime_state", json_text(runtime_state)).with("editable", json_bool(can_edit)).with(
        "byok",
        json_bool(same(&provider.id, "openai")),
    ).with("group", json_text(group)).with("deletable", json_bool(deletable)).with(
        "vision",
        json_bool(provider.vision),
    ).with("model", json_text(&effective_model_text(provider, byok, overrides))).with(
        "base_url",
        json_text(&effective_base_url(provider, byok)),
    ).with("builtin_tools", json_texts(&tools))
}

/// What the settings page is told of every provider.
pub fn auth_snapshot(
    providers: &Vec<Provider>,
    statuses: &Vec<AuthStatus>,
    active: &ActiveProvider,
    byok: &Byok,
    overrides: &TextMap,
) -> (result: Json)
    requires
        statuses@.len() == providers@.len(),
    ensures
        result@ == settings_snapshot(
            provider_views(providers@),
            status_views(statuses@),
            active@,
            byok@,
            overrides@,
        ),
{
    let mut items: Vec<Json> = Vec::new();
    let mut i: usize = 0;
    while i < providers.len()
        invariant
            i <= providers@.len(),
            statuses@.len() == providers@.len(),
            items@.len() == i,
            forall|k: int|
                0 <= k < i ==> (#[trigger] items@[k])@ == provider_status(
                    providers@[k]@,
                    statuses@[k]@,
                    active@,
                    byok@,
                    overrides@,
                ),
        decreases providers@.len() - i,
    {
        items.push(provider_status_json(&providers[i], &statuses[i], active, byok, overrides));
        i += 1;
    }
    proof {
        lemma_array_view(items);
        assert(json_items(items@) =~= Seq::new(
            provider_views(providers@).len(),
            |i: int|
                provider_status(
                    provider_views(providers@)[i],
                    status_views(statuses@)[i],
                    active@,
                    byok@,
                    overrides@,
                ),
        ));
    }
    object().with("current", json_text(&active.id)).with("ready", json_bool(active.ready)).with(
        "warming",
        json_bool(active.warming),
    ).with("error", json_opt_text(&active.error)).with(
        "byok",
        object().with("base_url", json_text(&byok.base_url)).with(
            "model",
            json_text(&byok.model),
        ),
    ).with("providers", Json::Array(items))
}

/// What the provider list says of one provider.
pub open spec fn provider_line(provider: ProviderView) -> JsonView {
    empty_object().with("id"@, JsonView::Text(provider.id)).with(
        "label"@,
        JsonView::Text(provider.label),
    ).with("auth"@, JsonView::Text(provider.auth_note))
}

/// The provider list, with the active one and how it is doing.
pub open spec fn list_value(providers: Seq<ProviderView>, active: ActiveView) -> JsonView {
    empty_object().with("current"@, JsonView::Text(active.id)).with(
        "ready"@,
        JsonView::Bool(active.ready),
    ).with("warming"@, JsonView::Bool(active.warming)).with(
        "error"@,
        text_or_null(active.error),
    ).with(
        "providers"@,
        JsonView::Array(Seq::new(providers.len(), |i: int| provider_line(providers[i]))),
    )
}

/// The provider list, with the active one and how it is doing.
pub fn provider_list(providers: &Vec<Provider>, active: &ActiveProvider) -> (result: Json)
    ensures
        result@ == list_value(provider_views(providers@), active@),
{
    let mut items: Vec<Json> = Vec::new();
    let mut i: usize = 0;
    while i < providers.len()
        invariant
            i <= providers@.len(),
            items@.len() == i,
            forall|k: int|
                0 <= k < i ==> (#[trigger] items@[k])@ == provider_line(providers@[k]@),
        decreases providers@.len() - i,
    {
        items.push(
            object().with("id", json_text(&providers[i].id)).with(
                "label",
                json_text(&providers[i].label),
            ).with("auth", json_text(&providers[i].auth_note)),
        );
        i += 1;
    }
    proof {
        lemma_array_view(items);
        assert(json_items(items@) =~= Seq::new(
            provider_views(providers@).len(),
            |i: int| provider_line(provider_views(providers@)[i]),
        ));
    }
    object().with("current", json_text(&active.id)).with("ready", json_bool(active.ready)).with(
        "warming",
        json_bool(active.warming),
    ).with("error", json_opt_text(&active.error)).with("providers", Json::Array(items))
}

// Switching.

/// What a request to switch providers leads to.
#[derive(Debug, PartialEq)]
pub enum SwitchStep {
    Answer(Reply),
    /// Switch to this provider.
    Switch { id: String },
}

/// A switch step in contracts.
pub enum SwitchView {
    Answer(ReplyView),
    Switch { id: Seq<char> },
}

impl View for SwitchStep {
    type V = SwitchView;

    open spec fn view(&self) -> SwitchView {
        match self {
            SwitchStep::Answer(reply) => SwitchView::Answer(reply@),
            SwitchStep::Switch { id } => SwitchView::Switch { id: id@ },
        }
    }
}

/// What a request to switch providers leads to: an unknown provider is refused,
/// and one that is already active and working is left alone.
pub open spec fn switch_step(
    providers: Seq<ProviderView>,
    active: ActiveView,
    body: JsonView,
) -> SwitchView {
    let id = trimmed(text_or(body.text_member("id"@), ""@));
    if !registered(providers, id) {
        SwitchView::Answer(error_reply(400, "unknown provider"@))
    } else if active.id == id && (active.ready || active.warming) {
        SwitchView::Answer(
            ReplyView {
                status: 200,
                body: empty_object().with("ok"@, JsonView::Bool(true)).with(
                    "current"@,
                    JsonView::Text(id),
                ).with("unchanged"@, JsonView::Bool(true)),
            },
        )
    } else {
        SwitchView::Switch { id }
    }
}

/// Decides a request to switch providers.
pub fn provider_post(providers: &Vec<Provider>, active: &ActiveProvider, body: &Json) -> (step:
    SwitchStep)
    ensures
        step@ == switch_step(provider_views(providers@), active@, body@),
{
    let id: &str = trim(body.str_member_or("id", ""));
    if find(providers, id).is_none() {
        return SwitchStep::Answer(reply_error(400, "unknown provider"));
    }
    if same(&active.id, id) && (active.ready || active.warming) {
        return SwitchStep::Answer(
            Reply {
                status: 200,
                body: object().with("ok", json_bool(true)).with("current", json_text(id)).with(
                    "unchanged",
                    json_bool(true),
                ),
            },
        );
    }
    SwitchStep::Switch { id: id.to_owned() }
}

/// The answer after a switch was asked of the supervisor.
pub open spec fn switched_answer(
    id: Seq<char>,
    outcome: Result<u64, String>,
    ready: bool,
) -> ReplyView {
    match outcome {
        Err(message) => error_reply(503, message@),
        Ok(_) => ReplyView {
            status: 200,
            body: empty_object().with("ok"@, JsonView::Bool(true)).with(
                "current"@,
                JsonView::Text(id),
            ).with("adopted"@, JsonView::Bool(true)).with("ready"@, JsonView::Bool(ready)),
        },
    }
}

/// The answer after a switch was asked of the supervisor.
pub fn switched_reply(id: &str, outcome: &Result<u64, String>, ready: bool) -> (reply: Reply)
    ensures
        reply@ == switched_answer(id@, *outcome, ready),
{
    match outcome {
        Err(message) => reply_error(503, message),
        Ok(_) => Reply {
            status: 200,
            body: object().with("ok", json_bool(true)).with("current", json_text(id)).with(
                "adopted",
                json_bool(true),
            ).with("ready", json_bool(ready)),
        },
    }
}

/// Whether the supervisor has adopted the requested provider: it moved on since
/// the request, and to that one. That a request was queued is not enough.
pub fn adopted(generation: u64, before: u64, current: &str, requested: &str) -> (result: bool)
    ensures
        result == (generation > before && current@ == requested@),
{
    generation > before && same(current, requested)
}

/// How far a switch came.
#[derive(Clone, Copy, Debug, PartialEq, Eq, Structural)]
pub enum SwitchProgress {
    /// Nobody takes requests for a switch.
    NotQueued,
    /// The provider was adopted, as this generation.
    Adopted(u64),
    /// Twelve seconds went by.
    TimedOut,
}

/// The generation that a switch led to, or why there is none.
pub fn switch_outcome(progress: SwitchProgress, id: &str) -> (outcome: Result<u64, String>)
    ensures
        match progress {
            SwitchProgress::NotQueued => outcome matches Err(message) && message@
                == "provider supervisor is unavailable"@,
            SwitchProgress::Adopted(generation) => outcome == Ok::<u64, String>(generation),
            SwitchProgress::TimedOut => outcome matches Err(message) && message@ == "provider "@
                + debug_text(id@) + " was not adopted within 12 seconds"@,
        },
{
    match progress {
        SwitchProgress::NotQueued => Err("provider supervisor is unavailable".to_owned()),
        SwitchProgress::Adopted(generation) => Ok(generation),
        SwitchProgress::TimedOut => Err(
            concat3("provider ", &debug_quote(id), " was not adopted within 12 seconds"),
        ),
    }
}

/// Whether a provider is back after a restart that led to a generation.
pub fn came_back(generation: u64, adopted: u64, ready: bool) -> (result: bool)
    ensures
        result == (generation >= adopted && ready),
{
    generation >= adopted && ready
}

// Saved connections.

/// What happens to a stored key.
#[derive(Debug, PartialEq, Eq)]
pub enum ApiKeyUpdate {
    Keep,
    Replace(String),
    Remove,
}

/// A key update in contracts.
pub enum KeyView {
    Keep,
    Replace(Seq<char>),
    Remove,
}

impl View for ApiKeyUpdate {
    type V = KeyView;

    open spec fn view(&self) -> KeyView {
        match self {
            ApiKeyUpdate::Keep => KeyView::Keep,
            ApiKeyUpdate::Replace(key) => KeyView::Replace(key@),
            ApiKeyUpdate::Remove => KeyView::Remove,
        }
    }
}

/// What a request about saved connections leads to.
#[derive(Debug, PartialEq)]
pub enum ConnectionStep {
    Answer(Reply),
    /// Delete this connection from the key store.
    Delete { id: String },
    /// Store this connection, and its key as told.
    Save { connection: Provider, key: ApiKeyUpdate },
}

/// A connection step in contracts.
pub enum ConnectionStepView {
    Answer(ReplyView),
    Delete { id: Seq<char> },
    Save { connection: ProviderView, key: KeyView },
}

impl View for ConnectionStep {
    type V = ConnectionStepView;

    open spec fn view(&self) -> ConnectionStepView {
        match self {
            ConnectionStep::Answer(reply) => ConnectionStepView::Answer(reply@),
            ConnectionStep::Delete { id } => ConnectionStepView::Delete { id: id@ },
            ConnectionStep::Save { connection, key } => ConnectionStepView::Save {
                connection: connection@,
                key: key@,
            },
        }
    }
}

/// A request's trimmed text field, empty where it is absent or no text.
pub open spec fn field_of(body: JsonView, name: Seq<char>) -> Seq<char> {
    trimmed(text_or(body.text_member(name), ""@))
}

fn field_text<'a>(body: &'a Json, name: &str) -> (text: &'a str)
    ensures
        text@ == field_of(body@, name@),
{
    trim(body.str_member_or(name, ""))
}

/// The endpoint that a request names, to be made canonical.
pub fn requested_base_url(body: &Json) -> (url: String)
    ensures
        url@ == field_of(body@, "base_url"@),
{
    field_text(body, "base_url").to_owned()
}

/// What a request about saved connections leads to. `fresh` is the id for a
/// connection that has none yet.
pub open spec fn connection_step(
    body: JsonView,
    active: Seq<char>,
    fresh: Seq<char>,
    base_url: Result<Seq<char>, Seq<char>>,
) -> ConnectionStepView {
    let action = text_or(body.text_member("action"@), "save"@);
    let named = field_of(body, "id"@);
    if action == "delete"@ {
        if !connection_id(named) {
            ConnectionStepView::Answer(error_reply(400, "invalid connection id"@))
        } else if active == named {
            ConnectionStepView::Answer(
                error_reply(
                    409,
                    "switch to another agent or connection before deleting this one"@,
                ),
            )
        } else {
            ConnectionStepView::Delete { id: named }
        }
    } else if action != "save"@ {
        ConnectionStepView::Answer(error_reply(400, "unknown connection action"@))
    } else {
        let id = if named.len() == 0 {
            "connection-"@ + fresh
        } else {
            named
        };
        match connection_provider(
            id,
            field_of(body, "label"@),
            base_url,
            field_of(body, "model"@),
            body.truth_member("vision"@) == Some(true),
        ) {
            Err(message) => ConnectionStepView::Answer(error_reply(400, message)),
            Ok(connection) => ConnectionStepView::Save {
                connection,
                key: if field_of(body, "api_key"@).len() == 0 {
                    KeyView::Keep
                } else {
                    KeyView::Replace(field_of(body, "api_key"@))
                },
            },
        }
    }
}

/// Decides a request about saved connections, with an id for a new one.
pub fn connection_request_with(
    body: &Json,
    active: &str,
    fresh: &str,
    base_url: Result<String, String>,
) -> (step: ConnectionStep)
    ensures
        step@ == connection_step(body@, active@, fresh@, canonical_view(base_url)),
{
    let action: &str = body.str_member_or("action", "save");
    let named: &str = field_text(body, "id");
    if same(action, "delete") {
        if !valid_connection_id(named) {
            return ConnectionStep::Answer(reply_error(400, "invalid connection id"));
        }
        if same(active, named) {
            return ConnectionStep::Answer(
                reply_error(
                    409,
                    "switch to another agent or connection before deleting this one",
                ),
            );
        }
        return ConnectionStep::Delete { id: named.to_owned() };
    }
    if !same(action, "save") {
        return ConnectionStep::Answer(reply_error(400, "unknown connection action"));
    }
    let id: String = if named.is_empty() {
        concat2("connection-", fresh)
    } else {
        named.to_owned()
    };
    let vision: bool = match body.bool_member("vision") {
        Some(vision) => vision,
        None => false,
    };
    match Provider::connection(
        id,
        field_text(body, "label"),
        base_url,
        field_text(body, "model"),
        vision,
    ) {
        Err(message) => ConnectionStep::Answer(reply_error(400, &message)),
        Ok(connection) => {
            let key: &str = field_text(body, "api_key");
            ConnectionStep::Save {
                connection,
                key: if key.is_empty() {
                    ApiKeyUpdate::Keep
                } else {
                    ApiKeyUpdate::Replace(key.to_owned())
                },
            }
        },
    }
}

/// Decides a request about saved connections. A connection that has no id yet
/// gets a fresh one.
pub fn connection_request(body: &Json, active: &str, base_url: Result<String, String>) -> (step:
    ConnectionStep)
    ensures
        exists|fresh: Seq<char>|
            fresh_hex(fresh) && step@ == #[trigger] connection_step(
                body@,
                active@,
                fresh,
                canonical_view(base_url),
            ),
{
    let fresh: String = fresh_id();
    let step: ConnectionStep = connection_request_with(body, active, &fresh, base_url);
    proof {
        assert(fresh_hex(fresh@));
        assert(step@ == connection_step(body@, active@, fresh@, canonical_view(base_url)));
    }
    step
}

/// A connection that gets a fresh id always has a valid one.
pub proof fn law_a_fresh_connection_id_is_valid(fresh: Seq<char>)
    requires
        fresh_hex(fresh),
    ensures
        connection_id("connection-"@ + fresh),
{
    reveal_strlit("connection-");
    let id = "connection-"@ + fresh;
    assert(id.subrange(0, "connection-"@.len() as int) =~= "connection-"@);
    assert forall|i: int| "connection-"@.len() <= i < id.len() implies id_char(
        #[trigger] id[i],
    ) by {
        assert(id[i] == fresh[i - "connection-"@.len()]);
    }
}

/// The active connection is never deleted, nothing but a saved connection ever
/// is, and nothing but a saved connection is stored.
pub proof fn law_only_saved_connections_change(
    body: JsonView,
    active: Seq<char>,
    fresh: Seq<char>,
    base_url: Result<Seq<char>, Seq<char>>,
)
    ensures
        match connection_step(body, active, fresh, base_url) {
            ConnectionStepView::Delete { id } => connection_id(id) && id != active,
            ConnectionStepView::Save { connection, .. } => connection_id(connection.id)
                && connection.key_source is None,
            ConnectionStepView::Answer(_) => true,
        },
{
}

/// Providers other than the given one.
pub open spec fn not_id(id: Seq<char>) -> spec_fn(ProviderView) -> bool {
    |provider: ProviderView| provider.id != id
}

/// The registry without a deleted connection.
pub fn forget_connection(providers: Vec<Provider>, id: &str) -> (kept: Vec<Provider>)
    ensures
        provider_views(kept@) == provider_views(providers@).filter(not_id(id@)),
{
    let ghost all = provider_views(providers@);
    let mut rest: Vec<Provider> = providers;
    let mut kept: Vec<Provider> = Vec::new();
    let ghost mut done: int = 0;
    proof {
        reveal(Seq::filter);
        assert(all.take(0) =~= Seq::empty());
        assert(provider_views(kept@) =~= all.take(0).filter(not_id(id@)));
        assert(provider_views(rest@) =~= all.skip(0));
    }
    while rest.len() > 0
        invariant
            0 <= done <= all.len(),
            provider_views(rest@) == all.skip(done),
            provider_views(kept@) == all.take(done).filter(not_id(id@)),
        decreases rest@.len(),
    {
        let ghost before = rest@;
        let provider: Provider = rest.remove(0);
        proof {
            assert(all.skip(done).len() == provider_views(before).len());
            assert(provider_views(before)[0] == all.skip(done)[0]);
            assert(provider_views(rest@) =~= all.skip(done + 1)) by {
                assert(provider_views(rest@) =~= provider_views(before).skip(1));
                assert(all.skip(done).skip(1) =~= all.skip(done + 1));
            }
            lemma_filter_next(all, not_id(id@), done);
            done = done + 1;
        }
        let ghost earlier = kept@;
        if !same(&provider.id, id) {
            kept.push(provider);
            proof {
                assert(provider_views(kept@) =~= provider_views(earlier).push(provider@));
            }
        }
    }
    proof {
        assert(all.skip(done).len() == 0);
        assert(all.take(done) =~= all);
    }
    kept
}

/// The registry with a connection stored: in place of the first of the same id,
/// or at the end.
pub open spec fn stored(providers: Seq<ProviderView>, connection: ProviderView) -> Seq<ProviderView>
    decreases providers.len(),
{
    if providers.len() == 0 {
        Seq::empty().push(connection)
    } else if providers[0].id == connection.id {
        Seq::empty().push(connection) + providers.skip(1)
    } else {
        Seq::empty().push(providers[0]) + stored(providers.skip(1), connection)
    }
}

/// Stores a connection in the registry.
pub fn store_connection(providers: &mut Vec<Provider>, connection: Provider)
    ensures
        provider_views(final(providers)@) == stored(
            provider_views(old(providers)@),
            connection@,
        ),
{
    let ghost all = provider_views(providers@);
    let mut i: usize = 0;
    proof {
        assert(all.skip(0) =~= all);
        assert(all.take(0) + stored(all.skip(0), connection@) =~= stored(all, connection@));
    }
    while i < providers.len()
        invariant
            i <= providers@.len(),
            *providers == *old(providers),
            all == provider_views(providers@),
            stored(all, connection@) == all.take(i as int) + stored(
                all.skip(i as int),
                connection@,
            ),
        decreases providers@.len() - i,
    {
        proof {
            assert(all.skip(i as int)[0] == all[i as int]);
            assert(all.skip(i as int).skip(1) =~= all.skip(i + 1));
        }
        if same(&providers[i].id, &connection.id) {
            providers.set(i, connection);
            proof {
                assert(provider_views(providers@) =~= all.take(i as int) + (Seq::empty().push(
                    connection@,
                ) + all.skip(i + 1)));
            }
            return;
        }
        proof {
            assert(all.take(i as int) + (Seq::empty().push(all[i as int]) + stored(
                all.skip(i + 1),
                connection@,
            )) =~= all.take(i + 1) + stored(all.skip(i + 1), connection@));
        }
        i += 1;
    }
    providers.push(connection);
    proof {
        assert(all.skip(all.len() as int) =~= Seq::empty());
        assert(provider_views(providers@) =~= all.take(all.len() as int) + Seq::empty().push(
            connection@,
        ));
    }
}

/// A stored connection is found under its id, and every other provider is found
/// as before.
pub proof fn law_a_stored_connection_is_found(
    providers: Seq<ProviderView>,
    connection: ProviderView,
    id: Seq<char>,
)
    ensures
        found(stored(providers, connection), id) == (if id == connection.id {
            Some(connection)
        } else {
            found(providers, id)
        }),
    decreases providers.len(),
{
    let result = stored(providers, connection);
    if providers.len() == 0 {
        assert(result.skip(1) =~= providers);
    } else if providers[0].id == connection.id {
        assert(result.skip(1) =~= providers.skip(1));
    } else {
        law_a_stored_connection_is_found(providers.skip(1), connection, id);
        assert(result.skip(1) =~= stored(providers.skip(1), connection));
    }
}

/// The settings that are stored for a connection.
pub struct ConnectionSettings {
    pub marker: String,
    pub label: String,
    pub base_url: String,
    pub model: String,
    pub vision: String,
}

/// The settings that are stored for a connection.
pub fn connection_settings(connection: &Provider) -> (settings: ConnectionSettings)
    ensures
        settings.marker@ == "true"@,
        settings.label@ == connection@.label,
        settings.base_url@ == text_or(connection@.base_url, ""@),
        settings.model@ == text_or(connection@.model, ""@),
        settings.vision@ == (if connection@.vision {
            "true"@
        } else {
            "false"@
        }),
{
    ConnectionSettings {
        marker: "true".to_owned(),
        label: connection.label.clone(),
        base_url: match &connection.base_url {
            Some(url) => url.clone(),
            None => "".to_owned(),
        },
        model: match &connection.model {
            Some(model) => model.clone(),
            None => "".to_owned(),
        },
        vision: if connection.vision {
            "true".to_owned()
        } else {
            "false".to_owned()
        },
    }
}

/// What a stored or a deleted connection changes beside the registry.
pub struct ConnectionChange {
    /// The models that the person chose for providers.
    pub overrides: TextMap,
    /// Whether the active provider has to be switched to, for the change to take
    /// effect.
    pub switch: bool,
}

/// What changes once a connection is stored with a model, or deleted where there
/// is none: the model becomes the connection's own choice or is forgotten, and a
/// stored connection that is active is switched to again.
pub fn connection_changed(active: &str, id: &str, model: Option<&str>, overrides: TextMap) -> (change:
    ConnectionChange)
    ensures
        change.overrides@ == (match opt_str(model) {
            Some(model) => overrides@.insert(id@, model),
            None => overrides@.remove(id@),
        }),
        change.switch == (model is Some && active@ == id@),
{
    let mut overrides: TextMap = overrides;
    match model {
        Some(model) => {
            overrides.insert(id, model);
            ConnectionChange { overrides, switch: same(active, id) }
        },
        None => {
            overrides.remove(id);
            ConnectionChange { overrides, switch: false }
        },
    }
}

/// The answer when the key store refused a change.
pub fn store_failed_reply(message: &str) -> (reply: Reply)
    ensures
        reply@ == error_reply(500, message@),
{
    reply_error(500, message)
}

/// The answer when a change was stored and the provider did not come back.
pub open spec fn stored_only_answer(message: Seq<char>) -> ReplyView {
    ReplyView {
        status: 503,
        body: empty_object().with("ok"@, JsonView::Bool(false)).with(
            "persisted"@,
            JsonView::Bool(true),
        ).with("error"@, JsonView::Text(message)),
    }
}

/// The answer when a change was stored and the provider did not come back.
pub fn not_restarted_reply(message: &str) -> (reply: Reply)
    ensures
        reply@ == stored_only_answer(message@),
{
    Reply {
        status: 503,
        body: object().with("ok", json_bool(false)).with("persisted", json_bool(true)).with(
            "error",
            json_text(message),
        ),
    }
}

/// The answer to a deletion: the settings page's new state.
pub open spec fn deleted_answer(snapshot: JsonView) -> ReplyView {
    ReplyView { status: 200, body: snapshot.set("ok"@, JsonView::Bool(true)) }
}

/// The answer to a stored connection: the settings page's new state, and which
/// connection it was.
pub open spec fn saved_answer(snapshot: JsonView, id: Seq<char>) -> ReplyView {
    ReplyView {
        status: 200,
        body: snapshot.set("ok"@, JsonView::Bool(true)).set("saved"@, JsonView::Text(id)),
    }
}

/// The answer to a deletion: the settings page's new state.
pub fn deleted_reply(snapshot: Json) -> (reply: Reply)
    ensures
        reply@ == deleted_answer(snapshot@),
{
    Reply { status: 200, body: snapshot.set("ok", json_bool(true)) }
}

/// The answer to a stored connection: the settings page's new state, and which
/// connection it was.
pub fn saved_reply(snapshot: Json, id: &str) -> (reply: Reply)
    ensures
        reply@ == saved_answer(snapshot@, id@),
{
    Reply {
        status: 200,
        body: snapshot.set("ok", json_bool(true)).set("saved", json_text(id)),
    }
}

// Keys and models.

/// What happens to a stored setting.
#[derive(Debug, PartialEq, Eq)]
pub enum SettingChange {
    Keep,
    Replace(String),
    Remove,
}

/// A setting change in contracts.
pub enum SettingView {
    Keep,
    Replace(Seq<char>),
    Remove,
}

impl View for SettingChange {
    type V = SettingView;

    open spec fn view(&self) -> SettingView {
        match self {
            SettingChange::Keep => SettingView::Keep,
            SettingChange::Replace(value) => SettingView::Replace(value@),
            SettingChange::Remove => SettingView::Remove,
        }
    }
}

/// What a request about a provider's key or model leads to.
#[derive(Debug, PartialEq)]
pub enum AuthStep {
    Answer(Reply),
    /// Store the key and settings; once that worked, put the endpoint, the
    /// model and the person's model choices in effect.
    Update(AuthUpdate),
}

/// A change to a provider's key and model.
#[derive(Debug, PartialEq, Eq)]
pub struct AuthUpdate {
    pub id: String,
    /// Whether the provider is an endpoint that has to be restarted where it is
    /// active.
    pub restarts: bool,
    pub byok: Byok,
    pub overrides: TextMap,
    pub base_url: SettingChange,
    pub model: SettingChange,
    pub key: ApiKeyUpdate,
}

/// An authentication change in contracts.
pub struct UpdateView {
    pub id: Seq<char>,
    pub restarts: bool,
    pub byok: ByokView,
    pub overrides: Map<Seq<char>, Seq<char>>,
    pub base_url: SettingView,
    pub model: SettingView,
    pub key: KeyView,
}

/// An authentication step in contracts.
pub enum AuthView {
    Answer(ReplyView),
    Update(UpdateView),
}

impl View for AuthUpdate {
    type V = UpdateView;

    open spec fn view(&self) -> UpdateView {
        UpdateView {
            id: self.id@,
            restarts: self.restarts,
            byok: self.byok@,
            overrides: self.overrides@,
            base_url: self.base_url@,
            model: self.model@,
            key: self.key@,
        }
    }
}

impl View for AuthStep {
    type V = AuthView;

    open spec fn view(&self) -> AuthView {
        match self {
            AuthStep::Answer(reply) => AuthView::Answer(reply@),
            AuthStep::Update(update) => AuthView::Update(update@),
        }
    }
}

/// Whether a request touches a provider's key, endpoint or model.
pub open spec fn touches_key(body: JsonView) -> bool {
    ||| body.member("api_key"@) is Some
    ||| body.truth_member("remove"@) == Some(true)
    ||| body.member("base_url"@) is Some
    ||| body.member("model"@) is Some
}

/// A request's trimmed text field, where it is there and a text.
pub open spec fn given(body: JsonView, name: Seq<char>) -> Option<Seq<char>> {
    match body.text_member(name) {
        Some(text) => Some(trimmed(text)),
        None => None,
    }
}

/// What a request does to the stored key.
pub open spec fn key_update(body: JsonView) -> KeyView {
    if body.truth_member("remove"@) == Some(true) {
        KeyView::Remove
    } else {
        match given(body, "api_key"@) {
            Some(key) => if key.len() == 0 {
                KeyView::Keep
            } else {
                KeyView::Replace(key)
            },
            None => KeyView::Keep,
        }
    }
}

/// What a request about a provider's key or model leads to.
pub open spec fn auth_step(
    providers: Seq<ProviderView>,
    body: JsonView,
    byok: ByokView,
    overrides: Map<Seq<char>, Seq<char>>,
    base_url: Result<Seq<char>, Seq<char>>,
) -> AuthView {
    match found(providers, field_of(body, "provider"@)) {
        None => AuthView::Answer(error_reply(400, "unknown provider"@)),
        Some(provider) => if !(provider.auth is ApiKey) && touches_key(body) {
            AuthView::Answer(
                error_reply(
                    400,
                    "this provider does not accept API-key endpoint/model updates"@,
                ),
            )
        } else if provider.id == "openai"@ {
            let new_url = given(body, "base_url"@) matches Some(url) && url.len() > 0;
            let new_model = given(body, "model"@) matches Some(model) && model.len() > 0;
            if new_url && base_url is Err {
                AuthView::Answer(error_reply(400, base_url->Err_0))
            } else {
                let next = ByokView {
                    base_url: if new_url {
                        base_url->Ok_0
                    } else {
                        byok.base_url
                    },
                    model: if new_model {
                        given(body, "model"@)->0
                    } else {
                        byok.model
                    },
                };
                AuthView::Update(
                    UpdateView {
                        id: provider.id,
                        restarts: provider.backend is OpenAi,
                        byok: next,
                        overrides,
                        base_url: SettingView::Replace(next.base_url),
                        model: SettingView::Replace(next.model),
                        key: key_update(body),
                    },
                )
            }
        } else {
            let choice = if provider.backend is OpenAi {
                given(body, "model"@)
            } else {
                None
            };
            AuthView::Update(
                UpdateView {
                    id: provider.id,
                    restarts: provider.backend is OpenAi,
                    byok,
                    overrides: match choice {
                        Some(model) => if model.len() == 0 {
                            overrides.remove(provider.id)
                        } else {
                            overrides.insert(provider.id, model)
                        },
                        None => overrides,
                    },
                    base_url: SettingView::Keep,
                    model: match choice {
                        Some(model) => if model.len() == 0 {
                            SettingView::Remove
                        } else {
                            SettingView::Replace(model)
                        },
                        None => SettingView::Keep,
                    },
                    key: key_update(body),
                },
            )
        },
    }
}

fn given_text<'a>(body: &'a Json, name: &str) -> (text: Option<&'a str>)
    ensures
        opt_str(text) == given(body@, name@),
{
    match body.str_member(name) {
        Some(text) => Some(trim(text)),
        None => None,
    }
}

fn removes_key(body: &Json) -> (result: bool)
    ensures
        result == (body@.truth_member("remove"@) == Some(true)),
{
    match body.bool_member("remove") {
        Some(remove) => remove,
        None => false,
    }
}

fn key_change(body: &Json) -> (key: ApiKeyUpdate)
    ensures
        key@ == key_update(body@),
{
    if removes_key(body) {
        return ApiKeyUpdate::Remove;
    }
    match given_text(body, "api_key") {
        Some(key) => if key.is_empty() {
            ApiKeyUpdate::Keep
        } else {
            ApiKeyUpdate::Replace(key.to_owned())
        },
        None => ApiKeyUpdate::Keep,
    }
}

/// Decides a request about a provider's key or model. `base_url` is the
/// canonical form of the endpoint that the request names, or why it has none.
pub fn auth_request(
    providers: &Vec<Provider>,
    body: &Json,
    byok: Byok,
    overrides: TextMap,
    base_url: Result<String, String>,
) -> (step: AuthStep)
    ensures
        step@ == auth_step(
            provider_views(providers@),
            body@,
            byok@,
            overrides@,
            canonical_view(base_url),
        ),
{
    let provider: &Provider = match find(providers, field_text(body, "provider")) {
        Some(provider) => provider,
        None => {
            return AuthStep::Answer(reply_error(400, "unknown provider"));
        },
    };
    let touches: bool = body.get("api_key").is_some() || removes_key(body) || body.get(
        "base_url",
    ).is_some() || body.get("model").is_some();
    if provider.auth != AuthKind::ApiKey && touches {
        return AuthStep::Answer(
            reply_error(400, "this provider does not accept API-key endpoint/model updates"),
        );
    }
    let restarts: bool = matches!(provider.backend, Backend::OpenAi);
    let id: String = provider.id.clone();
    let key: ApiKeyUpdate = key_change(body);
    if same(&provider.id, "openai") {
        let mut byok: Byok = byok;
        match given_text(body, "base_url") {
            Some(url) => if !url.is_empty() {
                match base_url {
                    Ok(canonical) => {
                        byok.base_url = canonical;
                    },
                    Err(message) => {
                        return AuthStep::Answer(reply_error(400, &message));
                    },
                }
            },
            None => {},
        }
        match given_text(body, "model") {
            Some(model) => if !model.is_empty() {
                byok.model = model.to_owned();
            },
            None => {},
        }
        let base_url: SettingChange = SettingChange::Replace(byok.base_url.clone());
        let model: SettingChange = SettingChange::Replace(byok.model.clone());
        return AuthStep::Update(
            AuthUpdate { id, restarts, byok, overrides, base_url, model, key },
        );
    }
    let mut overrides: TextMap = overrides;
    let mut model: SettingChange = SettingChange::Keep;
    if restarts {
        match given_text(body, "model") {
            Some(choice) => if choice.is_empty() {
                overrides.remove(&id);
                model = SettingChange::Remove;
            } else {
                overrides.insert(&id, choice);
                model = SettingChange::Replace(choice.to_owned());
            },
            None => {},
        }
    }
    AuthStep::Update(
        AuthUpdate { id, restarts, byok, overrides, base_url: SettingChange::Keep, model, key },
    )
}

/// The answer to a change of key or model: the settings page's new state, and
/// whether the active provider was restarted and came back.
pub open spec fn updated_answer(snapshot: JsonView, live: bool, ready: bool) -> ReplyView {
    ReplyView {
        status: 200,
        body: snapshot.set("ok"@, JsonView::Bool(true)).set(
            "reprimed"@,
            JsonView::Bool(live && ready),
        ).set("restarted"@, JsonView::Bool(live)),
    }
}

/// The answer to a change of key or model.
pub fn updated_reply(snapshot: Json, live: bool, ready: bool) -> (reply: Reply)
    ensures
        reply@ == updated_answer(snapshot@, live, ready),
{
    Reply {
        status: 200,
        body: snapshot.set("ok", json_bool(true)).set("reprimed", json_bool(live && ready)).set(
            "restarted",
            json_bool(live),
        ),
    }
}

/// A provider with a subscription's token, or with its own login, never has its
/// key, endpoint or model changed.
pub proof fn law_managed_credentials_are_never_edited(
    providers: Seq<ProviderView>,
    body: JsonView,
    byok: ByokView,
    overrides: Map<Seq<char>, Seq<char>>,
    base_url: Result<Seq<char>, Seq<char>>,
)
    ensures
        auth_step(providers, body, byok, overrides, base_url) matches AuthView::Update(update) ==> {
            &&& found(providers, field_of(body, "provider"@)) matches Some(provider)
            &&& !(provider.auth is ApiKey) ==> update.key is Keep && !touches_key(body)
        },
{
}

// The model catalog.

/// What the catalog says of a model.
pub open spec fn model_entry(model: JsonView) -> JsonView {
    let id = model.text_member("id"@)->0;
    empty_object().with("id"@, JsonView::Text(id)).with(
        "name"@,
        JsonView::Text(text_or(model.text_member("name"@), id)),
    ).with("context_length"@, or_null(model.member("context_length"@))).with(
        "supported_parameters"@,
        match model.member("supported_parameters"@) {
            Some(value) => value,
            None => JsonView::Array(Seq::empty()),
        },
    )
}

/// The text of a model that is searched: its id and name.
pub open spec fn model_text(model: JsonView) -> Seq<char> {
    match model.text_member("id"@) {
        Some(id) => id + " "@ + text_or(model.text_member("name"@), id),
        None => Seq::empty(),
    }
}

/// Whether a model is one that the person searches for: it has an id, and its
/// text holds what was typed.
pub open spec fn model_matches(model: JsonView, text: Seq<char>, needle: Seq<char>) -> bool {
    model.text_member("id"@) is Some && (needle.len() == 0 || has_text(text, needle))
}

/// The first eighty matching models among the first `n`. `searched` holds their
/// texts.
pub open spec fn matching_models(
    models: Seq<JsonView>,
    searched: Seq<Seq<char>>,
    needle: Seq<char>,
    n: nat,
) -> Seq<JsonView>
    decreases n,
{
    if n == 0 {
        Seq::empty()
    } else {
        let before = matching_models(models, searched, needle, (n - 1) as nat);
        if before.len() < 80 && model_matches(models[n - 1], searched[n - 1], needle) {
            before.push(model_entry(models[n - 1]))
        } else {
            before
        }
    }
}

/// The models of a catalog.
pub open spec fn catalog_models(body: JsonView) -> Seq<JsonView> {
    match body.member("data"@) {
        Some(data) => match data.items() {
            Some(models) => models,
            None => Seq::empty(),
        },
        None => Seq::empty(),
    }
}

/// What the person typed, as it is searched for.
pub open spec fn search_needle(query: Option<Seq<char>>) -> Seq<char> {
    match query {
        Some(query) => lowercase(trimmed(query)),
        None => Seq::empty(),
    }
}

/// The texts of a catalog's models in small letters.
pub open spec fn searched_texts(models: Seq<JsonView>) -> Seq<Seq<char>> {
    Seq::new(models.len(), |i: int| lowercase(model_text(models[i])))
}

/// What a search answers with.
pub open spec fn search_answer(found: Seq<JsonView>) -> JsonView {
    empty_object().with("ok"@, JsonView::Bool(true)).with("models"@, JsonView::Array(found))
}

fn text_of_model(model: &Json) -> (text: String)
    ensures
        text@ == model_text(model@),
{
    match model.str_member("id") {
        None => String::new(),
        Some(id) => concat3(id, " ", model.str_member_or("name", id)),
    }
}

fn models_of<'a>(body: &'a Json, none: &'a Vec<Json>) -> (models: &'a Vec<Json>)
    requires
        none@.len() == 0,
    ensures
        json_items(models@) == catalog_models(body@),
{
    proof {
        assert(json_items(none@) =~= Seq::empty());
    }
    match body.get("data") {
        Some(data) => match data.as_array() {
            Some(models) => models,
            None => none,
        },
        None => none,
    }
}

fn model_entry_json(model: &Json) -> (entry: Json)
    requires
        model@.text_member("id"@) is Some,
    ensures
        entry@ == model_entry(model@),
{
    let id: &str = model.str_member_or("id", "");
    let name: &str = model.str_member_or("name", id);
    let context_length: Json = match model.get("context_length") {
        Some(value) => value.copy(),
        None => json_null(),
    };
    let supported_parameters: Json = match model.get("supported_parameters") {
        Some(value) => value.copy(),
        None => {
            let none: Vec<Json> = Vec::new();
            proof {
                lemma_array_view(none);
                assert(json_items(none@) =~= Seq::empty());
            }
            Json::Array(none)
        },
    };
    object().with("id", json_text(id)).with("name", json_text(name)).with(
        "context_length",
        context_length,
    ).with("supported_parameters", supported_parameters)
}

proof fn lemma_enough_models(
    models: Seq<JsonView>,
    searched: Seq<Seq<char>>,
    needle: Seq<char>,
    m: nat,
    n: nat,
)
    requires
        m <= n,
        matching_models(models, searched, needle, m).len() >= 80,
    ensures
        matching_models(models, searched, needle, n) == matching_models(models, searched, needle, m),
    decreases n - m,
{
    if m < n {
        lemma_enough_models(models, searched, needle, m, (n - 1) as nat);
    }
}

/// The models of a catalog whose texts hold what was typed, eighty at most.
/// `searched` holds the models' texts.
pub fn search_models_with(body: &Json, needle: &str, searched: &Vec<String>) -> (result: Json)
    requires
        searched@.len() == catalog_models(body@).len(),
    ensures
        result@ == search_answer(
            matching_models(
                catalog_models(body@),
                texts(searched@),
                needle@,
                catalog_models(body@).len(),
            ),
        ),
{
    let none: Vec<Json> = Vec::new();
    let models: &Vec<Json> = models_of(body, &none);
    let ghost all = json_items(models@);
    let mut found: Vec<Json> = Vec::new();
    let mut i: usize = 0;
    proof {
        assert(json_items(found@) =~= Seq::empty());
    }
    while i < models.len() && found.len() < 80
        invariant
            i <= models@.len(),
            models@.len() == searched@.len(),
            all == json_items(models@),
            json_items(found@) == matching_models(all, texts(searched@), needle@, i as nat),
        decreases models@.len() - i,
    {
        proof {
            assert(all[i as int] == models@[i as int]@);
        }
        if models[i].str_member("id").is_some() && (needle.is_empty() || contains(
            &searched[i],
            needle,
        )) {
            let entry: Json = model_entry_json(&models[i]);
            let ghost earlier = found@;
            found.push(entry);
            proof {
                assert(json_items(found@) =~= json_items(earlier).push(entry@));
            }
        }
        i += 1;
    }
    proof {
        assert(json_items(found@).len() == found@.len());
        if i < models@.len() {
            lemma_enough_models(all, texts(searched@), needle@, i as nat, all.len());
        }
        lemma_array_view(found);
    }
    object().with("ok", json_bool(true)).with("models", Json::Array(found))
}

/// The models of a catalog that the person searches for, small letters and
/// capitals alike.
pub fn search_models(body: &Json, query: Option<&str>) -> (result: Json)
    ensures
        result@ == search_answer(
            matching_models(
                catalog_models(body@),
                searched_texts(catalog_models(body@)),
                search_needle(opt_str(query)),
                catalog_models(body@).len(),
            ),
        ),
{
    let needle: String = match query {
        Some(query) => to_lowercase(trim(query)),
        None => String::new(),
    };
    let none: Vec<Json> = Vec::new();
    let models: &Vec<Json> = models_of(body, &none);
    let ghost all = searched_texts(catalog_models(body@));
    let mut searched: Vec<String> = Vec::new();
    let mut i: usize = 0;
    proof {
        assert(texts(searched@) =~= all.take(0));
    }
    while i < models.len()
        invariant
            i <= models@.len(),
            all == searched_texts(json_items(models@)),
            texts(searched@) == all.take(i as int),
        decreases models@.len() - i,
    {
        let ghost earlier = searched@;
        searched.push(to_lowercase(&text_of_model(&models[i])));
        proof {
            assert(texts(searched@) =~= texts(earlier).push(all[i as int]));
            assert(all.take(i + 1) =~= all.take(i as int).push(all[i as int]));
        }
        i += 1;
    }
    proof {
        assert(all.take(i as int) =~= all);
        assert(texts(searched@).len() == searched@.len());
    }
    search_models_with(body, &needle, &searched)
}

/// How a request for the catalog went.
#[derive(Debug, PartialEq)]
pub enum CatalogFetch {
    /// No request could be made.
    NoClient(String),
    /// No answer came.
    Unavailable(String),
    /// The answer was an error with this status.
    Status(String),
    /// The answer was no JSON.
    Invalid(String),
    Body(Json),
}

/// The answer to a search, given how the request for the catalog went.
pub open spec fn catalog_answer(fetch: CatalogFetch, query: Option<Seq<char>>) -> ReplyView {
    match fetch {
        CatalogFetch::NoClient(error) => error_reply(500, error@),
        CatalogFetch::Unavailable(error) => error_reply(
            502,
            "OpenRouter catalog unavailable: "@ + error@,
        ),
        CatalogFetch::Status(status) => error_reply(
            502,
            "OpenRouter catalog returned "@ + status@,
        ),
        CatalogFetch::Invalid(error) => error_reply(
            502,
            "invalid OpenRouter catalog: "@ + error@,
        ),
        CatalogFetch::Body(body) => ReplyView {
            status: 200,
            body: search_answer(
                matching_models(
                    catalog_models(body@),
                    searched_texts(catalog_models(body@)),
                    search_needle(query),
                    catalog_models(body@).len(),
                ),
            ),
        },
    }
}

/// The answer to a search, given how the request for the catalog went.
pub fn catalog_reply(fetch: &CatalogFetch, query: Option<&str>) -> (reply: Reply)
    ensures
        reply@ == catalog_answer(*fetch, opt_str(query)),
{
    match fetch {
        CatalogFetch::NoClient(error) => reply_error(500, error),
        CatalogFetch::Unavailable(error) => reply_error(
            502,
            &concat2("OpenRouter catalog unavailable: ", error),
        ),
        CatalogFetch::Status(status) => reply_error(
            502,
            &concat2("OpenRouter catalog returned ", status),
        ),
        CatalogFetch::Invalid(error) => reply_error(
            502,
            &concat2("invalid OpenRouter catalog: ", error),
        ),
        CatalogFetch::Body(body) => Reply { status: 200, body: search_models(body, query) },
    }
}

// Audio.

/// What a control request leads to.
#[derive(Debug, PartialEq)]
pub enum ControlStep {
    Answer(Reply),
    /// Turn speech on or off.
    Audio(bool),
}

/// A control step in contracts.
pub enum ControlView {
    Answer(ReplyView),
    Audio(bool),
}

impl View for ControlStep {
    type V = ControlView;

    open spec fn view(&self) -> ControlView {
        match self {
            ControlStep::Answer(reply) => ControlView::Answer(reply@),
            ControlStep::Audio(on) => ControlView::Audio(*on),
        }
    }
}

/// What a control request leads to: audio is the one thing to control, and it
/// takes an explicit boolean.
pub open spec fn control_step(body: JsonView) -> ControlView {
    if body.text_member("action"@) != Some("audio"@) {
        ControlView::Answer(error_reply(400, "unsupported control action"@))
    } else {
        match body.truth_member("on"@) {
            None => ControlView::Answer(
                error_reply(400, "audio control requires boolean `on`"@),
            ),
            Some(on) => ControlView::Audio(on),
        }
    }
}

/// Decides a control request.
pub fn control_request(body: &Json) -> (step: ControlStep)
    ensures
        step@ == control_step(body@),
{
    let audio: bool = match body.str_member("action") {
        Some(action) => same(action, "audio"),
        None => false,
    };
    if !audio {
        return ControlStep::Answer(reply_error(400, "unsupported control action"));
    }
    match body.bool_member("on") {
        None => ControlStep::Answer(reply_error(400, "audio control requires boolean `on`")),
        Some(on) => ControlStep::Audio(on),
    }
}

/// The answer after speech was turned on or off.
pub open spec fn audio_answer(on: bool) -> ReplyView {
    ReplyView {
        status: 200,
        body: empty_object().with("ok"@, JsonView::Bool(true)).with(
            "audio"@,
            JsonView::Bool(on),
        ),
    }
}

/// The answer after speech was turned on or off.
pub fn audio_reply(on: bool) -> (reply: Reply)
    ensures
        reply@ == audio_answer(on),
{
    Reply { status: 200, body: object().with("ok", json_bool(true)).with("audio", json_bool(on)) }
}

} // verus!
