//! What the settings page is told, and what its requests do, whatever is
//! registered and whatever is asked.

use vstd::prelude::*;

use crate::decisions::error_reply;
use crate::json::{
    group_reading, item_under, law_texts_are_read_back, lists_under, read_texts, under, JsonView,
};
use crate::providers::{
    connection_id, connection_provider, found, registered, BackendView, ProviderView,
};
use crate::settings::{
    audio_answer, auth_step, catalog_answer, catalog_models, connection_step, control_step,
    deleted_answer, effective_model, effective_url, key_update, list_value, matching_models,
    model_entry, model_matches, model_text, not_id, provider_status, saved_answer, search_needle,
    searched_texts, settings_snapshot, stored_only_answer, switch_step, switched_answer,
    updated_answer, ActiveView, AuthView, ByokView, CatalogFetch, ConnectionStepView, ControlView,
    KeyView, SettingView, StatusView, SwitchView,
};
use crate::text::{blank, has_text, lowercase, trimmed};

verus! {

/// The names and words of the settings page differ from each other.
proof fn lemma_names()
    ensures
        "id"@.len() == 2,
        "id"@[0] == 'i',
        "label"@.len() == 5,
        "label"@[0] == 'l',
        "kind"@.len() == 4,
        "kind"@[0] == 'k',
        "configured"@.len() == 10,
        "configured"@[3] == 'f',
        "source"@.len() == 6,
        "source"@[0] == 's',
        "detail"@.len() == 6,
        "detail"@[0] == 'd',
        "detail"@[2] == 't',
        "note"@.len() == 4,
        "note"@[0] == 'n',
        "note"@[1] == 'o',
        "adapter"@.len() == 7,
        "adapter"@[0] == 'a',
        "adapter"@[1] == 'd',
        "adapter"@[2] == 'a',
        "runtime_state"@.len() == 13,
        "runtime_state"@[0] == 'r',
        "editable"@.len() == 8,
        "editable"@[0] == 'e',
        "byok"@.len() == 4,
        "byok"@[0] == 'b',
        "group"@.len() == 5,
        "group"@[0] == 'g',
        "deletable"@.len() == 9,
        "deletable"@[0] == 'd',
        "vision"@.len() == 6,
        "vision"@[0] == 'v',
        "model"@.len() == 5,
        "model"@[0] == 'm',
        "base_url"@.len() == 8,
        "base_url"@[0] == 'b',
        "builtin_tools"@.len() == 13,
        "builtin_tools"@[0] == 'b',
        "api_key"@.len() == 7,
        "api_key"@[0] == 'a',
        "api_key"@[1] == 'p',
        "current"@.len() == 7,
        "current"@[0] == 'c',
        "ready"@.len() == 5,
        "ready"@[0] == 'r',
        "warming"@.len() == 7,
        "warming"@[0] == 'w',
        "error"@.len() == 5,
        "error"@[0] == 'e',
        "providers"@.len() == 9,
        "providers"@[0] == 'p',
        "providers"@[1] == 'r',
        "auth"@.len() == 4,
        "auth"@[0] == 'a',
        "unchanged"@.len() == 9,
        "unchanged"@[0] == 'u',
        "adopted"@.len() == 7,
        "adopted"@[0] == 'a',
        "adopted"@[1] == 'd',
        "adopted"@[2] == 'o',
        "ok"@.len() == 2,
        "ok"@[0] == 'o',
        "ok"@[1] == 'k',
        "saved"@.len() == 5,
        "saved"@[0] == 's',
        "reprimed"@.len() == 8,
        "reprimed"@[0] == 'r',
        "restarted"@.len() == 9,
        "restarted"@[0] == 'r',
        "persisted"@.len() == 9,
        "persisted"@[0] == 'p',
        "persisted"@[1] == 'e',
        "name"@.len() == 4,
        "name"@[0] == 'n',
        "name"@[1] == 'a',
        "context_length"@.len() == 14,
        "supported_parameters"@.len() == 20,
        "models"@.len() == 6,
        "models"@[0] == 'm',
        "audio"@.len() == 5,
        "audio"@[0] == 'a',
        "action"@.len() == 6,
        "action"@[0] == 'a',
        "on"@.len() == 2,
        "on"@[0] == 'o',
        "on"@[1] == 'n',
        "not-selected"@.len() == 12,
        "failed"@.len() == 6,
        "failed"@[0] == 'f',
        "not-ready"@.len() == 9,
        "not-ready"@[0] == 'n',
        "managed"@.len() == 7,
        "managed"@[0] == 'm',
        "connection"@.len() == 10,
        "connection"@[3] == 'n',
        "preset"@.len() == 6,
        "preset"@[0] == 'p',
        "delete"@.len() == 6,
        "delete"@[0] == 'd',
        "delete"@[2] == 'l',
        "save"@.len() == 4,
        "save"@[0] == 's',
{
    reveal_strlit("id");
    reveal_strlit("label");
    reveal_strlit("kind");
    reveal_strlit("configured");
    reveal_strlit("source");
    reveal_strlit("detail");
    reveal_strlit("note");
    reveal_strlit("adapter");
    reveal_strlit("runtime_state");
    reveal_strlit("editable");
    reveal_strlit("byok");
    reveal_strlit("group");
    reveal_strlit("deletable");
    reveal_strlit("vision");
    reveal_strlit("model");
    reveal_strlit("base_url");
    reveal_strlit("builtin_tools");
    reveal_strlit("api_key");
    reveal_strlit("current");
    reveal_strlit("ready");
    reveal_strlit("warming");
    reveal_strlit("error");
    reveal_strlit("providers");
    reveal_strlit("auth");
    reveal_strlit("unchanged");
    reveal_strlit("adopted");
    reveal_strlit("ok");
    reveal_strlit("saved");
    reveal_strlit("reprimed");
    reveal_strlit("restarted");
    reveal_strlit("persisted");
    reveal_strlit("name");
    reveal_strlit("context_length");
    reveal_strlit("supported_parameters");
    reveal_strlit("models");
    reveal_strlit("audio");
    reveal_strlit("action");
    reveal_strlit("on");
    reveal_strlit("not-selected");
    reveal_strlit("failed");
    reveal_strlit("not-ready");
    reveal_strlit("managed");
    reveal_strlit("connection");
    reveal_strlit("preset");
    reveal_strlit("delete");
    reveal_strlit("save");
}

// The settings page.

/// What the settings page is told of a provider is what is in effect: who it is,
/// whether it is configured, how it is doing, which model and endpoint are used,
/// and what the person may do about it; no key is part of it.
pub proof fn law_a_provider_is_told_as_it_is_in_effect(
    provider: ProviderView,
    status: StatusView,
    active: ActiveView,
    byok: ByokView,
    overrides: Map<Seq<char>, Seq<char>>,
)
    ensures
        ({
            let told = provider_status(provider, status, active, byok, overrides);
            let edits = provider.backend is OpenAi && provider.auth is ApiKey;
            let keyless = !status.ready && edits && status.local;
            &&& told.text_member("id"@) == Some(provider.id)
            &&& told.text_member("label"@) == Some(provider.label)
            &&& told.text_member("kind"@) == Some(status.kind)
            &&& told.truth_member("configured"@) == Some(status.ready || keyless)
            &&& told.text_member("source"@) == Some(
                if keyless {
                    "local"@
                } else {
                    status.source
                },
            )
            &&& !keyless ==> told.text_member("detail"@) == status.detail
            &&& keyless ==> told.text_member("detail"@) is Some
            &&& told.text_member("note"@) == Some(provider.auth_note)
            &&& told.text_member("adapter"@) == Some(
                match provider.backend {
                    BackendView::Acp { .. } => "acp"@,
                    BackendView::PiRpc { .. } => "pi-rpc"@,
                    BackendView::OpenAi => "openai-compatible"@,
                },
            )
            &&& told.truth_member("editable"@) == Some(edits)
            &&& told.truth_member("byok"@) == Some(provider.id == "openai"@)
            &&& told.truth_member("deletable"@) == Some(connection_id(provider.id))
            &&& told.truth_member("vision"@) == Some(provider.vision)
            &&& told.text_member("model"@) == Some(effective_model(provider, byok, overrides))
            &&& told.text_member("base_url"@) == Some(effective_url(provider, byok))
            &&& read_texts(under(told, "builtin_tools"@)) == (match provider.backend {
                BackendView::PiRpc { builtin_tools, .. } => builtin_tools,
                _ => Seq::empty(),
            })
            &&& told.member("api_key"@) is None
        }),
{
    broadcast use group_reading;

    lemma_names();
    law_texts_are_read_back(crate::settings::own_tools(provider));
}

/// How a provider is doing is told of the active one alone: that it failed comes
/// before that it is ready, and that before that it is starting. A provider is a
/// managed agent, a saved connection or a preset.
pub proof fn law_the_active_provider_is_told_apart(
    provider: ProviderView,
    status: StatusView,
    active: ActiveView,
    byok: ByokView,
    overrides: Map<Seq<char>, Seq<char>>,
)
    ensures
        ({
            let told = provider_status(provider, status, active, byok, overrides);
            let word = told.text_member("runtime_state"@);
            let group = told.text_member("group"@);
            &&& provider.id != active.id <==> word == Some("not-selected"@)
            &&& provider.id == active.id && active.error is Some ==> word == Some("failed"@)
            &&& provider.id == active.id && active.error is None && active.ready ==> word == Some(
                "ready"@,
            )
            &&& provider.id == active.id && active.error is None && !active.ready
                && active.warming ==> word == Some("warming"@)
            &&& provider.id == active.id && active.error is None && !active.ready
                && !active.warming ==> word == Some("not-ready"@)
            &&& !(provider.backend is OpenAi) ==> group == Some("managed"@)
            &&& provider.backend is OpenAi && connection_id(provider.id) ==> group == Some(
                "connection"@,
            )
            &&& provider.backend is OpenAi && !connection_id(provider.id) ==> group == Some(
                "preset"@,
            )
        }),
{
    broadcast use group_reading;

    lemma_names();
}

/// The model in effect is the person's choice where there is one, and otherwise
/// the provider's own; the single connection has the model and the endpoint of
/// its slot.
pub proof fn law_the_persons_choice_is_in_effect(
    provider: ProviderView,
    byok: ByokView,
    overrides: Map<Seq<char>, Seq<char>>,
    model: Seq<char>,
)
    ensures
        provider.id == "openai"@ ==> effective_model(provider, byok, overrides) == byok.model
            && effective_url(provider, byok) == byok.base_url,
        provider.id != "openai"@ ==> effective_model(
            provider,
            byok,
            overrides.insert(provider.id, model),
        ) == model,
        provider.id != "openai"@ && provider.model is Some ==> effective_model(
            provider,
            byok,
            overrides.remove(provider.id),
        ) == provider.model->0,
        provider.id != "openai"@ && provider.base_url is Some ==> effective_url(provider, byok)
            == provider.base_url->0,
{
}

/// The settings page is told of every provider, in order, of the active one and
/// how it is doing, and of the single connection's endpoint and model.
pub proof fn law_the_settings_page_is_told_of_everything(
    providers: Seq<ProviderView>,
    statuses: Seq<StatusView>,
    active: ActiveView,
    byok: ByokView,
    overrides: Map<Seq<char>, Seq<char>>,
)
    ensures
        ({
            let told = settings_snapshot(providers, statuses, active, byok, overrides);
            &&& told.text_member("current"@) == Some(active.id)
            &&& told.truth_member("ready"@) == Some(active.ready)
            &&& told.truth_member("warming"@) == Some(active.warming)
            &&& told.text_member("error"@) == active.error
            &&& under(told, "byok"@).text_member("base_url"@) == Some(byok.base_url)
            &&& under(told, "byok"@).text_member("model"@) == Some(byok.model)
            &&& lists_under(told, "providers"@, providers.len())
            &&& forall|k: int|
                0 <= k < providers.len() ==> {
                    let item = #[trigger] item_under(told, "providers"@, k);
                    &&& item == provider_status(providers[k], statuses[k], active, byok, overrides)
                    &&& item.text_member("id"@) == Some(providers[k].id)
                }
        }),
{
    broadcast use group_reading;

    lemma_names();
    let told = settings_snapshot(providers, statuses, active, byok, overrides);
    assert forall|k: int| 0 <= k < providers.len() implies (#[trigger] item_under(
        told,
        "providers"@,
        k,
    )).text_member("id"@) == Some(providers[k].id) by {
        law_a_provider_is_told_as_it_is_in_effect(
            providers[k],
            statuses[k],
            active,
            byok,
            overrides,
        );
    }
}

/// The provider list holds every provider in order, and the active one with how
/// it is doing.
pub proof fn law_the_provider_list_holds_every_provider(
    providers: Seq<ProviderView>,
    active: ActiveView,
)
    ensures
        ({
            let told = list_value(providers, active);
            &&& told.text_member("current"@) == Some(active.id)
            &&& told.truth_member("ready"@) == Some(active.ready)
            &&& told.truth_member("warming"@) == Some(active.warming)
            &&& told.text_member("error"@) == active.error
            &&& lists_under(told, "providers"@, providers.len())
            &&& forall|k: int|
                0 <= k < providers.len() ==> {
                    let item = #[trigger] item_under(told, "providers"@, k);
                    &&& item.text_member("id"@) == Some(providers[k].id)
                    &&& item.text_member("label"@) == Some(providers[k].label)
                    &&& item.text_member("auth"@) == Some(providers[k].auth_note)
                }
        }),
{
    broadcast use group_reading;

    lemma_names();
}

// Switching.

/// A provider that is registered is switched to, unless it is the active one and
/// works or is starting; one that is not registered is refused.
pub proof fn law_a_registered_provider_is_switched_to(
    providers: Seq<ProviderView>,
    active: ActiveView,
    body: JsonView,
    id: Seq<char>,
)
    requires
        body.text_member("id"@) matches Some(text) && trimmed(text) == id,
    ensures
        ({
            let step = switch_step(providers, active, body);
            let works = active.id == id && (active.ready || active.warming);
            &&& registered(providers, id) && !works ==> step == (SwitchView::Switch { id })
            &&& registered(providers, id) && works ==> (step matches SwitchView::Answer(reply)
                && reply.status == 200 && reply.body.truth_member("ok"@) == Some(true)
                && reply.body.text_member("current"@) == Some(id) && reply.body.truth_member(
                "unchanged"@,
            ) == Some(true))
            &&& !registered(providers, id) ==> step == SwitchView::Answer(
                error_reply(400, "unknown provider"@),
            )
        }),
{
    broadcast use group_reading;

    lemma_names();
}

/// The answer to a switch names the provider and says whether it is ready, or
/// says why it was not adopted.
pub proof fn law_a_switch_is_answered_by_its_outcome(
    id: Seq<char>,
    outcome: Result<u64, String>,
    ready: bool,
)
    ensures
        ({
            let reply = switched_answer(id, outcome, ready);
            &&& outcome is Ok <==> reply.status == 200
            &&& outcome is Ok ==> reply.body.text_member("current"@) == Some(id)
                && reply.body.truth_member("adopted"@) == Some(true) && reply.body.truth_member(
                "ready"@,
            ) == Some(ready) && reply.body.truth_member("ok"@) == Some(true)
            &&& outcome matches Err(message) ==> reply == error_reply(503, message@)
        }),
{
    broadcast use group_reading;

    lemma_names();
}

// Saved connections.

/// Whether a request has a text under a name that is not blank.
pub open spec fn filled(body: JsonView, name: Seq<char>) -> bool {
    body.text_member(name) is Some && !blank(body.text_member(name)->0)
}

/// A connection is deleted exactly where the request says so, names a saved
/// connection, and that is not the active one.
pub proof fn law_a_connection_that_is_not_active_is_deleted(
    body: JsonView,
    active: Seq<char>,
    fresh: Seq<char>,
    base_url: Result<Seq<char>, Seq<char>>,
    id: Seq<char>,
)
    requires
        body.text_member("action"@) == Some("delete"@),
        body.text_member("id"@) matches Some(text) && trimmed(text) == id,
    ensures
        ({
            let step = connection_step(body, active, fresh, base_url);
            &&& connection_id(id) && active != id ==> step == (ConnectionStepView::Delete { id })
            &&& connection_id(id) && active == id ==> (step matches ConnectionStepView::Answer(
                reply,
            ) && reply.status == 409)
            &&& !connection_id(id) ==> step == ConnectionStepView::Answer(
                error_reply(400, "invalid connection id"@),
            )
        }),
{
}

/// A connection is stored as the request describes it, under the id that it
/// names and under a fresh one where it names none; a key is replaced exactly
/// where the request gives one. What is not accepted is told why.
pub proof fn law_a_connection_is_stored_as_described(
    body: JsonView,
    active: Seq<char>,
    fresh: Seq<char>,
    base_url: Result<Seq<char>, Seq<char>>,
    label: Seq<char>,
    model: Seq<char>,
)
    requires
        body.text_member("action"@) is None || body.text_member("action"@) == Some("save"@),
        body.text_member("label"@) == Some(label),
        body.text_member("model"@) == Some(model),
    ensures
        ({
            let step = connection_step(body, active, fresh, base_url);
            let id = if filled(body, "id"@) {
                trimmed(body.text_member("id"@)->0)
            } else {
                "connection-"@ + fresh
            };
            let made = connection_provider(
                id,
                trimmed(label),
                base_url,
                trimmed(model),
                body.truth_member("vision"@) == Some(true),
            );
            match made {
                Ok(provider) => step matches ConnectionStepView::Save { connection, key } && {
                    &&& connection == provider
                    &&& connection.id == id
                    &&& filled(body, "api_key"@) ==> key == KeyView::Replace(
                        trimmed(body.text_member("api_key"@)->0),
                    )
                    &&& !filled(body, "api_key"@) ==> key is Keep
                },
                Err(message) => step == ConnectionStepView::Answer(error_reply(400, message)),
            }
        }),
{
    lemma_names();
    lemma_empty();
}

proof fn lemma_empty()
    ensures
        ""@.len() == 0,
        blank(""@),
        trimmed(""@).len() == 0,
{
    reveal_strlit("");
    crate::text::lemma_blank(""@);
}

/// A deleted connection is not found any more, and every other provider is found
/// as before.
pub proof fn law_a_deleted_connection_is_gone(
    providers: Seq<ProviderView>,
    id: Seq<char>,
    other: Seq<char>,
)
    ensures
        found(providers.filter(not_id(id)), id) is None,
        other != id ==> found(providers.filter(not_id(id)), other) == found(providers, other),
    decreases providers.len(),
{
    reveal(Seq::filter);
    let keep = not_id(id);
    if providers.len() > 0 {
        let rest = providers.drop_last();
        let last = providers.last();
        law_a_deleted_connection_is_gone(rest, id, other);
        let kept = rest.filter(keep);
        lemma_found_last(rest, last, id);
        lemma_found_last(rest, last, other);
        lemma_found_last(kept, last, id);
        lemma_found_last(kept, last, other);
        assert(rest.push(last) =~= providers);
    }
}

proof fn lemma_found_last(list: Seq<ProviderView>, last: ProviderView, id: Seq<char>)
    ensures
        found(list.push(last), id) == match found(list, id) {
            Some(provider) => Some(provider),
            None => if last.id == id {
                Some(last)
            } else {
                None
            },
        },
    decreases list.len(),
{
    let grown = list.push(last);
    if list.len() == 0 {
        assert(grown.skip(1) =~= Seq::empty());
        assert(found(grown.skip(1), id) is None);
    } else {
        assert(grown[0] == list[0]);
        assert(grown.skip(1) =~= list.skip(1).push(last));
        lemma_found_last(list.skip(1), last, id);
    }
}

/// Answers about connections carry the page's new state under their own marks:
/// everything else in it stays.
pub proof fn law_answers_carry_the_new_state(
    snapshot: JsonView,
    id: Seq<char>,
    live: bool,
    ready: bool,
    name: Seq<char>,
)
    requires
        snapshot is Object,
    ensures
        deleted_answer(snapshot).status == 200,
        deleted_answer(snapshot).body.truth_member("ok"@) == Some(true),
        saved_answer(snapshot, id).status == 200,
        saved_answer(snapshot, id).body.truth_member("ok"@) == Some(true),
        saved_answer(snapshot, id).body.text_member("saved"@) == Some(id),
        updated_answer(snapshot, live, ready).status == 200,
        updated_answer(snapshot, live, ready).body.truth_member("ok"@) == Some(true),
        updated_answer(snapshot, live, ready).body.truth_member("restarted"@) == Some(live),
        updated_answer(snapshot, live, ready).body.truth_member("reprimed"@) == Some(
            live && ready,
        ),
        name != "ok"@ && name != "saved"@ && name != "reprimed"@ && name != "restarted"@ ==> {
            &&& deleted_answer(snapshot).body.member(name) == snapshot.member(name)
            &&& saved_answer(snapshot, id).body.member(name) == snapshot.member(name)
            &&& updated_answer(snapshot, live, ready).body.member(name) == snapshot.member(name)
        },
{
    broadcast use group_reading;

    lemma_names();
}

/// A change that was stored while the provider did not come back says both.
pub proof fn law_a_stored_change_is_never_called_lost(message: Seq<char>)
    ensures
        stored_only_answer(message).status == 503,
        stored_only_answer(message).body.truth_member("ok"@) == Some(false),
        stored_only_answer(message).body.truth_member("persisted"@) == Some(true),
        stored_only_answer(message).body.text_member("error"@) == Some(message),
{
    broadcast use group_reading;

    lemma_names();
}

// Keys and models.

/// A key is removed where the request says so, replaced where it gives one, and
/// otherwise kept.
pub proof fn law_a_key_changes_only_as_asked(body: JsonView)
    ensures
        ({
            let removes = body.truth_member("remove"@) == Some(true);
            &&& removes <==> key_update(body) is Remove
            &&& !removes && filled(body, "api_key"@) ==> key_update(body) == KeyView::Replace(
                trimmed(body.text_member("api_key"@)->0),
            )
            &&& !removes && !filled(body, "api_key"@) ==> key_update(body) is Keep
        }),
{
}

/// A change for a provider with a key of its own takes effect on that provider
/// alone: a model that is given becomes the person's choice, a blank one takes
/// the choice back, and without one nothing changes.
pub proof fn law_a_model_choice_is_the_providers_own(
    providers: Seq<ProviderView>,
    body: JsonView,
    byok: ByokView,
    overrides: Map<Seq<char>, Seq<char>>,
    base_url: Result<Seq<char>, Seq<char>>,
    provider: ProviderView,
    other: Seq<char>,
)
    requires
        body.text_member("provider"@) is Some,
        found(providers, trimmed(body.text_member("provider"@)->0)) == Some(provider),
        provider.auth is ApiKey,
        provider.backend is OpenAi,
        provider.id != "openai"@,
    ensures
        auth_step(providers, body, byok, overrides, base_url) matches AuthView::Update(update) && {
            &&& update.id == provider.id
            &&& update.restarts
            &&& update.byok == byok
            &&& update.key == key_update(body)
            &&& update.base_url is Keep
            &&& filled(body, "model"@) ==> {
                let model = trimmed(body.text_member("model"@)->0);
                &&& update.overrides.contains_key(provider.id)
                &&& update.overrides[provider.id] == model
                &&& update.model == SettingView::Replace(model)
            }
            &&& body.text_member("model"@) is Some && !filled(body, "model"@)
                ==> !update.overrides.contains_key(provider.id) && update.model is Remove
            &&& body.text_member("model"@) is None ==> update.overrides == overrides
                && update.model is Keep
            &&& other != provider.id ==> (update.overrides.contains_key(other)
                <==> overrides.contains_key(other))
            &&& other != provider.id && overrides.contains_key(other) ==> update.overrides[other]
                == overrides[other]
        },
{
}

/// A change for the single connection sets the endpoint and the model that are
/// given, keeps those that are not, and stores both; an endpoint that is not
/// accepted is refused, and nothing changes.
pub proof fn law_the_single_connection_keeps_what_is_not_given(
    providers: Seq<ProviderView>,
    body: JsonView,
    byok: ByokView,
    overrides: Map<Seq<char>, Seq<char>>,
    base_url: Result<Seq<char>, Seq<char>>,
    provider: ProviderView,
)
    requires
        body.text_member("provider"@) is Some,
        found(providers, trimmed(body.text_member("provider"@)->0)) == Some(provider),
        provider.auth is ApiKey,
        provider.id == "openai"@,
    ensures
        ({
            let step = auth_step(providers, body, byok, overrides, base_url);
            let refused = filled(body, "base_url"@) && base_url is Err;
            &&& refused ==> step == AuthView::Answer(error_reply(400, base_url->Err_0))
            &&& !refused ==> (step matches AuthView::Update(update) && {
                &&& update.id == "openai"@
                &&& update.overrides == overrides
                &&& update.byok.base_url == (if filled(body, "base_url"@) {
                    base_url->Ok_0
                } else {
                    byok.base_url
                })
                &&& update.byok.model == (if filled(body, "model"@) {
                    trimmed(body.text_member("model"@)->0)
                } else {
                    byok.model
                })
                &&& update.base_url == SettingView::Replace(update.byok.base_url)
                &&& update.model == SettingView::Replace(update.byok.model)
                &&& update.key == key_update(body)
            })
        }),
{
}

/// A change for a provider that is not registered, or that takes no key, is
/// refused.
pub proof fn law_a_change_needs_a_provider_that_takes_it(
    providers: Seq<ProviderView>,
    body: JsonView,
    byok: ByokView,
    overrides: Map<Seq<char>, Seq<char>>,
    base_url: Result<Seq<char>, Seq<char>>,
    name: Seq<char>,
)
    requires
        body.text_member("provider"@) matches Some(text) && trimmed(text) == name,
    ensures
        found(providers, name) is None ==> auth_step(providers, body, byok, overrides, base_url)
            == AuthView::Answer(error_reply(400, "unknown provider"@)),
        found(providers, name) matches Some(provider) ==> (!(provider.auth is ApiKey) && (
        body.member("api_key"@) is Some || body.member("model"@) is Some || body.member(
            "base_url"@,
        ) is Some || body.truth_member("remove"@) == Some(true)) ==> (auth_step(
            providers,
            body,
            byok,
            overrides,
            base_url,
        ) matches AuthView::Answer(reply) && reply.status == 400)),
{
}

// The model catalog.

/// A model is listed with its id, its name, how much it reads and what it
/// supports; without a name it is listed under its id.
pub proof fn law_a_model_is_listed_as_the_catalog_has_it(model: JsonView, id: Seq<char>)
    requires
        model.text_member("id"@) == Some(id),
    ensures
        ({
            let entry = model_entry(model);
            &&& entry.text_member("id"@) == Some(id)
            &&& model.text_member("name"@) matches Some(name) ==> entry.text_member("name"@)
                == Some(name)
            &&& model.text_member("name"@) is None ==> entry.text_member("name"@) == Some(id)
            &&& model.member("context_length"@) matches Some(length) ==> entry.member(
                "context_length"@,
            ) == Some(length)
            &&& model.member("supported_parameters"@) matches Some(list) ==> entry.member(
                "supported_parameters"@,
            ) == Some(list)
        }),
{
    broadcast use group_reading;

    lemma_names();
}

/// A search finds models that match, in the catalog's order and eighty at most;
/// where no more than that match, it finds every one of them.
pub proof fn law_a_search_finds_what_matches(
    models: Seq<JsonView>,
    searched: Seq<Seq<char>>,
    needle: Seq<char>,
    n: nat,
)
    requires
        n <= models.len(),
        n <= searched.len(),
    ensures
        ({
            let hits = matching_models(models, searched, needle, n);
            &&& hits.len() <= 80
            &&& forall|k: int|
                0 <= k < hits.len() ==> exists|i: int|
                    0 <= i < n && model_matches(#[trigger] models[i], searched[i], needle)
                        && model_entry(models[i]) == #[trigger] hits[k]
            &&& hits.len() < 80 ==> forall|i: int|
                0 <= i < n && model_matches(#[trigger] models[i], searched[i], needle)
                    ==> hits.contains(model_entry(models[i]))
        }),
    decreases n,
{
    if n > 0 {
        let m = (n - 1) as nat;
        law_a_search_finds_what_matches(models, searched, needle, m);
        let before = matching_models(models, searched, needle, m);
        let hits = matching_models(models, searched, needle, n);
        assert forall|k: int| 0 <= k < hits.len() implies exists|i: int|
            0 <= i < n && model_matches(#[trigger] models[i], searched[i], needle) && model_entry(
                models[i],
            ) == #[trigger] hits[k] by {
            if k < before.len() {
                assert(hits[k] == before[k]);
                let i = choose|i: int|
                    0 <= i < m && model_matches(#[trigger] models[i], searched[i], needle)
                        && model_entry(models[i]) == before[k];
                assert(model_matches(models[i], searched[i], needle));
            } else {
                assert(model_matches(models[m as int], searched[m as int], needle));
            }
        }
        if hits.len() < 80 {
            assert forall|i: int|
                0 <= i < n && model_matches(
                    #[trigger] models[i],
                    searched[i],
                    needle,
                ) implies hits.contains(model_entry(models[i])) by {
                if i < m {
                    assert(before.contains(model_entry(models[i])));
                    let k = choose|k: int|
                        0 <= k < before.len() && before[k] == model_entry(models[i]);
                    assert(hits[k] == before[k]);
                } else {
                    assert(hits[hits.len() - 1] == model_entry(models[i]));
                }
            }
        }
    }
}

/// A model matches where it has an id and its id or name holds what was typed,
/// small letters and capitals alike; with nothing typed every model does.
pub proof fn law_a_model_matches_what_is_typed(
    models: Seq<JsonView>,
    at: int,
    id: Seq<char>,
    query: Seq<char>,
)
    requires
        0 <= at < models.len(),
        models[at].text_member("id"@) == Some(id),
    ensures
        model_matches(models[at], searched_texts(models)[at], search_needle(None)),
        models[at].text_member("name"@) matches Some(name) ==> (model_matches(
            models[at],
            searched_texts(models)[at],
            search_needle(Some(query)),
        ) <==> lowercase(trimmed(query)).len() == 0 || has_text(
            lowercase(id + " "@ + name),
            lowercase(trimmed(query)),
        )),
        models[at].text_member("name"@) is None ==> model_text(models[at]) == id + " "@ + id,
{
}

/// A search answers with the models that it found, or with why the catalog could
/// not be read.
pub proof fn law_a_search_is_answered(fetch: CatalogFetch, query: Option<Seq<char>>)
    ensures
        ({
            let reply = catalog_answer(fetch, query);
            &&& reply.status == 200 <==> fetch is Body
            &&& fetch matches CatalogFetch::Body(body) ==> {
                let models = catalog_models(body@);
                &&& reply.body.truth_member("ok"@) == Some(true)
                &&& reply.body.member("models"@) == Some(
                    JsonView::Array(
                        matching_models(
                            models,
                            searched_texts(models),
                            search_needle(query),
                            models.len(),
                        ),
                    ),
                )
            }
            &&& fetch matches CatalogFetch::NoClient(error) ==> reply == error_reply(500, error@)
            &&& !(fetch is Body) && !(fetch is NoClient) ==> reply.status == 502
            &&& fetch matches CatalogFetch::Unavailable(error) ==> (reply.body.text_member(
                "error"@,
            ) matches Some(text) && error@.is_suffix_of(text))
            &&& fetch matches CatalogFetch::Status(status) ==> (reply.body.text_member(
                "error"@,
            ) matches Some(text) && status@.is_suffix_of(text))
            &&& fetch matches CatalogFetch::Invalid(error) ==> (reply.body.text_member(
                "error"@,
            ) matches Some(text) && error@.is_suffix_of(text))
        }),
{
    broadcast use group_reading;

    lemma_names();
    match fetch {
        CatalogFetch::Unavailable(error) => {
            let text = "OpenRouter catalog unavailable: "@ + error@;
            assert(text.subrange(text.len() - error@.len(), text.len() as int) =~= error@);
        },
        CatalogFetch::Status(status) => {
            let text = "OpenRouter catalog returned "@ + status@;
            assert(text.subrange(text.len() - status@.len(), text.len() as int) =~= status@);
        },
        CatalogFetch::Invalid(error) => {
            let text = "invalid OpenRouter catalog: "@ + error@;
            assert(text.subrange(text.len() - error@.len(), text.len() as int) =~= error@);
        },
        _ => {},
    }
}

/// A catalog's models are the items under its data.
pub proof fn law_a_catalog_lists_its_models(body: JsonView, models: Seq<JsonView>)
    ensures
        body.member("data"@) == Some(JsonView::Array(models)) ==> catalog_models(body) == models,
        body.member("data"@) is None ==> catalog_models(body).len() == 0,
{
}

// Audio.

/// Speech is switched exactly where a request asks for that and says which way;
/// the answer says how it is then.
pub proof fn law_speech_is_switched_as_asked(body: JsonView, on: bool)
    ensures
        control_step(body) == ControlView::Audio(on) <==> body.text_member("action"@) == Some(
            "audio"@,
        ) && body.truth_member("on"@) == Some(on),
        !(control_step(body) is Audio) ==> (control_step(body) matches ControlView::Answer(reply)
            && reply.status == 400),
        audio_answer(on).status == 200,
        audio_answer(on).body.truth_member("ok"@) == Some(true),
        audio_answer(on).body.truth_member("audio"@) == Some(on),
{
    broadcast use group_reading;

    lemma_names();
}

} // verus!
