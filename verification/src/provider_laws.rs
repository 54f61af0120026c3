//! Which providers there are, what each stands for, and which one is started.

use vstd::prelude::*;

use crate::json::JsonView;
use crate::providers::{
    all_builtin, built, connection_id, connection_provider, default_choice, environment_choice,
    found, is_acp, is_managed, loaded, loaded_all, models_document, openai_provider, place,
    preset_id_ok, preset_provider, preset_rows, preset_url, registered, runnable, saved_provider,
    utf8_len, BackendView, ConfigErrorView, EnvValue, LookupView, ModelsFile, ProviderView,
    SavedView, VendorView,
};
use crate::text::{blank, lemma_blank, text_before, trimmed};
use crate::text_laws::{law_trailing_characters_are_taken, lemma_mentions, mentions};

verus! {

// Finding.

/// A provider is found by its id: the first that has it, and none exactly where
/// none is registered under it.
pub proof fn law_a_provider_is_found_by_its_id(list: Seq<ProviderView>, id: Seq<char>)
    ensures
        found(list, id) is Some <==> registered(list, id),
        found(list, id) matches Some(provider) ==> provider.id == id && list.contains(provider),
    decreases list.len(),
{
    if list.len() > 0 {
        let rest = list.skip(1);
        law_a_provider_is_found_by_its_id(rest, id);
        if list[0].id == id {
            assert(list.contains(list[0]));
        } else {
            if found(rest, id) is Some {
                let provider = found(rest, id)->0;
                let k = choose|k: int| 0 <= k < rest.len() && rest[k] == provider;
                assert(list[k + 1] == provider);
                assert(list[k + 1].id == id);
            }
            if registered(list, id) {
                let k = choose|k: int| 0 <= k < list.len() && (#[trigger] list[k]).id == id;
                assert(rest[k - 1].id == id);
            }
        }
    }
}

/// A provider is a managed agent exactly where it runs a program, and an
/// endpoint otherwise.
pub proof fn law_a_managed_agent_runs_a_program(backend: BackendView)
    ensures
        backend.managed() <==> backend.executable() is Some,
        backend.managed() <==> !(backend is OpenAi),
        backend matches BackendView::Acp { program, .. } ==> backend.executable() == Some(program),
        backend matches BackendView::PiRpc { program, .. } ==> backend.executable() == Some(
            program,
        ),
{
}

/// Narrowing a registry keeps, in order, the providers that it is narrowed to:
/// those whose program is there or that need none, agents of the one protocol,
/// or managed agents.
pub proof fn law_narrowing_keeps_what_it_names(
    list: Seq<ProviderView>,
    available: Seq<Seq<char>>,
    at: int,
)
    requires
        0 <= at < list.len(),
    ensures
        list.filter(runnable(available)).contains(list[at]) <==> (
        list[at].backend.executable() matches Some(program) ==> available.contains(program)),
        list.filter(is_acp()).contains(list[at]) <==> list[at].backend is Acp,
        list.filter(is_managed()).contains(list[at]) <==> !(list[at].backend is OpenAi),
{
    lemma_kept(list, runnable(available), at);
    lemma_kept(list, is_acp(), at);
    lemma_kept(list, is_managed(), at);
}

proof fn lemma_kept(
    list: Seq<ProviderView>,
    keep: spec_fn(ProviderView) -> bool,
    at: int,
)
    requires
        0 <= at < list.len(),
    ensures
        list.filter(keep).contains(list[at]) <==> keep(list[at]),
{
    broadcast use vstd::seq_lib::group_filter_ensures;

    let kept = list.filter(keep);
    if kept.contains(list[at]) {
        let k = choose|k: int| 0 <= k < kept.len() && kept[k] == list[at];
        assert(keep(kept[k]));
    }
}

// What providers stand for.

/// Whether every character of an id is a small letter, a digit or a hyphen.
pub open spec fn plain(id: Seq<char>, from: int) -> bool {
    forall|i: int|
        from <= i < id.len() ==> 'a' <= #[trigger] id[i] <= 'z' || '0' <= id[i] <= '9' || id[i]
            == '-'
}

/// A preset's id has one to sixty-four plain characters; a connection's begins
/// with its prefix, goes on plainly and has eighty at most.
pub proof fn law_provider_ids_are_plain(id: Seq<char>)
    ensures
        preset_id_ok(id) <==> 1 <= id.len() <= 64 && plain(id, 0),
        connection_id(id) <==> 12 <= id.len() <= 80 && "connection-"@.is_prefix_of(id) && plain(
            id,
            11,
        ),
{
    reveal_strlit("connection-");
    assert("connection-"@.len() == 11);
    assert forall|i: int| 0 <= i < id.len() implies (crate::providers::id_char(
        #[trigger] id[i],
    ) <==> 'a' <= id[i] <= 'z' || '0' <= id[i] <= '9' || id[i] == '-') by {}
    if "connection-"@.is_prefix_of(id) {
        assert(id.subrange(0, 11) =~= "connection-"@);
    }
    if connection_id(id) {
        assert("connection-"@ =~= id.subrange(0, 11));
    }
}

/// The text of a row under a name, trimmed, and nothing where it has none.
pub open spec fn row_text(row: JsonView, name: Seq<char>) -> Seq<char> {
    match row.text_member(name) {
        Some(text) => trimmed(text),
        None => Seq::empty(),
    }
}

/// Whether a row of a models file describes a provider that can be registered
/// beside others.
pub open spec fn row_accepted(
    row: JsonView,
    taken: Seq<ProviderView>,
    lookup: LookupView,
) -> bool {
    let id = row_text(row, "id"@);
    &&& preset_id_ok(id)
    &&& !registered(taken, id)
    &&& row.text_member("api"@) matches Some(api) ==> api == "openai-completions"@
    &&& exists|i: int| 0 <= i < row_text(row, "base_url"@).len() && row_text(row, "base_url"@)[i] != '/'
    &&& row_text(row, "model"@).len() > 0
    &&& lookup.base_url is Ok
    &&& row.text_member("auth"@) matches Some(auth) ==> auth == "api_key"@
    &&& row.member("vision"@) is Some ==> row.truth_member("vision"@) is Some
}

/// A row of a models file stands for a provider exactly where it can be
/// registered: its id is sound and new, it speaks the one wire protocol, it names
/// an endpoint that is accepted and a model, and it takes a key. The provider is
/// then what the row says.
pub proof fn law_a_row_stands_for_what_it_says(
    row: JsonView,
    index: nat,
    taken: Seq<ProviderView>,
    lookup: LookupView,
)
    ensures
        preset_provider(row, index, taken, lookup) is Ok <==> row_accepted(row, taken, lookup),
        preset_provider(row, index, taken, lookup) matches Ok(provider) ==> {
            &&& provider.id == row_text(row, "id"@)
            &&& row.text_member("label"@) matches Some(label) ==> provider.label == label
            &&& row.text_member("label"@) is None ==> provider.label == provider.id
            &&& provider.model == Some(row_text(row, "model"@))
            &&& provider.base_url == Some(lookup.base_url->Ok_0)
            &&& provider.backend is OpenAi
            &&& provider.auth is ApiKey
            &&& provider.vision <==> row.truth_member("vision"@) == Some(true)
            &&& row.text_member("api_key"@) matches Some(key) ==> (if blank(key) {
                provider.key_source is None && provider.env_vars.len() == 0
            } else {
                provider.key_source == Some(trimmed(key)) && provider.env_vars == lookup.env_vars
            })
            &&& row.text_member("api_key"@) is None ==> provider.key_source is None
                && provider.env_vars.len() == 0
        },
{
    reveal_strlit("");
    assert(""@ =~= Seq::<char>::empty());
    lemma_blank(""@);
    assert(trimmed(""@) =~= Seq::<char>::empty());
    reveal_strlit("oauth");
    reveal_strlit("api_key");
    assert("oauth"@.len() != "api_key"@.len());
    let url = row_text(row, "base_url"@);
    law_trailing_characters_are_taken(url, '/');
    let cut = preset_url(row);
    if cut.len() > 0 {
        assert(url[cut.len() - 1] != '/');
    }
    if exists|i: int| 0 <= i < url.len() && url[i] != '/' {
        let i = choose|i: int| 0 <= i < url.len() && url[i] != '/';
        assert(i < cut.len());
    }
}

/// The providers of a models file stand behind those that were there, each in
/// its row's place and under its row's id; the whole file is refused where one
/// row is.
pub proof fn law_every_row_is_loaded_in_its_place(
    start: Seq<ProviderView>,
    rows: Seq<JsonView>,
    lookups: Seq<LookupView>,
    n: nat,
)
    requires
        n <= rows.len(),
        n <= lookups.len(),
    ensures
        loaded(start, rows, lookups, n) matches Ok(list) ==> {
            &&& list.len() == start.len() + n
            &&& forall|i: int| 0 <= i < start.len() ==> #[trigger] list[i] == start[i]
            &&& forall|k: int|
                0 <= k < n ==> {
                    let provider = #[trigger] list[start.len() + k];
                    &&& row_accepted(rows[k], list.take(start.len() + k), lookups[k])
                    &&& provider.id == row_text(rows[k], "id"@)
                    &&& provider.model == Some(row_text(rows[k], "model"@))
                    &&& provider.base_url == Some(lookups[k].base_url->Ok_0)
                }
        },
        loaded(start, rows, lookups, n) is Err ==> exists|k: int|
            0 <= k < n && loaded(start, rows, lookups, k as nat) is Ok && !row_accepted(
                #[trigger] rows[k],
                loaded(start, rows, lookups, k as nat)->Ok_0,
                lookups[k],
            ),
    decreases n,
{
    if n > 0 {
        let m = (n - 1) as nat;
        law_every_row_is_loaded_in_its_place(start, rows, lookups, m);
        if loaded(start, rows, lookups, m) is Ok {
            let before = loaded(start, rows, lookups, m)->Ok_0;
            law_a_row_stands_for_what_it_says(rows[m as int], m, before, lookups[m as int]);
            if loaded(start, rows, lookups, n) is Ok {
                let list = loaded(start, rows, lookups, n)->Ok_0;
                assert forall|k: int| 0 <= k < n implies {
                    let provider = #[trigger] list[start.len() + k];
                    &&& row_accepted(rows[k], list.take(start.len() + k), lookups[k])
                    &&& provider.id == row_text(rows[k], "id"@)
                    &&& provider.model == Some(row_text(rows[k], "model"@))
                    &&& provider.base_url == Some(lookups[k].base_url->Ok_0)
                } by {
                    assert(list.take(start.len() + k) =~= before.take(start.len() + k));
                    if k < m {
                        assert(list[start.len() + k] == before[start.len() + k]);
                    } else {
                        assert(before.take(start.len() + k) =~= before);
                    }
                }
                assert forall|i: int| 0 <= i < start.len() implies #[trigger] list[i]
                    == start[i] by {
                    assert(before[i] == start[i]);
                }
            } else {
                assert(!row_accepted(rows[m as int], before, lookups[m as int]));
            }
        } else {
            let k = choose|k: int|
                0 <= k < m && loaded(start, rows, lookups, k as nat) is Ok && !row_accepted(
                    #[trigger] rows[k],
                    loaded(start, rows, lookups, k as nat)->Ok_0,
                    lookups[k],
                );
            assert(!row_accepted(
                rows[k],
                loaded(start, rows, lookups, k as nat)->Ok_0,
                lookups[k],
            ));
        }
    }
}

/// A models file is read for its providers, which have to be a list.
pub proof fn law_a_models_file_lists_providers(
    start: Seq<ProviderView>,
    root: JsonView,
    lookups: Seq<LookupView>,
    rows: Seq<JsonView>,
)
    ensures
        preset_rows(root) == Some(rows) <==> root.member("providers"@) == Some(
            JsonView::Array(rows),
        ),
        root.member("providers"@) == Some(JsonView::Array(rows)) ==> loaded_all(
            start,
            root,
            lookups,
        ) == loaded(start, rows, lookups, rows.len()),
        preset_rows(root) is None ==> loaded_all(start, root, lookups) is Err,
{
}

/// Without a models file the built-in providers stand alone, unless the file has
/// to be there; a file that cannot be read, or does not hold what it should, is
/// an error that names the file and says why.
pub proof fn law_a_models_file_is_read_or_accounted_for(
    path: Seq<char>,
    models: ModelsFile,
    required: bool,
    start: Seq<ProviderView>,
    lookups: Seq<LookupView>,
)
    ensures
        ({
            let outcome = built(path, models, required, start, lookups);
            &&& models matches ModelsFile::Missing(source) ==> (if required {
                outcome == Err::<Seq<ProviderView>, ConfigErrorView>(
                    ConfigErrorView::Read { path, source: source@ },
                )
            } else {
                outcome == Ok::<Seq<ProviderView>, ConfigErrorView>(start)
            })
            &&& models matches ModelsFile::Unreadable(source) ==> outcome == Err::<
                Seq<ProviderView>,
                ConfigErrorView,
            >(ConfigErrorView::Read { path, source: source@ })
            &&& models matches ModelsFile::Read(text) ==> (match crate::json::parsed_text(text@) {
                Ok(root) => match loaded_all(start, root, lookups) {
                    Ok(list) => outcome == Ok::<Seq<ProviderView>, ConfigErrorView>(list),
                    Err(why) => outcome == Err::<Seq<ProviderView>, ConfigErrorView>(
                        ConfigErrorView::Invalid { path, message: why },
                    ),
                },
                Err(complaint) => outcome matches Err(error)
                    && error matches ConfigErrorView::Invalid { path: named, message } && named
                    == path && complaint.is_suffix_of(message),
            })
            &&& outcome matches Err(error) ==> mentions(error.words(), path)
        }),
{
    let outcome = built(path, models, required, start, lookups);
    if let ModelsFile::Read(text) = models {
        if let Err(complaint) = crate::json::parsed_text(text@) {
            let message = "malformed JSON: "@ + complaint;
            assert(message.subrange(message.len() - complaint.len(), message.len() as int)
                =~= complaint);
        }
    }
    if let Err(error) = outcome {
        law_a_configuration_error_names_its_file(error);
    }
}

/// A configuration error names the file and ends with what is wrong with it.
pub proof fn law_a_configuration_error_names_its_file(error: ConfigErrorView)
    ensures
        error matches ConfigErrorView::Read { path, source } ==> mentions(error.words(), path)
            && source.is_suffix_of(error.words()),
        error matches ConfigErrorView::Invalid { path, message } ==> mentions(error.words(), path)
            && message.is_suffix_of(error.words()),
{
    let text = error.words();
    match error {
        ConfigErrorView::Read { path, source } => {
            let head = "failed to read provider config "@;
            assert(text =~= head + path + (": "@ + source));
            lemma_mentions(text, head, path, ": "@ + source);
            assert(text.subrange(text.len() - source.len(), text.len() as int) =~= source);
        },
        ConfigErrorView::Invalid { path, message } => {
            let head = "invalid provider config "@;
            assert(text =~= head + path + (": "@ + message));
            lemma_mentions(text, head, path, ": "@ + message);
            assert(text.subrange(text.len() - message.len(), text.len() as int) =~= message);
        },
    }
}

/// What is parsed is the document; a complaint is passed on.
pub proof fn law_a_models_document_is_what_was_parsed(parsed: Result<JsonView, Seq<char>>)
    ensures
        parsed matches Ok(root) ==> models_document(parsed) == Ok::<JsonView, Seq<char>>(root),
        parsed is Err ==> models_document(parsed) is Err,
{
}

/// A connection stands for a provider exactly where its id, its name and its
/// model are accepted and its endpoint is; the provider is then what the
/// connection says, and it keeps no key.
pub proof fn law_a_connection_stands_for_what_it_says(
    id: Seq<char>,
    label: Seq<char>,
    base_url: Result<Seq<char>, Seq<char>>,
    model: Seq<char>,
    vision: bool,
)
    ensures
        connection_provider(id, label, base_url, model, vision) is Ok <==> {
            &&& connection_id(id)
            &&& !blank(label) && utf8_len(trimmed(label)) <= 80
            &&& !blank(model) && utf8_len(trimmed(model)) <= 200
            &&& base_url is Ok
        },
        connection_provider(id, label, base_url, model, vision) matches Ok(provider) ==> {
            &&& provider.id == id
            &&& provider.label == trimmed(label)
            &&& provider.base_url == Some(base_url->Ok_0)
            &&& provider.model == Some(trimmed(model))
            &&& provider.vision == vision
            &&& provider.backend is OpenAi
            &&& provider.auth is ApiKey
            &&& provider.key_source is None
            &&& provider.env_vars.len() == 0
            &&& (base_url->Ok_0).is_suffix_of(provider.auth_note)
        },
{
    if let Ok(url) = base_url {
        let note = "saved API connection · "@ + url;
        assert(note.subrange(note.len() - url.len(), note.len() as int) =~= url);
    }
}

/// An entry of the key store stands for the connection that it describes.
pub proof fn law_an_entry_stands_for_its_connection(entry: SavedView)
    ensures
        entry.label is Some && entry.model is Some ==> saved_provider(entry)
            == connection_provider(
            entry.id,
            entry.label->0,
            entry.base_url,
            entry.model->0,
            entry.vision == Some("true"@),
        ),
        entry.label is None || entry.model is None ==> saved_provider(entry) is Err,
{
    reveal_strlit("");
    lemma_blank(""@);
}

/// The built-in providers stand in one order under their ids. The single
/// connection takes a key that the environment may hold; the subscription's
/// endpoint takes none; the others are agents with a login of their own.
pub proof fn law_the_builtin_providers_are_known(vendor: VendorView)
    ensures
        ({
            let list = all_builtin(vendor);
            &&& list.len() == 7
            &&& list[0].id == vendor.word + "-max"@
            &&& list[1].id == vendor.word
            &&& list[2].id == "gemini"@
            &&& list[3].id == "opencode"@
            &&& list[4].id == "codex"@
            &&& list[5].id == "pi"@
            &&& list[6].id == "openai"@
            &&& list[0].auth is Oauth && list[0].backend is OpenAi && list[0].key_source is None
                && list[0].env_vars.len() == 0 && list[0].vision
            &&& list[0].model matches Some(model) && vendor.word.is_prefix_of(model)
            &&& forall|i: int|
                1 <= i <= 5 ==> (#[trigger] list[i]).auth is Managed && list[i].backend.managed()
                    && list[i].key_source is None && list[i].env_vars.len() == 0
            &&& list[5].backend is PiRpc
            &&& forall|i: int| 1 <= i <= 4 ==> (#[trigger] list[i]).backend is Acp
            &&& list[6].auth is ApiKey && list[6].backend is OpenAi && list[6].env_vars == seq![
                "OPENAI_API_KEY"@,
            ]
        }),
{
    let list = all_builtin(vendor);
    let model = vendor.max_model();
    assert(model.subrange(0, vendor.word.len() as int) =~= vendor.word);
    assert(list[6] == openai_provider());
    assert(list[6].env_vars =~= seq!["OPENAI_API_KEY"@]);
}

// Which one is started.

/// Where nothing is chosen, the vendor's own endpoint is started, then its
/// agent, then the single connection, and then whatever is first.
pub proof fn law_the_wellknown_providers_come_first(
    list: Seq<ProviderView>,
    vendor: VendorView,
)
    ensures
        ({
            let chosen = default_choice(list, vendor, None, None);
            let max = vendor.word + "-max"@;
            &&& registered(list, max) ==> chosen == Ok::<Option<Seq<char>>, Seq<char>>(Some(max))
            &&& !registered(list, max) && registered(list, vendor.word) ==> chosen == Ok::<
                Option<Seq<char>>,
                Seq<char>,
            >(Some(vendor.word))
            &&& !registered(list, max) && !registered(list, vendor.word) && registered(
                list,
                "openai"@,
            ) ==> chosen == Ok::<Option<Seq<char>>, Seq<char>>(Some("openai"@))
            &&& !registered(list, max) && !registered(list, vendor.word) && !registered(
                list,
                "openai"@,
            ) && list.len() > 0 ==> chosen == Ok::<Option<Seq<char>>, Seq<char>>(
                Some(list[0].id),
            )
            &&& list.len() == 0 ==> chosen == Ok::<Option<Seq<char>>, Seq<char>>(None)
        }),
{
}

/// An explicit choice of something that is registered is met, the environment's
/// before the application's.
pub proof fn law_an_explicit_choice_is_met(
    list: Seq<ProviderView>,
    vendor: VendorView,
    preferred: Option<Seq<char>>,
    name: Seq<char>,
    raw: Seq<char>,
)
    requires
        !blank(raw),
        registered(list, trimmed(raw)),
    ensures
        default_choice(list, vendor, preferred, Some((name, raw))) == Ok::<
            Option<Seq<char>>,
            Seq<char>,
        >(Some(trimmed(raw))),
        default_choice(list, vendor, Some(raw), None) == Ok::<Option<Seq<char>>, Seq<char>>(
            Some(trimmed(raw)),
        ),
{
}

/// The newer of the two variables counts where it is set, the older one only
/// where the newer is not, and neither where none is; a value that is no text is
/// an error that names its variable.
pub proof fn law_the_newer_variable_counts_first(
    list: Seq<ProviderView>,
    vendor: VendorView,
    preferred: Option<Seq<char>>,
    newer: EnvValue,
    older: EnvValue,
)
    ensures
        ({
            let chosen = environment_choice(list, vendor, preferred, newer, older);
            &&& newer matches EnvValue::Text(id) ==> chosen == default_choice(
                list,
                vendor,
                preferred,
                Some(("AGUI_PROVIDER"@, id@)),
            )
            &&& newer is NotUnicode ==> (chosen matches Err(message)
                && "AGUI_PROVIDER"@.is_prefix_of(message))
            &&& newer is Unset ==> {
                &&& older matches EnvValue::Text(id) ==> chosen == default_choice(
                    list,
                    vendor,
                    preferred,
                    Some(("CANVAS_PROVIDER"@, id@)),
                )
                &&& older is NotUnicode ==> (chosen matches Err(message)
                    && "CANVAS_PROVIDER"@.is_prefix_of(message))
                &&& older is Unset ==> chosen == default_choice(list, vendor, preferred, None)
            }
        }),
{
    let one = "AGUI_PROVIDER"@ + " is not valid Unicode"@;
    assert(one.subrange(0, "AGUI_PROVIDER"@.len() as int) =~= "AGUI_PROVIDER"@);
    let other = "CANVAS_PROVIDER"@ + " is not valid Unicode"@;
    assert(other.subrange(0, "CANVAS_PROVIDER"@.len() as int) =~= "CANVAS_PROVIDER"@);
}

/// In an ordered list of keys, those before the place of a key are not greater,
/// and those from there on are.
pub proof fn law_a_place_parts_the_keys(keys: Seq<Seq<char>>, key: Seq<char>, k: int)
    requires
        0 <= k < keys.len(),
        forall|i: int, j: int|
            0 <= i < j < keys.len() && text_before(key, #[trigger] keys[i]) ==> text_before(
                key,
                #[trigger] keys[j],
            ),
    ensures
        place(keys, key) <= keys.len(),
        k < place(keys, key) <==> !text_before(key, keys[k]),
    decreases keys.len(),
{
    if text_before(key, keys.last()) {
        let less = keys.drop_last();
        if k < less.len() {
            law_a_place_parts_the_keys(less, key, k);
        } else if less.len() > 0 {
            law_a_place_parts_the_keys(less, key, 0);
        }
    } else {
        assert(keys[keys.len() - 1] == keys.last());
    }
}

} // verus!
