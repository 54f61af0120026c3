//! The registry of providers: the built-in ones, the presets of a models file,
//! and the connections that the person saved.

use vstd::prelude::*;

use crate::lists::lemma_filter_next;
use crate::json::{json_items, parsed_text, text_or, Json, JsonView};
use crate::text::{
    before, begins_with, blank, chars_of, concat2, concat3, concat4, copy_texts, debug_quote,
    debug_text, decimal, is_digit, is_lower_ascii, is_some_text, list_contains, lowercase, opt_str,
    opt_text, same, text_before, texts, to_decimal, to_lowercase, trim, trim_end_char, trim_end_of,
    trimmed,
};

verus! {

pub const CONNECTION_ID_PREFIX: &'static str = "connection-";

/// The setting that marks an entry of the key store as a connection.
pub const CONNECTION_MARKER: &'static str = "agui_connection";

/// The setting that holds a connection's label.
pub const CONNECTION_LABEL: &'static str = "label";

/// The setting that says whether a connection's model can see.
pub const CONNECTION_VISION: &'static str = "vision";

/// The versions of the Pi command line that were checked against the adapter,
/// newest last.
pub const PI_RPC_VERSIONS: [&'static str; 2] = ["0.81.1", "0.82.1"];

/// The vendor of the subscription providers: the word that its ids and its
/// model's name begin with, and its name in what people read.
#[derive(Debug, PartialEq, Eq)]
pub struct Vendor {
    word: String,
    name: String,
}

/// A vendor in contracts.
pub struct VendorView {
    pub word: Seq<char>,
    pub name: Seq<char>,
}

impl View for Vendor {
    type V = VendorView;

    closed spec fn view(&self) -> VendorView {
        VendorView { word: self.word@, name: self.name@ }
    }
}

/// The ids of the built-in providers that are not the vendor's.
pub open spec fn other_builtin_ids() -> Seq<Seq<char>> {
    seq!["gemini"@, "opencode"@, "codex"@, "pi"@, "openai"@]
}

impl VendorView {
    /// Whether the vendor's ids are its own: neither those of another built-in
    /// provider nor such as saved connections have.
    pub open spec fn sound(self) -> bool {
        &&& !other_builtin_ids().contains(self.word)
        &&& !other_builtin_ids().contains(self.max_id())
        &&& !begins_with(self.word + "-"@, "connection-"@)
    }

    /// The id of the provider that talks to the vendor's endpoint itself.
    pub open spec fn max_id(self) -> Seq<char> {
        self.word + "-max"@
    }

    /// The model of that provider.
    pub open spec fn max_model(self) -> Seq<char> {
        self.word + "-sonnet-4-5-20250929"@
    }
}

impl Vendor {
    #[verifier::type_invariant]
    spec fn valid(self) -> bool {
        self@.sound()
    }

    /// A vendor, where its ids are its own.
    pub fn new(word: &str, name: &str) -> (vendor: Option<Vendor>)
        ensures
            vendor is Some <==> (VendorView { word: word@, name: name@ }).sound(),
            vendor matches Some(vendor) ==> vendor@ == (VendorView { word: word@, name: name@ }),
    {
        let mut others: Vec<String> = Vec::new();
        others.push("gemini".to_owned());
        others.push("opencode".to_owned());
        others.push("codex".to_owned());
        others.push("pi".to_owned());
        others.push("openai".to_owned());
        proof {
            assert(texts(others@) =~= other_builtin_ids());
        }
        let fastest: String = concat2(word, "-max");
        if list_contains(&others, word) || list_contains(&others, &fastest)
            || crate::text::starts_with(&concat2(word, "-"), CONNECTION_ID_PREFIX) {
            return None;
        }
        Some(Vendor { word: word.to_owned(), name: name.to_owned() })
    }

    /// The id of the provider that talks to the vendor's endpoint itself.
    pub fn max_id(&self) -> (id: String)
        ensures
            id@ == self@.max_id(),
    {
        concat2(&self.word, "-max")
    }

    /// The model of that provider.
    pub fn max_model(&self) -> (model: String)
        ensures
            model@ == self@.max_model(),
    {
        concat2(&self.word, "-sonnet-4-5-20250929")
    }
}

/// The newest version of the Pi command line that was checked against the
/// adapter.
pub fn pi_rpc_version() -> (version: &'static str)
    ensures
        version@ == "0.82.1"@,
{
    "0.82.1"
}

/// Whether a version of the Pi command line was checked against the adapter.
/// Any other version is refused.
pub fn pi_rpc_supported(version: &str) -> (supported: bool)
    ensures
        supported == (version@ == "0.81.1"@ || version@ == "0.82.1"@),
{
    same(version, "0.81.1") || same(version, "0.82.1")
}

/// Why a models file was not accepted.
#[derive(Debug, PartialEq, Eq)]
pub enum ProviderConfigError {
    /// The file could not be read.
    Read { path: String, source: String },
    /// The file does not hold what it should.
    Invalid { path: String, message: String },
}

/// A configuration error in contracts.
pub enum ConfigErrorView {
    Read { path: Seq<char>, source: Seq<char> },
    Invalid { path: Seq<char>, message: Seq<char> },
}

impl View for ProviderConfigError {
    type V = ConfigErrorView;

    open spec fn view(&self) -> ConfigErrorView {
        match self {
            ProviderConfigError::Read { path, source } => ConfigErrorView::Read {
                path: path@,
                source: source@,
            },
            ProviderConfigError::Invalid { path, message } => ConfigErrorView::Invalid {
                path: path@,
                message: message@,
            },
        }
    }
}

impl ConfigErrorView {
    /// The error as a message.
    pub open spec fn words(self) -> Seq<char> {
        match self {
            ConfigErrorView::Read { path, source } => "failed to read provider config "@ + path
                + ": "@ + source,
            ConfigErrorView::Invalid { path, message } => "invalid provider config "@ + path
                + ": "@ + message,
        }
    }
}

impl ProviderConfigError {
    /// The error as a message.
    pub fn message(&self) -> (text: String)
        ensures
            text@ == self@.words(),
    {
        match self {
            ProviderConfigError::Read { path, source } => concat4(
                "failed to read provider config ",
                path,
                ": ",
                source,
            ),
            ProviderConfigError::Invalid { path, message } => concat4(
                "invalid provider config ",
                path,
                ": ",
                message,
            ),
        }
    }
}

/// How the host drives a provider.
#[derive(Debug, PartialEq, Eq)]
pub enum Backend {
    /// A spawned agent subprocess.
    Acp { program: String, args: Vec<String> },
    /// A spawned Pi subprocess, with its allowed built-in tools.
    PiRpc { program: String, args: Vec<String>, builtin_tools: Vec<String> },
    /// A chat-completions endpoint over HTTP.
    OpenAi,
}

/// A backend in contracts.
#[verifier::ext_equal]
pub enum BackendView {
    Acp { program: Seq<char>, args: Seq<Seq<char>> },
    PiRpc { program: Seq<char>, args: Seq<Seq<char>>, builtin_tools: Seq<Seq<char>> },
    OpenAi,
}

impl View for Backend {
    type V = BackendView;

    open spec fn view(&self) -> BackendView {
        match self {
            Backend::Acp { program, args } => BackendView::Acp {
                program: program@,
                args: texts(args@),
            },
            Backend::PiRpc { program, args, builtin_tools } => BackendView::PiRpc {
                program: program@,
                args: texts(args@),
                builtin_tools: texts(builtin_tools@),
            },
            Backend::OpenAi => BackendView::OpenAi,
        }
    }
}

impl BackendView {
    pub open spec fn managed(self) -> bool {
        !(self is OpenAi)
    }

    pub open spec fn executable(self) -> Option<Seq<char>> {
        match self {
            BackendView::Acp { program, .. } => Some(program),
            BackendView::PiRpc { program, .. } => Some(program),
            BackendView::OpenAi => None,
        }
    }
}

impl Backend {
    /// The stable name of the adapter.
    pub fn adapter(&self) -> (name: &'static str)
        ensures
            name@ == (match self@ {
                BackendView::Acp { .. } => "acp"@,
                BackendView::PiRpc { .. } => "pi-rpc"@,
                BackendView::OpenAi => "openai-compatible"@,
            }),
    {
        match self {
            Backend::Acp { .. } => "acp",
            Backend::PiRpc { .. } => "pi-rpc",
            Backend::OpenAi => "openai-compatible",
        }
    }

    /// Whether the provider is an agent that runs as a subprocess and owns its
    /// login.
    pub fn is_managed_agent(&self) -> (managed: bool)
        ensures
            managed == self@.managed(),
    {
        matches!(self, Backend::Acp { .. } | Backend::PiRpc { .. })
    }

    /// The provider's executable, where it has one.
    pub fn program(&self) -> (program: Option<&str>)
        ensures
            opt_str(program) == self@.executable(),
    {
        match self {
            Backend::Acp { program, .. } => Some(program.as_str()),
            Backend::PiRpc { program, .. } => Some(program.as_str()),
            Backend::OpenAi => None,
        }
    }
}

/// How a provider authenticates.
#[derive(Clone, Copy, Debug, PartialEq, Eq, Structural)]
pub enum AuthKind {
    /// The subprocess handles its own credentials.
    Managed,
    /// A key that the person brings.
    ApiKey,
    /// A subscription's token.
    Oauth,
}

/// One selectable provider.
#[derive(Debug, PartialEq, Eq)]
pub struct Provider {
    /// Stable id.
    pub id: String,
    /// Label for the person.
    pub label: String,
    /// One line on how it authenticates.
    pub auth_note: String,
    pub backend: Backend,
    pub auth: AuthKind,
    /// The endpoint's base URL.
    pub base_url: Option<String>,
    /// The model's id.
    pub model: Option<String>,
    /// Where the key comes from, resolved at use time.
    pub key_source: Option<String>,
    /// Environment variables to fall back to.
    pub env_vars: Vec<String>,
    /// Whether the model can see images.
    pub vision: bool,
}

/// A provider in contracts.
#[verifier::ext_equal]
pub struct ProviderView {
    pub id: Seq<char>,
    pub label: Seq<char>,
    pub auth_note: Seq<char>,
    pub backend: BackendView,
    pub auth: AuthKind,
    pub base_url: Option<Seq<char>>,
    pub model: Option<Seq<char>>,
    pub key_source: Option<Seq<char>>,
    pub env_vars: Seq<Seq<char>>,
    pub vision: bool,
}

impl View for Provider {
    type V = ProviderView;

    open spec fn view(&self) -> ProviderView {
        ProviderView {
            id: self.id@,
            label: self.label@,
            auth_note: self.auth_note@,
            backend: self.backend@,
            auth: self.auth,
            base_url: opt_text(self.base_url),
            model: opt_text(self.model),
            key_source: opt_text(self.key_source),
            env_vars: texts(self.env_vars@),
            vision: self.vision,
        }
    }
}

/// The providers of a list.
pub open spec fn provider_views(list: Seq<Provider>) -> Seq<ProviderView> {
    Seq::new(list.len(), |i: int| list[i]@)
}

/// Whether a provider of that id is in the list.
pub open spec fn registered(list: Seq<ProviderView>, id: Seq<char>) -> bool {
    exists|i: int| 0 <= i < list.len() && (#[trigger] list[i]).id == id
}

/// The first provider of that id.
pub open spec fn found(list: Seq<ProviderView>, id: Seq<char>) -> Option<ProviderView>
    decreases list.len(),
{
    if list.len() == 0 {
        None
    } else if list[0].id == id {
        Some(list[0])
    } else {
        found(list.skip(1), id)
    }
}

/// Looks up a provider by its id.
pub fn find<'a>(list: &'a Vec<Provider>, id: &str) -> (result: Option<&'a Provider>)
    ensures
        result is Some <==> registered(provider_views(list@), id@),
        match result {
            Some(provider) => found(provider_views(list@), id@) == Some(provider@),
            None => found(provider_views(list@), id@) is None,
        },
{
    let ghost all = provider_views(list@);
    let mut i: usize = 0;
    proof {
        assert(all.skip(0) =~= all);
    }
    while i < list.len()
        invariant
            i <= list@.len(),
            all == provider_views(list@),
            found(all, id@) == found(all.skip(i as int), id@),
            forall|k: int| 0 <= k < i ==> (#[trigger] all[k]).id != id@,
        decreases list@.len() - i,
    {
        if same(&list[i].id, id) {
            proof {
                assert(all[i as int].id == id@);
            }
            return Some(&list[i]);
        }
        proof {
            assert(all.skip(i as int).skip(1) =~= all.skip(i + 1));
        }
        i += 1;
    }
    None
}

// Ids.

/// A character of a provider's id.
pub open spec fn id_char(c: char) -> bool {
    is_lower_ascii(c) || is_digit(c) || c == '-'
}

fn all_id_chars(chars: &Vec<char>, from: usize) -> (result: bool)
    requires
        from <= chars@.len(),
    ensures
        result == (forall|i: int| from <= i < chars@.len() ==> id_char(#[trigger] chars@[i])),
{
    let mut i: usize = from;
    while i < chars.len()
        invariant
            from <= i <= chars@.len(),
            forall|k: int| from <= k < i ==> id_char(#[trigger] chars@[k]),
        decreases chars@.len() - i,
    {
        let c: char = chars[i];
        if !(('a' <= c && c <= 'z') || ('0' <= c && c <= '9') || c == '-') {
            proof {
                assert(!id_char(chars@[i as int]));
            }
            return false;
        }
        i += 1;
    }
    true
}

/// A preset's id: one to sixty-four small letters, digits and hyphens.
pub open spec fn preset_id_ok(id: Seq<char>) -> bool {
    &&& 0 < id.len() <= 64
    &&& forall|i: int| 0 <= i < id.len() ==> id_char(#[trigger] id[i])
}

/// A saved connection's id: the connection prefix and at least one more small
/// letter, digit or hyphen, eighty characters at most.
pub open spec fn connection_id(id: Seq<char>) -> bool {
    &&& begins_with(id, "connection-"@)
    &&& "connection-"@.len() < id.len() <= 80
    &&& forall|i: int| "connection-"@.len() <= i < id.len() ==> id_char(#[trigger] id[i])
}

/// Whether an id is that of a saved connection.
pub fn valid_connection_id(id: &str) -> (valid: bool)
    ensures
        valid == connection_id(id@),
{
    let chars: Vec<char> = chars_of(id);
    let prefix: Vec<char> = chars_of("connection-");
    crate::text::chars_at(&chars, &prefix, 0) && prefix.len() < chars.len() && chars.len() <= 80
        && all_id_chars(&chars, prefix.len())
}

/// Whether a provider is a saved connection.
pub fn is_user_connection(provider: &Provider) -> (result: bool)
    ensures
        result == connection_id(provider@.id),
{
    valid_connection_id(&provider.id)
}

// Built-in providers.

/// An agent subprocess with its own login.
pub open spec fn acp_provider(
    id: Seq<char>,
    label: Seq<char>,
    program: Seq<char>,
    args: Seq<Seq<char>>,
    auth_note: Seq<char>,
) -> ProviderView {
    ProviderView {
        id,
        label,
        auth_note,
        backend: BackendView::Acp { program, args },
        auth: AuthKind::Managed,
        base_url: None,
        model: None,
        key_source: None,
        env_vars: Seq::empty(),
        vision: false,
    }
}

/// The subscription provider, whose token comes from the keychain alone: it
/// has no key source and no environment variable to fall back to.
pub open spec fn claude_max_provider(vendor: VendorView) -> ProviderView {
    ProviderView {
        id: vendor.max_id(),
        label: vendor.name + " (subscription · fast)"@,
        auth_note: vendor.name
            + " Code subscription OAuth from macOS Keychain; no API key or API credits"@,
        backend: BackendView::OpenAi,
        auth: AuthKind::Oauth,
        base_url: Some("https://api.anthropic.com/v1"@),
        model: Some(vendor.max_model()),
        key_source: None,
        env_vars: Seq::empty(),
        vision: true,
    }
}

/// The tools that the Pi subprocess may use.
pub open spec fn pi_tools() -> Seq<Seq<char>> {
    Seq::empty().push("read"@).push("bash"@).push("edit"@).push("write"@).push("grep"@).push(
        "find"@,
    ).push("ls"@)
}

/// The Pi subprocess.
pub open spec fn pi_provider() -> ProviderView {
    ProviderView {
        id: "pi"@,
        label: "Pi (local RPC)"@,
        auth_note: "Pi "@ + "0.82.1"@
            + " selected model and local credentials; AG-UI actions use the authenticated MCP bridge"@,
        backend: BackendView::PiRpc {
            program: "pi"@,
            args: Seq::empty(),
            builtin_tools: pi_tools(),
        },
        auth: AuthKind::Managed,
        base_url: None,
        model: None,
        key_source: None,
        env_vars: Seq::empty(),
        vision: false,
    }
}

/// The single connection slot, whose endpoint and model the person sets.
pub open spec fn openai_provider() -> ProviderView {
    ProviderView {
        id: "openai"@,
        label: "Existing API connection"@,
        auth_note: "Legacy single-slot connection; add named API connections for new endpoints"@,
        backend: BackendView::OpenAi,
        auth: AuthKind::ApiKey,
        base_url: None,
        model: None,
        key_source: None,
        env_vars: Seq::empty().push("OPENAI_API_KEY"@),
        vision: false,
    }
}

/// Every built-in provider, in order.
pub open spec fn all_builtin(vendor: VendorView) -> Seq<ProviderView> {
    Seq::empty().push(claude_max_provider(vendor)).push(
        acp_provider(
            vendor.word,
            vendor.name + " (subscription · ACP)"@,
            "npx"@,
            Seq::empty().push("-y"@).push(
                "@agentclientprotocol/"@ + vendor.word + "-agent-acp@0.58.1"@,
            ),
            vendor.name + " Code subscription / OAuth (no API key)"@,
        ),
    ).push(
        acp_provider(
            "gemini"@,
            "Gemini"@,
            "gemini"@,
            Seq::empty().push("--experimental-acp"@),
            "GEMINI_API_KEY or `gemini` OAuth login"@,
        ),
    ).push(
        acp_provider(
            "opencode"@,
            "opencode"@,
            "opencode"@,
            Seq::empty().push("acp"@),
            "opencode's own provider config"@,
        ),
    ).push(
        acp_provider(
            "codex"@,
            "Codex (OpenAI)"@,
            "npx"@,
            Seq::empty().push("-y"@).push("@agentclientprotocol/codex-acp@1.1.2"@),
            "ChatGPT subscription or OPENAI_API_KEY"@,
        ),
    ).push(pi_provider()).push(openai_provider())
}

/// Whether a provider can run: it needs no executable, or its executable is
/// among the available ones.
pub open spec fn runnable(available: Seq<Seq<char>>) -> spec_fn(ProviderView) -> bool {
    |provider: ProviderView|
        match provider.backend.executable() {
            Some(program) => available.contains(program),
            None => true,
        }
}

fn list1(a: &str) -> (list: Vec<String>)
    ensures
        texts(list@) == Seq::empty().push(a@),
{
    let mut list: Vec<String> = Vec::new();
    list.push(a.to_owned());
    proof {
        assert(texts(list@) =~= Seq::empty().push(a@));
    }
    list
}

fn list2(a: &str, b: &str) -> (list: Vec<String>)
    ensures
        texts(list@) == Seq::empty().push(a@).push(b@),
{
    let mut list: Vec<String> = list1(a);
    let ghost before = list@;
    list.push(b.to_owned());
    proof {
        assert(texts(list@) =~= texts(before).push(b@));
    }
    list
}

impl Provider {
    /// An agent subprocess with its own login.
    pub fn acp(id: &str, label: &str, program: &str, args: Vec<String>, auth_note: &str) -> (provider:
        Provider)
        ensures
            provider@ == acp_provider(id@, label@, program@, texts(args@), auth_note@),
    {
        let provider: Provider = Provider {
            id: id.to_owned(),
            label: label.to_owned(),
            auth_note: auth_note.to_owned(),
            backend: Backend::Acp { program: program.to_owned(), args },
            auth: AuthKind::Managed,
            base_url: None,
            model: None,
            key_source: None,
            env_vars: Vec::new(),
            vision: false,
        };
        proof {
            assert(provider@.env_vars =~= Seq::empty());
        }
        provider
    }

    /// The subscription provider.
    pub fn claude_max(vendor: &Vendor) -> (provider: Provider)
        ensures
            provider@ == claude_max_provider(vendor@),
    {
        let provider: Provider = Provider {
            id: vendor.max_id(),
            label: concat2(&vendor.name, " (subscription · fast)"),
            auth_note: concat2(
                &vendor.name,
                " Code subscription OAuth from macOS Keychain; no API key or API credits",
            ),
            backend: Backend::OpenAi,
            auth: AuthKind::Oauth,
            base_url: Some("https://api.anthropic.com/v1".to_owned()),
            model: Some(vendor.max_model()),
            key_source: None,
            env_vars: Vec::new(),
            vision: true,
        };
        proof {
            assert(provider@.env_vars =~= Seq::empty());
        }
        provider
    }

    /// The Pi subprocess.
    pub fn pi_rpc() -> (provider: Provider)
        ensures
            provider@ == pi_provider(),
    {
        let mut tools: Vec<String> = Vec::new();
        tools.push("read".to_owned());
        tools.push("bash".to_owned());
        tools.push("edit".to_owned());
        tools.push("write".to_owned());
        tools.push("grep".to_owned());
        tools.push("find".to_owned());
        tools.push("ls".to_owned());
        proof {
            assert(texts(tools@) =~= pi_tools());
        }
        let provider: Provider = Provider {
            id: "pi".to_owned(),
            label: "Pi (local RPC)".to_owned(),
            auth_note: concat3(
                "Pi ",
                pi_rpc_version(),
                " selected model and local credentials; AG-UI actions use the authenticated MCP bridge",
            ),
            backend: Backend::PiRpc {
                program: "pi".to_owned(),
                args: Vec::new(),
                builtin_tools: tools,
            },
            auth: AuthKind::Managed,
            base_url: None,
            model: None,
            key_source: None,
            env_vars: Vec::new(),
            vision: false,
        };
        proof {
            assert(provider@.env_vars =~= Seq::empty());
            assert(provider@.backend->PiRpc_args =~= Seq::empty());
        }
        provider
    }

    fn openai() -> (provider: Provider)
        ensures
            provider@ == openai_provider(),
    {
        Provider {
            id: "openai".to_owned(),
            label: "Existing API connection".to_owned(),
            auth_note:
                "Legacy single-slot connection; add named API connections for new endpoints".to_owned(),
            backend: Backend::OpenAi,
            auth: AuthKind::ApiKey,
            base_url: None,
            model: None,
            key_source: None,
            env_vars: list1("OPENAI_API_KEY"),
            vision: false,
        }
    }
}

fn every_builtin(vendor: &Vendor) -> (list: Vec<Provider>)
    ensures
        provider_views(list@) == all_builtin(vendor@),
{
    let mut list: Vec<Provider> = Vec::new();
    list.push(Provider::claude_max(vendor));
    list.push(
        Provider::acp(
            &vendor.word,
            &concat2(&vendor.name, " (subscription · ACP)"),
            "npx",
            list2("-y", &concat3("@agentclientprotocol/", &vendor.word, "-agent-acp@0.58.1")),
            &concat2(&vendor.name, " Code subscription / OAuth (no API key)"),
        ),
    );
    list.push(
        Provider::acp(
            "gemini",
            "Gemini",
            "gemini",
            list1("--experimental-acp"),
            "GEMINI_API_KEY or `gemini` OAuth login",
        ),
    );
    list.push(
        Provider::acp(
            "opencode",
            "opencode",
            "opencode",
            list1("acp"),
            "opencode's own provider config",
        ),
    );
    list.push(
        Provider::acp(
            "codex",
            "Codex (OpenAI)",
            "npx",
            list2("-y", "@agentclientprotocol/codex-acp@1.1.2"),
            "ChatGPT subscription or OPENAI_API_KEY",
        ),
    );
    list.push(Provider::pi_rpc());
    list.push(Provider::openai());
    proof {
        assert(provider_views(list@) =~= all_builtin(vendor@));
    }
    list
}

/// The executables that built-in providers run: what a host has to look for.
pub fn builtin_programs(vendor: &Vendor) -> (programs: Vec<String>)
    ensures
        forall|program: Seq<char>| #[trigger]
            texts(programs@).contains(program) <==> exists|i: int|
                0 <= i < all_builtin(vendor@).len() && (
                #[trigger] all_builtin(vendor@)[i]).backend.executable() == Some(program),
{
    let list: Vec<Provider> = every_builtin(vendor);
    let ghost all = all_builtin(vendor@);
    let mut programs: Vec<String> = Vec::new();
    let mut i: usize = 0;
    while i < list.len()
        invariant
            i <= list@.len(),
            all == provider_views(list@),
            forall|program: Seq<char>| #[trigger]
                texts(programs@).contains(program) <==> exists|k: int|
                    0 <= k < i && (#[trigger] all[k]).backend.executable() == Some(program),
        decreases list@.len() - i,
    {
        let ghost before = texts(programs@);
        let ghost here = all[i as int].backend.executable();
        proof {
            assert(all[i as int] == list@[i as int]@);
        }
        match list[i].backend.program() {
            Some(program) => {
                programs.push(program.to_owned());
                proof {
                    assert(texts(programs@) =~= before.push(here->0));
                }
            },
            None => {},
        }
        proof {
            assert forall|program: Seq<char>| #[trigger]
                texts(programs@).contains(program) <==> exists|k: int|
                    0 <= k < i + 1 && (#[trigger] all[k]).backend.executable() == Some(
                        program,
                    ) by {
                assert(texts(programs@).contains(program) <==> before.contains(program) || here
                    == Some(program)) by {
                    if here is Some {
                        let after = texts(programs@);
                        assert(after[before.len() as int] == here->0);
                        if before.contains(program) {
                            let k = choose|k: int| 0 <= k < before.len() && before[k] == program;
                            assert(after[k] == program);
                        }
                    }
                }
                if here == Some(program) {
                    assert(all[i as int].backend.executable() == Some(program));
                }
            }
        }
        i += 1;
    }
    programs
}

/// The built-in providers that can run: those whose executables are among the
/// available ones, and those that need none.
pub fn builtin(vendor: &Vendor, available: &Vec<String>) -> (list: Vec<Provider>)
    ensures
        provider_views(list@) == all_builtin(vendor@).filter(runnable(texts(available@))),
        distinct_ids(provider_views(list@)),
        forall|i: int| 0 <= i < list@.len() ==> !connection_id((#[trigger] list@[i])@.id),
{
    proof {
        use_type_invariant(vendor);
        law_builtin_providers_are_no_connections(vendor@);
        lemma_filter_distinct(all_builtin(vendor@), runnable(texts(available@)));
    }
    let mut list: Vec<Provider> = every_builtin(vendor);
    let ghost all = all_builtin(vendor@);
    let ghost keep = runnable(texts(available@));
    let ghost mut done: int = 0;
    let mut i: usize = 0;
    proof {
        reveal(Seq::filter);
        assert(all.take(0) =~= Seq::empty());
        assert(all.skip(0) =~= all);
        assert(provider_views(list@) =~= all.take(0).filter(keep) + all.skip(0));
    }
    while i < list.len()
        invariant
            i <= list@.len(),
            0 <= done <= all.len(),
            keep == runnable(texts(available@)),
            all.take(done).filter(keep).len() == i,
            provider_views(list@) == all.take(done).filter(keep) + all.skip(done),
        decreases list@.len() - i,
    {
        let kept: bool = match list[i].backend.program() {
            Some(program) => list_contains(available, program),
            None => true,
        };
        proof {
            let before = provider_views(list@);
            assert(before.len() == i + (all.len() - done));
            assert(before[i as int] == all.skip(done)[0]);
            assert(all[done] == list@[i as int]@);
            lemma_filter_next(all, keep, done);
            assert(kept == keep(all[done]));
        }
        if kept {
            proof {
                assert(all.take(done).filter(keep) + all.skip(done) =~= all.take(done).filter(
                    keep,
                ).push(all[done]) + all.skip(done + 1));
                done = done + 1;
            }
            i += 1;
        } else {
            let ghost before = list@;
            list.remove(i);
            proof {
                assert(provider_views(list@) =~= provider_views(before).remove(i as int));
                assert((all.take(done).filter(keep) + all.skip(done)).remove(i as int) =~= all.take(
                    done,
                ).filter(keep) + all.skip(done + 1));
                done = done + 1;
            }
        }
    }
    proof {
        assert(done == all.len()) by {
            assert(provider_views(list@).len() == i + (all.len() - done));
        }
        assert(all.take(done) =~= all);
        assert(all.take(done).filter(keep) + all.skip(done) =~= all.filter(keep));
        assert forall|i: int| 0 <= i < list@.len() implies !connection_id(
            (#[trigger] list@[i])@.id,
        ) by {
            assert(provider_views(list@)[i] == list@[i]@);
            assert(all.contains(all.filter(keep)[i]));
            let k = choose|k: int| 0 <= k < all.len() && all[k] == all.filter(keep)[i];
            assert(!connection_id(all[k].id));
        }
    }
    list
}

/// A registry of providers.
pub struct Providers(pub Vec<Provider>);

/// A provider that is driven as an agent subprocess.
pub open spec fn is_acp() -> spec_fn(ProviderView) -> bool {
    |provider: ProviderView| provider.backend is Acp
}

/// A provider that is a managed agent.
pub open spec fn is_managed() -> spec_fn(ProviderView) -> bool {
    |provider: ProviderView| provider.backend.managed()
}

impl Providers {
    /// Keeps only the agent subprocesses.
    pub fn acp_only(self) -> (kept: Providers)
        ensures
            provider_views(kept.0@) == provider_views(self.0@).filter(is_acp()),
    {
        let mut rest: Vec<Provider> = self.0;
        let mut kept: Vec<Provider> = Vec::new();
        let ghost all = provider_views(self.0@);
        let ghost mut done: int = 0;
        proof {
            reveal(Seq::filter);
            assert(all.take(0) =~= Seq::empty());
            assert(provider_views(kept@) =~= all.take(0).filter(is_acp()));
            assert(provider_views(rest@) =~= all.skip(0));
        }
        while rest.len() > 0
            invariant
                0 <= done <= all.len(),
                provider_views(rest@) == all.skip(done),
                provider_views(kept@) == all.take(done).filter(is_acp()),
            decreases rest@.len(),
        {
            let ghost before = rest@;
            let provider: Provider = rest.remove(0);
            proof {
                assert(all.skip(done).len() == provider_views(before).len());
                assert(provider_views(before)[0] == all.skip(done)[0]);
                assert(provider_views(rest@) =~= all.skip(done + 1)) by {
                    assert(provider_views(rest@) =~= provider_views(before).skip(1));
                    assert(all.skip(done).skip(1) =~= all.skip(done + 1));
                }
                lemma_filter_next(all, is_acp(), done);
                done = done + 1;
            }
            let ghost earlier = kept@;
            if matches!(provider.backend, Backend::Acp { .. }) {
                kept.push(provider);
                proof {
                    assert(provider_views(kept@) =~= provider_views(earlier).push(provider@));
                }
            }
        }
        proof {
            assert(all.skip(done).len() == 0);
            assert(all.take(done) =~= all);
        }
        Providers(kept)
    }

    /// Keeps every managed agent, whatever drives it.
    pub fn managed_agents_only(self) -> (kept: Providers)
        ensures
            provider_views(kept.0@) == provider_views(self.0@).filter(is_managed()),
    {
        let mut rest: Vec<Provider> = self.0;
        let mut kept: Vec<Provider> = Vec::new();
        let ghost all = provider_views(self.0@);
        let ghost mut done: int = 0;
        proof {
            reveal(Seq::filter);
            assert(all.take(0) =~= Seq::empty());
            assert(provider_views(kept@) =~= all.take(0).filter(is_managed()));
            assert(provider_views(rest@) =~= all.skip(0));
        }
        while rest.len() > 0
            invariant
                0 <= done <= all.len(),
                provider_views(rest@) == all.skip(done),
                provider_views(kept@) == all.take(done).filter(is_managed()),
            decreases rest@.len(),
        {
            let ghost before = rest@;
            let provider: Provider = rest.remove(0);
            proof {
                assert(all.skip(done).len() == provider_views(before).len());
                assert(provider_views(before)[0] == all.skip(done)[0]);
                assert(provider_views(rest@) =~= all.skip(done + 1)) by {
                    assert(provider_views(rest@) =~= provider_views(before).skip(1));
                    assert(all.skip(done).skip(1) =~= all.skip(done + 1));
                }
                lemma_filter_next(all, is_managed(), done);
                done = done + 1;
            }
            let ghost earlier = kept@;
            if provider.backend.is_managed_agent() {
                kept.push(provider);
                proof {
                    assert(provider_views(kept@) =~= provider_views(earlier).push(provider@));
                }
            }
        }
        proof {
            assert(all.skip(done).len() == 0);
            assert(all.take(done) =~= all);
        }
        Providers(kept)
    }
}

// Presets of a models file.

/// What a preset asks of the rest of the host: its endpoint to be made
/// canonical, and the environment variables that its key source names.
#[derive(Debug, PartialEq, Eq)]
pub struct PresetRequest {
    pub base_url: String,
    pub key_source: Option<String>,
}

/// What the host found out for a preset: the canonical endpoint or why there is
/// none, and the environment variables that its key source names.
#[derive(Debug, PartialEq, Eq)]
pub struct PresetLookup {
    pub base_url: Result<String, String>,
    pub env_vars: Vec<String>,
}

/// A lookup in contracts.
pub struct LookupView {
    pub base_url: Result<Seq<char>, Seq<char>>,
    pub env_vars: Seq<Seq<char>>,
}

/// The outcome of making an endpoint canonical.
pub open spec fn canonical_view(outcome: Result<String, String>) -> Result<Seq<char>, Seq<char>> {
    match outcome {
        Ok(url) => Ok(url@),
        Err(message) => Err(message@),
    }
}

impl View for PresetLookup {
    type V = LookupView;

    open spec fn view(&self) -> LookupView {
        LookupView { base_url: canonical_view(self.base_url), env_vars: texts(self.env_vars@) }
    }
}

pub open spec fn lookup_views(lookups: Seq<PresetLookup>) -> Seq<LookupView> {
    Seq::new(lookups.len(), |i: int| lookups[i]@)
}

/// A preset's trimmed text field, empty where it is absent or no text.
pub open spec fn preset_field(entry: JsonView, name: Seq<char>) -> Seq<char> {
    trimmed(text_or(entry.text_member(name), ""@))
}

/// A preset's endpoint, without trailing slashes.
pub open spec fn preset_url(entry: JsonView) -> Seq<char> {
    trim_end_of(preset_field(entry, "base_url"@), '/')
}

/// A preset's key source, where it is not blank.
pub open spec fn preset_key(entry: JsonView) -> Option<Seq<char>> {
    match entry.text_member("api_key"@) {
        Some(source) => if blank(source) {
            None
        } else {
            Some(trimmed(source))
        },
        None => None,
    }
}

/// The provider that row `index` of a models file stands for, or why it stands
/// for none. The checks come in order: the id, that it is new, the wire
/// protocol, the endpoint and the model, the canonical endpoint, how it
/// authenticates, and whether it can see.
pub open spec fn preset_provider(
    entry: JsonView,
    index: nat,
    taken: Seq<ProviderView>,
    lookup: LookupView,
) -> Result<ProviderView, Seq<char>> {
    let id = preset_field(entry, "id"@);
    let quoted = debug_text(id);
    let api = text_or(entry.text_member("api"@), "openai-completions"@);
    let model = preset_field(entry, "model"@);
    if !preset_id_ok(id) {
        Err("provider row "@ + decimal(index) + " has an invalid id "@ + quoted)
    } else if registered(taken, id) {
        Err("provider id "@ + quoted + " is duplicated or collides with a built-in"@)
    } else if api != "openai-completions"@ {
        Err("provider "@ + quoted + " uses unsupported api "@ + debug_text(api))
    } else if preset_url(entry).len() == 0 || model.len() == 0 {
        Err("provider "@ + quoted + " needs non-empty base_url and model"@)
    } else {
        match lookup.base_url {
            Err(message) => Err("provider "@ + quoted + " has invalid base_url: "@ + message),
            Ok(base_url) => {
                let auth = entry.text_member("auth"@);
                if auth == Some("oauth"@) {
                    Err(
                        "provider "@ + quoted
                            + " cannot use managed subscription OAuth; use its ACP agent"@,
                    )
                } else if auth is Some && auth != Some("api_key"@) {
                    Err("provider "@ + quoted + " uses unsupported auth "@ + debug_text(auth->0))
                } else if entry.member("vision"@) is Some && entry.truth_member("vision"@) is None {
                    Err("provider "@ + quoted + " `vision` must be a boolean"@)
                } else {
                    Ok(
                        ProviderView {
                            id,
                            label: text_or(entry.text_member("label"@), id),
                            auth_note: "openai-compatible · "@ + base_url,
                            backend: BackendView::OpenAi,
                            auth: AuthKind::ApiKey,
                            base_url: Some(base_url),
                            model: Some(model),
                            key_source: preset_key(entry),
                            env_vars: if preset_key(entry) is Some {
                                lookup.env_vars
                            } else {
                                Seq::empty()
                            },
                            vision: entry.truth_member("vision"@) == Some(true),
                        },
                    )
                }
            },
        }
    }
}

/// The registry after the first `n` rows of a models file.
pub open spec fn loaded(
    start: Seq<ProviderView>,
    rows: Seq<JsonView>,
    lookups: Seq<LookupView>,
    n: nat,
) -> Result<Seq<ProviderView>, Seq<char>>
    decreases n,
{
    if n == 0 {
        Ok(start)
    } else {
        match loaded(start, rows, lookups, (n - 1) as nat) {
            Err(message) => Err(message),
            Ok(list) => match preset_provider(
                rows[n - 1],
                (n - 1) as nat,
                list,
                lookups[n - 1],
            ) {
                Err(message) => Err(message),
                Ok(provider) => Ok(list.push(provider)),
            },
        }
    }
}

/// The rows of a models file, where it has any.
pub open spec fn preset_rows(root: JsonView) -> Option<Seq<JsonView>> {
    match root.member("providers"@) {
        Some(value) => value.items(),
        None => None,
    }
}

/// The registry after a whole models file.
pub open spec fn loaded_all(
    start: Seq<ProviderView>,
    root: JsonView,
    lookups: Seq<LookupView>,
) -> Result<Seq<ProviderView>, Seq<char>> {
    match preset_rows(root) {
        None => Err("expected a top-level `providers` array"@),
        Some(rows) => loaded(start, rows, lookups, rows.len()),
    }
}

/// A list of providers, or why there is none.
pub open spec fn registry_view(outcome: Result<Vec<Provider>, String>) -> Result<
    Seq<ProviderView>,
    Seq<char>,
> {
    match outcome {
        Ok(list) => Ok(provider_views(list@)),
        Err(message) => Err(message@),
    }
}

fn preset_field_text<'a>(entry: &'a Json, name: &str) -> (text: &'a str)
    ensures
        text@ == preset_field(entry@, name@),
{
    trim(entry.str_member_or(name, ""))
}

fn preset_key_text(entry: &Json) -> (source: Option<String>)
    ensures
        opt_text(source) == preset_key(entry@),
{
    match entry.str_member("api_key") {
        Some(source) => {
            let source: &str = trim(source);
            if source.is_empty() {
                None
            } else {
                Some(source.to_owned())
            }
        },
        None => None,
    }
}

/// What a preset asks of the rest of the host.
pub fn preset_request(entry: &Json) -> (request: PresetRequest)
    ensures
        request.base_url@ == preset_url(entry@),
        opt_text(request.key_source) == preset_key(entry@),
{
    PresetRequest {
        base_url: trim_end_char(preset_field_text(entry, "base_url"), '/').to_owned(),
        key_source: preset_key_text(entry),
    }
}

fn read_preset(entry: &Json, index: usize, taken: &Vec<Provider>, lookup: &PresetLookup) -> (result:
    Result<Provider, String>)
    ensures
        match result {
            Ok(provider) => preset_provider(
                entry@,
                index as nat,
                provider_views(taken@),
                lookup@,
            ) == Ok::<ProviderView, Seq<char>>(provider@),
            Err(message) => preset_provider(
                entry@,
                index as nat,
                provider_views(taken@),
                lookup@,
            ) == Err::<ProviderView, Seq<char>>(message@),
        },
{
    let id: &str = preset_field_text(entry, "id");
    let quoted: String = debug_quote(id);
    let id_chars: Vec<char> = chars_of(id);
    if id_chars.len() == 0 || id_chars.len() > 64 || !all_id_chars(&id_chars, 0) {
        return Err(
            concat4("provider row ", &to_decimal(index as u64), " has an invalid id ", &quoted),
        );
    }
    if find(taken, id).is_some() {
        return Err(
            concat3("provider id ", &quoted, " is duplicated or collides with a built-in"),
        );
    }
    let api: &str = entry.str_member_or("api", "openai-completions");
    if !same(api, "openai-completions") {
        return Err(concat4("provider ", &quoted, " uses unsupported api ", &debug_quote(api)));
    }
    let url: &str = trim_end_char(preset_field_text(entry, "base_url"), '/');
    let model: &str = preset_field_text(entry, "model");
    if url.is_empty() || model.is_empty() {
        return Err(concat3("provider ", &quoted, " needs non-empty base_url and model"));
    }
    let base_url: &String = match &lookup.base_url {
        Ok(base_url) => base_url,
        Err(message) => {
            return Err(concat4("provider ", &quoted, " has invalid base_url: ", message));
        },
    };
    match entry.str_member("auth") {
        Some(auth) => {
            if same(auth, "oauth") {
                return Err(
                    concat3(
                        "provider ",
                        &quoted,
                        " cannot use managed subscription OAuth; use its ACP agent",
                    ),
                );
            }
            if !same(auth, "api_key") {
                return Err(
                    concat4("provider ", &quoted, " uses unsupported auth ", &debug_quote(auth)),
                );
            }
        },
        None => {},
    }
    let key_source: Option<String> = preset_key_text(entry);
    let env_vars: Vec<String> = if key_source.is_some() {
        copy_texts(&lookup.env_vars)
    } else {
        Vec::new()
    };
    proof {
        assert(key_source is None ==> texts(env_vars@) =~= Seq::empty());
    }
    let label: &str = entry.str_member_or("label", id);
    let vision: bool = match entry.get("vision") {
        Some(value) => match value.as_bool() {
            Some(vision) => vision,
            None => {
                return Err(concat3("provider ", &quoted, " `vision` must be a boolean"));
            },
        },
        None => false,
    };
    Ok(
        Provider {
            id: id.to_owned(),
            label: label.to_owned(),
            auth_note: concat2("openai-compatible · ", base_url),
            backend: Backend::OpenAi,
            auth: AuthKind::ApiKey,
            base_url: Some(base_url.clone()),
            model: Some(model.to_owned()),
            key_source,
            env_vars,
            vision,
        },
    )
}

/// Appends the presets of a models file's document to the registry, given what
/// the host found out for each.
pub fn load_presets(providers: Vec<Provider>, root: &Json, lookups: &Vec<PresetLookup>) -> (result:
    Result<Vec<Provider>, String>)
    requires
        preset_rows(root@) matches Some(rows) ==> rows.len() <= lookups@.len(),
    ensures
        registry_view(result) == loaded_all(
            provider_views(providers@),
            root@,
            lookup_views(lookups@),
        ),
{
    let ghost start = provider_views(providers@);
    let ghost found = lookup_views(lookups@);
    let rows: &Vec<Json> = match root.get("providers") {
        Some(value) => match value.as_array() {
            Some(rows) => rows,
            None => {
                return Err("expected a top-level `providers` array".to_owned());
            },
        },
        None => {
            return Err("expected a top-level `providers` array".to_owned());
        },
    };
    let ghost all = json_items(rows@);
    let mut providers: Vec<Provider> = providers;
    let mut i: usize = 0;
    #[verifier::loop_isolation(false)]
    while i < rows.len()
        invariant
            i <= rows@.len() <= lookups@.len(),
            all == json_items(rows@),
            preset_rows(root@) == Some(all),
            found == lookup_views(lookups@),
            loaded(start, all, found, i as nat) == Ok::<Seq<ProviderView>, Seq<char>>(
                provider_views(providers@),
            ),
        decreases rows@.len() - i,
    {
        match read_preset(&rows[i], i, &providers, &lookups[i]) {
            Ok(provider) => {
                let ghost before = providers@;
                providers.push(provider);
                proof {
                    assert(provider_views(providers@) =~= provider_views(before).push(provider@));
                }
            },
            Err(message) => {
                proof {
                    lemma_loading_stops(start, all, found, (i + 1) as nat, all.len());
                }
                return Err(message);
            },
        }
        i += 1;
    }
    Ok(providers)
}

proof fn lemma_loading_stops(
    start: Seq<ProviderView>,
    rows: Seq<JsonView>,
    lookups: Seq<LookupView>,
    m: nat,
    n: nat,
)
    requires
        m <= n,
        loaded(start, rows, lookups, m) is Err,
    ensures
        loaded(start, rows, lookups, n) == loaded(start, rows, lookups, m),
    decreases n - m,
{
    if m < n {
        lemma_loading_stops(start, rows, lookups, m, (n - 1) as nat);
    }
}

/// The document in a models file, or why it holds none.
pub open spec fn models_document(parsed: Result<JsonView, Seq<char>>) -> Result<
    JsonView,
    Seq<char>,
> {
    match parsed {
        Ok(root) => Ok(root),
        Err(message) => Err("malformed JSON: "@ + message),
    }
}

/// Parses a models file.
pub fn parse_models(text: &str) -> (result: Result<Json, String>)
    ensures
        match result {
            Ok(root) => models_document(parsed_text(text@)) == Ok::<JsonView, Seq<char>>(root@),
            Err(message) => models_document(parsed_text(text@)) == Err::<JsonView, Seq<char>>(
                message@,
            ),
        },
{
    match Json::parse(text) {
        Ok(root) => Ok(root),
        Err(message) => Err(concat2("malformed JSON: ", &message)),
    }
}

/// Whether some names are the variables that the host finds in a key source.
pub open spec fn answers_source<E>(
    env_var_names: E,
    source: Option<Seq<char>>,
    names: Vec<String>,
) -> bool where E: Fn(&str) -> Vec<String> {
    match source {
        Some(key) => exists|text: &str|
            text@ == key && #[trigger] call_ensures(env_var_names, (text,), names),
        None => names@.len() == 0,
    }
}

fn names_in<E>(source: &Option<String>, env_var_names: &E) -> (names: Vec<String>) where
    E: Fn(&str) -> Vec<String>,

    requires
        forall|source: &str| call_requires(*env_var_names, (source,)),
    ensures
        answers_source(*env_var_names, opt_text(*source), names),
{
    match source {
        Some(source) => {
            let text: &str = source.as_str();
            let names: Vec<String> = env_var_names(text);
            proof {
                assert(text@ == source@ && call_ensures(*env_var_names, (text,), names));
            }
            names
        },
        None => Vec::new(),
    }
}

/// Whether a lookup is what the host says of a row: what it makes of the row's
/// endpoint, and the variables that it finds in the row's key source.
pub open spec fn answers_row<C, E>(
    canonical: C,
    env_var_names: E,
    row: JsonView,
    lookup: PresetLookup,
) -> bool where C: Fn(&str) -> Result<String, String>, E: Fn(&str) -> Vec<String> {
    &&& exists|url: &str|
        url@ == preset_url(row) && #[trigger] call_ensures(canonical, (url,), lookup.base_url)
    &&& answers_source(env_var_names, preset_key(row), lookup.env_vars)
}

/// Whether some lookups are what the host says of the rows of a models file, one
/// for each.
pub open spec fn answers_rows<C, E>(
    canonical: C,
    env_var_names: E,
    root: JsonView,
    lookups: Seq<PresetLookup>,
) -> bool where C: Fn(&str) -> Result<String, String>, E: Fn(&str) -> Vec<String> {
    preset_rows(root) matches Some(rows) ==> {
        &&& lookups.len() == rows.len()
        &&& forall|i: int|
            0 <= i < rows.len() ==> answers_row(
                canonical,
                env_var_names,
                rows[i],
                #[trigger] lookups[i],
            )
    }
}

/// Whether a host can be asked about every endpoint and every key source.
pub open spec fn can_ask<C, E>(canonical: C, env_var_names: E) -> bool where
    C: Fn(&str) -> Result<String, String>,
    E: Fn(&str) -> Vec<String>,
 {
    &&& forall|url: &str| call_requires(canonical, (url,))
    &&& forall|source: &str| call_requires(env_var_names, (source,))
}

/// Asks the host about every row of a models file.
fn look_up<C, E>(root: &Json, canonical: &C, env_var_names: &E) -> (lookups: Vec<
    PresetLookup,
>) where C: Fn(&str) -> Result<String, String>, E: Fn(&str) -> Vec<String>
    requires
        can_ask(*canonical, *env_var_names),
    ensures
        answers_rows(*canonical, *env_var_names, root@, lookups@),
{
    let mut lookups: Vec<PresetLookup> = Vec::new();
    let rows: &Vec<Json> = match root.get("providers") {
        Some(value) => match value.as_array() {
            Some(rows) => rows,
            None => {
                return lookups;
            },
        },
        None => {
            return lookups;
        },
    };
    let ghost all = json_items(rows@);
    let mut i: usize = 0;
    while i < rows.len()
        invariant
            i <= rows@.len(),
            i == lookups@.len(),
            all == json_items(rows@),
            can_ask(*canonical, *env_var_names),
            forall|k: int|
                0 <= k < i ==> answers_row(
                    *canonical,
                    *env_var_names,
                    all[k],
                    #[trigger] lookups@[k],
                ),
        decreases rows@.len() - i,
    {
        let ghost row = rows@[i as int]@;
        let ghost before = lookups@;
        let request: PresetRequest = preset_request(&rows[i]);
        let url: &str = request.base_url.as_str();
        let base_url: Result<String, String> = canonical(url);
        let env_vars: Vec<String> = names_in(&request.key_source, env_var_names);
        let lookup: PresetLookup = PresetLookup { base_url, env_vars };
        proof {
            assert(all[i as int] == row);
            assert(url@ == preset_url(row) && call_ensures(*canonical, (url,), lookup.base_url));
            assert(answers_row(*canonical, *env_var_names, row, lookup));
        }
        lookups.push(lookup);
        proof {
            assert forall|k: int| 0 <= k < i + 1 implies answers_row(
                *canonical,
                *env_var_names,
                all[k],
                #[trigger] lookups@[k],
            ) by {
                if k < i {
                    assert(lookups@[k] == before[k]);
                }
            }
        }
        i += 1;
    }
    lookups
}

/// Appends the presets of a models file to the registry. `canonical` makes an
/// endpoint canonical or says why it cannot, and `env_var_names` finds the
/// environment variables that a key source names.
pub fn load_into<C, E>(
    providers: Vec<Provider>,
    text: &str,
    canonical: &C,
    env_var_names: &E,
) -> (result: Result<Vec<Provider>, String>) where
    C: Fn(&str) -> Result<String, String>,
    E: Fn(&str) -> Vec<String>,

    requires
        can_ask(*canonical, *env_var_names),
    ensures
        match models_document(parsed_text(text@)) {
            Err(message) => registry_view(result) == Err::<Seq<ProviderView>, Seq<char>>(message),
            Ok(root) => exists|lookups: Seq<PresetLookup>| #[trigger]
                answers_rows(*canonical, *env_var_names, root, lookups) && registry_view(result)
                    == loaded_all(provider_views(providers@), root, lookup_views(lookups)),
        },
{
    let root: Json = match parse_models(text) {
        Ok(root) => root,
        Err(message) => {
            return Err(message);
        },
    };
    let lookups: Vec<PresetLookup> = look_up(&root, canonical, env_var_names);
    load_presets(providers, &root, &lookups)
}

/// What was found where the models file should be.
pub enum ModelsFile {
    /// The file's text.
    Read(String),
    /// There is no such file.
    Missing(String),
    /// The file is there and cannot be read.
    Unreadable(String),
}

/// The document that a models file holds, if it was read and holds one.
pub open spec fn file_document(models: ModelsFile) -> Option<JsonView> {
    match models {
        ModelsFile::Read(text) => match models_document(parsed_text(text@)) {
            Ok(root) => Some(root),
            Err(_) => None,
        },
        _ => None,
    }
}

/// The registry that the built-in providers and a models file make.
pub open spec fn built(
    path: Seq<char>,
    models: ModelsFile,
    required: bool,
    start: Seq<ProviderView>,
    lookups: Seq<LookupView>,
) -> Result<Seq<ProviderView>, ConfigErrorView> {
    match models {
        ModelsFile::Read(text) => match models_document(parsed_text(text@)) {
            Err(message) => Err(ConfigErrorView::Invalid { path, message }),
            Ok(root) => match loaded_all(start, root, lookups) {
                Ok(list) => Ok(list),
                Err(message) => Err(ConfigErrorView::Invalid { path, message }),
            },
        },
        ModelsFile::Missing(source) => if required {
            Err(ConfigErrorView::Read { path, source: source@ })
        } else {
            Ok(start)
        },
        ModelsFile::Unreadable(source) => Err(ConfigErrorView::Read { path, source: source@ }),
    }
}

/// A registry, or the error in its place.
pub open spec fn build_view(outcome: Result<Vec<Provider>, ProviderConfigError>) -> Result<
    Seq<ProviderView>,
    ConfigErrorView,
> {
    match outcome {
        Ok(list) => Ok(provider_views(list@)),
        Err(error) => Err(error@),
    }
}

/// Whether a registry is what the built-in providers and a models file make, with
/// what the host says of the file's rows.
pub open spec fn builds<C, E>(
    outcome: Result<Seq<ProviderView>, ConfigErrorView>,
    path: Seq<char>,
    models: ModelsFile,
    required: bool,
    start: Seq<ProviderView>,
    canonical: C,
    env_var_names: E,
) -> bool where C: Fn(&str) -> Result<String, String>, E: Fn(&str) -> Vec<String> {
    match file_document(models) {
        Some(root) => exists|lookups: Seq<PresetLookup>| #[trigger]
            answers_rows(canonical, env_var_names, root, lookups) && outcome == built(
                path,
                models,
                required,
                start,
                lookup_views(lookups),
            ),
        None => outcome == built(path, models, required, start, Seq::empty()),
    }
}

fn build_with_requirement<C, E>(
    models_path: &str,
    models: ModelsFile,
    required: bool,
    vendor: &Vendor,
    available: &Vec<String>,
    canonical: &C,
    env_var_names: &E,
) -> (result: Result<Vec<Provider>, ProviderConfigError>) where
    C: Fn(&str) -> Result<String, String>,
    E: Fn(&str) -> Vec<String>,

    requires
        can_ask(*canonical, *env_var_names),
    ensures
        builds(
            build_view(result),
            models_path@,
            models,
            required,
            all_builtin(vendor@).filter(runnable(texts(available@))),
            *canonical,
            *env_var_names,
        ),
{
    let providers: Vec<Provider> = builtin(vendor, available);
    match models {
        ModelsFile::Read(text) => match load_into(providers, &text, canonical, env_var_names) {
            Ok(list) => Ok(list),
            Err(message) => Err(
                ProviderConfigError::Invalid { path: models_path.to_owned(), message },
            ),
        },
        ModelsFile::Missing(source) => if required {
            Err(ProviderConfigError::Read { path: models_path.to_owned(), source })
        } else {
            Ok(providers)
        },
        ModelsFile::Unreadable(source) => Err(
            ProviderConfigError::Read { path: models_path.to_owned(), source },
        ),
    }
}

/// Builds the registry: the available built-in providers and the presets of an
/// optional models file. A file that is there and not valid is an error.
pub fn build<C, E>(
    models_path: &str,
    models: ModelsFile,
    vendor: &Vendor,
    available: &Vec<String>,
    canonical: &C,
    env_var_names: &E,
) -> (result: Result<Vec<Provider>, ProviderConfigError>) where
    C: Fn(&str) -> Result<String, String>,
    E: Fn(&str) -> Vec<String>,

    requires
        can_ask(*canonical, *env_var_names),
    ensures
        builds(
            build_view(result),
            models_path@,
            models,
            false,
            all_builtin(vendor@).filter(runnable(texts(available@))),
            *canonical,
            *env_var_names,
        ),
{
    build_with_requirement(
        models_path,
        models,
        false,
        vendor,
        available,
        canonical,
        env_var_names,
    )
}

/// Builds the registry with a models file that must exist.
pub fn build_required<C, E>(
    models_path: &str,
    models: ModelsFile,
    vendor: &Vendor,
    available: &Vec<String>,
    canonical: &C,
    env_var_names: &E,
) -> (result: Result<Vec<Provider>, ProviderConfigError>) where
    C: Fn(&str) -> Result<String, String>,
    E: Fn(&str) -> Vec<String>,

    requires
        can_ask(*canonical, *env_var_names),
    ensures
        builds(
            build_view(result),
            models_path@,
            models,
            true,
            all_builtin(vendor@).filter(runnable(texts(available@))),
            *canonical,
            *env_var_names,
        ),
{
    build_with_requirement(
        models_path,
        models,
        true,
        vendor,
        available,
        canonical,
        env_var_names,
    )
}

/// A registry, or the error in its place.
pub open spec fn providers_view(outcome: Result<Providers, ProviderConfigError>) -> Result<
    Seq<ProviderView>,
    ConfigErrorView,
> {
    match outcome {
        Ok(providers) => Ok(provider_views(providers.0@)),
        Err(error) => Err(error@),
    }
}

impl Providers {
    /// The registry with an optional models file.
    pub fn from_file<C, E>(
        path: &str,
        models: ModelsFile,
        vendor: &Vendor,
        available: &Vec<String>,
        canonical: &C,
        env_var_names: &E,
    ) -> (result: Result<Providers, ProviderConfigError>) where
        C: Fn(&str) -> Result<String, String>,
        E: Fn(&str) -> Vec<String>,

        requires
            can_ask(*canonical, *env_var_names),
        ensures
            builds(
                providers_view(result),
                path@,
                models,
                false,
                all_builtin(vendor@).filter(runnable(texts(available@))),
                *canonical,
                *env_var_names,
            ),
    {
        match build(path, models, vendor, available, canonical, env_var_names) {
            Ok(list) => Ok(Providers(list)),
            Err(error) => Err(error),
        }
    }

    /// The registry with a models file that must exist.
    pub fn from_required_file<C, E>(
        path: &str,
        models: ModelsFile,
        vendor: &Vendor,
        available: &Vec<String>,
        canonical: &C,
        env_var_names: &E,
    ) -> (result: Result<Providers, ProviderConfigError>) where
        C: Fn(&str) -> Result<String, String>,
        E: Fn(&str) -> Vec<String>,

        requires
            can_ask(*canonical, *env_var_names),
        ensures
            builds(
                providers_view(result),
                path@,
                models,
                true,
                all_builtin(vendor@).filter(runnable(texts(available@))),
                *canonical,
                *env_var_names,
            ),
    {
        match build_required(path, models, vendor, available, canonical, env_var_names) {
            Ok(list) => Ok(Providers(list)),
            Err(error) => Err(error),
        }
    }
}

// Saved connections.

/// The number of bytes that a text takes in UTF-8.
pub open spec fn utf8_len(s: Seq<char>) -> nat {
    vstd::utf8::encode_utf8(s).len()
}

/// The provider that a saved connection stands for, or why it stands for none.
pub open spec fn connection_provider(
    id: Seq<char>,
    label: Seq<char>,
    base_url: Result<Seq<char>, Seq<char>>,
    model: Seq<char>,
    vision: bool,
) -> Result<ProviderView, Seq<char>> {
    if !connection_id(id) {
        Err("invalid connection id"@)
    } else if blank(label) || utf8_len(trimmed(label)) > 80 {
        Err("connection name must be 1-80 characters"@)
    } else if blank(model) || utf8_len(trimmed(model)) > 200 {
        Err("model must be 1-200 characters"@)
    } else {
        match base_url {
            Err(message) => Err(message),
            Ok(base_url) => Ok(
                ProviderView {
                    id,
                    label: trimmed(label),
                    auth_note: "saved API connection · "@ + base_url,
                    backend: BackendView::OpenAi,
                    auth: AuthKind::ApiKey,
                    base_url: Some(base_url),
                    model: Some(trimmed(model)),
                    key_source: None,
                    env_vars: Seq::empty(),
                    vision,
                },
            ),
        }
    }
}

/// A provider, or why there is none.
pub open spec fn provider_outcome(outcome: Result<Provider, String>) -> Result<
    ProviderView,
    Seq<char>,
> {
    match outcome {
        Ok(provider) => Ok(provider@),
        Err(message) => Err(message@),
    }
}

impl Provider {
    /// A connection that the person saved. `base_url` is the canonical form of
    /// its endpoint, or why it has none.
    pub fn connection(
        id: String,
        label: &str,
        base_url: Result<String, String>,
        model: &str,
        vision: bool,
    ) -> (result: Result<Provider, String>)
        ensures
            provider_outcome(result) == connection_provider(
                id@,
                label@,
                canonical_view(base_url),
                model@,
                vision,
            ),
    {
        if !valid_connection_id(&id) {
            return Err("invalid connection id".to_owned());
        }
        let label: &str = trim(label);
        if label.is_empty() || label.as_bytes().len() > 80 {
            return Err("connection name must be 1-80 characters".to_owned());
        }
        let model: &str = trim(model);
        if model.is_empty() || model.as_bytes().len() > 200 {
            return Err("model must be 1-200 characters".to_owned());
        }
        let base_url: String = match base_url {
            Ok(base_url) => base_url,
            Err(message) => {
                return Err(message);
            },
        };
        let provider: Provider = Provider {
            id,
            label: label.to_owned(),
            auth_note: concat2("saved API connection · ", &base_url),
            backend: Backend::OpenAi,
            auth: AuthKind::ApiKey,
            base_url: Some(base_url),
            model: Some(model.to_owned()),
            key_source: None,
            env_vars: Vec::new(),
            vision,
        };
        proof {
            assert(provider@.env_vars =~= Seq::empty());
        }
        Ok(provider)
    }
}

/// One entry of the key store: its id and the settings that matter here, with
/// the canonical form of its endpoint or why it has none.
#[derive(Debug, PartialEq, Eq)]
pub struct SavedEntry {
    pub id: String,
    pub marker: Option<String>,
    pub label: Option<String>,
    pub base_url: Result<String, String>,
    pub model: Option<String>,
    pub vision: Option<String>,
}

/// A key store entry in contracts.
pub struct SavedView {
    pub id: Seq<char>,
    pub marker: Option<Seq<char>>,
    pub label: Option<Seq<char>>,
    pub base_url: Result<Seq<char>, Seq<char>>,
    pub model: Option<Seq<char>>,
    pub vision: Option<Seq<char>>,
}

impl View for SavedEntry {
    type V = SavedView;

    open spec fn view(&self) -> SavedView {
        SavedView {
            id: self.id@,
            marker: opt_text(self.marker),
            label: opt_text(self.label),
            base_url: canonical_view(self.base_url),
            model: opt_text(self.model),
            vision: opt_text(self.vision),
        }
    }
}

pub open spec fn saved_views(entries: Seq<SavedEntry>) -> Seq<SavedView> {
    Seq::new(entries.len(), |i: int| entries[i]@)
}

/// The provider that a key store entry stands for.
pub open spec fn saved_provider(entry: SavedView) -> Result<ProviderView, Seq<char>> {
    connection_provider(
        entry.id,
        text_or(entry.label, ""@),
        entry.base_url,
        text_or(entry.model, ""@),
        entry.vision == Some("true"@),
    )
}

/// A list in the order of the labels, small letters and capitals alike, with
/// one more provider behind those whose labels are not greater.
pub open spec fn insert_by_label(sorted: Seq<ProviderView>, provider: ProviderView) -> Seq<
    ProviderView,
>
    decreases sorted.len(),
{
    if sorted.len() == 0 || !text_before(
        lowercase(provider.label),
        lowercase(sorted.last().label),
    ) {
        sorted.push(provider)
    } else {
        insert_by_label(sorted.drop_last(), provider).push(sorted.last())
    }
}

/// The connections among the first `n` entries of the key store, in the order
/// of their labels, or why there are none.
pub open spec fn connections_among(entries: Seq<SavedView>, n: nat) -> Result<
    Seq<ProviderView>,
    Seq<char>,
>
    decreases n,
{
    if n == 0 {
        Ok(Seq::empty())
    } else {
        match connections_among(entries, (n - 1) as nat) {
            Err(message) => Err(message),
            Ok(list) => if entries[n - 1].marker != Some("true"@) {
                Ok(list)
            } else {
                match saved_provider(entries[n - 1]) {
                    Err(message) => Err(message),
                    Ok(provider) => Ok(insert_by_label(list, provider)),
                }
            },
        }
    }
}

proof fn lemma_connections_stop(entries: Seq<SavedView>, m: nat, n: nat)
    requires
        m <= n,
        connections_among(entries, m) is Err,
    ensures
        connections_among(entries, n) == connections_among(entries, m),
    decreases n - m,
{
    if m < n {
        lemma_connections_stop(entries, m, (n - 1) as nat);
    }
}

/// The place in a list of ordered keys behind those that are not greater.
pub open spec fn place(keys: Seq<Seq<char>>, key: Seq<char>) -> nat
    decreases keys.len(),
{
    if keys.len() == 0 || !text_before(key, keys.last()) {
        keys.len()
    } else {
        place(keys.drop_last(), key)
    }
}

/// Finds the place in a list of ordered keys behind those that are not greater.
pub fn place_of(keys: &Vec<String>, key: &str) -> (at: usize)
    ensures
        at == place(texts(keys@), key@),
        at <= keys@.len(),
{
    let ghost all = texts(keys@);
    let mut at: usize = keys.len();
    proof {
        assert(all.take(all.len() as int) =~= all);
    }
    while at > 0 && before(key, &keys[at - 1])
        invariant
            at <= keys@.len(),
            all == texts(keys@),
            place(all, key@) == place(all.take(at as int), key@),
        decreases at,
    {
        proof {
            assert(all.take(at as int).drop_last() =~= all.take(at - 1));
            assert(all.take(at as int).last() == all[at - 1]);
        }
        at -= 1;
    }
    proof {
        if at > 0 {
            assert(all.take(at as int).last() == all[at - 1]);
        }
    }
    at
}

/// The labels of some providers in small letters.
pub open spec fn label_keys(list: Seq<ProviderView>) -> Seq<Seq<char>> {
    Seq::new(list.len(), |i: int| lowercase(list[i].label))
}

proof fn lemma_insert_at_place(sorted: Seq<ProviderView>, provider: ProviderView)
    ensures
        place(label_keys(sorted), lowercase(provider.label)) <= sorted.len(),
        insert_by_label(sorted, provider) == sorted.insert(
            place(label_keys(sorted), lowercase(provider.label)) as int,
            provider,
        ),
    decreases sorted.len(),
{
    let keys = label_keys(sorted);
    let key = lowercase(provider.label);
    if sorted.len() == 0 || !text_before(key, keys.last()) {
        assert(sorted.insert(sorted.len() as int, provider) =~= sorted.push(provider));
    } else {
        let rest = sorted.drop_last();
        lemma_insert_at_place(rest, provider);
        assert(label_keys(rest) =~= keys.drop_last());
        let at = place(keys, key) as int;
        assert(rest.insert(at, provider).push(sorted.last()) =~= sorted.insert(at, provider));
    }
}

fn label_keys_of(list: &Vec<Provider>) -> (keys: Vec<String>)
    ensures
        texts(keys@) == label_keys(provider_views(list@)),
{
    let mut keys: Vec<String> = Vec::new();
    let ghost all = label_keys(provider_views(list@));
    let mut i: usize = 0;
    proof {
        assert(texts(keys@) =~= all.take(0));
    }
    while i < list.len()
        invariant
            i <= list@.len(),
            all == label_keys(provider_views(list@)),
            texts(keys@) == all.take(i as int),
        decreases list@.len() - i,
    {
        let ghost earlier = keys@;
        keys.push(to_lowercase(&list[i].label));
        proof {
            assert(texts(keys@) =~= texts(earlier).push(all[i as int]));
            assert(all.take(i + 1) =~= all.take(i as int).push(all[i as int]));
        }
        i += 1;
    }
    proof {
        assert(all.take(i as int) =~= all);
    }
    keys
}

fn insert_connection(sorted: &mut Vec<Provider>, provider: Provider)
    ensures
        provider_views(final(sorted)@) == insert_by_label(
            provider_views(old(sorted)@),
            provider@,
        ),
{
    let ghost all = provider_views(sorted@);
    let keys: Vec<String> = label_keys_of(sorted);
    let at: usize = place_of(&keys, &to_lowercase(&provider.label));
    proof {
        lemma_insert_at_place(all, provider@);
    }
    sorted.insert(at, provider);
    proof {
        assert(provider_views(sorted@) =~= all.insert(at as int, provider@));
    }
}

/// Restores the connections that the person saved, in the order of their
/// labels. One malformed connection is an error for all.
pub fn saved_connections(entries: Vec<SavedEntry>) -> (result: Result<Vec<Provider>, String>)
    ensures
        registry_view(result) == connections_among(saved_views(entries@), entries@.len()),
{
    let ghost all = saved_views(entries@);
    let mut rest: Vec<SavedEntry> = entries;
    let mut connections: Vec<Provider> = Vec::new();
    let ghost mut done: nat = 0;
    proof {
        assert(saved_views(rest@) =~= all.skip(0));
        assert(provider_views(connections@) =~= Seq::empty());
    }
    #[verifier::loop_isolation(false)]
    while rest.len() > 0
        invariant
            done <= all.len(),
            saved_views(rest@) == all.skip(done as int),
            connections_among(all, done) == Ok::<Seq<ProviderView>, Seq<char>>(
                provider_views(connections@),
            ),
        decreases rest@.len(),
    {
        let ghost earlier = rest@;
        let entry: SavedEntry = rest.remove(0);
        proof {
            assert(saved_views(earlier).len() == all.skip(done as int).len());
            assert(saved_views(earlier)[0] == all.skip(done as int)[0]);
            assert(saved_views(rest@) =~= saved_views(earlier).skip(1));
            assert(all.skip(done as int).skip(1) =~= all.skip((done + 1) as int));
            assert(entry@ == all[done as int]);
            done = done + 1;
        }
        if is_some_text(&entry.marker, "true") {
            let label: &str = match &entry.label {
                Some(label) => label.as_str(),
                None => "",
            };
            let model: &str = match &entry.model {
                Some(model) => model.as_str(),
                None => "",
            };
            let vision: bool = is_some_text(&entry.vision, "true");
            match Provider::connection(entry.id, label, entry.base_url, model, vision) {
                Ok(provider) => {
                    insert_connection(&mut connections, provider);
                },
                Err(message) => {
                    proof {
                        lemma_connections_stop(all, done, all.len());
                    }
                    return Err(message);
                },
            }
        }
    }
    proof {
        assert(all.skip(done as int).len() == 0);
    }
    Ok(connections)
}

// The provider to start with.

/// Which provider an explicit choice selects, or why it selects none.
pub open spec fn chosen_id(
    list: Seq<ProviderView>,
    raw: Seq<char>,
    empty: Seq<char>,
    unknown: Seq<char>,
) -> Result<Option<Seq<char>>, Seq<char>> {
    if blank(raw) {
        Err(empty)
    } else if !registered(list, trimmed(raw)) {
        Err(unknown)
    } else {
        Ok(Some(trimmed(raw)))
    }
}

/// The provider to start with: the environment's choice, else the
/// application's, else the first of the well-known ones that is there, else the
/// first of all. An explicit choice that cannot be met is an error.
pub open spec fn default_choice(
    list: Seq<ProviderView>,
    vendor: VendorView,
    preferred: Option<Seq<char>>,
    environment: Option<(Seq<char>, Seq<char>)>,
) -> Result<Option<Seq<char>>, Seq<char>> {
    match environment {
        Some((name, raw)) => chosen_id(
            list,
            raw,
            name + " must not be empty"@,
            name + " selects unknown provider `"@ + trimmed(raw) + "`"@,
        ),
        None => match preferred {
            Some(raw) => chosen_id(
                list,
                raw,
                "the configured default provider must not be empty"@,
                "configured default provider `"@ + trimmed(raw) + "` is not enabled"@,
            ),
            None => Ok(
                if registered(list, vendor.max_id()) {
                    Some(vendor.max_id())
                } else if registered(list, vendor.word) {
                    Some(vendor.word)
                } else if registered(list, "openai"@) {
                    Some("openai"@)
                } else if list.len() > 0 {
                    Some(list[0].id)
                } else {
                    None
                },
            ),
        },
    }
}

/// A choice of provider, or why there is none.
pub open spec fn choice_view(outcome: Result<Option<String>, String>) -> Result<
    Option<Seq<char>>,
    Seq<char>,
> {
    match outcome {
        Ok(id) => Ok(opt_text(id)),
        Err(message) => Err(message@),
    }
}

/// An environment variable's name and value.
pub open spec fn opt_pair(value: Option<(&str, &str)>) -> Option<(Seq<char>, Seq<char>)> {
    match value {
        Some((name, value)) => Some((name@, value@)),
        None => None,
    }
}

/// Chooses the provider to start with.
pub fn select_default_id(
    list: &Vec<Provider>,
    vendor: &Vendor,
    preferred: Option<&str>,
    environment: Option<(&str, &str)>,
) -> (result: Result<Option<String>, String>)
    ensures
        choice_view(result) == default_choice(
            provider_views(list@),
            vendor@,
            opt_str(preferred),
            opt_pair(environment),
        ),
{
    match environment {
        Some((name, raw)) => {
            let id: &str = trim(raw);
            if id.is_empty() {
                return Err(concat2(name, " must not be empty"));
            }
            if find(list, id).is_none() {
                return Err(concat4(name, " selects unknown provider `", id, "`"));
            }
            return Ok(Some(id.to_owned()));
        },
        None => {},
    }
    match preferred {
        Some(raw) => {
            let id: &str = trim(raw);
            if id.is_empty() {
                return Err("the configured default provider must not be empty".to_owned());
            }
            if find(list, id).is_none() {
                return Err(
                    concat3("configured default provider `", id, "` is not enabled"),
                );
            }
            return Ok(Some(id.to_owned()));
        },
        None => {},
    }
    let fastest: String = vendor.max_id();
    if find(list, &fastest).is_some() {
        return Ok(Some(fastest));
    }
    if find(list, &vendor.word).is_some() {
        return Ok(Some(vendor.word.clone()));
    }
    if find(list, "openai").is_some() {
        return Ok(Some("openai".to_owned()));
    }
    if list.len() > 0 {
        Ok(Some(list[0].id.clone()))
    } else {
        Ok(None)
    }
}

/// What an environment variable holds.
pub enum EnvValue {
    Unset,
    Text(String),
    NotUnicode,
}

/// The provider to start with, by the two variables that can name it, the
/// newer one first.
pub open spec fn environment_choice(
    list: Seq<ProviderView>,
    vendor: VendorView,
    preferred: Option<Seq<char>>,
    agui: EnvValue,
    canvas: EnvValue,
) -> Result<Option<Seq<char>>, Seq<char>> {
    match agui {
        EnvValue::Text(id) => default_choice(list, vendor, preferred, Some(("AGUI_PROVIDER"@, id@))),
        EnvValue::NotUnicode => Err("AGUI_PROVIDER"@ + " is not valid Unicode"@),
        EnvValue::Unset => match canvas {
            EnvValue::Text(id) => default_choice(list, vendor, preferred, Some(("CANVAS_PROVIDER"@, id@))),
            EnvValue::NotUnicode => Err("CANVAS_PROVIDER"@ + " is not valid Unicode"@),
            EnvValue::Unset => default_choice(list, vendor, preferred, None),
        },
    }
}

/// Chooses the provider to start with: what the environment names, then what
/// the application prefers, then the fallbacks.
pub fn default_id_with(
    list: &Vec<Provider>,
    vendor: &Vendor,
    preferred: Option<&str>,
    agui: &EnvValue,
    canvas: &EnvValue,
) -> (result: Result<Option<String>, String>)
    ensures
        choice_view(result) == environment_choice(
            provider_views(list@),
            vendor@,
            opt_str(preferred),
            *agui,
            *canvas,
        ),
{
    match agui {
        EnvValue::Text(id) => select_default_id(list, vendor, preferred, Some(("AGUI_PROVIDER", id.as_str()))),
        EnvValue::NotUnicode => Err(concat2("AGUI_PROVIDER", " is not valid Unicode")),
        EnvValue::Unset => match canvas {
            EnvValue::Text(id) => select_default_id(
                list,
                vendor,
                preferred,
                Some(("CANVAS_PROVIDER", id.as_str())),
            ),
            EnvValue::NotUnicode => Err(concat2("CANVAS_PROVIDER", " is not valid Unicode")),
            EnvValue::Unset => select_default_id(list, vendor, preferred, None),
        },
    }
}

/// Chooses the provider to start with, for an application without a
/// preference.
pub fn default_id(
    list: &Vec<Provider>,
    vendor: &Vendor,
    agui: &EnvValue,
    canvas: &EnvValue,
) -> (result: Result<Option<String>, String>)
    ensures
        choice_view(result) == environment_choice(
            provider_views(list@),
            vendor@,
            None,
            *agui,
            *canvas,
        ),
{
    default_id_with(list, vendor, None, agui, canvas)
}

// Laws.

/// Whether no two providers of a list have the same id.
pub open spec fn distinct_ids(list: Seq<ProviderView>) -> bool {
    forall|i: int, j: int|
        0 <= i < j < list.len() ==> (#[trigger] list[i]).id != (#[trigger] list[j]).id
}

proof fn lemma_short_is_no_connection(id: Seq<char>)
    requires
        id.len() <= 10,
    ensures
        !connection_id(id),
{
    reveal_strlit("connection-");
}

/// No two built-in providers have the same id, and none of them is mistaken for
/// a connection that the person saved.
pub proof fn law_builtin_providers_are_no_connections(vendor: VendorView)
    requires
        vendor.sound(),
    ensures
        distinct_ids(all_builtin(vendor)),
        forall|i: int|
            0 <= i < all_builtin(vendor).len() ==> !connection_id(
                (#[trigger] all_builtin(vendor)[i]).id,
            ),
{
    let all = all_builtin(vendor);
    let others = other_builtin_ids();
    let word = vendor.word;
    let fastest = vendor.max_id();
    reveal_strlit("-max");
    reveal_strlit("-");
    reveal_strlit("connection-");
    reveal_strlit("gemini");
    reveal_strlit("opencode");
    reveal_strlit("codex");
    reveal_strlit("pi");
    reveal_strlit("openai");
    assert(all.len() == 7);
    assert(all[0].id == fastest);
    assert(all[1].id == word);
    assert forall|i: int| 2 <= i < 7 implies (#[trigger] all[i]).id == others[i - 2] by {}
    assert("gemini"@[0] == 'g' && "opencode"@[0] == 'o' && "codex"@[0] == 'c' && "pi"@[0] == 'p'
        && "openai"@[0] == 'o');
    assert("opencode"@.len() != "openai"@.len());
    assert forall|i: int, j: int| 0 <= i < j < all.len() implies (#[trigger] all[i]).id != (
    #[trigger] all[j]).id by {
        if i == 0 && j == 1 {
            assert(fastest.len() == word.len() + 4);
        } else if i < 2 {
            assert(others[j - 2] == all[j].id);
            assert(others.contains(all[j].id));
        } else {
            assert(others[i - 2] == all[i].id && others[j - 2] == all[j].id);
        }
    }
    let prefix = "connection-"@;
    let hyphened = word + "-"@;
    if connection_id(word) {
        assert(hyphened.subrange(0, prefix.len() as int) =~= word.subrange(0, prefix.len() as int));
    }
    if connection_id(fastest) {
        assert(fastest.subrange(0, prefix.len() as int) =~= prefix);
        if word.len() < 10 {
            assert(fastest[word.len() as int] == '-');
            assert(fastest.subrange(0, prefix.len() as int)[word.len() as int] == '-');
            assert(prefix[word.len() as int] != '-');
        } else {
            assert(hyphened.subrange(0, prefix.len() as int) =~= fastest.subrange(
                0,
                prefix.len() as int,
            ));
        }
    }
    assert forall|i: int| 0 <= i < all.len() implies !connection_id((#[trigger] all[i]).id) by {
        if i >= 2 {
            assert(others[i - 2].len() <= 10);
            lemma_short_is_no_connection(others[i - 2]);
        }
    }
}

proof fn lemma_filter_distinct(list: Seq<ProviderView>, keep: spec_fn(ProviderView) -> bool)
    requires
        distinct_ids(list),
    ensures
        distinct_ids(list.filter(keep)),
        forall|i: int|
            0 <= i < list.filter(keep).len() ==> list.contains(#[trigger] list.filter(keep)[i]),
    decreases list.len(),
{
    reveal(Seq::filter);
    if list.len() > 0 {
        let rest = list.drop_last();
        let last = list.last();
        lemma_filter_distinct(rest, keep);
        let kept = rest.filter(keep);
        assert(list[list.len() - 1] == last);
        assert forall|i: int| 0 <= i < kept.len() implies list.contains(#[trigger] kept[i])
            && kept[i].id != last.id by {
            assert(rest.contains(kept[i]));
            let k = choose|k: int| 0 <= k < rest.len() && rest[k] == kept[i];
            assert(list[k] == kept[i]);
        }
        let result = list.filter(keep);
        assert forall|i: int| 0 <= i < result.len() implies list.contains(#[trigger] result[i]) by {
            if i < kept.len() {
                assert(result[i] == kept[i]);
            }
        }
        assert forall|i: int, j: int| 0 <= i < j < result.len() implies (#[trigger] result[i]).id
            != (#[trigger] result[j]).id by {
            assert(result[i] == kept[i]);
            if j < kept.len() {
                assert(result[j] == kept[j]);
            }
        }
    }
}

/// Loading presets keeps what was there, in place, and keeps ids distinct.
pub proof fn law_presets_keep_ids_distinct(
    start: Seq<ProviderView>,
    rows: Seq<JsonView>,
    lookups: Seq<LookupView>,
    n: nat,
)
    requires
        distinct_ids(start),
        loaded(start, rows, lookups, n) is Ok,
    ensures
        ({
            let list = loaded(start, rows, lookups, n)->Ok_0;
            &&& distinct_ids(list)
            &&& list.len() == start.len() + n
            &&& list.take(start.len() as int) == start
        }),
    decreases n,
{
    if n == 0 {
        assert(start.take(start.len() as int) =~= start);
    } else {
        law_presets_keep_ids_distinct(start, rows, lookups, (n - 1) as nat);
        let list = loaded(start, rows, lookups, (n - 1) as nat)->Ok_0;
        let provider = preset_provider(rows[n - 1], (n - 1) as nat, list, lookups[n - 1])->Ok_0;
        assert(!registered(list, provider.id));
        assert(list.push(provider).take(start.len() as int) =~= list.take(start.len() as int));
    }
}

/// No preset authenticates with a subscription's token.
pub proof fn law_presets_never_use_subscription_tokens(
    entry: JsonView,
    index: nat,
    taken: Seq<ProviderView>,
    lookup: LookupView,
)
    ensures
        preset_provider(entry, index, taken, lookup) matches Ok(provider) ==> provider.auth
            is ApiKey,
        entry.text_member("auth"@) == Some("oauth"@) ==> preset_provider(
            entry,
            index,
            taken,
            lookup,
        ) is Err,
{
}

/// A provider that is chosen is always one of the registry's, and an explicit
/// choice is met exactly or refused: it never falls through to another one.
pub proof fn law_explicit_selection_never_falls_through(
    list: Seq<ProviderView>,
    vendor: VendorView,
    preferred: Option<Seq<char>>,
    environment: Option<(Seq<char>, Seq<char>)>,
)
    ensures
        default_choice(list, vendor, preferred, environment) matches Ok(Some(id)) ==> registered(list, id),
        environment matches Some((_, raw)) ==> (match default_choice(
            list,
            vendor,
            preferred,
            environment,
        ) {
            Ok(id) => id == Some(trimmed(raw)),
            Err(_) => blank(raw) || !registered(list, trimmed(raw)),
        }),
        environment is None && preferred is Some ==> (match default_choice(
            list,
            vendor,
            preferred,
            environment,
        ) {
            Ok(id) => id == Some(trimmed(preferred->0)),
            Err(_) => blank(preferred->0) || !registered(list, trimmed(preferred->0)),
        }),
        environment is None && preferred is None ==> (default_choice(
            list,
            vendor,
            preferred,
            environment,
        ) matches Ok(id) && (id is None <==> list.len() == 0)),
{
    if list.len() > 0 {
        assert(list[0].id == list[0].id);
        assert(registered(list, list[0].id));
    }
}

/// Whether a list stands in the order of its labels.
pub open spec fn sorted_by_label(list: Seq<ProviderView>) -> bool {
    forall|i: int, j: int|
        0 <= i < j < list.len() ==> !text_before(
            lowercase((#[trigger] list[j]).label),
            lowercase((#[trigger] list[i]).label),
        )
}

proof fn lemma_insert_by_label(sorted: Seq<ProviderView>, provider: ProviderView)
    requires
        sorted_by_label(sorted),
    ensures
        sorted_by_label(insert_by_label(sorted, provider)),
        insert_by_label(sorted, provider).len() == sorted.len() + 1,
        insert_by_label(sorted, provider).to_multiset() =~= sorted.to_multiset().insert(provider),
        forall|i: int|
            0 <= i < insert_by_label(sorted, provider).len() ==> {
                let item = #[trigger] insert_by_label(sorted, provider)[i];
                item == provider || sorted.contains(item)
            },
    decreases sorted.len(),
{
    broadcast use vstd::seq_lib::group_to_multiset_ensures;

    let result = insert_by_label(sorted, provider);
    if sorted.len() == 0 {
    } else if !text_before(lowercase(provider.label), lowercase(sorted.last().label)) {
        let top = lowercase(sorted.last().label);
        let key = lowercase(provider.label);
        assert forall|i: int, j: int| 0 <= i < j < result.len() implies !text_before(
            lowercase((#[trigger] result[j]).label),
            lowercase((#[trigger] result[i]).label),
        ) by {
            if j == sorted.len() && i < sorted.len() - 1 {
                let low = lowercase(sorted[i].label);
                assert(!text_before(top, low));
                if text_before(key, low) {
                    crate::text::lemma_before_total(key, top);
                    if text_before(top, key) {
                        crate::text::lemma_before_transitive(top, key, low);
                    }
                }
            }
        }
        assert forall|i: int| 0 <= i < result.len() implies {
            let item = #[trigger] result[i];
            item == provider || sorted.contains(item)
        } by {
            if i < sorted.len() {
                assert(sorted.contains(sorted[i]));
            }
        }
    } else {
        let rest = sorted.drop_last();
        let inner = insert_by_label(rest, provider);
        lemma_insert_by_label(rest, provider);
        let top = lowercase(sorted.last().label);
        assert forall|i: int| 0 <= i < inner.len() implies !text_before(
            top,
            lowercase((#[trigger] inner[i]).label),
        ) by {
            let item = inner[i];
            if item == provider {
                if text_before(top, lowercase(provider.label)) {
                    crate::text::lemma_before_transitive(top, lowercase(provider.label), top);
                    crate::text::lemma_before_irreflexive(top);
                }
            } else {
                assert(rest.contains(item));
                let k = choose|k: int| 0 <= k < rest.len() && rest[k] == item;
                assert(sorted[k] == item);
                assert(sorted[sorted.len() - 1] == sorted.last());
            }
        }
        assert forall|i: int, j: int| 0 <= i < j < result.len() implies !text_before(
            lowercase((#[trigger] result[j]).label),
            lowercase((#[trigger] result[i]).label),
        ) by {
            if j < inner.len() {
                assert(result[j] == inner[j]);
            }
            assert(result[i] == inner[i]);
        }
        assert forall|i: int| 0 <= i < result.len() implies {
            let item = #[trigger] result[i];
            item == provider || sorted.contains(item)
        } by {
            if i < inner.len() {
                assert(result[i] == inner[i]);
                if inner[i] != provider {
                    let k = choose|k: int| 0 <= k < rest.len() && rest[k] == inner[i];
                    assert(sorted[k] == inner[i]);
                }
            } else {
                assert(sorted[sorted.len() - 1] == sorted.last());
            }
        }
        assert(sorted =~= rest.push(sorted.last()));
        assert(result.to_multiset() =~= inner.to_multiset().insert(sorted.last()));
        assert(sorted.to_multiset() =~= rest.to_multiset().insert(sorted.last()));
    }
}

/// Which entries of the key store are connections.
pub open spec fn is_marked() -> spec_fn(SavedView) -> bool {
    |entry: SavedView| entry.marker == Some("true"@)
}

/// The connection that a key store entry stands for.
pub open spec fn saved_connection() -> spec_fn(SavedView) -> ProviderView {
    |entry: SavedView| saved_provider(entry)->Ok_0
}

/// Restored connections stand in the order of their labels, each of them has a
/// connection id and no copy of its key, and they are exactly those that the
/// marked entries stand for, as often as they stand for them.
pub proof fn law_saved_connections_are_sorted_and_hold_no_key(entries: Seq<SavedView>, n: nat)
    requires
        n <= entries.len(),
        connections_among(entries, n) is Ok,
    ensures
        ({
            let list = connections_among(entries, n)->Ok_0;
            &&& sorted_by_label(list)
            &&& list.len() == entries.take(n as int).filter(is_marked()).len()
            &&& list.to_multiset() == entries.take(n as int).filter(is_marked()).map_values(
                saved_connection(),
            ).to_multiset()
            &&& forall|i: int|
                0 <= i < n && (#[trigger] entries[i]).marker == Some("true"@) ==> saved_provider(
                    entries[i],
                ) is Ok
            &&& forall|i: int|
                0 <= i < list.len() ==> connection_id((#[trigger] list[i]).id) && list[i].key_source
                    is None && list[i].env_vars.len() == 0 && list[i].auth is ApiKey
        }),
    decreases n,
{
    broadcast use vstd::seq_lib::group_to_multiset_ensures;

    let marked = is_marked();
    let made = saved_connection();
    if n == 0 {
        reveal(Seq::filter);
        assert(entries.take(0) =~= Seq::empty());
        assert(entries.take(0).filter(marked).map_values(made) =~= Seq::empty());
    } else {
        law_saved_connections_are_sorted_and_hold_no_key(entries, (n - 1) as nat);
        lemma_filter_next(entries, marked, n - 1);
        let before = connections_among(entries, (n - 1) as nat)->Ok_0;
        if entries[n - 1].marker == Some("true"@) {
            let provider = saved_provider(entries[n - 1])->Ok_0;
            lemma_insert_by_label(before, provider);
            let list = insert_by_label(before, provider);
            let earlier = entries.take(n - 1).filter(marked);
            assert(earlier.push(entries[n - 1]).map_values(made) =~= earlier.map_values(made).push(
                provider,
            ));
            assert forall|i: int| 0 <= i < list.len() implies connection_id((#[trigger] list[i]).id)
                && list[i].key_source is None && list[i].env_vars.len() == 0 && list[i].auth
                is ApiKey by {
                if list[i] != provider {
                    let k = choose|k: int| 0 <= k < before.len() && before[k] == list[i];
                    assert(connection_id(before[k].id));
                }
            }
        }
    }
}

} // verus!
