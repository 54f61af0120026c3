//! Which requests are let in, and whom their credentials speak for.

use vstd::prelude::*;

use crate::caller::{establish_caller, established_caller, Caller};
use crate::text::{
    ascii_lowered, begins_with, chars_of, concat2, decimal, same, split, split_first, split_on,
    split_once, strip_prefix, texts, to_ascii_lowercase, to_decimal, trim, trimmed,
};

verus! {

/// One header of a request: its lower-case name, and its value where that is
/// plain text.
#[derive(Debug, PartialEq, Eq)]
pub struct HeaderField {
    pub name: String,
    pub value: Option<String>,
}

/// The headers of a request, in order.
#[derive(Debug, PartialEq, Eq)]
pub struct Headers {
    pub fields: Vec<HeaderField>,
}

/// One header in contracts.
pub struct FieldView {
    pub name: Seq<char>,
    pub value: Option<Seq<char>>,
}

impl View for Headers {
    type V = Seq<FieldView>;

    open spec fn view(&self) -> Seq<FieldView> {
        Seq::new(
            self.fields@.len(),
            |i: int|
                FieldView {
                    name: self.fields@[i].name@,
                    value: crate::text::opt_text(self.fields@[i].value),
                },
        )
    }
}

/// The first header of that name, with its value where that is plain text.
pub open spec fn first_field(headers: Seq<FieldView>, name: Seq<char>) -> Option<FieldView>
    decreases headers.len(),
{
    if headers.len() == 0 {
        None
    } else if headers[0].name == name {
        Some(headers[0])
    } else {
        first_field(headers.skip(1), name)
    }
}

/// The value of the first header of that name, where it is plain text.
pub open spec fn field_text(headers: Seq<FieldView>, name: Seq<char>) -> Option<Seq<char>> {
    match first_field(headers, name) {
        Some(field) => field.value,
        None => None,
    }
}

impl Headers {
    /// The first header of that name.
    pub fn first(&self, name: &str) -> (result: Option<&HeaderField>)
        ensures
            match result {
                Some(field) => first_field(self@, name@) == Some(
                    FieldView { name: field.name@, value: crate::text::opt_text(field.value) },
                ),
                None => first_field(self@, name@) is None,
            },
    {
        let ghost all = self@;
        let mut i: usize = 0;
        proof {
            assert(all.skip(0) =~= all);
        }
        while i < self.fields.len()
            invariant
                i <= self.fields@.len(),
                all == self@,
                first_field(all, name@) == first_field(all.skip(i as int), name@),
            decreases self.fields@.len() - i,
        {
            if same(&self.fields[i].name, name) {
                return Some(&self.fields[i]);
            }
            proof {
                assert(all.skip(i as int).skip(1) =~= all.skip(i + 1));
            }
            i += 1;
        }
        None
    }

    /// The value of the first header of that name, where it is plain text.
    pub fn text(&self, name: &str) -> (result: Option<&str>)
        ensures
            match result {
                Some(text) => field_text(self@, name@) == Some(text@),
                None => field_text(self@, name@) is None,
            },
    {
        match self.first(name) {
            Some(field) => match &field.value {
                Some(text) => Some(text.as_str()),
                None => None,
            },
            None => None,
        }
    }

    /// Whether there is a header of that name.
    pub fn contains(&self, name: &str) -> (result: bool)
        ensures
            result == (first_field(self@, name@) is Some),
    {
        self.first(name).is_some()
    }

    /// Whether the first header of that name has exactly that value.
    pub fn is(&self, name: &str, expected: &str) -> (result: bool)
        ensures
            result == (field_text(self@, name@) == Some(expected@)),
    {
        match self.text(name) {
            Some(text) => same(text, expected),
            None => false,
        }
    }
}

/// The authorities that a listener on the loopback address answers to.
pub open spec fn loopback_authority(authority: Seq<char>, port: u16) -> bool {
    ||| authority == "127.0.0.1:"@ + decimal(port as nat)
    ||| ascii_lowered(authority) == ascii_lowered("localhost:"@ + decimal(port as nat))
}

/// The origins that a page served by the loopback listener has.
pub open spec fn loopback_origin(origin: Seq<char>, port: u16) -> bool {
    ||| origin == "http://"@ + ("127.0.0.1:"@ + decimal(port as nat))
    ||| ascii_lowered(origin) == ascii_lowered("http://"@ + ("localhost:"@ + decimal(port as nat)))
}

/// A request that addresses the listener by its own authority and, where it
/// names an origin, comes from a page of the listener's own.
pub open spec fn loopback_request(headers: Seq<FieldView>, port: u16) -> bool {
    &&& field_text(headers, "host"@) matches Some(host) && loopback_authority(host, port)
    &&& match first_field(headers, "origin"@) {
        None => true,
        Some(field) => field.value matches Some(origin) && loopback_origin(origin, port),
    }
}

fn equal_ignoring_case(a: &str, b: &str) -> (equal: bool)
    ensures
        equal == (ascii_lowered(a@) == ascii_lowered(b@)),
{
    same(&to_ascii_lowercase(a), &to_ascii_lowercase(b))
}

/// Whether a request addresses the loopback listener and comes from nowhere
/// else.
pub fn loopback_request_headers_allowed(headers: &Headers, port: u16) -> (allowed: bool)
    ensures
        allowed == loopback_request(headers@, port),
{
    let number: String = to_decimal(port as u64);
    let ipv4_authority: String = concat2("127.0.0.1:", &number);
    let localhost_authority: String = concat2("localhost:", &number);
    let host_allowed: bool = match headers.text("host") {
        Some(host) => same(host, &ipv4_authority) || equal_ignoring_case(
            host,
            &localhost_authority,
        ),
        None => false,
    };
    if !host_allowed {
        return false;
    }
    match headers.first("origin") {
        None => true,
        Some(field) => match &field.value {
            Some(origin) => same(origin, &concat2("http://", &ipv4_authority))
                || equal_ignoring_case(origin, &concat2("http://", &localhost_authority)),
            None => false,
        },
    }
}

/// Whether one of the comma-separated media types is exactly the given one.
pub open spec fn accepts(list: Seq<char>, kind: Seq<char>) -> bool {
    exists|k: int|
        0 <= k < split_on(list, ',').len() && trimmed(#[trigger] split_on(list, ',')[k]) == kind
}

/// A document navigation that the person started.
pub open spec fn human_navigation(get: bool, headers: Seq<FieldView>) -> bool {
    &&& get
    &&& field_text(headers, "sec-fetch-mode"@) == Some("navigate"@)
    &&& field_text(headers, "sec-fetch-dest"@) == Some("document"@)
    &&& field_text(headers, "sec-fetch-user"@) == Some("?1"@)
    &&& field_text(headers, "accept"@) matches Some(list) && accepts(list, "text/html"@)
}

fn accepts_html(list: &str) -> (result: bool)
    ensures
        result == accepts(list@, "text/html"@),
{
    let kinds: Vec<String> = split(list, ',');
    let mut k: usize = 0;
    while k < kinds.len()
        invariant
            k <= kinds@.len(),
            texts(kinds@) == split_on(list@, ','),
            forall|j: int|
                0 <= j < k ==> trimmed(#[trigger] split_on(list@, ',')[j]) != "text/html"@,
        decreases kinds@.len() - k,
    {
        let html: bool = same(trim(&kinds[k]), "text/html");
        proof {
            assert(texts(kinds@)[k as int] == kinds@[k as int]@);
        }
        if html {
            proof {
                assert(trimmed(split_on(list@, ',')[k as int]) == "text/html"@);
            }
            return true;
        }
        k += 1;
    }
    false
}

/// Whether a request is a document navigation that the person started, after
/// which a browser session counts as human.
pub fn human_navigation_request(get: bool, headers: &Headers) -> (human: bool)
    ensures
        human == human_navigation(get, headers@),
{
    get && headers.is("sec-fetch-mode", "navigate") && headers.is("sec-fetch-dest", "document")
        && headers.is("sec-fetch-user", "?1") && match headers.text("accept") {
        Some(list) => accepts_html(list),
        None => false,
    }
}

/// The name of the cookie that proves a human browser session.
pub open spec fn human_cookie() -> Seq<char> {
    "agui_human_route_session"@
}

/// The cookie that a successful human navigation is answered with.
pub open spec fn human_cookie_text(token: Seq<char>) -> Seq<char> {
    human_cookie() + "="@ + token + "; Path=/; HttpOnly; SameSite=Strict"@
}

/// The cookie that a successful human navigation is answered with.
pub fn human_route_cookie(token: &str) -> (cookie: String)
    ensures
        cookie@ == human_cookie_text(token@),
{
    crate::text::concat4(
        "agui_human_route_session",
        "=",
        token,
        "; Path=/; HttpOnly; SameSite=Strict",
    )
}

/// Whether a response carries the human session cookie: the credential is in
/// use, the request was a human navigation, and it succeeded.
pub fn issues_human_cookie(enabled: bool, navigation: bool, status: u16) -> (issues: bool)
    ensures
        issues == (enabled && navigation && 200 <= status <= 299),
{
    enabled && navigation && 200 <= status && status <= 299
}

/// Whether a cookie header holds the given name with the given value.
pub open spec fn holds_cookie(cookies: Seq<char>, name: Seq<char>, value: Seq<char>) -> bool {
    exists|k: int|
        0 <= k < split_on(cookies, ';').len() && split_first(
            trimmed(#[trigger] split_on(cookies, ';')[k]),
            '=',
        ) == Some((name, value))
}

/// Whether any cookie header holds the given name with the given value.
pub open spec fn presents_cookie(headers: Seq<FieldView>, name: Seq<char>, value: Seq<char>) -> bool {
    exists|i: int|
        0 <= i < headers.len() && (#[trigger] headers[i]).name == "cookie"@ && (
        headers[i].value matches Some(cookies) && holds_cookie(cookies, name, value))
}

fn cookie_text_matches(cookies: &str, name: &str, expected: &str) -> (result: bool)
    ensures
        result == holds_cookie(cookies@, name@, expected@),
{
    let pieces: Vec<String> = split(cookies, ';');
    let mut k: usize = 0;
    while k < pieces.len()
        invariant
            k <= pieces@.len(),
            texts(pieces@) == split_on(cookies@, ';'),
            forall|j: int|
                0 <= j < k ==> split_first(trimmed(#[trigger] split_on(cookies@, ';')[j]), '=')
                    != Some((name@, expected@)),
        decreases pieces@.len() - k,
    {
        proof {
            assert(texts(pieces@)[k as int] == pieces@[k as int]@);
        }
        match split_once(trim(&pieces[k]), '=') {
            Some((candidate, value)) => if same(candidate, name) && same(value, expected) {
                proof {
                    assert(split_first(trimmed(split_on(cookies@, ';')[k as int]), '=') == Some(
                        (name@, expected@),
                    ));
                }
                return true;
            },
            None => {},
        }
        k += 1;
    }
    false
}

/// Whether any cookie header holds the given name with the given value.
pub fn cookie_matches(headers: &Headers, name: &str, expected: &str) -> (result: bool)
    ensures
        result == presents_cookie(headers@, name@, expected@),
{
    let mut i: usize = 0;
    while i < headers.fields.len()
        invariant
            i <= headers.fields@.len(),
            forall|k: int|
                0 <= k < i ==> !((#[trigger] headers@[k]).name == "cookie"@ && (
                headers@[k].value matches Some(cookies) && holds_cookie(cookies, name@, expected@))),
        decreases headers.fields@.len() - i,
    {
        if same(&headers.fields[i].name, "cookie") {
            match &headers.fields[i].value {
                Some(cookies) => if cookie_text_matches(cookies, name, expected) {
                    proof {
                        assert(headers@[i as int].name == "cookie"@);
                    }
                    return true;
                },
                None => {},
            }
        }
        i += 1;
    }
    false
}

/// The value of the first of the given cookies that has the given name.
pub open spec fn cookie_among(pieces: Seq<Seq<char>>, name: Seq<char>) -> Option<Seq<char>>
    decreases pieces.len(),
{
    if pieces.len() == 0 {
        None
    } else {
        match split_first(pieces[0], '=') {
            Some((key, value)) => if trimmed(key) == name {
                Some(trimmed(value))
            } else {
                cookie_among(pieces.skip(1), name)
            },
            None => cookie_among(pieces.skip(1), name),
        }
    }
}

/// The value of a cookie in the first cookie header.
pub open spec fn cookie_of(headers: Seq<FieldView>, name: Seq<char>) -> Option<Seq<char>> {
    match field_text(headers, "cookie"@) {
        Some(cookies) => cookie_among(split_on(cookies, ';'), name),
        None => None,
    }
}

/// The value of a cookie in the first cookie header.
pub fn cookie_value(headers: &Headers, name: &str) -> (result: Option<String>)
    ensures
        crate::text::opt_text(result) == cookie_of(headers@, name@),
{
    let cookies: &str = match headers.text("cookie") {
        Some(cookies) => cookies,
        None => {
            return None;
        },
    };
    let pieces: Vec<String> = split(cookies, ';');
    let ghost all = split_on(cookies@, ';');
    let mut k: usize = 0;
    proof {
        assert(all.skip(0) =~= all);
    }
    while k < pieces.len()
        invariant
            k <= pieces@.len(),
            texts(pieces@) == all,
            field_text(headers@, "cookie"@) == Some(cookies@),
            all == split_on(cookies@, ';'),
            cookie_among(all, name@) == cookie_among(all.skip(k as int), name@),
        decreases pieces@.len() - k,
    {
        proof {
            assert(all[k as int] == pieces@[k as int]@);
            assert(all.skip(k as int).skip(1) =~= all.skip(k + 1));
        }
        match split_once(&pieces[k], '=') {
            Some((key, value)) => if same(trim(key), name) {
                return Some(trim(value).to_owned());
            },
            None => {},
        }
        k += 1;
    }
    None
}

/// Whether a request carries the agent's bearer token.
pub open spec fn bears_token(headers: Seq<FieldView>, token: Seq<char>) -> bool {
    field_text(headers, "authorization"@) == Some("Bearer "@ + token)
}

/// Whether a request carries the agent's bearer token.
pub fn authorized(headers: &Headers, token: &str) -> (result: bool)
    ensures
        result == bears_token(headers@, token@),
{
    headers.is("authorization", &concat2("Bearer ", token))
}

/// An origin under one scheme and host, with or without a port.
pub open spec fn origin_under(origin: Seq<char>, prefix: Seq<char>) -> bool {
    &&& begins_with(origin, prefix)
    &&& prefix.len() < origin.len() ==> origin[prefix.len() as int] == ':'
}

/// A request without an origin, or with one on this machine.
pub open spec fn local_origin(headers: Seq<FieldView>) -> bool {
    match first_field(headers, "origin"@) {
        None => true,
        Some(field) => field.value matches Some(origin) && {
            ||| origin_under(origin, "http://localhost"@)
            ||| origin_under(origin, "https://localhost"@)
            ||| origin_under(origin, "http://127.0.0.1"@)
            ||| origin_under(origin, "https://127.0.0.1"@)
            ||| origin_under(origin, "http://[::1]"@)
            ||| origin_under(origin, "https://[::1]"@)
        },
    }
}

fn is_origin_under(origin: &str, prefix: &str) -> (result: bool)
    ensures
        result == origin_under(origin@, prefix@),
{
    match strip_prefix(origin, prefix) {
        Some(rest) => {
            let chars: Vec<char> = chars_of(rest);
            proof {
                if rest@.len() > 0 {
                    assert(rest@[0] == origin@[prefix@.len() as int]);
                }
            }
            chars.len() == 0 || chars[0] == ':'
        },
        None => false,
    }
}

/// Whether a request without an origin, or with one on this machine, may go on.
pub fn origin_allowed(headers: &Headers) -> (allowed: bool)
    ensures
        allowed == local_origin(headers@),
{
    match headers.first("origin") {
        None => true,
        Some(field) => match &field.value {
            Some(origin) => is_origin_under(origin, "http://localhost") || is_origin_under(
                origin,
                "https://localhost",
            ) || is_origin_under(origin, "http://127.0.0.1") || is_origin_under(
                origin,
                "https://127.0.0.1",
            ) || is_origin_under(origin, "http://[::1]") || is_origin_under(
                origin,
                "https://[::1]",
            ),
            None => false,
        },
    }
}

/// The caller that a request's headers establish.
pub open spec fn caller_of(
    headers: Seq<FieldView>,
    agent_token: Seq<char>,
    human_token: Seq<char>,
) -> Caller {
    established_caller(
        first_field(headers, "authorization"@) is Some,
        bears_token(headers, agent_token),
        presents_cookie(headers, human_cookie(), human_token),
    )
}

/// The caller that a request's headers establish.
pub fn action_route_caller(headers: &Headers, agent_token: &str, human_token: &str) -> (caller:
    Caller)
    ensures
        caller == caller_of(headers@, agent_token@, human_token@),
{
    establish_caller(
        headers.contains("authorization"),
        authorized(headers, agent_token),
        cookie_matches(headers, "agui_human_route_session", human_token),
    )
}

/// Whether a browser's origin may open the binary state transport: the same
/// ones that may reach the agents' endpoint. A client that is no browser has
/// none.
pub fn websocket_origin_allowed(headers: &Headers) -> (allowed: bool)
    ensures
        allowed == local_origin(headers@),
{
    origin_allowed(headers)
}

/// What a request from elsewhere is told, with its status.
pub fn refuse_request(headers: &Headers, port: u16) -> (refusal: Option<(u16, &'static str)>)
    ensures
        match refusal {
            Some((status, text)) => !loopback_request(headers@, port) && status == 403 && text@
                == "untrusted request authority or Origin"@,
            None => loopback_request(headers@, port),
        },
{
    if loopback_request_headers_allowed(headers, port) {
        None
    } else {
        Some((403, "untrusted request authority or Origin"))
    }
}

/// Whether a request may open the binary state transport: it comes from this
/// machine and, where the human credential is in use, it presents it or the
/// token of an admitted person.
pub enum ReplicaGate {
    Open,
    UntrustedOrigin,
    CredentialRequired,
}

/// Whether a request may open the binary state transport.
pub fn websocket_gate(
    headers: &Headers,
    credential_enabled: bool,
    human_token: &str,
    person_known: bool,
) -> (gate: ReplicaGate)
    ensures
        gate is UntrustedOrigin <==> !local_origin(headers@),
        gate is CredentialRequired <==> local_origin(headers@) && credential_enabled
            && !presents_cookie(headers@, human_cookie(), human_token@) && !person_known,
{
    if !origin_allowed(headers) {
        ReplicaGate::UntrustedOrigin
    } else if credential_enabled && !cookie_matches(
        headers,
        "agui_human_route_session",
        human_token,
    ) && !person_known {
        ReplicaGate::CredentialRequired
    } else {
        ReplicaGate::Open
    }
}

/// An agent's bearer token never establishes the person, whatever else the
/// request carries.
pub proof fn law_an_agent_token_never_establishes_the_person(
    headers: Seq<FieldView>,
    agent_token: Seq<char>,
    human_token: Seq<char>,
)
    requires
        bears_token(headers, agent_token),
    ensures
        !(caller_of(headers, agent_token, human_token) is Human),
{
}

/// A request without any credential establishes nobody.
pub proof fn law_no_credential_establishes_nobody(
    headers: Seq<FieldView>,
    agent_token: Seq<char>,
    human_token: Seq<char>,
)
    requires
        first_field(headers, "authorization"@) is None,
        !presents_cookie(headers, human_cookie(), human_token),
    ensures
        caller_of(headers, agent_token, human_token) is Unknown,
{
}

} // verus!
