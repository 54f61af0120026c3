//! Who is let in, under which name, and with what: what holds of every request.

use vstd::prelude::*;

use crate::actions::{find_action, ActionView};
use crate::activity::RecordView;
use crate::caller::{narrowed_caller, Caller};
use crate::gate::{
    caller_of, cookie_among, cookie_of, field_text, first_field, holds_cookie, human_cookie,
    human_cookie_text, human_navigation, local_origin, loopback_authority, loopback_origin,
    loopback_request, origin_under, presents_cookie, FieldView,
};
use crate::json::{empty_object, group_reading, JsonView};
use crate::routes::{
    admission_of, content_type, decoded_body, error_body, goes_out, json_body, refusal_body,
    route_step, AdmissionView, BodyView, ReplyView, RouteResponse, StepView, WireResponse,
};
use crate::text::{ascii_lowered, decimal, split_first, split_on, trimmed};
use crate::text_laws::{
    law_a_decimal_is_read_back, law_only_capitals_are_made_small,
    law_splitting_once_cuts_at_the_first, law_trimming_takes_the_surrounding_space,
    law_trimming_twice_is_trimming, mentions, snug,
};
use crate::turns::person_cookie_text;

verus! {

// Headers.

/// A header is found by its name: the first of that name, and none exactly where
/// no header has it.
pub proof fn law_the_first_header_of_a_name_counts(headers: Seq<FieldView>, name: Seq<char>)
    ensures
        first_field(headers, name) is None <==> forall|i: int|
            0 <= i < headers.len() ==> (#[trigger] headers[i]).name != name,
        first_field(headers, name) matches Some(field) ==> exists|i: int|
            0 <= i < headers.len() && #[trigger] headers[i] == field && field.name == name && (
            forall|j: int| 0 <= j < i ==> (#[trigger] headers[j]).name != name),
    decreases headers.len(),
{
    if headers.len() > 0 {
        let rest = headers.skip(1);
        if headers[0].name == name {
            assert(headers[0].name == name);
            assert(first_field(headers, name) == Some(headers[0]));
        } else {
            law_the_first_header_of_a_name_counts(rest, name);
            if first_field(headers, name) is Some {
                let field = first_field(headers, name)->0;
                let i = choose|i: int|
                    0 <= i < rest.len() && #[trigger] rest[i] == field && field.name == name && (
                    forall|j: int| 0 <= j < i ==> (#[trigger] rest[j]).name != name);
                assert(headers[i + 1] == field);
                assert forall|j: int| 0 <= j < i + 1 implies (#[trigger] headers[j]).name
                    != name by {
                    if j > 0 {
                        assert(rest[j - 1].name != name);
                    }
                }
            } else {
                assert forall|i: int| 0 <= i < headers.len() implies (#[trigger] headers[i]).name
                    != name by {
                    if i > 0 {
                        assert(rest[i - 1].name != name);
                    }
                }
            }
        }
    }
}

// Credentials.

/// A request that bears the agent's token, and no human cookie, comes from the
/// agent; one with the human cookie, and no authorization at all, comes from the
/// person.
pub proof fn law_a_credential_establishes_its_owner(
    headers: Seq<FieldView>,
    agent_token: Seq<char>,
    human_token: Seq<char>,
)
    ensures
        ({
            let human = presents_cookie(headers, "agui_human_route_session"@, human_token);
            let bears = field_text(headers, "authorization"@) == Some("Bearer "@ + agent_token);
            &&& bears && !human ==> caller_of(headers, agent_token, human_token) == Caller::Agent
            &&& human && first_field(headers, "authorization"@) is None ==> caller_of(
                headers,
                agent_token,
                human_token,
            ) == Caller::Human
            &&& caller_of(headers, agent_token, human_token) == Caller::Human ==> human
            &&& caller_of(headers, agent_token, human_token) == Caller::Agent ==> bears
            &&& caller_of(headers, agent_token, human_token) != Caller::Companion
        }),
{
}

proof fn lemma_split_none(s: Seq<char>, sep: char)
    requires
        !s.contains(sep),
    ensures
        split_on(s, sep) == seq![s],
    decreases s.len(),
{
    if s.len() == 0 {
        assert(s =~= Seq::empty());
    } else {
        let rest = s.drop_last();
        assert(!rest.contains(sep)) by {
            if rest.contains(sep) {
                let k = choose|k: int| 0 <= k < rest.len() && rest[k] == sep;
                assert(s[k] == sep);
            }
        }
        assert(s[s.len() - 1] == s.last());
        lemma_split_none(rest, sep);
        assert(rest.push(s.last()) =~= s);
        assert(split_on(s, sep) =~= seq![s]);
    }
}

proof fn lemma_split_head(a: Seq<char>, b: Seq<char>, sep: char)
    requires
        !a.contains(sep),
    ensures
        split_on(a + seq![sep] + b, sep).len() > 1,
        split_on(a + seq![sep] + b, sep)[0] == a,
    decreases b.len(),
{
    let s = a + seq![sep] + b;
    if b.len() == 0 {
        lemma_split_none(a, sep);
        assert(s.drop_last() =~= a);
    } else {
        lemma_split_head(a, b.drop_last(), sep);
        assert(s.drop_last() =~= a + seq![sep] + b.drop_last());
    }
}

proof fn lemma_split_first_of(head: Seq<char>, tail: Seq<char>, sep: char)
    requires
        !head.contains(sep),
    ensures
        split_first(head + seq![sep] + tail, sep) == Some((head, tail)),
{
    let s = head + seq![sep] + tail;
    law_splitting_once_cuts_at_the_first(s, sep);
    assert(s[head.len() as int] == sep);
    assert(s.contains(sep));
    let (h, t) = split_first(s, sep)->0;
    let other = h + seq![sep] + t;
    if h.len() < head.len() {
        assert(other[h.len() as int] == sep);
        assert(s[h.len() as int] == head[h.len() as int]);
        assert(head.contains(sep));
    } else if h.len() > head.len() {
        assert(other[head.len() as int] == h[head.len() as int]);
        assert(h.contains(sep));
    }
    assert(h =~= s.take(h.len() as int));
    assert(head =~= s.take(head.len() as int));
    assert(t =~= s.skip(h.len() as int + 1));
    assert(tail =~= s.skip(head.len() as int + 1));
}

/// A cookie that the host gave out is recognised when it comes back: as the
/// value under its name, and as the one that was expected.
pub proof fn law_a_cookie_that_comes_back_is_recognised(
    headers: Seq<FieldView>,
    at: int,
    name: Seq<char>,
    value: Seq<char>,
)
    requires
        0 <= at < headers.len(),
        headers[at].name == "cookie"@,
        headers[at].value == Some(name + "="@ + value),
        forall|j: int| 0 <= j < at ==> (#[trigger] headers[j]).name != "cookie"@,
        snug(name),
        snug(value),
        name.len() > 0,
        value.len() > 0,
        !name.contains('='),
        !name.contains(';'),
        !value.contains(';'),
    ensures
        cookie_of(headers, name) == Some(value),
        presents_cookie(headers, name, value),
{
    reveal_strlit("=");
    let text = name + "="@ + value;
    assert("="@ =~= seq!['=']);
    assert(!text.contains(';')) by {
        if text.contains(';') {
            let k = choose|k: int| 0 <= k < text.len() && text[k] == ';';
            if k < name.len() {
                assert(name[k] == ';');
            } else if k > name.len() {
                assert(value[k - name.len() - 1] == ';');
            }
        }
    }
    lemma_split_none(text, ';');
    lemma_split_first_of(name, value, '=');
    law_trimming_twice_is_trimming(name);
    law_trimming_twice_is_trimming(value);
    law_trimming_twice_is_trimming(text);
    assert(snug(text)) by {
        assert(text[0] == name[0]);
        assert(text.last() == value.last());
    }
    let pieces = split_on(text, ';');
    assert(pieces[0] == text);
    assert(split_first(trimmed(split_on(text, ';')[0]), '=') == Some((name, value)));
    assert(holds_cookie(text, name, value));
    assert(headers[at].name == "cookie"@);
    law_the_first_header_of_a_name_counts(headers, "cookie"@);
    let field = first_field(headers, "cookie"@)->0;
    let i = choose|i: int|
        0 <= i < headers.len() && #[trigger] headers[i] == field && field.name == "cookie"@ && (
        forall|j: int| 0 <= j < i ==> (#[trigger] headers[j]).name != "cookie"@);
    assert(i == at) by {
        if i < at {
            assert(headers[i].name != "cookie"@);
        } else if i > at {
            assert(headers[at].name != "cookie"@);
        }
    }
    assert(cookie_among(pieces, name) == Some(value));
}

/// The cookies that the host gives out carry the token under their own name, and
/// no script of a page can read them.
pub proof fn law_a_given_cookie_carries_its_token(token: Seq<char>)
    requires
        !token.contains(';'),
    ensures
        split_first(split_on(human_cookie_text(token), ';')[0], '=') == Some(
            ("agui_human_route_session"@, token),
        ),
        split_first(split_on(person_cookie_text(token), ';')[0], '=') == Some(
            ("agui_person"@, token),
        ),
        human_cookie() == "agui_human_route_session"@,
        mentions(human_cookie_text(token), "; HttpOnly"@),
        mentions(human_cookie_text(token), "; SameSite=Strict"@),
        mentions(person_cookie_text(token), "; HttpOnly"@),
        mentions(person_cookie_text(token), "; SameSite=Lax"@),
        mentions(person_cookie_text(token), "; Max-Age=86400"@),
{
    reveal_strlit("=");
    reveal_strlit("agui_human_route_session");
    reveal_strlit("agui_person");
    reveal_strlit("; Path=/; HttpOnly; SameSite=Strict");
    reveal_strlit("; Path=/; Max-Age=86400; SameSite=Lax; HttpOnly");
    reveal_strlit("; HttpOnly");
    reveal_strlit("; SameSite=Strict");
    reveal_strlit("; SameSite=Lax");
    reveal_strlit("; Max-Age=86400");
    lemma_given("agui_human_route_session"@, token, "; Path=/; HttpOnly; SameSite=Strict"@);
    lemma_given("agui_person"@, token, "; Path=/; Max-Age=86400; SameSite=Lax; HttpOnly"@);
    let human = human_cookie_text(token);
    let person = person_cookie_text(token);
    let h: int = "agui_human_route_session"@.len() as int + 1 + token.len() as int;
    let p: int = "agui_person"@.len() as int + 1 + token.len() as int;
    assert(human.skip(h + 8).take(10) =~= "; HttpOnly"@);
    assert(human.skip(h + 18).take(17) =~= "; SameSite=Strict"@);
    assert(person.skip(p + 8).take(15) =~= "; Max-Age=86400"@);
    assert(person.skip(p + 23).take(14) =~= "; SameSite=Lax"@);
    assert(person.skip(p + 37).take(10) =~= "; HttpOnly"@);
}

proof fn lemma_given(name: Seq<char>, token: Seq<char>, rest: Seq<char>)
    requires
        !token.contains(';'),
        !name.contains(';'),
        !name.contains('='),
        rest.len() > 0,
        rest[0] == ';',
    ensures
        split_first(split_on(name + "="@ + token + rest, ';')[0], '=') == Some((name, token)),
{
    reveal_strlit("=");
    assert("="@ =~= seq!['=']);
    let own = name + "="@ + token;
    assert(!own.contains(';')) by {
        if own.contains(';') {
            let k = choose|k: int| 0 <= k < own.len() && own[k] == ';';
            if k < name.len() {
                assert(name[k] == ';');
            } else if k > name.len() {
                assert(token[k - name.len() - 1] == ';');
            }
        }
    }
    assert(name + "="@ + token + rest =~= own + seq![';'] + rest.skip(1));
    lemma_split_head(own, rest.skip(1), ';');
    lemma_split_first_of(name, token, '=');
}

// Where a request comes from.

proof fn lemma_same_digits(p: nat, q: nat)
    requires
        ascii_lowered(decimal(p)) == ascii_lowered(decimal(q)),
    ensures
        p == q,
{
    law_a_decimal_is_read_back(p);
    law_a_decimal_is_read_back(q);
    let a = decimal(p);
    let b = decimal(q);
    assert(ascii_lowered(a).len() == a.len());
    assert(ascii_lowered(b).len() == b.len());
    assert forall|i: int| 0 <= i < a.len() implies a[i] == b[i] by {
        assert(crate::text::is_digit(a[i]));
        assert(crate::text::is_digit(b[i]));
        law_only_capitals_are_made_small(a, i);
        law_only_capitals_are_made_small(b, i);
    }
    assert(a =~= b);
}

/// An authority on the loopback address names one port: a listener answers to
/// its own port and to no other.
pub proof fn law_an_authority_names_one_port(authority: Seq<char>, port: u16, other: u16)
    ensures
        loopback_authority("127.0.0.1:"@ + decimal(port as nat), port),
        loopback_authority("localhost:"@ + decimal(port as nat), port),
        loopback_authority(authority, port) && loopback_authority(authority, other) ==> port
            == other,
{
    reveal_strlit("127.0.0.1:");
    reveal_strlit("localhost:");
    if loopback_authority(authority, port) && loopback_authority(authority, other) {
        let p = decimal(port as nat);
        let q = decimal(other as nat);
        let low = ascii_lowered(authority);
        let named = ascii_lowered("localhost:"@ + p);
        let named_too = ascii_lowered("localhost:"@ + q);
        assert(("localhost:"@ + p)[0] == 'l');
        assert(("localhost:"@ + q)[0] == 'l');
        assert(named[0] == 'l');
        assert(named_too[0] == 'l');
        assert(("127.0.0.1:"@ + p)[0] == '1');
        assert(("127.0.0.1:"@ + q)[0] == '1');
        assert(ascii_lowered("127.0.0.1:"@ + p)[0] == '1');
        assert(ascii_lowered("127.0.0.1:"@ + q)[0] == '1');
        if authority == "127.0.0.1:"@ + p {
            assert(low[0] == '1');
            assert(authority == "127.0.0.1:"@ + q);
            assert(p =~= ("127.0.0.1:"@ + p).skip(10));
            assert(q =~= ("127.0.0.1:"@ + q).skip(10));
        } else {
            assert(low == named);
            assert(authority != "127.0.0.1:"@ + q);
            assert(named == named_too);
            assert(ascii_lowered(p) =~= named.skip(10));
            assert(ascii_lowered(q) =~= named_too.skip(10));
        }
        lemma_same_digits(port as nat, other as nat);
    }
}

/// A request is taken where it addresses the listener and names no origin, or
/// the listener's own; it is refused where it addresses another port, or names
/// an origin that is not plain text.
pub proof fn law_a_request_addresses_its_own_listener(headers: Seq<FieldView>, port: u16)
    ensures
        ({
            let host = field_text(headers, "host"@);
            let origin = first_field(headers, "origin"@);
            let addressed = host is Some && loopback_authority(host->0, port);
            &&& loopback_request(headers, port) ==> addressed
            &&& addressed && origin is None ==> loopback_request(headers, port)
            &&& addressed && origin is Some && (origin->0).value == Some(
                "http://"@ + ("localhost:"@ + decimal(port as nat)),
            ) ==> loopback_request(headers, port)
            &&& addressed && origin is Some && (origin->0).value == Some(
                "http://"@ + ("127.0.0.1:"@ + decimal(port as nat)),
            ) ==> loopback_request(headers, port)
            &&& origin is Some && (origin->0).value is None ==> !loopback_request(headers, port)
            &&& origin is Some && loopback_request(headers, port) ==> loopback_origin(
                (origin->0).value->0,
                port,
            )
        }),
{
}

/// An origin that only begins like one on this machine is not on this machine.
pub proof fn law_a_lookalike_origin_is_foreign(
    headers: Seq<FieldView>,
    field: FieldView,
    more: Seq<char>,
)
    requires
        first_field(headers, "origin"@) == Some(field),
        more.len() > 0,
    ensures
        field.value == Some("http://localhost"@ + more) ==> (local_origin(headers) <==> more[0]
            == ':'),
        field.value == Some("https://localhost"@ + more) ==> (local_origin(headers) <==> more[0]
            == ':'),
        field.value == Some("http://localhost"@) ==> local_origin(headers),
        field.value is None ==> !local_origin(headers),
{
    reveal_strlit("http://localhost");
    reveal_strlit("https://localhost");
    reveal_strlit("http://127.0.0.1");
    reveal_strlit("https://127.0.0.1");
    reveal_strlit("http://[::1]");
    reveal_strlit("https://[::1]");
    let plain = "http://localhost"@ + more;
    let secure = "https://localhost"@ + more;
    assert(plain.subrange(0, 16) =~= "http://localhost"@);
    assert(secure.subrange(0, 17) =~= "https://localhost"@);
    assert("http://localhost"@.subrange(0, 16) =~= "http://localhost"@);
    assert(plain[4] == ':' && secure[4] == 's' && plain[7] == 'l' && secure[8] == 'l');
    assert("https://localhost"@[4] == 's');
    assert("http://localhost"@[4] == ':');
    lemma_not_under(plain, "https://localhost"@, 4);
    lemma_not_under(plain, "http://127.0.0.1"@, 7);
    lemma_not_under(plain, "https://127.0.0.1"@, 4);
    lemma_not_under(plain, "http://[::1]"@, 7);
    lemma_not_under(plain, "https://[::1]"@, 4);
    lemma_not_under(secure, "http://localhost"@, 4);
    lemma_not_under(secure, "http://127.0.0.1"@, 4);
    lemma_not_under(secure, "https://127.0.0.1"@, 8);
    lemma_not_under(secure, "http://[::1]"@, 4);
    lemma_not_under(secure, "https://[::1]"@, 8);
}

proof fn lemma_not_under(origin: Seq<char>, prefix: Seq<char>, at: int)
    requires
        0 <= at < prefix.len(),
        at < origin.len(),
        origin[at] != prefix[at],
    ensures
        !origin_under(origin, prefix),
{
    if origin_under(origin, prefix) {
        assert(origin.subrange(0, prefix.len() as int)[at] == prefix[at]);
    }
}

/// A page counts as opened by the person exactly where the browser says that it
/// reads a document that the person navigated to and that it takes HTML.
pub proof fn law_a_navigation_is_the_persons_own(get: bool, headers: Seq<FieldView>)
    ensures
        human_navigation(get, headers) ==> get && field_text(headers, "sec-fetch-mode"@) == Some(
            "navigate"@,
        ) && field_text(headers, "sec-fetch-dest"@) == Some("document"@) && field_text(
            headers,
            "sec-fetch-user"@,
        ) == Some("?1"@) && field_text(headers, "accept"@) is Some,
        get && field_text(headers, "sec-fetch-mode"@) == Some("navigate"@) && field_text(
            headers,
            "sec-fetch-dest"@,
        ) == Some("document"@) && field_text(headers, "sec-fetch-user"@) == Some("?1"@)
            && field_text(headers, "accept"@) == Some("text/html"@) ==> human_navigation(
            get,
            headers,
        ),
{
    reveal_strlit("text/html");
    let kind = "text/html"@;
    assert(!kind.contains(','));
    lemma_split_none(kind, ',');
    assert(snug(kind));
    law_trimming_twice_is_trimming(kind);
    assert(trimmed(split_on(kind, ',')[0]) == kind);
}

// Callers.

/// Everybody may ask to act in a role below their own: the person as any model,
/// and a model as itself or as a companion. A role that is not known makes the
/// caller nobody.
pub proof fn law_a_role_below_ones_own_is_granted(established: Caller, role: Seq<char>)
    ensures
        ({
            let asked = Some(JsonView::Text(role));
            let word = ascii_lowered(trimmed(role));
            &&& narrowed_caller(established, None) == established
            &&& word == "agent"@ && established != Caller::Unknown ==> narrowed_caller(
                established,
                asked,
            ) == Caller::Agent
            &&& word == "companion"@ && established != Caller::Unknown ==> narrowed_caller(
                established,
                asked,
            ) == Caller::Companion
            &&& word == "human"@ && established == Caller::Human ==> narrowed_caller(
                established,
                asked,
            ) == Caller::Human
            &&& word == "human"@ && established != Caller::Human ==> narrowed_caller(
                established,
                asked,
            ) == Caller::Unknown
            &&& word != "human"@ && word != "agent"@ && word != "companion"@ ==> narrowed_caller(
                established,
                asked,
            ) == Caller::Unknown
        }),
{
    reveal_strlit("human");
    reveal_strlit("agent");
    reveal_strlit("companion");
    assert("human"@[0] == 'h' && "agent"@[0] == 'a' && "companion"@[0] == 'c');
}

/// An identity field names the person or a companion, in any case and with space
/// around it; without one the person is meant, and with any other word nobody.
pub proof fn law_an_identity_field_names_somebody_known(value: Seq<char>)
    ensures
        ({
            let word = ascii_lowered(trimmed(value));
            &&& Caller::parsed(None) == Caller::Human
            &&& Caller::parsed(Some(value)) == Caller::Human <==> word == "human"@
            &&& Caller::parsed(Some(value)) == Caller::Companion <==> word == "companion"@
            &&& Caller::parsed(Some(value)) == Caller::Unknown <==> word != "human"@ && word
                != "companion"@
        }),
{
    reveal_strlit("human");
    reveal_strlit("companion");
    assert("human"@.len() != "companion"@.len());
}

/// Callers are told apart by the name in a refusal and by the role that they
/// sign with.
pub proof fn law_callers_have_names_of_their_own(one: Caller, other: Caller)
    ensures
        one.name() == other.name() ==> one == other,
        one.role() == other.role() ==> one == other,
        Caller::Human.role() == "human"@,
        Caller::Agent.role() == "agent"@,
        Caller::Companion.role() == "companion"@,
{
    reveal_strlit("the human");
    reveal_strlit("this agent");
    reveal_strlit("the companion agent");
    reveal_strlit("an unknown caller");
    reveal_strlit("human");
    reveal_strlit("agent");
    reveal_strlit("companion");
    reveal_strlit("unknown");
    assert("the human"@.len() == 9 && "this agent"@.len() == 10 && "the companion agent"@.len()
        == 19 && "an unknown caller"@.len() == 17);
    assert("human"@.len() == 5 && "agent"@.len() == 5 && "companion"@.len() == 9 && "unknown"@.len()
        == 7);
    assert("human"@[0] != "agent"@[0]);
}

// Routes.

/// An action is found by its name: the first of that name, and none exactly
/// where no action has it.
pub proof fn law_an_action_is_found_by_its_name(actions: Seq<ActionView>, name: Seq<char>)
    ensures
        find_action(actions, name) is None <==> forall|i: int|
            0 <= i < actions.len() ==> (#[trigger] actions[i]).name != name,
        find_action(actions, name) matches Some(action) ==> action.name == name
            && actions.contains(action),
    decreases actions.len(),
{
    if actions.len() > 0 {
        let rest = actions.skip(1);
        law_an_action_is_found_by_its_name(rest, name);
        if actions[0].name == name {
            assert(actions.contains(actions[0]));
        } else {
            if find_action(rest, name) is Some {
                let action = find_action(rest, name)->0;
                let k = choose|k: int| 0 <= k < rest.len() && rest[k] == action;
                assert(actions[k + 1] == action);
            } else {
                assert forall|i: int| 0 <= i < actions.len() implies (
                #[trigger] actions[i]).name != name by {
                    if i > 0 {
                        assert(rest[i - 1].name != name);
                    }
                }
            }
            if forall|i: int| 0 <= i < actions.len() ==> (#[trigger] actions[i]).name != name {
                assert forall|i: int| 0 <= i < rest.len() implies (#[trigger] rest[i]).name
                    != name by {
                    assert(actions[i + 1].name != name);
                }
            }
        }
    }
}

/// A route runs its action for a caller whom the audience admits, with the body
/// of the request as it was decoded, an empty object where there is none; a body
/// that cannot be decoded is answered in the decoder's words.
pub proof fn law_an_admitted_request_is_dispatched_as_it_came(
    caller: Caller,
    named: Seq<char>,
    action: ActionView,
    decoded: Result<Option<JsonView>, ReplyView>,
    run: Option<Seq<char>>,
)
    requires
        caller.allowed(action.audience),
    ensures
        match decoded {
            Ok(Some(arguments)) => route_step(caller, named, Some(action), decoded, run)
                == StepView::Dispatch(arguments),
            Ok(None) => route_step(caller, named, Some(action), decoded, run)
                == StepView::Dispatch(empty_object()),
            Err(reply) => route_step(caller, named, Some(action), decoded, run)
                == StepView::Answer(reply),
        },
{
}

/// A request from nobody is answered with a refusal and put on record under the
/// action that it asked for, with a failure that says what the answer says; one
/// for an action that is not there is the host's own fault; and a caller whom the
/// audience does not admit is refused.
pub proof fn law_a_request_that_runs_nothing_is_accounted_for(
    caller: Caller,
    named: Seq<char>,
    action: Option<ActionView>,
    decoded: Result<Option<JsonView>, ReplyView>,
    run: Option<Seq<char>>,
)
    ensures
        ({
            let step = route_step(caller, named, action, decoded, run);
            &&& caller is Unknown ==> (step matches StepView::Unidentified { reply, records } && {
                &&& reply.status == 403
                &&& reply.body.truth_member("ok"@) == Some(false)
                &&& records.len() == 2
                &&& records[0] matches RecordView::Action { by, action: asked, run: at, .. } && by
                    == caller && asked == named && at == run
                &&& records[1] matches RecordView::Failure { caller: who, run: at, error, .. }
                    && who == Some(caller) && at == run && reply.body.text_member("result"@)
                    == Some(error)
            })
            &&& !(caller is Unknown) && action is None ==> (step matches StepView::Answer(reply)
                && reply.status == 500)
            &&& !(caller is Unknown) && action is Some && !caller.allowed(
                (action->0).audience,
            ) ==> step is Refuse
        }),
{
    broadcast use group_reading;

    reveal_strlit("ok");
    reveal_strlit("result");
    assert("ok"@.len() != "result"@.len());
}

/// Who may run an action is decided by its audience, and a refusal names the
/// action and who was refused.
pub proof fn law_admission_follows_the_audience(
    actions: Seq<ActionView>,
    caller: Caller,
    name: Seq<char>,
)
    ensures
        match find_action(actions, name) {
            None => admission_of(actions, caller, name) is Undeclared,
            Some(action) => {
                &&& admission_of(actions, caller, name) is Admitted <==> caller.allowed(
                    action.audience,
                )
                &&& admission_of(actions, caller, name) matches AdmissionView::Refused(message)
                    ==> mentions(message, name) && caller.name().is_suffix_of(message)
                &&& !(admission_of(actions, caller, name) is Undeclared)
            },
        },
{
    if admission_of(actions, caller, name) is Refused {
        let message = "action '"@ + name + "' is not available to "@ + caller.name();
        let at = "action '"@.len() as int;
        assert(message.skip(at).take(name.len() as int) =~= name);
        let tail = caller.name();
        assert(message.subrange(message.len() - tail.len(), message.len() as int) =~= tail);
    }
}

/// A refusal and an error say that they are not `ok`, and why.
pub proof fn law_a_refusal_says_why(message: Seq<char>)
    ensures
        error_body(message).truth_member("ok"@) == Some(false),
        error_body(message).text_member("error"@) == Some(message),
        refusal_body(message).truth_member("ok"@) == Some(false),
        refusal_body(message).text_member("result"@) == Some(message),
{
    broadcast use group_reading;

    reveal_strlit("ok");
    reveal_strlit("result");
    reveal_strlit("error");
    assert("ok"@.len() == 2 && "result"@.len() == 6 && "error"@.len() == 5);
}

/// A body decodes to nothing where it is empty, to the document where it is
/// JSON, and to a bad request with the parser's words where it is neither a form
/// nor JSON.
pub proof fn law_a_body_is_decoded_by_what_it_is(
    headers: Seq<FieldView>,
    body: Seq<u8>,
    parsed: Result<JsonView, Seq<char>>,
)
    ensures
        body.len() == 0 ==> decoded_body(headers, body) == Ok::<Option<JsonView>, ReplyView>(None),
        body.len() > 0 && field_text(headers, "content-type"@) is None ==> decoded_body(
            headers,
            body,
        ) == json_body(crate::json::parsed_bytes(body)),
        body.len() > 0 && field_text(headers, "content-type"@) == Some(
            "application/x-www-form-urlencoded"@,
        ) ==> (decoded_body(headers, body) matches Ok(Some(JsonView::Object(members)))),
        parsed matches Ok(value) ==> json_body(parsed) == Ok::<Option<JsonView>, ReplyView>(
            Some(value),
        ),
        parsed matches Err(complaint) ==> (json_body(parsed) matches Err(reply) && reply.status
            == 400 && (reply.body.text_member("error"@) matches Some(text)
            && complaint.is_suffix_of(text))),
{
    if let Err(complaint) = parsed {
        let text = "invalid JSON body: "@ + complaint;
        law_a_refusal_says_why(text);
        assert(text.subrange(text.len() - complaint.len(), text.len() as int) =~= complaint);
    }
    reveal_strlit("application/x-www-form-urlencoded");
    let kind = "application/x-www-form-urlencoded"@;
    assert(!kind.contains(';'));
    lemma_split_none(kind, ';');
    assert(snug(kind));
    law_trimming_twice_is_trimming(kind);
}

/// What a surface answers goes out as it is, with its status and under the type
/// of its body; a status that HTTP does not have becomes the host's own error.
pub proof fn law_a_surface_answers_in_its_own_words(response: RouteResponse, wire: WireResponse)
    requires
        goes_out(response, wire),
    ensures
        100 <= response.status <= 599 ==> wire.status == response.status && wire.body@
            == response.body@,
        !(100 <= response.status <= 599) ==> wire.status == 500 && (
        wire.body@ matches BodyView::Json(value) && value.truth_member("ok"@) == Some(false)),
        wire.content_type@ == (match wire.body@ {
            BodyView::Json(_) => "application/json"@,
            BodyView::Html(_) => "text/html; charset=utf-8"@,
            BodyView::Text(_) => "text/plain; charset=utf-8"@,
        }),
{
    law_a_refusal_says_why("surface route returned an invalid HTTP status"@);
}

/// The value of a cookie is what stands behind its name in the first piece that
/// has it, without the spaces around it; a cookie is missing where no piece has
/// its name.
pub proof fn law_a_cookie_has_the_value_of_its_first_piece(
    pieces: Seq<Seq<char>>,
    name: Seq<char>,
)
    ensures
        cookie_among(pieces, name) is None <==> forall|k: int|
            0 <= k < pieces.len() ==> !names_cookie(#[trigger] pieces[k], name),
        cookie_among(pieces, name) matches Some(value) ==> snug(value) && exists|k: int|
            0 <= k < pieces.len() && names_cookie(#[trigger] pieces[k], name) && value == trimmed(
                (split_first(pieces[k], '=')->0).1,
            ) && forall|j: int| 0 <= j < k ==> !names_cookie(#[trigger] pieces[j], name),
    decreases pieces.len(),
{
    if pieces.len() > 0 {
        let rest = pieces.skip(1);
        law_a_cookie_has_the_value_of_its_first_piece(rest, name);
        if names_cookie(pieces[0], name) {
            law_trimming_takes_the_surrounding_space((split_first(pieces[0], '=')->0).1);
        } else {
            if cookie_among(rest, name) is None {
                assert forall|k: int| 0 <= k < pieces.len() implies !names_cookie(
                    #[trigger] pieces[k],
                    name,
                ) by {
                    if k > 0 {
                        assert(rest[k - 1] == pieces[k]);
                    }
                }
            } else {
                let value = cookie_among(rest, name)->0;
                let k = choose|k: int|
                    0 <= k < rest.len() && names_cookie(#[trigger] rest[k], name) && value
                        == trimmed((split_first(rest[k], '=')->0).1) && forall|j: int|
                        0 <= j < k ==> !names_cookie(#[trigger] rest[j], name);
                assert(pieces[k + 1] == rest[k]);
                assert forall|j: int| 0 <= j < k + 1 implies !names_cookie(
                    #[trigger] pieces[j],
                    name,
                ) by {
                    if j > 0 {
                        assert(rest[j - 1] == pieces[j]);
                    }
                }
            }
        }
    }
}

/// Whether a piece of a cookie header gives a cookie of that name.
pub open spec fn names_cookie(piece: Seq<char>, name: Seq<char>) -> bool {
    split_first(piece, '=') matches Some((key, _)) && trimmed(key) == name
}

/// The listener's name is the same in capitals and small letters, in an authority
/// and in an origin.
pub proof fn law_the_listeners_name_is_read_in_any_case(
    one: Seq<char>,
    other: Seq<char>,
    port: u16,
)
    requires
        ascii_lowered(one) == ascii_lowered(other),
    ensures
        one.len() > 0 && one[0] != '1' && loopback_authority(one, port) ==> loopback_authority(
            other,
            port,
        ),
        one.len() > 7 && one[7] != '1' && loopback_origin(one, port) ==> loopback_origin(
            other,
            port,
        ),
{
    reveal_strlit("127.0.0.1:");
    reveal_strlit("http://");
    let numeric = "127.0.0.1:"@ + decimal(port as nat);
    assert(numeric[0] == '1');
    assert(("http://"@ + numeric)[7] == '1');
}

} // verus!
