use ag_ui_surface::actions::{needs_human_route_cookie, ActionDef};
use ag_ui_surface::caller::{
    establish_caller, narrow_action_route_caller, ActionAudience, Actor, AttachedAgent, Caller,
    Person,
};
use ag_ui_surface::json::Json;
use ag_ui_surface::labels::{names_in_use, new_id, unique_label, unique_participant_label};

#[test]
fn a_labeled_actors_byline_is_its_room_label() {
    let agent = AttachedAgent {
        session: "session-1".to_string(),
        participant_id: "agent-1".to_string(),
        label: "editor".to_string(),
        client_name: "claimed-client".to_string(),
        client_version: Some("1.0".to_string()),
        responsible: None,
    };
    assert_eq!(Actor::attached(Caller::Agent, &agent).byline(), "editor");
}

#[test]
fn anonymous_actor_bylines_name_each_caller_role() {
    for (caller, expected) in [
        (Caller::Human, "human"),
        (Caller::Agent, "agent"),
        (Caller::Companion, "companion"),
        (Caller::Unknown, "unknown"),
    ] {
        assert_eq!(Actor::anonymous(caller).byline(), expected);
    }
}

/// Agents that all propose one name are distinguishable participants.
#[test]
fn four_agents_named_claude_do_not_collapse_into_one_byline() {
    let mut taken: Vec<String> = Vec::new();
    for _ in 0..4 {
        taken.push(unique_label("helper", &taken));
    }
    assert_eq!(taken, ["helper", "helper-2", "helper-3", "helper-4"]);
    let unique: std::collections::HashSet<&String> = taken.iter().collect();
    assert_eq!(unique.len(), 4, "every label must be distinct");
}

#[test]
fn an_unused_name_is_left_alone() {
    assert_eq!(unique_label("editor", &vec!["helper".to_string()]), "editor");
}

#[test]
fn a_nameless_agent_still_gets_a_label() {
    assert_eq!(unique_label("   ", &vec![]), "agent");
    assert_eq!(unique_label("", &vec!["agent".to_string()]), "agent-2");
}

#[test]
fn a_label_cannot_be_stretched_past_the_participant_limit() {
    let long = "x".repeat(400);
    assert_eq!(unique_label(&long, &vec![]).chars().count(), 100);
}

#[test]
fn unknown_caller_identity_is_never_a_human_or_agent() {
    assert_eq!(Caller::parse(None), Caller::Human);
    assert_eq!(Caller::parse(Some("human")), Caller::Human);
    assert_eq!(Caller::parse(Some("companion")), Caller::Companion);
    assert_eq!(Caller::parse(Some("humna")), Caller::Unknown);
    assert_eq!(Caller::parse(Some("")), Caller::Unknown);
    for audience in [ActionAudience::Human, ActionAudience::Agent, ActionAudience::Both] {
        assert!(!Caller::Unknown.may_call(audience));
    }
}

#[test]
fn caller_and_audience_agree_on_every_combination() {
    assert!(Caller::Human.may_call(ActionAudience::Human));
    assert!(Caller::Human.may_call(ActionAudience::Both));
    assert!(!Caller::Human.may_call(ActionAudience::Agent));
    assert!(Caller::Agent.may_call(ActionAudience::Agent));
    assert!(Caller::Agent.may_call(ActionAudience::Both));
    assert!(!Caller::Agent.may_call(ActionAudience::Human));
}

fn action(audience: ActionAudience) -> ActionDef {
    ActionDef::new(
        "write".to_string(),
        "Write once.".to_string(),
        Json::parse(r#"{ "type": "object", "properties": {} }"#).unwrap(),
    )
    .audience(audience)
}

#[test]
fn human_route_cookie_follows_human_actions_not_action_route_adapters() {
    assert!(needs_human_route_cookie(&vec![action(ActionAudience::Human)]));
    assert!(!needs_human_route_cookie(&vec![action(ActionAudience::Agent)]));
}

#[test]
fn ambiguous_credentials_establish_nobody() {
    assert_eq!(establish_caller(true, true, false), Caller::Agent);
    assert_eq!(establish_caller(false, false, true), Caller::Human);
    assert_eq!(establish_caller(true, true, true), Caller::Unknown);
    assert_eq!(establish_caller(true, false, true), Caller::Unknown);
    assert_eq!(establish_caller(false, false, false), Caller::Unknown);
}

#[test]
fn a_body_narrows_and_never_widens() {
    let text = |text: &str| Json::Text(text.to_string());
    let narrow = |caller, body: &Json| narrow_action_route_caller(caller, Some(body));
    assert_eq!(narrow(Caller::Human, &text(" AGENT ")), Caller::Agent);
    assert_eq!(narrow(Caller::Human, &text("human")), Caller::Human);
    assert_eq!(narrow(Caller::Agent, &text("human")), Caller::Unknown);
    assert_eq!(narrow(Caller::Agent, &text("companion")), Caller::Companion);
    assert_eq!(narrow(Caller::Companion, &text("agent")), Caller::Agent);
    assert_eq!(narrow(Caller::Human, &Json::Bool(true)), Caller::Unknown);
    assert_eq!(narrow_action_route_caller(Caller::Human, None), Caller::Human);
}

#[test]
fn a_person_signs_with_their_name() {
    let person = Person {
        participant_id: "person-1".to_string(),
        name: "Mike".to_string(),
        hue: 210,
        principal_key: "local:one".to_string(),
    };
    let actor = Actor::person(Caller::Human, &person);
    assert_eq!(actor.byline(), "Mike");
    assert_eq!(actor.participant_id.as_deref(), Some("person-1"));
    assert_eq!(actor.hue, Some(210));
    assert_eq!(actor.responsible.as_deref(), Some("local:one"));
}

#[test]
fn nobody_signs_with_nothing() {
    let nameless = |caller| Actor { label: Some(String::new()), ..Actor::anonymous(caller) };
    assert_eq!(nameless(Caller::Human).byline(), "human");
    assert_eq!(nameless(Caller::Agent).byline(), "agent");
    assert_eq!(nameless(Caller::Companion).byline(), "companion");
    assert_eq!(nameless(Caller::Unknown).byline(), "unknown");
    let blank = Actor { label: Some(" ".to_string()), ..Actor::anonymous(Caller::Human) };
    assert_eq!(blank.byline(), " ");
    assert_eq!(unique_label("", &vec!["agent".to_string()]), "agent-2");
}

/// Admits somebody into a room as the host does: an id of its own making, and a
/// name that nobody in the room uses.
fn welcome(people: &mut Vec<Person>, principal: &str, proposed: &str) -> (Actor, String) {
    let person = Person {
        participant_id: format!("person-{}", new_id()),
        name: unique_label(proposed, &names_in_use(&vec![], people)),
        hue: 210,
        principal_key: format!("local:{principal}"),
    };
    let actor = Actor::person(Caller::Human, &person);
    people.push(person);
    (actor, new_id())
}

/// Two people are two participants even when they have not said who they are.
#[test]
fn two_people_who_never_named_themselves_are_still_distinguishable() {
    let mut people = Vec::new();
    let (first, first_token) = welcome(&mut people, "one", "someone");
    let (second, second_token) = welcome(&mut people, "two", "someone");
    assert_ne!(first.participant_id, second.participant_id);
    assert_ne!(first.byline(), second.byline());
    assert_ne!(first_token, second_token);
    assert_eq!(
        first.caller, second.caller,
        "identity must not have moved authorization"
    );
}

#[test]
fn fresh_ids_differ() {
    let first = new_id();
    let second = new_id();
    assert_ne!(first, second);
    assert!(!first.is_empty());
}

#[test]
fn a_participant_label_avoids_people_and_agents() {
    let mut people = vec!["Mike".to_string()];
    people.push("editor".to_string());
    assert_eq!(unique_label("editor", &people), "editor-2");
    let agents = vec![AttachedAgent {
        session: "session-1".to_string(),
        participant_id: "agent-1".to_string(),
        label: "editor-2".to_string(),
        client_name: "editor".to_string(),
        client_version: None,
        responsible: None,
    }];
    let ann = Person {
        participant_id: "p1".to_string(),
        name: "Ann".to_string(),
        hue: 1,
        principal_key: "local:1".to_string(),
    };
    assert_eq!(names_in_use(&agents, &vec![ann]), ["editor-2", "Ann"]);
    assert_eq!(unique_participant_label("editor", &people, &agents), "editor-3");
    assert_eq!(unique_participant_label(" helper ", &people, &agents), "helper");
}
