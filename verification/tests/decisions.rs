use ag_ui_surface::decisions::{
    validate_decision_reply, ClaimStep, PendingDecision, PendingDecisions, ReplyKind,
};
use ag_ui_surface::events::Event;
use ag_ui_surface::json::Json;
use ag_ui_surface::turns::{snapshot_event, StateBacking, StateSnapshot};

fn pending(token: &str, id: &str) -> PendingDecision {
    PendingDecision {
        token: token.to_string(),
        reply_kind: ReplyKind::Any,
        event_json: format!("{{\"name\":\"test.decision.pending\",\"value\":{{\"id\":\"{id}\"}}}}"),
        unclaimed: true,
        receiver: true,
    }
}

fn body(text: &str) -> Json {
    Json::parse(text).unwrap()
}

fn closed(event: &Event) -> (String, String) {
    match event {
        Event::Custom { name, value } => {
            assert_eq!(name, "surface.decision.closed");
            (
                value.str_member("id").unwrap().to_string(),
                value.str_member("reason").unwrap().to_string(),
            )
        }
        other => panic!("unexpected {other:?}"),
    }
}

#[test]
fn reconnect_frames_include_state_snapshot_and_pending_decisions() {
    let mut decisions = PendingDecisions::new();
    for (id, name) in [("b", "pending.b"), ("a", "pending.a")] {
        let waiting = PendingDecision {
            token: format!("pending-{id}-token"),
            reply_kind: ReplyKind::Any,
            event_json: format!("{{\"type\":\"CUSTOM\",\"name\":\"{name}\"}}"),
            unclaimed: true,
            receiver: true,
        };
        assert!(decisions.register_pending_decision(id.to_string(), waiting).is_ok());
    }
    let snapshot = snapshot_event(StateSnapshot {
        backing: StateBacking::Ephemeral,
        body: Json::Object(Vec::new()),
        chrome: None,
    });
    match snapshot {
        Event::StateSnapshot(value) => {
            assert_eq!(value.str_member("backing"), Some("ephemeral"));
            assert_eq!(value.get("body"), Some(&Json::Object(Vec::new())));
            assert_eq!(value.get("chrome"), Some(&Json::Null));
        }
        other => panic!("unexpected {other:?}"),
    }
    let events = decisions.pending_decision_events();
    assert_eq!(events.len(), 2);
    assert!(events[0].contains("pending.a"));
    assert!(events[1].contains("pending.b"));
}

#[test]
fn pending_decision_replay_boundary_is_snapshot_or_live_and_close_is_keyed() {
    let mut decisions = PendingDecisions::new();

    assert!(decisions.register_pending_decision("a".to_string(), pending("token-a", "a")).is_ok());
    let snapshot = decisions.pending_decision_events();
    assert_eq!(snapshot.len(), 1);
    assert!(snapshot[0].contains("\"id\":\"a\""));
    let (_, event) = decisions
        .close_pending_decision_if_token("a", "token-a", "interrupted")
        .expect("the waiter closes its decision");
    assert_eq!(closed(&event).0, "a");

    assert!(decisions.pending_decision_events().is_empty());
    let live = decisions
        .register_pending_decision("b".to_string(), pending("token-b", "b"))
        .expect("registered");
    assert_eq!(live, Event::Encoded(pending("token-b", "b").event_json));
    assert!(decisions.close_pending_decision_if_token("b", "token-b", "resolved").is_some());

    assert!(decisions.register_pending_decision("c".to_string(), pending("token-c", "c")).is_ok());
    assert!(decisions.close_pending_decision_if_token("c", "token-c", "interrupted").is_some());
    assert!(decisions.pending_decision_events().is_empty());

    let same = || "same".to_string();
    assert!(decisions.register_pending_decision(same(), pending("old-token", "same")).is_ok());
    assert!(decisions.close_pending_decision_if_token("same", "old-token", "resolved").is_some());
    assert!(decisions.register_pending_decision(same(), pending("new-token", "same")).is_ok());
    assert!(decisions
        .close_pending_decision_if_token("same", "old-token", "wait_dropped")
        .is_none());
    assert_eq!(decisions.token("same"), Some("new-token"));
    assert!(decisions.register_pending_decision(same(), pending("third", "same")).is_err());
    assert!(decisions.close_pending_decision_if_token("same", "new-token", "cleanup").is_some());
}

#[test]
fn provider_cleanup_closes_all_decisions_and_wakes_waiters() {
    let mut decisions = PendingDecisions::new();
    for id in ["a", "b"] {
        assert!(decisions
            .register_pending_decision(id.to_string(), pending(&format!("token-{id}"), id))
            .is_ok());
    }
    let events = decisions.close_all_pending_decisions("provider_switched");
    assert_eq!(events.len(), 2);
    assert_eq!(decisions.len(), 0);
    let mut closed_ids = std::collections::BTreeSet::new();
    for event in &events {
        let (id, reason) = closed(event);
        assert_eq!(reason, "provider_switched");
        closed_ids.insert(id);
    }
    assert_eq!(closed_ids, ["a".to_string(), "b".to_string()].into());
}

#[test]
fn invalid_choice_reply_does_not_consume_pending_decision() {
    let mut decisions = PendingDecisions::new();
    let choice = PendingDecision {
        token: "choice-token".to_string(),
        reply_kind: ReplyKind::Choice {
            allowed: vec!["option-a".to_string(), "blank".to_string()],
            text_required_for: vec!["blank".to_string()],
        },
        event_json: "{}".to_string(),
        unclaimed: true,
        receiver: true,
    };
    assert!(decisions.register_pending_decision("choice-1".to_string(), choice).is_ok());
    let post = |decisions: &mut PendingDecisions, text: &str| decisions.claim(&body(text));
    for refused in [
        r#"{ "id": "choice-1", "chosen": "option-z" }"#,
        r#"{ "id": "choice-1", "chosen": "blank", "text": "  " }"#,
        r#"{ "id": "choice-1" }"#,
        r#"{ "id": "other", "chosen": "option-a" }"#,
        r#"{ "chosen": "option-a" }"#,
    ] {
        assert!(matches!(post(&mut decisions, refused), ClaimStep::Answer(_)), "{refused}");
        assert_eq!(decisions.token("choice-1"), Some("choice-token"));
    }
    assert_eq!(
        post(&mut decisions, r#"{ "id": "choice-1", "chosen": "option-a" }"#),
        ClaimStep::Run { id: "choice-1".to_string(), token: "choice-token".to_string() }
    );
    assert!(
        matches!(
            post(&mut decisions, r#"{ "id": "choice-1", "chosen": "option-a" }"#),
            ClaimStep::Answer(_)
        ),
        "a decision is claimed once"
    );
    assert!(
        decisions.close_all_pending_decisions("provider_switched").is_empty(),
        "a claimed decision is its handler's to close"
    );
    let (event, reply) = decisions.settle("choice-1", "choice-token", &Ok(()));
    assert_eq!(closed(&event), ("choice-1".to_string(), "resolved".to_string()));
    assert_eq!(reply.status, 200);
    assert_eq!(decisions.len(), 0);
}

#[test]
fn replies_are_checked_by_kind() {
    let problem = |kind: &ReplyKind, text: &str| validate_decision_reply(kind, &body(text)).err();
    assert_eq!(problem(&ReplyKind::Any, "{}"), None);
    let approval = ReplyKind::Approval { require_reject_comment: true };
    assert_eq!(problem(&approval, r#"{ "status": " approved " }"#), None);
    assert_eq!(
        problem(&approval, r#"{ "status": "maybe" }"#).as_deref(),
        Some("approval decision `status` must be `approved` or `rejected`")
    );
    assert_eq!(
        problem(&approval, r#"{ "status": "approved", "comment": 1 }"#).as_deref(),
        Some("approval decision `comment` must be a string")
    );
    assert_eq!(
        problem(&approval, r#"{ "status": "rejected", "comment": " " }"#).as_deref(),
        Some("a rejected decision requires a non-empty `comment`")
    );
    assert_eq!(problem(&approval, r#"{ "status": "rejected", "comment": "no" }"#), None);
    let choice = ReplyKind::Choice {
        allowed: vec!["a".to_string(), "other".to_string()],
        text_required_for: vec!["other".to_string()],
    };
    assert_eq!(
        problem(&choice, "{}").as_deref(),
        Some("choice decision requires a non-empty string `chosen`")
    );
    assert_eq!(
        problem(&choice, r#"{ "chosen": "z" }"#).as_deref(),
        Some("choice decision selected unknown option \"z\"")
    );
    assert_eq!(
        problem(&choice, r#"{ "chosen": "a", "text": [] }"#).as_deref(),
        Some("choice decision `text` must be a string when present")
    );
    assert_eq!(
        problem(&choice, r#"{ "chosen": "other" }"#).as_deref(),
        Some("choice decision \"other\" requires non-empty human-authored `text`")
    );
}

#[test]
fn a_failed_handler_says_so() {
    let mut decisions = PendingDecisions::new();
    assert!(decisions.register_pending_decision("d".to_string(), pending("t", "d")).is_ok());
    assert!(matches!(decisions.claim(&body(r#"{ "id": "d" }"#)), ClaimStep::Run { .. }));
    let (event, reply) = decisions.settle("d", "t", &Err("disk".to_string()));
    assert_eq!(closed(&event).1, "failed");
    assert_ne!(reply.status, 200);
    assert!(decisions.register_pending_decision("e".to_string(), pending("t", "e")).is_ok());
    assert!(matches!(decisions.claim(&body(r#"{ "id": "e" }"#)), ClaimStep::Run { .. }));
    assert!(decisions.abort("e", "t").is_some());
    assert!(!decisions.contains("e"));
}
