use std::collections::BTreeSet;

use ag_ui_surface::actions::ActionDef;
use ag_ui_surface::attention::{
    browser_participant, changes_attention, check_install, describe_snapshot, host_actions,
    install, no_semantic_targets_reply, reconnect_events, run_host_action, semantic_targets_clear,
    semantic_targets_focus, semantic_targets_get, semantic_targets_presence, snapshot_json,
};
use ag_ui_surface::awareness::{
    resolve_semantic_target, semantic_target, AttentionSnapshot, Directory, Lookup,
    SemanticTargetService,
};
use ag_ui_surface::caller::{Actor, Caller};
use ag_ui_surface::events::Event;
use ag_ui_surface::json::Json;
use ag_ui_surface::semantic_targets::{
    participant_from_actor, Attention, AttentionMode, ComposerAnchor, Participant, ParticipantKind,
    SemanticTarget, SemanticTargetRef, ACTIVE_LEASE_MS, MAX_ATTENTION_TARGETS, PRESENCE_LEASE_MS,
};

/// A service with a clock and a surface whose targets exist unless they are
/// gone.
struct Room {
    service: SemanticTargetService,
    now: u64,
    gone: BTreeSet<String>,
    bare_labels: bool,
}

fn target(reference: &SemanticTargetRef, bare: bool) -> SemanticTarget {
    let label = if bare {
        reference.target_id.clone()
    } else {
        format!("{} label", reference.extension_id)
    };
    SemanticTarget::new(
        reference.copy(),
        &label,
        &format!("{} meaning for {}", reference.extension_id, reference.target_id),
    )
}

fn refs(extension: &str, ids: &[&str]) -> Vec<SemanticTargetRef> {
    ids.iter().map(|id| SemanticTargetRef::new(extension, id)).collect()
}

impl Room {
    fn at(now: u64) -> Room {
        Room {
            service: SemanticTargetService::new(&vec!["atlas".to_string(), "board".to_string()])
                .expect("valid fixture service"),
            now,
            gone: BTreeSet::new(),
            bare_labels: false,
        }
    }

    fn directory(&self, more: &[SemanticTargetRef]) -> Directory {
        assert!(self.service.has_room());
        let mut directory = Directory::new();
        let held = self.service.held_targets();
        for reference in held.iter().chain(more.iter()) {
            let lookup = if self.gone.contains(&reference.target_id) {
                Lookup::Missing
            } else {
                Lookup::Found(target(reference, self.bare_labels))
            };
            directory.insert(reference.copy(), lookup);
        }
        directory
    }

    fn attend_many(
        &mut self,
        who: Participant,
        mode: AttentionMode,
        targets: Vec<SemanticTargetRef>,
    ) -> Result<Vec<SemanticTarget>, String> {
        let directory = self.directory(&targets);
        self.service
            .attend_many(who, mode, &targets, None, &directory, self.now)
            .map(|done| done.targets)
    }

    fn attend(
        &mut self,
        who: Participant,
        mode: AttentionMode,
        target: SemanticTargetRef,
    ) -> Result<SemanticTarget, String> {
        let directory = self.directory(&[target.copy()]);
        self.service.attend(who, mode, target, None, &directory, self.now)
    }

    fn present(&mut self, who: Participant) -> Result<AttentionSnapshot, String> {
        let directory = self.directory(&[]);
        self.service.present(who, &directory, self.now)
    }

    fn clear(&mut self, who: Participant) -> Result<AttentionSnapshot, String> {
        let directory = self.directory(&[]);
        self.service.clear(who, &directory, self.now)
    }

    fn depart(&mut self, who: Participant) -> Result<AttentionSnapshot, String> {
        let directory = self.directory(&[]);
        self.service.depart(who, &directory, self.now)
    }

    fn snapshot(&mut self) -> AttentionSnapshot {
        let directory = self.directory(&[]);
        self.service.snapshot(&directory, self.now)
    }

    fn describe(&mut self) -> String {
        let directory = self.directory(&[]);
        self.service.describe(&directory, self.now)
    }

    fn latest(&mut self, kind: ParticipantKind) -> Option<Attention> {
        let directory = self.directory(&[]);
        self.service.latest_active(kind, &directory, self.now)
    }

    fn selection_in(&mut self, extension: &str) -> Option<Attention> {
        let directory = self.directory(&[]);
        self.service.latest_active_matching(
            ParticipantKind::Human,
            AttentionMode::Selection,
            extension,
            &directory,
            self.now,
        )
    }
}

fn you() -> Participant {
    Participant::human("humanseat", "You")
}

fn ids(attention: &Attention) -> Vec<String> {
    attention.targets().into_iter().map(|target| target.target.target_id.clone()).collect()
}

#[test]
fn one_gesture_carries_a_whole_set_in_the_order_it_was_built() {
    let mut room = Room::at(0);
    let resolved = room
        .attend_many(you(), AttentionMode::Selection, refs("atlas", &["third", "first", "second"]))
        .expect("a marquee over three");
    assert_eq!(resolved.len(), 3);

    let attention = room.selection_in("atlas").expect("the selection is live");
    assert_eq!(attention.count(), 3);
    assert_eq!(
        ids(&attention),
        ["third", "first", "second"],
        "selection order is the human's, not sorted"
    );
    assert_eq!(attention.anchor.count, 3, "the anchor carries the gesture, not its head");
    assert_eq!(attention.anchor.labels.len(), 3, "and every member's name, in the human's order");
    assert!(
        attention.anchor.label.starts_with("3 selected: "),
        "count first, the way the board chip and the panel already say it: {}",
        attention.anchor.label
    );
    assert_eq!(
        attention.anchor.target, attention.target.target,
        "the single-target contract still points at the first member"
    );
}

#[test]
fn a_large_set_anchors_on_a_count_and_three_names() {
    let mut room = Room::at(0);
    room.attend_many(you(), AttentionMode::Selection, refs("atlas", &["a", "b", "c", "d", "e"]))
        .expect("a marquee over five");
    let attention = room.latest(ParticipantKind::Human).expect("the selection is live");
    assert_eq!(attention.anchor.count, 5);
    assert!(
        attention.anchor.label.starts_with("5 selected: ")
            && attention.anchor.label.ends_with(", and 2 more"),
        "{}",
        attention.anchor.label
    );
    assert_eq!(
        attention.anchor.labels.len(),
        5,
        "the tail is summarised for reading, not dropped from the payload"
    );
}

#[test]
fn a_repeated_target_does_not_inflate_the_count() {
    let mut room = Room::at(0);
    room.attend_many(you(), AttentionMode::Selection, refs("atlas", &["one", "one", "two"]))
        .expect("a set with a duplicate");
    let attention = room.latest(ParticipantKind::Human).expect("the selection is live");
    assert_eq!(attention.count(), 2, "a set counts things, not clicks");
}

#[test]
fn an_empty_or_oversized_selection_is_refused_honestly() {
    let mut room = Room::at(0);
    let empty = room
        .attend_many(you(), AttentionMode::Selection, Vec::new())
        .expect_err("an empty gesture is not a gesture");
    assert!(empty.contains("at least one"), "{empty}");

    let many = (0..=MAX_ATTENTION_TARGETS)
        .map(|index| SemanticTargetRef::new("atlas", &format!("n{index}")))
        .collect();
    let too_many = room
        .attend_many(you(), AttentionMode::Selection, many)
        .expect_err("a gesture has a ceiling");
    assert!(too_many.contains(&MAX_ATTENTION_TARGETS.to_string()), "{too_many}");
    assert!(room.snapshot().participants.is_empty(), "a refused gesture leaves nothing behind");
}

#[test]
fn a_set_reads_back_as_one_sentence_that_counts_first() {
    let mut room = Room::at(0);
    room.attend_many(you(), AttentionMode::Selection, refs("atlas", &["ingest", "queue", "worker"]))
        .expect("a marquee over three");
    let text = room.describe();
    assert_eq!(
        text.lines().filter(|line| line.contains("is active")).count(),
        1,
        "one gesture is one line:\n{text}"
    );
    assert!(text.contains("over 3 in atlas"), "{text}");
    for id in ["ingest", "queue", "worker"] {
        assert!(text.contains(id), "{id} missing from:\n{text}");
    }
}

#[test]
fn losing_one_member_prunes_the_set_and_losing_all_of_it_clears() {
    let mut room = Room::at(0);
    room.bare_labels = true;
    room.attend_many(you(), AttentionMode::Selection, refs("atlas", &["a", "b", "c"]))
        .expect("select three");

    room.gone.insert("a".to_string());
    let attention =
        room.latest(ParticipantKind::Human).expect("two members are still on screen");
    assert_eq!(attention.count(), 2);
    assert_eq!(
        attention.target.target.target_id, "b",
        "losing the first member promotes the next, it does not blank the gesture"
    );
    assert_eq!(
        attention.anchor.label, "2 selected: b, c",
        "the anchor follows the promotion and still describes the set"
    );
    assert_eq!(attention.anchor.count, 2);
    assert_eq!(
        attention.anchor.target.target_id, "b",
        "and its single-target head is the promoted member"
    );

    room.gone.insert("b".to_string());
    room.gone.insert("c".to_string());
    assert!(
        room.latest(ParticipantKind::Human).is_none(),
        "an empty set is no selection at all"
    );
}

#[test]
fn only_a_human_gesture_bumps_the_wake_revision() {
    let mut room = Room::at(0);
    let start = room.service.human_attention_revision();

    room.attend(
        Participant::agent("serving-agent", "Serving agent"),
        AttentionMode::Pointer,
        SemanticTargetRef::new("atlas", "one"),
    )
    .expect("the agent points");
    assert_eq!(
        room.service.human_attention_revision(),
        start,
        "an agent must not wake itself"
    );

    room.attend(you(), AttentionMode::Selection, SemanticTargetRef::new("atlas", "one"))
        .expect("the human selects");
    assert_eq!(room.service.human_attention_revision(), start + 1);

    room.clear(you()).expect("the human clears");
    assert_eq!(
        room.service.human_attention_revision(),
        start + 2,
        "clearing is a change a waiting agent needs to see"
    );
}

#[test]
fn namespace_is_part_of_target_identity() {
    let room = Room::at(0);
    let atlas_ref = SemanticTargetRef::new("atlas", "same");
    let board_ref = SemanticTargetRef::new("board", "same");
    let directory = room.directory(&[atlas_ref.copy(), board_ref.copy()]);
    let atlas = room.service.resolve(&atlas_ref, &directory).expect("atlas target");
    let board = room.service.resolve(&board_ref, &directory).expect("board target");
    assert_ne!(atlas.description, board.description);
    assert_eq!(atlas.target.target_id, board.target.target_id);
}

#[test]
fn active_expires_to_present_before_presence_expires() {
    let mut room = Room::at(10);
    room.attend(
        Participant::human("human-1", "Human"),
        AttentionMode::Selection,
        SemanticTargetRef::new("atlas", "node-1"),
    )
    .expect("focus accepted");
    let active = room.snapshot();
    assert!(active.participants[0].active);
    assert_eq!(active.participants[0].status, "active");
    assert_eq!(active.participants[0].active_for_ms, ACTIVE_LEASE_MS);
    assert_eq!(active.participants[0].present_for_ms, PRESENCE_LEASE_MS);

    room.now = 10 + ACTIVE_LEASE_MS + 1;
    let present = room.snapshot();
    assert!(!present.participants[0].active);
    assert!(present.participants[0].present);
    assert_eq!(present.participants[0].status, "present");
    assert!(present.participants[0].attention.is_none());

    room.now = 10 + PRESENCE_LEASE_MS + 1;
    assert!(room.snapshot().participants.is_empty());
}

#[test]
fn deliberate_departure_removes_presence_without_waiting_for_a_lease() {
    let mut room = Room::at(10);
    let agent = || Participant::agent("agent-seat", "agentseat");
    room.present(agent()).expect("agent is present");
    assert_eq!(room.snapshot().participants.len(), 1);

    let departed = room.depart(agent()).expect("agent departs");
    assert!(departed.participants.is_empty());
    assert!(room.snapshot().participants.is_empty());
}

#[test]
fn a_closed_tabs_presence_lease_drops_the_chip_within_the_stated_bound() {
    let mut room = Room::at(0);
    let person = || Participant::human("person-1", "Mike");

    room.present(person()).expect("tab one checks in");
    room.present(person()).expect("tab two checks in");
    assert_eq!(
        room.snapshot().participants.len(),
        1,
        "two tabs of one person are one chip while both are open"
    );

    for beat in 1..=3u64 {
        room.now = beat * 20_000;
        room.present(person()).expect("tab two heartbeat");
    }
    assert_eq!(
        room.snapshot().participants.len(),
        1,
        "the still-open tab keeps the chip present past the closed tab's own lease"
    );

    let last_heartbeat = 3 * 20_000;
    room.now = last_heartbeat + PRESENCE_LEASE_MS - 1;
    assert_eq!(
        room.snapshot().participants.len(),
        1,
        "still inside the {PRESENCE_LEASE_MS}ms bound"
    );
    room.now = last_heartbeat + PRESENCE_LEASE_MS + 1;
    assert!(
        room.snapshot().participants.is_empty(),
        "past the {PRESENCE_LEASE_MS}ms bound, a closed tab's chip must be gone"
    );
}

#[test]
fn a_held_selection_survives_while_the_browser_holding_it_is_present() {
    let mut room = Room::at(10);
    let human = || Participant::human("human-seat", "You");
    room.attend_many(
        human(),
        AttentionMode::Selection,
        refs("atlas", &["one", "two", "three", "four"]),
    )
    .expect("a marquee over four");

    for beat in 1..=5u64 {
        room.now = 10 + beat * 20_000;
        room.present(human()).expect("heartbeat");
    }
    let held =
        room.selection_in("atlas").expect("the selection is still held at 100 seconds");
    assert_eq!(held.count(), 4, "the whole set survives, not just the first");
    assert_eq!(
        ids(&held),
        vec!["one", "two", "three", "four"],
        "renewal must not reorder or truncate the set the human built"
    );
    assert_eq!(room.snapshot().participants[0].status, "active");
}

#[test]
fn a_pointer_still_lapses_while_its_participant_stays_present() {
    let mut room = Room::at(10);
    let agent = || Participant::agent("agent-seat", "agentseat");
    room.attend(agent(), AttentionMode::Pointer, SemanticTargetRef::new("atlas", "one"))
        .expect("a pointer");
    for beat in 1..=3u64 {
        room.now = 10 + beat * 20_000;
        room.present(agent()).expect("heartbeat");
    }
    assert!(
        room.latest(ParticipantKind::Agent).is_none(),
        "a pointer is brief on purpose and presence must not renew it"
    );
    assert_eq!(
        room.snapshot().participants[0].status,
        "present",
        "the agent is still in the room, just not pointing"
    );
}

#[test]
fn a_held_selection_lapses_once_its_browser_stops_reporting_presence() {
    let mut room = Room::at(10);
    let human = || Participant::human("human-seat", "You");
    room.attend(human(), AttentionMode::Selection, SemanticTargetRef::new("atlas", "one"))
        .expect("a selection");
    room.now = 10 + 20_000;
    room.present(human()).expect("one last heartbeat");
    room.now = 10 + 20_000 + PRESENCE_LEASE_MS + 1;
    assert!(
        room.selection_in("atlas").is_none(),
        "a selection nobody is holding any more must not outlive its holder"
    );
    assert!(
        room.snapshot().participants.is_empty(),
        "and the holder is gone from the room too"
    );
}

#[test]
fn a_newer_pointer_does_not_hide_a_live_selection_when_selection_is_requested() {
    let mut room = Room::at(10);
    room.attend(
        Participant::human("human-selection", "Selecting human"),
        AttentionMode::Selection,
        SemanticTargetRef::new("atlas", "selected-node"),
    )
    .expect("atlas selection");
    room.attend(
        Participant::human("human-pointer", "Pointing human"),
        AttentionMode::Pointer,
        SemanticTargetRef::new("board", "newer-pointer"),
    )
    .expect("newer pointer");

    let selection = room.selection_in("atlas");
    assert_eq!(
        selection.map(|attention| attention.target.target.target_id),
        Some("selected-node".to_string()),
        "a newer pointer must not blank a still-live Atlas selection"
    );
    let newest = room.latest(ParticipantKind::Human).expect("a live gesture");
    assert_eq!(newest.target.target.target_id, "newer-pointer");
}

fn member_names(value: &Json) -> Vec<String> {
    match value {
        Json::Object(members) => members.iter().map(|(name, _)| name.clone()).collect(),
        other => panic!("not an object: {other:?}"),
    }
}

#[test]
fn human_and_agent_have_the_same_serialized_shape() {
    let mut room = Room::at(0);
    room.present(Participant::human("h", "Human")).expect("human present");
    room.present(Participant::agent("a", "Agent")).expect("agent present");
    let value = snapshot_json(&room.snapshot());
    let participants = value.get("participants").unwrap().as_array().expect("participants");
    assert_eq!(member_names(&participants[0]), member_names(&participants[1]));
    assert_eq!(value.str_member("authority"), Some("context_only"));
    assert_eq!(value.bool_member("durable"), Some(false));
}

#[test]
fn semantic_target_point_reuses_the_calling_mcp_participant() {
    let mut room = Room::at(0);
    room.present(Participant::human("human-mike", "Mike")).expect("human present");
    room.present(Participant::agent("agent-agentseat", "agentseat"))
        .expect("attached MCP agent present");
    room.service.note_caller(&Actor {
        caller: Caller::Agent,
        label: Some("agentseat".to_string()),
        participant_id: Some("agent-agentseat".to_string()),
        hue: None,
        responsible: None,
    });

    let args = Json::parse(r#"{ "extension_id": "atlas", "target_id": "node-1" }"#).unwrap();
    let directory = room.directory(&refs("atlas", &["node-1"]));
    let said = run_host_action(&mut room.service, "semantic_target_point", &args, &directory, 0)
        .expect("a host action")
        .expect("point accepted");
    assert_eq!(said, "pointing at atlas:node-1: atlas meaning for node-1");

    let snapshot = room.snapshot();
    assert_eq!(snapshot.participants.len(), 2, "{snapshot:?}");
    let pointing = snapshot
        .participants
        .iter()
        .find(|entry| entry.active && entry.attention.is_some())
        .expect("one active pointer");
    assert_eq!(pointing.participant.id, "agent-agentseat");
    assert_eq!(pointing.participant.label, "agentseat");
    assert_eq!(snapshot.participants[0].participant.id, "agent-agentseat", "active first");
}

#[test]
fn deleted_target_is_not_returned_as_current_pointing_context() {
    let mut room = Room::at(10);
    room.attend(
        Participant::agent("agent-agentseat", "agentseat"),
        AttentionMode::Pointer,
        SemanticTargetRef::new("atlas", "node-1"),
    )
    .expect("point at live target");

    room.gone.insert("node-1".to_string());
    assert!(
        room.latest(ParticipantKind::Agent).is_none(),
        "a later act must not attach dead pointing context"
    );
    let read_back = room.describe();
    assert!(!read_back.contains("node-1"), "{read_back}");
    assert!(read_back.contains("agentseat (Agent) is present"), "{read_back}");
}

fn names_in(value: &Json, found: &mut Vec<String>) {
    match value {
        Json::Object(members) => {
            for (name, inner) in members {
                found.push(name.clone());
                names_in(inner, found);
            }
        }
        Json::Array(items) => items.iter().for_each(|item| names_in(item, found)),
        Json::Text(text) => found.push(text.clone()),
        _ => {}
    }
}

#[test]
fn host_action_schemas_never_accept_geometry_or_selectors() {
    let mut words = Vec::new();
    for action in host_actions() {
        names_in(&action.parameters, &mut words);
    }
    assert!(words.iter().any(|word| word == "target_id"));
    for word in words {
        for forbidden in ["selector", "coordinate"] {
            assert!(
                !word.contains(forbidden),
                "host schema leaked forbidden geometry term {forbidden}"
            );
        }
        assert!(word != "x" && word != "y", "host schema leaked a coordinate");
    }
}

#[test]
fn ids_are_checked_before_anything_else() {
    let mut room = Room::at(0);
    let error = |room: &mut Room, who: Participant| {
        room.attend(who, AttentionMode::Focus, SemanticTargetRef::new("atlas", "a")).unwrap_err()
    };
    assert_eq!(
        error(&mut room, Participant::human(" ", "You")),
        "participant id must not be empty"
    );
    assert_eq!(
        error(&mut room, Participant::human(&"a".repeat(161), "You")),
        "participant id is longer than 160 characters"
    );
    assert_eq!(
        error(&mut room, Participant::human("a b", "You")),
        "participant id may contain only ASCII letters, numbers, dot, underscore, colon, and dash"
    );
    assert_eq!(
        error(&mut room, Participant::human("a", "  ")),
        "participant label must not be empty"
    );
    assert_eq!(
        error(&mut room, Participant::human("a", &"x".repeat(121))),
        "participant label is longer than 120 characters"
    );
    let resolve = |room: &Room, extension: &str, id: &str, directory: &Directory| {
        room.service.resolve(&SemanticTargetRef::new(extension, id), directory).unwrap_err()
    };
    let nothing = Directory::new();
    assert_eq!(
        resolve(&room, "charts", "a", &nothing),
        "semantic target namespace \"charts\" is not registered"
    );
    assert_eq!(
        resolve(&room, "atlas", "a", &nothing),
        "semantic target atlas:a does not exist"
    );
    let mut odd = Directory::new();
    odd.insert(
        SemanticTargetRef::new("atlas", "a"),
        Lookup::Found(SemanticTarget::new(SemanticTargetRef::new("atlas", "b"), "l", "d")),
    );
    odd.insert(
        SemanticTargetRef::new("atlas", "c"),
        Lookup::Found(SemanticTarget::new(SemanticTargetRef::new("atlas", "c"), " ", "d")),
    );
    odd.insert(SemanticTargetRef::new("atlas", "e"), Lookup::Failed("disk".to_string()));
    assert_eq!(
        resolve(&room, "atlas", "a", &odd),
        "semantic target resolver for \"atlas\" returned a different id"
    );
    assert_eq!(
        resolve(&room, "atlas", "c", &odd),
        "semantic target atlas:c resolved without label and description"
    );
    assert_eq!(resolve(&room, "atlas", "e", &odd), "disk");
}

#[test]
fn namespaces_are_named_once_and_in_order() {
    let of = |names: &[&str]| {
        SemanticTargetService::new(&names.iter().map(|name| name.to_string()).collect())
            .map(|service| service.namespaces())
    };
    assert_eq!(of(&["board", "atlas"]), Ok(vec!["atlas".to_string(), "board".to_string()]));
    assert_eq!(
        of(&["atlas", "atlas"]),
        Err("semantic target namespace \"atlas\" is registered more than once".to_string())
    );
    assert_eq!(of(&[""]), Err("semantic target namespace must not be empty".to_string()));
}

#[test]
fn a_message_is_trimmed_and_bounded() {
    let mut room = Room::at(0);
    let reference = SemanticTargetRef::new("atlas", "a");
    let directory = room.directory(&[reference.copy()]);
    let long = Some("x".repeat(241));
    let refused = room.service.attend(
        you(),
        AttentionMode::Focus,
        reference.copy(),
        long,
        &directory,
        0,
    );
    assert_eq!(refused, Err("attention message is longer than 240 characters".to_string()));
    room.service
        .attend(
            you(),
            AttentionMode::Focus,
            reference,
            Some("  look \"here\"  ".to_string()),
            &directory,
            0,
        )
        .unwrap();
    let text = room.describe();
    assert!(
        text.ends_with("You (Human) is active at atlas:a: atlas meaning for a: \"look \\\"here\\\"\""),
        "{text}"
    );
}

#[test]
fn a_gesture_reads_back_as_a_sentence() {
    let gesture = |count: usize| {
        let mut room = Room::at(0);
        room.bare_labels = true;
        let names: Vec<String> = (1..=count).map(|n| format!("c{n}")).collect();
        let names: Vec<&str> = names.iter().map(String::as_str).collect();
        room.attend_many(you(), AttentionMode::Selection, refs("atlas", &names)).unwrap();
        room.latest(ParticipantKind::Human).unwrap().read_back_sentence("You", "selected")
    };
    assert_eq!(gesture(1), "You selected \"c1\"");
    assert_eq!(gesture(2), "You selected 2: \"c1\", \"c2\"");
    assert_eq!(
        gesture(10),
        "You selected 10: \"c1\", \"c2\", \"c3\", \"c4\", \"c5\", \"c6\", \"c7\", \"c8\", and 2 more"
    );
}

#[test]
fn an_anchor_names_one_target_plainly() {
    let target = SemanticTarget::new(SemanticTargetRef::new("atlas", "a"), "  Card  ", "d")
        .spatial(true);
    let anchor = ComposerAnchor::over(&vec![&target]);
    assert_eq!(anchor.label, "Card");
    assert_eq!(anchor.count, 1);
    assert!(target.spatial);
    assert!(AttentionMode::Selection.is_held() && AttentionMode::Focus.is_held());
    assert!(!AttentionMode::Pointer.is_held() && !AttentionMode::Reveal.is_held());
}

#[test]
fn an_actor_is_a_participant() {
    let actor = |caller, id: Option<&str>, label: Option<&str>| Actor {
        caller,
        label: label.map(str::to_string),
        participant_id: id.map(str::to_string),
        hue: None,
        responsible: None,
    };
    assert_eq!(
        participant_from_actor(&actor(Caller::Human, Some("p1"), Some("Mike"))),
        Participant::human("p1", "Mike")
    );
    assert_eq!(
        participant_from_actor(&actor(Caller::Agent, None, None)),
        Participant::agent("surface-agent", "Agent")
    );
    assert_eq!(
        participant_from_actor(&actor(Caller::Companion, Some("not an id"), Some("x"))),
        Participant::agent("companion-agent", "Companion agent")
    );
    assert_eq!(
        participant_from_actor(&actor(Caller::Unknown, None, None)),
        Participant::agent("unknown-caller", "Unknown caller")
    );
}

#[test]
fn host_actions_say_what_they_did() {
    let mut room = Room::at(0);
    let args = Json::parse(r#"{ "extension_id": "atlas", "target_id": "a" }"#).unwrap();
    let directory = room.directory(&refs("atlas", &["a"]));
    let run = |service: &mut SemanticTargetService, name: &str| {
        run_host_action(service, name, &args, &directory, 0)
    };
    assert_eq!(run(&mut room.service, "draw"), None);
    assert_eq!(
        run(&mut room.service, "semantic_targets_read"),
        Some(Ok(
            "Semantic attention (ephemeral context only; never authority):\n- nobody is present"
                .to_string()
        ))
    );
    assert_eq!(
        run(&mut room.service, "semantic_target_reveal"),
        Some(Ok("revealing atlas:a: atlas meaning for a".to_string()))
    );
    assert_eq!(room.latest(ParticipantKind::Agent).unwrap().mode, AttentionMode::Reveal);
    assert_eq!(
        run(&mut room.service, "semantic_attention_clear"),
        Some(Ok("cleared the agent's semantic pointer".to_string()))
    );
    assert!(room.latest(ParticipantKind::Agent).is_none());
    assert_eq!(
        run_host_action(
            &mut room.service,
            "semantic_target_point",
            &Json::Null,
            &directory,
            0
        ),
        Some(Err("extension id must not be empty".to_string()))
    );
}

fn named_action(name: &str) -> ActionDef {
    ActionDef::new(name.to_string(), "d".to_string(), Json::Object(Vec::new()))
}

#[test]
fn the_host_installs_its_actions_only_over_targets() {
    let plain = install(&vec![], vec![named_action("semantic_target_point")]).ok().unwrap();
    assert_eq!(plain.actions.len(), 1, "a surface without targets keeps its own actions");
    let hosted = install(&vec!["atlas".to_string()], vec![named_action("draw")]).ok().unwrap();
    let names: Vec<&str> = hosted.actions.iter().map(|action| action.name.as_str()).collect();
    assert_eq!(
        names,
        [
            "draw",
            "semantic_targets_read",
            "semantic_target_point",
            "semantic_target_reveal",
            "semantic_attention_clear"
        ]
    );
    let refused = install(
        &vec!["atlas".to_string()],
        vec![named_action("semantic_attention_clear")],
    );
    assert_eq!(
        refused.err(),
        Some(
            "surface action \"semantic_attention_clear\" collides with a semantic-target host action"
                .to_string()
        )
    );
}

#[test]
fn browsers_reach_the_service_over_routes() {
    let mut room = Room::at(0);
    let body = |text: &str| Json::parse(text).unwrap();
    assert_eq!(no_semantic_targets_reply().status, 404);
    let nobody = body(r#"{ "participantLabel": "x" }"#);
    assert_eq!(browser_participant(&nobody).unwrap_err().status, 400);
    let me = body(r#"{ "participantId": " p1 ", "participantLabel": "  " }"#);
    assert_eq!(browser_participant(&me), Ok(Participant::human("p1", "Human")));

    let nothing = Directory::new();
    let there = semantic_targets_presence(&mut room.service, &me, &nothing, 0);
    assert_eq!(there.status, 200);
    let bad = body(r#"{ "participantId": "p 1" }"#);
    assert_eq!(semantic_targets_presence(&mut room.service, &bad, &nothing, 0).status, 422);

    let directory = room.directory(&refs("atlas", &["a"]));
    let focus = body(
        r#"{ "participantId": "p1", "mode": "selection", "target": {}, "message": "hm" }"#,
    );
    let reply = semantic_targets_focus(
        &mut room.service,
        &focus,
        Ok(SemanticTargetRef::new("atlas", "a")),
        &directory,
        0,
    );
    assert_eq!(reply.status, 200);
    assert_eq!(reply.body.get("target").unwrap().str_member("label"), Some("atlas label"));
    assert_eq!(room.latest(ParticipantKind::Human).unwrap().message.as_deref(), Some("hm"));

    let refused = |room: &mut Room, text: &str, target: Result<SemanticTargetRef, String>| {
        let reply = semantic_targets_focus(&mut room.service, &body(text), target, &directory, 0);
        (reply.status, reply.body.str_member("error").unwrap_or("").to_string())
    };
    let some = || Ok(SemanticTargetRef::new("atlas", "a"));
    assert_eq!(
        refused(&mut room, r#"{ "participantId": "p1", "mode": "pointer" }"#, some()),
        (400, "browser attention mode \"pointer\" must be focus or selection".to_string())
    );
    assert_eq!(
        refused(&mut room, r#"{ "participantId": "p1" }"#, some()),
        (400, "missing semantic target".to_string())
    );
    assert_eq!(
        refused(&mut room, r#"{ "participantId": "p1", "target": 1 }"#, Err("no".to_string())),
        (400, "invalid semantic target: no".to_string())
    );
    assert_eq!(
        refused(
            &mut room,
            r#"{ "participantId": "p1", "target": {} }"#,
            Ok(SemanticTargetRef::new("atlas", "zzz"))
        ),
        (422, "semantic target atlas:zzz does not exist".to_string())
    );
    assert_eq!(semantic_targets_clear(&mut room.service, &me, &directory, 0).status, 200);
    assert!(room.latest(ParticipantKind::Human).is_none());
    let all = semantic_targets_get(&mut room.service, &directory, 0);
    assert_eq!(all.body.get("snapshot").unwrap().str_member("authority"), Some("context_only"));
}

#[test]
fn a_client_that_connects_hears_the_awareness_last() {
    let mut room = Room::at(0);
    let snapshot = room.snapshot();
    let events = reconnect_events(vec![Event::Encoded("own".to_string())], &snapshot);
    assert_eq!(events.len(), 2);
    match &events[1] {
        Event::Custom { name, .. } => assert_eq!(name, "surface.semantic-targets"),
        other => panic!("unexpected {other:?}"),
    }
    assert!(describe_snapshot(&snapshot).ends_with("nobody is present"));
}

#[test]
fn a_phrase_stands_for_a_target_in_its_own_namespace() {
    let named = SemanticTargetRef::new("atlas", "n1");
    let known = || Ok(Some("a node".to_string()));
    match semantic_target(&named, known()) {
        Lookup::Found(found) => {
            assert_eq!((found.label.as_str(), found.description.as_str()), ("a node", "a node"));
            assert!(!found.spatial);
        }
        other => panic!("unexpected {other:?}"),
    }
    assert_eq!(semantic_target(&named, Ok(None)), Lookup::Missing);
    let failed = || Lookup::Failed("gone".to_string());
    assert_eq!(semantic_target(&named, Err("gone".to_string())), failed());
    let atlas = vec!["atlas".to_string()];
    assert_eq!(resolve_semantic_target(&atlas, &named, failed()), failed());
    let board = vec!["board".to_string()];
    assert_eq!(
        resolve_semantic_target(&board, &named, semantic_target(&named, known())),
        Lookup::Missing
    );
}

/// The entry of a participant in a snapshot.
fn entry<'a>(
    snapshot: &'a AttentionSnapshot,
    who: &Participant,
) -> &'a ag_ui_surface::awareness::ParticipantAwareness {
    snapshot.participants.iter().find(|shown| shown.participant.id == who.id).expect("shown")
}

#[test]
fn a_heartbeat_after_a_gesture_renews_what_is_held_alone() {
    for (mode, active) in [
        (AttentionMode::Focus, 45_000),
        (AttentionMode::Selection, 45_000),
        (AttentionMode::Pointer, 20_000),
        (AttentionMode::Reveal, 20_000),
    ] {
        let mut room = Room::at(10);
        room.attend(you(), mode, SemanticTargetRef::new("atlas", "one")).unwrap();
        room.now = 5_000;
        let other = || Participant::agent("agent-seat", "Other");
        room.attend(other(), AttentionMode::Reveal, SemanticTargetRef::new("board", "two"))
            .unwrap();
        room.now = 7_000;
        room.depart(other()).unwrap();
        room.now = 10_010;
        let revision = room.service.human_attention_revision();
        let snapshot = room.present(you()).unwrap();
        let shown = entry(&snapshot, &you());
        assert!(shown.active && shown.present);
        assert_eq!(shown.status, "active");
        assert_eq!(shown.present_for_ms, 45_000);
        assert_eq!(shown.active_for_ms, active, "{mode:?}");
        let attention = shown.attention.as_ref().unwrap();
        assert_eq!(attention.mode, mode);
        assert_eq!(ids(attention), ["one"]);
        assert_eq!(room.service.human_attention_revision(), revision);
    }
}

#[test]
fn whoever_attends_to_nothing_has_no_time_left_to_attend() {
    let mut room = Room::at(10);
    room.attend(you(), AttentionMode::Focus, SemanticTargetRef::new("atlas", "one")).unwrap();
    let agent = Participant::agent("agent-seat", "Agent");
    room.attend(
        Participant::agent("agent-seat", "Agent"),
        AttentionMode::Pointer,
        SemanticTargetRef::new("board", "two"),
    )
    .unwrap();
    room.gone.insert("one".to_string());
    room.now = 20;
    let snapshot = room.snapshot();
    assert_eq!(snapshot.schema_version, 1);
    assert_eq!(snapshot.authority, "context_only");
    assert!(!snapshot.durable);
    assert_eq!(snapshot.participants[0].participant.id, agent.id, "whoever is active is first");
    let lost = entry(&snapshot, &you());
    assert!(!lost.active && lost.attention.is_none());
    assert_eq!((lost.status, lost.active_for_ms, lost.present_for_ms), ("present", 0, 44_990));
    room.now = 30;
    let cleared = room.clear(Participant::agent("agent-seat", "Agent")).unwrap();
    let idle = entry(&cleared, &agent);
    assert_eq!((idle.status, idle.active_for_ms, idle.present_for_ms), ("present", 0, 45_000));
    assert_eq!(cleared.participants[0].participant.id, you().id, "people stand before agents");
}

#[test]
fn only_a_change_is_told() {
    let done: Result<String, String> = Ok("done".to_string());
    let failed: Result<String, String> = Err("no".to_string());
    for name in ["semantic_target_point", "semantic_target_reveal", "semantic_attention_clear"] {
        assert!(changes_attention(name, &done));
        assert!(!changes_attention(name, &failed));
    }
    assert!(!changes_attention("semantic_targets_read", &done));
    assert!(!changes_attention("write", &done));
    let write = || {
        vec![ActionDef::new(
            "semantic_target_point".to_string(),
            "Points.".to_string(),
            Json::Null,
        )]
    };
    assert_eq!(check_install(&vec![], &write()), Ok(()));
    assert_eq!(
        check_install(&vec!["atlas".to_string()], &write()),
        Err("surface action \"semantic_target_point\" collides with a semantic-target host action"
            .to_string())
    );
}
