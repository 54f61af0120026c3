use ag_ui_surface::activity::{ActivityOutcome, Listening, Record};
use ag_ui_surface::caller::Caller;
use ag_ui_surface::events::Event;
use ag_ui_surface::json::Json;
use ag_ui_surface::narration::{
    awaits_after, sanitize_for_speech, sentence_break, tutor_event_value, Conversation, Effects,
    Narration, SpeakerAction, SpeechQueue,
};

fn talking(audio_on: bool) -> Conversation {
    let mut conversation = Conversation::new("pi", audio_on);
    conversation.warming = false;
    conversation.busy = true;
    conversation
}

fn say(text: &str) -> Narration {
    Narration::Say(text.to_string())
}

fn tutor_word(event: &Event) -> String {
    match event {
        Event::Custom { name, value } => {
            assert_eq!(name, "surface.tutor");
            value.str_member("state").unwrap().to_string()
        }
        other => panic!("unexpected {other:?}"),
    }
}

#[test]
fn streamed_deltas_form_one_agui_message_and_one_history_entry() {
    let mut conversation = talking(false);
    let mut events: Vec<Event> = Vec::new();
    events.extend(conversation.narrate_chunk("Hello ", "m1").events);
    events.extend(conversation.narrate_chunk("world.", "m2").events);
    events.extend(conversation.narrate_flush().events);
    let id = || "m1".to_string();
    assert_eq!(
        events,
        [
            Event::TextMessageStart { id: id() },
            Event::TextMessageContent { id: id(), delta: "Hello ".to_string() },
            Event::TextMessageContent { id: id(), delta: "world.".to_string() },
            Event::TextMessageEnd { id: id() },
        ]
    );
    assert_eq!(conversation.history.len(), 1);
    assert_eq!(conversation.history[0].text, "Hello world.");
}

#[test]
fn reconnect_boundary_replays_or_queues_each_delta_exactly_once() {
    let mut conversation = talking(false);
    conversation.narrate_chunk("A", "m");
    let replay = conversation.active_message_events();
    assert_eq!(
        replay[1],
        Event::TextMessageContent { id: "m".to_string(), delta: "A".to_string() }
    );
    let queued = conversation.narrate_chunk("B", "n").events;
    assert_eq!(
        queued,
        [Event::TextMessageContent { id: "m".to_string(), delta: "B".to_string() }]
    );
    conversation.narrate_flush();
    assert!(conversation.active_message_events().is_empty());
    assert_eq!(conversation.history[0].text, "AB");
}

#[test]
fn late_update_after_cancel_cannot_reopen_display_or_speech_state() {
    let mut conversation = talking(false);
    conversation.narrate_chunk("partial", "m");
    conversation.busy = false;
    conversation.narrate_cancel();
    let late = conversation.narrate_chunk("late update", "n");
    assert!(late.events.is_empty() && late.speech.is_empty());
    assert!(conversation.active.is_none());
    assert!(conversation.speech.is_empty());
    assert_eq!(conversation.history.len(), 1);
    assert_eq!(conversation.history[0].text, "partial");
}

#[test]
fn sentence_then_cancel_orders_say_before_hush_and_suppresses_late_output() {
    let mut conversation = talking(true);
    let mut speech: Vec<Narration> = Vec::new();
    let mut note = |effects: Effects| speech.extend(effects.speech);
    note(conversation.narrate_chunk("first sentence. ", "m"));
    note(conversation.narrate_cancel());
    note(conversation.finish_turn());
    note(conversation.narrate_chunk("late sentence. ", "n"));
    assert_eq!(speech, [say("first sentence."), Narration::Hush]);
}

#[test]
fn another_session_does_not_speak_in_a_turn() {
    let mut conversation = talking(false);
    conversation.stream_session = Some("s2".to_string());
    assert!(conversation.narrate_provider_chunk("s1", "stale", "m").events.is_empty());
    assert!(!conversation.narrate_provider_chunk("s2", "fresh", "m").events.is_empty());
}

#[test]
fn sentences_end_before_a_blank() {
    let break_at = |text: &str| sentence_break(&text.chars().collect());
    assert_eq!(break_at("One. Two"), Some(3));
    assert_eq!(break_at("v1.2 is out"), None);
    assert_eq!(break_at("Really? Yes"), Some(6));
    assert_eq!(break_at(""), None);
    assert_eq!(sanitize_for_speech("**bold** `code` # > | ~ _x_"), "bold code     x");
}

#[test]
fn a_turn_shows_what_it_does() {
    let mut conversation = Conversation::new("pi", false);
    conversation.ready = true;
    conversation.warming = false;
    let begun = conversation.begin_human_turn("you", "why?", None, Some("why?"));
    assert!(conversation.busy);
    assert_eq!(conversation.history[0].by, "you");
    assert_eq!(tutor_word(begun.events.last().unwrap()), "thinking");
    let failed = conversation.fail_turn("provider lost");
    assert!(!conversation.busy);
    assert!(!failed.events.is_empty());
    conversation.begin_human_turn("you", "again", None, None);
    let done = conversation.finish_turn();
    assert!(!conversation.busy);
    assert_eq!(tutor_word(done.events.last().unwrap()), "done");
}

#[test]
fn transport_tutor_state_is_live_and_shared_with_reconnect_state() {
    assert!(awaits_after(false, "awaiting"));
    assert!(!awaits_after(true, "thinking"));
    let live = tutor_event_value("awaiting", Some("recall?"));
    assert_eq!(tutor_word(&live), "awaiting");
    let mut conversation = Conversation::new("pi", false);
    conversation.tutor_event("awaiting", Some("recall?"));
    assert!(conversation.awaiting);
    conversation.tutor_event("thinking", None);
    assert!(!conversation.awaiting);
}

#[test]
fn history_keeps_the_newest_lines() {
    let mut conversation = Conversation::new("pi", false);
    for n in 0..300 {
        conversation.push_history("you", &format!("line {n}"));
    }
    assert!(conversation.history.len() < 300);
    assert_eq!(conversation.history.last().unwrap().text, "line 299");
    let effects = conversation.push_history_and_surface_event(
        "you",
        "noted",
        "surface.note",
        Json::Bool(true),
    );
    assert_eq!(effects.events.len(), 1);
    assert_eq!(conversation.history.last().unwrap().text, "noted");
}

#[test]
fn a_notice_is_a_message_of_its_own() {
    let mut conversation = Conversation::new("pi", true);
    let effects = conversation.emit_narrate("Saved.", "m");
    assert_eq!(effects.events.len(), 3);
    assert!(effects.speech.is_empty(), "a notice is shown, not spoken");
    assert_eq!(conversation.history[0].text, "Saved.");
    assert_eq!(conversation.hush().speech, [Narration::Hush]);
    conversation.warming = false;
    conversation.busy = true;
    conversation.narrate_chunk("half", "n");
    conversation.reset_narration();
    assert!(conversation.active.is_none() && conversation.speech.is_empty());
    conversation.warming = true;
    assert_eq!(conversation.initial_tutor_state().str_member("state"), Some("warming"));
}

#[test]
fn hush_clears_the_queue_and_stops_the_speaker() {
    let mut queue = SpeechQueue::new();
    assert_eq!(queue.command(Some(say("one"))), SpeakerAction::Continue);
    assert_eq!(queue.command(Some(say("two"))), SpeakerAction::Continue);
    assert_eq!(queue.next_line().as_deref(), Some("one"));
    assert_eq!(queue.next_line(), None, "one line at a time");
    assert_eq!(queue.command(Some(Narration::Hush)), SpeakerAction::Stop);
    assert!(queue.lines.is_empty());
    queue.command(Some(say("later")));
    queue.line_ended();
    assert_eq!(queue.next_line().as_deref(), Some("later"));
    assert_eq!(queue.command(None), SpeakerAction::StopAndExit);
    assert_eq!(SpeechQueue::new().command(None), SpeakerAction::Exit);
}

#[test]
fn accepted_human_turn_exposes_history_and_thinking_at_one_replay_boundary() {
    let mut conversation = Conversation::new("pi", false);
    conversation.warming = false;
    conversation.ready = true;
    assert!(!conversation.busy);
    assert!(conversation.history.is_empty());
    let told = Json::parse(r#"{ "text": "atomic question" }"#).unwrap();
    let shown = Event::Custom { name: "surface.ask".to_string(), value: told };
    conversation.begin_human_turn(
        "you",
        "atomic question",
        Some(shown),
        Some("atomic question"),
    );
    assert_eq!(conversation.history[0].text, "atomic question");
    assert_eq!(conversation.initial_tutor_state().str_member("state"), Some("thinking"));
}

#[test]
fn unavailable_turn_queue_publishes_terminal_failed_state() {
    let mut conversation = Conversation::new("pi", false);
    conversation.warming = false;
    conversation.ready = true;
    conversation.begin_human_turn("you", "provider disappeared", None, None);
    conversation.fail_turn("tutor unavailable");
    assert!(!conversation.busy);
    assert_eq!(conversation.initial_tutor_state().str_member("state"), Some("failed"));
}

#[test]
fn a_turn_is_on_record_as_one_run() {
    let mut conversation = Conversation::new("pi", false);
    conversation.warming = false;
    let mut records: Vec<Record> = Vec::new();
    let mut note = |effects: Effects| records.extend(effects.records);
    note(conversation.begin_human_turn_with("you", "why?", None, Some("why?"), "1"));
    note(conversation.narrate_chunk("Because.", "m"));
    note(conversation.narrate_flush());
    note(conversation.finish_turn());
    assert_eq!(conversation.run, None);
    let run = || Some("run-1".to_string());
    let message = |by, name: &str, outcome, message: Option<&str>, detail: Option<&str>| {
        Record::Message {
            by,
            name: name.to_string(),
            outcome,
            run: run(),
            message: message.map(|text| text.to_string()),
            detail: detail.map(|text| text.to_string()),
        }
    };
    let lifecycle = |name: &str, outcome, detail: Option<&str>| Record::Lifecycle {
        name: name.to_string(),
        outcome,
        run: run(),
        detail: detail.map(|text| text.to_string()),
    };
    let (started, succeeded) = (ActivityOutcome::Started, ActivityOutcome::Succeeded);
    assert_eq!(
        records,
        [
            message(Caller::Human, "message.human_submitted", started, None, Some("4 characters")),
            lifecycle("lifecycle.thinking", started, Some("why?")),
            message(Caller::Agent, "message.assistant_started", started, Some("m"), None),
            message(
                Caller::Agent,
                "message.assistant_finished",
                succeeded,
                Some("m"),
                Some("8 characters")
            ),
            lifecycle("lifecycle.done", succeeded, None),
        ]
    );
    conversation.begin_human_turn("you", "again", None, None);
    assert_eq!(conversation.run.as_deref().map(|run| run.len()), Some("run-".len() + 32));
}

#[test]
fn nothing_is_said_with_audio_off() {
    let mut conversation = talking(true);
    assert_eq!(conversation.set_audio(false).speech, [Narration::Hush]);
    assert!(conversation.narrate_chunk("One. Two", "m").speech.is_empty());
    assert!(conversation.narrate_flush().speech.is_empty());
    assert!(conversation.set_audio(true).speech.is_empty());
    assert_eq!(conversation.narrate_chunk("One. Two", "n").speech, [say("One.")]);
}

#[test]
fn a_failure_is_on_record_until_a_switch() {
    let mut conversation = Conversation::new("pi", false);
    let failed = conversation.fail_turn("no key");
    assert_eq!(
        failed.records[1],
        Record::Failure {
            name: "lifecycle.failed".to_string(),
            caller: None,
            run: None,
            error: "no key".to_string(),
        }
    );
    let switched = conversation.begin_switch();
    assert_eq!(tutor_word(&switched.events[0]), "warming");
    assert!(conversation.warming && !conversation.ready && conversation.provider_error.is_none());
    let ready = conversation.tutor_event("ready", None);
    assert_eq!(
        ready.records[1],
        Record::Provider {
            name: "provider.ready".to_string(),
            outcome: ActivityOutcome::Succeeded,
            run: None,
            provider: "pi".to_string(),
        }
    );
    assert_eq!(
        Listening::Events.disconnected(),
        Record::Connection {
            name: "connection.sse".to_string(),
            outcome: ActivityOutcome::Disconnected,
            detail: Some("transport subscriber disconnected".to_string()),
        }
    );
    assert_ne!(Listening::Events.connected(), Listening::Replica.connected());
}
