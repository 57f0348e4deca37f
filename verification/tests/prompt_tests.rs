use chatcore::gate::SerializerGate;
use chatcore::history::ChatHistory;
use chatcore::history::Message;
use chatcore::history::Role;
use chatcore::prompt::build_prompt;
use chatcore::prompt::role_str;
use chatcore::request::begin_request;
use chatcore::request::compose_reply;
use chatcore::request::record_response;

#[test]
fn roles_render_as_their_labels() {
    assert_eq!(role_str(Role::System), "system");
    assert_eq!(role_str(Role::User), "user");
    assert_eq!(role_str(Role::Assistant), "assistant");
}

#[test]
fn prompt_lines_up_directive_history_and_cursor() {
    let msgs = vec![
        Message { role: Role::User, content: "Hi".to_string() },
        Message { role: Role::Assistant, content: "Hello".to_string() },
    ];
    let p = build_prompt("Be helpful", &msgs);
    assert_eq!(p, "system: Be helpful\nuser: Hi\nassistant: Hello\nAssistant:");
}

#[test]
fn empty_history_renders_directive_and_cursor_only() {
    let p = build_prompt("Be helpful", &Vec::new());
    assert_eq!(p, "system: Be helpful\nAssistant:");
}

#[test]
fn identical_inputs_yield_identical_prompts() {
    let msgs = vec![Message { role: Role::User, content: "Q".to_string() }];
    let msgs2 = vec![Message { role: Role::User, content: "Q".to_string() }];
    assert_eq!(build_prompt("D", &msgs), build_prompt("D", &msgs2));
}

#[test]
fn request_appends_user_turn_then_assistant_turn() {
    let mut h = ChatHistory::new(5, "D".to_string());
    let prompt = begin_request(&mut h, "Hi");
    assert_eq!(prompt, "system: D\nuser: Hi\nAssistant:");
    assert_eq!(h.len(), 1);

    record_response(&mut h, "Yo");
    let snap = h.snapshot();
    assert_eq!(snap.len(), 2);
    assert!(matches!(snap[0].role, Role::User));
    assert_eq!(snap[0].content, "Hi");
    assert!(matches!(snap[1].role, Role::Assistant));
    assert_eq!(snap[1].content, "Yo");
}

#[test]
fn empty_response_is_not_recorded() {
    let mut h = ChatHistory::new(5, "D".to_string());
    begin_request(&mut h, "Hi");
    record_response(&mut h, "");
    assert_eq!(h.len(), 1);
}

#[test]
fn user_turn_stays_recorded_after_a_failed_generation() {
    // The user's turn joins the history before generation is attempted and
    // is not rolled back on a fatal failure: the next prompt sees it.
    let mut h = ChatHistory::new(5, "D".to_string());
    begin_request(&mut h, "first");
    // Generation failed: nothing recorded.
    let prompt = begin_request(&mut h, "second");
    assert_eq!(prompt, "system: D\nuser: first\nuser: second\nAssistant:");
}

#[test]
fn reply_names_the_asker_question_and_answer() {
    let r = compose_reply("alice", "why?", "because.");
    assert_eq!(r, "**alice asked:** why?\n\n**AI Response:** because.");
}

#[test]
fn permit_is_exclusive_until_released() {
    let mut g = SerializerGate::new();
    assert!(g.try_acquire());
    assert!(!g.try_acquire());
    g.release();
    assert!(g.try_acquire());
}
