use chatcore::history::ChatHistory;
use chatcore::history::Message;
use chatcore::history::Role;

fn msg(role: Role, content: &str) -> Message {
    Message { role, content: content.to_string() }
}

#[test]
fn window_keeps_latest_five_in_order() {
    let mut h = ChatHistory::new(5, "directive".to_string());
    for i in 1..=7 {
        h.append(msg(Role::User, &format!("m{}", i)));
        assert!(h.len() <= 5);
    }
    let snap = h.snapshot();
    assert_eq!(snap.len(), 5);
    let contents: Vec<String> = snap.iter().map(|m| m.content.clone()).collect();
    assert_eq!(contents, vec!["m3", "m4", "m5", "m6", "m7"]);
}

#[test]
fn window_of_one_keeps_only_last() {
    let mut h = ChatHistory::new(1, String::new());
    h.append(msg(Role::User, "first"));
    h.append(msg(Role::Assistant, "second"));
    let snap = h.snapshot();
    assert_eq!(snap.len(), 1);
    assert_eq!(snap[0].content, "second");
    assert!(matches!(snap[0].role, Role::Assistant));
}

#[test]
fn append_below_window_keeps_everything() {
    let mut h = ChatHistory::new(5, String::new());
    h.append(msg(Role::User, "a"));
    h.append(msg(Role::Assistant, "b"));
    let snap = h.snapshot();
    assert_eq!(snap.len(), 2);
    assert_eq!(snap[0].content, "a");
    assert_eq!(snap[1].content, "b");
}

#[test]
fn truncate_to_drops_oldest() {
    let mut h = ChatHistory::new(5, String::new());
    for i in 1..=5 {
        h.append(msg(Role::User, &format!("m{}", i)));
    }
    h.truncate_to(2);
    let snap = h.snapshot();
    assert_eq!(snap.len(), 2);
    assert_eq!(snap[0].content, "m4");
    assert_eq!(snap[1].content, "m5");
}

#[test]
fn truncate_within_limit_changes_nothing() {
    let mut h = ChatHistory::new(5, String::new());
    h.append(msg(Role::User, "only"));
    h.truncate_to(3);
    let snap = h.snapshot();
    assert_eq!(snap.len(), 1);
    assert_eq!(snap[0].content, "only");
}

#[test]
fn reset_clears_and_seeds() {
    let mut h = ChatHistory::new(5, "keep me".to_string());
    h.append(msg(Role::User, "gone"));
    h.reset(Some(msg(Role::System, "seed")));
    let snap = h.snapshot();
    assert_eq!(snap.len(), 1);
    assert!(matches!(snap[0].role, Role::System));
    assert_eq!(snap[0].content, "seed");
    assert_eq!(h.directive(), "keep me");

    h.reset(None);
    assert_eq!(h.len(), 0);
    assert_eq!(h.directive(), "keep me");
}

#[test]
fn mission_change_replaces_directive_and_clears() {
    let mut h = ChatHistory::new(5, "old mission".to_string());
    h.append(msg(Role::User, "gone"));
    h.reset_with_directive("new mission".to_string());
    assert_eq!(h.len(), 0);
    assert_eq!(h.directive(), "new mission");
    assert_eq!(h.window(), 5);
}
