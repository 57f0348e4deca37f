use chatcore::decode::DecodeState;
use chatcore::decode::GenError;
use chatcore::decode::GenStatus;
use chatcore::decode::StepAction;
use chatcore::decode::prefill_layout;

#[test]
fn empty_prompt_has_no_active_position() {
    let st = DecodeState::new(0, 10);
    assert_eq!(st.status(), GenStatus::Failed(GenError::NoActivePosition));
    assert_eq!(st.take_result(), Err(GenError::NoActivePosition));
}

#[test]
fn run_to_token_budget() {
    let mut st = DecodeState::new(3, 6);
    assert_eq!(st.status(), GenStatus::Running);

    assert_eq!(st.next_action(), StepAction::Sample);
    st.on_token(Some("He"), true);
    assert_eq!(st.next_action(), StepAction::Sample);
    st.on_token(None, true); // undecodable token: skipped, not fatal
    assert_eq!(st.next_action(), StepAction::Sample);
    st.on_token(Some("y"), true);

    // Position reached the target: exactly 3 = 6 - 3 decode steps ran.
    assert_eq!(st.decoded_count(), 3);
    assert_eq!(st.next_action(), StepAction::Finish);
    assert_eq!(st.status(), GenStatus::Running);
    st.on_budget_exhausted();
    assert_eq!(st.status(), GenStatus::DoneMaxLen);
    assert_eq!(st.take_result(), Ok("Hey".to_string()));
}

#[test]
fn eos_ends_the_run_without_emitting() {
    let mut st = DecodeState::new(1, 5);
    st.on_token(Some("a"), true);
    assert_eq!(st.next_action(), StepAction::Sample);
    st.on_eos();
    assert_eq!(st.status(), GenStatus::DoneEos);
    assert_eq!(st.next_action(), StepAction::Finish);
    // The end-of-sequence marker's text is not part of the output.
    assert_eq!(st.take_result(), Ok("a".to_string()));
}

#[test]
fn failed_submission_is_fatal() {
    let mut st = DecodeState::new(1, 5);
    st.on_token(Some("x"), false);
    assert_eq!(st.status(), GenStatus::Failed(GenError::Decode));
    assert_eq!(st.next_action(), StepAction::Finish);
    assert_eq!(st.take_result(), Err(GenError::Decode));
}

#[test]
fn prompt_at_target_finishes_without_sampling() {
    let mut st = DecodeState::new(7, 6);
    assert_eq!(st.next_action(), StepAction::Finish);
    st.on_budget_exhausted();
    assert_eq!(st.decoded_count(), 0);
    assert_eq!(st.take_result(), Ok(String::new()));
}

#[test]
fn prefill_marks_only_the_final_token() {
    let v = prefill_layout(3);
    assert_eq!(v.len(), 3);
    assert_eq!((v[0].pos, v[0].last), (0, false));
    assert_eq!((v[1].pos, v[1].last), (1, false));
    assert_eq!((v[2].pos, v[2].last), (2, true));

    let single = prefill_layout(1);
    assert_eq!(single.len(), 1);
    assert_eq!((single[0].pos, single[0].last), (0, true));
}
