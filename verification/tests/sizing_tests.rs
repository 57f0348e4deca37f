use chatcore::sizing::Budget;
use chatcore::sizing::SizeError;
use chatcore::sizing::size_budget;
use chatcore::sizing::BATCH_CEILING;
use chatcore::sizing::CONTEXT_CEILING;
use chatcore::sizing::DECODE_THREADS;

#[test]
fn batch_is_total_under_the_ceiling() {
    let b = size_budget(100, 1024).unwrap();
    assert_eq!(
        b,
        Budget { batch: 1124, context: CONTEXT_CEILING, threads: DECODE_THREADS }
    );
}

#[test]
fn batch_is_capped_at_the_ceiling() {
    let b = size_budget(4000, 1024).unwrap();
    assert_eq!(b.batch, BATCH_CEILING);
    assert_eq!(b.batch, 4096);
}

#[test]
fn exactly_at_the_batch_ceiling() {
    let b = size_budget(3072, 1024).unwrap();
    assert_eq!(b.batch, 4096);
}

#[test]
fn context_overflow_is_rejected() {
    let r = size_budget(32000, 1024);
    assert_eq!(r, Err(SizeError::ContextOverflow));
}

#[test]
fn exactly_at_the_context_ceiling_is_accepted() {
    let b = size_budget(31744, 1024).unwrap();
    assert_eq!(b.batch, 4096);
    assert_eq!(b.context, 32768);
}

#[test]
fn one_past_the_context_ceiling_is_rejected() {
    assert!(size_budget(31745, 1024).is_err());
}

#[test]
fn huge_inputs_do_not_wrap_around() {
    assert_eq!(size_budget(usize::MAX, 1), Err(SizeError::ContextOverflow));
    assert_eq!(size_budget(1, usize::MAX), Err(SizeError::ContextOverflow));
}
