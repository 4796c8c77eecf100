use daub::protocol::{prepare_calls, CallSequence, PrepareCall, Step};

#[test]
fn renderers_start_before_and_finish_after_all_batches() {
    let calls = prepare_calls(2, &[(0, 1), (1, 0)]);
    assert_eq!(
        calls,
        vec![
            PrepareCall::Start(0),
            PrepareCall::Start(1),
            PrepareCall::Batch { layer: 0, batch: 1 },
            PrepareCall::Batch { layer: 1, batch: 0 },
            PrepareCall::Finish(0),
            PrepareCall::Finish(1),
        ]
    );
    assert_eq!(prepare_calls(1, &[]), vec![PrepareCall::Start(0), PrepareCall::Finish(0)]);
}

#[test]
fn a_failing_call_stops_the_sequence() {
    let mut steps = CallSequence::new(prepare_calls(1, &[(0, 0), (0, 1)]));
    assert_eq!(steps.next(true), Step::Call(PrepareCall::Start(0)));
    assert_eq!(steps.next(true), Step::Call(PrepareCall::Batch { layer: 0, batch: 0 }));
    assert_eq!(steps.next(false), Step::Stopped);
    assert_eq!(steps.next(true), Step::Stopped);
}

#[test]
fn a_successful_sequence_ends_done() {
    let mut steps = CallSequence::new(vec![7u8, 9u8]);
    assert_eq!(steps.next(true), Step::Call(7));
    assert_eq!(steps.next(true), Step::Call(9));
    assert_eq!(steps.next(true), Step::Done);
    assert_eq!(steps.next(true), Step::Done);
}
