use hooch::task::offload::{Offload, OffloadStep};

#[test]
fn first_poll_starts_work_once() {
    let mut state = Offload::new();
    assert_eq!(state.step(false), OffloadStep::Start);
    assert_eq!(state.step(false), OffloadStep::Wait);
    assert_eq!(state.step(false), OffloadStep::Wait);
    assert_eq!(state.step(true), OffloadStep::Finish);
}

#[test]
fn first_poll_starts_even_when_result_is_ready() {
    let mut state = Offload::new();
    assert_eq!(state.step(true), OffloadStep::Start);
    assert_eq!(state.step(true), OffloadStep::Finish);
}
