use trapeze::frame::{discard_chunk, read_plan, ReadPlan, HEADER_LENGTH};
use trapeze::lifecycle::{ServerAction, ServerEvent, ServerLifecycle, ServerPhase};

#[test]
fn graceful_shutdown_waits_for_call() {
    let mut server = ServerLifecycle::new();
    assert_eq!(server.step(ServerEvent::Accepted), ServerAction::Spawn);
    assert_eq!(server.in_flight(), 1);
    // a long unary call is running when shutdown is asked for
    assert_eq!(server.step(ServerEvent::Shutdown), ServerAction::StopListening);
    assert_eq!(server.phase(), ServerPhase::Draining);
    // no connection is taken any more
    assert_eq!(server.step(ServerEvent::Accepted), ServerAction::Refuse);
    // the call completes normally, and the server ends well
    assert_eq!(server.step(ServerEvent::TaskDone), ServerAction::Resolve);
    assert_eq!(server.phase(), ServerPhase::Finished);
    assert_eq!(server.step(ServerEvent::Accepted), ServerAction::Ignore);
}

#[test]
fn idle_shutdown_resolves_at_once() {
    let mut server = ServerLifecycle::new();
    assert_eq!(server.step(ServerEvent::Shutdown), ServerAction::Resolve);
    assert_eq!(server.phase(), ServerPhase::Finished);
}

#[test]
fn terminate_aborts() {
    let mut server = ServerLifecycle::new();
    assert_eq!(server.step(ServerEvent::Accepted), ServerAction::Spawn);
    assert_eq!(server.step(ServerEvent::Accepted), ServerAction::Spawn);
    assert_eq!(server.step(ServerEvent::Terminate), ServerAction::Abort);
    assert_eq!(server.phase(), ServerPhase::Terminated);
    assert_eq!(server.step(ServerEvent::TaskDone), ServerAction::Ignore);
    assert_eq!(server.step(ServerEvent::Shutdown), ServerAction::Ignore);
}

#[test]
fn tasks_end_while_accepting() {
    let mut server = ServerLifecycle::new();
    assert_eq!(server.step(ServerEvent::Accepted), ServerAction::Spawn);
    assert_eq!(server.step(ServerEvent::TaskDone), ServerAction::Ignore);
    assert_eq!(server.in_flight(), 0);
    assert_eq!(server.phase(), ServerPhase::Accepting);
}

#[test]
fn oversized_frame_consumes_header_and_announced_bytes() {
    let length: usize = (4 << 20) + 10_000;
    let l = length as u32;
    let header = [(l >> 24) as u8, (l >> 16) as u8, (l >> 8) as u8, l as u8, 0, 0, 0, 1, 1, 0];
    let mut consumed = HEADER_LENGTH;
    match read_plan(&header) {
        ReadPlan::Discard(mut left) => {
            assert_eq!(left, length);
            while left > 0 {
                let take = discard_chunk(left);
                assert!(take > 0 && take <= 4096);
                consumed += take;
                left -= take;
            }
        }
        ReadPlan::Payload(_) => panic!("oversized payload would be read"),
    }
    assert_eq!(consumed, 10 + length);
}
