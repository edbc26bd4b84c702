use traffic_director::args::{parse_args, parse_mode, parse_number};
use traffic_director::init::{parse_command, signal_to_forward, Init, WaitEvent};
use traffic_director::migrate::{
    ack, end_marker, is_end_marker, Handoff, HandoffOutcome, Intake, SendAction,
};
use traffic_director::registry::{
    FreezeAnswer, FreezeBatch, FrozenSession, SessionRegistry, SessionSnapshot, Stage,
};
use traffic_director::server::{DrainTracker, ShedMode};

fn strings(args: &[&str]) -> Vec<String> {
    args.iter().map(|a| a.to_string()).collect()
}

fn bytes(args: &[&str]) -> Vec<Vec<u8>> {
    args.iter().map(|a| a.as_bytes().to_vec()).collect()
}

fn frozen(id: u64, mark: u8) -> FrozenSession {
    FrozenSession {
        id,
        snapshot: SessionSnapshot {
            version: 4,
            connect_raw: vec![mark],
            client_buf: Vec::new(),
            broker_buf: Vec::new(),
            windows: Vec::new(),
            subscriptions: Vec::new(),
            buffered: Vec::new(),
        },
        client_fd: i32::from(mark),
    }
}

#[test]
fn registry_counts_live_sessions() {
    let mut registry: SessionRegistry<&str> = SessionRegistry::new();
    assert_eq!(registry.count(), 0);
    let a = registry.register("a");
    let b = registry.register("b");
    assert_eq!((a, b), (0, 1));
    assert_eq!(registry.count(), 2);
    let mut ids = registry.session_ids();
    ids.sort();
    assert_eq!(ids, vec![0, 1]);
    assert_eq!(registry.control(a), Some(&"a"));
    registry.unregister(a);
    assert_eq!(registry.count(), 1);
    assert_eq!(registry.control(a), None);
    assert_eq!(registry.control(b), Some(&"b"));
    registry.unregister(a);
    assert_eq!(registry.count(), 1);
    assert_eq!(registry.register("c"), 2);
}

#[test]
fn sessions_are_registered_from_their_answer_to_their_end() {
    let mut registry: SessionRegistry<&str> = SessionRegistry::new();
    let mut other = Stage::Opening;
    other.on_answer(&mut registry, "other");

    let mut refused = Stage::Opening;
    assert_eq!(registry.count(), 1);
    refused.on_end(&mut registry);
    assert_eq!((refused, registry.count()), (Stage::Ended, 1));

    let mut stage = Stage::Opening;
    stage.on_answer(&mut registry, "mine");
    assert_eq!(stage, Stage::Live(1));
    assert_eq!(registry.control(1), Some(&"mine"));
    assert_eq!(registry.count(), 2);
    // It is answered, and ends, once.
    stage.on_answer(&mut registry, "again");
    assert_eq!((stage, registry.count()), (Stage::Live(1), 2));
    stage.on_end(&mut registry);
    assert_eq!((stage, registry.count()), (Stage::Ended, 1));
    stage.on_end(&mut registry);
    stage.on_answer(&mut registry, "late");
    assert_eq!(registry.session_ids(), vec![0]);
    other.on_end(&mut registry);
    assert_eq!(registry.count(), 0);
}

#[test]
fn finishing_resumes_nobody() {
    let mut batch: FreezeBatch<u64> = FreezeBatch::new();
    for id in 0..3u64 {
        batch.collect(id, id, FreezeAnswer::Frozen(frozen(id, 0)));
    }
    assert!(batch.finish().is_empty());
    assert!(FreezeBatch::<u64>::new().finish().is_empty());
}

#[test]
fn only_sessions_that_froze_are_collected() {
    let mut batch: FreezeBatch<&str> = FreezeBatch::new();
    batch.collect(1, "one", FreezeAnswer::Frozen(frozen(1, 11)));
    batch.collect(2, "two", FreezeAnswer::Ended);
    batch.collect(3, "three", FreezeAnswer::Died);
    batch.collect(4, "four", FreezeAnswer::TimedOut);
    batch.collect(5, "five", FreezeAnswer::Frozen(frozen(5, 15)));
    assert_eq!(batch.frozen.len(), 2);
    let resumed = batch.resume_all();
    let who: Vec<(&str, u64)> = resumed.iter().map(|(r, s)| (*r, s.id)).collect();
    assert_eq!(who, vec![("one", 1), ("five", 5)]);
    assert_eq!(resumed[1].1.snapshot.connect_raw, vec![15]);
}

#[test]
fn rollback_skips_sessions_that_were_handed_over() {
    for sent in 0..5usize {
        let mut batch: FreezeBatch<u64> = FreezeBatch::new();
        for id in 0..3u64 {
            batch.collect(id, 100 + id, FreezeAnswer::Frozen(frozen(id, 0)));
        }
        let resumed = batch.resume_skipping(sent);
        let expected: Vec<(u64, u64)> =
            (0..3u64).skip(sent).map(|id| (100 + id, id)).collect();
        let got: Vec<(u64, u64)> = resumed.iter().map(|(r, s)| (*r, s.id)).collect();
        assert_eq!(got, expected);
    }
}

#[test]
fn handoff_delivers_every_session_in_order() {
    let sessions = vec![frozen(7, 1), frozen(8, 2), frozen(9, 3)];
    let mut handoff = Handoff::new(sessions.len());
    let mut intake = Intake::new();
    loop {
        match handoff.next_action() {
            SendAction::SendSession(index) => {
                let session = &sessions[index];
                intake.accept(session.snapshot.clone(), Some(session.client_fd)).unwrap();
                handoff.on_ack(&ack()).unwrap();
            }
            SendAction::SendEnd => break,
        }
    }
    assert_eq!(handoff.sent(), 3);
    assert_eq!(handoff.outcome(false), HandoffOutcome::Finish);
    let received: Vec<(u8, i32)> =
        intake.into_sessions().iter().map(|(s, fd)| (s.connect_raw[0], *fd)).collect();
    assert_eq!(received, vec![(1, 1), (2, 2), (3, 3)]);
}

#[test]
fn handoff_stops_at_a_bad_ack() {
    let mut handoff = Handoff::new(2);
    assert_eq!(handoff.next_action(), SendAction::SendSession(0));
    handoff.on_ack(&vec![0x06]).unwrap();
    assert_eq!(handoff.next_action(), SendAction::SendSession(1));
    for bad in [vec![], vec![0x15], vec![0x06, 0x06]] {
        let error = handoff.on_ack(&bad).unwrap_err();
        assert_eq!(error.message(), "bad handoff ack");
    }
    assert_eq!(handoff.outcome(true), HandoffOutcome::Resume { sent: 1 });
    // What was not acknowledged was not handed over.
    assert_eq!(handoff.outcome(false), HandoffOutcome::Resume { sent: 1 });
}

#[test]
fn a_snapshot_needs_its_socket() {
    let mut intake = Intake::new();
    let error = intake.accept(frozen(1, 1).snapshot, None).unwrap_err();
    assert_eq!(error.message(), "snapshot without client fd");
    assert!(intake.into_sessions().is_empty());
}

#[test]
fn nothing_to_hand_over_ends_at_once() {
    assert_eq!(Handoff::new(0).next_action(), SendAction::SendEnd);
}

#[test]
fn the_end_marker_is_its_own() {
    assert_eq!(end_marker(), b"TD-END".to_vec());
    assert!(is_end_marker(&b"TD-END".to_vec()));
    assert!(!is_end_marker(&b"TD-ENDX".to_vec()));
    assert!(!is_end_marker(&b"TD-EN".to_vec()));
    assert!(!is_end_marker(&b"TD-eND".to_vec()));
    assert_eq!(ack(), vec![0x06]);
}

#[test]
fn drain_waits_for_the_last_session() {
    let mut tracker = DrainTracker::new();
    assert_eq!(tracker.wait_drained(false), Some(true));
    tracker.track();
    tracker.track();
    assert_eq!(tracker.wait_drained(false), None);
    assert_eq!(tracker.wait_drained(true), Some(false));
    assert!(!tracker.release());
    assert_eq!(tracker.wait_drained(false), None);
    assert!(tracker.release());
    assert_eq!(tracker.wait_drained(true), Some(true));
}

#[test]
fn command_line_with_defaults() {
    let args =
        parse_args(&strings(&["--listen", "127.0.0.1:1883", "--broker", "10.0.0.1:1883"])).unwrap();
    assert_eq!(args.listen, "127.0.0.1:1883");
    assert_eq!(args.broker, "10.0.0.1:1883");
    assert_eq!(args.drain_timeout_secs, 60);
    assert_eq!(args.mode, ShedMode::Drain);
}

#[test]
fn command_line_with_everything() {
    let args = parse_args(&strings(&[
        "--mode", "migrate", "--drain-timeout-secs", "5", "--broker", "b", "--listen", "a",
        "--listen", "c",
    ]))
    .unwrap();
    assert_eq!(args.listen, "c");
    assert_eq!(args.broker, "b");
    assert_eq!(args.drain_timeout_secs, 5);
    assert_eq!(args.mode, ShedMode::Migrate);
}

#[test]
fn command_lines_that_are_not_understood() {
    for args in [
        &[][..],
        &["--listen", "a"][..],
        &["--broker", "b"][..],
        &["--listen", "a", "--broker"][..],
        &["--listen", "a", "--broker", "b", "--verbose"][..],
        &["--listen", "a", "--broker", "b", "--verbose", "1"][..],
        &["--listen", "a", "--broker", "b", "--mode", "Drain"][..],
        &["--listen", "a", "--broker", "b", "--drain-timeout-secs", "-1"][..],
        &["--listen", "a", "--broker", "b", "--drain-timeout-secs", ""][..],
    ] {
        assert!(parse_args(&strings(args)).is_none(), "{args:?}");
    }
}

#[test]
fn numbers_parse_as_in_rust() {
    for text in [
        "0", "7", "+7", "007", "18446744073709551615", "18446744073709551616", "", "+", "-1", "1 ",
        "1e3", "++1", "1+", "\u{661}", "99999999999999999999999",
    ] {
        assert_eq!(parse_number(&text.to_owned()), text.parse::<u64>().ok(), "{text:?}");
    }
}

#[test]
fn modes_have_names() {
    assert_eq!(parse_mode(&"drain".to_owned()), Some(ShedMode::Drain));
    assert_eq!(parse_mode(&"migrate".to_owned()), Some(ShedMode::Migrate));
    assert_eq!(parse_mode(&"".to_owned()), None);
}

#[test]
fn init_strips_one_separator() {
    assert_eq!(parse_command(bytes(&["--", "/bin/x", "--"])), Some(bytes(&["/bin/x", "--"])));
    assert_eq!(parse_command(bytes(&["/bin/x", "-v"])), Some(bytes(&["/bin/x", "-v"])));
    assert_eq!(parse_command(bytes(&["--"])), None);
    assert_eq!(parse_command(bytes(&[])), None);
    assert_eq!(parse_command(bytes(&["-"])), Some(bytes(&["-"])));
}

#[test]
fn init_outlives_generations() {
    let mut init = Init::new();
    assert_eq!(init.handle(WaitEvent::Interrupted), None);
    assert_eq!(init.handle(WaitEvent::ChildExited(3)), None);
    assert_eq!(init.handle(WaitEvent::Reaped), None);
    assert_eq!(init.handle(WaitEvent::NoDescendants), Some(3));
    assert_eq!(Init::new().handle(WaitEvent::NoDescendants), Some(0));
    assert_eq!(Init::new().handle(WaitEvent::Failed), Some(1));
}

#[test]
fn init_forwards_pending_signals() {
    assert_eq!(signal_to_forward(0), None);
    assert_eq!(signal_to_forward(15), Some(15));
}
