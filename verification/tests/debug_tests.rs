use basilcore::debug::{DebugEvent, DebugState, Debugger, StepMode};

#[test]
fn breakpoint_stops_and_notifies() {
    let mut d = Debugger::new();
    let rx = d.subscribe();
    d.set_breakpoint("src\\Main.basil".to_string(), 10);
    assert!(!d.check_pause_point("src/main.basil", 9, 0));
    assert!(d.check_pause_point("SRC/MAIN.BASIL", 10, 0));
    match rx.try_recv().unwrap() {
        DebugEvent::StoppedBreakpoint { file, line } => {
            assert_eq!(file, "SRC/MAIN.BASIL");
            assert_eq!(line, 10);
        },
        other => panic!("unexpected {:?}", other),
    }
    assert!(d.state.paused);
    assert!(d.check_pause_point("other.basil", 1, 0));
}

#[test]
fn cleared_breakpoint_no_longer_stops() {
    let mut d = Debugger::new();
    d.set_breakpoint("a.basil".to_string(), 3);
    d.set_breakpoint("a.basil".to_string(), 4);
    d.clear_breakpoint("A.BASIL".to_string(), 3);
    assert!(!d.check_pause_point("a.basil", 3, 0));
    assert!(d.check_pause_point("a.basil", 4, 0));
    d.resume();
    d.clear_all();
    assert!(!d.check_pause_point("a.basil", 4, 0));
}

#[test]
fn stepping() {
    let mut d = Debugger::new();
    let rx = d.subscribe();
    d.step_in();
    assert!(matches!(rx.try_recv().unwrap(), DebugEvent::Continued));
    assert_eq!(d.state.step, StepMode::In);
    assert!(d.check_pause_point("f.basil", 1, 5));
    assert_eq!(d.state.step, StepMode::Idle);
    d.step_over(2);
    assert!(!d.check_pause_point("f.basil", 2, 3));
    assert!(d.check_pause_point("f.basil", 3, 2));
    d.step_out(1);
    assert!(!d.check_pause_point("f.basil", 4, 2));
    assert!(d.check_pause_point("f.basil", 5, 0));
    d.pause();
    assert!(d.state.paused);
    assert_eq!(d.state.step, StepMode::Idle);
}

#[test]
fn fresh_state() {
    let s = DebugState::new();
    assert!(!s.paused);
    assert_eq!(s.step, StepMode::Idle);
    assert!(s.subscribers.is_empty());
}

#[test]
fn emit_reaches_every_subscriber_once() {
    let mut d = Debugger::new();
    let rx1 = d.subscribe();
    let rx2 = d.subscribe();
    d.emit(DebugEvent::Output("hi".to_string()));
    for rx in [&rx1, &rx2] {
        match rx.try_recv().unwrap() {
            DebugEvent::Output(s) => assert_eq!(s, "hi"),
            other => panic!("unexpected {:?}", other),
        }
        assert!(rx.try_recv().is_err());
    }
    d.pause();
    d.clear_all();
    d.set_breakpoint("x.basil".to_string(), 1);
    assert!(rx1.try_recv().is_err());
    d.resume();
    assert!(matches!(rx1.try_recv().unwrap(), DebugEvent::Continued));
    assert!(matches!(rx2.try_recv().unwrap(), DebugEvent::Continued));
}

#[test]
fn stop_event_only_when_not_already_paused() {
    let mut d = Debugger::new();
    let rx = d.subscribe();
    d.step_over(2);
    assert!(matches!(rx.try_recv().unwrap(), DebugEvent::Continued));
    assert!(!d.check_pause_point("a.basil", 10, 3));
    assert!(rx.try_recv().is_err());
    assert!(d.check_pause_point("a.basil", 11, 2));
    match rx.try_recv().unwrap() {
        DebugEvent::StoppedBreakpoint { file, line } => {
            assert_eq!(file, "a.basil");
            assert_eq!(line, 11);
        },
        other => panic!("unexpected {:?}", other),
    }
    assert!(d.check_pause_point("a.basil", 12, 2));
    assert!(rx.try_recv().is_err());
}
