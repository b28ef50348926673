use ui::input::EventResult;
use ui::propagation::{dispatch_schedule, Phase, Propagation};

#[test]
fn capture_down_target_then_bubble_up() {
    // hit path, deepest first: target 5, parent 2, root 0
    let path = vec![5, 2, 0];
    let all = vec![true, true, true];
    let s = dispatch_schedule(&path, &all, &all);
    assert_eq!(
        s,
        vec![
            (0, Phase::Capture),
            (2, Phase::Capture),
            (5, Phase::Capture),
            (5, Phase::Bubble),
            (2, Phase::Bubble),
            (0, Phase::Bubble),
        ]
    );
}

#[test]
fn elements_without_handlers_are_skipped() {
    let path = vec![5, 2, 0];
    let s = dispatch_schedule(&path, &vec![false, true, false], &vec![true, false, true]);
    assert_eq!(s, vec![(2, Phase::Capture), (5, Phase::Bubble), (0, Phase::Bubble)]);
    assert!(dispatch_schedule(&Vec::new(), &Vec::new(), &Vec::new()).is_empty());
}

#[test]
fn stopping_ends_propagation_and_keeps_prevent_default() {
    let mut p = Propagation::new();
    assert!(!p.handled);
    p.record(EventResult::PreventDefault);
    assert!(p.handled && !p.stopped && p.default_prevented);
    p.record(EventResult::Stop);
    assert!(p.stopped && p.default_prevented);
    let mut q = Propagation::new();
    q.record(EventResult::Continue);
    assert!(q.handled && !q.stopped && !q.default_prevented);
    q.record(EventResult::StopAndPreventDefault);
    assert!(q.stopped && q.default_prevented);
}

use std::cell::RefCell;
use ui::propagation::run_schedule;

#[test]
fn handlers_run_in_order_until_one_stops() {
    let steps = vec![(0, Phase::Capture), (2, Phase::Capture), (5, Phase::Bubble), (0, Phase::Bubble)];
    let calls = RefCell::new(Vec::new());
    let call = |e: usize, ph: Phase| {
        calls.borrow_mut().push((e, ph));
        if e == 5 {
            EventResult::StopAndPreventDefault
        } else {
            EventResult::Continue
        }
    };
    let p = run_schedule(&steps, &call);
    assert_eq!(*calls.borrow(), vec![(0, Phase::Capture), (2, Phase::Capture), (5, Phase::Bubble)]);
    assert!(p.handled && p.stopped && p.default_prevented);
}

#[test]
fn without_a_stop_every_handler_runs() {
    let steps = vec![(1, Phase::Capture), (1, Phase::Bubble)];
    let count = RefCell::new(0);
    let call = |_: usize, _: Phase| {
        *count.borrow_mut() += 1;
        EventResult::PreventDefault
    };
    let p = run_schedule(&steps, &call);
    assert_eq!(*count.borrow(), 2);
    assert!(p.handled && !p.stopped && p.default_prevented);
    let none = run_schedule(&Vec::new(), &call);
    assert!(!none.handled);
}
