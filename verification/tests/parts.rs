use aff::driver::{aff_run, AffPause, AffReply, AffWait};
use aff::effect::aff_no_cancel;
use aff::fault::AffFault;
use aff::fiber::{AffFiber, AffTurn};
use aff::layout::lay_out;
use aff::machine::{AffCancel, AffEvent, AffFrame, AffMachine, AffRequest, AffStep};
use aff::meeting::{
    AffMeeting, Test_Concurrency_arrive, Test_Concurrency_callbackGate,
    Test_Concurrency_enqueueGated, Test_Concurrency_releaseCallbacks, Test_Concurrency_rendezvous,
    Test_Concurrency_threadCount,
};
use aff::ordered::{first_key, into_entries, pop_first, to_sorted};
use aff::parallel::{AffParAction, AffParKind, AffParRun};
use aff::runtime::{aff_record_panic, AffNoticeOutcome, AffRuntime};
use aff::supervisor::AffSupervisor;
use aff::table::AffTable;
use aff::target::{AffCallback, AffTarget};
use aff::task::{aff_unwind, AffCaught, AffTask};
use aff::timer::{AffTimerAction, AffTimers};
use aff::util::AffUtil;
use aff::value::{
    aff_box, aff_drop_links, aff_new, aff_node, aff_unit, share_result, AffCell, AffConditions,
    AffLinks, AffNative, AffNode, AffNodeRef, AffValue,
};
use aff::waiting::AffKillMany;
use std::collections::{BTreeMap, BTreeSet, VecDeque};
use std::sync::Arc;

type Value = AffValue<i64>;

fn number(n: i64) -> Value {
    AffValue::Host(Arc::new(n))
}

fn as_number(value: &Value) -> i64 {
    match value {
        AffValue::Host(n) => **n,
        _ => panic!("not a number"),
    }
}

fn pure(n: i64) -> AffNodeRef<i64> {
    aff_new(AffNode::Pure(number(n)))
}

fn util() -> AffUtil<i64> {
    AffUtil::new(number(1), number(2), number(3), number(4), number(5))
}

// Descriptions.

#[test]
fn deep_descriptions_are_released_without_a_stack() {
    let mut bind: AffNodeRef<i64> = pure(0);
    let mut left: AffNodeRef<i64> = pure(0);
    let mut right: AffNodeRef<i64> = pure(0);
    let mut mixed: AffNodeRef<i64> = pure(0);
    for n in 0..200_000 {
        bind = aff_new(AffNode::Bind(bind, number(n)));
        left = aff_new(AffNode::ParApply(left, pure(n)));
        right = aff_new(AffNode::ParAlt(pure(n), right));
        mixed = if n % 2 == 0 {
            aff_new(AffNode::ParApply(aff_new(AffNode::ParMap(number(n), mixed)), pure(n)))
        } else {
            aff_new(AffNode::ParAlt(pure(n), aff_new(AffNode::Sequential(mixed))))
        };
    }
    drop(bind);
    drop(left);
    drop(right);
    drop(mixed);
}

#[test]
fn shared_descriptions_survive_the_release_of_others() {
    let inner = aff_new(AffNode::ParApply(pure(1), pure(2)));
    let outer = aff_new(AffNode::ParAlt(inner.clone(), aff_new(AffNode::Fork(true, inner.clone()))));
    drop(outer);
    assert_eq!(Arc::strong_count(&inner), 1);
    match &inner.node {
        AffNode::ParApply(left, right) => {
            assert!(matches!(&left.node, AffNode::Pure(one) if as_number(one) == 1));
            assert!(matches!(&right.node, AffNode::Pure(two) if as_number(two) == 2));
        }
        _ => panic!("the shared description is left alone"),
    }
}

#[test]
fn release_drops_everything_below() {
    let kept: Arc<i64> = Arc::new(7);
    let leaf = |kept: &Arc<i64>| aff_new(AffNode::Pure(AffValue::Host(kept.clone())));
    let tree = aff_new(AffNode::ParApply(
        aff_new(AffNode::ParAlt(leaf(&kept), leaf(&kept))),
        aff_new(AffNode::Catch(leaf(&kept), AffValue::Host(kept.clone()))),
    ));
    assert_eq!(Arc::strong_count(&kept), 5);
    drop(tree);
    assert_eq!(Arc::strong_count(&kept), 1);
}

/// Moves the description out of its cell.
fn contents(mut cell: AffCell<i64>) -> AffNode<i64> {
    std::mem::replace(&mut cell.node, AffNode::Pure(AffValue::Unit))
}

#[test]
fn links_are_the_descriptions_below() {
    assert!(matches!(aff_drop_links(AffNode::Pure(number(1))), AffLinks::Leaf));
    assert!(matches!(aff_drop_links(AffNode::Sync(number(1))), AffLinks::Leaf));
    match aff_drop_links(AffNode::Mapping(pure(1), number(2))) {
        AffLinks::One(child) => {
            assert!(matches!(&child.node, AffNode::Pure(one) if as_number(one) == 1))
        }
        _ => panic!("one link"),
    }
    match aff_drop_links(contents(AffCell { node: AffNode::ParAlt(pure(1), pure(2)) })) {
        AffLinks::Two(left, right) => {
            assert!(matches!(&left.node, AffNode::Pure(one) if as_number(one) == 1));
            assert!(matches!(&right.node, AffNode::Pure(two) if as_number(two) == 2));
        }
        _ => panic!("two links"),
    }
}

#[test]
fn boxed_descriptions_are_the_same_descriptions() {
    let boxed = aff_box(AffNode::Throw(number(3)));
    assert!(matches!(&aff_node(&boxed).node, AffNode::Throw(three) if as_number(three) == 3));
    assert!(matches!(&aff_unit::<i64>().node, AffNode::Pure(AffValue::Unit)));
    assert!(matches!(share_result(&Err(number(4))), Err(four) if as_number(&four) == 4));
}

#[test]
fn results_cross_over_in_the_foreign_form() {
    let util = util();
    let ok = util.encode(Ok(number(8)));
    assert_eq!((as_number(&ok.function), as_number(&ok.argument)), (5, 8));
    let err = util.encode(Err(number(9)));
    assert_eq!((as_number(&err.function), as_number(&err.argument)), (4, 9));
    let probe = util.probe(number(6));
    assert_eq!((as_number(&probe.function), as_number(&probe.argument)), (1, 6));
    match util.decode(number(6), true) {
        Err(call) => assert_eq!((as_number(&call.function), as_number(&call.argument)), (2, 6)),
        Ok(_) => panic!("the left side is an error"),
    }
    match util.decode(number(6), false) {
        Ok(call) => assert_eq!((as_number(&call.function), as_number(&call.argument)), (3, 6)),
        Err(_) => panic!("the right side is a value"),
    }
}

#[test]
fn faults_have_messages() {
    for (fault, message) in [
        (AffFault::Panicked, "[Aff] A Rust panic terminated this fiber"),
        (AffFault::EarlyExit, "[ParAff] Early exit"),
        (AffFault::NativeTerminated, "A native IO task terminated unexpectedly"),
        (AffFault::Misuse, "ParAff must be consumed through sequential"),
        (AffFault::NoRuntime, "Aff requires purust_aff_run_main"),
        (
            AffFault::Duration,
            "cannot convert float seconds to Duration: value is either too big or NaN",
        ),
        (AffFault::Deadline, "overflow when adding duration to instant"),
    ] {
        assert_eq!(fault.message(), message);
    }
    assert_ne!(AffFault::Exhausted.message(), AffFault::NotAff.message());
}

// The machine of one fiber.

fn pending(tick: usize, cancel: AffCancel<i64>) -> AffMachine<i64> {
    AffMachine {
        step: AffStep::Pending { tick, cancel },
        frames: Vec::new(),
        mask: 0,
        interrupt: None,
        tick,
    }
}

#[test]
fn resolution_counts_for_its_tick_only() {
    let mut machine = pending(3, AffCancel::Nothing);
    assert!(machine.deliver(AffEvent::Resolve(2, Ok(number(1)))).is_none());
    assert!(matches!(machine.step, AffStep::Pending { tick: 3, .. }));
    assert!(machine.deliver(AffEvent::Resolve(3, Ok(number(2)))).is_none());
    assert!(matches!(&machine.step, AffStep::Result(Ok(two)) if as_number(two) == 2));
    assert_eq!(machine.tick, 4);
    assert!(machine.deliver(AffEvent::Resolve(3, Ok(number(5)))).is_none());
    assert!(matches!(&machine.step, AffStep::Result(Ok(two)) if as_number(two) == 2));
}

#[test]
fn ticks_begin_anew_after_the_last_one() {
    let mut machine = pending(usize::MAX, AffCancel::Nothing);
    assert!(machine.deliver(AffEvent::Resolve(usize::MAX, Ok(number(2)))).is_none());
    assert_eq!(machine.tick, 0);
}

#[test]
fn kill_gives_up_a_wait() {
    let mut machine = pending(3, AffCancel::Timer((10, 1)));
    match machine.deliver(AffEvent::Kill(number(9))) {
        Some(AffRequest::Cancel(AffCancel::Timer(key), error)) => {
            assert_eq!(key, (10, 1));
            assert_eq!(as_number(&error), 9);
        }
        _ => panic!("the timer is given up"),
    }
    assert_eq!(machine.mask, 1);
    assert!(matches!(machine.frames.last(), Some(AffFrame::Finalized(Ok(AffValue::Unit)))));
    assert!(machine.deliver(AffEvent::Kill(number(8))).is_none());
    assert!(matches!(&machine.interrupt, Some(nine) if as_number(nine) == 9));
    let mut quiet = pending(0, aff_no_cancel());
    assert!(quiet.deliver(AffEvent::Kill(number(9))).is_none());
    assert!(matches!(&quiet.step, AffStep::Node(node) if matches!(&node.node, AffNode::Pure(_))));
}

#[test]
fn masked_kill_is_only_remembered() {
    let conditions = AffConditions { killed: number(1), failed: number(2), completed: number(3) };
    let bracket = aff_new(AffNode::Bracket(pure(0), conditions, number(4)));
    let mut machine = AffMachine::new(bracket.clone());
    assert!(machine.instruction(bracket).is_none());
    assert_eq!(machine.mask, 1);
    assert!(machine.deliver(AffEvent::Kill(number(9))).is_none());
    assert!(matches!(machine.step, AffStep::Node(_)));
    assert_eq!(machine.tick, 0);
    let acquire = machine.frames.pop().unwrap();
    assert!(machine.unwind(acquire, Ok(number(7))).is_none());
    assert_eq!(machine.mask, 0);
    let release = machine.frames.pop().unwrap();
    match machine.unwind(release, Ok(number(7))) {
        Some(AffRequest::Finalize { handler, argument, resource }) => {
            assert_eq!(as_number(&handler), 1);
            assert_eq!(as_number(&argument), 9);
            assert_eq!(as_number(&resource), 7);
        }
        _ => panic!("the resource is let go of"),
    }
    assert_eq!(machine.mask, 1);
}

#[test]
fn frames_ask_for_their_functions() {
    let mut machine = AffMachine::new(pure(0));
    match machine.unwind(AffFrame::Bind(number(1), false), Ok(number(2))) {
        Some(AffRequest::Continue(f, value)) => {
            assert_eq!((as_number(&f), as_number(&value)), (1, 2))
        }
        _ => panic!("the function is called"),
    }
    match machine.unwind(AffFrame::Mapping(number(1), false), Ok(number(2))) {
        Some(AffRequest::Transform(f, value)) => {
            assert_eq!((as_number(&f), as_number(&value)), (1, 2))
        }
        _ => panic!("the function is called"),
    }
    match machine.unwind(AffFrame::Catch(number(1), false), Err(number(2))) {
        Some(AffRequest::Continue(f, error)) => {
            assert_eq!((as_number(&f), as_number(&error)), (1, 2))
        }
        _ => panic!("the handler is called"),
    }
    assert!(machine.unwind(AffFrame::Bind(number(1), false), Err(number(2))).is_none());
    assert!(machine.unwind(AffFrame::Catch(number(1), false), Ok(number(2))).is_none());
    assert!(matches!(&machine.step, AffStep::Result(Ok(two)) if as_number(two) == 2));
}

#[test]
fn run_stops_where_outside_work_is_needed() {
    let mut events: VecDeque<AffEvent<i64>> = VecDeque::new();
    let sync = aff_new(AffNode::Bind(aff_new(AffNode::Sync(number(1))), number(2)));
    let machine = AffMachine::new(sync);
    match aff_run(machine, VecDeque::new(), true, &mut events) {
        AffPause::Ask(driver, AffRequest::Effect(effect)) => {
            assert_eq!(as_number(&effect), 1);
            assert_eq!(driver.wait, AffWait::Outcome);
            match driver.resume(AffReply::Outcome(Ok(number(5))), &mut events) {
                AffPause::Ask(driver, AffRequest::Continue(f, value)) => {
                    assert_eq!((as_number(&f), as_number(&value)), (2, 5));
                    let next = aff_box(AffNode::Throw(number(6)));
                    match driver.resume(AffReply::Next(Ok(next)), &mut events) {
                        AffPause::Finished(Err(error)) => assert_eq!(as_number(&error), 6),
                        _ => panic!("the fiber is done"),
                    }
                }
                _ => panic!("the continuation comes next"),
            }
        }
        _ => panic!("the effect comes first"),
    }
}

#[test]
fn killed_machine_finishes_without_a_request() {
    let mut events: VecDeque<AffEvent<i64>> = VecDeque::new();
    events.push_back(AffEvent::Resolve(0, Ok(number(1))));
    events.push_back(AffEvent::Kill(number(2)));
    events.push_back(AffEvent::Kill(number(3)));
    let machine = AffMachine::new(aff_new(AffNode::Sync(number(4))));
    match aff_run(machine, VecDeque::new(), true, &mut events) {
        AffPause::Finished(Err(error)) => assert_eq!(as_number(&error), 2),
        _ => panic!("the fiber is done"),
    }
}

#[test]
fn registration_can_give_way() {
    for yields in [true, false] {
        let mut events: VecDeque<AffEvent<i64>> = VecDeque::new();
        let wait = aff_new(AffNode::NativeAsync {
            yield_after_registration: yields,
            build: AffNative::Delay(Some(5)),
        });
        match aff_run(AffMachine::new(wait), VecDeque::new(), true, &mut events) {
            AffPause::Ask(driver, AffRequest::Native { build: AffNative::Delay(Some(5)), tick, .. }) => {
                events.push_back(AffEvent::Resolve(tick, Ok(number(1))));
                match driver.resume(AffReply::Registered(AffCancel::Nothing), &mut events) {
                    AffPause::Yielded(_) => assert!(yields && events.len() == 1),
                    AffPause::Finished(Ok(one)) => {
                        assert!(!yields);
                        assert_eq!(as_number(&one), 1);
                    }
                    _ => panic!("the wait is over"),
                }
            }
            _ => panic!("the wait is registered"),
        }
    }
}

// One fiber.

#[test]
fn fiber_tells_its_observers_in_order() {
    let mut runtime: AffRuntime<i64> = AffRuntime::new();
    let mut fiber = AffFiber::new(&mut runtime, util(), None, true, pure(1));
    assert!(fiber.is_suspended());
    let target = |n: i64| AffCallback::Deliver(AffTarget::Effect(number(n)));
    assert_eq!(fiber.observe(&mut runtime, true, target(10)).0, 0);
    assert_eq!(fiber.observe(&mut runtime, true, target(11)).0, 1);
    assert_eq!(fiber.observe(&mut runtime, true, target(12)).0, 2);
    assert!(fiber.revoke(1));
    assert!(!fiber.revoke(1));
    assert!(fiber.begin(&mut runtime));
    assert!(!fiber.begin(&mut runtime));
    assert_eq!(runtime.active, 1);
    match fiber.drive_inner() {
        AffTurn::Finished(result) => assert!(fiber.complete(&mut runtime, result)),
        _ => panic!("the fiber is done"),
    }
    assert!(!fiber.complete(&mut runtime, Err(number(0))));
    for expected in [10, 12] {
        let notice = fiber.next_notice().unwrap();
        assert!(matches!(&notice.target, AffTarget::Effect(n) if as_number(n) == expected));
        assert!(matches!(&notice.result, Ok(one) if as_number(one) == 1));
    }
    assert!(fiber.next_notice().is_none());
}

#[test]
fn ended_fiber_takes_no_events() {
    let mut runtime: AffRuntime<i64> = AffRuntime::new();
    let mut fiber = AffFiber::new(&mut runtime, util(), None, true, pure(1));
    assert!(fiber.begin(&mut runtime));
    assert!(fiber.complete(&mut runtime, Err(number(5))));
    assert!(matches!(runtime.errors.get(&fiber.id), Some(five) if as_number(five) == 5));
    assert!(!fiber.event(&mut runtime, AffEvent::Kill(number(1))));
    assert!(matches!(fiber.drive_inner(), AffTurn::Idle));
    assert!(matches!(fiber.resume(AffReply::Outcome(Ok(number(1)))), AffTurn::Idle));
    let (_, notice, drive) =
        fiber.kill(&mut runtime, number(1), AffTarget::Effect(number(2)));
    assert!(!drive);
    assert!(matches!(notice, Some(notice) if matches!(notice.result, Ok(AffValue::Unit))));
    assert!(matches!(runtime.errors.get(&fiber.id), Some(five) if as_number(five) == 5));
    assert!(fiber.rethrow);
}

#[test]
fn runtime_keeps_what_observers_throw() {
    let mut runtime: AffRuntime<i64> = AffRuntime::new();
    runtime.notice_outcome(AffNoticeOutcome::Done);
    assert_eq!(runtime.next_id, 1);
    runtime.notice_outcome(AffNoticeOutcome::Failed(number(6)));
    assert_eq!(runtime.next_id, 2);
    assert!(matches!(runtime.errors.get(&1), Some(six) if as_number(six) == 6));
    runtime.forgive(1);
    assert!(runtime.errors.is_empty());
    runtime.notice_outcome(AffNoticeOutcome::Panicked);
    assert!(runtime.panicked);
    assert!(!aff_record_panic(&mut runtime));
}

// Parallel runs.

fn apply_tree() -> (AffParRun<i64>, Vec<(usize, AffNodeRef<i64>)>) {
    let left = aff_new(AffNode::ParMap(number(100), pure(1)));
    lay_out(aff_new(AffNode::ParApply(left, pure(2))))
}

#[test]
fn entries_stand_before_their_children() {
    let (run, leaves) = apply_tree();
    assert_eq!(run.entries.len(), 4);
    assert!(matches!(run.entries[0].kind, AffParKind::Apply));
    assert_eq!(run.entries[0].children, vec![1, 3]);
    assert!(matches!(run.entries[1].kind, AffParKind::Mapping(_)));
    assert_eq!(run.entries[1].children, vec![2]);
    assert_eq!(run.entries[2].parent, Some(1));
    assert_eq!(run.entries[3].parent, Some(0));
    assert_eq!(leaves.iter().map(|leaf| leaf.0).collect::<Vec<_>>(), vec![2, 3]);
    assert_eq!(run.pending(0), vec![2, 3]);
    assert_eq!(run.pending(1), vec![2]);
}

#[test]
fn calls_get_their_arguments_from_their_places() {
    for left_first in [true, false] {
        let (mut run, _) = apply_tree();
        if !left_first {
            assert!(matches!(run.settle(3, Ok(number(20))), AffParAction::Wait));
        }
        match run.settle(2, Ok(number(10))) {
            AffParAction::Call { entry, function, argument } => {
                assert_eq!(entry, 1);
                assert_eq!((as_number(&function), as_number(&argument)), (100, 10));
            }
            _ => panic!("the function of the left branch is called"),
        }
        let mut action = run.settle(1, Ok(number(30)));
        if left_first {
            assert!(matches!(action, AffParAction::Wait));
            action = run.settle(3, Ok(number(20)));
        }
        match action {
            AffParAction::Call { entry, function, argument } => {
                assert_eq!(entry, 0);
                assert_eq!((as_number(&function), as_number(&argument)), (30, 20));
            }
            _ => panic!("the left branch is called with the right one"),
        }
        assert!(matches!(run.settle(0, Ok(number(50))), AffParAction::Done(Ok(_))));
        assert!(run.stopped);
        assert!(matches!(run.settle(0, Ok(number(60))), AffParAction::Wait));
    }
}

fn nested_tree() -> AffNodeRef<i64> {
    let left = aff_new(AffNode::ParMap(number(100), pure(0)));
    let right = aff_new(AffNode::ParApply(pure(0), pure(0)));
    aff_new(AffNode::ParApply(left, right))
}

/// Lets the results of a run come in in every order that begins like this one.
/// The result of a leaf is its position, and that of a call has the function in
/// front of the argument.
fn try_orders(order: Vec<usize>, ends: &mut usize) {
    let (mut run, leaves) = lay_out(nested_tree());
    let mut due: BTreeMap<usize, i64> =
        leaves.iter().map(|(entry, _)| (*entry, *entry as i64)).collect();
    let mut told: Vec<i64> = Vec::new();
    for entry in &order {
        let value = due.remove(entry).unwrap();
        match run.settle(*entry, Ok(number(value))) {
            AffParAction::Wait => {}
            AffParAction::Call { entry, function, argument } => {
                let result = as_number(&function) * 1000 + as_number(&argument);
                assert!(due.insert(entry, result).is_none());
            }
            AffParAction::Done(Ok(value)) => told.push(as_number(&value)),
            _ => panic!("every branch ends well"),
        }
    }
    if due.is_empty() {
        assert_eq!(told, vec![100_006_005]);
        assert_eq!(order.len(), run.entries.len());
        *ends += 1;
    } else {
        assert_eq!(told.len(), 0);
    }
    for entry in due.keys() {
        let mut next = order.clone();
        next.push(*entry);
        try_orders(next, ends);
    }
}

#[test]
fn every_order_tells_the_same_value_once() {
    let mut ends = 0;
    try_orders(Vec::new(), &mut ends);
    assert_eq!(ends, 20);
}

/// Lets leaves end well or with errors, calls return or throw, and kills be
/// acknowledged, in every order that begins like this one.
fn try_outcomes(arrivals: Vec<(usize, bool)>, ends: &mut usize, told_values: &mut BTreeSet<i64>) {
    let left = aff_new(AffNode::ParApply(pure(0), pure(0)));
    let right = aff_new(AffNode::ParMap(number(100), pure(0)));
    let (mut run, leaves) = lay_out(aff_new(AffNode::ParAlt(left, right)));
    let mut due: BTreeSet<usize> = leaves.iter().map(|(entry, _)| *entry).collect();
    let mut kills: BTreeMap<usize, Result<Value, Value>> = BTreeMap::new();
    let mut told: Vec<i64> = Vec::new();
    for (entry, well) in &arrivals {
        let result = match kills.remove(entry) {
            Some(outcome) => outcome,
            None => {
                assert!(due.remove(entry));
                if *well {
                    Ok(number(*entry as i64))
                } else {
                    Err(number(-(*entry as i64) - 1))
                }
            }
        };
        match run.settle(*entry, result) {
            AffParAction::Wait => {}
            AffParAction::Call { entry, .. } => assert!(due.insert(entry)),
            AffParAction::Kill { entry, outcome, .. } => {
                assert!(kills.insert(entry, outcome).is_none())
            }
            AffParAction::Done(Ok(value)) => told.push(as_number(&value)),
            AffParAction::Done(Err(error)) => told.push(as_number(&error)),
        }
    }
    assert!(told.len() <= 1);
    assert_eq!(told.len() == 1, run.stopped);
    assert!(arrivals.len() <= run.entries.len());
    if due.is_empty() && kills.is_empty() {
        assert_eq!(told.len(), 1);
        told_values.insert(told[0]);
        *ends += 1;
    }
    for (entry, well) in due.iter().flat_map(|entry| [(*entry, true), (*entry, false)]) {
        let mut next = arrivals.clone();
        next.push((entry, well));
        try_outcomes(next, ends, told_values);
    }
    for entry in kills.keys() {
        let mut next = arrivals.clone();
        next.push((*entry, true));
        try_outcomes(next, ends, told_values);
    }
}

#[test]
fn every_outcome_is_told_exactly_once() {
    let mut ends = 0;
    let mut told_values = BTreeSet::new();
    try_outcomes(Vec::new(), &mut ends, &mut told_values);
    assert!(ends > 100);
    // The calls on either side can win; any leaf or call can fail first.
    assert_eq!(told_values.into_iter().collect::<Vec<_>>(), vec![-6, -5, -4, -3, -2, 1, 4]);
}

#[test]
fn error_waits_for_the_other_branch_to_end() {
    let (mut run, _) = apply_tree();
    match run.settle(3, Err(number(7))) {
        AffParAction::Kill { entry, leaves, outcome } => {
            assert_eq!(entry, 0);
            assert_eq!(leaves, vec![2]);
            assert!(matches!(outcome, Err(seven) if as_number(&seven) == 7));
        }
        _ => panic!("the left branch is killed"),
    }
    assert!(matches!(run.settle(2, Err(number(8))), AffParAction::Wait));
    assert!(matches!(run.settle(0, Err(number(7))), AffParAction::Done(Err(_))));
}

#[test]
fn error_that_leaves_nothing_to_kill_goes_on_at_once() {
    let (mut run, _) = apply_tree();
    assert!(matches!(run.settle(3, Ok(number(1))), AffParAction::Wait));
    match run.settle(2, Err(number(7))) {
        AffParAction::Done(Err(error)) => assert_eq!(as_number(&error), 7),
        _ => panic!("nothing is left to wait for"),
    }
}

#[test]
fn race_keeps_its_first_error() {
    let (mut run, _) = lay_out(aff_new(AffNode::ParAlt(pure(1), pure(2))));
    assert!(matches!(run.settle(2, Err(number(8))), AffParAction::Wait));
    match run.settle(1, Err(number(9))) {
        AffParAction::Done(Err(error)) => assert_eq!(as_number(&error), 8),
        _ => panic!("both branches have failed"),
    }
    let (mut won, _) = lay_out(aff_new(AffNode::ParAlt(pure(1), pure(2))));
    match won.settle(2, Ok(number(5))) {
        AffParAction::Kill { entry: 0, leaves, outcome: Ok(five) } => {
            assert_eq!(leaves, vec![1]);
            assert_eq!(as_number(&five), 5);
        }
        _ => panic!("the other branch is killed"),
    }
}

#[test]
fn stopped_run_is_silent() {
    let (mut run, _) = apply_tree();
    assert!(matches!(run.settle(3, Ok(number(1))), AffParAction::Wait));
    assert_eq!(run.cancel(), vec![2]);
    assert!(matches!(run.settle(2, Ok(number(1))), AffParAction::Wait));
    assert!(run.entries[2].result.is_none());
}

// Shared parts.

#[test]
fn timers_are_polled_in_order() {
    let mut timers: AffTimers<&'static str> = AffTimers::new();
    assert!(matches!(timers.poll(100), AffTimerAction::Wait));
    timers.register((20, 1), "c");
    timers.register((10, 3), "b");
    timers.register((10, 2), "a");
    timers.register((15, 4), "gone");
    timers.cancel((15, 4));
    timers.cancel((99, 9));
    assert!(matches!(timers.poll(9), AffTimerAction::Sleep(10)));
    assert!(matches!(timers.poll(10), AffTimerAction::Fire("a")));
    assert!(matches!(timers.poll(10), AffTimerAction::Fire("b")));
    assert!(matches!(timers.poll(10), AffTimerAction::Sleep(20)));
    assert!(matches!(timers.poll(30), AffTimerAction::Fire("c")));
    assert!(matches!(timers.poll(30), AffTimerAction::Wait));
}

#[test]
fn wait_ends_with_the_last_fiber() {
    let victims: VecDeque<usize> = VecDeque::from(vec![4, 5, 6]);
    let mut wait = AffKillMany::new(victims, number(1), AffTarget::Effect(number(2)));
    assert_eq!(wait.next_victim(), Some(4));
    assert_eq!(wait.next_victim(), Some(5));
    wait.hold(4, 0);
    assert_eq!(wait.removers, vec![(4, 0)]);
    assert!(!wait.acknowledge());
    assert!(!wait.acknowledge());
    assert_eq!(wait.next_victim(), Some(6));
    assert_eq!(wait.next_victim(), None);
    assert!(wait.acknowledge());
}

#[test]
fn dismissed_wait_hands_out_its_observers() {
    let victims: VecDeque<usize> = VecDeque::from(vec![4, 5]);
    let mut wait = AffKillMany::new(victims, number(1), AffTarget::Effect(number(2)));
    assert_eq!(wait.next_victim(), Some(4));
    wait.hold(4, 3);
    assert_eq!(wait.dismiss(), vec![(4, 3)]);
    assert_eq!(wait.dismiss(), vec![]);
    assert_eq!(wait.next_victim(), Some(5));
    assert!(!wait.acknowledge());
    assert!(wait.acknowledge());
}

#[test]
fn supervisor_lists_its_fibers_in_order() {
    let mut supervisor = AffSupervisor::new();
    for id in [5, 2, 9] {
        supervisor.register(id);
    }
    assert_eq!(supervisor.members(), vec![2, 5, 9]);
    supervisor.release(5);
    assert_eq!(supervisor.members(), vec![2, 9]);
}

#[test]
fn entries_come_in_the_order_of_their_keys() {
    let mut map: BTreeMap<usize, &'static str> = BTreeMap::new();
    assert_eq!(first_key(&map), None);
    assert_eq!(pop_first(&mut map), None);
    map.insert(3, "c");
    map.insert(1, "a");
    map.insert(2, "b");
    assert_eq!(first_key(&map), Some(1));
    assert_eq!(pop_first(&mut map), Some((1, "a")));
    assert_eq!(into_entries(map), vec![(2, "b"), (3, "c")]);
    assert_eq!(to_sorted(&BTreeSet::from([4, 1, 3])), vec![1, 3, 4]);
}

#[test]
fn table_finds_what_was_put_in() {
    let mut table: AffTable<AffSupervisor> = AffTable::new();
    assert!(!table.contains(1));
    table.put(1, AffSupervisor::new());
    assert!(table.contains(1));
    let mut entry = table.take(1).unwrap();
    entry.register(8);
    table.put(1, entry);
    assert_eq!(table.get(1).unwrap().members(), vec![8]);
    assert!(table.take(2).is_none());
}

#[test]
fn thrown_things_stop_at_the_newest_that_catches() {
    let mut agenda: Vec<AffTask<i64>> =
        vec![AffTask::Notify(1), AffTask::KillNext(2), AffTask::Drive(3)];
    assert_eq!(aff_unwind(&mut agenda), AffCaught::Notice);
    assert_eq!(agenda.len(), 1);
    agenda.push(AffTask::Reply(4, AffReply::Outcome(Ok(number(1)))));
    agenda.push(AffTask::KillNext(2));
    assert_eq!(aff_unwind(&mut agenda), AffCaught::Fiber);
    assert_eq!(agenda.len(), 2);
    assert!(matches!(agenda.last(), Some(AffTask::Panicked(4))));
    assert_eq!(aff_unwind(&mut agenda), AffCaught::Fiber);
    assert_eq!(agenda.len(), 2);
    let mut bare: Vec<AffTask<i64>> = vec![AffTask::Drive(1)];
    assert_eq!(aff_unwind(&mut bare), AffCaught::Nobody);
    assert_eq!(bare.len(), 0);
}

#[test]
fn two_threads_meet() {
    let mut meeting = Test_Concurrency_rendezvous();
    assert_eq!(Test_Concurrency_arrive(&mut meeting, 11), AffMeeting::Alone);
    assert_eq!(Test_Concurrency_arrive(&mut meeting, 11), AffMeeting::Alone);
    assert_eq!(Test_Concurrency_arrive(&mut meeting, 12), AffMeeting::Met);
    assert_eq!(Test_Concurrency_threadCount(&meeting), 2);
    assert_eq!(Test_Concurrency_arrive(&mut meeting, 13), AffMeeting::Crowded);
}

#[test]
fn gate_lets_both_callbacks_go() {
    let mut gate = Test_Concurrency_callbackGate();
    Test_Concurrency_enqueueGated(&mut gate, "first");
    Test_Concurrency_enqueueGated(&mut gate, "second");
    assert_eq!(Test_Concurrency_releaseCallbacks(&mut gate), vec!["first", "second"]);
    assert_eq!(gate.callbacks.len(), 0);
}
