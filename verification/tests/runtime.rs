use aff::driver::AffReply;
use aff::effect::{
    aff_no_cancel, Effect_Aff__bind, Effect_Aff__catchError, Effect_Aff__delay, Effect_Aff__fork,
    Effect_Aff__killAll, Effect_Aff__liftEffect, Effect_Aff__makeFiber,
    Effect_Aff__makeSupervisedFiber, Effect_Aff__map, Effect_Aff__parAffAlt,
    Effect_Aff__parAffApply, Effect_Aff__parAffMap, Effect_Aff__pure, Effect_Aff__sequential,
    Effect_Aff__throwError, Effect_Aff_generalBracket, Effect_Aff_makeAff, AffMapped,
};
use aff::entry::{
    aff_native_completed, aff_native_joined, aff_notice_thrown, aff_run_main_with_workers,
    purust_aff_run_main, purust_aff_spawn_native, AffEntry, AffExit, AffMainOutcome,
};
use aff::fault::AffFault;
use aff::machine::{AffCancel, AffRequest};
use aff::pool::AffWork;
use aff::record::{aff_fiber_record, AffFiberAnswer, AffFiberCall};
use aff::runtime::{AffNativeOutcome, AffNoticeOutcome};
use aff::system::AffSystem;
use aff::target::{AffNotice, AffTarget};
use aff::task::{aff_unwind, AffCaught, AffHostCall, AffTask};
use aff::timer::AffTimerAction;
use aff::util::AffUtil;
use aff::value::{aff_new, AffConditions, AffNative, AffNode, AffNodeRef, AffResult, AffValue};
use std::cell::{Cell, RefCell};
use std::collections::VecDeque;
use std::sync::Arc;

type Value = AffValue<Host>;
type Task = AffTask<Host>;

/// What a function of the simulated program can end with.
enum Thrown {
    Error(Value),
    Panic,
}

type Outcome = Result<Value, Thrown>;

enum Host {
    Number(i64),
    Left(Value),
    Right(Value),
    Handle(usize),
    Function(Box<dyn Fn(&Sim, Value) -> Outcome>),
    Native(Box<dyn Fn(&Sim, usize, usize) -> AffCancel<Host>>),
    /// An effect that keeps its thread busy for so long.
    Spin(u128),
}

/// A program with its threads, one step of which is done at a time.
struct Sim {
    system: RefCell<AffSystem<Host>>,
    now: Cell<u128>,
    thread: Cell<usize>,
    threads: Cell<usize>,
    waiting: RefCell<VecDeque<(usize, Vec<Task>)>>,
    log: RefCell<Vec<String>>,
    faults: RefCell<Vec<AffFault>>,
}

fn number(n: i64) -> Value {
    AffValue::Host(Arc::new(Host::Number(n)))
}

fn function(f: impl Fn(&Sim, Value) -> Outcome + 'static) -> Value {
    AffValue::Host(Arc::new(Host::Function(Box::new(f))))
}

fn as_number(value: &Value) -> i64 {
    match value {
        AffValue::Host(host) => match &**host {
            Host::Number(n) => *n,
            _ => panic!("not a number"),
        },
        _ => panic!("not a number"),
    }
}

fn as_handle(value: &Value) -> usize {
    match value {
        AffValue::Host(host) => match &**host {
            Host::Handle(id) => *id,
            _ => panic!("not a handle"),
        },
        _ => panic!("not a handle"),
    }
}

fn show(result: &AffResult<Host>) -> String {
    match result {
        Ok(value) => format!("ok {}", show_value(value)),
        Err(error) => format!("err {}", show_value(error)),
    }
}

fn show_value(value: &Value) -> String {
    match value {
        AffValue::Unit => "unit".to_string(),
        AffValue::Aff(_) => "aff".to_string(),
        AffValue::Fault(fault) => fault.message().to_string(),
        AffValue::Host(host) => match &**host {
            Host::Number(n) => format!("{}", n),
            Host::Left(value) => format!("left {}", show_value(value)),
            Host::Right(value) => format!("right {}", show_value(value)),
            Host::Handle(id) => format!("fiber {}", id),
            _ => "function".to_string(),
        },
    }
}

fn util() -> AffUtil<Host> {
    let part = |left: bool| {
        function(move |_, value| match &value {
            AffValue::Host(host) => match &**host {
                Host::Left(inner) if left => Ok(inner.clone()),
                Host::Right(inner) if !left => Ok(inner.clone()),
                _ => panic!("wrong side"),
            },
            _ => panic!("not an either"),
        })
    };
    AffUtil::new(
        function(|_, value| match &value {
            AffValue::Host(host) => Ok(number(matches!(&**host, Host::Left(_)) as i64)),
            _ => panic!("not an either"),
        }),
        part(true),
        part(false),
        function(|_, value| Ok(AffValue::Host(Arc::new(Host::Left(value))))),
        function(|_, value| Ok(AffValue::Host(Arc::new(Host::Right(value))))),
    )
}

/// An effect that leaves a line in the log.
fn say(line: &'static str, value: Value) -> Value {
    function(move |sim, _| {
        sim.note(line);
        Ok(value.clone())
    })
}

/// A computation that leaves a line in the log.
fn saying(line: &'static str, value: Value) -> Value {
    Effect_Aff__liftEffect(say(line, value))
}

fn then_to(aff: Value, next: impl Fn(&Sim, Value) -> Outcome + 'static) -> Value {
    Effect_Aff__bind(aff, function(next))
}

/// A computation that never ends by itself, and leaves a line when it is given
/// up.
fn never(line: &'static str) -> Value {
    Effect_Aff_makeAff(function(move |_, _callback| {
        Ok(function(move |_, _| Ok(function(move |_, _error| Ok(saying(line, AffValue::Unit))))))
    }))
}

/// A callback that leaves what it is told in the log.
fn reporter(name: &'static str) -> Value {
    function(move |_, either| {
        Ok(function(move |sim, _| {
            sim.note(&format!("{}: {}", name, show_value(&either)));
            Ok(AffValue::Unit)
        }))
    })
}

fn node_of(value: &Value) -> AffNodeRef<Host> {
    match value {
        AffValue::Aff(node) => node.clone(),
        _ => panic!("not a computation"),
    }
}

impl Sim {
    fn new() -> Sim {
        Sim {
            system: RefCell::new(AffSystem::new(1_000_000)),
            now: Cell::new(0),
            thread: Cell::new(0),
            threads: Cell::new(1),
            waiting: RefCell::new(VecDeque::new()),
            log: RefCell::new(Vec::new()),
            faults: RefCell::new(Vec::new()),
        }
    }

    fn note(&self, line: &str) {
        self.log.borrow_mut().push(line.to_string());
    }

    fn lines(&self) -> Vec<String> {
        self.log.borrow().clone()
    }

    fn call(&self, f: &Value, argument: Value) -> Outcome {
        match f {
            AffValue::Host(host) => match &**host {
                Host::Function(f) => f(self, argument),
                _ => panic!("not a function"),
            },
            _ => panic!("not a function"),
        }
    }

    fn fresh_thread(&self) -> usize {
        let thread = self.threads.get();
        self.threads.set(thread + 1);
        thread
    }

    /// Does all tasks of a thread.
    fn run(&self, tasks: Vec<Task>) -> Result<(), Thrown> {
        let mut agenda = tasks;
        while let Some(task) = agenda.pop() {
            let call = self.system.borrow_mut().step(task, self.now.get(), &mut agenda);
            if let Some(call) = call {
                self.perform(call, &mut agenda)?;
            }
        }
        Ok(())
    }

    fn reply(&self, fiber: usize, agenda: &mut Vec<Task>, reply: Result<AffReply<Host>, Thrown>) {
        match reply {
            Ok(reply) => agenda.push(AffTask::Reply(fiber, reply)),
            Err(_) => agenda.push(AffTask::Panicked(fiber)),
        }
    }

    fn thrown(&self, thrown: Thrown, agenda: &mut Vec<Task>) -> Result<(), Thrown> {
        match aff_unwind(agenda) {
            AffCaught::Nobody => Err(thrown),
            AffCaught::Notice => {
                let outcome = match thrown {
                    Thrown::Error(error) => AffNoticeOutcome::Failed(error),
                    Thrown::Panic => AffNoticeOutcome::Panicked,
                };
                aff_notice_thrown(&mut self.system.borrow_mut(), outcome);
                Ok(())
            }
            AffCaught::Fiber => Ok(()),
        }
    }

    fn perform(&self, call: AffHostCall<Host>, agenda: &mut Vec<Task>) -> Result<(), Thrown> {
        fn caught(outcome: Outcome) -> Result<AffResult<Host>, Thrown> {
            match outcome {
                Ok(value) => Ok(Ok(value)),
                Err(Thrown::Error(error)) => Ok(Err(error)),
                Err(Thrown::Panic) => Err(Thrown::Panic),
            }
        }
        match call {
            AffHostCall::Request(fiber, request) => {
                let reply = match request {
                    AffRequest::Effect(effect) => {
                        caught(self.call(&effect, AffValue::Unit)).map(AffReply::Outcome)
                    }
                    AffRequest::Transform(f, value) => {
                        caught(self.call(&f, value)).map(AffReply::Outcome)
                    }
                    AffRequest::Continue(f, value) => {
                        caught(self.call(&f, value)).map(AffReply::Next)
                    }
                    AffRequest::Finalize { handler, argument, resource } => {
                        let outcome = match self.call(&handler, argument) {
                            Ok(finalizer) => self.call(&finalizer, resource),
                            Err(thrown) => Err(thrown),
                        };
                        caught(outcome).map(AffReply::Next)
                    }
                    AffRequest::Cancel(AffCancel::Foreign(f), error) => {
                        caught(self.call(&f, error)).map(AffReply::Next)
                    }
                    AffRequest::Cancel(_, _) => {
                        Ok(AffReply::Next(Ok(Effect_Aff__pure(AffValue::Unit))))
                    }
                    AffRequest::Native { build: AffNative::Host(host), tick, .. } => match &*host {
                        Host::Native(build) => Ok(AffReply::Registered(build(self, fiber, tick))),
                        _ => panic!("not a native wait"),
                    },
                    _ => panic!("the runtime does this itself"),
                };
                self.reply(fiber, agenda, reply);
                Ok(())
            }
            AffHostCall::Build { fiber, build, tick, util } => {
                let callback = function(move |_, either| {
                    let util = util.clone();
                    Ok(function(move |sim, _| {
                        let probe = util.probe(either.clone());
                        let left = as_number(&sim.call(&probe.function, probe.argument)?) == 1;
                        let result = match util.decode(either.clone(), left) {
                            Ok(call) => Ok(sim.call(&call.function, call.argument)?),
                            Err(call) => Err(sim.call(&call.function, call.argument)?),
                        };
                        let target = AffTarget::Resolve { fiber, tick };
                        sim.run(vec![AffTask::Tell(AffNotice { target, result })])?;
                        Ok(AffValue::Unit)
                    }))
                });
                let outcome = match self.call(&build, callback) {
                    Ok(effect) => self.call(&effect, AffValue::Unit),
                    Err(thrown) => Err(thrown),
                };
                self.reply(fiber, agenda, caught(outcome).map(AffReply::Built));
                Ok(())
            }
            AffHostCall::Forked { parent, child } => {
                let handle = AffValue::Host(Arc::new(Host::Handle(child)));
                agenda.push(AffTask::Reply(parent, AffReply::Outcome(Ok(handle))));
                Ok(())
            }
            AffHostCall::Call { run, entry, function, argument } => {
                match caught(self.call(&function, argument)) {
                    Ok(result) => {
                        let target = AffTarget::Settle { run, entry };
                        agenda.push(AffTask::Tell(AffNotice { target, result }));
                        Ok(())
                    }
                    Err(thrown) => self.thrown(thrown, agenda),
                }
            }
            AffHostCall::Notice { encoded, callback } => {
                let outcome = self
                    .call(&encoded.function, encoded.argument)
                    .and_then(|either| self.call(&callback, either))
                    .and_then(|effect| self.call(&effect, AffValue::Unit));
                match outcome {
                    Ok(_) => Ok(()),
                    Err(thrown) => self.thrown(thrown, agenda),
                }
            }
            AffHostCall::Run(effect) => match self.call(&effect, AffValue::Unit) {
                Ok(_) => Ok(()),
                Err(thrown) => self.thrown(thrown, agenda),
            },
            AffHostCall::Resume(fiber) => {
                let thread = self.fresh_thread();
                self.waiting.borrow_mut().push_back((thread, vec![AffTask::Drive(fiber)]));
                Ok(())
            }
            AffHostCall::Fault(fault) => {
                self.faults.borrow_mut().push(fault);
                self.thrown(Thrown::Panic, agenda)
            }
        }
    }

    /// Lets one thread do something. Workers are threads of their own.
    fn turn(&self) -> bool {
        let (thread, tasks) = match self.waiting.borrow_mut().pop_front() {
            Some(waiting) => waiting,
            None => match self.system.borrow_mut().work() {
                AffWork::Run(fiber) => (self.fresh_thread(), vec![AffTask::Drive(fiber)]),
                _ => return false,
            },
        };
        let before = self.thread.replace(thread);
        assert!(self.run(tasks).is_ok());
        self.thread.set(before);
        true
    }

    /// Lets all threads run until each of them waits.
    fn settle(&self) {
        while self.turn() {}
    }

    /// Lets all threads run and all timers fire.
    fn finish(&self) {
        loop {
            self.settle();
            let action = self.system.borrow_mut().poll_timers(self.now.get());
            match action {
                AffTimerAction::Fire(target) => {
                    let result = Ok(AffValue::Unit);
                    let tasks = vec![AffTask::Tell(AffNotice { target, result })];
                    let thread = self.fresh_thread();
                    self.waiting.borrow_mut().push_back((thread, tasks));
                }
                AffTimerAction::Sleep(deadline) => self.now.set(deadline),
                AffTimerAction::Wait => return,
            }
        }
    }

    fn make(&self, aff: Value) -> usize {
        Effect_Aff__makeFiber(&mut self.system.borrow_mut(), util(), aff).unwrap()
    }

    fn handle(&self, fiber: usize, call: AffFiberCall<Host>) -> AffFiberAnswer {
        let mut agenda = Vec::new();
        let answer =
            aff_fiber_record(&mut self.system.borrow_mut(), fiber, call, &mut agenda);
        assert!(self.run(agenda).is_ok());
        answer
    }

    fn launch(&self, aff: Value) -> usize {
        let fiber = self.make(aff);
        self.handle(fiber, AffFiberCall::Run);
        fiber
    }

    fn result(&self, fiber: usize) -> String {
        let system = self.system.borrow();
        match system.fibers.get(fiber) {
            Some(fiber) => match &fiber.result {
                Some(result) => show(result),
                None => "pending".to_string(),
            },
            None => "gone".to_string(),
        }
    }

    fn active(&self) -> usize {
        self.system.borrow().runtime.active
    }
}

// Parallel branches on a bounded number of workers.

struct Worker {
    agenda: Vec<Task>,
    busy: Option<(u128, usize)>,
}

fn spin_leaf(spin: u128) -> AffNodeRef<Host> {
    aff_new(AffNode::Sync(AffValue::Host(Arc::new(Host::Spin(spin)))))
}

fn par_tree(leaves: Vec<AffNodeRef<Host>>) -> AffNodeRef<Host> {
    let mut par: Option<AffNodeRef<Host>> = None;
    for leaf in leaves {
        par = Some(match par {
            None => leaf,
            Some(left) => {
                let constant = function(|_, _| Ok(function(|_, _| Ok(AffValue::Unit))));
                aff_new(AffNode::ParApply(aff_new(AffNode::ParMap(constant, left)), leaf))
            }
        });
    }
    par.unwrap()
}

/// How many leaves were inside their synchronous sections at the same time.
fn parallel_peak(workers: usize, outer: usize, inner: usize, spin: u128) -> usize {
    let entry: AffEntry<Host> = aff_run_main_with_workers(workers);
    let sim = Sim::new();
    let leaves = (0..outer)
        .map(|_| {
            let nested = par_tree((0..inner).map(|_| spin_leaf(spin)).collect());
            aff_new(AffNode::Sequential(nested))
        })
        .collect();
    let root = sim.launch(AffValue::Aff(aff_new(AffNode::Sequential(par_tree(leaves)))));
    let mut pool: Vec<Worker> =
        (0..entry.workers).map(|_| Worker { agenda: Vec::new(), busy: None }).collect();
    let mut current: usize = 0;
    let mut peak: usize = 0;
    loop {
        let mut moved = false;
        for worker in pool.iter_mut() {
            while worker.busy.is_none() {
                let task = match worker.agenda.pop() {
                    Some(task) => task,
                    None => match sim.system.borrow_mut().work() {
                        AffWork::Run(fiber) => AffTask::Drive(fiber),
                        _ => break,
                    },
                };
                moved = true;
                let call =
                    sim.system.borrow_mut().step(task, sim.now.get(), &mut worker.agenda);
                match call {
                    None => {}
                    Some(AffHostCall::Request(fiber, AffRequest::Effect(AffValue::Host(host)))) => {
                        match &*host {
                            Host::Spin(spin) => {
                                current += 1;
                                peak = peak.max(current);
                                worker.busy = Some((sim.now.get() + spin, fiber));
                            }
                            _ => panic!("unexpected effect"),
                        }
                    }
                    Some(call) => assert!(sim.perform(call, &mut worker.agenda).is_ok()),
                }
            }
        }
        if moved {
            continue;
        }
        match pool.iter().filter_map(|worker| worker.busy).map(|(end, _)| end).min() {
            None => break,
            Some(end) => {
                sim.now.set(end);
                for worker in pool.iter_mut() {
                    if let Some((finish, fiber)) = worker.busy {
                        if finish <= end {
                            current -= 1;
                            worker.busy = None;
                            let reply = AffReply::Outcome(Ok(AffValue::Unit));
                            worker.agenda.push(AffTask::Reply(fiber, reply));
                        }
                    }
                }
            }
        }
    }
    assert_eq!(sim.result(root), "ok unit");
    assert_eq!(sim.active(), 0);
    peak
}

#[test]
fn parallel_synchronous_leaves_overlap() {
    let peak = parallel_peak(2, 1, 2, 200);
    assert_eq!(
        peak, 2,
        "two independent ParAff leaves must be able to run their synchronous \
         sections concurrently"
    );
}

#[test]
fn parallel_leaves_respect_the_worker_bound() {
    let peak = parallel_peak(1, 1, 4, 20);
    assert_eq!(peak, 1, "a single worker must serialize parallel leaves");
}

#[test]
fn nested_parallelism_never_deadlocks() {
    // Waiting for nested parallelism must release the worker; otherwise two
    // workers cannot drive sixteen leaves.
    let peak = parallel_peak(2, 4, 4, 50);
    assert_eq!(peak, 2);
}

/// The threads on which a wait is registered, and on which it goes on, when it
/// is over before its registration has returned.
fn immediate_callback_threads(yield_after_registration: bool) -> (usize, usize) {
    let sim = Sim::new();
    let wait = AffValue::Aff(aff_new(AffNode::NativeAsync {
        yield_after_registration,
        build: AffNative::Host(Arc::new(Host::Native(Box::new(|sim, fiber, tick| {
            sim.note(&format!("{}", sim.thread.get()));
            let target = AffTarget::Resolve { fiber, tick };
            let notice = AffNotice { target, result: Ok(AffValue::Unit) };
            assert!(sim.run(vec![AffTask::Tell(notice)]).is_ok());
            aff_no_cancel()
        })))),
    }));
    let action = then_to(wait, |sim, _| {
        sim.note(&format!("{}", sim.thread.get()));
        Ok(Effect_Aff__pure(AffValue::Unit))
    });
    let fiber = sim.launch(action);
    sim.finish();
    assert_eq!(sim.result(fiber), "ok unit");
    let lines = sim.lines();
    assert_eq!(lines.len(), 2);
    (lines[0].parse().unwrap(), lines[1].parse().unwrap())
}

#[test]
fn early_timer_callback_yields_to_another_thread() {
    let (registered, resumed) = immediate_callback_threads(true);
    assert_ne!(resumed, registered);
}

#[test]
fn synchronous_native_callback_stays_on_the_registration_thread() {
    let (registered, resumed) = immediate_callback_threads(false);
    assert_eq!(resumed, registered);
}

// Sequential computations.

#[test]
fn computations_run_in_order() {
    let sim = Sim::new();
    let body = then_to(saying("first", number(1)), |_, one| {
        let one = as_number(&one);
        Ok(then_to(saying("second", number(2)), move |_, two| {
            Ok(Effect_Aff__pure(number(one * 10 + as_number(&two))))
        }))
    });
    let fiber = sim.launch(body);
    assert_eq!(sim.lines().len(), 0);
    sim.finish();
    assert_eq!(sim.lines(), vec!["first", "second"]);
    assert_eq!(sim.result(fiber), "ok 12");
}

#[test]
fn errors_skip_to_their_handler() {
    let sim = Sim::new();
    let failing = then_to(Effect_Aff__throwError(number(7)), |_, _| panic!("skipped"));
    let caught = Effect_Aff__catchError(
        failing,
        function(|_, error| Ok(Effect_Aff__pure(number(as_number(&error) + 1)))),
    );
    let fiber = sim.launch(caught);
    sim.finish();
    assert_eq!(sim.result(fiber), "ok 8");
}

#[test]
fn thrown_errors_become_results() {
    let sim = Sim::new();
    let thrown = function(|_, _| Err(Thrown::Error(number(3))));
    let fiber = sim.launch(Effect_Aff__liftEffect(thrown.clone()));
    let continued = sim.launch(Effect_Aff__bind(Effect_Aff__pure(AffValue::Unit), thrown.clone()));
    let built = sim.launch(Effect_Aff_makeAff(thrown));
    sim.finish();
    assert_eq!(sim.result(fiber), "err 3");
    assert_eq!(sim.result(continued), "err 3");
    assert_eq!(sim.result(built), "err 3");
}

#[test]
fn mapping_a_value_is_done_at_once() {
    let double = || function(|_, n| Ok(number(as_number(&n) * 2)));
    match Effect_Aff__map(double(), Effect_Aff__pure(number(4))) {
        AffMapped::Ready(call) => assert_eq!(as_number(&call.argument), 4),
        AffMapped::Described(_) => panic!("a value is mapped at once"),
    }
    match Effect_Aff__map(double(), saying("mapped", number(5))) {
        AffMapped::Ready(_) => panic!("an effect is mapped when it is run"),
        AffMapped::Described(aff) => {
            let sim = Sim::new();
            let fiber = sim.launch(aff);
            sim.finish();
            assert_eq!(sim.result(fiber), "ok 10");
        }
    }
}

#[test]
fn foreign_callbacks_resolve_a_wait_once() {
    let sim = Sim::new();
    let wait = Effect_Aff_makeAff(function(|_, callback| {
        Ok(function(move |sim, _| {
            for n in [1, 2] {
                let either = AffValue::Host(Arc::new(Host::Right(number(n))));
                let effect = sim.call(&callback, either)?;
                sim.call(&effect, AffValue::Unit)?;
            }
            Ok(function(|_, _| panic!("nothing to give up")))
        }))
    }));
    let fiber = sim.launch(wait);
    sim.finish();
    assert_eq!(sim.result(fiber), "ok 1");
}

#[test]
fn foreign_callbacks_can_bring_errors() {
    let sim = Sim::new();
    let wait = Effect_Aff_makeAff(function(|_, callback| {
        Ok(function(move |sim, _| {
            let either = AffValue::Host(Arc::new(Host::Left(number(9))));
            let effect = sim.call(&callback, either)?;
            sim.call(&effect, AffValue::Unit)?;
            Ok(function(|_, _| panic!("nothing to give up")))
        }))
    }));
    let fiber = sim.launch(wait);
    sim.finish();
    assert_eq!(sim.result(fiber), "err 9");
}

// Brackets.

fn logged_bracket(acquire: Value, use_resource: Value) -> Value {
    fn handler(name: &'static str) -> Value {
        function(move |_, argument| {
            Ok(function(move |_, resource| {
                let line = format!("{} {} {}", name, show_value(&argument), show_value(&resource));
                Ok(Effect_Aff__liftEffect(function(move |sim, _| {
                    sim.note(&line);
                    Ok(AffValue::Unit)
                })))
            }))
        })
    }
    let conditions = AffConditions {
        killed: handler("killed"),
        failed: handler("failed"),
        completed: handler("completed"),
    };
    Effect_Aff_generalBracket(acquire, conditions, use_resource)
}

#[test]
fn bracket_lets_go_after_success() {
    let sim = Sim::new();
    let body = logged_bracket(
        saying("acquire", number(1)),
        function(|_, _| Ok(saying("use", number(2)))),
    );
    let fiber = sim.launch(body);
    sim.finish();
    assert_eq!(sim.lines(), vec!["acquire", "use", "completed 2 1"]);
    assert_eq!(sim.result(fiber), "ok 2");
}

#[test]
fn bracket_lets_go_after_failure() {
    let sim = Sim::new();
    let body = logged_bracket(
        saying("acquire", number(1)),
        function(|_, _| Ok(Effect_Aff__throwError(number(5)))),
    );
    let fiber = sim.launch(body);
    sim.finish();
    assert_eq!(sim.lines(), vec!["acquire", "failed 5 1"]);
    assert_eq!(sim.result(fiber), "err 5");
}

#[test]
fn bracket_lets_go_when_it_is_killed() {
    let sim = Sim::new();
    let body = logged_bracket(
        saying("acquire", number(1)),
        function(|_, _| Ok(never("given up"))),
    );
    let fiber = sim.launch(body);
    sim.finish();
    sim.handle(fiber, AffFiberCall::Kill(number(9), reporter("kill")));
    assert_eq!(sim.lines(), vec!["acquire", "given up", "killed 9 1", "kill: right unit"]);
    assert_eq!(sim.result(fiber), "err 9");
}

#[test]
fn bracket_without_a_resource_lets_go_of_nothing() {
    let sim = Sim::new();
    let body = logged_bracket(
        Effect_Aff__throwError(number(4)),
        function(|_, _| panic!("nothing to use")),
    );
    let fiber = sim.launch(body);
    sim.finish();
    assert_eq!(sim.lines().len(), 0);
    assert_eq!(sim.result(fiber), "err 4");
}

#[test]
fn kill_while_acquiring_waits_for_the_resource() {
    let sim = Sim::new();
    let acquire = then_to(Effect_Aff__delay(Some(50)), |_, _| Ok(saying("acquire", number(1))));
    let body = logged_bracket(acquire, function(|_, _| panic!("killed before use")));
    let fiber = sim.launch(body);
    sim.settle();
    sim.handle(fiber, AffFiberCall::Kill(number(9), reporter("kill")));
    assert_eq!(sim.result(fiber), "pending");
    sim.finish();
    assert_eq!(sim.lines(), vec!["acquire", "killed 9 1", "kill: right unit"]);
    assert_eq!(sim.result(fiber), "err 9");
}

// Cancellation.

#[test]
fn killed_before_start_never_runs() {
    let sim = Sim::new();
    let fiber = sim.make(saying("body", AffValue::Unit));
    sim.handle(fiber, AffFiberCall::Kill(number(1), reporter("kill")));
    sim.finish();
    assert_eq!(sim.lines(), vec!["kill: right unit"]);
    assert_eq!(sim.result(fiber), "err 1");
    assert_eq!(sim.active(), 0);
}

#[test]
fn killed_in_the_queue_never_runs() {
    let sim = Sim::new();
    let fiber = sim.launch(saying("body", AffValue::Unit));
    sim.handle(fiber, AffFiberCall::Kill(number(1), reporter("kill")));
    sim.finish();
    assert_eq!(sim.lines(), vec!["kill: right unit"]);
    assert_eq!(sim.result(fiber), "err 1");
}

#[test]
fn first_kill_is_the_one_that_counts() {
    let sim = Sim::new();
    let cleanup = then_to(Effect_Aff__delay(Some(10)), |_, _| Ok(Effect_Aff__pure(AffValue::Unit)));
    let wait = Effect_Aff_makeAff(function(move |_, _| {
        let cleanup = cleanup.clone();
        Ok(function(move |_, _| {
            let cleanup = cleanup.clone();
            Ok(function(move |_, _| Ok(cleanup.clone())))
        }))
    }));
    let fiber = sim.launch(wait);
    sim.settle();
    sim.handle(fiber, AffFiberCall::Kill(number(1), reporter("first")));
    sim.handle(fiber, AffFiberCall::Kill(number(2), reporter("second")));
    assert_eq!(sim.result(fiber), "pending");
    sim.finish();
    assert_eq!(sim.result(fiber), "err 1");
    assert_eq!(sim.lines(), vec!["first: right unit", "second: right unit"]);
}

#[test]
fn first_kill_counts_through_handlers_and_clean_ups() {
    let sim = Sim::new();
    let acquire = then_to(Effect_Aff__delay(Some(10)), |_, _| Ok(Effect_Aff__pure(number(7))));
    let body = Effect_Aff__catchError(
        logged_bracket(acquire, function(|_, _| Ok(saying("use", number(0))))),
        function(|_, _| Ok(saying("handler", number(0)))),
    );
    let fiber = sim.launch(body);
    sim.settle();
    sim.handle(fiber, AffFiberCall::Kill(number(1), reporter("first")));
    sim.handle(fiber, AffFiberCall::Kill(number(2), reporter("second")));
    assert_eq!(sim.result(fiber), "pending");
    sim.finish();
    assert_eq!(sim.result(fiber), "err 1");
    assert!(!sim.lines().contains(&"use".to_string()));
    assert!(!sim.lines().contains(&"handler".to_string()));
}

#[test]
fn kill_during_an_effect_comes_before_the_next_instruction() {
    let sim = Sim::new();
    let id: std::rc::Rc<Cell<usize>> = std::rc::Rc::new(Cell::new(0));
    let own = id.clone();
    let section = Effect_Aff__liftEffect(function(move |sim, _| {
        sim.handle(own.get(), AffFiberCall::Kill(number(9), reporter("kill")));
        sim.note("section ends");
        Ok(number(1))
    }));
    let fiber = sim.make(then_to(section, |_, _| panic!("killed before")));
    id.set(fiber);
    sim.handle(fiber, AffFiberCall::Run);
    sim.finish();
    assert_eq!(sim.lines(), vec!["section ends", "kill: right unit"]);
    assert_eq!(sim.result(fiber), "err 9");
}

#[test]
fn killing_an_ended_fiber_does_nothing() {
    let sim = Sim::new();
    let fiber = sim.launch(Effect_Aff__pure(number(3)));
    sim.finish();
    sim.handle(fiber, AffFiberCall::Kill(number(1), reporter("kill")));
    assert_eq!(sim.lines(), vec!["kill: right unit"]);
    assert_eq!(sim.result(fiber), "ok 3");
}

#[test]
fn killing_a_failed_fiber_leaves_its_error_to_be_reported() {
    let sim = Sim::new();
    let fiber = sim.launch(Effect_Aff__throwError(number(3)));
    sim.finish();
    assert_eq!(exit_of(&sim, AffMainOutcome::Returned(Ok(AffValue::Unit))), "failure 3");
    sim.handle(fiber, AffFiberCall::Kill(number(1), reporter("kill")));
    sim.finish();
    assert_eq!(sim.lines(), vec!["kill: right unit"]);
    assert_eq!(sim.result(fiber), "err 3");
    assert_eq!(exit_of(&sim, AffMainOutcome::Returned(Ok(AffValue::Unit))), "failure 3");
}

#[test]
fn late_resolution_of_a_killed_wait_is_ignored() {
    let sim = Sim::new();
    let kept: std::rc::Rc<RefCell<Option<Value>>> = std::rc::Rc::new(RefCell::new(None));
    let stored = kept.clone();
    let wait = Effect_Aff_makeAff(function(move |_, callback| {
        *stored.borrow_mut() = Some(callback);
        Ok(function(|_, _| Ok(function(|_, _| Ok(Effect_Aff__delay(Some(10)))))))
    }));
    let fiber = sim.launch(wait);
    sim.settle();
    sim.handle(fiber, AffFiberCall::Kill(number(1), reporter("kill")));
    let callback = kept.borrow().clone().unwrap();
    let either = AffValue::Host(Arc::new(Host::Right(number(5))));
    let effect = sim.call(&callback, either).ok().unwrap();
    assert!(sim.call(&effect, AffValue::Unit).is_ok());
    assert_eq!(sim.result(fiber), "pending");
    sim.finish();
    assert_eq!(sim.result(fiber), "err 1");
}

#[test]
fn resolution_of_an_earlier_wait_is_ignored_by_later_ones() {
    let sim = Sim::new();
    let kept: std::rc::Rc<RefCell<Vec<Value>>> = std::rc::Rc::new(RefCell::new(Vec::new()));
    let wait = |kept: std::rc::Rc<RefCell<Vec<Value>>>| {
        Effect_Aff_makeAff(function(move |_, callback| {
            kept.borrow_mut().push(callback);
            Ok(function(|_, _| Ok(function(|_, _| panic!("nothing to give up")))))
        }))
    };
    let stored = kept.clone();
    let fiber = sim.launch(then_to(wait(kept.clone()), move |_, _| Ok(wait(stored.clone()))));
    sim.settle();
    let resolve = |index: usize, n: i64| {
        let callback = kept.borrow()[index].clone();
        let either = AffValue::Host(Arc::new(Host::Right(number(n))));
        let effect = sim.call(&callback, either).ok().unwrap();
        assert!(sim.call(&effect, AffValue::Unit).is_ok());
        sim.settle();
    };
    resolve(0, 1);
    assert_eq!(kept.borrow().len(), 2);
    resolve(0, 2);
    resolve(0, 3);
    assert_eq!(sim.result(fiber), "pending");
    resolve(1, 4);
    resolve(0, 5);
    resolve(1, 6);
    assert_eq!(sim.result(fiber), "ok 4");
}

#[test]
fn canceled_delay_leaves_no_timer() {
    let sim = Sim::new();
    let fiber = sim.launch(Effect_Aff__delay(Some(1000)));
    sim.settle();
    assert!(matches!(sim.system.borrow_mut().poll_timers(0), AffTimerAction::Sleep(1000)));
    sim.handle(fiber, AffFiberCall::Kill(number(1), reporter("kill")));
    assert!(matches!(sim.system.borrow_mut().poll_timers(0), AffTimerAction::Wait));
    assert_eq!(sim.result(fiber), "err 1");
    assert_eq!(sim.now.get(), 0);
}

// Handles.

#[test]
fn suspended_fiber_waits_until_it_is_joined() {
    let sim = Sim::new();
    let parent = sim.launch(Effect_Aff__fork(false, saying("child", number(6))));
    sim.finish();
    assert_eq!(sim.lines().len(), 0);
    let child = match &sim.system.borrow().fibers.get(parent).unwrap().result {
        Some(Ok(handle)) => as_handle(handle),
        _ => panic!("the fork returns a handle"),
    };
    assert!(sim.handle(child, AffFiberCall::IsSuspended).suspended);
    sim.handle(child, AffFiberCall::OnComplete { rethrow: true, handler: reporter("watch") });
    sim.finish();
    assert!(sim.handle(child, AffFiberCall::IsSuspended).suspended);
    sim.handle(child, AffFiberCall::Join(reporter("join")));
    assert!(!sim.handle(child, AffFiberCall::IsSuspended).suspended);
    assert_eq!(sim.lines().len(), 0);
    sim.finish();
    assert_eq!(sim.lines(), vec!["child", "watch: right 6", "join: right 6"]);
}

#[test]
fn fiber_is_started_once() {
    let sim = Sim::new();
    let fiber = sim.make(saying("body", number(1)));
    sim.handle(fiber, AffFiberCall::Run);
    sim.handle(fiber, AffFiberCall::Run);
    sim.handle(fiber, AffFiberCall::Join(reporter("join")));
    sim.finish();
    assert_eq!(sim.lines(), vec!["body", "join: right 1"]);
}

#[test]
fn detached_observer_is_not_told() {
    let sim = Sim::new();
    let fiber = sim.make(Effect_Aff__pure(number(1)));
    let first = sim.handle(fiber, AffFiberCall::Join(reporter("first")));
    let second = sim.handle(fiber, AffFiberCall::Join(reporter("second")));
    assert_eq!(first.join, Some(0));
    assert_eq!(second.join, Some(1));
    assert!(sim.system.borrow_mut().detach(fiber, 0));
    assert!(!sim.system.borrow_mut().detach(fiber, 0));
    sim.finish();
    assert_eq!(sim.lines(), vec!["second: right 1"]);
}

#[test]
fn observer_that_was_taken_back_leaves_no_trace() {
    let sim = Sim::new();
    let fiber = sim.make(Effect_Aff__throwError(number(3)));
    let watch = AffFiberCall::OnComplete { rethrow: true, handler: reporter("watch") };
    let join = sim.handle(fiber, watch).join.unwrap();
    assert!(sim.system.borrow_mut().detach(fiber, join));
    sim.handle(fiber, AffFiberCall::Run);
    sim.finish();
    assert_eq!(sim.lines().len(), 0);
    assert_eq!(sim.result(fiber), "err 3");
    assert!(!sim.system.borrow_mut().detach(fiber, join));
    assert_eq!(sim.result(fiber), "err 3");
    assert_eq!(exit_of(&sim, AffMainOutcome::Returned(Ok(AffValue::Unit))), "failure 3");
}

#[test]
fn released_fiber_is_forgotten_when_it_has_ended() {
    let sim = Sim::new();
    let idle = sim.make(Effect_Aff__pure(number(1)));
    sim.system.borrow_mut().release(idle);
    assert_eq!(sim.result(idle), "gone");
    assert_eq!(
        sim.handle(idle, AffFiberCall::Run),
        AffFiberAnswer { join: None, suspended: false }
    );
    let busy = sim.launch(Effect_Aff__delay(Some(10)));
    sim.system.borrow_mut().release(busy);
    assert_eq!(sim.result(busy), "pending");
    sim.finish();
    assert_eq!(sim.result(busy), "gone");
    assert_eq!(sim.active(), 0);
}

// Parallel computations.

fn waiting(nanoseconds: u128, name: &'static str, end: fn() -> Value) -> Value {
    let wait = logged_bracket(
        Effect_Aff__pure(AffValue::Unit),
        function(move |_, _| Ok(Effect_Aff__delay(Some(nanoseconds)))),
    );
    then_to(wait, move |sim, _| {
        sim.note(name);
        Ok(end())
    })
}

fn pair(left: Value, right: Value) -> Value {
    let both = function(|_, a| {
        let a = as_number(&a);
        Ok(function(move |_, b| Ok(number(a * 10 + as_number(&b)))))
    });
    Effect_Aff__sequential(Effect_Aff__parAffApply(Effect_Aff__parAffMap(both, left), right))
}

#[test]
fn results_keep_their_places() {
    for (left, right) in [(10, 20), (20, 10), (10, 10)] {
        let sim = Sim::new();
        let fiber = sim.launch(pair(
            waiting(left, "left", || Effect_Aff__pure(number(1))),
            waiting(right, "right", || Effect_Aff__pure(number(2))),
        ));
        sim.finish();
        assert_eq!(sim.result(fiber), "ok 12");
        assert_eq!(sim.active(), 0);
    }
}

#[test]
fn failing_branch_stops_its_sibling() {
    let sim = Sim::new();
    let fiber = sim.launch(pair(
        waiting(10, "left", || Effect_Aff__throwError(number(7))),
        waiting(20, "right", || Effect_Aff__pure(number(2))),
    ));
    sim.finish();
    assert_eq!(sim.result(fiber), "err 7");
    assert_eq!(
        sim.lines(),
        vec!["completed unit unit", "left", "killed [ParAff] Early exit unit"]
    );
    assert_eq!(sim.now.get(), 10);
    assert_eq!(sim.active(), 0);
}

#[test]
fn first_value_wins_a_race() {
    for (left, right, winner) in [(10, 20, "ok 1"), (20, 10, "ok 2")] {
        let sim = Sim::new();
        let race = Effect_Aff__sequential(Effect_Aff__parAffAlt(
            waiting(left, "left", || Effect_Aff__pure(number(1))),
            waiting(right, "right", || Effect_Aff__pure(number(2))),
        ));
        let fiber = sim.launch(race);
        sim.finish();
        assert_eq!(sim.result(fiber), winner);
        assert_eq!(sim.now.get(), 10);
    }
}

#[test]
fn race_fails_with_the_first_error() {
    let sim = Sim::new();
    let race = Effect_Aff__sequential(Effect_Aff__parAffAlt(
        waiting(20, "left", || Effect_Aff__throwError(number(1))),
        waiting(10, "right", || Effect_Aff__throwError(number(2))),
    ));
    let fiber = sim.launch(race);
    sim.finish();
    assert_eq!(sim.result(fiber), "err 2");
    assert_eq!(sim.now.get(), 20);
}

#[test]
fn killing_a_parallel_computation_kills_its_branches() {
    let sim = Sim::new();
    let fiber = sim.launch(pair(never("left given up"), never("right given up")));
    sim.finish();
    assert_eq!(sim.active(), 3);
    sim.handle(fiber, AffFiberCall::Kill(number(3), reporter("kill")));
    assert_eq!(sim.lines(), vec!["left given up", "right given up", "kill: right unit"]);
    assert_eq!(sim.result(fiber), "err 3");
    assert_eq!(sim.active(), 0);
}

#[test]
fn branches_are_given_up_before_a_bracket_lets_go() {
    let sim = Sim::new();
    let slow = logged_bracket(
        Effect_Aff__pure(AffValue::Unit),
        function(|_, _| Ok(Effect_Aff__sequential(never("given up")))),
    );
    let fiber = sim.launch(slow);
    sim.finish();
    sim.handle(fiber, AffFiberCall::Kill(number(1), reporter("kill")));
    assert_eq!(sim.lines(), vec!["given up", "killed 1 unit", "kill: right unit"]);
    assert_eq!(sim.result(fiber), "err 1");
}

#[test]
fn function_that_throws_fails_the_whole() {
    let sim = Sim::new();
    let thrown = function(|_, _| Err(Thrown::Error(number(8))));
    let fiber = sim.launch(Effect_Aff__sequential(Effect_Aff__parAffMap(
        thrown,
        Effect_Aff__pure(AffValue::Unit),
    )));
    sim.finish();
    assert_eq!(sim.result(fiber), "err 8");
}

// Supervision.

#[test]
fn all_supervised_fibers_are_killed() {
    let sim = Sim::new();
    let child = || Effect_Aff__fork(true, never("child given up"));
    let body = then_to(child(), move |_, _| Ok(child()));
    let fiber =
        Effect_Aff__makeSupervisedFiber(&mut sim.system.borrow_mut(), util(), body).unwrap();
    sim.handle(fiber, AffFiberCall::Run);
    sim.finish();
    assert_eq!(sim.active(), 2);
    let mut agenda = Vec::new();
    let (_, call) = Effect_Aff__killAll(
        &mut sim.system.borrow_mut(),
        number(1),
        fiber,
        say("all killed", AffValue::Unit),
        &mut agenda,
    );
    assert!(call.is_none());
    assert!(sim.run(agenda).is_ok());
    assert_eq!(sim.lines(), vec!["child given up", "child given up", "all killed"]);
    assert_eq!(sim.active(), 0);
}

#[test]
fn killing_no_fibers_is_done_at_once() {
    let sim = Sim::new();
    let fiber = Effect_Aff__makeSupervisedFiber(
        &mut sim.system.borrow_mut(),
        util(),
        Effect_Aff__pure(AffValue::Unit),
    )
    .unwrap();
    let mut agenda = Vec::new();
    let (canceler, call) = Effect_Aff__killAll(
        &mut sim.system.borrow_mut(),
        number(1),
        fiber,
        say("all killed", AffValue::Unit),
        &mut agenda,
    );
    assert!(call.is_none());
    assert!(matches!(canceler.node, AffNode::Pure(AffValue::Unit)));
    assert!(sim.run(agenda).is_ok());
    assert_eq!(sim.lines(), vec!["all killed"]);
}

#[test]
fn giving_up_the_wait_revives_nobody() {
    let sim = Sim::new();
    let slow = Effect_Aff_makeAff(function(|_, _| {
        Ok(function(|_, _| Ok(function(|_, _| Ok(Effect_Aff__delay(Some(100)))))))
    }));
    let fiber = Effect_Aff__makeSupervisedFiber(
        &mut sim.system.borrow_mut(),
        util(),
        Effect_Aff__fork(true, slow),
    )
    .unwrap();
    sim.handle(fiber, AffFiberCall::Run);
    sim.settle();
    let mut agenda = Vec::new();
    let (canceler, _) = Effect_Aff__killAll(
        &mut sim.system.borrow_mut(),
        number(1),
        fiber,
        say("all killed", AffValue::Unit),
        &mut agenda,
    );
    assert!(sim.run(agenda).is_ok());
    let child = fiber + 1;
    assert_eq!(sim.result(child), "pending");
    let waiter = sim.launch(AffValue::Aff(canceler));
    sim.settle();
    assert_eq!(sim.result(waiter), "ok unit");
    sim.finish();
    assert_eq!(sim.result(child), "err 1");
    assert_eq!(sim.lines().len(), 0);
}

#[test]
fn wait_that_is_given_up_too_late_still_ends() {
    let sim = Sim::new();
    let slow = Effect_Aff_makeAff(function(|_, _| {
        Ok(function(|_, _| Ok(function(|_, _| Ok(Effect_Aff__delay(Some(100)))))))
    }));
    let fiber = Effect_Aff__makeSupervisedFiber(
        &mut sim.system.borrow_mut(),
        util(),
        Effect_Aff__fork(true, slow),
    )
    .unwrap();
    sim.handle(fiber, AffFiberCall::Run);
    sim.settle();
    let child = fiber + 1;
    let kept: std::rc::Rc<RefCell<Option<Value>>> = std::rc::Rc::new(RefCell::new(None));
    let stored = kept.clone();
    let observer = function(move |_, _either| {
        let stored = stored.clone();
        Ok(function(move |sim, _| {
            let canceler = stored.borrow().clone().unwrap();
            let waiter = sim.launch(canceler);
            sim.settle();
            sim.note(&sim.result(waiter));
            Ok(AffValue::Unit)
        }))
    });
    sim.handle(child, AffFiberCall::Join(observer));
    let mut agenda = Vec::new();
    let (canceler, _) = Effect_Aff__killAll(
        &mut sim.system.borrow_mut(),
        number(1),
        fiber,
        say("all killed", AffValue::Unit),
        &mut agenda,
    );
    *kept.borrow_mut() = Some(AffValue::Aff(canceler));
    assert!(sim.run(agenda).is_ok());
    sim.finish();
    assert_eq!(sim.result(child), "err 1");
    assert_eq!(sim.lines(), vec!["ok unit", "all killed"]);
    assert_eq!(sim.active(), 0);
}

#[test]
fn ended_child_leaves_its_supervisor() {
    let sim = Sim::new();
    let fiber = Effect_Aff__makeSupervisedFiber(
        &mut sim.system.borrow_mut(),
        util(),
        Effect_Aff__fork(true, Effect_Aff__pure(number(1))),
    )
    .unwrap();
    sim.handle(fiber, AffFiberCall::Run);
    sim.finish();
    assert_eq!(sim.system.borrow().supervisors.get(fiber).unwrap().members().len(), 0);
    sim.system.borrow_mut().dismiss(fiber);
    assert!(sim.system.borrow().supervisors.get(fiber).is_none());
}

// Time.

#[test]
fn timers_fire_by_deadline_and_registration() {
    let sim = Sim::new();
    for (nanoseconds, name) in [(20, "c"), (10, "a"), (20, "d"), (10, "b")] {
        sim.launch(then_to(Effect_Aff__delay(Some(nanoseconds)), move |sim, _| {
            sim.note(name);
            Ok(Effect_Aff__pure(AffValue::Unit))
        }));
    }
    sim.finish();
    assert_eq!(sim.lines(), vec!["a", "b", "c", "d"]);
    assert_eq!(sim.now.get(), 20);
}

#[test]
fn delay_beyond_any_duration_is_fatal() {
    let sim = Sim::new();
    let fiber = sim.launch(Effect_Aff__delay(None));
    assert_eq!(sim.faults.borrow().len(), 0);
    sim.finish();
    assert_eq!(*sim.faults.borrow(), vec![AffFault::Duration]);
    assert!(sim.system.borrow().runtime.panicked);
    assert_eq!(sim.result(fiber), "err [Aff] A Rust panic terminated this fiber");
}

#[test]
fn delay_beyond_the_clock_is_fatal() {
    let sim = Sim::new();
    let fiber = sim.launch(Effect_Aff__delay(Some(1_000_001)));
    sim.finish();
    assert_eq!(*sim.faults.borrow(), vec![AffFault::Deadline]);
    assert!(sim.system.borrow().runtime.panicked);
    assert_eq!(sim.result(fiber), "err [Aff] A Rust panic terminated this fiber");
}

// The entry point.

fn exit_of(sim: &Sim, main: AffMainOutcome<Host>) -> String {
    let mut entry: AffEntry<Host> = aff_run_main_with_workers(1);
    entry.main_ended(&mut sim.system.borrow_mut(), main);
    match entry.exit(&sim.system.borrow()) {
        AffExit::Panic => "panic".to_string(),
        AffExit::Failure(error) => format!("failure {}", show_value(&error)),
        AffExit::Success => "success".to_string(),
    }
}

fn leaves(sim: &Sim, outcome: AffNoticeOutcome<Host>, has_jobs: bool) -> bool {
    let entry: AffEntry<Host> = aff_run_main_with_workers(1);
    let leave = entry.drained(&mut sim.system.borrow_mut(), outcome, has_jobs);
    leave
}

#[test]
fn pool_has_one_worker_at_least() {
    let entry: AffEntry<Host> = aff_run_main_with_workers(0);
    assert_eq!(entry.workers, 1);
    let entry: AffEntry<Host> = purust_aff_run_main(Some("3".to_string()), Some(8));
    assert_eq!(entry.workers, 3);
    let entry: AffEntry<Host> = purust_aff_run_main(None, Some(8));
    assert_eq!(entry.workers, 8);
}

#[test]
fn entry_point_waits_for_children() {
    let sim = Sim::new();
    let grandchild = then_to(Effect_Aff__delay(Some(20)), |_, _| Ok(saying("grandchild", number(1))));
    let child = Effect_Aff__fork(true, grandchild);
    let parent = sim.launch(Effect_Aff__fork(true, child));
    sim.settle();
    assert_eq!(sim.result(parent).starts_with("ok"), true);
    assert!(!leaves(&sim, AffNoticeOutcome::Done, false));
    sim.finish();
    assert_eq!(sim.lines(), vec!["grandchild"]);
    assert!(!leaves(&sim, AffNoticeOutcome::Done, true));
    assert!(leaves(&sim, AffNoticeOutcome::Done, false));
    assert_eq!(exit_of(&sim, AffMainOutcome::Returned(Ok(AffValue::Unit))), "success");
}

#[test]
fn unhandled_error_of_the_oldest_fiber_is_reported() {
    let sim = Sim::new();
    let late = then_to(Effect_Aff__delay(Some(20)), |_, _| Ok(Effect_Aff__throwError(number(1))));
    sim.launch(late);
    sim.launch(Effect_Aff__throwError(number(2)));
    sim.finish();
    assert_eq!(exit_of(&sim, AffMainOutcome::Returned(Ok(AffValue::Unit))), "failure 1");
    assert_eq!(exit_of(&sim, AffMainOutcome::Returned(Err(number(5)))), "failure 5");
    assert!(leaves(&sim, AffNoticeOutcome::Failed(number(9)), false));
    assert_eq!(exit_of(&sim, AffMainOutcome::Returned(Ok(AffValue::Unit))), "failure 9");
}

#[test]
fn observed_errors_are_not_reported() {
    let sim = Sim::new();
    let joined = sim.make(Effect_Aff__throwError(number(1)));
    sim.handle(joined, AffFiberCall::Join(reporter("join")));
    let watched = sim.make(Effect_Aff__throwError(number(2)));
    sim.handle(watched, AffFiberCall::OnComplete { rethrow: true, handler: reporter("watch") });
    sim.handle(watched, AffFiberCall::Run);
    sim.finish();
    assert_eq!(exit_of(&sim, AffMainOutcome::Returned(Ok(AffValue::Unit))), "failure 2");
    sim.handle(watched, AffFiberCall::OnComplete { rethrow: true, handler: reporter("late") });
    assert_eq!(exit_of(&sim, AffMainOutcome::Returned(Ok(AffValue::Unit))), "failure 2");
    sim.handle(watched, AffFiberCall::Join(reporter("join")));
    assert_eq!(exit_of(&sim, AffMainOutcome::Returned(Ok(AffValue::Unit))), "success");
    assert_eq!(
        sim.lines(),
        vec!["join: left 1", "watch: left 2", "late: left 2", "join: left 2"]
    );
}

#[test]
fn panic_ends_the_fiber_and_the_program() {
    let sim = Sim::new();
    sim.launch(never("given up"));
    let fiber = sim.launch(Effect_Aff__liftEffect(function(|_, _| Err(Thrown::Panic))));
    sim.handle(fiber, AffFiberCall::Join(reporter("join")));
    sim.finish();
    assert_eq!(
        sim.lines(),
        vec!["join: left [Aff] A Rust panic terminated this fiber"]
    );
    assert_eq!(sim.active(), 1);
    assert!(leaves(&sim, AffNoticeOutcome::Done, true));
    assert_eq!(exit_of(&sim, AffMainOutcome::Returned(Err(number(1)))), "panic");
}

#[test]
fn panic_of_the_main_effect_is_fatal() {
    let sim = Sim::new();
    assert_eq!(exit_of(&sim, AffMainOutcome::Panicked), "panic");
    let other = Sim::new();
    assert!(leaves(&other, AffNoticeOutcome::Panicked, true));
    assert_eq!(exit_of(&other, AffMainOutcome::Returned(Ok(AffValue::Unit))), "panic");
}

#[test]
fn observer_that_throws_does_not_keep_others_from_being_told() {
    let sim = Sim::new();
    let fiber = sim.make(Effect_Aff__pure(number(1)));
    let throws = function(|_, _| Err(Thrown::Error(number(4))));
    sim.handle(fiber, AffFiberCall::Join(throws));
    sim.handle(fiber, AffFiberCall::Join(reporter("second")));
    sim.finish();
    assert_eq!(sim.lines(), vec!["second: right 1"]);
    assert_eq!(sim.active(), 0);
    assert_eq!(exit_of(&sim, AffMainOutcome::Returned(Ok(AffValue::Unit))), "failure 4");
}

#[test]
fn observer_that_panics_does_not_keep_others_from_being_told() {
    let sim = Sim::new();
    let fiber = sim.make(Effect_Aff__pure(number(1)));
    sim.handle(fiber, AffFiberCall::Join(function(|_, _| Err(Thrown::Panic))));
    sim.handle(fiber, AffFiberCall::Join(reporter("second")));
    sim.finish();
    assert_eq!(sim.lines(), vec!["second: right 1"]);
    assert!(sim.system.borrow().runtime.panicked);
    assert_eq!(sim.active(), 0);
}

#[test]
fn late_observer_throws_to_whoever_observes() {
    let sim = Sim::new();
    let fiber = sim.launch(Effect_Aff__pure(number(1)));
    sim.finish();
    let mut agenda = Vec::new();
    let throws = function(|_, _| Err(Thrown::Error(number(4))));
    aff_fiber_record(
        &mut sim.system.borrow_mut(),
        fiber,
        AffFiberCall::Join(throws),
        &mut agenda,
    );
    match sim.run(agenda) {
        Err(Thrown::Error(error)) => assert_eq!(as_number(&error), 4),
        _ => panic!("nobody catches this error"),
    }
}

#[test]
fn parallel_description_out_of_place_is_fatal() {
    let sim = Sim::new();
    let unit = Effect_Aff__pure(AffValue::Unit);
    let fiber = sim.launch(Effect_Aff__parAffApply(unit.clone(), unit));
    sim.finish();
    assert_eq!(*sim.faults.borrow(), vec![AffFault::Misuse]);
    assert!(sim.system.borrow().runtime.panicked);
    assert_eq!(sim.result(fiber), "err [Aff] A Rust panic terminated this fiber");
}

#[test]
fn continuation_without_a_computation_is_fatal() {
    let sim = Sim::new();
    let fiber = sim.launch(then_to(Effect_Aff__pure(AffValue::Unit), |_, _| Ok(number(1))));
    sim.finish();
    assert_eq!(*sim.faults.borrow(), vec![AffFault::NotAff]);
    assert_eq!(sim.result(fiber), "err [Aff] A Rust panic terminated this fiber");
}

#[test]
fn native_operations_keep_the_entry_point() {
    let sim = Sim::new();
    assert!(purust_aff_spawn_native(&mut sim.system.borrow_mut()));
    assert!(!leaves(&sim, AffNoticeOutcome::Done, false));
    let finished =
        aff_native_joined(&mut sim.system.borrow_mut(), AffNativeOutcome::Finished(Ok(number(2))));
    assert_eq!(show(&finished), "ok 2");
    aff_native_completed(&mut sim.system.borrow_mut());
    assert!(leaves(&sim, AffNoticeOutcome::Done, false));
    let aborted = aff_native_joined(&mut sim.system.borrow_mut(), AffNativeOutcome::Aborted);
    assert_eq!(show(&aborted), "err A native IO task terminated unexpectedly");
    assert!(!sim.system.borrow().runtime.panicked);
    let panicked = aff_native_joined(&mut sim.system.borrow_mut(), AffNativeOutcome::Panicked);
    assert_eq!(show(&panicked), "err A native IO task terminated unexpectedly");
    assert!(sim.system.borrow().runtime.panicked);
}

#[test]
fn pool_that_was_shut_down_starts_nothing() {
    let sim = Sim::new();
    let fiber = sim.launch(saying("body", AffValue::Unit));
    sim.system.borrow_mut().shut_down();
    sim.finish();
    assert_eq!(sim.lines().len(), 0);
    assert_eq!(sim.result(fiber), "pending");
}

#[test]
fn without_identifiers_nothing_new_comes() {
    let sim = Sim::new();
    let parallel = sim.make(Effect_Aff__sequential(Effect_Aff__pure(AffValue::Unit)));
    let fork = sim.make(Effect_Aff__fork(true, Effect_Aff__pure(AffValue::Unit)));
    let delay = sim.make(Effect_Aff__delay(Some(1)));
    sim.system.borrow_mut().runtime.next_id = usize::MAX;
    for fiber in [parallel, fork, delay] {
        sim.handle(fiber, AffFiberCall::Run);
    }
    sim.finish();
    assert_eq!(*sim.faults.borrow(), vec![AffFault::Exhausted; 3]);
    let unit = Effect_Aff__pure(AffValue::Unit);
    assert!(Effect_Aff__makeFiber(&mut sim.system.borrow_mut(), util(), unit.clone()).is_none());
    assert!(
        Effect_Aff__makeSupervisedFiber(&mut sim.system.borrow_mut(), util(), unit).is_none()
    );
    assert!(!purust_aff_spawn_native(&mut sim.system.borrow_mut()));
}

#[test]
fn long_chains_need_no_stack() {
    let sim = Sim::new();
    let mut aff = Effect_Aff__pure(number(0));
    for _ in 0..100_000 {
        aff = then_to(aff, |_, n| Ok(Effect_Aff__pure(number(as_number(&n) + 1))));
    }
    let fiber = sim.launch(aff);
    sim.finish();
    assert_eq!(sim.result(fiber), "ok 100000");
}

#[test]
fn many_forks_all_end() {
    let sim = Sim::new();
    for _ in 0..2_000 {
        sim.launch(Effect_Aff__fork(true, Effect_Aff__pure(AffValue::Unit)));
    }
    assert_eq!(sim.active(), 2_000);
    sim.finish();
    assert_eq!(sim.active(), 0);
}

#[test]
fn node_of_a_boxed_computation_is_shared() {
    let aff = saying("once", AffValue::Unit);
    assert!(Arc::ptr_eq(&node_of(&aff), &node_of(&aff.clone())));
}
