//! What surrounds the fibers: timers, the queue of the workers and their number, and
//! the way out of the program.
use crate::consequence::law_delay_ends_after_its_duration;
use crate::entry::AffExit;
use crate::machine::AffRequest;
use crate::meeting::{meeting_of, Rendezvous};
use crate::ordered::{is_first, lemma_least};
use crate::pool::{decimal, default_workers, is_digit, parsed_size, AffWork, PoolView};
use crate::run::AffRun;
use crate::runtime::RuntimeView;
use crate::supervisor::AffSupervisor;
use crate::system::SystemView;
use crate::table::AffTable;
use crate::target::AffTarget;
use crate::timer::{is_next, is_poll, not_after, AffTimerAction, AffTimerKey, AffTimers};
use crate::util::AffUtil;
use crate::value::{AffNative, AffResult, AffValue};
use crate::waiting::AffKillMany;
use vstd::prelude::*;

verus! {

/// Whether a timer comes before another: by its deadline, and by its identifier where
/// the deadlines are the same.
pub open spec fn comes_before(a: AffTimerKey, b: AffTimerKey) -> bool {
    a.0 < b.0 || a.0 == b.0 && a.1 < b.1
}

/// A timer fires only when its deadline has come, and no timer that comes before it
/// is left; firing takes this timer off and no other. While nothing is due the timers
/// stay, and the clock is looked at again at the first deadline.
pub proof fn law_timers_fire_when_they_are_due<C>(
    timers: Map<AffTimerKey, C>,
    now: u128,
    action: AffTimerAction<C>,
    after: Map<AffTimerKey, C>,
)
    requires
        is_poll(timers, now, action, after),
    ensures
        match action {
            AffTimerAction::Fire(callback) => exists|key: AffTimerKey| #[trigger]
                timers.contains_key(key) && key.0 <= now && timers[key] == callback && after
                    == timers.remove(key) && forall|other: AffTimerKey| #[trigger]
                    timers.contains_key(other) ==> !comes_before(other, key),
            AffTimerAction::Sleep(deadline) => after == timers && deadline > now && (exists|
                key: AffTimerKey,
            | #[trigger]
                timers.contains_key(key) && key.0 == deadline) && forall|other: AffTimerKey| #[trigger]
                timers.contains_key(other) ==> other.0 >= deadline,
            AffTimerAction::Wait => after == timers && forall|other: AffTimerKey|
                !#[trigger] timers.contains_key(other),
        },
        (exists|key: AffTimerKey| #[trigger] timers.contains_key(key) && key.0 <= now) ==> action
            is Fire,
        (exists|key: AffTimerKey| #[trigger] timers.contains_key(key)) ==> !(action is Wait),
{
    match action {
        AffTimerAction::Fire(callback) => {
            let key = choose|key: AffTimerKey| #[trigger]
                is_next(timers, key) && key.0 <= now && callback == timers[key] && after
                    == timers.remove(key);
            assert(timers.contains_key(key));
            assert forall|other: AffTimerKey| #[trigger] timers.contains_key(other) implies
                !comes_before(other, key) by {
                assert(not_after(key, other));
            }
        },
        AffTimerAction::Sleep(deadline) => {
            let key = choose|key: AffTimerKey| #[trigger]
                is_next(timers, key) && key.0 == deadline;
            assert(timers.contains_key(key));
            assert forall|other: AffTimerKey| #[trigger] timers.contains_key(other) implies other.0
                >= deadline by {
                assert(not_after(key, other));
            }
        },
        AffTimerAction::Wait => {},
    }
}

/// Workers take the fibers in the order in which they came. A queue that was shut
/// down gives out nothing any more, and an empty one lets them wait.
pub proof fn law_workers_take_the_oldest<J>(pool: PoolView<J>)
    ensures
        pool.stop ==> pool.working().1 is Stop && pool.working().0 == pool,
        !pool.stop && pool.jobs.len() == 0 ==> pool.working().1 is Wait && pool.working().0 == pool,
        !pool.stop && pool.jobs.len() > 0 ==> {
            let (left, work) = pool.working();
            &&& work == AffWork::Run(pool.jobs[0])
            &&& !left.stop
            &&& left.jobs.len() == pool.jobs.len() - 1
            &&& forall|i: int| 0 <= i < left.jobs.len() ==> left.jobs[i] == pool.jobs[i + 1]
        },
{
}

/// The value of digits: one more digit makes it ten times as large and adds its own.
pub proof fn law_digits_have_a_value(digits: Seq<char>, digit: char)
    requires
        '0' <= digit && digit <= '9',
    ensures
        decimal(Seq::empty()) == 0,
        decimal(digits.push(digit)) == 10 * decimal(digits) + (digit as int - '0' as int),
{
    assert(digits.push(digit).drop_last() =~= digits);
}

/// A number is read from digits, with or without a sign in front, if it is not too
/// large; from anything else nothing is read.
pub proof fn law_numbers_are_read(digits: Seq<char>)
    ensures
        ({
            let are_digits = digits.len() > 0 && forall|i: int|
                0 <= i < digits.len() ==> '0' <= #[trigger] digits[i] && digits[i] <= '9';
            &&& are_digits && decimal(digits) <= usize::MAX ==> {
                &&& parsed_size(digits) is Some && parsed_size(digits)->0 == decimal(digits)
                &&& parsed_size(seq!['+'] + digits) == parsed_size(digits)
            }
            &&& are_digits && decimal(digits) > usize::MAX ==> parsed_size(digits) is None
                && parsed_size(seq!['+'] + digits) is None
            &&& !are_digits ==> parsed_size(seq!['+'] + digits) is None
            &&& !are_digits && (digits.len() == 0 || digits[0] != '+') ==> parsed_size(digits)
                is None
        }),
{
    assert((seq!['+'] + digits).skip(1) =~= digits);
    if forall|i: int| 0 <= i < digits.len() ==> is_digit(#[trigger] digits[i]) {
        assert forall|i: int| 0 <= i < digits.len() implies '0' <= #[trigger] digits[i] && digits[i]
            <= '9' by {
            assert(is_digit(digits[i]));
        }
    }
}

/// The number of workers is the one that was asked for, if it is a number above zero;
/// otherwise as many as the machine can run at once, two at least, and four where
/// that is not known.
pub proof fn law_number_of_workers(setting: Option<Seq<char>>, parallelism: Option<usize>)
    ensures
        ({
            let workers = default_workers(setting, parallelism);
            let asked = setting is Some && parsed_size(setting->0) is Some && parsed_size(
                setting->0,
            )->0 > 0;
            &&& asked ==> workers == parsed_size(setting->0)->0
            &&& !asked && parallelism is None ==> workers == 4
            &&& !asked && parallelism is Some && parallelism->0 >= 2 ==> workers == parallelism->0
            &&& !asked && parallelism is Some && parallelism->0 < 2 ==> workers == 2
        }),
{
}

/// The entry point is left after a panic at once, and otherwise when nothing is
/// active and no microtask waits.
pub proof fn law_way_out_is_open<H>(runtime: RuntimeView<H>, has_jobs: bool)
    ensures
        runtime.may_exit(has_jobs) <==> runtime.panicked || (runtime.active == 0 && !has_jobs),
{
}

/// How the program ends: a panic comes first, then the error of the main effect, then
/// the error of the oldest fiber whose error nobody has taken care of; without any of
/// them it ends well.
pub proof fn law_how_the_program_ends<H>(
    runtime: RuntimeView<H>,
    main: AffResult<H>,
    oldest: usize,
)
    requires
        runtime.errors.dom().finite(),
    ensures
        runtime.panicked ==> runtime.exit(main) is Panic,
        !runtime.panicked && main is Err ==> runtime.exit(main) == AffExit::Failure(main->Err_0),
        !runtime.panicked && main is Ok && runtime.errors.contains_key(oldest) && (forall|id: usize|
            #[trigger] runtime.errors.contains_key(id) ==> oldest <= id) ==> runtime.exit(main)
            == AffExit::Failure(runtime.errors[oldest]),
        !runtime.panicked && main is Ok && (forall|id: usize|
            !#[trigger] runtime.errors.contains_key(id)) ==> runtime.exit(main) is Success,
        !runtime.panicked && main is Ok && (exists|id: usize| #[trigger]
            runtime.errors.contains_key(id)) ==> runtime.exit(main) is Failure,
{
    if exists|id: usize| #[trigger] runtime.errors.contains_key(id) {
        let id = choose|id: usize| #[trigger] runtime.errors.contains_key(id);
        assert(runtime.errors.dom().contains(id));
        let least = lemma_least(runtime.errors);
        assert(is_first(runtime.errors, least));
    }
    if runtime.errors.contains_key(oldest) && (forall|id: usize| #[trigger]
        runtime.errors.contains_key(id) ==> oldest <= id) {
        assert(is_first(runtime.errors, oldest));
        let first = choose|id: usize| is_first(runtime.errors, id);
        assert(is_first(runtime.errors, first));
        assert(first <= oldest && oldest <= first);
    }
}

/// Two threads meet, one is alone, and more are a crowd.
pub proof fn law_meetings_are_of_two(arrivals: nat)
    ensures
        meeting_of(arrivals) is Met <==> arrivals == 2,
        meeting_of(arrivals) is Alone <==> arrivals < 2,
        meeting_of(arrivals) is Crowded <==> arrivals > 2,
{
}

/// Results cross over to the program in its own form.
pub proof fn law_results_cross_over<H>(util: AffUtil<H>, x: AffValue<H>)
    ensures
        util.encoding(Ok(x)).function == util.right && util.encoding(Ok(x)).argument == x,
        util.encoding(Err(x)).function == util.left && util.encoding(Err(x)).argument == x,
{
}

/// Groups, runs, timers, tables, supervisors and meetings are seen as they are.
pub proof fn law_parts_are_seen_as_they_are<H, T: View>(
    group: &AffKillMany<H>,
    run: &AffRun<H>,
    timers: &AffTimers<T>,
    table: &AffTable<T>,
    key: usize,
    supervisor: &AffSupervisor,
    meeting: &Rendezvous,
)
    ensures
        supervisor@ == supervisor.fibers@,
        meeting@ == meeting.arrivals@,
        group@.remaining == group.remaining,
        group@.victims == group.victims@,
        group@.error == group.error,
        group@.target == group.target,
        group@.removers == group.removers@,
        run@.par == run.par@,
        run@.fibers == run.fibers@,
        run@.target == run.target,
        timers@ == timers.queue@,
        table@.contains_key(key) <==> table.entries@.contains_key(key),
        table@.contains_key(key) ==> table@[key] == table.entries@[key]@,
{
}

/// A delay that is registered now does not end its wait before its duration is over,
/// and once it is over the clock no longer lets the timers sleep.
pub proof fn law_delay_lasts_as_long_as_it_should<H>(
    system: SystemView<H>,
    id: usize,
    util: AffUtil<H>,
    supervisor: Option<usize>,
    nanoseconds: u128,
    tick: usize,
    yields: bool,
    now: u128,
    later: u128,
    action: AffTimerAction<AffTarget<H>>,
    after: Map<AffTimerKey, AffTarget<H>>,
)
    requires
        now + nanoseconds <= system.horizon,
        system.runtime.next_id + system.runtime.natives < usize::MAX,
        forall|key: AffTimerKey| #[trigger]
            system.timers.contains_key(key) ==> system.timers[key] != (AffTarget::<H>::Resolve {
                fiber: id,
                tick,
            }),
        is_poll(
            system.performing(
                id,
                util,
                supervisor,
                AffRequest::Native { build: AffNative::Delay(Some(nanoseconds)), tick, yields },
                now,
            ).system.timers,
            later,
            action,
            after,
        ),
    ensures
        action == AffTimerAction::Fire(AffTarget::<H>::Resolve { fiber: id, tick }) ==> later >= now
            + nanoseconds,
        later >= now + nanoseconds ==> action is Fire,
        action matches AffTimerAction::Sleep(deadline) ==> deadline <= now + nanoseconds,
        !(action is Wait),
{
    law_delay_ends_after_its_duration(
        system,
        id,
        util,
        supervisor,
        nanoseconds,
        tick,
        yields,
        now,
    );
    let moved = system.performing(
        id,
        util,
        supervisor,
        AffRequest::Native { build: AffNative::Delay(Some(nanoseconds)), tick, yields },
        now,
    );
    let key = ((now + nanoseconds) as u128, system.runtime.next_id);
    assert(moved.system.timers.contains_key(key));
    law_timers_fire_when_they_are_due(moved.system.timers, later, action, after);
    if let AffTimerAction::Fire(target) = action {
        let fired = choose|fired: AffTimerKey| #[trigger]
            moved.system.timers.contains_key(fired) && fired.0 <= later
                && moved.system.timers[fired] == target;
        if fired != key {
            assert(system.timers.contains_key(fired));
        }
    }
}

} // verus!
