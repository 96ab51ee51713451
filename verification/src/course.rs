//! A parallel run from its beginning to its end: whatever results come in, and
//! in whatever order, whoever waits for the run is told exactly once.
use crate::layout::{lemma_plan_len, plan, planned_entry, planned_run};
use crate::parallel::{
    entry_fits, lemma_meet_shape, lemma_settle_shape, lemma_shape_transitive, lemma_update_shape,
    same_shape, AffParKind, EntryView, ParActionView, ParView,
};
use crate::runtime::lemma_bounded_len;
use crate::system::SystemView;
use crate::target::AffNotice;
use crate::task::AffTask;
use crate::value::{AffNodeRef, AffResult};
use vstd::prelude::*;

verus! {

/// A run on its way: the leaves that have not ended, the calls that the program
/// is making, the outcomes that wait for leaves to be killed, and the results
/// that whoever waits for the run has been told.
#[verifier::ext_equal]
pub struct Course<H> {
    pub run: ParView<H>,
    pub leaves: Set<usize>,
    pub calls: Set<usize>,
    pub kills: Map<usize, AffResult<H>>,
    pub told: Seq<AffResult<H>>,
}

/// A result that comes in for an entry.
pub struct Arrival<H> {
    pub entry: usize,
    pub result: AffResult<H>,
}

impl<H> Course<H> {
    /// Whether something can still come in for an entry: it is a leaf that has
    /// not ended, its call has not returned, or its kills have not been
    /// acknowledged.
    pub open spec fn is_due(self, i: usize) -> bool {
        self.leaves.contains(i) || self.calls.contains(i) || self.kills.contains_key(i)
    }

    /// Whether this can come in. Leaves and calls end with whatever they end
    /// with; what comes with the acknowledgement of kills is the outcome that
    /// waited for it.
    pub open spec fn can_take(self, arrival: Arrival<H>) -> bool {
        &&& self.is_due(arrival.entry)
        &&& self.kills.contains_key(arrival.entry) ==> self.kills[arrival.entry] == arrival.result
    }

    /// The run after a result has come in.
    pub open spec fn after(self, arrival: Arrival<H>) -> Course<H> {
        let (run, action) = self.run.settle(arrival.entry, arrival.result);
        let next = Course {
            run,
            leaves: self.leaves.remove(arrival.entry),
            calls: self.calls.remove(arrival.entry),
            kills: self.kills.remove(arrival.entry),
            told: self.told,
        };
        match action {
            ParActionView::Wait => next,
            ParActionView::Call { entry, .. } => Course { calls: next.calls.insert(entry), ..next },
            ParActionView::Kill { entry, outcome, .. } => Course {
                kills: next.kills.insert(entry, outcome),
                ..next
            },
            ParActionView::Done(outcome) => Course { told: next.told.push(outcome), ..next },
        }
    }

    /// Whether all leaves have ended, all calls have returned and all kills have
    /// been acknowledged.
    pub open spec fn is_over(self) -> bool {
        forall|i: usize| !#[trigger] self.is_due(i)
    }
}

/// A run of `root` before anything has come in.
pub open spec fn outset<H>(root: AffNodeRef<H>) -> Course<H> {
    let run = planned_run(root);
    Course {
        run,
        leaves: Set::new(
            |i: usize| i < run.entries.len() && run.entries[i as int].kind is Leaf,
        ),
        calls: Set::empty(),
        kills: Map::empty(),
        told: Seq::empty(),
    }
}

/// The run of `root` after all these results have come in, one after another.
pub open spec fn course<H>(root: AffNodeRef<H>, arrivals: Seq<Arrival<H>>) -> Course<H>
    decreases arrivals.len(),
{
    if arrivals.len() == 0 {
        outset(root)
    } else {
        course(root, arrivals.drop_last()).after(arrivals.last())
    }
}

/// Whether results can come in in this order.
pub open spec fn is_course<H>(root: AffNodeRef<H>, arrivals: Seq<Arrival<H>>) -> bool
    decreases arrivals.len(),
{
    arrivals.len() == 0 || {
        &&& is_course(root, arrivals.drop_last())
        &&& course(root, arrivals.drop_last()).can_take(arrivals.last())
    }
}

/// Whether an entry that has decided nothing yet waits for one of its children,
/// and for good reason.
spec fn is_waiting<H>(entries: Seq<EntryView<H>>, i: int) -> bool {
    let children = entries[i].children;
    match entries[i].kind {
        AffParKind::Leaf => true,
        AffParKind::Mapping(_) => entries[children[0] as int].result is None,
        AffParKind::Apply => {
            &&& entries[children[0] as int].result is None || entries[children[1] as int].result
                is None
            &&& !(entries[children[0] as int].result matches Some(Err(_)))
            &&& !(entries[children[1] as int].result matches Some(Err(_)))
        },
        AffParKind::Alt => {
            &&& entries[children[0] as int].result is None || entries[children[1] as int].result
                is None
            &&& !(entries[children[0] as int].result matches Some(Ok(_)))
            &&& !(entries[children[1] as int].result matches Some(Ok(_)))
        },
    }
}

/// Whether an entry of a run that goes on has its result, or something is under
/// way that brings it. `busy` are the entries with a call or with kills.
spec fn is_kept<H>(
    entries: Seq<EntryView<H>>,
    leaves: Set<usize>,
    busy: Set<usize>,
    i: int,
) -> bool {
    let entry = entries[i];
    if entry.kind is Leaf {
        entry.result is None <==> leaves.contains(i as usize)
    } else {
        &&& busy.contains(i as usize) <==> entry.settling && entry.result is None
        &&& !entry.settling && entry.result is None ==> is_waiting(entries, i)
    }
}

spec fn are_kept<H>(
    entries: Seq<EntryView<H>>,
    leaves: Set<usize>,
    busy: Set<usize>,
    hole: Option<usize>,
) -> bool {
    forall|i: int|
        0 <= i < entries.len() && hole != Some(i as usize) ==> #[trigger] is_kept(
            entries,
            leaves,
            busy,
            i,
        )
}

/// The entry that waits for outside work after a result has come in.
spec fn newly_busy<H>(action: ParActionView<H>) -> Option<usize> {
    match action {
        ParActionView::Call { entry, .. } => Some(entry),
        ParActionView::Kill { entry, .. } => Some(entry),
        _ => None,
    }
}

/// Whether everything that was decided in `a` is decided in `b`.
spec fn goes_on_from<H>(a: Seq<EntryView<H>>, b: Seq<EntryView<H>>) -> bool {
    &&& same_shape(a, b)
    &&& forall|i: int|
        #![trigger a[i]]
        #![trigger b[i]]
        0 <= i < a.len() ==> {
            &&& a[i].settling ==> b[i].settling
            &&& a[i].result is Some ==> b[i].result is Some
        }
}

/// With a result for entry `i`, whose outside work is done, the run goes on with
/// every entry kept, or it tells its result.
proof fn lemma_settle_keeps<H>(
    run: ParView<H>,
    i: usize,
    result: AffResult<H>,
    leaves: Set<usize>,
    busy: Set<usize>,
)
    requires
        run.wf(),
        !run.stopped,
        i < run.entries.len(),
        run.entries[i as int].result is None,
        run.entries[0].result is None,
        are_kept(run.entries, leaves, busy, Some(i)),
        run.entries[i as int].kind is Leaf ==> !leaves.contains(i),
        !busy.contains(i),
    ensures
        ({
            let (next, action) = run.settle(i, result);
            &&& goes_on_from(run.entries, next.entries)
            &&& next.wf()
            &&& next.stopped <==> action is Done
            &&& next.stopped <==> next.entries[0].result is Some
            &&& next.entries[i as int].result is Some
            &&& newly_busy(action) matches Some(p) ==> {
                &&& p < next.entries.len()
                &&& !(next.entries[p as int].kind is Leaf)
                &&& p < i
                &&& !busy.contains(p)
                &&& !run.entries[p as int].settling
                &&& next.entries[p as int].settling
            }
            &&& !next.stopped ==> are_kept(
                next.entries,
                leaves,
                match newly_busy(action) {
                    Some(p) => busy.insert(p),
                    None => busy,
                },
                None,
            )
        }),
    decreases i,
{
    let entries = run.entries;
    assert(entry_fits(entries, i as int));
    let settled = run.with_result(i, result);
    lemma_update_shape(run, i, EntryView { result: Some(result), ..entries[i as int] });
    assert(settled.entries[i as int].kind == entries[i as int].kind);
    if let Some(p) = entries[i as int].parent {
        assert(entry_fits(entries, p as int));
        let children = entries[p as int].children;
        let c = choose|c: int| 0 <= c < children.len() && children[c] == i;
        assert(children[c] == i);
        assert(is_kept(entries, leaves, busy, p as int));
        assert(settled.entries[p as int] == entries[p as int]);
        assert forall|j: int|
            0 <= j < settled.entries.len() && j != p implies #[trigger] is_kept(
            settled.entries,
            leaves,
            busy,
            j,
        ) by {
            if j != i {
                assert(is_kept(entries, leaves, busy, j));
            }
            lemma_other_children(entries, j, p, i, result);
        }
        if entries[p as int].settling || entries[p as int].result is Some {
            assert(is_kept(settled.entries, leaves, busy, p as int));
        } else {
            let (after, outcome) = settled.meet(p, i, result);
            lemma_meet_shape(settled, p, i, result);
            lemma_shape_transitive(entries, settled.entries, after.entries);
            assert(after.entries =~= settled.entries.update(p as int, after.entries[p as int]));
            if children.len() == 2 {
                assert(children[1 - c] != i);
                assert(settled.entries[children[1 - c] as int] == entries[children[1 - c] as int]);
            }
            let now = match outcome {
                Ok(action) => match newly_busy(action) {
                    Some(q) => busy.insert(q),
                    None => busy,
                },
                Err(_) => busy,
            };
            assert forall|j: int|
                0 <= j < after.entries.len() && j != p implies #[trigger] is_kept(
                after.entries,
                leaves,
                now,
                j,
            ) by {
                assert(is_kept(settled.entries, leaves, busy, j));
                assert(entry_fits(entries, j));
                assert(same_results(settled.entries, after.entries));
                lemma_waiting_same_results(settled.entries, after.entries, j);
            }
            match outcome {
                Ok(action) => {
                    lemma_waiting_same_results(settled.entries, after.entries, p as int);
                    assert(is_kept(after.entries, leaves, now, p as int));
                },
                Err(upward) => {
                    lemma_settle_keeps(after, p, upward, leaves, busy);
                    lemma_shape_transitive(
                        entries,
                        after.entries,
                        after.settle(p, upward).0.entries,
                    );
                },
            }
        }
    }
}

spec fn same_results<H>(a: Seq<EntryView<H>>, b: Seq<EntryView<H>>) -> bool {
    &&& same_shape(a, b)
    &&& forall|i: int|
        #![trigger a[i]]
        #![trigger b[i]]
        0 <= i < a.len() ==> a[i].result == b[i].result
}

proof fn lemma_waiting_same_results<H>(a: Seq<EntryView<H>>, b: Seq<EntryView<H>>, j: int)
    requires
        same_results(a, b),
        0 <= j < a.len(),
        entry_fits(a, j),
    ensures
        is_waiting(a, j) == is_waiting(b, j),
{
    let children = a[j].children;
    assert(b[j].kind == a[j].kind);
    if children.len() > 0 {
        assert(a[children[0] as int].result == b[children[0] as int].result);
    }
    if children.len() == 2 {
        assert(a[children[1] as int].result == b[children[1] as int].result);
    }
}

/// A result for a child of `p` means nothing to the other entries.
proof fn lemma_other_children<H>(
    entries: Seq<EntryView<H>>,
    j: int,
    p: usize,
    i: usize,
    result: AffResult<H>,
)
    requires
        crate::parallel::is_tree(entries),
        0 <= j < entries.len(),
        i < entries.len(),
        entries[i as int].parent == Some(p),
        j != p,
    ensures
        is_waiting(
            entries.update(i as int, EntryView { result: Some(result), ..entries[i as int] }),
            j,
        ) == is_waiting(entries, j),
{
    assert(entry_fits(entries, j));
    let children = entries[j].children;
    if children.len() > 0 {
        assert(entries[children[0] as int].parent == Some(j as usize));
    }
    if children.len() == 2 {
        assert(entries[children[1] as int].parent == Some(j as usize));
    }
}

impl<H> Course<H> {
    spec fn busy(self) -> Set<usize> {
        self.calls.union(self.kills.dom())
    }
}

spec fn is_sound<H>(course: Course<H>) -> bool {
    let entries = course.run.entries;
    &&& course.run.wf()
    &&& course.run.stopped <==> entries[0].result is Some
    &&& course.told.len() == if course.run.stopped {
        1nat
    } else {
        0
    }
    &&& !course.run.stopped ==> are_kept(entries, course.leaves, course.busy(), None)
    &&& forall|i: usize| #[trigger]
        course.leaves.contains(i) ==> i < entries.len() && entries[i as int].kind is Leaf
    &&& forall|i: usize| #[trigger]
        course.busy().contains(i) ==> i < entries.len() && !(entries[i as int].kind is Leaf)
}

/// Whether nothing can come in for this entry any more.
spec fn is_past<H>(course: Course<H>, i: usize) -> bool {
    &&& i < course.run.entries.len()
    &&& !course.is_due(i)
    &&& course.run.entries[i as int].kind is Leaf || course.run.stopped
        || course.run.entries[i as int].settling
}

proof fn lemma_course_stays_sound<H>(course: Course<H>, arrival: Arrival<H>)
    requires
        is_sound(course),
        course.can_take(arrival),
    ensures
        is_sound(course.after(arrival)),
        is_past(course.after(arrival), arrival.entry),
        forall|i: usize| #[trigger]
            is_past(course, i) ==> i != arrival.entry && is_past(course.after(arrival), i),
        same_shape(course.run.entries, course.after(arrival).run.entries),
{
    let entries = course.run.entries;
    let i = arrival.entry;
    let next = course.after(arrival);
    assert(course.busy().contains(i) || course.leaves.contains(i));
    lemma_settle_shape(course.run, i, arrival.result);
    let leaves = course.leaves.remove(i);
    let busy = course.busy().remove(i);
    if course.run.stopped {
        assert(next.busy() =~= busy);
        assert(next.run == course.run);
    } else {
        assert(is_kept(entries, course.leaves, course.busy(), i as int));
        assert(is_kept(entries, course.leaves, course.busy(), 0));
        assert forall|j: int|
            0 <= j < entries.len() && j != i implies #[trigger] is_kept(
            entries,
            leaves,
            busy,
            j,
        ) by {
            assert(is_kept(entries, course.leaves, course.busy(), j));
        }
        lemma_settle_keeps(course.run, i, arrival.result, leaves, busy);
        let action = course.run.settle(i, arrival.result).1;
        match newly_busy(action) {
            Some(p) => {
                assert(next.busy() =~= busy.insert(p));
            },
            None => {
                assert(next.busy() =~= busy);
            },
        }
        assert forall|j: usize| #[trigger] is_past(course, j) implies j != i && is_past(next, j) by {
            assert(entries[j as int].kind == next.run.entries[j as int].kind);
            assert(is_kept(entries, course.leaves, course.busy(), j as int));
            assert(!course.busy().contains(j));
            assert(!next.busy().contains(j));
        }
        assert(!next.busy().contains(i));
    }
    assert forall|j: usize| #[trigger] next.leaves.contains(j) implies j < next.run.entries.len()
        && next.run.entries[j as int].kind is Leaf by {
        assert(course.leaves.contains(j));
        assert(entries[j as int].kind == next.run.entries[j as int].kind);
    }
    assert forall|j: usize| #[trigger] next.busy().contains(j) implies j < next.run.entries.len()
        && !(next.run.entries[j as int].kind is Leaf) by {
        if course.busy().contains(j) {
            assert(entries[j as int].kind == next.run.entries[j as int].kind);
        }
    }
}

proof fn lemma_course_is_sound<H>(root: &AffNodeRef<H>, arrivals: Seq<Arrival<H>>)
    requires
        planned_run(*root).wf(),
        is_course(*root, arrivals),
    ensures
        is_sound(course(*root, arrivals)),
        same_shape(planned_run(*root).entries, course(*root, arrivals).run.entries),
        forall|k: int|
            0 <= k < arrivals.len() ==> is_past(
                course(*root, arrivals),
                (#[trigger] arrivals[k]).entry,
            ),
        forall|a: int, b: int|
            0 <= a < b < arrivals.len() ==> (#[trigger] arrivals[a]).entry != (
            #[trigger] arrivals[b]).entry,
    decreases arrivals.len(),
{
    let entries = planned_run(*root).entries;
    if arrivals.len() == 0 {
        let start = outset(*root);
        let planned = plan(&root.node, None, 0);
        lemma_plan_len(&root.node, None, 0);
        assert(entries[0] == planned_entry(planned[0]));
        assert forall|i: int| 0 <= i < entries.len() implies #[trigger] is_kept(
            entries,
            start.leaves,
            start.busy(),
            i,
        ) by {
            assert(entry_fits(entries, i));
            assert(entries[i] == planned_entry(planned[i]));
            let children = entries[i].children;
            if children.len() > 0 {
                assert(entries[children[0] as int] == planned_entry(planned[children[0] as int]));
            }
            if children.len() == 2 {
                assert(entries[children[1] as int] == planned_entry(planned[children[1] as int]));
            }
        }
    } else {
        let before = arrivals.drop_last();
        let here = course(*root, before);
        let next = course(*root, arrivals);
        lemma_course_is_sound(root, before);
        lemma_course_stays_sound(here, arrivals.last());
        lemma_shape_transitive(entries, here.run.entries, next.run.entries);
        assert forall|k: int| 0 <= k < arrivals.len() implies is_past(
            next,
            (#[trigger] arrivals[k]).entry,
        ) by {
            if k < before.len() {
                assert(before[k] == arrivals[k]);
                assert(is_past(here, before[k].entry));
            }
        }
        assert forall|a: int, b: int| 0 <= a < b < arrivals.len() implies (
        #[trigger] arrivals[a]).entry != (#[trigger] arrivals[b]).entry by {
            assert(before[a] == arrivals[a]);
            if b < before.len() {
                assert(before[b] == arrivals[b]);
            } else {
                assert(is_past(here, before[a].entry));
            }
        }
    }
}

/// Below an entry without a result something is under way.
proof fn lemma_something_is_due<H>(course: Course<H>, i: int) -> (due: usize)
    requires
        is_sound(course),
        !course.run.stopped,
        0 <= i < course.run.entries.len(),
        course.run.entries[i].result is None,
    ensures
        course.is_due(due),
    decreases course.run.entries.len() - i,
{
    let entries = course.run.entries;
    assert(entry_fits(entries, i));
    assert(is_kept(entries, course.leaves, course.busy(), i));
    if entries[i].kind is Leaf || entries[i].settling {
        i as usize
    } else {
        let children = entries[i].children;
        if entries[children[0] as int].result is None {
            lemma_something_is_due(course, children[0] as int)
        } else {
            lemma_something_is_due(course, children[1] as int)
        }
    }
}

/// Whoever waits for a parallel run is told exactly once. Whether branches fail,
/// race or are killed, and in whatever order results come in: there is never
/// more than one result, and when every leaf has ended, every call has returned
/// and every kill has been acknowledged, there is one.
pub proof fn law_run_tells_exactly_once<H>(root: &AffNodeRef<H>, arrivals: Seq<Arrival<H>>)
    requires
        planned_run(*root).wf(),
        is_course(*root, arrivals),
    ensures
        course(*root, arrivals).told.len() <= 1,
        course(*root, arrivals).is_over() ==> course(*root, arrivals).told.len() == 1,
        course(*root, arrivals).told.len() == 1 <==> course(*root, arrivals).run.stopped,
{
    let reached = course(*root, arrivals);
    lemma_course_is_sound(root, arrivals);
    if !reached.run.stopped {
        let due = lemma_something_is_due(reached, 0);
        assert(reached.is_due(due));
    }
}

/// What has been told is not taken back: results that come in later change
/// nothing of it.
pub proof fn law_told_result_stands<H>(
    root: &AffNodeRef<H>,
    arrivals: Seq<Arrival<H>>,
    later: Arrival<H>,
)
    requires
        planned_run(*root).wf(),
        is_course(*root, arrivals.push(later)),
        course(*root, arrivals).told.len() == 1,
    ensures
        course(*root, arrivals.push(later)).told == course(*root, arrivals).told,
        course(*root, arrivals.push(later)).run == course(*root, arrivals).run,
{
    assert(arrivals.push(later).drop_last() =~= arrivals);
    lemma_course_is_sound(root, arrivals);
    let reached = course(*root, arrivals);
    assert(reached.busy().contains(later.entry) || reached.leaves.contains(later.entry));
}

/// And it does come to an end: something comes in for an entry at most once, so
/// no more results can come in than there are entries.
pub proof fn law_run_comes_to_an_end<H>(root: &AffNodeRef<H>, arrivals: Seq<Arrival<H>>)
    requires
        planned_run(*root).wf(),
        is_course(*root, arrivals),
    ensures
        arrivals.len() <= planned_run(*root).entries.len(),
{
    lemma_course_is_sound(root, arrivals);
    let order = arrivals.map_values(|arrival: Arrival<H>| arrival.entry);
    assert forall|a: int, b: int| 0 <= a < order.len() && 0 <= b < order.len() && a != b implies
        order[a] != order[b] by {
        assert(order[a] == arrivals[a].entry && order[b] == arrivals[b].entry);
    }
    order.unique_seq_to_set();
    assert forall|n: usize| order.to_set().contains(n) implies n
        < planned_run(*root).entries.len() by {
        let k = choose|k: int| 0 <= k < order.len() && order[k] == n;
        assert(order[k] == n && order[k] == arrivals[k].entry);
        assert(is_past(course(*root, arrivals), arrivals[k].entry));
    }
    lemma_bounded_len(order.to_set(), planned_run(*root).entries.len());
}

/// The result of a parallel run goes to the one that waits for it, and nothing
/// that comes in for the run afterwards counts.
pub proof fn law_run_is_gone_once_told<H>(
    system: SystemView<H>,
    token: usize,
    entry: usize,
    result: AffResult<H>,
    later_entry: usize,
    later: AffResult<H>,
)
    requires
        system.runs.contains_key(token),
        entry < system.runs[token].par.entries.len(),
        system.runs[token].par.settle(entry, result).1 is Done,
    ensures
        ({
            let moved = system.settling(token, entry, result);
            let outcome = system.runs[token].par.settle(entry, result).1->Done_0;
            &&& moved.tasks == seq![
                AffTask::Tell(AffNotice { target: system.runs[token].target, result: outcome }),
            ]
            &&& moved.call is None
            &&& moved.system.settling(token, later_entry, later) == moved.system.leading_to(seq![])
        }),
{
}

} // verus!
