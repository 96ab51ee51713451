//! What a parallel description without races is worth, and that its run comes
//! to that value in whatever order the branches end.
use crate::course::{
    course, is_course, law_run_tells_exactly_once, outset, Arrival, Course,
};
use crate::layout::{lemma_plan_len, plan, plan_size, planned_entry, planned_run, PlanEntry};
use crate::parallel::{
    entry_fits, is_tree, lemma_settle_shape, lemma_shape_transitive, same_shape, EntryView,
};
use crate::races::{is_on_course, law_results_keep_their_places, lemma_worth_same_shape, worth};
use crate::value::{AffNode, AffNodeRef, AffResult, AffValue};
use vstd::prelude::*;

verus! {

/// Whether no part of a parallel description is a race.
pub open spec fn is_race_free<H>(node: AffNodeRef<H>) -> bool
    decreases node,
{
    match node.node {
        AffNode::ParMap(_, child) => is_race_free(child),
        AffNode::ParApply(left, right) => is_race_free(left) && is_race_free(right),
        AffNode::ParAlt(..) => false,
        _ => true,
    }
}

/// The value of a parallel description whose first entry stands at `base`: that
/// of a leaf is the one at its entry, a function is called with the value of
/// what it is mapped over, and the value on the left with the one on the right.
pub open spec fn evaluation<H>(
    node: AffNodeRef<H>,
    leaves: Seq<AffValue<H>>,
    call: spec_fn(AffValue<H>, AffValue<H>) -> AffValue<H>,
    base: int,
) -> AffValue<H>
    decreases node,
{
    match node.node {
        AffNode::ParMap(function, child) => call(
            function,
            evaluation(child, leaves, call, base + 1),
        ),
        AffNode::ParApply(left, right) => call(
            evaluation(left, leaves, call, base + 1),
            evaluation(right, leaves, call, base + 1 + plan_size(&left.node)),
        ),
        _ => leaves[base],
    }
}

/// Whether the entries from `base` on are those of a description.
pub open spec fn holds_plan<H>(entries: Seq<EntryView<H>>, planned: Seq<PlanEntry<H>>, base: int) -> bool {
    &&& 0 <= base && base + planned.len() <= entries.len()
    &&& forall|k: int|
        0 <= k < planned.len() ==> entries[base + k] == planned_entry(#[trigger] planned[k])
}

pub proof fn lemma_holds_part<H>(
    entries: Seq<EntryView<H>>,
    planned: Seq<PlanEntry<H>>,
    base: int,
    part: Seq<PlanEntry<H>>,
    offset: int,
)
    requires
        holds_plan(entries, planned, base),
        0 <= offset && offset + part.len() <= planned.len(),
        forall|k: int| 0 <= k < part.len() ==> part[k] == #[trigger] planned[offset + k],
    ensures
        holds_plan(entries, part, base + offset),
{
    assert forall|k: int| 0 <= k < part.len() implies entries[base + offset + k] == planned_entry(
        #[trigger] part[k],
    ) by {
        assert(part[k] == planned[offset + k]);
    }
}

proof fn lemma_worth_is_evaluation<H>(
    entries: Seq<EntryView<H>>,
    leaves: Seq<AffValue<H>>,
    call: spec_fn(AffValue<H>, AffValue<H>) -> AffValue<H>,
    node: &AffNodeRef<H>,
    parent: Option<int>,
    base: int,
)
    requires
        is_tree(entries),
        is_race_free(*node),
        holds_plan(entries, plan(&node.node, parent, base), base),
    ensures
        base < entries.len(),
        worth(entries, leaves, call, base) == evaluation(*node, leaves, call, base),
        forall|k: int|
            base <= k < base + plan_size(&node.node) ==> !((#[trigger] entries[k]).kind is Alt),
    decreases node.node,
{
    let planned = plan(&node.node, parent, base);
    lemma_plan_len(&node.node, parent, base);
    assert(entries[base + 0] == planned_entry(planned[0]));
    assert(entry_fits(entries, base));
    match &node.node {
        AffNode::ParMap(_, child) => {
            let part = plan(&child.node, Some(base), base + 1);
            lemma_plan_len(&child.node, Some(base), base + 1);
            lemma_holds_part(entries, planned, base, part, 1);
            lemma_worth_is_evaluation(entries, leaves, call, child, Some(base), base + 1);
            assert(planned[0].children[0] == base + 1);
            assert(entries[base].children[0] == base + 1);
        },
        AffNode::ParApply(left, right) => {
            let size = plan_size(&left.node) as int;
            let first = plan(&left.node, Some(base), base + 1);
            let second = plan(&right.node, Some(base), base + 1 + size);
            lemma_plan_len(&left.node, Some(base), base + 1);
            lemma_plan_len(&right.node, Some(base), base + 1 + size);
            lemma_holds_part(entries, planned, base, first, 1);
            lemma_holds_part(entries, planned, base, second, 1 + size);
            lemma_worth_is_evaluation(entries, leaves, call, left, Some(base), base + 1);
            lemma_worth_is_evaluation(entries, leaves, call, right, Some(base), base + 1 + size);
            assert(planned[0].children[0] == base + 1);
            assert(planned[0].children[1] == base + 1 + size);
            assert(entries[base].children[0] == base + 1);
            assert(entries[base].children[1] == base + 1 + size);
        },
        _ => {},
    }
}

/// The root of a planned run is worth what the description evaluates to, and
/// none of its entries is a race.
pub proof fn law_root_is_worth_the_evaluation<H>(
    root: &AffNodeRef<H>,
    leaves: Seq<AffValue<H>>,
    call: spec_fn(AffValue<H>, AffValue<H>) -> AffValue<H>,
)
    requires
        planned_run(*root).wf(),
        is_race_free(*root),
    ensures
        worth(planned_run(*root).entries, leaves, call, 0) == evaluation(*root, leaves, call, 0),
        is_on_course(planned_run(*root), leaves, call),
{
    let entries = planned_run(*root).entries;
    let planned = plan(&root.node, None, 0);
    lemma_plan_len(&root.node, None, 0);
    assert forall|k: int| 0 <= k < planned.len() implies entries[0 + k] == planned_entry(
        #[trigger] planned[k],
    ) by {}
    lemma_worth_is_evaluation(entries, leaves, call, root, None, 0);
    assert forall|i: int|
        #![trigger entries[i]]
        0 <= i < entries.len() implies !(entries[i].kind is Alt) && entries[i].result is None by {
        assert(entries[i] == planned_entry(planned[i]));
    }
}

/// What comes in when the entries get what they are worth, in this order.
pub open spec fn arrivals_of<H>(
    root: AffNodeRef<H>,
    order: Seq<usize>,
    leaves: Seq<AffValue<H>>,
    call: spec_fn(AffValue<H>, AffValue<H>) -> AffValue<H>,
) -> Seq<Arrival<H>> {
    order.map_values(
        |i: usize|
            Arrival {
                entry: i,
                result: Ok(worth(planned_run(root).entries, leaves, call, i as int)),
            },
    )
}

spec fn children_done<H>(entries: Seq<EntryView<H>>, i: int) -> bool {
    forall|c: int|
        0 <= c < entries[i].children.len() ==> entries[(
        #[trigger] entries[i].children[c]) as int].result is Some
}

/// Whether a leaf has its result exactly if it has ended, and any other entry is
/// settling exactly if all its children have results, and then its call is under
/// way or has returned.
spec fn is_kept<H>(course: Course<H>, i: int) -> bool {
    let entry = course.run.entries[i];
    if entry.kind is Leaf {
        course.leaves.contains(i as usize) <==> entry.result is None
    } else {
        &&& entry.settling <==> children_done(course.run.entries, i)
        &&& entry.settling <==> (course.calls.contains(i as usize) || entry.result is Some)
    }
}

spec fn is_sound<H>(
    course: Course<H>,
    leaves: Seq<AffValue<H>>,
    call: spec_fn(AffValue<H>, AffValue<H>) -> AffValue<H>,
) -> bool {
    let entries = course.run.entries;
    &&& is_on_course(course.run, leaves, call)
    &&& course.run.stopped <==> entries[0].result is Some
    &&& course.told == if entries[0].result is Some {
        seq![AffResult::<H>::Ok(worth(entries, leaves, call, 0))]
    } else {
        seq![]
    }
    &&& forall|i: int| 0 <= i < entries.len() ==> #[trigger] is_kept(course, i)
    &&& forall|i: usize| #[trigger]
        course.calls.contains(i) ==> i < entries.len() && !(entries[i as int].kind is Leaf)
            && entries[i as int].result is None
    &&& forall|i: usize| #[trigger]
        course.leaves.contains(i) ==> i < entries.len() && entries[i as int].kind is Leaf
    &&& course.kills == Map::<usize, AffResult<H>>::empty()
}

/// With the root every entry has its result.
proof fn lemma_root_comes_last<H>(
    course: Course<H>,
    leaves: Seq<AffValue<H>>,
    call: spec_fn(AffValue<H>, AffValue<H>) -> AffValue<H>,
    j: int,
)
    requires
        is_sound(course, leaves, call),
        course.run.entries[0].result is Some,
        0 <= j < course.run.entries.len(),
    ensures
        course.run.entries[j].result is Some,
    decreases j,
{
    let entries = course.run.entries;
    if j > 0 {
        assert(entry_fits(entries, j));
        let p = entries[j].parent->0 as int;
        assert(entry_fits(entries, p));
        lemma_root_comes_last(course, leaves, call, p);
        assert(is_kept(course, p));
        let c = choose|c: int| 0 <= c < entries[p].children.len() && entries[p].children[c] == j;
        assert(entries[p].children[c] == j);
    }
}

proof fn lemma_course_stays_sound<H>(
    course: Course<H>,
    i: usize,
    leaves: Seq<AffValue<H>>,
    call: spec_fn(AffValue<H>, AffValue<H>) -> AffValue<H>,
)
    requires
        is_sound(course, leaves, call),
        course.is_due(i),
    ensures
        ({
            let result = Ok(worth(course.run.entries, leaves, call, i as int));
            let next = course.after(Arrival { entry: i, result });
            &&& is_sound(next, leaves, call)
            &&& same_shape(course.run.entries, next.run.entries)
        }),
{
    let entries = course.run.entries;
    let value = worth(entries, leaves, call, i as int);
    let next = course.after(Arrival { entry: i, result: Ok(value) });
    assert(course.kills.remove(i) =~= course.kills);
    let after = next.run.entries;
    assert(entry_fits(entries, i as int));
    assert(is_kept(course, i as int));
    if course.run.stopped {
        lemma_root_comes_last(course, leaves, call, i as int);
        assert(false);
    }
    law_results_keep_their_places(course.run, i, leaves, call);
    lemma_settle_shape(course.run, i, Ok(value));
    let settled = course.run.with_result(i, Ok(value));
    lemma_worth_same_shape(entries, after, leaves, call, 0);
    match entries[i as int].parent {
        None => {
            assert(i == 0);
            assert(after == settled.entries);
            assert forall|j: int| 0 <= j < after.len() implies #[trigger] is_kept(next, j) by {
                assert(is_kept(course, j));
                assert(entry_fits(entries, j));
                assert(entry_fits(entries, 0));
                assert(children_done(after, j) == children_done(entries, j)) by {
                    assert(after[j].children == entries[j].children);
                    assert forall|c: int| 0 <= c < entries[j].children.len() implies after[(
                    #[trigger] entries[j].children[c]) as int] == entries[entries[j].children[c] as int] by {}
                }
            }
        },
        Some(p) => {
            assert(entry_fits(entries, p as int));
            assert(is_kept(course, p as int));
            let children = entries[p as int].children;
            let c = choose|c: int| 0 <= c < children.len() && children[c] == i;
            assert(children[c] == i);
            assert(!children_done(entries, p as int));
            assert(!entries[p as int].settling);
            assert(entries[p as int].result is None);
            let marked = settled.with_settling(p);
            assert(settled.entries[p as int] == entries[p as int]);
            if children.len() == 2 {
                let other = children[1 - c];
                assert(other != i);
                assert(settled.entries[other as int] == entries[other as int]);
                assert(!(entries[p as int].kind is Alt));
            }
            if children_done(settled.entries, p as int) {
                if children.len() == 2 {
                    assert(settled.entries[children[0] as int].result is Some);
                    assert(settled.entries[children[1] as int].result is Some);
                }
                assert(after == marked.entries);
                assert(next.calls == course.calls.remove(i).insert(p));
            } else {
                assert(children.len() == 2);
                assert(after == settled.entries);
                assert(next.calls == course.calls.remove(i));
            }
            assert forall|j: int| 0 <= j < after.len() implies #[trigger] is_kept(next, j) by {
                assert(is_kept(course, j));
                assert(entry_fits(entries, j));
                assert(after[j].children == entries[j].children);
                assert forall|k: int| 0 <= k < entries[j].children.len() implies after[(
                #[trigger] entries[j].children[k]) as int].result
                    == settled.entries[entries[j].children[k] as int].result by {}
                assert(children_done(after, j) == children_done(settled.entries, j)) by {
                    assert(settled.entries[j].children == entries[j].children);
                }
                if j != p {
                    assert forall|k: int| 0 <= k < entries[j].children.len() implies
                        settled.entries[(#[trigger] entries[j].children[k]) as int].result
                        == entries[entries[j].children[k] as int].result by {
                        assert(entries[entries[j].children[k] as int].parent == Some(j as usize));
                    }
                    assert(children_done(settled.entries, j) == children_done(entries, j)) by {
                        assert(settled.entries[j].children == entries[j].children);
                    }
                }
            }
        },
    }
}

proof fn lemma_course_is_sound<H>(
    root: &AffNodeRef<H>,
    order: Seq<usize>,
    leaves: Seq<AffValue<H>>,
    call: spec_fn(AffValue<H>, AffValue<H>) -> AffValue<H>,
)
    requires
        planned_run(*root).wf(),
        is_race_free(*root),
        is_course(*root, arrivals_of(*root, order, leaves, call)),
    ensures
        ({
            let reached = course(*root, arrivals_of(*root, order, leaves, call));
            &&& is_sound(reached, leaves, call)
            &&& same_shape(planned_run(*root).entries, reached.run.entries)
        }),
    decreases order.len(),
{
    let entries = planned_run(*root).entries;
    let arrivals = arrivals_of(*root, order, leaves, call);
    if order.len() == 0 {
        law_root_is_worth_the_evaluation(root, leaves, call);
        let start = outset(*root);
        assert forall|i: int| 0 <= i < entries.len() implies #[trigger] is_kept(start, i) by {
            assert(entry_fits(entries, i));
            assert(entries[i] == planned_entry(plan(&root.node, None, 0)[i]));
            if !(entries[i].kind is Leaf) {
                let child = entries[i].children[0];
                assert(entries[child as int] == planned_entry(
                    plan(&root.node, None, 0)[child as int],
                ));
            }
        }
        assert(entries[0] == planned_entry(plan(&root.node, None, 0)[0]));
    } else {
        let before = order.drop_last();
        let i = order.last();
        assert(arrivals.drop_last() =~= arrivals_of(*root, before, leaves, call));
        lemma_course_is_sound(root, before, leaves, call);
        let here = course(*root, arrivals.drop_last());
        assert(here.is_due(i));
        lemma_worth_same_shape(entries, here.run.entries, leaves, call, i as int);
        lemma_course_stays_sound(here, i, leaves, call);
        let next = course(*root, arrivals);
        lemma_shape_transitive(entries, here.run.entries, next.run.entries);
    }
}

/// A parallel description without races comes to its value: in whatever order
/// its leaves end and its calls return, whoever waits for the run is told only
/// the value that the description evaluates to, and is told it when every leaf
/// has ended and every call has returned, and not before.
pub proof fn law_run_tells_its_value_once<H>(
    root: &AffNodeRef<H>,
    order: Seq<usize>,
    leaves: Seq<AffValue<H>>,
    call: spec_fn(AffValue<H>, AffValue<H>) -> AffValue<H>,
)
    requires
        planned_run(*root).wf(),
        is_race_free(*root),
        is_course(*root, arrivals_of(*root, order, leaves, call)),
    ensures
        ({
            let reached = course(*root, arrivals_of(*root, order, leaves, call));
            let value = AffResult::<H>::Ok(evaluation(*root, leaves, call, 0));
            &&& reached.told == seq![value] || reached.told == Seq::<AffResult<H>>::empty()
            &&& reached.told == seq![value] <==> reached.is_over()
            &&& reached.kills == Map::<usize, AffResult<H>>::empty()
        }),
{
    let entries = planned_run(*root).entries;
    let reached = course(*root, arrivals_of(*root, order, leaves, call));
    lemma_course_is_sound(root, order, leaves, call);
    law_root_is_worth_the_evaluation(root, leaves, call);
    lemma_worth_same_shape(entries, reached.run.entries, leaves, call, 0);
    law_run_tells_exactly_once(root, arrivals_of(*root, order, leaves, call));
    if reached.run.entries[0].result is Some {
        assert forall|i: usize| !#[trigger] reached.is_due(i) by {
            if i < reached.run.entries.len() {
                lemma_root_comes_last(reached, leaves, call, i as int);
                assert(is_kept(reached, i as int));
            }
        }
    } else {
        assert(reached.told.len() == 0);
    }
}

} // verus!
