//! How the results of parallel branches are combined, entry by entry, and which
//! branches are given up: exactly the leaves that still run below the entry.
use crate::parallel::{
    entry_fits, is_tree, lemma_update_shape, pending_leaves, same_shape, AffParAction, AffParEntry,
    AffParKind, AffParRun, EntryView, ParActionView, ParView,
};
use crate::value::{AffResult, AffValue};
use vstd::prelude::*;

verus! {

/// Whether entry `i` is among the ancestors of entry `j`, or is `j` itself: whether
/// the links from child to parent lead from `j` to `i`.
pub open spec fn is_below<H>(entries: Seq<EntryView<H>>, j: int, i: int) -> bool
    decreases j,
{
    j == i || {
        &&& 0 <= j < entries.len()
        &&& entries[j].parent is Some
        &&& entries[j].parent->0 < j
        &&& is_below(entries, entries[j].parent->0 as int, i)
    }
}

/// Whether entry `j` is a leaf that still runs.
pub open spec fn is_running_leaf<H>(entries: Seq<EntryView<H>>, j: int) -> bool {
    0 <= j < entries.len() && entries[j].kind is Leaf && entries[j].result is None
}

proof fn lemma_below_is_later<H>(entries: Seq<EntryView<H>>, j: int, i: int)
    requires
        is_below(entries, j, i),
    ensures
        i <= j,
    decreases j,
{
    if j != i {
        lemma_below_is_later(entries, entries[j].parent->0 as int, i);
    }
}

/// What is below an entry and not the entry itself is below one of its children.
proof fn lemma_below_a_child<H>(entries: Seq<EntryView<H>>, j: int, i: int) -> (c: int)
    requires
        is_tree(entries),
        0 <= i < entries.len(),
        0 <= j < entries.len(),
        j != i,
        is_below(entries, j, i),
    ensures
        0 <= c < entries[i].children.len(),
        is_below(entries, j, entries[i].children[c] as int),
    decreases j,
{
    let p = entries[j].parent->0 as int;
    assert(entry_fits(entries, j));
    if p == i {
        let c = choose|c: int| 0 <= c < entries[i].children.len() && entries[i].children[c] == j;
        assert(entries[i].children[c] == j);
        c
    } else {
        lemma_below_a_child(entries, p, i)
    }
}

/// What is below a child of an entry is below the entry.
proof fn lemma_below_through_a_child<H>(entries: Seq<EntryView<H>>, j: int, i: int, c: int)
    requires
        is_tree(entries),
        0 <= i < entries.len(),
        0 <= j < entries.len(),
        0 <= c < entries[i].children.len(),
        is_below(entries, j, entries[i].children[c] as int),
    ensures
        is_below(entries, j, i),
        j > i,
    decreases j,
{
    assert(entry_fits(entries, i));
    let child = entries[i].children[c] as int;
    lemma_below_is_later(entries, j, child);
    if j == child {
        assert(entries[j].parent == Some(i as usize));
        assert(is_below(entries, i, i));
    } else {
        lemma_below_through_a_child(entries, entries[j].parent->0 as int, i, c);
    }
}

/// Nothing is below both children of an entry.
proof fn lemma_branches_are_apart<H>(entries: Seq<EntryView<H>>, j: int, i: int)
    requires
        is_tree(entries),
        0 <= i < entries.len(),
        0 <= j < entries.len(),
        entries[i].children.len() == 2,
    ensures
        !(is_below(entries, j, entries[i].children[0] as int) && is_below(
            entries,
            j,
            entries[i].children[1] as int,
        )),
    decreases j,
{
    assert(entry_fits(entries, i));
    let left = entries[i].children[0] as int;
    let right = entries[i].children[1] as int;
    if is_below(entries, j, left) && is_below(entries, j, right) {
        if j == left {
            lemma_below_is_later(entries, j, right);
        } else if j == right {
            assert(entries[j].parent == Some(i as usize));
            lemma_below_is_later(entries, i, left);
        } else {
            lemma_branches_are_apart(entries, entries[j].parent->0 as int, i);
        }
    }
}

proof fn lemma_pending_holds<H>(entries: Seq<EntryView<H>>, i: int, j: int)
    requires
        is_tree(entries),
        0 <= i < entries.len(),
        is_running_leaf(entries, j),
        is_below(entries, j, i),
    ensures
        pending_leaves(entries, i).contains(j as usize),
    decreases entries.len() - i,
{
    assert(entry_fits(entries, i));
    assert(entry_fits(entries, j));
    let children = entries[i].children;
    if j == i {
        assert(pending_leaves(entries, i)[0] == j as usize);
    } else {
        let c = lemma_below_a_child(entries, j, i);
        lemma_pending_holds(entries, children[c] as int, j);
        let part = pending_leaves(entries, children[c] as int);
        let k = part.index_of(j as usize);
        assert(part[k] == j as usize);
        if children.len() == 2 {
            let first = pending_leaves(entries, children[0] as int);
            if c == 0 {
                assert(pending_leaves(entries, i)[k] == j as usize);
            } else {
                assert(pending_leaves(entries, i)[first.len() + k] == j as usize);
            }
        }
    }
}

proof fn lemma_pending_holds_only<H>(entries: Seq<EntryView<H>>, i: int, k: int)
    requires
        is_tree(entries),
        0 <= i < entries.len(),
        0 <= k < pending_leaves(entries, i).len(),
    ensures
        is_running_leaf(entries, pending_leaves(entries, i)[k] as int),
        is_below(entries, pending_leaves(entries, i)[k] as int, i),
    decreases entries.len() - i,
{
    assert(entry_fits(entries, i));
    let children = entries[i].children;
    let j = pending_leaves(entries, i)[k] as int;
    if children.len() == 1 {
        lemma_pending_holds_only(entries, children[0] as int, k);
        lemma_below_through_a_child(entries, j, i, 0);
    } else if children.len() == 2 {
        let first = pending_leaves(entries, children[0] as int);
        if k < first.len() {
            lemma_pending_holds_only(entries, children[0] as int, k);
            lemma_below_through_a_child(entries, j, i, 0);
        } else {
            lemma_pending_holds_only(entries, children[1] as int, k - first.len());
            lemma_below_through_a_child(entries, j, i, 1);
        }
    }
}

proof fn lemma_pending_holds_once<H>(entries: Seq<EntryView<H>>, i: int)
    requires
        is_tree(entries),
        0 <= i < entries.len(),
    ensures
        pending_leaves(entries, i).no_duplicates(),
    decreases entries.len() - i,
{
    assert(entry_fits(entries, i));
    let children = entries[i].children;
    if children.len() == 1 {
        lemma_pending_holds_once(entries, children[0] as int);
    } else if children.len() == 2 {
        let first = pending_leaves(entries, children[0] as int);
        let second = pending_leaves(entries, children[1] as int);
        lemma_pending_holds_once(entries, children[0] as int);
        lemma_pending_holds_once(entries, children[1] as int);
        assert forall|a: int, b: int| 0 <= a < first.len() && 0 <= b < second.len() implies first[a]
            != second[b] by {
            lemma_pending_holds_only(entries, children[0] as int, a);
            lemma_pending_holds_only(entries, children[1] as int, b);
            lemma_branches_are_apart(entries, first[a] as int, i);
        }
    }
}

/// The leaves that are given up with an entry are exactly the leaves below it that
/// still run, each of them once: none is missed, and no other is touched.
pub proof fn law_given_up_leaves_are_all_that_run_below<H>(entries: Seq<EntryView<H>>, i: int)
    requires
        is_tree(entries),
        0 <= i < entries.len(),
    ensures
        forall|j: usize|
            #![trigger pending_leaves(entries, i).contains(j)]
            pending_leaves(entries, i).contains(j) <==> is_running_leaf(entries, j as int)
                && is_below(entries, j as int, i),
        pending_leaves(entries, i).no_duplicates(),
{
    let leaves = pending_leaves(entries, i);
    assert forall|j: usize|
        #![trigger leaves.contains(j)]
        leaves.contains(j) <==> is_running_leaf(entries, j as int) && is_below(
            entries,
            j as int,
            i,
        ) by {
        if leaves.contains(j) {
            lemma_pending_holds_only(entries, i, leaves.index_of(j));
        }
        if is_running_leaf(entries, j as int) && is_below(entries, j as int, i) {
            lemma_pending_holds(entries, i, j as int);
        }
    }
    lemma_pending_holds_once(entries, i);
}

/// When a run is stopped as a whole, every leaf that still runs is given up.
pub proof fn law_stopping_gives_up_every_leaf<H>(entries: Seq<EntryView<H>>, j: int)
    requires
        is_tree(entries),
        is_running_leaf(entries, j),
    ensures
        pending_leaves(entries, 0).contains(j as usize),
{
    lemma_below_the_root(entries, j);
    lemma_pending_holds(entries, 0, j);
}

proof fn lemma_below_the_root<H>(entries: Seq<EntryView<H>>, j: int)
    requires
        is_tree(entries),
        0 <= j < entries.len(),
    ensures
        is_below(entries, j, 0),
    decreases j,
{
    assert(entry_fits(entries, j));
    if j > 0 {
        lemma_below_the_root(entries, entries[j].parent->0 as int);
    }
}

proof fn lemma_below_same_shape<H>(
    a: Seq<EntryView<H>>,
    b: Seq<EntryView<H>>,
    j: int,
    i: int,
)
    requires
        same_shape(a, b),
    ensures
        is_below(a, j, i) == is_below(b, j, i),
    decreases j,
{
    if j != i && 0 <= j < a.len() {
        assert(a[j].parent == b[j].parent);
        if a[j].parent is Some && a[j].parent->0 < j {
            lemma_below_same_shape(a, b, a[j].parent->0 as int, i);
        }
    }
}

/// Whether `b` is `a` with a result for entry `i`.
pub open spec fn has_result_for<H>(
    a: ParView<H>,
    b: ParView<H>,
    i: usize,
    result: AffResult<H>,
) -> bool {
    &&& b.entries.len() == a.entries.len()
    &&& b.entries[i as int] == (EntryView { result: Some(result), ..a.entries[i as int] })
    &&& forall|k: int| 0 <= k < a.entries.len() && k != i ==> b.entries[k] == a.entries[k]
    &&& b.stopped == a.stopped
}

/// Whether `b` is `a` with a result for entry `i`, and entry `p` waits for outside
/// work.
pub open spec fn has_result_and_settles<H>(
    a: ParView<H>,
    b: ParView<H>,
    i: usize,
    result: AffResult<H>,
    p: usize,
) -> bool {
    &&& b.entries.len() == a.entries.len()
    &&& b.entries[i as int] == (EntryView { result: Some(result), ..a.entries[i as int] })
    &&& b.entries[p as int] == (EntryView { settling: true, ..a.entries[p as int] })
    &&& forall|k: int|
        0 <= k < a.entries.len() && k != i && k != p ==> b.entries[k] == a.entries[k]
    &&& b.stopped == a.stopped
}

/// Whether entry `i` can get its result and its parent `p` has to deal with it.
pub open spec fn is_awaited<H>(run: ParView<H>, p: usize, i: usize) -> bool {
    &&& run.wf()
    &&& !run.stopped
    &&& i < run.entries.len()
    &&& run.entries[i as int].result is None
    &&& run.entries[i as int].parent == Some(p)
    &&& run.entries[p as int].result is None
    &&& !run.entries[p as int].settling
}

/// Whether `i` and `other` are the two branches of entry `p`.
pub open spec fn are_branches<H>(run: ParView<H>, p: usize, i: usize, other: usize) -> bool {
    let children = run.entries[p as int].children;
    &&& children.len() == 2
    &&& children[0] == i && children[1] == other || children[0] == other && children[1] == i
}

/// Whether a leaf below entry `i` still runs.
pub open spec fn runs_below<H>(entries: Seq<EntryView<H>>, i: int) -> bool {
    exists|j: int| #[trigger] is_running_leaf(entries, j) && is_below(entries, j, i)
}

/// The result of the root is the result of the whole, and the run is over.
pub proof fn law_root_decides_the_run<H>(run: ParView<H>, result: AffResult<H>)
    requires
        run.wf(),
        !run.stopped,
        run.entries[0].result is None,
    ensures
        run.settle(0, result).1 == ParActionView::Done(result),
        run.settle(0, result).0.stopped,
        has_result_for(run, ParView { stopped: false, ..run.settle(0, result).0 }, 0, result),
{
    assert(entry_fits(run.entries, 0));
}

/// A result for an entry that has one, or for a run that is over, changes nothing.
pub proof fn law_second_result_is_ignored<H>(run: ParView<H>, i: usize, result: AffResult<H>)
    requires
        run.wf(),
        i < run.entries.len(),
        run.stopped || run.entries[i as int].result is Some,
    ensures
        run.settle(i, result) == (run, ParActionView::<H>::Wait),
{
}

/// An entry that has decided, or is about to, takes no notice of its branches.
pub proof fn law_decided_entry_takes_no_notice<H>(run: ParView<H>, p: usize, i: usize, result: AffResult<H>)
    requires
        run.wf(),
        !run.stopped,
        i < run.entries.len(),
        run.entries[i as int].result is None,
        run.entries[i as int].parent == Some(p),
        run.entries[p as int].settling || run.entries[p as int].result is Some,
    ensures
        run.settle(i, result).1 is Wait,
        has_result_for(run, run.settle(i, result).0, i, result),
{
    assert(entry_fits(run.entries, i as int));
}

/// A mapped branch: its function is called with its value, and its error passes.
pub proof fn law_mapped_branch<H>(
    run: ParView<H>,
    p: usize,
    i: usize,
    function: AffValue<H>,
    x: AffValue<H>,
)
    requires
        is_awaited(run, p, i),
        run.entries[p as int].kind == AffParKind::Mapping(function),
    ensures
        run.settle(i, Ok(x)).1 == (ParActionView::Call { entry: p, function, argument: x }),
        has_result_and_settles(run, run.settle(i, Ok(x)).0, i, Ok(x), p),
        exists|next: ParView<H>| #[trigger]
            has_result_for(run, next, i, Err(x)) && run.settle(i, Err(x)) == next.settle(p, Err(x)),
{
    assert(entry_fits(run.entries, i as int));
    assert(entry_fits(run.entries, p as int));
    lemma_update_shape(run, i, EntryView { result: Some(Err(x)), ..run.entries[i as int] });
    assert(has_result_for(run, run.with_result(i, Err(x)), i, Err(x)));
}

/// Two branches that both have to end well: the value of the left one is called
/// with the value of the right one when both are there, whichever came last, and
/// until then nothing happens.
pub proof fn law_applied_branches<H>(
    run: ParView<H>,
    p: usize,
    i: usize,
    other: usize,
    x: AffValue<H>,
)
    requires
        is_awaited(run, p, i),
        are_branches(run, p, i, other),
        run.entries[p as int].kind is Apply,
    ensures
        ({
            let (next, action) = run.settle(i, Ok(x));
            match run.entries[other as int].result {
                None => action is Wait && has_result_for(run, next, i, Ok(x)),
                Some(Err(_)) => action is Wait && has_result_for(run, next, i, Ok(x)),
                Some(Ok(y)) => {
                    &&& has_result_and_settles(run, next, i, Ok(x), p)
                    &&& run.entries[p as int].children[0] == i ==> action == (ParActionView::Call {
                        entry: p,
                        function: x,
                        argument: y,
                    })
                    &&& run.entries[p as int].children[0] == other ==> action == (ParActionView::Call {
                        entry: p,
                        function: y,
                        argument: x,
                    })
                },
            }
        }),
{
    assert(entry_fits(run.entries, i as int));
    assert(entry_fits(run.entries, p as int));
}

/// The branches that a decision gives up: the leaves below the other branch that
/// still run are killed, all of them and nothing else, before the outcome counts;
/// with none of them the outcome counts at once. An error decides for two branches
/// that both have to end well, a value for two that race.
pub proof fn law_deciding_branch_gives_up_the_other<H>(
    run: ParView<H>,
    p: usize,
    i: usize,
    other: usize,
    result: AffResult<H>,
)
    requires
        is_awaited(run, p, i),
        are_branches(run, p, i, other),
        run.entries[p as int].kind is Apply && result is Err || run.entries[p as int].kind is Alt
            && result is Ok,
    ensures
        ({
            let (next, action) = run.settle(i, result);
            if runs_below(run.entries, other as int) {
                &&& has_result_and_settles(run, next, i, result, p)
                &&& action is Kill
                &&& action->Kill_entry == p
                &&& action->Kill_outcome == result
                &&& action->Kill_leaves.no_duplicates()
                &&& forall|j: usize|
                    #![trigger action->Kill_leaves.contains(j)]
                    action->Kill_leaves.contains(j) <==> is_running_leaf(run.entries, j as int)
                        && is_below(run.entries, j as int, other as int)
            } else {
                exists|decided: ParView<H>| #[trigger]
                    has_result_and_settles(run, decided, i, result, p) && run.settle(i, result)
                        == decided.settle(p, result)
            }
        }),
{
    let entries = run.entries;
    assert(entry_fits(entries, i as int));
    assert(entry_fits(entries, p as int));
    let settled = run.with_result(i, result);
    lemma_update_shape(run, i, EntryView { result: Some(result), ..entries[i as int] });
    let marked = settled.with_settling(p);
    lemma_update_shape(settled, p, EntryView { settling: true, ..settled.entries[p as int] });
    crate::parallel::lemma_shape_transitive(entries, settled.entries, marked.entries);
    law_given_up_leaves_are_all_that_run_below(marked.entries, other as int);
    let leaves = pending_leaves(marked.entries, other as int);
    assert forall|j: usize|
        #![trigger leaves.contains(j)]
        leaves.contains(j) <==> is_running_leaf(entries, j as int) && is_below(
            entries,
            j as int,
            other as int,
        ) by {
        lemma_below_same_shape(entries, marked.entries, j as int, other as int);
        lemma_branches_are_apart(entries, i as int, p as int);
        if j < entries.len() {
            assert(entries[j as int].kind == marked.entries[j as int].kind);
        }
        assert(is_below(entries, i as int, i as int));
    }
    assert(has_result_and_settles(run, marked, i, result, p));
    if leaves.len() > 0 {
        assert(leaves.contains(leaves[0]));
        assert(is_running_leaf(entries, leaves[0] as int) && is_below(
            entries,
            leaves[0] as int,
            other as int,
        ));
        let kill = ParActionView::Kill { entry: p, leaves, outcome: result };
        assert(run.settle(i, result) == (marked, kill));
    } else {
        assert forall|j: int| !(#[trigger] is_running_leaf(entries, j) && is_below(
            entries,
            j,
            other as int,
        )) by {
            assert(!leaves.contains(j as usize));
        }
        assert(run.settle(i, result) == marked.settle(p, result));
    }
}

/// Two branches that race and fail: the error that comes first is kept, and is the
/// error of the race when the other branch has failed too.
pub proof fn law_failing_race<H>(
    run: ParView<H>,
    p: usize,
    i: usize,
    other: usize,
    error: AffValue<H>,
)
    requires
        is_awaited(run, p, i),
        are_branches(run, p, i, other),
        run.entries[p as int].kind is Alt,
    ensures
        ({
            let kept = match run.entries[p as int].first_error {
                Some(first) => first,
                None => error,
            };
            let waiting = ParView {
                entries: run.entries.update(
                    i as int,
                    EntryView { result: Some(Err(error)), ..run.entries[i as int] },
                ).update(
                    p as int,
                    EntryView { first_error: Some(kept), ..run.entries[p as int] },
                ),
                stopped: false,
            };
            &&& run.entries[other as int].result is None ==> run.settle(i, Err(error)) == (
                waiting,
                ParActionView::<H>::Wait,
            )
            &&& run.entries[other as int].result is Some ==> run.settle(i, Err(error))
                == waiting.settle(p, Err(kept))
        }),
{
    assert(entry_fits(run.entries, i as int));
    assert(entry_fits(run.entries, p as int));
    let settled = run.with_result(i, Err(error));
    assert(settled.entries[p as int] == run.entries[p as int]);
    lemma_update_shape(run, i, EntryView { result: Some(Err(error)), ..run.entries[i as int] });
    let next = settled.with_error(p, error);
    lemma_update_shape(settled, p, next.entries[p as int]);
    let kept = next.entries[p as int].first_error->0;
    let waiting = ParView {
        entries: run.entries.update(
            i as int,
            EntryView { result: Some(Err(error)), ..run.entries[i as int] },
        ).update(p as int, EntryView { first_error: Some(kept), ..run.entries[p as int] }),
        stopped: false,
    };
    assert(next == waiting);
}

/// A run is seen as it is.
pub proof fn law_parallel_run_is_seen_as_it_is<H>(
    run: &AffParRun<H>,
    entry: &AffParEntry<H>,
    i: int,
)
    requires
        0 <= i < run.entries@.len(),
    ensures
        run@.stopped == run.stopped,
        run@.entries.len() == run.entries@.len(),
        run@.entries[i] == run.entries@[i]@,
        entry@.kind == entry.kind,
        entry@.parent == entry.parent,
        entry@.children == entry.children@,
        entry@.result == entry.result,
        entry@.first_error == entry.first_error,
        entry@.settling == entry.settling,
{
}

/// What has to be done is seen as it is.
pub proof fn law_action_is_seen_as_it_is<H>(action: &AffParAction<H>)
    ensures
        match *action {
            AffParAction::Done(result) => action@ == ParActionView::Done(result),
            AffParAction::Wait => action@ is Wait,
            AffParAction::Call { entry, function, argument } => action@ == (ParActionView::Call {
                entry,
                function,
                argument,
            }),
            AffParAction::Kill { entry, leaves, outcome } => action@ == (ParActionView::Kill {
                entry,
                leaves: leaves@,
                outcome,
            }),
        },
{
}

} // verus!
