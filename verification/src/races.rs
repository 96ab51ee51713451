//! How the results of parallel branches meet, whatever order they come in.
use crate::parallel::{
    entry_fits, is_tree, lemma_meet_shape, lemma_same_shape_tree, lemma_update_shape,
    pending_leaves, same_shape, sibling, AffParKind, EntryView, ParActionView, ParView,
};
use crate::value::{AffResult, AffValue};
use vstd::prelude::*;

verus! {

/// What an entry of a tree without races is worth, when the leaves end with
/// these values and `call` says what the program's functions return.
pub open spec fn worth<H>(
    entries: Seq<EntryView<H>>,
    leaves: Seq<AffValue<H>>,
    call: spec_fn(AffValue<H>, AffValue<H>) -> AffValue<H>,
    i: int,
) -> AffValue<H>
    decreases entries.len() - i,
    when is_tree(entries) && 0 <= i < entries.len()
{
    proof {
        assert(entry_fits(entries, i));
    }
    let children = entries[i].children;
    match entries[i].kind {
        AffParKind::Mapping(function) => call(
            function,
            worth(entries, leaves, call, children[0] as int),
        ),
        AffParKind::Apply => call(
            worth(entries, leaves, call, children[0] as int),
            worth(entries, leaves, call, children[1] as int),
        ),
        _ => leaves[i],
    }
}

/// Whether every result so far is what its entry is worth, and nothing in the
/// tree is a race.
pub open spec fn is_on_course<H>(
    run: ParView<H>,
    leaves: Seq<AffValue<H>>,
    call: spec_fn(AffValue<H>, AffValue<H>) -> AffValue<H>,
) -> bool {
    &&& run.wf()
    &&& forall|i: int|
        #![trigger run.entries[i]]
        0 <= i < run.entries.len() ==> !(run.entries[i].kind is Alt) && (
        run.entries[i].result matches Some(result) ==> result == AffResult::<H>::Ok(
            worth(run.entries, leaves, call, i),
        ))
}

/// The worth of an entry depends on the shape of the tree alone.
pub proof fn lemma_worth_same_shape<H>(
    a: Seq<EntryView<H>>,
    b: Seq<EntryView<H>>,
    leaves: Seq<AffValue<H>>,
    call: spec_fn(AffValue<H>, AffValue<H>) -> AffValue<H>,
    i: int,
)
    requires
        is_tree(a),
        is_tree(b),
        same_shape(a, b),
        0 <= i < a.len(),
    ensures
        worth(a, leaves, call, i) == worth(b, leaves, call, i),
    decreases a.len() - i,
{
    assert(entry_fits(a, i));
    assert(entry_fits(b, i));
    assert(a[i].kind == b[i].kind);
    match a[i].kind {
        AffParKind::Mapping(_) => {
            lemma_worth_same_shape(a, b, leaves, call, a[i].children[0] as int);
        },
        AffParKind::Apply => {
            lemma_worth_same_shape(a, b, leaves, call, a[i].children[0] as int);
            lemma_worth_same_shape(a, b, leaves, call, a[i].children[1] as int);
        },
        _ => {},
    }
}

proof fn lemma_update_on_course<H>(
    run: ParView<H>,
    i: usize,
    entry: EntryView<H>,
    leaves: Seq<AffValue<H>>,
    call: spec_fn(AffValue<H>, AffValue<H>) -> AffValue<H>,
)
    requires
        is_on_course(run, leaves, call),
        i < run.entries.len(),
        entry.kind == run.entries[i as int].kind,
        entry.parent == run.entries[i as int].parent,
        entry.children == run.entries[i as int].children,
        entry.result matches Some(result) ==> result == AffResult::<H>::Ok(
            worth(run.entries, leaves, call, i as int),
        ),
    ensures
        is_on_course(
            ParView { entries: run.entries.update(i as int, entry), ..run },
            leaves,
            call,
        ),
{
    let next = ParView { entries: run.entries.update(i as int, entry), ..run };
    assert(same_shape(run.entries, next.entries));
    lemma_same_shape_tree(run.entries, next.entries);
    assert forall|k: int|
        #![trigger next.entries[k]]
        0 <= k < next.entries.len() implies !(next.entries[k].kind is Alt) && (
    next.entries[k].result matches Some(result) ==> result == AffResult::<H>::Ok(
        worth(next.entries, leaves, call, k),
    )) by {
        assert(!(run.entries[k].kind is Alt));
        lemma_worth_same_shape(run.entries, next.entries, leaves, call, k);
    }
}

/// Results keep their places: whichever order the branches of a parallel
/// description end in, each call is made with the results of the branches that
/// stand on its left and on its right, and the result of the whole is the same.
/// Handing an entry what it is worth leads to the result of the whole, or to a
/// call that returns what its entry is worth, or to nothing yet.
pub proof fn law_results_keep_their_places<H>(
    run: ParView<H>,
    i: usize,
    leaves: Seq<AffValue<H>>,
    call: spec_fn(AffValue<H>, AffValue<H>) -> AffValue<H>,
)
    requires
        is_on_course(run, leaves, call),
        i < run.entries.len(),
    ensures
        ({
            let (next, action) = run.settle(i, Ok(worth(run.entries, leaves, call, i as int)));
            &&& is_on_course(next, leaves, call)
            &&& match action {
                ParActionView::Done(result) => result == AffResult::<H>::Ok(
                    worth(run.entries, leaves, call, 0),
                ),
                ParActionView::Wait => true,
                ParActionView::Call { entry, function, argument } => entry < run.entries.len()
                    && call(function, argument) == worth(run.entries, leaves, call, entry as int),
                ParActionView::Kill { .. } => false,
            }
        }),
{
    let value = worth(run.entries, leaves, call, i as int);
    assert(entry_fits(run.entries, i as int));
    if !run.stopped && run.entries[i as int].result is None {
        let settled = run.with_result(i, Ok(value));
        let entry = EntryView { result: Some(Ok(value)), ..run.entries[i as int] };
        lemma_update_on_course(run, i, entry, leaves, call);
        if let Some(p) = run.entries[i as int].parent {
            assert(entry_fits(run.entries, p as int));
            assert(same_shape(run.entries, settled.entries));
            lemma_worth_same_shape(run.entries, settled.entries, leaves, call, p as int);
            assert(!(run.entries[p as int].kind is Alt));
            let children = run.entries[p as int].children;
            assert(children.contains(i));
            let marked = EntryView { settling: true, ..settled.entries[p as int] };
            lemma_update_on_course(settled, p, marked, leaves, call);
            if children.len() == 2 {
                let left = children[0] as int;
                let right = children[1] as int;
                lemma_worth_same_shape(run.entries, settled.entries, leaves, call, left);
                lemma_worth_same_shape(run.entries, settled.entries, leaves, call, right);
                assert(!(settled.entries[left].kind is Alt));
                assert(!(settled.entries[right].kind is Alt));
            }
        } else {
            assert(i == 0);
            let stopped = ParView { stopped: true, ..settled };
            assert(is_on_course(stopped, leaves, call));
        }
    }
}

/// A run tells its result once: after it, and after it has been stopped,
/// nothing that comes in changes it.
pub proof fn law_stopped_run_is_silent<H>(run: ParView<H>, i: usize, result: AffResult<H>)
    requires
        run.wf(),
        i < run.entries.len(),
        run.stopped,
    ensures
        run.settle(i, result) == (run, ParActionView::<H>::Wait),
{
}

/// The run that has told its result is stopped.
pub proof fn law_done_stops_a_run<H>(run: ParView<H>, i: usize, result: AffResult<H>)
    requires
        run.wf(),
        i < run.entries.len(),
    ensures
        run.settle(i, result).1 is Done ==> run.settle(i, result).0.stopped,
    decreases i,
{
    assert(entry_fits(run.entries, i as int));
    if !run.stopped && run.entries[i as int].result is None {
        let next = run.with_result(i, result);
        let entry = EntryView { result: Some(result), ..run.entries[i as int] };
        lemma_update_shape(run, i, entry);
        if let Some(p) = run.entries[i as int].parent {
            if !next.entries[p as int].settling && next.entries[p as int].result is None {
                if let (after, Err(upward)) = next.meet(p, i, result) {
                    lemma_meet_shape(next, p, i, result);
                    law_done_stops_a_run(after, p, upward);
                }
            }
        }
    }
}

/// Whether entry `p` waits for the results of its two children, and `i` is one
/// of them.
pub open spec fn is_open_pair<H>(run: ParView<H>, p: usize, i: usize) -> bool {
    &&& run.wf()
    &&& !run.stopped
    &&& p < run.entries.len()
    &&& run.entries[p as int].result is None
    &&& !run.entries[p as int].settling
    &&& run.entries[p as int].children.len() == 2
    &&& run.entries[p as int].children.contains(i)
    &&& run.entries[i as int].result is None
}

/// The first value of a race wins: the pending leaves of the other branch are
/// killed, and the value is the outcome once they have ended, or at once if
/// there are none.
pub proof fn law_first_value_wins_a_race<H>(run: ParView<H>, p: usize, i: usize, value: AffValue<H>)
    requires
        is_open_pair(run, p, i),
        run.entries[p as int].kind is Alt,
    ensures
        ({
            let other = sibling(run.entries[p as int].children, i);
            let decided = run.with_result(i, Ok(value)).with_settling(p);
            let leaves = pending_leaves(decided.entries, other as int);
            if leaves.len() > 0 {
                run.settle(i, Ok(value)) == (
                    decided,
                    ParActionView::<H>::Kill { entry: p, leaves, outcome: Ok(value) },
                )
            } else {
                run.settle(i, Ok(value)) == decided.settle(p, Ok(value))
            }
        }),
{
    assert(entry_fits(run.entries, p as int));
    let c = choose|c: int| 0 <= c < 2 && run.entries[p as int].children[c] == i;
    assert(run.entries[p as int].children[c] == i);
    assert(entry_fits(run.entries, i as int));
    let settled = run.with_result(i, Ok(value));
    lemma_update_shape(run, i, EntryView { result: Some(Ok(value)), ..run.entries[i as int] });
    lemma_update_shape(settled, p, EntryView { settling: true, ..settled.entries[p as int] });
}

/// A branch that fails stops its sibling: the pending leaves of the other
/// branch are killed, and the error is the outcome once they have ended, or at
/// once if there are none.
pub proof fn law_failing_branch_stops_its_sibling<H>(
    run: ParView<H>,
    p: usize,
    i: usize,
    error: AffValue<H>,
)
    requires
        is_open_pair(run, p, i),
        run.entries[p as int].kind is Apply,
    ensures
        ({
            let other = sibling(run.entries[p as int].children, i);
            let decided = run.with_result(i, Err(error)).with_settling(p);
            let leaves = pending_leaves(decided.entries, other as int);
            if leaves.len() > 0 {
                run.settle(i, Err(error)) == (
                    decided,
                    ParActionView::<H>::Kill { entry: p, leaves, outcome: Err(error) },
                )
            } else {
                run.settle(i, Err(error)) == decided.settle(p, Err(error))
            }
        }),
{
    assert(entry_fits(run.entries, p as int));
    let c = choose|c: int| 0 <= c < 2 && run.entries[p as int].children[c] == i;
    assert(run.entries[p as int].children[c] == i);
    assert(entry_fits(run.entries, i as int));
    let settled = run.with_result(i, Err(error));
    lemma_update_shape(run, i, EntryView { result: Some(Err(error)), ..run.entries[i as int] });
    lemma_update_shape(settled, p, EntryView { settling: true, ..settled.entries[p as int] });
}

/// A race fails only when both branches have failed, and then with the error
/// that came first.
pub proof fn law_race_fails_with_the_first_error<H>(
    run: ParView<H>,
    p: usize,
    i: usize,
    first: AffValue<H>,
    second: AffValue<H>,
)
    requires
        is_open_pair(run, p, i),
        run.entries[p as int].kind is Alt,
        run.entries[p as int].first_error is None,
        run.entries[sibling(run.entries[p as int].children, i) as int].result is None,
    ensures
        ({
            let other = sibling(run.entries[p as int].children, i);
            let (waiting, action) = run.settle(i, Err(first));
            &&& action is Wait
            &&& waiting.settle(other, Err(second)) == waiting.with_result(
                other,
                Err(second),
            ).with_error(p, second).settle(p, Err(first))
        }),
{
    assert(entry_fits(run.entries, p as int));
    let children = run.entries[p as int].children;
    let c = choose|c: int| 0 <= c < 2 && children[c] == i;
    assert(children[c] == i);
    assert(entry_fits(run.entries, i as int));
    let other = sibling(children, i);
    assert(children[0] < children[1]);
    assert(other == children[1 - c]);
    assert(p < other < run.entries.len());
    assert(entry_fits(run.entries, other as int));
    let one = EntryView { result: Some(Err(first)), ..run.entries[i as int] };
    lemma_update_shape(run, i, one);
    let settled = run.with_result(i, Err(first));
    let kept = EntryView { first_error: Some(first), ..settled.entries[p as int] };
    lemma_update_shape(settled, p, kept);
    let waiting = run.settle(i, Err(first)).0;
    assert(waiting == settled.with_error(p, first));
    assert(waiting.wf());
    assert(waiting.entries[p as int] == kept);
    assert(waiting.entries[i as int] == one);
    assert(waiting.entries[other as int] == run.entries[other as int]);
    assert(entry_fits(waiting.entries, other as int));
    let both = waiting.with_result(other, Err(second));
    assert(both.entries[p as int] == kept);
    assert(both.entries[i as int].result is Some);
    assert(both.entries[other as int].result is Some);
    let next = both.with_error(p, second);
    assert(next.entries[p as int].first_error == Some(first));
    assert(both.meet(p, other, Err(second)) == (
        next,
        Err::<ParActionView<H>, AffResult<H>>(Err(first)),
    ));
    lemma_update_shape(
        waiting,
        other,
        EntryView { result: Some(Err(second)), ..waiting.entries[other as int] },
    );
    lemma_update_shape(both, p, next.entries[p as int]);
    assert(waiting.settle(other, Err(second)) == next.settle(p, Err(first)));
}

/// Once one branch has decided the outcome of an entry, the results of the
/// other branch no longer matter to it.
pub proof fn law_decided_entry_waits_for_the_kills<H>(
    run: ParView<H>,
    p: usize,
    i: usize,
    result: AffResult<H>,
)
    requires
        run.wf(),
        i < run.entries.len(),
        run.entries[i as int].parent == Some(p),
        run.entries[p as int].settling,
    ensures
        run.settle(i, result).1 is Wait,
        run.settle(i, result).0.entries[p as int] == run.entries[p as int],
{
    assert(entry_fits(run.entries, i as int));
}

} // verus!
