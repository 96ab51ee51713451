//! A parallel run has the shape of its description: every part of the description
//! has its entry, and every leaf a fiber of its own.
use crate::branches::leaf_fibers;
use crate::evaluation::{holds_plan, lemma_holds_part};
use crate::layout::{
    lemma_every_leaf_is_planned, lemma_plan_len, plan, plan_leaves, plan_size, planned_entry,
    planned_leaves, planned_run,
};
use crate::parallel::{AffParKind, EntryView};
use crate::run::RunView;
use crate::value::{AffNode, AffNodeRef};
use vstd::prelude::*;

verus! {

/// Whether entry `i` stands for `node`: it is of the kind of the description, its
/// children stand for the parts of it from left to right, and what is no parallel
/// description is the body of the leaf.
pub open spec fn stands_for<H>(
    entries: Seq<EntryView<H>>,
    bodies: Seq<(usize, AffNodeRef<H>)>,
    i: usize,
    node: AffNodeRef<H>,
) -> bool
    decreases node,
{
    let entry = entries[i as int];
    &&& i < entries.len()
    &&& match node.node {
        AffNode::ParMap(function, part) => {
            &&& entry.kind == AffParKind::Mapping(function)
            &&& entry.children.len() == 1
            &&& stands_for(entries, bodies, entry.children[0], part)
        },
        AffNode::ParApply(left, right) => {
            &&& entry.kind is Apply
            &&& entry.children.len() == 2
            &&& stands_for(entries, bodies, entry.children[0], left)
            &&& stands_for(entries, bodies, entry.children[1], right)
        },
        AffNode::ParAlt(left, right) => {
            &&& entry.kind is Alt
            &&& entry.children.len() == 2
            &&& stands_for(entries, bodies, entry.children[0], left)
            &&& stands_for(entries, bodies, entry.children[1], right)
        },
        _ => {
            &&& entry.kind is Leaf
            &&& entry.children.len() == 0
            &&& bodies.contains((i, node))
        },
    }
}

/// Whether the leaves of a part are among all leaves.
spec fn has_leaves<H>(
    bodies: Seq<(usize, AffNodeRef<H>)>,
    part: Seq<(int, AffNodeRef<H>)>,
) -> bool {
    forall|k: int|
        0 <= k < part.len() ==> bodies.contains(((#[trigger] part[k]).0 as usize, part[k].1))
}

proof fn lemma_stands_for<H>(
    entries: Seq<EntryView<H>>,
    bodies: Seq<(usize, AffNodeRef<H>)>,
    node: &AffNodeRef<H>,
    parent: Option<int>,
    base: int,
)
    requires
        entries.len() <= usize::MAX,
        holds_plan(entries, plan(&node.node, parent, base), base),
        has_leaves(bodies, plan_leaves(*node, base)),
    ensures
        stands_for(entries, bodies, base as usize, *node),
    decreases node.node,
{
    let planned = plan(&node.node, parent, base);
    lemma_plan_len(&node.node, parent, base);
    assert(entries[base + 0] == planned_entry(planned[0]));
    match &node.node {
        AffNode::ParMap(_, child) => {
            let part = plan(&child.node, Some(base), base + 1);
            lemma_plan_len(&child.node, Some(base), base + 1);
            lemma_holds_part(entries, planned, base, part, 1);
            lemma_stands_for(entries, bodies, child, Some(base), base + 1);
            assert(planned[0].children[0] == base + 1);
            assert(entries[base].children[0] == base + 1);
        },
        AffNode::ParApply(left, right) => {
            lemma_pair_stands_for(entries, bodies, node, left, right, parent, base);
            lemma_stands_for(entries, bodies, left, Some(base), base + 1);
            lemma_stands_for(
                entries,
                bodies,
                right,
                Some(base),
                base + 1 + plan_size(&left.node),
            );
        },
        AffNode::ParAlt(left, right) => {
            lemma_pair_stands_for(entries, bodies, node, left, right, parent, base);
            lemma_stands_for(entries, bodies, left, Some(base), base + 1);
            lemma_stands_for(
                entries,
                bodies,
                right,
                Some(base),
                base + 1 + plan_size(&left.node),
            );
        },
        _ => {
            assert(plan_leaves(*node, base)[0] == (base, *node));
        },
    }
}

proof fn lemma_pair_stands_for<H>(
    entries: Seq<EntryView<H>>,
    bodies: Seq<(usize, AffNodeRef<H>)>,
    node: &AffNodeRef<H>,
    left: &AffNodeRef<H>,
    right: &AffNodeRef<H>,
    parent: Option<int>,
    base: int,
)
    requires
        entries.len() <= usize::MAX,
        holds_plan(entries, plan(&node.node, parent, base), base),
        has_leaves(bodies, plan_leaves(*node, base)),
        node.node == AffNode::ParApply(*left, *right) || node.node == AffNode::ParAlt(*left, *right),
    ensures
        ({
            let size = plan_size(&left.node);
            &&& holds_plan(entries, plan(&left.node, Some(base), base + 1), base + 1)
            &&& holds_plan(
                entries,
                plan(&right.node, Some(base), base + 1 + size),
                base + 1 + size,
            )
            &&& has_leaves(bodies, plan_leaves(*left, base + 1))
            &&& has_leaves(bodies, plan_leaves(*right, base + 1 + size))
            &&& entries[base].children.len() == 2
            &&& entries[base].children[0] == base + 1
            &&& entries[base].children[1] == base + 1 + size
            &&& base + 1 + size < entries.len()
        }),
{
    let planned = plan(&node.node, parent, base);
    let size = plan_size(&left.node) as int;
    let first = plan(&left.node, Some(base), base + 1);
    let second = plan(&right.node, Some(base), base + 1 + size);
    lemma_plan_len(&node.node, parent, base);
    lemma_plan_len(&left.node, Some(base), base + 1);
    lemma_plan_len(&right.node, Some(base), base + 1 + size);
    assert(entries[base + 0] == planned_entry(planned[0]));
    lemma_holds_part(entries, planned, base, first, 1);
    lemma_holds_part(entries, planned, base, second, 1 + size);
    assert(planned[0].children[0] == base + 1);
    assert(planned[0].children[1] == base + 1 + size);
    let all = plan_leaves(*node, base);
    let a = plan_leaves(*left, base + 1);
    let b = plan_leaves(*right, base + 1 + size);
    assert(all == a + b);
    assert forall|k: int| 0 <= k < a.len() implies bodies.contains(
        ((#[trigger] a[k]).0 as usize, a[k].1),
    ) by {
        assert(all[k] == a[k]);
    }
    assert forall|k: int| 0 <= k < b.len() implies bodies.contains(
        ((#[trigger] b[k]).0 as usize, b[k].1),
    ) by {
        assert(all[a.len() + k] == b[k]);
    }
}

/// Whether leaves are numbered from left to right, within these places.
spec fn are_in_order<H>(leaves: Seq<(int, AffNodeRef<H>)>, from: int, to: int) -> bool {
    &&& forall|k: int| 0 <= k < leaves.len() ==> from <= (#[trigger] leaves[k]).0 < to
    &&& forall|a: int, b: int|
        0 <= a < b < leaves.len() ==> (#[trigger] leaves[a]).0 < (#[trigger] leaves[b]).0
}

proof fn lemma_in_order_concat<H>(
    a: Seq<(int, AffNodeRef<H>)>,
    b: Seq<(int, AffNodeRef<H>)>,
    from: int,
    middle: int,
    to: int,
)
    requires
        are_in_order(a, from, middle),
        are_in_order(b, middle, to),
        from <= middle <= to,
    ensures
        are_in_order(a + b, from, to),
{
    let all = a + b;
    assert forall|k: int| 0 <= k < all.len() implies from <= (#[trigger] all[k]).0 < to by {
        if k < a.len() {
            assert(all[k] == a[k]);
        } else {
            assert(all[k] == b[k - a.len()]);
        }
    }
    assert forall|i: int, j: int| 0 <= i < j < all.len() implies (#[trigger] all[i]).0 < (
    #[trigger] all[j]).0 by {
        if j < a.len() {
            assert(all[i] == a[i] && all[j] == a[j]);
        } else if i < a.len() {
            assert(all[i] == a[i] && all[j] == b[j - a.len()]);
        } else {
            assert(all[i] == b[i - a.len()] && all[j] == b[j - a.len()]);
        }
    }
}

proof fn lemma_leaves_in_order<H>(node: &AffNodeRef<H>, base: int)
    ensures
        are_in_order(plan_leaves(*node, base), base, base + plan_size(&node.node)),
    decreases node.node,
{
    match &node.node {
        AffNode::ParMap(_, child) => {
            lemma_leaves_in_order(child, base + 1);
            let leaves = plan_leaves(*child, base + 1);
            assert(plan_leaves(*node, base) == leaves);
            assert(are_in_order(leaves, base, base + plan_size(&node.node)));
        },
        AffNode::ParApply(left, right) => {
            let size = plan_size(&left.node);
            lemma_leaves_in_order(left, base + 1);
            lemma_leaves_in_order(right, base + 1 + size);
            let a = plan_leaves(*left, base + 1);
            assert(are_in_order(a, base, base + 1 + size));
            lemma_in_order_concat(
                a,
                plan_leaves(*right, base + 1 + size),
                base,
                base + 1 + size,
                base + 1 + size + plan_size(&right.node),
            );
        },
        AffNode::ParAlt(left, right) => {
            let size = plan_size(&left.node);
            lemma_leaves_in_order(left, base + 1);
            lemma_leaves_in_order(right, base + 1 + size);
            let a = plan_leaves(*left, base + 1);
            assert(are_in_order(a, base, base + 1 + size));
            lemma_in_order_concat(
                a,
                plan_leaves(*right, base + 1 + size),
                base,
                base + 1 + size,
                base + 1 + size + plan_size(&right.node),
            );
        },
        _ => {},
    }
}

/// A run has the shape of its description: its root stands for the whole, and in
/// the beginning no entry has a result, an error or a decision.
pub proof fn law_run_has_the_shape_of_its_description<H>(root: &AffNodeRef<H>)
    requires
        planned_run(*root).wf(),
    ensures
        stands_for(planned_run(*root).entries, planned_leaves(*root), 0, *root),
        !planned_run(*root).stopped,
        forall|i: int|
            0 <= i < planned_run(*root).entries.len() ==> {
                let entry = #[trigger] planned_run(*root).entries[i];
                entry.result is None && entry.first_error is None && !entry.settling
            },
{
    let entries = planned_run(*root).entries;
    let planned = plan(&root.node, None, 0);
    let bodies = planned_leaves(*root);
    let leaves = plan_leaves(*root, 0);
    assert forall|k: int| 0 <= k < planned.len() implies entries[0 + k] == planned_entry(
        #[trigger] planned[k],
    ) by {}
    assert forall|k: int| 0 <= k < leaves.len() implies bodies.contains(
        ((#[trigger] leaves[k]).0 as usize, leaves[k].1),
    ) by {
        assert(bodies[k] == (leaves[k].0 as usize, leaves[k].1));
    }
    lemma_stands_for(entries, bodies, root, None, 0);
    assert forall|i: int| 0 <= i < entries.len() implies {
        let entry = #[trigger] entries[i];
        entry.result is None && entry.first_error is None && !entry.settling
    } by {
        assert(entries[i] == planned_entry(planned[i]));
    }
}

/// Every leaf of a run has exactly one body, and the bodies are listed from left to
/// right.
pub proof fn law_every_leaf_has_one_body<H>(root: &AffNodeRef<H>)
    requires
        planned_run(*root).wf(),
    ensures
        ({
            let entries = planned_run(*root).entries;
            let bodies = planned_leaves(*root);
            &&& forall|k: int|
                0 <= k < bodies.len() ==> (#[trigger] bodies[k]).0 < entries.len()
            &&& forall|a: int, b: int|
                0 <= a < b < bodies.len() ==> (#[trigger] bodies[a]).0 < (#[trigger] bodies[b]).0
            &&& forall|i: int|
                0 <= i < entries.len() && (#[trigger] entries[i]).kind is Leaf ==> exists|k: int|
                    0 <= k < bodies.len() && (#[trigger] bodies[k]).0 == i
        }),
{
    let entries = planned_run(*root).entries;
    let bodies = planned_leaves(*root);
    let leaves = plan_leaves(*root, 0);
    lemma_plan_len(&root.node, None, 0);
    lemma_leaves_in_order(root, 0);
    assert forall|k: int| 0 <= k < bodies.len() implies (#[trigger] bodies[k]).0 < entries.len() by {
        assert(bodies[k].0 == leaves[k].0 as usize);
        assert(leaves[k].0 < plan_size(&root.node));
    }
    assert forall|a: int, b: int| 0 <= a < b < bodies.len() implies (#[trigger] bodies[a]).0 < (
    #[trigger] bodies[b]).0 by {
        assert(leaves[a].0 < leaves[b].0);
        assert(leaves[b].0 < plan_size(&root.node));
    }
    assert forall|i: int| 0 <= i < entries.len() && (#[trigger] entries[i]).kind is Leaf implies exists|
        k: int,
    | 0 <= k < bodies.len() && (#[trigger] bodies[k]).0 == i by {
        let k = lemma_every_leaf_is_planned(root, i);
        assert(bodies[k].0 == i);
    }
}

/// The fibers of the leaves are numbered one after another, beginning with `base`,
/// and each leaf knows its own.
pub proof fn law_leaves_have_fibers_of_their_own<H>(
    base: usize,
    leaves: Seq<(usize, AffNodeRef<H>)>,
)
    requires
        base + leaves.len() <= usize::MAX,
        forall|a: int, b: int|
            0 <= a < b < leaves.len() ==> (#[trigger] leaves[a]).0 < (#[trigger] leaves[b]).0,
    ensures
        forall|k: int|
            0 <= k < leaves.len() ==> leaf_fibers(base, leaves).contains_key(
                (#[trigger] leaves[k]).0,
            ) && leaf_fibers(base, leaves)[leaves[k].0] == base + k,
        forall|entry: usize| #[trigger]
            leaf_fibers(base, leaves).contains_key(entry) ==> exists|k: int|
                0 <= k < leaves.len() && (#[trigger] leaves[k]).0 == entry,
    decreases leaves.len(),
{
    if leaves.len() > 0 {
        let before = leaves.drop_last();
        assert forall|a: int, b: int| 0 <= a < b < before.len() implies (#[trigger] before[a]).0 < (
        #[trigger] before[b]).0 by {
            assert(before[a] == leaves[a] && before[b] == leaves[b]);
        }
        law_leaves_have_fibers_of_their_own(base, before);
        let all = leaf_fibers(base, leaves);
        assert forall|k: int| 0 <= k < leaves.len() implies all.contains_key(
            (#[trigger] leaves[k]).0,
        ) && all[leaves[k].0] == base + k by {
            if k < before.len() {
                assert(before[k] == leaves[k]);
                assert(leaves[k].0 < leaves[leaves.len() - 1].0);
            }
        }
        assert forall|entry: usize| #[trigger] all.contains_key(entry) implies exists|k: int|
            0 <= k < leaves.len() && (#[trigger] leaves[k]).0 == entry by {
            if entry == leaves.last().0 {
                assert(leaves[leaves.len() - 1].0 == entry);
            } else {
                assert(leaf_fibers(base, before).contains_key(entry));
                let k = choose|k: int| 0 <= k < before.len() && (#[trigger] before[k]).0 == entry;
                assert(leaves[k].0 == entry);
            }
        }
    }
}

/// The fibers of some leaves are theirs, in the same order, and none is missed.
pub proof fn law_fibers_of_leaves_are_theirs<H>(run: RunView<H>, leaves: Seq<usize>)
    requires
        forall|k: int| 0 <= k < leaves.len() ==> run.fibers.contains_key(#[trigger] leaves[k]),
    ensures
        run.fibers_of(leaves).len() == leaves.len(),
        forall|k: int|
            0 <= k < leaves.len() ==> #[trigger] run.fibers_of(leaves)[k] == run.fibers[leaves[k]],
    decreases leaves.len(),
{
    if leaves.len() > 0 {
        let before = leaves.drop_last();
        assert forall|k: int| 0 <= k < before.len() implies run.fibers.contains_key(
            #[trigger] before[k],
        ) by {
            assert(before[k] == leaves[k]);
        }
        law_fibers_of_leaves_are_theirs(run, before);
        assert(run.fibers.contains_key(leaves[leaves.len() - 1]));
        assert forall|k: int| 0 <= k < leaves.len() implies #[trigger] run.fibers_of(leaves)[k]
            == run.fibers[leaves[k]] by {
            if k < before.len() {
                assert(run.fibers_of(leaves)[k] == run.fibers_of(before)[k]);
            }
        }
    }
}

} // verus!
