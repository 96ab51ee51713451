//! How a parallel description becomes the entries of a run.
use crate::parallel::{
    arity, entry_fits, entry_views, is_tree, AffParEntry, AffParKind, AffParRun, EntryView, ParView,
};
use crate::value::{AffNode, AffNodeRef};
use vstd::prelude::*;

verus! {

/// An entry with unbounded positions in place of indices.
pub struct PlanEntry<H> {
    pub kind: AffParKind<H>,
    pub parent: Option<int>,
    pub children: Seq<int>,
}

/// The number of entries that a parallel description takes.
pub open spec fn plan_size<H>(node: &AffNode<H>) -> nat
    decreases node,
{
    match *node {
        AffNode::ParMap(_, child) => 1 + plan_size(&child.node),
        AffNode::ParApply(left, right) => 1 + plan_size(&left.node) + plan_size(&right.node),
        AffNode::ParAlt(left, right) => 1 + plan_size(&left.node) + plan_size(&right.node),
        _ => 1,
    }
}

/// The entries of a parallel description that stands below `parent` and whose
/// first entry stands at `base`: the description itself, then its branches from
/// left to right. Whatever is not parallel is a leaf.
pub open spec fn plan<H>(node: &AffNode<H>, parent: Option<int>, base: int) -> Seq<PlanEntry<H>>
    decreases node,
{
    match *node {
        AffNode::ParMap(map, child) => seq![
            PlanEntry { kind: AffParKind::Mapping(map), parent, children: seq![base + 1] },
        ] + plan(&child.node, Some(base), base + 1),
        AffNode::ParApply(left, right) => seq![
            PlanEntry {
                kind: AffParKind::Apply,
                parent,
                children: seq![base + 1, base + 1 + plan_size(&left.node)],
            },
        ] + plan(&left.node, Some(base), base + 1) + plan(
            &right.node,
            Some(base),
            base + 1 + plan_size(&left.node),
        ),
        AffNode::ParAlt(left, right) => seq![
            PlanEntry {
                kind: AffParKind::Alt,
                parent,
                children: seq![base + 1, base + 1 + plan_size(&left.node)],
            },
        ] + plan(&left.node, Some(base), base + 1) + plan(
            &right.node,
            Some(base),
            base + 1 + plan_size(&left.node),
        ),
        _ => seq![PlanEntry { kind: AffParKind::Leaf, parent, children: seq![] }],
    }
}

/// The leaves of a parallel description with their positions, from left to
/// right.
pub open spec fn plan_leaves<H>(node: AffNodeRef<H>, base: int) -> Seq<(int, AffNodeRef<H>)>
    decreases node,
{
    match node.node {
        AffNode::ParMap(_, child) => plan_leaves(child, base + 1),
        AffNode::ParApply(left, right) => plan_leaves(left, base + 1) + plan_leaves(
            right,
            base + 1 + plan_size(&left.node),
        ),
        AffNode::ParAlt(left, right) => plan_leaves(left, base + 1) + plan_leaves(
            right,
            base + 1 + plan_size(&left.node),
        ),
        _ => seq![(base, node)],
    }
}

/// An entry that nothing has happened to yet.
pub open spec fn planned_entry<H>(entry: PlanEntry<H>) -> EntryView<H> {
    EntryView {
        kind: entry.kind,
        parent: match entry.parent {
            Some(parent) => Some(parent as usize),
            None => None,
        },
        children: entry.children.map_values(|child: int| child as usize),
        result: None,
        first_error: None,
        settling: false,
    }
}

/// The run of a parallel description before any of its leaves has started.
pub open spec fn planned_run<H>(root: AffNodeRef<H>) -> ParView<H> {
    ParView {
        entries: plan(&root.node, None, 0).map_values(|entry: PlanEntry<H>| planned_entry(entry)),
        stopped: false,
    }
}

/// The leaves of a run with the indices of their entries.
pub open spec fn planned_leaves<H>(root: AffNodeRef<H>) -> Seq<(usize, AffNodeRef<H>)> {
    plan_leaves(root, 0).map_values(|leaf: (int, AffNodeRef<H>)| (leaf.0 as usize, leaf.1))
}

pub proof fn lemma_plan_len<H>(node: &AffNode<H>, parent: Option<int>, base: int)
    ensures
        plan(node, parent, base).len() == plan_size(node),
        plan_size(node) >= 1,
    decreases node,
{
    match node {
        AffNode::ParMap(_, child) => {
            lemma_plan_len(&child.node, Some(base), base + 1);
        },
        AffNode::ParApply(left, right) | AffNode::ParAlt(left, right) => {
            lemma_plan_len(&left.node, Some(base), base + 1);
            lemma_plan_len(&right.node, Some(base), base + 1 + plan_size(&left.node));
        },
        _ => {},
    }
}

/// Whether the entry at position `k` of a plan and its neighbours fit together.
spec fn plan_fits<H>(entries: Seq<PlanEntry<H>>, parent: Option<int>, base: int, k: int) -> bool {
    let entry = entries[k];
    &&& entry.children.len() == arity(entry.kind)
    &&& forall|c: int|
        0 <= c < entry.children.len() ==> {
            let child = #[trigger] entry.children[c];
            base + k < child < base + entries.len() && entries[child - base].parent == Some(base + k)
        }
    &&& entry.children.len() == 2 ==> entry.children[0] < entry.children[1]
    &&& k == 0 ==> entry.parent == parent
    &&& k > 0 ==> (entry.parent matches Some(p) && base <= p < base + k && entries[p
        - base].children.contains(base + k))
}

spec fn plan_is_tree<H>(entries: Seq<PlanEntry<H>>, parent: Option<int>, base: int) -> bool {
    forall|k: int| 0 <= k < entries.len() ==> #[trigger] plan_fits(entries, parent, base, k)
}

/// A plan inside a longer one fits together there as well.
proof fn lemma_plan_inside<H>(
    inner: Seq<PlanEntry<H>>,
    outer: Seq<PlanEntry<H>>,
    parent: int,
    inner_base: int,
    base: int,
)
    requires
        plan_is_tree(inner, Some(parent), inner_base),
        base < inner_base,
        base == parent,
        inner.len() > 0,
        inner_base - base + inner.len() <= outer.len(),
        outer.subrange(inner_base - base, inner_base - base + inner.len()) == inner,
        outer[0].children.contains(inner_base),
    ensures
        forall|k: int|
            #![trigger plan_fits(outer, None, base, k)]
            inner_base - base <= k < inner_base - base + inner.len() ==> forall|up: Option<int>|
                plan_fits(outer, up, base, k),
{
    let shift = inner_base - base;
    assert forall|j: int| 0 <= j < inner.len() implies inner[j] == outer[j + shift] by {
        assert(outer.subrange(shift, shift + inner.len())[j] == outer[j + shift]);
    }
    assert forall|k: int, up: Option<int>|
        shift <= k < shift + inner.len() implies #[trigger] plan_fits(outer, up, base, k) by {
        assert(plan_fits(inner, Some(parent), inner_base, k - shift));
        assert(outer[k] == inner[k - shift]);
        let entry = outer[k];
        assert forall|c: int| 0 <= c < entry.children.len() implies {
            let child = #[trigger] entry.children[c];
            base + k < child < base + outer.len() && outer[child - base].parent == Some(base + k)
        } by {
            let child = inner[k - shift].children[c];
            assert(inner[child - inner_base].parent == Some(inner_base + (k - shift)));
            assert(outer[child - base] == inner[child - inner_base]);
        }
        if k > shift {
            let p = entry.parent->0;
            assert(outer[p - base] == inner[p - inner_base]);
        }
    }
}

proof fn lemma_plan_is_tree<H>(node: &AffNode<H>, parent: Option<int>, base: int)
    ensures
        plan_is_tree(plan(node, parent, base), parent, base),
    decreases node,
{
    let entries = plan(node, parent, base);
    lemma_plan_len(node, parent, base);
    match node {
        AffNode::ParMap(_, child) => {
            let inner = plan(&child.node, Some(base), base + 1);
            lemma_plan_len(&child.node, Some(base), base + 1);
            lemma_plan_is_tree(&child.node, Some(base), base + 1);
            assert(entries.subrange(1, (1 + inner.len()) as int) =~= inner);
            assert(entries[0].children[0] == base + 1);
            lemma_plan_inside(inner, entries, base, base + 1, base);
            assert(plan_fits(inner, Some(base), base + 1, 0));
            assert(entries[1] == inner[0]);
        },
        AffNode::ParApply(left, right) | AffNode::ParAlt(left, right) => {
            let middle = base + 1 + plan_size(&left.node);
            let first = plan(&left.node, Some(base), base + 1);
            let second = plan(&right.node, Some(base), middle);
            lemma_plan_len(&left.node, Some(base), base + 1);
            lemma_plan_len(&right.node, Some(base), middle);
            lemma_plan_is_tree(&left.node, Some(base), base + 1);
            lemma_plan_is_tree(&right.node, Some(base), middle);
            assert(entries.subrange(1, (1 + first.len()) as int) =~= first);
            assert(entries.subrange(middle - base, middle - base + second.len()) =~= second);
            assert(entries[0].children[0] == base + 1);
            assert(entries[0].children[1] == middle);
            lemma_plan_inside(first, entries, base, base + 1, base);
            lemma_plan_inside(second, entries, base, middle, base);
            assert(plan_fits(first, Some(base), base + 1, 0));
            assert(plan_fits(second, Some(base), middle, 0));
            assert(entries[1] == first[0]);
            assert(entries[middle - base] == second[0]);
        },
        _ => {},
    }
    assert forall|k: int| 0 <= k < entries.len() implies #[trigger] plan_fits(
        entries,
        parent,
        base,
        k,
    ) by {
        if k > 0 {
            assert(plan_fits(entries, None, base, k));
        }
    }
}

spec fn as_position(parent: Option<usize>) -> Option<int> {
    match parent {
        Some(parent) => Some(parent as int),
        None => None,
    }
}

/// The entries that the descriptions on a stack will take, the topmost
/// description first.
spec fn stack_plan<H>(stack: Seq<(AffNodeRef<H>, Option<usize>)>, base: int) -> Seq<PlanEntry<H>>
    decreases stack.len(),
{
    if stack.len() == 0 {
        seq![]
    } else {
        let top = stack.last();
        plan(&top.0.node, as_position(top.1), base) + stack_plan(
            stack.drop_last(),
            base + plan_size(&top.0.node),
        )
    }
}

spec fn stack_plan_leaves<H>(stack: Seq<(AffNodeRef<H>, Option<usize>)>, base: int) -> Seq<
    (int, AffNodeRef<H>),
>
    decreases stack.len(),
{
    if stack.len() == 0 {
        seq![]
    } else {
        let top = stack.last();
        plan_leaves(top.0, base) + stack_plan_leaves(
            stack.drop_last(),
            base + plan_size(&top.0.node),
        )
    }
}

proof fn lemma_stack_plan_push<H>(
    stack: Seq<(AffNodeRef<H>, Option<usize>)>,
    item: (AffNodeRef<H>, Option<usize>),
    base: int,
)
    ensures
        stack_plan(stack.push(item), base) == plan(&item.0.node, as_position(item.1), base)
            + stack_plan(stack, base + plan_size(&item.0.node)),
        stack_plan_leaves(stack.push(item), base) == plan_leaves(item.0, base) + stack_plan_leaves(
            stack,
            base + plan_size(&item.0.node),
        ),
{
    assert(stack.push(item).drop_last() =~= stack);
}

/// Those children of an entry that stand before position `limit`.
spec fn emitted(children: Seq<int>, limit: int) -> Seq<int> {
    if children.len() == 0 || children[0] >= limit {
        seq![]
    } else if children.len() == 1 || children[1] >= limit {
        seq![children[0]]
    } else {
        children
    }
}

spec fn as_positions(children: Seq<usize>) -> Seq<int> {
    children.map_values(|child: usize| child as int)
}

/// Whether `entry` is what has been built so far of a planned entry.
spec fn is_built<H>(entry: EntryView<H>, planned: PlanEntry<H>, limit: int) -> bool {
    &&& entry.kind == planned.kind
    &&& as_position(entry.parent) == planned.parent
    &&& as_positions(entry.children) == emitted(planned.children, limit)
    &&& entry.result is None
    &&& entry.first_error is None
    &&& !entry.settling
}

/// Placing the entry at position `limit` fills in one child of its parent and
/// nothing else.
proof fn lemma_emitted_step<H>(entries: Seq<PlanEntry<H>>, limit: int)
    requires
        plan_is_tree(entries, None, 0),
        0 <= limit < entries.len(),
    ensures
        emitted(entries[limit].children, limit + 1) == Seq::<int>::empty(),
        forall|i: int|
            0 <= i < limit ==> emitted((#[trigger] entries[i]).children, limit + 1) == if entries[limit].parent
                == Some(i) {
                emitted(entries[i].children, limit).push(limit)
            } else {
                emitted(entries[i].children, limit)
            },
{
    assert(plan_fits(entries, None, 0, limit));
    if entries[limit].children.len() > 0 {
        assert(entries[limit].children[0] > limit);
    }
    assert forall|i: int| 0 <= i < limit implies emitted(
        (#[trigger] entries[i]).children,
        limit + 1,
    ) == if entries[limit].parent == Some(i) {
        emitted(entries[i].children, limit).push(limit)
    } else {
        emitted(entries[i].children, limit)
    } by {
        assert(plan_fits(entries, None, 0, i));
        let children = entries[i].children;
        if children.len() > 0 {
            assert(entries[children[0]].parent == Some(i));
        }
        if children.len() > 1 {
            assert(entries[children[1]].parent == Some(i));
        }
        if entries[limit].parent == Some(i) {
            let c = choose|c: int| 0 <= c < children.len() && children[c] == limit;
            assert(children[c] == limit);
            assert(emitted(children, limit + 1) =~= emitted(children, limit).push(limit));
        } else {
            assert(emitted(children, limit + 1) =~= emitted(children, limit));
        }
    }
}

/// A finished layout is the planned one, and a tree.
proof fn lemma_built<H>(entries: Seq<EntryView<H>>, root: AffNodeRef<H>)
    requires
        entries.len() <= usize::MAX,
        entries.len() == plan(&root.node, None, 0).len(),
        plan_is_tree(plan(&root.node, None, 0), None, 0),
        forall|i: int|
            0 <= i < entries.len() ==> is_built(
                #[trigger] entries[i],
                plan(&root.node, None, 0)[i],
                entries.len() as int,
            ),
    ensures
        entries == planned_run(root).entries,
        is_tree(entries),
{
    let planned = plan(&root.node, None, 0);
    lemma_plan_len(&root.node, None, 0);
    assert forall|i: int| 0 <= i < entries.len() implies entries[i] == planned_entry(planned[i])
        && #[trigger] entry_fits(entries, i) by {
        assert(plan_fits(planned, None, 0, i));
        assert(is_built(entries[i], planned[i], entries.len() as int));
        let children = planned[i].children;
        if children.len() > 0 {
            assert(children[0] < entries.len());
        }
        if children.len() > 1 {
            assert(children[1] < entries.len());
        }
        assert(emitted(children, entries.len() as int) =~= children);
        assert(as_positions(entries[i].children) == children);
        assert forall|c: int| 0 <= c < children.len() implies children[c] == entries[i].children[c] by {
            assert(as_positions(entries[i].children)[c] == entries[i].children[c] as int);
        }
        assert(entries[i].children =~= planned_entry(planned[i]).children);
        assert(entries[i] =~= planned_entry(planned[i]));
        assert forall|c: int| 0 <= c < entries[i].children.len() implies {
            let child = #[trigger] entries[i].children[c];
            i < child < entries.len() && entries[child as int].parent == Some(i as usize)
        } by {
            let child = children[c];
            assert(planned[child].parent == Some(i));
            assert(is_built(entries[child], planned[child], entries.len() as int));
        }
        if i > 0 {
            let p = planned[i].parent->0;
            assert(plan_fits(planned, None, 0, p));
            assert(is_built(entries[p], planned[p], entries.len() as int));
            let c = choose|c: int|
                0 <= c < planned[p].children.len() && planned[p].children[c] == i;
            if planned[p].children.len() > 0 {
                assert(planned[p].children[0] < entries.len());
            }
            if planned[p].children.len() > 1 {
                assert(planned[p].children[1] < entries.len());
            }
            assert(emitted(planned[p].children, entries.len() as int) =~= planned[p].children);
            assert(as_positions(entries[p].children)[c] == entries[p].children[c] as int);
            assert(entries[p].children[c] == i as usize);
        }
    }
    assert forall|i: int| 0 <= i < entries.len() implies entries[i] == #[trigger] planned_run(
        root,
    ).entries[i] by {
        assert(entry_fits(entries, i));
    }
    assert(entries =~= planned_run(root).entries);
}

/// Leaves with positions in place of indices.
spec fn leaf_positions<H>(leaves: Seq<(usize, AffNodeRef<H>)>) -> Seq<(int, AffNodeRef<H>)> {
    leaves.map_values(|leaf: (usize, AffNodeRef<H>)| (leaf.0 as int, leaf.1))
}

/// Takes apart a description that stands at `index`: its branches go on the
/// stack, the left one on top, and a leaf goes to the leaves.
fn part<H>(
    node: &AffNodeRef<H>,
    index: usize,
    Ghost(parent): Ghost<Option<int>>,
    stack: &mut Vec<(AffNodeRef<H>, Option<usize>)>,
    leaves: &mut Vec<(usize, AffNodeRef<H>)>,
) -> (kind: AffParKind<H>)
    ensures
        kind == plan(&node.node, parent, index as int)[0].kind,
        stack_plan(final(stack)@, index + 1) == plan(&node.node, parent, index as int).skip(1)
            + stack_plan(old(stack)@, index + plan_size(&node.node)),
        leaf_positions(final(leaves)@) + stack_plan_leaves(final(stack)@, index + 1)
            == leaf_positions(old(leaves)@) + (plan_leaves(*node, index as int)
            + stack_plan_leaves(old(stack)@, index + plan_size(&node.node))),
{
    let ghost rest = stack@;
    let ghost m = index as int;
    let ghost whole = plan(&node.node, parent, m);
    match &node.node {
        AffNode::ParMap(map, child) => {
            proof {
                lemma_stack_plan_push(rest, (*child, Some(index)), m + 1);
            }
            stack.push((child.clone(), Some(index)));
            assert(whole.skip(1) =~= plan(&child.node, Some(m), m + 1));
            AffParKind::Mapping(map.clone())
        },
        AffNode::ParApply(left, right) => {
            proof {
                lemma_part_pair(rest, *left, *right, index);
            }
            stack.push((right.clone(), Some(index)));
            stack.push((left.clone(), Some(index)));
            assert(whole.skip(1) =~= plan(&left.node, Some(m), m + 1) + plan(
                &right.node,
                Some(m),
                m + 1 + plan_size(&left.node),
            ));
            AffParKind::Apply
        },
        AffNode::ParAlt(left, right) => {
            proof {
                lemma_part_pair(rest, *left, *right, index);
            }
            stack.push((right.clone(), Some(index)));
            stack.push((left.clone(), Some(index)));
            assert(whole.skip(1) =~= plan(&left.node, Some(m), m + 1) + plan(
                &right.node,
                Some(m),
                m + 1 + plan_size(&left.node),
            ));
            AffParKind::Alt
        },
        _ => {
            let ghost placed = leaves@;
            leaves.push((index, node.clone()));
            assert(leaf_positions(leaves@) =~= leaf_positions(placed).push((m, *node)));
            assert(plan_leaves(*node, m) =~= seq![(m, *node)]);
            assert(leaf_positions(leaves@) + stack_plan_leaves(rest, m + 1) =~= leaf_positions(
                placed,
            ) + (plan_leaves(*node, m) + stack_plan_leaves(rest, m + 1)));
            assert(whole.skip(1) =~= seq![]);
            assert(whole.skip(1) + stack_plan(rest, m + 1) =~= stack_plan(rest, m + 1));
            AffParKind::Leaf
        },
    }
}

proof fn lemma_part_pair<H>(
    rest: Seq<(AffNodeRef<H>, Option<usize>)>,
    left: AffNodeRef<H>,
    right: AffNodeRef<H>,
    index: usize,
)
    ensures
        ({
            let both = rest.push((right, Some(index))).push((left, Some(index)));
            let m = index as int;
            let middle = m + 1 + plan_size(&left.node);
            &&& stack_plan(both, m + 1) == (plan(&left.node, Some(m), m + 1) + plan(
                &right.node,
                Some(m),
                middle,
            )) + stack_plan(rest, middle + plan_size(&right.node))
            &&& stack_plan_leaves(both, m + 1) == (plan_leaves(left, m + 1) + plan_leaves(
                right,
                middle,
            )) + stack_plan_leaves(rest, middle + plan_size(&right.node))
        }),
{
    let m = index as int;
    let middle = m + 1 + plan_size(&left.node);
    let some = rest.push((right, Some(index)));
    lemma_stack_plan_push(rest, (right, Some(index)), middle);
    lemma_stack_plan_push(some, (left, Some(index)), m + 1);
    assert(stack_plan(some.push((left, Some(index))), m + 1) =~= (plan(&left.node, Some(m), m + 1)
        + plan(&right.node, Some(m), middle)) + stack_plan(
        rest,
        middle + plan_size(&right.node),
    ));
    assert(stack_plan_leaves(some.push((left, Some(index))), m + 1) =~= (plan_leaves(left, m + 1)
        + plan_leaves(right, middle)) + stack_plan_leaves(rest, middle + plan_size(&right.node)));
}

/// Places the next entry and enters it with its parent.
fn place<H>(
    entries: &mut Vec<AffParEntry<H>>,
    kind: AffParKind<H>,
    parent: Option<usize>,
    Ghost(planned): Ghost<Seq<PlanEntry<H>>>,
)
    requires
        plan_is_tree(planned, None, 0),
        old(entries)@.len() < planned.len(),
        kind == planned[old(entries)@.len() as int].kind,
        as_position(parent) == planned[old(entries)@.len() as int].parent,
        forall|i: int|
            0 <= i < old(entries)@.len() ==> is_built(
                (#[trigger] old(entries)@[i])@,
                planned[i],
                old(entries)@.len() as int,
            ),
    ensures
        final(entries)@.len() == old(entries)@.len() + 1,
        forall|i: int|
            0 <= i < final(entries)@.len() ==> is_built(
                (#[trigger] final(entries)@[i])@,
                planned[i],
                final(entries)@.len() as int,
            ),
{
    let index: usize = entries.len();
    let ghost m = index as int;
    let ghost before = entries@;
    proof {
        lemma_emitted_step(planned, m);
        assert(plan_fits(planned, None, 0, m));
    }
    entries.push(
        AffParEntry {
            kind,
            parent,
            children: Vec::new(),
            result: None,
            first_error: None,
            settling: false,
        },
    );
    assert(as_positions(entries@[m]@.children) =~= seq![]);
    if let Some(above) = parent {
        assert(is_built(before[above as int]@, planned[above as int], m));
        entries[above].children.push(index);
        assert(as_positions(entries@[above as int]@.children) =~= as_positions(
            before[above as int]@.children,
        ).push(m));
    }
    assert forall|i: int| 0 <= i < entries@.len() implies is_built(
        (#[trigger] entries@[i])@,
        planned[i],
        m + 1,
    ) by {
        if i < m {
            assert(is_built(before[i]@, planned[i], m));
        }
    }
}

/// Lays out a parallel description. Nothing starts here: the leaves come back
/// with their places, so that all of them can be observed before the first one
/// runs.
pub fn lay_out<H>(root: AffNodeRef<H>) -> (laid: (
    AffParRun<H>,
    Vec<(usize, AffNodeRef<H>)>,
))
    ensures
        laid.0@ == planned_run(root),
        laid.0@.wf(),
        laid.1@ == planned_leaves(root),
{
    let ghost planned = plan(&root.node, None, 0);
    let mut entries: Vec<AffParEntry<H>> = Vec::new();
    let mut leaves: Vec<(usize, AffNodeRef<H>)> = Vec::new();
    let mut stack: Vec<(AffNodeRef<H>, Option<usize>)> = Vec::new();
    proof {
        lemma_plan_len(&root.node, None, 0);
        lemma_plan_is_tree(&root.node, None, 0);
        lemma_stack_plan_push(stack@, (root, None), 0);
        assert(planned.skip(0) =~= planned);
        assert(planned + Seq::<PlanEntry<H>>::empty() =~= planned);
        assert(leaf_positions(leaves@) =~= seq![]);
    }
    stack.push((root.clone(), None));
    loop
        invariant
            planned == plan(&root.node, None, 0),
            plan_is_tree(planned, None, 0),
            entries@.len() <= planned.len(),
            planned.skip(entries@.len() as int) == stack_plan(stack@, entries@.len() as int),
            forall|i: int|
                0 <= i < entries@.len() ==> is_built(
                    (#[trigger] entries@[i])@,
                    planned[i],
                    entries@.len() as int,
                ),
            plan_leaves(root, 0) =~= leaf_positions(leaves@) + stack_plan_leaves(
                stack@,
                entries@.len() as int,
            ),
        decreases planned.len() - entries@.len(),
    {
        let ghost waiting = stack@;
        let ghost m = entries@.len() as int;
        match stack.pop() {
            None => {
                proof {
                    assert(planned.skip(m).len() == planned.len() - m);
                    assert(entry_views(entries@).len() == entries.len());
                    lemma_built(entry_views(entries@), root);
                    assert(plan_leaves(root, 0) =~= leaf_positions(leaves@));
                    assert forall|k: int| 0 <= k < leaves@.len() implies leaves@[k]
                        == #[trigger] planned_leaves(root)[k] by {
                        assert(leaf_positions(leaves@)[k] == (leaves@[k].0 as int, leaves@[k].1));
                    }
                    assert(leaves@ =~= planned_leaves(root));
                }
                return (AffParRun { entries, stopped: false }, leaves);
            },
            Some((node, parent)) => {
                let index: usize = entries.len();
                let ghost rest = stack@;
                let ghost position = as_position(parent);
                proof {
                    assert(waiting =~= rest.push((node, parent)));
                    lemma_stack_plan_push(rest, (node, parent), m);
                    lemma_plan_len(&node.node, position, m);
                    assert(planned.skip(m).len() == planned.len() - m);
                    assert(planned.skip(m)[0] == planned[m]);
                    assert(plan(&node.node, position, m)[0] == planned[m]);
                    assert(planned[m].parent == position);
                    assert(planned.skip(m + 1) =~= planned.skip(m).skip(1));
                    assert((plan(&node.node, position, m) + stack_plan(
                        rest,
                        m + plan_size(&node.node),
                    )).skip(1) =~= plan(&node.node, position, m).skip(1) + stack_plan(
                        rest,
                        m + plan_size(&node.node),
                    ));
                }
                let kind: AffParKind<H> = part(
                    &node,
                    index,
                    Ghost(position),
                    &mut stack,
                    &mut leaves,
                );
                place(&mut entries, kind, parent, Ghost(planned));
            },
        }
    }
}

proof fn lemma_leaf_has_a_place<H>(
    node: &AffNodeRef<H>,
    parent: Option<int>,
    base: int,
    k: int,
) -> (j: int)
    requires
        0 <= k < plan(&node.node, parent, base).len(),
        plan(&node.node, parent, base)[k].kind is Leaf,
    ensures
        0 <= j < plan_leaves(*node, base).len(),
        plan_leaves(*node, base)[j].0 == base + k,
    decreases node.node,
{
    match &node.node {
        AffNode::ParMap(_, child) => {
            assert(plan(&node.node, parent, base)[k] == plan(&child.node, Some(base), base + 1)[k
                - 1]);
            lemma_leaf_has_a_place(child, Some(base), base + 1, k - 1)
        },
        AffNode::ParApply(left, right) | AffNode::ParAlt(left, right) => {
            let middle = base + 1 + plan_size(&left.node);
            lemma_plan_len(&left.node, Some(base), base + 1);
            if k - 1 < plan_size(&left.node) {
                assert(plan(&node.node, parent, base)[k] == plan(&left.node, Some(base), base + 1)[k
                    - 1]);
                lemma_leaf_has_a_place(left, Some(base), base + 1, k - 1)
            } else {
                let rest = k - 1 - plan_size(&left.node);
                assert(plan(&node.node, parent, base)[k] == plan(&right.node, Some(base), middle)[rest]);
                let j = lemma_leaf_has_a_place(right, Some(base), middle, rest);
                let before = plan_leaves(*left, base + 1).len() as int;
                assert(plan_leaves(*node, base)[before + j] == plan_leaves(*right, middle)[j]);
                before + j
            }
        },
        _ => 0,
    }
}

/// Every leaf of a planned run is among its planned leaves.
pub proof fn lemma_every_leaf_is_planned<H>(root: &AffNodeRef<H>, i: int) -> (j: int)
    requires
        0 <= i < planned_run(*root).entries.len(),
        planned_run(*root).entries[i].kind is Leaf,
    ensures
        0 <= j < planned_leaves(*root).len(),
        planned_leaves(*root)[j].0 == i as usize,
{
    lemma_leaf_has_a_place(root, None, 0, i)
}

} // verus!
