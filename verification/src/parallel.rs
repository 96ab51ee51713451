//! Parallel descriptions: how a tree of them is laid out, how the results of
//! its leaves meet, and which leaves have to be cancelled.
use crate::value::{share_result, AffResult, AffValue};
use vstd::prelude::*;

verus! {

pub enum AffParKind<H> {
    Leaf,
    Mapping(AffValue<H>),
    Apply,
    Alt,
}

pub struct AffParEntry<H> {
    pub kind: AffParKind<H>,
    pub parent: Option<usize>,
    pub children: Vec<usize>,
    pub result: Option<AffResult<H>>,
    pub first_error: Option<AffValue<H>>,
    pub settling: bool,
}

/// A parallel description that is being run. Every leaf of it is the body of a
/// fiber.
pub struct AffParRun<H> {
    pub entries: Vec<AffParEntry<H>>,
    pub stopped: bool,
}

/// What has to be done after a result has come in.
pub enum AffParAction<H> {
    /// This is the result of the whole.
    Done(AffResult<H>),
    Wait,
    /// Call a function; what comes of it is the result of the entry.
    Call { entry: usize, function: AffValue<H>, argument: AffValue<H> },
    /// Kill these leaves; when all of them have ended, the outcome is the
    /// result of the entry.
    Kill { entry: usize, leaves: Vec<usize>, outcome: AffResult<H> },
}

#[verifier::ext_equal]
pub struct EntryView<H> {
    pub kind: AffParKind<H>,
    pub parent: Option<usize>,
    pub children: Seq<usize>,
    pub result: Option<AffResult<H>>,
    pub first_error: Option<AffValue<H>>,
    pub settling: bool,
}

impl<H> View for AffParEntry<H> {
    type V = EntryView<H>;

    open spec fn view(&self) -> EntryView<H> {
        EntryView {
            kind: self.kind,
            parent: self.parent,
            children: self.children@,
            result: self.result,
            first_error: self.first_error,
            settling: self.settling,
        }
    }
}

#[verifier::ext_equal]
pub struct ParView<H> {
    pub entries: Seq<EntryView<H>>,
    pub stopped: bool,
}

pub open spec fn entry_views<H>(entries: Seq<AffParEntry<H>>) -> Seq<EntryView<H>> {
    entries.map_values(|entry: AffParEntry<H>| entry@)
}

impl<H> View for AffParRun<H> {
    type V = ParView<H>;

    open spec fn view(&self) -> ParView<H> {
        ParView { entries: entry_views(self.entries@), stopped: self.stopped }
    }
}

/// What has to be done, with the leaves as a sequence.
pub enum ParActionView<H> {
    Done(AffResult<H>),
    Wait,
    Call { entry: usize, function: AffValue<H>, argument: AffValue<H> },
    Kill { entry: usize, leaves: Seq<usize>, outcome: AffResult<H> },
}

impl<H> View for AffParAction<H> {
    type V = ParActionView<H>;

    open spec fn view(&self) -> ParActionView<H> {
        match *self {
            AffParAction::Done(result) => ParActionView::Done(result),
            AffParAction::Wait => ParActionView::Wait,
            AffParAction::Call { entry, function, argument } => ParActionView::Call {
                entry,
                function,
                argument,
            },
            AffParAction::Kill { entry, leaves, outcome } => ParActionView::Kill {
                entry,
                leaves: leaves@,
                outcome,
            },
        }
    }
}

/// The number of children that an entry of this kind has.
pub open spec fn arity<H>(kind: AffParKind<H>) -> nat {
    match kind {
        AffParKind::Leaf => 0,
        AffParKind::Mapping(_) => 1,
        _ => 2,
    }
}

/// Whether entry `i` and its children fit together.
pub open spec fn entry_fits<H>(entries: Seq<EntryView<H>>, i: int) -> bool {
    let entry = entries[i];
    &&& entry.children.len() == arity(entry.kind)
    &&& forall|c: int|
        0 <= c < entry.children.len() ==> {
            let child = #[trigger] entry.children[c];
            i < child < entries.len() && entries[child as int].parent == Some(i as usize)
        }
    &&& entry.children.len() == 2 ==> entry.children[0] < entry.children[1]
    &&& entry.parent matches Some(p) ==> p < i && entries[p as int].children.contains(i as usize)
    &&& entry.parent is None <==> i == 0
}

/// Whether the entries form a tree with its root in front, and every entry
/// before its children.
pub open spec fn is_tree<H>(entries: Seq<EntryView<H>>) -> bool {
    &&& 0 < entries.len() <= usize::MAX
    &&& forall|i: int| 0 <= i < entries.len() ==> #[trigger] entry_fits(entries, i)
}

/// Whether two layouts differ in their results only.
pub open spec fn same_shape<H>(a: Seq<EntryView<H>>, b: Seq<EntryView<H>>) -> bool {
    &&& a.len() == b.len()
    &&& forall|i: int|
        #![trigger a[i]]
        #![trigger b[i]]
        0 <= i < a.len() ==> a[i].kind == b[i].kind && a[i].parent == b[i].parent && a[i].children
            == b[i].children
}

pub proof fn lemma_same_shape_tree<H>(a: Seq<EntryView<H>>, b: Seq<EntryView<H>>)
    requires
        is_tree(a),
        same_shape(a, b),
    ensures
        is_tree(b),
{
    assert forall|i: int| 0 <= i < b.len() implies #[trigger] entry_fits(b, i) by {
        assert(entry_fits(a, i));
        assert(a[i].kind == b[i].kind);
        assert forall|c: int| 0 <= c < b[i].children.len() implies {
            let child = #[trigger] b[i].children[c];
            i < child < b.len() && b[child as int].parent == Some(i as usize)
        } by {
            let child = a[i].children[c];
            assert(b[child as int].parent == a[child as int].parent);
        }
    }
}

/// The number of entries in the tree below entry `i`, itself included.
pub open spec fn entry_size<H>(entries: Seq<EntryView<H>>, i: int) -> nat
    decreases entries.len() - i,
    when is_tree(entries) && 0 <= i < entries.len()
{
    proof {
        assert(entry_fits(entries, i));
    }
    let children = entries[i].children;
    if children.len() == 0 {
        1
    } else if children.len() == 1 {
        1 + entry_size(entries, children[0] as int)
    } else {
        1 + entry_size(entries, children[0] as int) + entry_size(entries, children[1] as int)
    }
}

/// The leaves below entry `i` that have no result yet, from left to right.
pub open spec fn pending_leaves<H>(entries: Seq<EntryView<H>>, i: int) -> Seq<usize>
    decreases entries.len() - i,
    when is_tree(entries) && 0 <= i < entries.len()
{
    proof {
        assert(entry_fits(entries, i));
    }
    let children = entries[i].children;
    if children.len() == 0 {
        if entries[i].result is None {
            seq![i as usize]
        } else {
            seq![]
        }
    } else if children.len() == 1 {
        pending_leaves(entries, children[0] as int)
    } else {
        pending_leaves(entries, children[0] as int) + pending_leaves(entries, children[1] as int)
    }
}

/// The other one of two children.
pub open spec fn sibling(children: Seq<usize>, child: usize) -> usize {
    if children[0] == child {
        children[1]
    } else {
        children[0]
    }
}

impl<H> ParView<H> {
    pub open spec fn wf(self) -> bool {
        is_tree(self.entries)
    }

    pub open spec fn with_result(self, i: usize, result: AffResult<H>) -> ParView<H> {
        let entry = EntryView { result: Some(result), ..self.entries[i as int] };
        ParView { entries: self.entries.update(i as int, entry), ..self }
    }

    pub open spec fn with_settling(self, i: usize) -> ParView<H> {
        let entry = EntryView { settling: true, ..self.entries[i as int] };
        ParView { entries: self.entries.update(i as int, entry), ..self }
    }

    /// The error that comes first at an entry is the one it keeps.
    pub open spec fn with_error(self, i: usize, error: AffValue<H>) -> ParView<H> {
        let kept = match self.entries[i as int].first_error {
            Some(first) => first,
            None => error,
        };
        let entry = EntryView { first_error: Some(kept), ..self.entries[i as int] };
        ParView { entries: self.entries.update(i as int, entry), ..self }
    }

    /// What follows when one branch of entry `p` has decided its outcome: the
    /// leaves of the other branch are killed before the outcome counts.
    pub open spec fn decided(self, p: usize, child: usize, outcome: AffResult<H>) -> (
        ParView<H>,
        Option<ParActionView<H>>,
    ) {
        let next = self.with_settling(p);
        let leaves = pending_leaves(
            next.entries,
            sibling(self.entries[p as int].children, child) as int,
        );
        if leaves.len() == 0 {
            (next, None)
        } else {
            (next, Some(ParActionView::Kill { entry: p, leaves, outcome }))
        }
    }

    /// What follows at entry `p` from the result of its child. `Err` holds the
    /// result that entry `p` gets at once; `Ok` holds what has to be done.
    pub open spec fn meet(self, p: usize, child: usize, result: AffResult<H>) -> (
        ParView<H>,
        Result<ParActionView<H>, AffResult<H>>,
    ) {
        let children = self.entries[p as int].children;
        match (self.entries[p as int].kind, result) {
            (AffParKind::Mapping(function), Ok(argument)) => (
                self.with_settling(p),
                Ok(ParActionView::Call { entry: p, function, argument }),
            ),
            (AffParKind::Mapping(_), Err(error)) => (self, Err(Err(error))),
            (AffParKind::Apply, Ok(_)) => match (
                self.entries[children[0] as int].result,
                self.entries[children[1] as int].result,
            ) {
                (Some(Ok(function)), Some(Ok(argument))) => (
                    self.with_settling(p),
                    Ok(ParActionView::Call { entry: p, function, argument }),
                ),
                _ => (self, Ok(ParActionView::Wait)),
            },
            (AffParKind::Apply, Err(error)) => match self.decided(p, child, Err(error)) {
                (next, Some(action)) => (next, Ok(action)),
                (next, None) => (next, Err(Err(error))),
            },
            (AffParKind::Alt, Ok(value)) => match self.decided(p, child, Ok(value)) {
                (next, Some(action)) => (next, Ok(action)),
                (next, None) => (next, Err(Ok(value))),
            },
            (AffParKind::Alt, Err(error)) => {
                let next = self.with_error(p, error);
                if self.entries[children[0] as int].result is Some && self.entries[children[1] as int].result is Some {
                    (next, Err(Err(next.entries[p as int].first_error->0)))
                } else {
                    (next, Ok(ParActionView::Wait))
                }
            },
            (AffParKind::Leaf, _) => (self, Ok(ParActionView::Wait)),
        }
    }

    /// The run after entry `i` has got `result`, and what has to be done. A
    /// result that comes after the run has stopped, or for an entry that has
    /// one already, changes nothing.
    pub open spec fn settle(self, i: usize, result: AffResult<H>) -> (ParView<H>, ParActionView<H>)
        decreases i,
        when self.wf() && i < self.entries.len()
    {
        proof {
            assert(entry_fits(self.entries, i as int));
        }
        if self.stopped || self.entries[i as int].result is Some {
            (self, ParActionView::Wait)
        } else {
            let next = self.with_result(i, result);
            match self.entries[i as int].parent {
                None => (ParView { stopped: true, ..next }, ParActionView::Done(result)),
                Some(p) => if next.entries[p as int].settling || next.entries[p as int].result is Some {
                    (next, ParActionView::Wait)
                } else {
                    match next.meet(p, i, result) {
                        (after, Ok(action)) => (after, action),
                        (after, Err(upward)) => after.settle(p, upward),
                    }
                },
            }
        }
    }
}

/// The pending leaves below the entries on a stack, the topmost entry first.
spec fn stack_leaves<H>(entries: Seq<EntryView<H>>, stack: Seq<usize>) -> Seq<usize>
    decreases stack.len(),
{
    if stack.len() == 0 {
        seq![]
    } else {
        pending_leaves(entries, stack.last() as int) + stack_leaves(entries, stack.drop_last())
    }
}

/// The number of entries below the entries on a stack.
spec fn stack_size<H>(entries: Seq<EntryView<H>>, stack: Seq<usize>) -> nat
    decreases stack.len(),
{
    if stack.len() == 0 {
        0
    } else {
        entry_size(entries, stack.last() as int) + stack_size(entries, stack.drop_last())
    }
}

proof fn lemma_stack_push<H>(entries: Seq<EntryView<H>>, stack: Seq<usize>, index: usize)
    ensures
        stack_leaves(entries, stack.push(index)) == pending_leaves(entries, index as int)
            + stack_leaves(entries, stack),
        stack_size(entries, stack.push(index)) == entry_size(entries, index as int) + stack_size(
            entries,
            stack,
        ),
{
    assert(stack.push(index).drop_last() =~= stack);
}

impl<H> AffParRun<H> {
    /// The leaves below `root` that have no result yet, from left to right.
    pub fn pending(&self, root: usize) -> (leaves: Vec<usize>)
        requires
            self@.wf(),
            root < self@.entries.len(),
        ensures
            leaves@ == pending_leaves(self@.entries, root as int),
    {
        let ghost entries = self@.entries;
        let mut stack: Vec<usize> = Vec::new();
        stack.push(root);
        let mut leaves: Vec<usize> = Vec::new();
        assert(stack@.drop_last() =~= seq![]);
        assert(stack_leaves(entries, seq![]) =~= seq![]);
        assert(stack_leaves(entries, stack@) =~= pending_leaves(entries, root as int));
        loop
            invariant
                is_tree(entries),
                entries == self@.entries,
                forall|k: int| 0 <= k < stack@.len() ==> (#[trigger] stack@[k]) < entries.len(),
                leaves@ + stack_leaves(entries, stack@) == pending_leaves(entries, root as int),
            decreases stack_size(entries, stack@),
        {
            let ghost before = stack@;
            match stack.pop() {
                Some(index) => {
                    assert(entry_fits(entries, index as int));
                    assert(stack@ =~= before.drop_last());
                    let entry: &AffParEntry<H> = &self.entries[index];
                    assert(entry@ == entries[index as int]);
                    if entry.children.len() == 0 {
                        if entry.result.is_none() {
                            leaves.push(index);
                        }
                        assert(leaves@ + stack_leaves(entries, stack@) =~= pending_leaves(
                            entries,
                            root as int,
                        ));
                    } else if entry.children.len() == 1 {
                        proof {
                            lemma_stack_push(entries, stack@, entry.children@[0]);
                        }
                        stack.push(entry.children[0]);
                    } else {
                        proof {
                            lemma_stack_push(entries, stack@, entry.children@[1]);
                        }
                        stack.push(entry.children[1]);
                        proof {
                            lemma_stack_push(entries, stack@, entry.children@[0]);
                        }
                        stack.push(entry.children[0]);
                        assert(leaves@ + stack_leaves(entries, stack@) =~= pending_leaves(
                            entries,
                            root as int,
                        ));
                    }
                },
                None => {
                    assert(leaves@ =~= pending_leaves(entries, root as int));
                    return leaves;
                },
            }
        }
    }
}

/// An entry with another result, error or mark stands in the same place.
pub proof fn lemma_update_shape<H>(run: ParView<H>, i: usize, entry: EntryView<H>)
    requires
        run.wf(),
        i < run.entries.len(),
        entry.kind == run.entries[i as int].kind,
        entry.parent == run.entries[i as int].parent,
        entry.children == run.entries[i as int].children,
    ensures
        same_shape(run.entries, run.entries.update(i as int, entry)),
        is_tree(run.entries.update(i as int, entry)),
{
    lemma_same_shape_tree(run.entries, run.entries.update(i as int, entry));
}

pub proof fn lemma_shape_transitive<H>(
    a: Seq<EntryView<H>>,
    b: Seq<EntryView<H>>,
    c: Seq<EntryView<H>>,
)
    requires
        same_shape(a, b),
        same_shape(b, c),
    ensures
        same_shape(a, c),
{
    assert forall|i: int|
        #![trigger a[i]]
        #![trigger c[i]]
        0 <= i < a.len() implies a[i].kind == c[i].kind && a[i].parent == c[i].parent
        && a[i].children == c[i].children by {
        assert(a[i].kind == b[i].kind);
    }
}

/// Meeting changes marks only, never the shape of the tree.
pub proof fn lemma_meet_shape<H>(run: ParView<H>, p: usize, child: usize, result: AffResult<H>)
    requires
        run.wf(),
        p < run.entries.len(),
    ensures
        run.meet(p, child, result).0.wf(),
        same_shape(run.entries, run.meet(p, child, result).0.entries),
{
    let entry = run.entries[p as int];
    let met = run.meet(p, child, result).0.entries[p as int];
    lemma_update_shape(run, p, EntryView { settling: true, ..entry });
    lemma_update_shape(run, p, EntryView { first_error: met.first_error, ..entry });
}

/// A result changes results only, never the shape of the tree.
pub proof fn lemma_settle_shape<H>(run: ParView<H>, i: usize, result: AffResult<H>)
    requires
        run.wf(),
        i < run.entries.len(),
    ensures
        run.settle(i, result).0.wf(),
        same_shape(run.entries, run.settle(i, result).0.entries),
    decreases i,
{
    assert(entry_fits(run.entries, i as int));
    if !run.stopped && run.entries[i as int].result is None {
        let next = run.with_result(i, result);
        lemma_update_shape(run, i, EntryView { result: Some(result), ..run.entries[i as int] });
        if let Some(p) = run.entries[i as int].parent {
            if !next.entries[p as int].settling && next.entries[p as int].result is None {
                let (after, outcome) = next.meet(p, i, result);
                lemma_meet_shape(next, p, i, result);
                lemma_shape_transitive(run.entries, next.entries, after.entries);
                if let Err(upward) = outcome {
                    lemma_settle_shape(after, p, upward);
                    lemma_shape_transitive(
                        run.entries,
                        after.entries,
                        after.settle(p, upward).0.entries,
                    );
                }
            }
        }
    }
}

/// Pending leaves are leaves.
pub proof fn lemma_pending_are_leaves<H>(entries: Seq<EntryView<H>>, i: int)
    requires
        is_tree(entries),
        0 <= i < entries.len(),
    ensures
        forall|k: int|
            0 <= k < pending_leaves(entries, i).len() ==> {
                let leaf = #[trigger] pending_leaves(entries, i)[k];
                leaf < entries.len() && entries[leaf as int].kind is Leaf
                    && entries[leaf as int].result is None
            },
    decreases entries.len() - i,
{
    assert(entry_fits(entries, i));
    let children = entries[i].children;
    if children.len() == 1 {
        lemma_pending_are_leaves(entries, children[0] as int);
    } else if children.len() == 2 {
        lemma_pending_are_leaves(entries, children[0] as int);
        lemma_pending_are_leaves(entries, children[1] as int);
    }
}

impl<H> AffParRun<H> {
    fn set_result(&mut self, i: usize, result: AffResult<H>)
        requires
            old(self)@.wf(),
            i < old(self)@.entries.len(),
        ensures
            final(self)@ == old(self)@.with_result(i, result),
            final(self)@.wf(),
    {
        let ghost before = self@;
        self.entries[i].result = Some(result);
        proof {
            let entry = EntryView { result: Some(result), ..before.entries[i as int] };
            lemma_update_shape(before, i, entry);
            assert(self@.entries =~= before.with_result(i, result).entries);
        }
    }

    fn set_settling(&mut self, i: usize)
        requires
            old(self)@.wf(),
            i < old(self)@.entries.len(),
        ensures
            final(self)@ == old(self)@.with_settling(i),
            final(self)@.wf(),
    {
        let ghost before = self@;
        self.entries[i].settling = true;
        proof {
            let entry = EntryView { settling: true, ..before.entries[i as int] };
            lemma_update_shape(before, i, entry);
            assert(self@.entries =~= before.with_settling(i).entries);
        }
    }

    /// Keeps the error that came first.
    fn keep_error(&mut self, i: usize, error: AffValue<H>) -> (kept: AffValue<H>)
        requires
            old(self)@.wf(),
            i < old(self)@.entries.len(),
        ensures
            final(self)@ == old(self)@.with_error(i, error),
            final(self)@.entries[i as int].first_error == Some(kept),
            final(self)@.wf(),
    {
        let ghost before = self@;
        assert(self.entries@[i as int]@ == before.entries[i as int]);
        let kept: AffValue<H> = match &self.entries[i].first_error {
            Some(first) => first.clone(),
            None => error,
        };
        self.entries[i].first_error = Some(kept.clone());
        proof {
            let entry = EntryView { first_error: Some(kept), ..before.entries[i as int] };
            lemma_update_shape(before, i, entry);
            assert(self@.entries =~= before.with_error(i, error).entries);
        }
        kept
    }

    /// One branch of entry `p` has decided its outcome.
    fn decide(&mut self, p: usize, child: usize, outcome: AffResult<H>) -> (next: Result<
        AffParAction<H>,
        AffResult<H>,
    >)
        requires
            old(self)@.wf(),
            p < old(self)@.entries.len(),
            old(self)@.entries[p as int].children.len() == 2,
        ensures
            final(self)@ == old(self)@.decided(p, child, outcome).0,
            match old(self)@.decided(p, child, outcome).1 {
                Some(action) => next matches Ok(done) && done@ == action,
                None => next == Err::<AffParAction<H>, AffResult<H>>(outcome),
            },
            final(self)@.wf(),
    {
        assert(entry_fits(self@.entries, p as int));
        assert(self.entries@[p as int]@ == self@.entries[p as int]);
        let first: usize = self.entries[p].children[0];
        let second: usize = self.entries[p].children[1];
        assert(first == self@.entries[p as int].children[0]);
        assert(second == self@.entries[p as int].children[1]);
        let other: usize = if first == child {
            second
        } else {
            first
        };
        self.set_settling(p);
        let leaves: Vec<usize> = self.pending(other);
        if leaves.len() == 0 {
            Err(outcome)
        } else {
            Ok(AffParAction::Kill { entry: p, leaves, outcome })
        }
    }

    /// What follows at entry `p` from the result of its child: an action, or
    /// the result that entry `p` gets at once.
    fn meet(&mut self, p: usize, child: usize, result: AffResult<H>) -> (next: Result<
        AffParAction<H>,
        AffResult<H>,
    >)
        requires
            old(self)@.wf(),
            p < old(self)@.entries.len(),
        ensures
            final(self)@ == old(self)@.meet(p, child, result).0,
            match old(self)@.meet(p, child, result).1 {
                Ok(action) => next matches Ok(done) && done@ == action,
                Err(upward) => next == Err::<AffParAction<H>, AffResult<H>>(upward),
            },
            final(self)@.wf(),
    {
        assert(entry_fits(self@.entries, p as int));
        assert(self.entries@[p as int]@ == self@.entries[p as int]);
        let two: bool = self.entries[p].children.len() == 2;
        let mut function: Option<AffValue<H>> = None;
        let mut argument: Option<AffValue<H>> = None;
        let mut settled: bool = false;
        if two {
            let left: usize = self.entries[p].children[0];
            let right: usize = self.entries[p].children[1];
            assert(left == self@.entries[p as int].children[0]);
            assert(right == self@.entries[p as int].children[1]);
            assert(self.entries@[left as int]@ == self@.entries[left as int]);
            assert(self.entries@[right as int]@ == self@.entries[right as int]);
            settled = self.entries[left].result.is_some() && self.entries[right].result.is_some();
            if let Some(Ok(value)) = &self.entries[left].result {
                function = Some(value.clone());
            }
            if let Some(Ok(value)) = &self.entries[right].result {
                argument = Some(value.clone());
            }
        }
        let mapping: Option<AffValue<H>> = match &self.entries[p].kind {
            AffParKind::Mapping(map) => Some(map.clone()),
            _ => None,
        };
        if let Some(map) = mapping {
            return match result {
                Ok(value) => {
                    self.set_settling(p);
                    Ok(AffParAction::Call { entry: p, function: map, argument: value })
                },
                Err(error) => Err(Err(error)),
            };
        }
        let apply: bool = match &self.entries[p].kind {
            AffParKind::Apply => true,
            _ => false,
        };
        if !two {
            return Ok(AffParAction::Wait);
        }
        if apply {
            match result {
                Ok(_) => match (function, argument) {
                    (Some(function), Some(argument)) => {
                        self.set_settling(p);
                        Ok(AffParAction::Call { entry: p, function, argument })
                    },
                    _ => Ok(AffParAction::Wait),
                },
                Err(error) => self.decide(p, child, Err(error)),
            }
        } else {
            match result {
                Ok(value) => self.decide(p, child, Ok(value)),
                Err(error) => {
                    let kept: AffValue<H> = self.keep_error(p, error);
                    if settled {
                        Err(Err(kept))
                    } else {
                        Ok(AffParAction::Wait)
                    }
                },
            }
        }
    }

    /// Gives entry `i` its result and carries the consequences towards the
    /// root as far as they go without outside work.
    pub fn settle(&mut self, i: usize, result: AffResult<H>) -> (action: AffParAction<H>)
        requires
            old(self)@.wf(),
            i < old(self)@.entries.len(),
        ensures
            (final(self)@, action@) == old(self)@.settle(i, result),
            final(self)@.wf(),
    {
        let mut index: usize = i;
        let mut result_here: AffResult<H> = result;
        loop
            invariant
                self@.wf(),
                index < self@.entries.len(),
                self@.settle(index, result_here) == old(self)@.settle(i, result),
            decreases index,
        {
            assert(entry_fits(self@.entries, index as int));
            assert(self.entries@[index as int]@ == self@.entries[index as int]);
            if self.stopped || self.entries[index].result.is_some() {
                return AffParAction::Wait;
            }
            self.set_result(index, share_result(&result_here));
            assert(self.entries@[index as int]@ == self@.entries[index as int]);
            match self.entries[index].parent {
                None => {
                    self.stopped = true;
                    return AffParAction::Done(result_here);
                },
                Some(parent) => {
                    assert(self.entries@[parent as int]@ == self@.entries[parent as int]);
                    if self.entries[parent].settling || self.entries[parent].result.is_some() {
                        return AffParAction::Wait;
                    }
                    match self.meet(parent, index, result_here) {
                        Ok(action) => {
                            return action;
                        },
                        Err(upward) => {
                            index = parent;
                            result_here = upward;
                        },
                    }
                },
            }
        }
    }

    /// Stops the run and returns the leaves that have to be killed.
    pub fn cancel(&mut self) -> (leaves: Vec<usize>)
        requires
            old(self)@.wf(),
        ensures
            final(self)@ == (ParView { stopped: true, ..old(self)@ }),
            leaves@ == pending_leaves(old(self)@.entries, 0),
            final(self)@.wf(),
    {
        self.stopped = true;
        self.pending(0)
    }
}

} // verus!
