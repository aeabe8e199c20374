//! The persistent widget-state tree: per-node tags, opaque state cells, and
//! the truncate-then-extend reconciliation of child lists.

use vstd::prelude::*;

verus! {

/// A stable identifier of a widget's implementation kind, used to gate state
/// reuse during reconciliation. Each widget kind picks its own number; two
/// widgets of the same kind reconcile even when their data differs.
#[derive(Debug, Clone, Copy, PartialEq, Eq, Structural, PartialOrd, Ord, Hash)]
pub struct Tag(pub u64);

impl Tag {
    /// A tag for the widget kind with the given identifier.
    pub fn of(id: u64) -> (t: Tag)
        ensures
            t == Tag(id),
    {
        Tag(id)
    }

    /// The tag of a stateless widget; the identifier zero is reserved for it.
    pub fn stateless() -> (t: Tag)
        ensures
            t == Tag(0),
    {
        Tag(0)
    }
}

/// A state cell: plain values that only the widget kind named by `tag`
/// understands.
#[derive(Debug)]
pub struct StateCell {
    pub tag: Tag,
    pub words: Vec<u64>,
}

/// The internal state of a widget: nothing, or a tagged cell.
#[derive(Debug)]
pub enum State {
    /// No meaningful internal state.
    Vacant,
    /// Some meaningful internal state.
    Occupied(StateCell),
}

/// The mathematical shape of a `State`.
#[verifier::ext_equal]
pub enum StateModel {
    Vacant,
    Occupied(Tag, Seq<u64>),
}

impl State {
    /// The mathematical shape of this state.
    pub open spec fn model(self) -> StateModel {
        match self {
            State::Vacant => StateModel::Vacant,
            State::Occupied(cell) => StateModel::Occupied(cell.tag, cell.words@),
        }
    }

    /// Creates a state cell tagged with the owning widget kind.
    pub fn new(tag: Tag, words: Vec<u64>) -> (s: State)
        ensures
            s.model() == StateModel::Occupied(tag, words@),
    {
        State::Occupied(StateCell { tag, words })
    }

    /// The state's values, if the state belongs to the given kind. A
    /// mismatch yields nothing: it indicates a reconciliation defect, not a
    /// recoverable condition.
    pub fn downcast_ref(&self, tag: Tag) -> (r: Option<&Vec<u64>>)
        ensures
            match r {
                Some(words) => self.model() == StateModel::Occupied(tag, words@),
                None => forall|w: Seq<u64>| self.model() != StateModel::Occupied(tag, w),
            },
    {
        match self {
            State::Vacant => None,
            State::Occupied(cell) => {
                if cell.tag == tag {
                    Some(&cell.words)
                } else {
                    None
                }
            },
        }
    }

    /// Mutable access to the state's values, if the state belongs to the
    /// given kind.
    pub fn downcast_mut(&mut self, tag: Tag) -> (r: Option<&mut Vec<u64>>)
        ensures
            match r {
                Some(words) => old(self).model() == StateModel::Occupied(tag, words@)
                    && final(self).model() == StateModel::Occupied(tag, final(words)@),
                None => *final(self) == *old(self) && (forall|w: Seq<u64>| old(self).model()
                    != StateModel::Occupied(tag, w)),
            },
    {
        match self {
            State::Vacant => None,
            State::Occupied(cell) => {
                if cell.tag == tag {
                    Some(&mut cell.words)
                } else {
                    None
                }
            },
        }
    }
}

/// A persistent state tree, parallel in shape to the widget tree it was
/// reconciled against.
#[derive(Debug)]
pub struct Tree {
    /// The tag of the widget kind this node's state belongs to.
    pub tag: Tag,
    /// The state of the widget at this position.
    pub state: State,
    /// The state trees of the widget's children, in order.
    pub children: Vec<Tree>,
}

/// The mathematical shape of a `Tree`.
#[verifier::ext_equal]
pub struct TreeModel {
    pub tag: Tag,
    pub state: StateModel,
    pub children: Seq<TreeModel>,
}

/// The models of a sequence of trees, in order.
pub open spec fn tree_models_of(trees: Seq<Tree>) -> Seq<TreeModel>
    decreases trees,
{
    if trees.len() == 0 {
        Seq::empty()
    } else {
        tree_models_of(trees.drop_last()).push(trees.last().model())
    }
}

/// `tree_models_of` maps `model` over the sequence, element by element.
pub proof fn lemma_tree_models_of(trees: Seq<Tree>)
    ensures
        tree_models_of(trees).len() == trees.len(),
        forall|i: int| 0 <= i < trees.len() ==> tree_models_of(trees)[i]
            == #[trigger] trees[i].model(),
    decreases trees.len(),
{
    if trees.len() > 0 {
        lemma_tree_models_of(trees.drop_last());
        assert forall|i: int| 0 <= i < trees.len() implies tree_models_of(trees)[i]
            == #[trigger] trees[i].model() by {
            if i < trees.len() - 1 {
                assert(trees.drop_last()[i] == trees[i]);
            }
        }
    }
}

impl Tree {
    /// The mathematical shape of this tree.
    pub open spec fn model(self) -> TreeModel
        decreases self,
    {
        TreeModel {
            tag: self.tag,
            state: self.state.model(),
            children: tree_models_of(self.children@),
        }
    }

    /// An empty, stateless tree with no children.
    pub fn empty() -> (t: Tree)
        ensures
            t.model() == (TreeModel {
                tag: Tag(0),
                state: StateModel::Vacant,
                children: Seq::empty(),
            }),
    {
        let t = Tree { tag: Tag::stateless(), state: State::Vacant, children: Vec::new() };
        proof {
            assert(t.model() =~= (TreeModel {
                tag: Tag(0),
                state: StateModel::Vacant,
                children: Seq::empty(),
            }));
        }
        t
    }

    /// Reconciles this tree's children against a new child list with custom
    /// logic for diffing kept children and for creating state for new ones:
    /// trailing stale children beyond the new count are dropped, the
    /// overlapping prefix is diffed pairwise in order, and fresh state is
    /// appended for new trailing children.
    pub fn diff_children_custom<T, D: Fn(Tree, &T) -> Tree, N: Fn(&T) -> Tree>(
        &mut self,
        new_children: &[T],
        diff: D,
        new_state: N,
    )
        requires
            forall|i: int, t: Tree| 0 <= i < new_children@.len() ==> call_requires(
                diff,
                (t, &new_children@[i]),
            ),
            forall|i: int| 0 <= i < new_children@.len() ==> call_requires(
                new_state,
                (&new_children@[i],),
            ),
        ensures
            final(self).tag == old(self).tag,
            final(self).state == old(self).state,
            final(self).children@.len() == new_children@.len(),
            forall|i: int| 0 <= i < new_children@.len() && i < old(self).children@.len()
                ==> call_ensures(
                    diff,
                    (old(self).children@[i], &new_children@[i]),
                    #[trigger] final(self).children@[i],
                ),
            forall|i: int| old(self).children@.len() <= i < new_children@.len() ==> call_ensures(
                new_state,
                (&new_children@[i],),
                #[trigger] final(self).children@[i],
            ),
    {
        let n = new_children.len();
        let mut rest: Vec<Tree> = Vec::new();
        core::mem::swap(&mut rest, &mut self.children);
        let ghost orig = rest@;
        if rest.len() > n {
            rest.truncate(n);
        }
        let ghost kept = rest@.len();
        let mut result: Vec<Tree> = Vec::new();
        while rest.len() > 0
            invariant
                n == new_children@.len(),
                kept <= n,
                kept <= orig.len(),
                result@.len() + rest@.len() == kept,
                rest@ =~= orig.subrange(kept - rest@.len(), kept as int),
                forall|i: int, t: Tree| 0 <= i < new_children@.len() ==> call_requires(
                    diff,
                    (t, &new_children@[i]),
                ),
                forall|i: int| 0 <= i < result@.len() ==> call_ensures(
                    diff,
                    (orig[i], &new_children@[i]),
                    #[trigger] result@[i],
                ),
            decreases rest@.len(),
        {
            let ghost done = kept - rest@.len();
            let t = rest.remove(0);
            proof {
                assert(orig.subrange(done as int, kept as int)[0] == orig[done as int]);
                assert(t == orig[done as int]);
                assert(rest@ =~= orig.subrange(done as int + 1, kept as int));
            }
            let i = result.len();
            let d = diff(t, &new_children[i]);
            result.push(d);
        }
        while result.len() < n
            invariant
                n == new_children@.len(),
                kept <= n,
                kept <= orig.len(),
                kept <= result@.len() <= n,
                forall|i: int| 0 <= i < new_children@.len() ==> call_requires(
                    new_state,
                    (&new_children@[i],),
                ),
                forall|i: int| 0 <= i < kept ==> call_ensures(
                    diff,
                    (orig[i], &new_children@[i]),
                    #[trigger] result@[i],
                ),
                forall|i: int| kept <= i < result@.len() ==> call_ensures(
                    new_state,
                    (&new_children@[i],),
                    #[trigger] result@[i],
                ),
            decreases n - result@.len(),
        {
            let i = result.len();
            let t = new_state(&new_children[i]);
            result.push(t);
        }
        self.children = result;
        proof {
            if orig.len() <= n {
                assert(kept == orig.len());
            }
        }
    }
}

} // verus!
