//! Plans: declarative, versioned templates of work.

use vstd::prelude::*;
use crate::tasks::texts;

verus! {

/// A tree of commands: a leaf runs one command, an inner node runs its
/// children side by side (`TaskGroup`) or one after the other (`TaskList`).
#[derive(Debug, PartialEq, Eq)]
pub enum PlanSpec {
    Command { args: Vec<String> },
    TaskGroup { parallel: Vec<PlanSpec> },
    TaskList { serial: Vec<PlanSpec> },
}

/// A plan's specification as a mathematical tree.
pub enum PlanTree {
    Command { args: Seq<Seq<char>> },
    TaskGroup { parallel: Seq<PlanTree> },
    TaskList { serial: Seq<PlanTree> },
}

/// The trees of a sequence of specifications, in order.
pub open spec fn forest(specs: Seq<PlanSpec>) -> Seq<PlanTree>
    decreases specs, 0nat,
{
    Seq::new(
        specs.len(),
        |i: int|
            if 0 <= i < specs.len() {
                tree_of(specs[i])
            } else {
                PlanTree::Command { args: Seq::empty() }
            },
    )
}

/// The tree of one specification.
pub open spec fn tree_of(spec: PlanSpec) -> PlanTree
    decreases spec, 1nat,
{
    match spec {
        PlanSpec::Command { args } => PlanTree::Command { args: texts(args@) },
        PlanSpec::TaskGroup { parallel } => PlanTree::TaskGroup { parallel: forest(parallel@) },
        PlanSpec::TaskList { serial } => PlanTree::TaskList { serial: forest(serial@) },
    }
}

impl View for PlanSpec {
    type V = PlanTree;

    open spec fn view(&self) -> PlanTree {
        tree_of(*self)
    }
}

impl PlanTree {
    /// The subtrees directly below the root; none below a command.
    pub open spec fn children(self) -> Seq<PlanTree> {
        match self {
            PlanTree::Command { .. } => Seq::empty(),
            PlanTree::TaskGroup { parallel } => parallel,
            PlanTree::TaskList { serial } => serial,
        }
    }

    /// The number of nodes of the tree: one task is made for each.
    pub open spec fn size(self) -> nat
        decreases self, 1nat,
    {
        match self {
            PlanTree::Command { .. } => 1,
            PlanTree::TaskGroup { parallel } => 1 + total_size(parallel),
            PlanTree::TaskList { serial } => 1 + total_size(serial),
        }
    }
}

/// The number of nodes of all the trees together.
pub open spec fn total_size(trees: Seq<PlanTree>) -> nat
    decreases trees, 0nat,
{
    if trees.len() == 0 {
        0
    } else {
        total_size(trees.drop_last()) + trees.last().size()
    }
}

/// Copies the specifications one by one.
fn clone_all(specs: &Vec<PlanSpec>) -> (r: Vec<PlanSpec>)
    ensures
        forest(r@) == forest(specs@),
    decreases specs, 0nat,
{
    let mut copy: Vec<PlanSpec> = Vec::new();
    let mut i: usize = 0;
    while i < specs.len()
        invariant
            i <= specs.len(),
            copy.len() == i,
            forall|j: int| 0 <= j < i ==> copy@[j]@ == specs@[j]@,
        decreases specs.len() - i,
    {
        let item = clone_one(&specs[i]);
        copy.push(item);
        i = i + 1;
    }
    assert(forest(copy@) =~= forest(specs@));
    copy
}

/// Copies one specification, subtrees included.
fn clone_one(spec: &PlanSpec) -> (r: PlanSpec)
    ensures
        r@ == spec@,
    decreases spec, 1nat,
{
    match spec {
        PlanSpec::Command { args } => {
            let copy = args.clone();
            assert(texts(copy@) =~= texts(args@));
            PlanSpec::Command { args: copy }
        },
        PlanSpec::TaskGroup { parallel } => PlanSpec::TaskGroup { parallel: clone_all(parallel) },
        PlanSpec::TaskList { serial } => PlanSpec::TaskList { serial: clone_all(serial) },
    }
}

impl Clone for PlanSpec {
    fn clone(&self) -> (r: Self)
        ensures
            r@ == self@,
    {
        clone_one(self)
    }
}

/// A stored plan. Its version starts at 0 and grows by one with each
/// update.
#[derive(Debug, PartialEq, Eq)]
pub struct Plan {
    pub id: u128,
    pub spec: PlanSpec,
    pub version: u64,
}

/// A stored plan as a mathematical value.
pub struct PlanView {
    pub id: u128,
    pub spec: PlanTree,
    pub version: u64,
}

impl View for Plan {
    type V = PlanView;

    open spec fn view(&self) -> PlanView {
        PlanView { id: self.id, spec: self.spec@, version: self.version }
    }
}

impl Clone for Plan {
    fn clone(&self) -> (r: Self)
        ensures
            r@ == self@,
    {
        Plan { id: self.id, spec: self.spec.clone(), version: self.version }
    }
}

/// The request to create a plan, or to replace a plan's specification.
#[derive(Debug, PartialEq, Eq)]
pub struct CreatePlan {
    pub spec: PlanSpec,
}

impl View for CreatePlan {
    type V = PlanTree;

    open spec fn view(&self) -> PlanTree {
        self.spec@
    }
}

impl Clone for CreatePlan {
    fn clone(&self) -> (r: Self)
        ensures
            r@ == self@,
    {
        CreatePlan { spec: self.spec.clone() }
    }
}

} // verus!
