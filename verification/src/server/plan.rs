//! Materializing a plan: one task is made for every node of the plan's
//! tree, children before their parent, and a parent names its children by
//! their identifiers.

use vstd::prelude::*;
use crate::error::Error;
use crate::ident::{fresh_id, holds_random, is_random};
use crate::plans::{forest, total_size, PlanSpec, PlanTree};
use crate::server::{evolves, Server, ServerView, TaskRecord};
use crate::tasks::{texts, Task, TaskPlan, TaskShape, TaskSpec, TaskStatus, TaskView};

verus! {

/// The identifiers of the roots of `trees`, where `ids` names all their
/// nodes, tree by tree and each tree's children before its root.
pub open spec fn roots(trees: Seq<PlanTree>, ids: Seq<u128>) -> Seq<u128>
    decreases trees.len(),
{
    if trees.len() == 0 {
        Seq::empty()
    } else {
        roots(trees.drop_last(), ids.take(total_size(trees.drop_last()) as int)).push(ids.last())
    }
}

/// What the task made for the root of `tree` does, where `ids` names the
/// tree's nodes, children before their root.
pub open spec fn root_shape(tree: PlanTree, ids: Seq<u128>) -> TaskShape {
    match tree {
        PlanTree::Command { args } => TaskShape::Command { args },
        PlanTree::TaskGroup { parallel } => TaskShape::TaskGroup {
            parallel: roots(parallel, ids.drop_last()),
        },
        PlanTree::TaskList { serial } => TaskShape::TaskList {
            serial: roots(serial, ids.drop_last()),
        },
    }
}

/// The task made for the root of `tree`.
pub open spec fn root_record(plan: TaskPlan, tree: PlanTree, ids: Seq<u128>) -> TaskRecord {
    TaskRecord::created(Some(plan), root_shape(tree, ids))
}

/// The tasks after `tree` has been materialized for `plan` with the
/// identifiers `ids`, one for each node: the subtrees first, in order, then
/// the root, which gets the last identifier.
pub open spec fn planted(
    tasks: Map<u128, TaskRecord>,
    plan: TaskPlan,
    tree: PlanTree,
    ids: Seq<u128>,
) -> Map<u128, TaskRecord>
    decreases tree, 1nat,
{
    let below = match tree {
        PlanTree::Command { .. } => tasks,
        PlanTree::TaskGroup { parallel } => planted_all(tasks, plan, parallel, ids.drop_last()),
        PlanTree::TaskList { serial } => planted_all(tasks, plan, serial, ids.drop_last()),
    };
    below.insert(ids.last(), root_record(plan, tree, ids))
}

/// The tasks after each of `trees` has been materialized in turn.
pub open spec fn planted_all(
    tasks: Map<u128, TaskRecord>,
    plan: TaskPlan,
    trees: Seq<PlanTree>,
    ids: Seq<u128>,
) -> Map<u128, TaskRecord>
    decreases trees, 0nat,
{
    if trees.len() == 0 {
        tasks
    } else {
        let head = total_size(trees.drop_last()) as int;
        planted(
            planted_all(tasks, plan, trees.drop_last(), ids.take(head)),
            plan,
            trees.last(),
            ids.skip(head),
        )
    }
}

/// Whether `ids` are new to `tasks`: no two of them are the same, and none
/// names a task.
pub open spec fn unused(tasks: Map<u128, TaskRecord>, ids: Seq<u128>) -> bool {
    &&& ids.no_duplicates()
    &&& forall|i: int| 0 <= i < ids.len() ==> !tasks.contains_key(#[trigger] ids[i])
}

/// Whether every task that the task `id` names is among `tasks`.
pub open spec fn names_stored(tasks: Map<u128, TaskRecord>, id: u128) -> bool {
    forall|i: int|
        0 <= i < tasks[id].spec.children().len() ==> tasks.contains_key(
            #[trigger] tasks[id].spec.children()[i],
        )
}

/// Whether `after` holds every task of `before` unchanged, and beside them
/// only pending tasks of `plan`, each of which names only tasks that are
/// there: no composite is made before its children.
pub open spec fn grown(before: Map<u128, TaskRecord>, after: Map<u128, TaskRecord>, plan: TaskPlan) -> bool {
    &&& forall|id: u128| #[trigger]
        before.contains_key(id) ==> after.contains_key(id) && after[id] == before[id]
    &&& forall|id: u128| #[trigger]
        after.contains_key(id) && !before.contains_key(id) ==> after[id].plan == Some(plan)
            && after[id].status == TaskStatus::Pending && after[id].wf() && names_stored(
            after,
            id,
        )
}

/// Whether materializing a tree of `size` nodes has stopped at a drawn
/// identifier that was in use: the error names the identifier, which is
/// marked random and names a task, and fewer than `size` tasks were made.
pub open spec fn refused(
    before: Map<u128, TaskRecord>,
    after: Map<u128, TaskRecord>,
    size: nat,
    error: Error,
) -> bool {
    &&& error is IdInUse
    &&& is_random(error->IdInUse_0)
    &&& after.contains_key(error->IdInUse_0)
    &&& after.dom().len() < before.dom().len() + size
}

/// Whether materializing `tree` for `plan` with the identifiers `ids` takes
/// the tasks from `before` to `after` and gives the task `root`.
pub open spec fn plants(
    before: Map<u128, TaskRecord>,
    after: Map<u128, TaskRecord>,
    plan: TaskPlan,
    tree: PlanTree,
    ids: Seq<u128>,
    root: TaskView,
) -> bool {
    &&& ids.len() == tree.size()
    &&& unused(before, ids)
    &&& forall|i: int| 0 <= i < ids.len() ==> is_random(#[trigger] ids[i])
    &&& after == planted(before, plan, tree, ids)
    &&& root == root_record(plan, tree, ids).shown(ids.last())
}

/// The same for a sequence of trees, whose roots are `children`.
pub open spec fn plants_all(
    before: Map<u128, TaskRecord>,
    after: Map<u128, TaskRecord>,
    plan: TaskPlan,
    trees: Seq<PlanTree>,
    ids: Seq<u128>,
    children: Seq<u128>,
) -> bool {
    &&& ids.len() == total_size(trees)
    &&& unused(before, ids)
    &&& forall|i: int| 0 <= i < ids.len() ==> is_random(#[trigger] ids[i])
    &&& after == planted_all(before, plan, trees, ids)
    &&& children == roots(trees, ids)
}

/// Whether the task `id` and the tasks it names are the tasks of `tree`
/// for `plan`: the task is of the same kind as the tree's root, a command
/// has the root's arguments, and a composite names as many children as the
/// root has subtrees, each of which is the task of its subtree in turn.
pub open spec fn mirrors(tasks: Map<u128, TaskRecord>, id: u128, plan: TaskPlan, tree: PlanTree) -> bool
    decreases tree, 1nat,
{
    &&& tasks.contains_key(id)
    &&& tasks[id].plan == Some(plan)
    &&& match tree {
        PlanTree::Command { args } => tasks[id].spec == (TaskShape::Command { args }),
        PlanTree::TaskGroup { parallel } => tasks[id].spec is TaskGroup && mirror_all(
            tasks,
            tasks[id].spec->parallel,
            plan,
            parallel,
        ),
        PlanTree::TaskList { serial } => tasks[id].spec is TaskList && mirror_all(
            tasks,
            tasks[id].spec->serial,
            plan,
            serial,
        ),
    }
}

/// Whether the tasks `ids` are the tasks of `trees`, one for one.
pub open spec fn mirror_all(
    tasks: Map<u128, TaskRecord>,
    ids: Seq<u128>,
    plan: TaskPlan,
    trees: Seq<PlanTree>,
) -> bool
    decreases trees, 0nat,
{
    &&& ids.len() == trees.len()
    &&& forall|i: int| 0 <= i < trees.len() ==> mirrors(tasks, ids[i], plan, #[trigger] trees[i])
}

/// Whether the task `parent` names the task `id` as its child at `index`.
pub open spec fn names(tasks: Map<u128, TaskRecord>, parent: u128, index: int, id: u128) -> bool {
    &&& tasks.contains_key(parent)
    &&& 0 <= index < tasks[parent].spec.children().len()
    &&& tasks[parent].spec.children()[index] == id
}

/// Whether the task `id` is named exactly once by the tasks `ids`: one of
/// them names it, at one place, and no other does, nor the same at another
/// place.
pub open spec fn named_once(tasks: Map<u128, TaskRecord>, ids: Seq<u128>, id: u128) -> bool {
    exists|parent: u128, index: int|
        #![trigger names(tasks, parent, index, id)]
        ids.contains(parent) && names(tasks, parent, index, id) && forall|other: u128, at: int|
            #![trigger names(tasks, other, at, id)]
            ids.contains(other) && names(tasks, other, at, id) ==> other == parent && at
                == index
}

/// Whether `after` holds every task of `before` with the same plan and
/// the same specification.
pub open spec fn keeps_shapes(before: Map<u128, TaskRecord>, after: Map<u128, TaskRecord>) -> bool {
    forall|id: u128| #[trigger]
        before.contains_key(id) ==> after.contains_key(id) && after[id].plan == before[id].plan
            && after[id].spec == before[id].spec
}

/// Materializing a plan makes tasks in the plan's own shape. With
/// identifiers that are new and distinct, exactly one task is added for
/// each node of the tree, under that node's identifier, and no task that
/// was there changes; the task of the root, and with it the tasks it
/// names, mirror the tree node for node.
pub proof fn materialization_has_the_plans_shape(
    tasks: Map<u128, TaskRecord>,
    plan: TaskPlan,
    tree: PlanTree,
    ids: Seq<u128>,
)
    requires
        tasks.dom().finite(),
        ids.len() == tree.size(),
        unused(tasks, ids),
    ensures
        ({
            let after = planted(tasks, plan, tree, ids);
            &&& after.dom() == tasks.dom().union(ids.to_set())
            &&& after.dom().finite()
            &&& after.dom().len() == tasks.dom().len() + tree.size()
            &&& grown(tasks, after, plan)
            &&& mirrors(after, ids.last(), plan, tree)
        }),
{
    lemma_planted(tasks, plan, tree, ids);
    lemma_count(tasks, planted(tasks, plan, tree, ids), ids);
}

/// The shape of a materialized plan lasts: whatever happens to the tasks
/// later, the task of the root and the tasks it names go on mirroring the
/// tree.
pub proof fn materialized_shape_lasts(
    before: Map<u128, TaskRecord>,
    after: Map<u128, TaskRecord>,
    id: u128,
    plan: TaskPlan,
    tree: PlanTree,
)
    requires
        mirrors(before, id, plan, tree),
        evolves(before, after),
    ensures
        mirrors(after, id, plan, tree),
{
    assert(keeps_shapes(before, after)) by {
        assert forall|k: u128| #[trigger] before.contains_key(k) implies after.contains_key(k)
            && after[k].plan == before[k].plan && after[k].spec == before[k].spec by {
            assert(after[k].follows(before[k]));
        }
    }
    lemma_mirrors_stay(before, after, id, plan, tree);
}

/// The children of a materialized composite are ready to run: each is a
/// pending task in the store, no child is named twice, and none is the
/// composite itself. So a group that is run right after it was
/// materialized starts every one of its children.
pub proof fn materialized_children_are_ready(
    tasks: Map<u128, TaskRecord>,
    plan: TaskPlan,
    tree: PlanTree,
    ids: Seq<u128>,
)
    requires
        ids.len() == tree.size(),
        unused(tasks, ids),
    ensures
        ({
            let after = planted(tasks, plan, tree, ids);
            let children = root_shape(tree, ids).children();
            &&& after.contains_key(ids.last())
            &&& after[ids.last()] == root_record(plan, tree, ids)
            &&& children.len() == tree.children().len()
            &&& children.no_duplicates()
            &&& forall|i: int|
                0 <= i < children.len() ==> after.contains_key(#[trigger] children[i])
                    && after[children[i]].status == TaskStatus::Pending && children[i]
                    != ids.last()
        }),
{
    let after = planted(tasks, plan, tree, ids);
    let children = root_shape(tree, ids).children();
    let below = ids.drop_last();
    let trees = tree.children();
    lemma_planted(tasks, plan, tree, ids);
    if tree is Command {
    } else {
        assert(children == roots(trees, below));
        lemma_roots_len(trees, below);
        assert forall|i: int| 0 <= i < children.len() implies after.contains_key(
            #[trigger] children[i],
        ) && after[children[i]].status == TaskStatus::Pending && children[i] != ids.last() by {
            lemma_root_place(trees, below, i);
            let at = root_place(trees, i);
            assert(children[i] == ids[at]);
            assert(ids.to_set().contains(ids[at]));
            assert(after.dom().contains(ids[at]));
            assert(!tasks.contains_key(ids[at]));
        }
        assert forall|i: int, j: int|
            0 <= i < children.len() && 0 <= j < children.len() && i != j implies children[i]
            != children[j] by {
            lemma_root_place(trees, below, i);
            lemma_root_place(trees, below, j);
            if i < j {
                lemma_places_grow(trees, i, j);
            } else {
                lemma_places_grow(trees, j, i);
            }
            assert(children[i] == ids[root_place(trees, i)]);
            assert(children[j] == ids[root_place(trees, j)]);
        }
    }
}

/// The tasks made for a plan form one tree of their own. Each of them but
/// the root is named exactly once among them, as a child of exactly one of
/// them; the root is named by none of them; and they name no task but one
/// another. So no identifier is shared by two nodes, and none is used again.
pub proof fn materialized_tasks_are_named_once(
    tasks: Map<u128, TaskRecord>,
    plan: TaskPlan,
    tree: PlanTree,
    ids: Seq<u128>,
)
    requires
        ids.len() == tree.size(),
        unused(tasks, ids),
    ensures
        ({
            let after = planted(tasks, plan, tree, ids);
            &&& forall|i: int|
                0 <= i < ids.len() ==> after.contains_key(#[trigger] ids[i])
                    && !tasks.contains_key(ids[i])
            &&& forall|i: int|
                0 <= i < ids.len() - 1 ==> named_once(after, ids, #[trigger] ids[i])
            &&& forall|parent: u128, index: int, id: u128|
                #![trigger names(after, parent, index, id)]
                ids.contains(parent) && names(after, parent, index, id) ==> ids.contains(id)
                    && id != ids.last()
        }),
{
    let after = planted(tasks, plan, tree, ids);
    lemma_planted(tasks, plan, tree, ids);
    lemma_named(tasks, plan, tree, ids);
    assert forall|i: int| 0 <= i < ids.len() implies after.contains_key(#[trigger] ids[i])
        && !tasks.contains_key(ids[i]) by {
        assert(ids.to_set().contains(ids[i]));
        assert(after.dom().contains(ids[i]));
    }
    assert forall|i: int| 0 <= i < ids.len() - 1 implies named_once(
        after,
        ids,
        #[trigger] ids[i],
    ) by {
        assert(ids.drop_last()[i] == ids[i]);
        assert(ids.drop_last().contains(ids[i]));
    }
    assert forall|parent: u128, index: int, id: u128|
        #![trigger names(after, parent, index, id)]
        ids.contains(parent) && names(after, parent, index, id) implies ids.contains(id) && id
        != ids.last() by {
        lemma_drop_last_contains(ids, id);
    }
}

/// What is in a sequence is in its beginning or is its last element; and
/// where nothing occurs twice, the last element is not in the beginning.
proof fn lemma_drop_last_contains(items: Seq<u128>, id: u128)
    requires
        items.len() >= 1,
    ensures
        items.contains(id) <==> items.drop_last().contains(id) || id == items.last(),
        items.no_duplicates() ==> !items.drop_last().contains(items.last()),
{
    let front = items.drop_last();
    if items.contains(id) {
        let at = choose|at: int| 0 <= at < items.len() && items[at] == id;
        if at < front.len() {
            assert(front[at] == id);
        }
    }
    if front.contains(id) {
        let at = choose|at: int| 0 <= at < front.len() && front[at] == id;
        assert(items[at] == id);
    }
    assert(items[items.len() - 1] == items.last());
    if items.no_duplicates() && front.contains(items.last()) {
        let at = choose|at: int| 0 <= at < front.len() && front[at] == items.last();
        assert(items[at] == items[items.len() - 1]);
    }
}

/// What is in a sequence is in its first part or in the rest; and where
/// nothing occurs twice, it is not in both.
proof fn lemma_split_contains(items: Seq<u128>, head: int, id: u128)
    requires
        0 <= head <= items.len(),
    ensures
        items.contains(id) <==> items.take(head).contains(id) || items.skip(head).contains(id),
        items.no_duplicates() ==> !(items.take(head).contains(id) && items.skip(head).contains(
            id,
        )),
{
    let front = items.take(head);
    let back = items.skip(head);
    if items.contains(id) {
        let at = choose|at: int| 0 <= at < items.len() && items[at] == id;
        if at < head {
            assert(front[at] == id);
        } else {
            assert(back[at - head] == id);
        }
    }
    if front.contains(id) {
        let at = choose|at: int| 0 <= at < front.len() && front[at] == id;
        assert(items[at] == id);
    }
    if back.contains(id) {
        let at = choose|at: int| 0 <= at < back.len() && back[at] == id;
        assert(items[head + at] == id);
    }
    if items.no_duplicates() && front.contains(id) && back.contains(id) {
        let first = choose|at: int| 0 <= at < front.len() && front[at] == id;
        let second = choose|at: int| 0 <= at < back.len() && back[at] == id;
        assert(items[first] == items[head + second]);
    }
}

/// The roots of trees are among the trees' identifiers, and no two of them
/// are the same.
proof fn lemma_roots_distinct(trees: Seq<PlanTree>, ids: Seq<u128>)
    requires
        ids.len() == total_size(trees),
        ids.no_duplicates(),
    ensures
        roots(trees, ids).len() == trees.len(),
        roots(trees, ids).no_duplicates(),
        forall|i: int| 0 <= i < trees.len() ==> ids.contains(#[trigger] roots(trees, ids)[i]),
{
    let named = roots(trees, ids);
    lemma_roots_len(trees, ids);
    assert forall|i: int| 0 <= i < trees.len() implies ids.contains(#[trigger] named[i]) by {
        lemma_root_place(trees, ids, i);
        assert(ids[root_place(trees, i)] == named[i]);
    }
    assert forall|i: int, j: int|
        0 <= i < named.len() && 0 <= j < named.len() && i != j implies named[i] != named[j] by {
        lemma_root_place(trees, ids, i);
        lemma_root_place(trees, ids, j);
        if i < j {
            lemma_places_grow(trees, i, j);
        } else {
            lemma_places_grow(trees, j, i);
        }
    }
}

/// A task that is named once among a few tasks is named once among more,
/// where the few are as they were and none of the others names it.
proof fn lemma_named_once_wider(
    inner: Map<u128, TaskRecord>,
    outer: Map<u128, TaskRecord>,
    few: Seq<u128>,
    all: Seq<u128>,
    id: u128,
)
    requires
        named_once(inner, few, id),
        forall|p: u128| #[trigger] few.contains(p) ==> all.contains(p) && inner.contains_key(p)
            && outer.contains_key(p) && outer[p] == inner[p],
        forall|p: u128, at: int|
            #![trigger names(outer, p, at, id)]
            all.contains(p) && !few.contains(p) ==> !names(outer, p, at, id),
    ensures
        named_once(outer, all, id),
{
    let (parent, index) = choose|parent: u128, index: int|
        #![trigger names(inner, parent, index, id)]
        few.contains(parent) && names(inner, parent, index, id) && forall|other: u128, at: int|
            #![trigger names(inner, other, at, id)]
            few.contains(other) && names(inner, other, at, id) ==> other == parent && at
                == index;
    assert(names(outer, parent, index, id));
    assert forall|other: u128, at: int|
        #![trigger names(outer, other, at, id)]
        all.contains(other) && names(outer, other, at, id) implies other == parent && at
        == index by {
        if few.contains(other) {
            assert(names(inner, other, at, id));
        }
    }
}

/// The tasks made for a tree name only tasks made for it, the root's
/// excepted, and each of those is named once.
proof fn lemma_named(tasks: Map<u128, TaskRecord>, plan: TaskPlan, tree: PlanTree, ids: Seq<u128>)
    requires
        ids.len() == tree.size(),
        unused(tasks, ids),
    ensures
        forall|p: u128, at: int, id: u128|
            #![trigger names(planted(tasks, plan, tree, ids), p, at, id)]
            ids.contains(p) && names(planted(tasks, plan, tree, ids), p, at, id)
                ==> ids.drop_last().contains(id),
        forall|id: u128|
            ids.drop_last().contains(id) ==> #[trigger] named_once(
                planted(tasks, plan, tree, ids),
                ids,
                id,
            ),
    decreases tree, 1nat,
{
    let after = planted(tasks, plan, tree, ids);
    let below = ids.drop_last();
    let last = ids.last();
    let kids = tree.children();
    let mid = match tree {
        PlanTree::Command { .. } => tasks,
        PlanTree::TaskGroup { parallel } => planted_all(tasks, plan, parallel, below),
        PlanTree::TaskList { serial } => planted_all(tasks, plan, serial, below),
    };
    let named = roots(kids, below);
    match tree {
        PlanTree::Command { .. } => {
            assert(below.len() == 0);
            assert(after[last].spec.children().len() == 0);
            assert forall|p: u128, at: int, id: u128|
                #![trigger names(after, p, at, id)]
                ids.contains(p) && names(after, p, at, id) implies below.contains(id) by {
                lemma_drop_last_contains(ids, p);
            }
        },
        _ => {
            match tree {
                PlanTree::Command { .. } => {},
                PlanTree::TaskGroup { parallel } => {
                    lemma_planted_all(tasks, plan, parallel, below);
                    lemma_named_all(tasks, plan, parallel, below);
                },
                PlanTree::TaskList { serial } => {
                    lemma_planted_all(tasks, plan, serial, below);
                    lemma_named_all(tasks, plan, serial, below);
                },
            }
            lemma_last_is_new(tasks, mid, ids);
            lemma_roots_distinct(kids, below);
            assert(after[last].spec.children() == named);
            assert forall|p: u128| #[trigger] below.contains(p) implies ids.contains(p)
                && mid.contains_key(p) && after.contains_key(p) && after[p] == mid[p] by {
                lemma_drop_last_contains(ids, p);
                assert(below.to_set().contains(p));
                assert(mid.dom().contains(p));
            }
            assert forall|p: u128, at: int, id: u128|
                #![trigger names(after, p, at, id)]
                ids.contains(p) && names(after, p, at, id) implies below.contains(id) by {
                lemma_drop_last_contains(ids, p);
                if p == last {
                    lemma_drop_last_contains(ids, named[at]);
                } else {
                    assert(names(mid, p, at, id));
                }
            }
            assert forall|id: u128| below.contains(id) implies #[trigger] named_once(
                after,
                ids,
                id,
            ) by {
                if named.contains(id) {
                    let index = choose|index: int| 0 <= index < named.len() && named[index] == id;
                    assert(ids[ids.len() - 1] == last);
                    assert(names(after, last, index, id));
                    assert forall|other: u128, at: int|
                        #![trigger names(after, other, at, id)]
                        ids.contains(other) && names(after, other, at, id) implies other == last
                        && at == index by {
                        lemma_drop_last_contains(ids, other);
                        if other != last {
                            assert(names(mid, other, at, id));
                        }
                    }
                } else {
                    assert forall|p: u128, at: int|
                        #![trigger names(after, p, at, id)]
                        ids.contains(p) && !below.contains(p) implies !names(after, p, at, id) by {
                        lemma_drop_last_contains(ids, p);
                        if names(after, p, at, id) {
                            assert(named[at] == id);
                        }
                    }
                    lemma_named_once_wider(mid, after, below, ids, id);
                }
            }
        },
    }
}

/// The tasks made for a sequence of trees name only tasks made for them,
/// the roots excepted, and each of those is named once.
proof fn lemma_named_all(
    tasks: Map<u128, TaskRecord>,
    plan: TaskPlan,
    trees: Seq<PlanTree>,
    ids: Seq<u128>,
)
    requires
        ids.len() == total_size(trees),
        unused(tasks, ids),
    ensures
        forall|p: u128, at: int, id: u128|
            #![trigger names(planted_all(tasks, plan, trees, ids), p, at, id)]
            ids.contains(p) && names(planted_all(tasks, plan, trees, ids), p, at, id)
                ==> ids.contains(id) && !roots(trees, ids).contains(id),
        forall|id: u128|
            ids.contains(id) && !roots(trees, ids).contains(id) ==> #[trigger] named_once(
                planted_all(tasks, plan, trees, ids),
                ids,
                id,
            ),
    decreases trees, 0nat,
{
    let after = planted_all(tasks, plan, trees, ids);
    if trees.len() == 0 {
        assert forall|p: u128| !ids.contains(p) by {}
    } else {
        let front = trees.drop_last();
        let head = total_size(front) as int;
        let some = ids.take(head);
        let rest = ids.skip(head);
        let mid = planted_all(tasks, plan, front, some);
        let named = roots(trees, ids);
        let named_front = roots(front, some);
        assert(trees.last().size() >= 1);
        lemma_planted_all(tasks, plan, front, some);
        lemma_named_all(tasks, plan, front, some);
        lemma_unused_rest(tasks, mid, ids, head);
        lemma_planted(mid, plan, trees.last(), rest);
        lemma_named(mid, plan, trees.last(), rest);
        lemma_roots_distinct(front, some);
        assert(rest.last() == ids.last());
        assert(named == named_front.push(ids.last()));
        assert forall|p: u128| #[trigger] some.contains(p) implies ids.contains(p)
            && mid.contains_key(p) && after.contains_key(p) && after[p] == mid[p] by {
            lemma_split_contains(ids, head, p);
            assert(some.to_set().contains(p));
            assert(mid.dom().contains(p));
        }
        assert forall|p: u128| #[trigger] rest.contains(p) implies ids.contains(p)
            && after.contains_key(p) by {
            lemma_split_contains(ids, head, p);
            assert(rest.to_set().contains(p));
            assert(after.dom().contains(p));
        }
        assert forall|id: u128| named.contains(id) implies named_front.contains(id) || id
            == ids.last() by {
            let at = choose|at: int| 0 <= at < named.len() && named[at] == id;
            if at < named_front.len() {
                assert(named_front[at] == id);
            }
        }
        assert forall|p: u128, at: int, id: u128|
            #![trigger names(after, p, at, id)]
            ids.contains(p) && names(after, p, at, id) implies ids.contains(id)
            && !named.contains(id) by {
            lemma_split_contains(ids, head, p);
            lemma_split_contains(ids, head, id);
            lemma_split_contains(ids, head, ids.last());
            lemma_drop_last_contains(rest, id);
            if some.contains(p) {
                assert(names(mid, p, at, id));
                assert(rest.contains(rest.last())) by {
                    assert(rest[rest.len() - 1] == rest.last());
                }
            } else {
                assert(rest.drop_last().contains(id));
                if named_front.contains(id) {
                    let place = choose|place: int|
                        0 <= place < named_front.len() && named_front[place] == id;
                    assert(some.contains(named_front[place]));
                }
            }
        }
        assert forall|id: u128| ids.contains(id) && !named.contains(id) implies #[trigger] named_once(
            after,
            ids,
            id,
        ) by {
            lemma_split_contains(ids, head, id);
            assert(named[named.len() - 1] == ids.last());
            if some.contains(id) {
                assert(!named_front.contains(id)) by {
                    if named_front.contains(id) {
                        let place = choose|place: int|
                            0 <= place < named_front.len() && named_front[place] == id;
                        assert(named[place] == id);
                    }
                }
                assert forall|p: u128, at: int|
                    #![trigger names(after, p, at, id)]
                    ids.contains(p) && !some.contains(p) implies !names(after, p, at, id) by {
                    lemma_split_contains(ids, head, p);
                    if names(after, p, at, id) {
                        lemma_drop_last_contains(rest, id);
                    }
                }
                lemma_named_once_wider(mid, after, some, ids, id);
            } else {
                lemma_drop_last_contains(rest, id);
                assert(rest.drop_last().contains(id));
                assert forall|p: u128, at: int|
                    #![trigger names(after, p, at, id)]
                    ids.contains(p) && !rest.contains(p) implies !names(after, p, at, id) by {
                    lemma_split_contains(ids, head, p);
                    if names(after, p, at, id) {
                        assert(names(mid, p, at, id));
                    }
                }
                lemma_named_once_wider(after, after, rest, ids, id);
            }
        }
    }
}

/// Tasks made under new identifiers are as many as the identifiers.
proof fn lemma_count(tasks: Map<u128, TaskRecord>, after: Map<u128, TaskRecord>, ids: Seq<u128>)
    requires
        tasks.dom().finite(),
        unused(tasks, ids),
        after.dom() == tasks.dom().union(ids.to_set()),
    ensures
        after.dom().finite(),
        after.dom().len() == tasks.dom().len() + ids.len(),
{
    ids.unique_seq_to_set();
    vstd::seq_lib::seq_to_set_is_finite(ids);
    assert(tasks.dom().disjoint(ids.to_set())) by {
        assert forall|id: u128| tasks.dom().contains(id) implies !ids.to_set().contains(id) by {
            if ids.contains(id) {
                let at = choose|at: int| 0 <= at < ids.len() && ids[at] == id;
                assert(!tasks.contains_key(ids[at]));
            }
        }
    }
    vstd::set_lib::lemma_set_disjoint_lens(tasks.dom(), ids.to_set());
    vstd::set_lib::lemma_set_union_finite_iff(tasks.dom(), ids.to_set());
}

/// The first trees of a sequence have no more nodes than all of them.
proof fn lemma_total_size_upto(trees: Seq<PlanTree>, count: int)
    requires
        0 <= count <= trees.len(),
    ensures
        total_size(trees.take(count)) <= total_size(trees),
    decreases trees.len() - count,
{
    if count < trees.len() {
        lemma_total_size_next(trees, count);
        lemma_total_size_upto(trees, count + 1);
    } else {
        assert(trees.take(count) =~= trees);
    }
}

/// The tasks made for a tree are new, and mirror it: the tasks afterwards
/// are those before and one pending task of the plan under each
/// identifier, and the task of the root mirrors the tree.
proof fn lemma_planted(tasks: Map<u128, TaskRecord>, plan: TaskPlan, tree: PlanTree, ids: Seq<u128>)
    requires
        ids.len() == tree.size(),
        unused(tasks, ids),
    ensures
        grown(tasks, planted(tasks, plan, tree, ids), plan),
        planted(tasks, plan, tree, ids).dom() == tasks.dom().union(ids.to_set()),
        mirrors(planted(tasks, plan, tree, ids), ids.last(), plan, tree),
    decreases tree, 1nat,
{
    let after = planted(tasks, plan, tree, ids);
    let below = ids.drop_last();
    let last = ids.last();
    let mid = match tree {
        PlanTree::Command { .. } => tasks,
        PlanTree::TaskGroup { parallel } => planted_all(tasks, plan, parallel, below),
        PlanTree::TaskList { serial } => planted_all(tasks, plan, serial, below),
    };
    match tree {
        PlanTree::Command { .. } => {
            assert(below.to_set() =~= Set::<u128>::empty());
            assert(mid.dom() =~= tasks.dom().union(below.to_set()));
        },
        PlanTree::TaskGroup { parallel } => {
            lemma_planted_all(tasks, plan, parallel, below);
        },
        PlanTree::TaskList { serial } => {
            lemma_planted_all(tasks, plan, serial, below);
        },
    }
    lemma_last_is_new(tasks, mid, ids);
    assert(ids.to_set() =~= below.to_set().insert(last)) by {
        assert(ids =~= below + seq![last]);
        vstd::seq_lib::seq_to_set_distributes_over_add(below, seq![last]);
        assert(seq![last].to_set() =~= set![last]) by {
            assert(seq![last][0] == last);
        }
    }
    assert(after.dom() =~= tasks.dom().union(ids.to_set()));
    assert(keeps_shapes(mid, after));
    match tree {
        PlanTree::Command { .. } => {},
        PlanTree::TaskGroup { parallel } => {
            lemma_mirror_all_stay(mid, after, roots(parallel, below), plan, parallel);
        },
        PlanTree::TaskList { serial } => {
            lemma_mirror_all_stay(mid, after, roots(serial, below), plan, serial);
        },
    }
    assert forall|id: u128| #[trigger]
        after.contains_key(id) && !tasks.contains_key(id) implies names_stored(after, id) by {
        if id == last {
            let named = after[id].spec.children();
            assert forall|i: int| 0 <= i < named.len() implies after.contains_key(
                #[trigger] named[i],
            ) by {
                match tree {
                    PlanTree::Command { .. } => {},
                    PlanTree::TaskGroup { parallel } => {
                        assert(mirrors(after, named[i], plan, parallel[i]));
                    },
                    PlanTree::TaskList { serial } => {
                        assert(mirrors(after, named[i], plan, serial[i]));
                    },
                }
            }
        } else {
            assert(mid.contains_key(id));
            assert(names_stored(mid, id));
            assert(after[id] == mid[id]);
            let named = after[id].spec.children();
            assert forall|i: int| 0 <= i < named.len() implies after.contains_key(
                #[trigger] named[i],
            ) by {
                assert(mid.contains_key(mid[id].spec.children()[i]));
            }
        }
    }
}

/// The same for a sequence of trees, whose roots mirror them one for one.
proof fn lemma_planted_all(
    tasks: Map<u128, TaskRecord>,
    plan: TaskPlan,
    trees: Seq<PlanTree>,
    ids: Seq<u128>,
)
    requires
        ids.len() == total_size(trees),
        unused(tasks, ids),
    ensures
        grown(tasks, planted_all(tasks, plan, trees, ids), plan),
        planted_all(tasks, plan, trees, ids).dom() == tasks.dom().union(ids.to_set()),
        mirror_all(planted_all(tasks, plan, trees, ids), roots(trees, ids), plan, trees),
    decreases trees, 0nat,
{
    lemma_roots_len(trees, ids);
    if trees.len() == 0 {
        assert(ids.to_set() =~= Set::<u128>::empty());
        assert(tasks.dom().union(ids.to_set()) =~= tasks.dom());
    } else {
        let head = total_size(trees.drop_last()) as int;
        let front = ids.take(head);
        let back = ids.skip(head);
        let mid = planted_all(tasks, plan, trees.drop_last(), front);
        let after = planted_all(tasks, plan, trees, ids);
        lemma_planted_all(tasks, plan, trees.drop_last(), front);
        lemma_unused_rest(tasks, mid, ids, head);
        lemma_planted(mid, plan, trees.last(), back);
        lemma_grown_twice(tasks, mid, after, plan);
        assert(after.dom() =~= tasks.dom().union(ids.to_set())) by {
            assert(ids =~= front + back);
            vstd::seq_lib::seq_to_set_distributes_over_add(front, back);
        }
        assert(keeps_shapes(mid, after));
        lemma_mirror_all_stay(mid, after, roots(trees.drop_last(), front), plan, trees.drop_last());
        lemma_roots_len(trees.drop_last(), front);
        assert(trees.last().size() >= 1);
        assert(back.last() == ids.last());
        let named = roots(trees, ids);
        assert forall|i: int| 0 <= i < trees.len() implies mirrors(
            after,
            named[i],
            plan,
            #[trigger] trees[i],
        ) by {
            if i < trees.len() - 1 {
                assert(trees[i] == trees.drop_last()[i]);
                assert(named[i] == roots(trees.drop_last(), front)[i]);
            } else {
                assert(trees[i] == trees.last());
            }
        }
    }
}

/// Of identifiers that are new, those after the first `head` are still
/// new when tasks have been made with the first `head`.
proof fn lemma_unused_rest(tasks: Map<u128, TaskRecord>, mid: Map<u128, TaskRecord>, ids: Seq<u128>, head: int)
    requires
        0 <= head <= ids.len(),
        unused(tasks, ids),
        mid.dom() == tasks.dom().union(ids.take(head).to_set()),
    ensures
        unused(mid, ids.skip(head)),
{
    let front = ids.take(head);
    let back = ids.skip(head);
    assert forall|i: int| 0 <= i < back.len() implies !mid.contains_key(#[trigger] back[i]) by {
        assert(back[i] == ids[head + i]);
        if front.contains(back[i]) {
            let at = choose|at: int| 0 <= at < front.len() && front[at] == back[i];
            assert(ids[at] == ids[head + i]);
        }
        assert(!tasks.contains_key(ids[head + i]));
        if mid.contains_key(back[i]) {
            assert(mid.dom().contains(back[i]));
        }
    }
    assert forall|i: int, j: int|
        0 <= i < back.len() && 0 <= j < back.len() && i != j implies back[i] != back[j] by {
        assert(back[i] == ids[head + i]);
        assert(back[j] == ids[head + j]);
    }
}

/// The last of new identifiers names nothing among the tasks made with
/// the others.
proof fn lemma_last_is_new(tasks: Map<u128, TaskRecord>, mid: Map<u128, TaskRecord>, ids: Seq<u128>)
    requires
        ids.len() >= 1,
        unused(tasks, ids),
        mid.dom() == tasks.dom().union(ids.drop_last().to_set()),
    ensures
        !mid.contains_key(ids.last()),
        !tasks.contains_key(ids.last()),
{
    let below = ids.drop_last();
    if below.contains(ids.last()) {
        let at = choose|at: int| 0 <= at < below.len() && below[at] == ids.last();
        assert(ids[at] == ids[ids.len() - 1]);
    }
    assert(!tasks.contains_key(ids[ids.len() - 1]));
    if mid.contains_key(ids.last()) {
        assert(mid.dom().contains(ids.last()));
    }
}

/// Tasks that mirror a tree go on doing so as long as they keep their
/// shapes.
proof fn lemma_mirrors_stay(
    before: Map<u128, TaskRecord>,
    after: Map<u128, TaskRecord>,
    id: u128,
    plan: TaskPlan,
    tree: PlanTree,
)
    requires
        mirrors(before, id, plan, tree),
        keeps_shapes(before, after),
    ensures
        mirrors(after, id, plan, tree),
    decreases tree, 1nat,
{
    match tree {
        PlanTree::Command { .. } => {},
        PlanTree::TaskGroup { parallel } => {
            lemma_mirror_all_stay(before, after, before[id].spec->parallel, plan, parallel);
        },
        PlanTree::TaskList { serial } => {
            lemma_mirror_all_stay(before, after, before[id].spec->serial, plan, serial);
        },
    }
}

/// The same for a sequence of trees.
proof fn lemma_mirror_all_stay(
    before: Map<u128, TaskRecord>,
    after: Map<u128, TaskRecord>,
    ids: Seq<u128>,
    plan: TaskPlan,
    trees: Seq<PlanTree>,
)
    requires
        mirror_all(before, ids, plan, trees),
        keeps_shapes(before, after),
    ensures
        mirror_all(after, ids, plan, trees),
    decreases trees, 0nat,
{
    assert forall|i: int| 0 <= i < trees.len() implies mirrors(
        after,
        ids[i],
        plan,
        #[trigger] trees[i],
    ) by {
        lemma_mirrors_stay(before, after, ids[i], plan, trees[i]);
    }
}

/// Where, among the identifiers of all the trees, the root of the
/// `index`-th tree stands: at the end of that tree's own.
pub open spec fn root_place(trees: Seq<PlanTree>, index: int) -> int {
    total_size(trees.take(index + 1)) - 1
}

/// One more tree has at least one more node.
proof fn lemma_total_size_next(trees: Seq<PlanTree>, count: int)
    requires
        0 <= count < trees.len(),
    ensures
        total_size(trees.take(count + 1)) == total_size(trees.take(count)) + trees[count].size(),
        trees[count].size() >= 1,
{
    assert(trees.take(count + 1).drop_last() =~= trees.take(count));
    assert(trees.take(count + 1).last() == trees[count]);
}

/// The roots of later trees stand later.
proof fn lemma_places_grow(trees: Seq<PlanTree>, first: int, second: int)
    requires
        0 <= first < second < trees.len(),
    ensures
        root_place(trees, first) < root_place(trees, second),
    decreases second - first,
{
    lemma_total_size_next(trees, second);
    if first + 1 < second {
        lemma_places_grow(trees, first, second - 1);
    }
}

/// The root of each tree is the identifier at the root's place.
proof fn lemma_root_place(trees: Seq<PlanTree>, ids: Seq<u128>, index: int)
    requires
        ids.len() == total_size(trees),
        0 <= index < trees.len(),
    ensures
        0 <= root_place(trees, index) < ids.len(),
        roots(trees, ids).len() == trees.len(),
        roots(trees, ids)[index] == ids[root_place(trees, index)],
    decreases trees.len(),
{
    let front = trees.drop_last();
    let head = total_size(front) as int;
    let last = trees.len() - 1;
    lemma_roots_len(trees, ids);
    lemma_roots_len(front, ids.take(head));
    lemma_total_size_next(trees, last);
    assert(trees.take(last) =~= front);
    assert(trees.take(last + 1) =~= trees);
    if index < last {
        lemma_root_place(front, ids.take(head), index);
        assert(front.take(index + 1) =~= trees.take(index + 1));
    }
}

/// One root is named for each tree.
proof fn lemma_roots_len(trees: Seq<PlanTree>, ids: Seq<u128>)
    ensures
        roots(trees, ids).len() == trees.len(),
    decreases trees.len(),
{
    if trees.len() > 0 {
        lemma_roots_len(trees.drop_last(), ids.take(total_size(trees.drop_last()) as int));
    }
}

/// Registers the task of one node under a newly drawn identifier.
fn plant_root(server: &mut Server, plan: TaskPlan, spec: TaskSpec) -> (r: Result<Task, Error>)
    requires
        old(server).wf(),
    ensures
        final(server).wf(),
        match r {
            Ok(task) => {
                &&& is_random(task.id)
                &&& !old(server)@.tasks.contains_key(task.id)
                &&& task@ == TaskRecord::created(Some(plan), spec@).shown(task.id)
                &&& final(server)@ == (ServerView {
                    tasks: old(server)@.tasks.insert(
                        task.id,
                        TaskRecord::created(Some(plan), spec@),
                    ),
                    ..old(server)@
                })
            },
            Err(error) => {
                &&& error is IdInUse
                &&& is_random(error->IdInUse_0)
                &&& old(server)@.tasks.contains_key(error->IdInUse_0)
                &&& final(server)@ == old(server)@
            },
        },
{
    let id = fresh_id();
    server.insert_task(id, Some(plan), spec)
}

/// Materializes one tree, and tells which identifiers it used.
fn plant(server: &mut Server, plan: TaskPlan, spec: &PlanSpec) -> (r: Result<
    (Task, Ghost<Seq<u128>>),
    Error,
>)
    requires
        old(server).wf(),
    ensures
        final(server).wf(),
        final(server)@ == (ServerView { tasks: final(server)@.tasks, ..old(server)@ }),
        grown(old(server)@.tasks, final(server)@.tasks, plan),
        match r {
            Ok((task, ids)) => plants(
                old(server)@.tasks,
                final(server)@.tasks,
                plan,
                spec@,
                ids@,
                task@,
            ),
            Err(error) => refused(old(server)@.tasks, final(server)@.tasks, spec@.size(), error),
        },
    decreases spec, 1nat,
{
    let ghost before = server@.tasks;
    let (shape, Ghost(below)) = match spec {
        PlanSpec::Command { args } => {
            let copy = args.clone();
            proof {
                assert(texts(copy@) =~= texts(args@));
                assert(Seq::<u128>::empty().to_set() =~= Set::<u128>::empty());
                assert(before.dom().union(Set::<u128>::empty()) =~= before.dom());
            }
            (TaskSpec::Command { args: copy }, Ghost(Seq::<u128>::empty()))
        },
        PlanSpec::TaskGroup { parallel } => {
            let (children, used) = match plant_all(server, plan, parallel) {
                Ok(made) => made,
                Err(error) => {
                    return Err(error);
                },
            };
            proof {
                lemma_planted_all(before, plan, forest(parallel@), used@);
                lemma_count(before, server@.tasks, used@);
            }
            (TaskSpec::TaskGroup { parallel: children }, used)
        },
        PlanSpec::TaskList { serial } => {
            let (children, used) = match plant_all(server, plan, serial) {
                Ok(made) => made,
                Err(error) => {
                    return Err(error);
                },
            };
            proof {
                lemma_planted_all(before, plan, forest(serial@), used@);
                lemma_count(before, server@.tasks, used@);
            }
            (TaskSpec::TaskList { serial: children }, used)
        },
    };
    let ghost mid = server@.tasks;
    match plant_root(server, plan, shape) {
        Ok(task) => {
            let ghost ids = below.push(task.id);
            proof {
                assert(ids.drop_last() =~= below);
                assert(ids.last() == task.id);
                lemma_unused_push(before, mid, below, task.id);
                lemma_planted(before, plan, spec@, ids);
            }
            Ok((task, Ghost(ids)))
        },
        Err(error) => Err(error),
    }
}

/// Identifiers that are new stay new with one more that names nothing yet.
proof fn lemma_unused_push(
    before: Map<u128, TaskRecord>,
    mid: Map<u128, TaskRecord>,
    ids: Seq<u128>,
    id: u128,
)
    requires
        unused(before, ids),
        mid.dom() == before.dom().union(ids.to_set()),
        !mid.contains_key(id),
    ensures
        unused(before, ids.push(id)),
{
    let longer = ids.push(id);
    assert(!ids.contains(id)) by {
        if ids.contains(id) {
            assert(ids.to_set().contains(id));
            assert(mid.dom().contains(id));
        }
    }
    assert(!before.contains_key(id)) by {
        if before.contains_key(id) {
            assert(mid.dom().contains(id));
        }
    }
    assert forall|i: int, j: int|
        0 <= i < longer.len() && 0 <= j < longer.len() && i != j implies longer[i]
        != longer[j] by {
        if i < ids.len() && j < ids.len() {
        } else if i < ids.len() {
            assert(ids.contains(ids[i]));
        } else {
            assert(ids.contains(ids[j]));
        }
    }
}

/// Identifiers that are new stay new with more of them that name nothing
/// yet.
proof fn lemma_unused_append(
    before: Map<u128, TaskRecord>,
    mid: Map<u128, TaskRecord>,
    ids: Seq<u128>,
    more: Seq<u128>,
)
    requires
        unused(before, ids),
        mid.dom() == before.dom().union(ids.to_set()),
        unused(mid, more),
    ensures
        unused(before, ids + more),
{
    let all = ids + more;
    assert forall|i: int| 0 <= i < all.len() implies !before.contains_key(#[trigger] all[i]) by {
        if i >= ids.len() {
            assert(all[i] == more[i - ids.len()]);
            if before.contains_key(all[i]) {
                assert(mid.dom().contains(all[i]));
            }
        }
    }
    assert forall|i: int, j: int|
        0 <= i < all.len() && 0 <= j < all.len() && i != j implies all[i] != all[j] by {
        if i < ids.len() && j < ids.len() {
        } else if i >= ids.len() && j >= ids.len() {
            assert(all[i] == more[i - ids.len()]);
            assert(all[j] == more[j - ids.len()]);
        } else if i < ids.len() {
            assert(all[j] == more[j - ids.len()]);
            assert(ids.to_set().contains(ids[i]));
            assert(mid.dom().contains(ids[i]));
        } else {
            assert(all[i] == more[i - ids.len()]);
            assert(ids.to_set().contains(ids[j]));
            assert(mid.dom().contains(ids[j]));
        }
    }
}

/// Materializes the trees in order, and tells their roots and which
/// identifiers it used.
fn plant_all(server: &mut Server, plan: TaskPlan, specs: &Vec<PlanSpec>) -> (r: Result<
    (Vec<u128>, Ghost<Seq<u128>>),
    Error,
>)
    requires
        old(server).wf(),
    ensures
        final(server).wf(),
        final(server)@ == (ServerView { tasks: final(server)@.tasks, ..old(server)@ }),
        grown(old(server)@.tasks, final(server)@.tasks, plan),
        match r {
            Ok((children, ids)) => plants_all(
                old(server)@.tasks,
                final(server)@.tasks,
                plan,
                forest(specs@),
                ids@,
                children@,
            ),
            Err(error) => refused(
                old(server)@.tasks,
                final(server)@.tasks,
                total_size(forest(specs@)),
                error,
            ),
        },
    decreases specs, 0nat,
{
    let ghost before = server@;
    let ghost trees = forest(specs@);
    let mut children: Vec<u128> = Vec::new();
    let ghost mut used: Seq<u128> = Seq::empty();
    let mut i: usize = 0;
    proof {
        assert(trees.take(0) =~= Seq::<PlanTree>::empty());
    }
    while i < specs.len()
        invariant
            i <= specs.len(),
            trees == forest(specs@),
            before == old(server)@,
            before.tasks.dom().finite(),
            server.wf(),
            server@ == (ServerView { tasks: server@.tasks, ..before }),
            grown(before.tasks, server@.tasks, plan),
            plants_all(before.tasks, server@.tasks, plan, trees.take(i as int), used, children@),
        decreases specs.len() - i,
    {
        let ghost mid = server@.tasks;
        let ghost part = trees.take(i as int);
        let (task, Ghost(more)) = match plant(server, plan, &specs[i]) {
            Ok(done) => done,
            Err(error) => {
                proof {
                    lemma_grown_twice(before.tasks, mid, server@.tasks, plan);
                    lemma_planted_all(before.tasks, plan, part, used);
                    lemma_count(before.tasks, mid, used);
                    lemma_total_size_next(trees, i as int);
                    lemma_total_size_upto(trees, i as int + 1);
                    assert(trees[i as int] == specs@[i as int]@);
                }
                return Err(error);
            },
        };
        children.push(task.id);
        proof {
            let next = trees.take(i as int + 1);
            let all = used + more;
            assert(next.drop_last() =~= part);
            assert(next.last() == specs@[i as int]@);
            assert(all.take(used.len() as int) =~= used);
            assert(all.skip(used.len() as int) =~= more);
            assert(all.last() == more.last());
            lemma_planted_all(before.tasks, plan, part, used);
            lemma_unused_append(before.tasks, mid, used, more);
            lemma_grown_twice(before.tasks, mid, server@.tasks, plan);
            assert forall|k: int| 0 <= k < all.len() implies is_random(#[trigger] all[k]) by {
                if k >= used.len() {
                    assert(all[k] == more[k - used.len()]);
                }
            }
            used = all;
        }
        i = i + 1;
    }
    proof {
        assert(trees.take(i as int) =~= trees);
    }
    Ok((children, Ghost(used)))
}

/// Growing twice is growing.
proof fn lemma_grown_twice(
    first: Map<u128, TaskRecord>,
    second: Map<u128, TaskRecord>,
    third: Map<u128, TaskRecord>,
    plan: TaskPlan,
)
    requires
        grown(first, second, plan),
        grown(second, third, plan),
    ensures
        grown(first, third, plan),
{
    assert forall|id: u128| #[trigger] first.contains_key(id) implies third.contains_key(id)
        && third[id] == first[id] by {
        assert(second.contains_key(id));
    }
    assert forall|id: u128| #[trigger]
        third.contains_key(id) && !first.contains_key(id) implies third[id].plan == Some(plan)
        && third[id].status == TaskStatus::Pending && third[id].wf() by {
        if second.contains_key(id) {
            assert(third[id] == second[id]);
        }
    }
}

/// A draw is refused only where an identifier marked random is in use:
/// either one was in use before, or a task was made before the refusal.
proof fn lemma_refusal_needs_a_taken_id(
    before: Map<u128, TaskRecord>,
    after: Map<u128, TaskRecord>,
    plan: TaskPlan,
    size: nat,
    error: Error,
)
    requires
        before.dom().finite(),
        after.dom().finite(),
        grown(before, after, plan),
        refused(before, after, size, error),
    ensures
        holds_random(after.dom()),
        size == 1 ==> after == before && holds_random(before.dom()),
{
    let id = error->IdInUse_0;
    assert(after.dom().contains(id));
    if size == 1 {
        assert(before.dom().subset_of(after.dom())) by {
            assert forall|k: u128| before.dom().contains(k) implies after.dom().contains(k) by {
                assert(before.contains_key(k));
            }
        }
        vstd::set_lib::lemma_len_subset(before.dom(), after.dom());
        vstd::set_lib::lemma_subset_equality(before.dom(), after.dom());
        assert(before.dom().contains(id));
        assert(after =~= before) by {
            assert forall|k: u128| before.contains_key(k) implies after[k] == before[k] by {}
        }
    }
}

/// Tasks that have only grown have evolved.
proof fn lemma_grown_evolves(before: Map<u128, TaskRecord>, after: Map<u128, TaskRecord>, plan: TaskPlan)
    requires
        grown(before, after, plan),
    ensures
        evolves(before, after),
{
    assert forall|id: u128| #[trigger] before.contains_key(id) implies after.contains_key(id)
        && after[id].follows(before[id]) by {
        assert(after[id] == before[id]);
    }
}

/// Materializes `spec` for the plan `plan`: makes one pending task for
/// every node of the tree, each under an identifier that is drawn for it
/// and was not in use, the children of a node before the node itself and in
/// their order, and answers the task of the root. A composite's task names
/// the tasks of its children, in order. An empty composite is made like any
/// other, with no children.
///
/// Should a drawn identifier be in use, materializing stops with
/// `IdInUse`, which names it; the tasks made until then stay, pending, and
/// are fewer than the tree has nodes. Only identifiers marked random are
/// drawn: a tree of one node is always materialized where the store holds no
/// such identifier.
pub fn task(server: &mut Server, plan: TaskPlan, spec: PlanSpec) -> (r: Result<Task, Error>)
    requires
        old(server).wf(),
    ensures
        final(server).wf(),
        final(server)@ == (ServerView { tasks: final(server)@.tasks, ..old(server)@ }),
        grown(old(server)@.tasks, final(server)@.tasks, plan),
        evolves(old(server)@.tasks, final(server)@.tasks),
        match r {
            Ok(task) => exists|ids: Seq<u128>| #[trigger]
                plants(old(server)@.tasks, final(server)@.tasks, plan, spec@, ids, task@),
            Err(error) => refused(old(server)@.tasks, final(server)@.tasks, spec@.size(), error),
        },
        !holds_random(old(server)@.tasks.dom()) && spec@.size() == 1 ==> r is Ok,
{
    let ghost before = server@.tasks;
    let r = plant(server, plan, &spec);
    proof {
        lemma_grown_evolves(before, server@.tasks, plan);
        if let Err(error) = r {
            lemma_refusal_needs_a_taken_id(before, server@.tasks, plan, spec@.size(), error);
        }
    }
    match r {
        Ok((task, ids)) => {
            assert(plants(before, server@.tasks, plan, spec@, ids@, task@));
            Ok(task)
        },
        Err(error) => Err(error),
    }
}

} // verus!
