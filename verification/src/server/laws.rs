//! What holds of the scheduler whatever is asked of it, and in whatever
//! order.

use vstd::prelude::*;
use crate::error::{Error, ExitStatus};
use crate::server::run::{
    begun, branch_failed, exited, first_failed, granted, grants, group_from, group_verdict,
    group_waits, in_flight, is_over, list_from, resumed, settled, start_answer, started,
    started_all, wait_answer, RunnerView,
};
use crate::server::{evolves, ServerError, TaskRecord};
use crate::tasks::{TaskStateView, TaskStatus};

verus! {

/// The states of the tasks form an order: each state is a later state of
/// itself, and a later state of a later state is a later state. So what
/// holds from one step to the next holds over any number of steps.
pub proof fn evolves_is_an_order(
    first: Map<u128, TaskRecord>,
    second: Map<u128, TaskRecord>,
    third: Map<u128, TaskRecord>,
)
    ensures
        evolves(first, first),
        evolves(first, second) && evolves(second, third) ==> evolves(first, third),
{
    if evolves(first, second) && evolves(second, third) {
        assert forall|id: u128| #[trigger] first.contains_key(id) implies third.contains_key(id)
            && third[id].follows(first[id]) by {
            assert(second.contains_key(id));
            assert(second[id].follows(first[id]));
            assert(third[id].follows(second[id]));
        }
    }
}

/// A settled task never changes its status again: in every later state it
/// is still there, with the status and the error it settled with, and its
/// end still signalled.
pub proof fn settled_is_final(before: Map<u128, TaskRecord>, after: Map<u128, TaskRecord>, id: u128)
    requires
        evolves(before, after),
        before.contains_key(id),
        before[id].status.is_settled(),
    ensures
        after.contains_key(id),
        after[id].status == before[id].status,
        after[id].error == before[id].error,
        before[id].finished ==> after[id].finished,
{
}

/// A task's end is signalled once: in any state after the task has
/// settled, settling it again signals nothing and changes nothing, and so
/// does the end of its process.
pub proof fn end_is_signalled_once(
    before: Map<u128, TaskRecord>,
    after: Map<u128, TaskRecord>,
    id: u128,
    error: Option<Error>,
    result: Result<ExitStatus, Error>,
)
    requires
        evolves(before, after),
        before.contains_key(id),
        before[id].status.is_settled(),
    ensures
        !in_flight(after, id),
        settled(after, id, error) == after,
        exited(after, id, result) == after,
{
}

/// Settling a task in flight signals its end, and whoever then waits for
/// the task reads how it ended: nothing for a success, the error for a
/// failure. In the state that follows the task is settled, so that a second
/// call finds nothing to do.
pub proof fn settling_settles(tasks: Map<u128, TaskRecord>, id: u128, error: Option<Error>)
    ensures
        in_flight(tasks, id) ==> {
            &&& settled(tasks, id, error)[id].status.is_settled()
            &&& settled(tasks, id, error)[id].finished
            &&& is_over(settled(tasks, id, error), id)
            &&& wait_answer(settled(tasks, id, error), id) == match error {
                None => Ok::<(), Error>(()),
                Some(reason) => Err::<(), Error>(reason),
            }
        },
        !in_flight(settled(tasks, id, error), id),
        settled(settled(tasks, id, error), id, error) == settled(tasks, id, error),
{
}

/// A task is started once: in any state after a task has left `Pending`,
/// a request to start it is refused with `InvalidTaskState`. In particular
/// the second of two requests to start a task is refused.
pub proof fn start_is_granted_once(before: Map<u128, TaskRecord>, after: Map<u128, TaskRecord>, id: u128)
    requires
        before.contains_key(id),
        evolves(started(before, id), after),
    ensures
        start_answer(after, id) == Err::<TaskStateView, ServerError>(
            ServerError::InvalidTaskState(id),
        ),
        started(after, id) == after,
{
    assert(started(before, id).contains_key(id));
    assert(started(before, id)[id].status != TaskStatus::Pending);
}

/// The first failed branch of a group, looked for from `from` on: there is
/// none exactly if no branch from there on has failed, and the one that is
/// found has failed while none between `from` and it has.
pub proof fn first_failed_is_first(
    tasks: Map<u128, TaskRecord>,
    children: Seq<u128>,
    flags: Seq<bool>,
    from: int,
)
    requires
        0 <= from <= children.len(),
        flags.len() == children.len(),
    ensures
        first_failed(tasks, children, flags, from) is None <==> forall|i: int|
            from <= i < children.len() ==> !branch_failed(tasks, #[trigger] children[i], flags[i]),
        first_failed(tasks, children, flags, from) is Some ==> exists|i: int|
            from <= i < children.len() && #[trigger] children[i] == first_failed(
                tasks,
                children,
                flags,
                from,
            )->0 && branch_failed(tasks, children[i], flags[i]) && forall|j: int|
                from <= j < i ==> !branch_failed(tasks, #[trigger] children[j], flags[j]),
    decreases children.len() - from,
{
    if from < children.len() {
        first_failed_is_first(tasks, children, flags, from + 1);
        if branch_failed(tasks, children[from], flags[from]) {
            assert(children[from] == first_failed(tasks, children, flags, from)->0);
        } else {
            if first_failed(tasks, children, flags, from) is Some {
                let at = choose|i: int|
                    from + 1 <= i < children.len() && #[trigger] children[i] == first_failed(
                        tasks,
                        children,
                        flags,
                        from + 1,
                    )->0 && branch_failed(tasks, children[i], flags[i]) && forall|j: int|
                        from + 1 <= j < i ==> !branch_failed(
                            tasks,
                            #[trigger] children[j],
                            flags[j],
                        );
                assert(children[at] == first_failed(tasks, children, flags, from)->0);
            }
        }
    }
}

/// When a group settles, it settles by its children. It is a success
/// exactly if every child was started by the group and has succeeded. It
/// is a failure in every other case, and names a child that was refused or
/// did not succeed.
pub proof fn group_settles_by_its_branches(
    tasks: Map<u128, TaskRecord>,
    task: u128,
    children: Seq<u128>,
    admitted: Seq<bool>,
)
    requires
        admitted.len() == children.len(),
        in_flight(tasks, task),
        !group_waits(tasks, children, admitted),
    ensures
        ({
            let after = resumed(tasks, RunnerView::Group { task, children, admitted }).0;
            &&& after == settled(tasks, task, group_verdict(tasks, children, admitted))
            &&& after[task].status.is_settled()
            &&& after[task].status == TaskStatus::Success <==> forall|i: int|
                0 <= i < children.len() ==> admitted[i] && tasks.contains_key(
                    #[trigger] children[i],
                ) && tasks[children[i]].status == TaskStatus::Success
            &&& after[task].status == TaskStatus::Failure ==> exists|i: int|
                0 <= i < children.len() && after[task].error == Some(
                    Error::TaskFailed(#[trigger] children[i]),
                ) && branch_failed(tasks, children[i], admitted[i])
        }),
{
    first_failed_is_first(tasks, children, admitted, 0);
    let after = resumed(tasks, RunnerView::Group { task, children, admitted }).0;
    if first_failed(tasks, children, admitted, 0) is None {
        assert forall|i: int| 0 <= i < children.len() implies admitted[i] && tasks.contains_key(
            #[trigger] children[i],
        ) && tasks[children[i]].status == TaskStatus::Success by {
            assert(!branch_failed(tasks, children[i], admitted[i]));
        }
    } else {
        let at = choose|i: int|
            0 <= i < children.len() && #[trigger] children[i] == first_failed(
                tasks,
                children,
                admitted,
                0,
            )->0 && branch_failed(tasks, children[i], admitted[i]);
        assert(branch_failed(tasks, children[at], admitted[at]));
        assert(after[task].error == Some(Error::TaskFailed(children[at])));
    }
}

/// A group starts every child that can be started: where its children are
/// pending tasks, no two the same, each of them is started, none is
/// refused, and the group waits for all of them.
pub proof fn group_starts_its_pending_children(
    tasks: Map<u128, TaskRecord>,
    task: u128,
    children: Seq<u128>,
)
    requires
        children.len() > 0,
        children.no_duplicates(),
        forall|i: int|
            0 <= i < children.len() ==> tasks.contains_key(#[trigger] children[i])
                && tasks[children[i]].status == TaskStatus::Pending,
    ensures
        grants(tasks, children).len() == children.len(),
        forall|i: int| 0 <= i < children.len() ==> #[trigger] grants(tasks, children)[i],
        forall|i: int|
            0 <= i < children.len() ==> in_flight(
                started_all(tasks, children),
                #[trigger] children[i],
            ),
        group_from(tasks, task, children) == (
            started_all(tasks, children),
            RunnerView::Group { task, children, admitted: grants(tasks, children) },
        ),
{
    assert forall|i: int| 0 <= i < children.len() implies granted(tasks, children, i) by {
        let before = children.take(i);
        if before.contains(children[i]) {
            let at = choose|at: int| 0 <= at < before.len() && before[at] == children[i];
            assert(children[at] == children[i]);
        }
    }
    assert(grants(tasks, children)[0]);
    assert forall|i: int| 0 <= i < children.len() implies in_flight(
        started_all(tasks, children),
        #[trigger] children[i],
    ) by {
        assert(children.contains(children[i]));
    }
}

/// A group that started every one of its children settles only when all
/// of them have: then it is a success exactly if every child is, and a
/// failure exactly if at least one child is; the children are as they
/// were.
pub proof fn group_mirrors_its_children(
    tasks: Map<u128, TaskRecord>,
    task: u128,
    children: Seq<u128>,
    admitted: Seq<bool>,
)
    requires
        admitted.len() == children.len(),
        forall|i: int| 0 <= i < children.len() ==> admitted[i],
        forall|i: int|
            0 <= i < children.len() ==> tasks.contains_key(#[trigger] children[i])
                && tasks[children[i]].wf(),
        in_flight(tasks, task),
    ensures
        ({
            let step = resumed(tasks, RunnerView::Group { task, children, admitted });
            let after = step.0;
            let all_settled = forall|i: int|
                0 <= i < children.len() ==> tasks[#[trigger] children[i]].status.is_settled();
            &&& !all_settled ==> after == tasks && step.1 == (RunnerView::Group {
                task,
                children,
                admitted,
            })
            &&& all_settled ==> {
                &&& step.1 == (RunnerView::Done { task })
                &&& forall|i: int|
                    0 <= i < children.len() ==> after[#[trigger] children[i]]
                        == tasks[children[i]]
                &&& after[task].status == TaskStatus::Success <==> forall|i: int|
                    0 <= i < children.len() ==> after[#[trigger] children[i]].status
                        == TaskStatus::Success
                &&& after[task].status == TaskStatus::Failure <==> exists|i: int|
                    0 <= i < children.len() && after[#[trigger] children[i]].status
                        == TaskStatus::Failure
            }
        }),
{
    let step = resumed(tasks, RunnerView::Group { task, children, admitted });
    let after = step.0;
    let all_settled = forall|i: int|
        0 <= i < children.len() ==> tasks[#[trigger] children[i]].status.is_settled();
    if all_settled {
        assert(!group_waits(tasks, children, admitted));
        group_settles_by_its_branches(tasks, task, children, admitted);
        assert forall|i: int| 0 <= i < children.len() implies after[#[trigger] children[i]]
            == tasks[children[i]] by {
            assert(tasks[children[i]].status.is_settled());
        }
        if after[task].status == TaskStatus::Failure {
            let at = choose|i: int|
                0 <= i < children.len() && after[task].error == Some(
                    Error::TaskFailed(#[trigger] children[i]),
                ) && branch_failed(tasks, children[i], admitted[i]);
            assert(tasks[children[at]].status.is_settled());
            assert(after[children[at]].status == TaskStatus::Failure);
        }
        if exists|i: int|
            0 <= i < children.len() && after[#[trigger] children[i]].status
                == TaskStatus::Failure {
            let at = choose|i: int|
                0 <= i < children.len() && after[#[trigger] children[i]].status
                    == TaskStatus::Failure;
            assert(tasks[children[at]].status == TaskStatus::Failure);
        }
    } else {
        let at = choose|i: int|
            0 <= i < children.len() && !tasks[#[trigger] children[i]].status.is_settled();
        assert(admitted[at] && !is_over(tasks, children[at]));
        assert(group_waits(tasks, children, admitted));
    }
}

/// Whether a list's run is in order: the child it waits for has been
/// started, and every child before it has succeeded.
pub open spec fn in_order(tasks: Map<u128, TaskRecord>, runner: RunnerView) -> bool {
    runner matches RunnerView::List { children, position, .. } ==> {
        &&& position < children.len()
        &&& tasks.contains_key(children[position as int])
        &&& tasks[children[position as int]].status != TaskStatus::Pending
        &&& forall|j: int|
            0 <= j < position ==> tasks.contains_key(#[trigger] children[j])
                && tasks[children[j]].status == TaskStatus::Success
    }
}

/// A list runs its children in order. When its run begins it has started
/// no child but the first. Each time it is resumed it starts the next
/// child only if the one before has succeeded, so that at every moment all
/// children before the one it waits for have succeeded; and whatever else
/// happens to the tasks in between, that stays so.
pub proof fn list_runs_in_order(
    tasks: Map<u128, TaskRecord>,
    id: u128,
    runner: RunnerView,
    later: Map<u128, TaskRecord>,
)
    ensures
        in_order(begun(tasks, id).0, begun(tasks, id).1),
        in_order(tasks, runner) ==> in_order(resumed(tasks, runner).0, resumed(tasks, runner).1),
        in_order(tasks, runner) && evolves(tasks, later) ==> in_order(later, runner),
{
    if in_order(tasks, runner) && evolves(tasks, later) {
        if let RunnerView::List { children, position, .. } = runner {
            assert(tasks.contains_key(children[position as int]));
            assert forall|j: int| 0 <= j < position implies later.contains_key(
                #[trigger] children[j],
            ) && later[children[j]].status == TaskStatus::Success by {
                assert(tasks.contains_key(children[j]));
            }
        }
    }
    if in_order(tasks, runner) {
        if let RunnerView::List { task, children, position } = runner {
            let child = children[position as int];
            if is_over(tasks, child) && wait_answer(tasks, child) is Ok {
                let next = list_from(tasks, task, children, position + 1);
                if next.1 is List {
                    assert forall|j: int| 0 <= j < position + 1 implies next.0.contains_key(
                        #[trigger] children[j],
                    ) && next.0[children[j]].status == TaskStatus::Success by {
                        assert(tasks.contains_key(children[j]));
                        assert(tasks[children[j]].status == TaskStatus::Success);
                    }
                }
            }
        }
    }
}

/// Of the children that a list has started, none has succeeded before all
/// those ahead of it in the list had: if the child at `index` has
/// succeeded, so has every child before it.
pub proof fn list_children_succeed_in_order(
    tasks: Map<u128, TaskRecord>,
    runner: RunnerView,
    index: int,
    earlier: int,
)
    requires
        runner is List,
        in_order(tasks, runner),
        0 <= earlier < index <= runner->position,
    ensures
        tasks.contains_key(runner->List_children[earlier]),
        tasks[runner->List_children[earlier]].status == TaskStatus::Success,
{
}

/// A list settles by its children: it becomes a success only when its
/// last child has succeeded, with every child before it, and it becomes a
/// failure as soon as the child it waits for has not succeeded. The
/// children after that one are not started.
pub proof fn list_settles_by_its_children(
    tasks: Map<u128, TaskRecord>,
    task: u128,
    children: Seq<u128>,
    position: nat,
)
    requires
        in_order(tasks, RunnerView::List { task, children, position }),
        in_flight(tasks, task),
        tasks[children[position as int]].status.is_settled(),
        tasks[children[position as int]].wf(),
    ensures
        ({
            let step = resumed(tasks, RunnerView::List { task, children, position });
            let after = step.0;
            let child = children[position as int];
            &&& tasks[child].status == TaskStatus::Failure ==> {
                &&& step.1 == (RunnerView::Done { task })
                &&& after == settled(tasks, task, Some(Error::TaskFailed(child)))
                &&& after[task].status == TaskStatus::Failure
                &&& forall|id: u128| id != task && tasks.contains_key(id) ==> after[id] == tasks[id]
            }
            &&& after[task].status == TaskStatus::Success ==> {
                &&& position + 1 == children.len()
                &&& forall|j: int|
                    0 <= j < children.len() ==> after.contains_key(#[trigger] children[j])
                        && after[children[j]].status == TaskStatus::Success
            }
        }),
{
    let step = resumed(tasks, RunnerView::List { task, children, position });
    let after = step.0;
    let child = children[position as int];
    if after[task].status == TaskStatus::Success {
        assert(tasks[child].status == TaskStatus::Success);
        assert forall|j: int| 0 <= j < children.len() implies after.contains_key(
            #[trigger] children[j],
        ) && after[children[j]].status == TaskStatus::Success by {
            if j < position {
                assert(tasks.contains_key(children[j]));
            }
        }
    }
}

} // verus!
