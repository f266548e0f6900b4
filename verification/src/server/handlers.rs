//! What each request does to the store and what it answers. The transport
//! hands over the request's plain values and sends the answer back.

use vstd::prelude::*;
use crate::error::Error;
use crate::ident::{fresh_id, holds_random, is_random};
use crate::plans::{CreatePlan, Plan, PlanView};
use crate::process::{OutputStream, Pull};
use crate::server::plan::{grown, plants};
use crate::server::run::{start_answer, started};
use crate::server::{evolves, Server, ServerError, ServerView, TaskRecord};
use crate::tasks::{CreateTask, Task, TaskPlan, TaskState, TaskStateView};

verus! {

/// Stores a new plan under a newly drawn identifier, at version 0, and
/// answers it. Should the identifier be in use, nothing is stored and the
/// answer is `InternalServerError`. Only identifiers marked random are
/// drawn, so that a store without such a plan never refuses.
pub fn create_plan(server: &mut Server, body: CreatePlan) -> (r: Result<Plan, ServerError>)
    requires
        old(server).wf(),
    ensures
        final(server).wf(),
        match r {
            Ok(plan) => {
                &&& is_random(plan.id)
                &&& !old(server)@.plans.contains_key(plan.id)
                &&& plan@ == (PlanView { id: plan.id, spec: body@, version: 0 })
                &&& final(server)@ == (ServerView {
                    plans: old(server)@.plans.insert(plan.id, plan@),
                    ..old(server)@
                })
            },
            Err(error) => {
                &&& error == ServerError::InternalServerError
                &&& final(server)@ == old(server)@
                &&& holds_random(old(server)@.plans.dom())
            },
        },
        !holds_random(old(server)@.plans.dom()) ==> r is Ok,
{
    let plan = Plan { id: fresh_id(), spec: body.spec, version: 0 };
    match server.insert_plan(plan.clone()) {
        Ok(_) => Ok(plan),
        Err(_) => {
            assert(old(server)@.plans.dom().contains(plan.id));
            Err(ServerError::InternalServerError)
        },
    }
}

/// Stores a new task that belongs to no plan under a newly drawn
/// identifier, pending, and answers it. Should the identifier be in use,
/// nothing is stored and the answer is `InternalServerError`. Only
/// identifiers marked random are drawn, so that a store without such a task
/// never refuses.
pub fn create_task(server: &mut Server, body: CreateTask) -> (r: Result<Task, ServerError>)
    requires
        old(server).wf(),
    ensures
        final(server).wf(),
        evolves(old(server)@.tasks, final(server)@.tasks),
        match r {
            Ok(task) => {
                &&& is_random(task.id)
                &&& !old(server)@.tasks.contains_key(task.id)
                &&& task@ == TaskRecord::created(None, body@).shown(task.id)
                &&& final(server)@ == (ServerView {
                    tasks: old(server)@.tasks.insert(task.id, TaskRecord::created(None, body@)),
                    ..old(server)@
                })
            },
            Err(error) => {
                &&& error == ServerError::InternalServerError
                &&& final(server)@ == old(server)@
                &&& holds_random(old(server)@.tasks.dom())
            },
        },
        !holds_random(old(server)@.tasks.dom()) ==> r is Ok,
{
    let id = fresh_id();
    match server.insert_task(id, None, body.spec) {
        Ok(task) => Ok(task),
        Err(_) => {
            assert(old(server)@.tasks.dom().contains(id));
            Err(ServerError::InternalServerError)
        },
    }
}

/// Answers the plan `plan_id` as it is stored now, or `PlanNotFound`.
pub fn get_plan(server: &Server, plan_id: u128) -> (r: Result<Plan, ServerError>)
    requires
        server.wf(),
    ensures
        match r {
            Ok(plan) => server@.plans.contains_key(plan_id) && plan@ == server@.plans[plan_id]
                && plan.id == plan_id,
            Err(error) => !server@.plans.contains_key(plan_id) && error
                == ServerError::PlanNotFound(plan_id),
        },
{
    match server.lookup_plan(plan_id) {
        Some(plan) => Ok(plan.clone()),
        None => Err(ServerError::PlanNotFound(plan_id)),
    }
}

/// Answers the task `task_id` as it is now, or `TaskNotFound`.
pub fn get_task(server: &Server, task_id: u128) -> (r: Result<Task, ServerError>)
    requires
        server.wf(),
    ensures
        match r {
            Ok(task) => server@.tasks.contains_key(task_id) && task@
                == server@.tasks[task_id].shown(task_id),
            Err(error) => !server@.tasks.contains_key(task_id) && error
                == ServerError::TaskNotFound(task_id),
        },
{
    match server.lookup(task_id) {
        Some(task) => Ok(
            Task { id: task_id, plan: task.plan, spec: task.spec.clone(), status: task.status },
        ),
        None => Err(ServerError::TaskNotFound(task_id)),
    }
}

/// The identifiers of a sequence of plans.
pub open spec fn plan_ids(plans: Seq<Plan>) -> Seq<u128> {
    plans.map_values(|plan: Plan| plan.id)
}

/// The identifiers of a sequence of tasks.
pub open spec fn task_ids(tasks: Seq<Task>) -> Seq<u128> {
    tasks.map_values(|task: Task| task.id)
}

/// Answers every stored plan, each once and as it is now, in no
/// particular order.
pub fn list_plans(server: &Server) -> (r: Vec<Plan>)
    requires
        server.wf(),
    ensures
        plan_ids(r@).no_duplicates(),
        plan_ids(r@).to_set() == server@.plans.dom(),
        forall|i: int|
            0 <= i < r.len() ==> server@.plans.contains_key((#[trigger] r[i]).id) && r[i]@
                == server@.plans[r[i].id],
{
    let ids = server.plan_ids();
    let mut plans: Vec<Plan> = Vec::new();
    let mut i: usize = 0;
    while i < ids.len()
        invariant
            i <= ids.len(),
            server.wf(),
            ids@.no_duplicates(),
            ids@.to_set() == server@.plans.dom(),
            plans.len() == i,
            forall|j: int| 0 <= j < i ==> (#[trigger] plans[j]).id == ids@[j],
            forall|j: int|
                0 <= j < plans.len() ==> server@.plans.contains_key((#[trigger] plans[j]).id)
                    && plans[j]@ == server@.plans[plans[j].id],
        decreases ids.len() - i,
    {
        assert(ids@.to_set().contains(ids@[i as int]));
        if let Ok(plan) = get_plan(server, ids[i]) {
            plans.push(plan);
        }
        i = i + 1;
    }
    assert(plan_ids(plans@) =~= ids@);
    plans
}

/// Answers every task, each once and as it is now, in no particular
/// order.
pub fn list_tasks(server: &Server) -> (r: Vec<Task>)
    requires
        server.wf(),
    ensures
        task_ids(r@).no_duplicates(),
        task_ids(r@).to_set() == server@.tasks.dom(),
        forall|i: int|
            0 <= i < r.len() ==> server@.tasks.contains_key((#[trigger] r[i]).id) && r[i]@
                == server@.tasks[r[i].id].shown(r[i].id),
{
    let ids = server.task_ids();
    let mut tasks: Vec<Task> = Vec::new();
    let mut i: usize = 0;
    while i < ids.len()
        invariant
            i <= ids.len(),
            server.wf(),
            ids@.no_duplicates(),
            ids@.to_set() == server@.tasks.dom(),
            tasks.len() == i,
            forall|j: int| 0 <= j < i ==> (#[trigger] tasks[j]).id == ids@[j],
            forall|j: int|
                0 <= j < tasks.len() ==> server@.tasks.contains_key((#[trigger] tasks[j]).id)
                    && tasks[j]@ == server@.tasks[tasks[j].id].shown(tasks[j].id),
        decreases ids.len() - i,
    {
        assert(ids@.to_set().contains(ids@[i as int]));
        if let Ok(task) = get_task(server, ids[i]) {
            assert(task@.id == ids@[i as int]);
            tasks.push(task);
        }
        i = i + 1;
    }
    assert(task_ids(tasks@) =~= ids@);
    tasks
}

/// Materializes the plan `plan_id` as it is stored now, and answers the
/// task of its root. Every task that is made records the plan's identifier
/// and the version it was made from. An unknown plan is `PlanNotFound`;
/// should a drawn identifier be in use, the answer is
/// `InternalServerError`, and the tasks made until then stay, pending:
/// fewer than the plan has nodes, and none that names a task which is not
/// there. A plan of one node is always materialized where no task has an
/// identifier marked random.
pub fn plan(server: &mut Server, plan_id: u128) -> (r: Result<Task, ServerError>)
    requires
        old(server).wf(),
    ensures
        final(server).wf(),
        final(server)@ == (ServerView { tasks: final(server)@.tasks, ..old(server)@ }),
        evolves(old(server)@.tasks, final(server)@.tasks),
        !old(server)@.plans.contains_key(plan_id) ==> r == Err::<Task, ServerError>(
            ServerError::PlanNotFound(plan_id),
        ) && final(server)@ == old(server)@,
        old(server)@.plans.contains_key(plan_id) ==> {
            let stored = old(server)@.plans[plan_id];
            let origin = TaskPlan { id: plan_id, version: stored.version };
            &&& grown(old(server)@.tasks, final(server)@.tasks, origin)
            &&& match r {
                Ok(task) => exists|ids: Seq<u128>| #[trigger]
                    plants(
                        old(server)@.tasks,
                        final(server)@.tasks,
                        origin,
                        stored.spec,
                        ids,
                        task@,
                    ),
                Err(error) => {
                    &&& error == ServerError::InternalServerError
                    &&& holds_random(final(server)@.tasks.dom())
                    &&& final(server)@.tasks.dom().len() < old(server)@.tasks.dom().len()
                        + stored.spec.size()
                },
            }
            &&& !holds_random(old(server)@.tasks.dom()) && stored.spec.size() == 1 ==> r is Ok
        },
{
    let stored = match server.lookup_plan(plan_id) {
        Some(plan) => plan.clone(),
        None => {
            return Err(ServerError::PlanNotFound(plan_id));
        },
    };
    let origin = TaskPlan { id: stored.id, version: stored.version };
    match crate::server::plan::task(server, origin, stored.spec) {
        Ok(task) => Ok(task),
        Err(Error::PlanNotFound(id)) => Err(ServerError::PlanNotFound(id)),
        Err(error) => {
            assert(server@.tasks.dom().contains(error->IdInUse_0));
            Err(ServerError::InternalServerError)
        },
    }
}

/// Starts the task `task_id` and answers its new state. A task that is
/// not pending is refused with `InvalidTaskState`, an unknown one with
/// `TaskNotFound`.
pub fn start_task(server: &mut Server, task_id: u128) -> (r: Result<TaskState, ServerError>)
    requires
        old(server).wf(),
    ensures
        final(server).wf(),
        match r {
            Ok(state) => start_answer(old(server)@.tasks, task_id) == Ok::<
                TaskStateView,
                ServerError,
            >(state@),
            Err(error) => start_answer(old(server)@.tasks, task_id) == Err::<
                TaskStateView,
                ServerError,
            >(error),
        },
        final(server)@ == (ServerView {
            tasks: started(old(server)@.tasks, task_id),
            ..old(server)@
        }),
        evolves(old(server)@.tasks, final(server)@.tasks),
{
    crate::server::run::start_task(server, task_id)
}

/// Opens a reader on the output of the task `task_id`, at the first line.
/// A task without a process has no output to read: an unknown task, a
/// composite, and a command whose run has not begun are all
/// `TaskNotFound`.
pub fn task_output_stream(server: &Server, task_id: u128) -> (r: Result<OutputStream, ServerError>)
    requires
        server.wf(),
    ensures
        match r {
            Ok(stream) => server@.tasks.contains_key(task_id)
                && server@.tasks[task_id].running is Some && stream.position() == 0,
            Err(error) => error == ServerError::TaskNotFound(task_id) && !(
            server@.tasks.contains_key(task_id) && server@.tasks[task_id].running is Some),
        },
{
    match server.lookup(task_id) {
        Some(task) => match &task.running {
            Some(_) => Ok(OutputStream::new()),
            None => Err(ServerError::TaskNotFound(task_id)),
        },
        None => Err(ServerError::TaskNotFound(task_id)),
    }
}

/// Pulls the next line of the output of the task `task_id` for the reader
/// `stream`, as `OutputStream::poll_next` does on the task's process. For
/// a task without a process the stream is at its end.
pub fn poll_output(server: &Server, task_id: u128, stream: &mut OutputStream) -> (r: Pull)
    requires
        server.wf(),
    ensures
        !(server@.tasks.contains_key(task_id) && server@.tasks[task_id].running is Some) ==> r
            == Pull::End && final(stream).position() == old(stream).position(),
        server@.tasks.contains_key(task_id) && server@.tasks[task_id].running is Some ==> {
            let process = server@.tasks[task_id].running->0;
            match r {
                Pull::Line(line) => {
                    &&& old(stream).position() < process.output.len()
                    &&& line@ == process.output[old(stream).position() as int]
                    &&& final(stream).position() == old(stream).position() + 1
                },
                Pull::End => {
                    &&& old(stream).position() >= process.output.len()
                    &&& process.status is Some
                    &&& final(stream).position() == old(stream).position()
                },
                Pull::Wait => {
                    &&& old(stream).position() >= process.output.len()
                    &&& process.status is None
                    &&& final(stream).position() == old(stream).position()
                },
            }
        },
{
    match server.lookup(task_id) {
        Some(task) => match &task.running {
            Some(process) => stream.poll_next(process),
            None => Pull::End,
        },
        None => Pull::End,
    }
}

/// Replaces the specification of the plan `plan_id` and answers the plan,
/// whose version has grown by one. An unknown plan is `PlanNotFound`; a
/// plan whose version cannot grow any more stays as it is, and the answer
/// is `InternalServerError`.
pub fn update_plan(server: &mut Server, plan_id: u128, body: CreatePlan) -> (r: Result<
    Plan,
    ServerError,
>)
    requires
        old(server).wf(),
    ensures
        final(server).wf(),
        match r {
            Ok(plan) => {
                &&& old(server)@.plans.contains_key(plan_id)
                &&& old(server)@.plans[plan_id].version < u64::MAX
                &&& plan@ == (PlanView {
                    id: plan_id,
                    spec: body@,
                    version: (old(server)@.plans[plan_id].version + 1) as u64,
                })
                &&& final(server)@ == (ServerView {
                    plans: old(server)@.plans.insert(plan_id, plan@),
                    ..old(server)@
                })
            },
            Err(error) => {
                &&& final(server)@ == old(server)@
                &&& error == if old(server)@.plans.contains_key(plan_id) {
                    ServerError::InternalServerError
                } else {
                    ServerError::PlanNotFound(plan_id)
                }
                &&& old(server)@.plans.contains_key(plan_id) ==> old(server)@.plans[plan_id].version
                    == u64::MAX
            },
        },
{
    server.replace_plan(plan_id, body.spec)
}

} // verus!
