//! The engine's state: every plan and every task, each under its
//! identifier. Nothing is ever removed, and an identifier that is taken is
//! never given out again.

use std::collections::HashMap;
use vstd::prelude::*;
use vstd::std_specs::iter::IteratorSpec;
use crate::error::Error;
use crate::ident::{hyphenated, id_text};
use crate::plans::{Plan, PlanSpec, PlanView};
use crate::process::{Process, ProcessView};
use crate::tasks::{Task, TaskPlan, TaskShape, TaskSpec, TaskStatus, TaskView};

pub mod handlers;
pub mod laws;
pub mod plan;
pub mod run;

verus! {

/// A task as the engine holds it: what clients see of it, the process of a
/// command once it runs, whether the task's end has been signalled, and why
/// it failed if it did.
#[derive(Debug)]
pub struct ServerTask {
    pub plan: Option<TaskPlan>,
    pub spec: TaskSpec,
    pub status: TaskStatus,
    pub running: Option<Process>,
    pub finished: bool,
    pub error: Option<Error>,
}

/// A held task as a mathematical value.
pub struct TaskRecord {
    pub plan: Option<TaskPlan>,
    pub spec: TaskShape,
    pub status: TaskStatus,
    pub running: Option<ProcessView>,
    pub finished: bool,
    pub error: Option<Error>,
}

impl TaskRecord {
    /// A task as it is created: pending, with no process and no error.
    pub open spec fn created(plan: Option<TaskPlan>, spec: TaskShape) -> TaskRecord {
        TaskRecord {
            plan,
            spec,
            status: TaskStatus::Pending,
            running: None,
            finished: false,
            error: None,
        }
    }

    /// What holds of every held task: its end has been signalled exactly if
    /// it is settled; it has an error exactly if it failed; only a command
    /// is `Running`, only a composite is `Waiting`; only a command that has
    /// been started has a process; and a process that has ended belongs to
    /// a settled task.
    pub open spec fn wf(self) -> bool {
        &&& self.finished == self.status.is_settled()
        &&& (self.error is Some) == (self.status == TaskStatus::Failure)
        &&& self.status == TaskStatus::Running ==> self.spec is Command
        &&& self.status == TaskStatus::Waiting ==> !(self.spec is Command)
        &&& self.running is Some ==> self.spec is Command && self.status != TaskStatus::Pending
        &&& self.running is Some && self.running->0.status is Some ==> self.status.is_settled()
    }

    /// The task as clients see it, under the identifier `id`.
    pub open spec fn shown(self, id: u128) -> TaskView {
        TaskView { id, plan: self.plan, spec: self.spec, status: self.status }
    }

    /// Whether `self` can be a later state of the task `earlier`. What the
    /// task is never changes. Its status only moves forward: a task that has
    /// left `Pending` does not come back to it, and a settled task keeps
    /// its status and its error. An end that has been signalled stays
    /// signalled, and a process stays attached and only grows.
    pub open spec fn follows(self, earlier: TaskRecord) -> bool {
        &&& self.plan == earlier.plan
        &&& self.spec == earlier.spec
        &&& earlier.status != TaskStatus::Pending ==> self.status != TaskStatus::Pending
        &&& earlier.status.is_settled() ==> self.status == earlier.status && self.error
            == earlier.error
        &&& earlier.finished ==> self.finished
        &&& earlier.running is Some ==> self.running is Some && self.running->0.extends(
            earlier.running->0,
        )
    }
}

impl View for ServerTask {
    type V = TaskRecord;

    open spec fn view(&self) -> TaskRecord {
        TaskRecord {
            plan: self.plan,
            spec: self.spec@,
            status: self.status,
            running: match self.running {
                Some(process) => Some(process@),
                None => None,
            },
            finished: self.finished,
            error: self.error,
        }
    }
}

/// Whether the tasks `after` can be a later state of the tasks `before`:
/// every task is still there, and each is a later state of itself.
pub open spec fn evolves(before: Map<u128, TaskRecord>, after: Map<u128, TaskRecord>) -> bool {
    forall|id: u128| #[trigger]
        before.contains_key(id) ==> after.contains_key(id) && after[id].follows(before[id])
}

/// The error a request can end in.
#[derive(Clone, Copy, Debug, PartialEq, Eq)]
pub enum ServerError {
    InternalServerError,
    PlanNotFound(u128),
    TaskNotFound(u128),
    InvalidTaskState(u128),
}

impl ServerError {
    /// The HTTP status that reports the error: 404 for what was not found,
    /// 400 for a start that the task's state forbids, 500 otherwise.
    pub open spec fn code(self) -> u16 {
        match self {
            ServerError::InternalServerError => 500,
            ServerError::PlanNotFound(_) => 404,
            ServerError::TaskNotFound(_) => 404,
            ServerError::InvalidTaskState(_) => 400,
        }
    }

    /// The plain text that reports the error.
    pub open spec fn text(self) -> Seq<char> {
        match self {
            ServerError::InternalServerError => "Internal server error"@,
            ServerError::PlanNotFound(id) => "Plan not found: "@ + hyphenated(id),
            ServerError::TaskNotFound(id) => "Task not found: "@ + hyphenated(id),
            ServerError::InvalidTaskState(id) => "Invalid task state: "@ + hyphenated(id),
        }
    }

    /// The HTTP status of the response.
    pub fn status_code(&self) -> (r: u16)
        ensures
            r == self.code(),
    {
        match self {
            ServerError::InternalServerError => 500,
            ServerError::PlanNotFound(_) => 404,
            ServerError::TaskNotFound(_) => 404,
            ServerError::InvalidTaskState(_) => 400,
        }
    }

    /// The body of the response.
    pub fn body(&self) -> (r: String)
        ensures
            r@ == self.text(),
    {
        match self {
            ServerError::InternalServerError => String::from_str("Internal server error"),
            ServerError::PlanNotFound(id) => {
                let name = id_text(*id);
                String::from_str("Plan not found: ").concat(name.as_str())
            },
            ServerError::TaskNotFound(id) => {
                let name = id_text(*id);
                String::from_str("Task not found: ").concat(name.as_str())
            },
            ServerError::InvalidTaskState(id) => {
                let name = id_text(*id);
                String::from_str("Invalid task state: ").concat(name.as_str())
            },
        }
    }

    /// The response that reports the error: its status and its body.
    pub fn into_response(self) -> (r: (u16, String))
        ensures
            r.0 == self.code(),
            r.1@ == self.text(),
    {
        (self.status_code(), self.body())
    }
}

/// The store of plans and tasks.
pub struct Server {
    plans: HashMap<u128, Plan>,
    tasks: HashMap<u128, ServerTask>,
    pub verbose: bool,
}

/// The store as a mathematical value.
pub struct ServerView {
    pub plans: Map<u128, PlanView>,
    pub tasks: Map<u128, TaskRecord>,
    pub verbose: bool,
}

impl ServerView {
    /// What holds of every store: both maps are finite, each plan is held
    /// under its own identifier, and each task is well formed.
    pub open spec fn wf(self) -> bool {
        &&& self.plans.dom().finite()
        &&& self.tasks.dom().finite()
        &&& forall|id: u128| #[trigger] self.plans.contains_key(id) ==> self.plans[id].id == id
        &&& forall|id: u128| #[trigger] self.tasks.contains_key(id) ==> self.tasks[id].wf()
    }
}

impl View for Server {
    type V = ServerView;

    closed spec fn view(&self) -> ServerView {
        ServerView {
            plans: Map::new(|id: u128| self.plans@.contains_key(id), |id: u128| self.plans@[id]@),
            tasks: Map::new(|id: u128| self.tasks@.contains_key(id), |id: u128| self.tasks@[id]@),
            verbose: self.verbose,
        }
    }
}

impl Server {
    /// Whether the store is well formed.
    pub open spec fn wf(&self) -> bool {
        self@.wf()
    }

    /// An empty store.
    pub fn new(verbose: bool) -> (r: Self)
        ensures
            r@.plans == Map::<u128, PlanView>::empty(),
            r@.tasks == Map::<u128, TaskRecord>::empty(),
            r@.verbose == verbose,
            r.wf(),
    {
        let r = Server { plans: HashMap::new(), tasks: HashMap::new(), verbose };
        assert(r@.plans =~= Map::<u128, PlanView>::empty());
        assert(r@.tasks =~= Map::<u128, TaskRecord>::empty());
        assert(r@.plans.dom() =~= r.plans@.dom());
        assert(r@.tasks.dom() =~= r.tasks@.dom());
        r
    }

    /// The task held under `id`, if there is one.
    pub fn lookup(&self, id: u128) -> (r: Option<&ServerTask>)
        ensures
            match r {
                Some(task) => self@.tasks.contains_key(id) && task@ == self@.tasks[id],
                None => !self@.tasks.contains_key(id),
            },
    {
        self.tasks.get(&id)
    }

    /// The plan held under `id`, if there is one.
    pub fn lookup_plan(&self, id: u128) -> (r: Option<&Plan>)
        ensures
            match r {
                Some(plan) => self@.plans.contains_key(id) && plan@ == self@.plans[id],
                None => !self@.plans.contains_key(id),
            },
    {
        self.plans.get(&id)
    }

    /// Takes the task held under `id` out of the store, to be put back
    /// changed.
    pub(crate) fn take(&mut self, id: u128) -> (r: Option<ServerTask>)
        ensures
            match r {
                Some(task) => old(self)@.tasks.contains_key(id) && task@ == old(self)@.tasks[id],
                None => !old(self)@.tasks.contains_key(id),
            },
            final(self)@ == (ServerView { tasks: old(self)@.tasks.remove(id), ..old(self)@ }),
            old(self).wf() ==> final(self).wf(),
    {
        let r = self.tasks.remove(&id);
        assert(self@.tasks =~= old(self)@.tasks.remove(id));
        assert(self@.plans =~= old(self)@.plans);
        assert(self@.tasks.dom() =~= self.tasks@.dom());
        assert(self@.plans.dom() =~= self.plans@.dom());
        r
    }

    /// Holds `task` under `id`.
    pub(crate) fn put(&mut self, id: u128, task: ServerTask)
        ensures
            final(self)@ == (ServerView { tasks: old(self)@.tasks.insert(id, task@), ..old(self)@ }),
            old(self).wf() && task@.wf() ==> final(self).wf(),
    {
        self.tasks.insert(id, task);
        assert(self@.tasks =~= old(self)@.tasks.insert(id, task@));
        assert(self@.plans =~= old(self)@.plans);
        assert(self@.tasks.dom() =~= self.tasks@.dom());
        assert(self@.plans.dom() =~= self.plans@.dom());
    }

    /// Registers a new task under `id`, pending. An identifier that is
    /// taken is refused, and the store stays as it is.
    pub fn insert_task(&mut self, id: u128, plan: Option<TaskPlan>, spec: TaskSpec) -> (r: Result<
        Task,
        Error,
    >)
        requires
            old(self).wf(),
        ensures
            final(self).wf(),
            match r {
                Ok(task) => {
                    &&& !old(self)@.tasks.contains_key(id)
                    &&& task@ == TaskRecord::created(plan, spec@).shown(id)
                    &&& final(self)@ == (ServerView {
                        tasks: old(self)@.tasks.insert(id, TaskRecord::created(plan, spec@)),
                        ..old(self)@
                    })
                },
                Err(error) => {
                    &&& old(self)@.tasks.contains_key(id)
                    &&& error == Error::IdInUse(id)
                    &&& final(self)@ == old(self)@
                },
            },
            evolves(old(self)@.tasks, final(self)@.tasks),
    {
        if self.tasks.contains_key(&id) {
            return Err(Error::IdInUse(id));
        }
        let shown = Task { id, plan, spec: spec.clone(), status: TaskStatus::Pending };
        let held = ServerTask {
            plan,
            spec,
            status: TaskStatus::Pending,
            running: None,
            finished: false,
            error: None,
        };
        self.put(id, held);
        Ok(shown)
    }

    /// Stores `plan` under its identifier. An identifier that is taken is
    /// refused, and the store stays as it is.
    pub fn insert_plan(&mut self, plan: Plan) -> (r: Result<(), Error>)
        requires
            old(self).wf(),
        ensures
            final(self).wf(),
            match r {
                Ok(_) => {
                    &&& !old(self)@.plans.contains_key(plan.id)
                    &&& final(self)@ == (ServerView {
                        plans: old(self)@.plans.insert(plan.id, plan@),
                        ..old(self)@
                    })
                },
                Err(error) => {
                    &&& old(self)@.plans.contains_key(plan.id)
                    &&& error == Error::IdInUse(plan.id)
                    &&& final(self)@ == old(self)@
                },
            },
    {
        let id = plan.id;
        if self.plans.contains_key(&id) {
            return Err(Error::IdInUse(id));
        }
        self.plans.insert(id, plan);
        assert(self@.plans =~= old(self)@.plans.insert(id, plan@));
        assert(self@.tasks =~= old(self)@.tasks);
        assert(self@.tasks.dom() =~= self.tasks@.dom());
        assert(self@.plans.dom() =~= self.plans@.dom());
        Ok(())
    }

    /// The identifiers of all tasks, each once, in no particular order.
    pub fn task_ids(&self) -> (r: Vec<u128>)
        ensures
            r@.no_duplicates(),
            r@.to_set() == self@.tasks.dom(),
    {
        let mut ids: Vec<u128> = Vec::new();
        for key in it: self.tasks.keys()
            invariant
                ids@ == it.seq().take(it.index() as int).unref(),
                it.seq() == self.tasks.keys().remaining(),
        {
            ids.push(*key);
        }
        assert(ids@ =~= self.tasks.keys().remaining().unref());
        assert(self@.tasks.dom() =~= self.tasks@.dom());
        ids
    }

    /// The identifiers of all plans, each once, in no particular order.
    pub fn plan_ids(&self) -> (r: Vec<u128>)
        ensures
            r@.no_duplicates(),
            r@.to_set() == self@.plans.dom(),
    {
        let mut ids: Vec<u128> = Vec::new();
        for key in it: self.plans.keys()
            invariant
                ids@ == it.seq().take(it.index() as int).unref(),
                it.seq() == self.plans.keys().remaining(),
        {
            ids.push(*key);
        }
        assert(ids@ =~= self.plans.keys().remaining().unref());
        assert(self@.plans.dom() =~= self.plans@.dom());
        ids
    }

    /// Replaces the specification of the plan `id`, whose version grows by
    /// one. An unknown plan is `PlanNotFound`. A plan whose version cannot
    /// grow any more stays as it is, and the answer is
    /// `InternalServerError`.
    pub fn replace_plan(&mut self, id: u128, spec: PlanSpec) -> (r: Result<Plan, ServerError>)
        requires
            old(self).wf(),
        ensures
            final(self).wf(),
            match r {
                Ok(plan) => {
                    &&& old(self)@.plans.contains_key(id)
                    &&& old(self)@.plans[id].version < u64::MAX
                    &&& plan@ == (PlanView {
                        id,
                        spec: spec@,
                        version: (old(self)@.plans[id].version + 1) as u64,
                    })
                    &&& final(self)@ == (ServerView {
                        plans: old(self)@.plans.insert(id, plan@),
                        ..old(self)@
                    })
                },
                Err(error) => {
                    &&& final(self)@ == old(self)@
                    &&& error == if old(self)@.plans.contains_key(id) {
                        ServerError::InternalServerError
                    } else {
                        ServerError::PlanNotFound(id)
                    }
                    &&& old(self)@.plans.contains_key(id) ==> old(self)@.plans[id].version
                        == u64::MAX
                },
            },
    {
        let version = match self.plans.get(&id) {
            None => {
                return Err(ServerError::PlanNotFound(id));
            },
            Some(plan) => plan.version,
        };
        if version == u64::MAX {
            return Err(ServerError::InternalServerError);
        }
        let shown = Plan { id, spec: spec.clone(), version: version + 1 };
        self.plans.insert(id, Plan { id, spec, version: version + 1 });
        assert(self@.plans =~= old(self)@.plans.insert(id, shown@));
        assert(self@.tasks =~= old(self)@.tasks);
        assert(self@.tasks.dom() =~= self.tasks@.dom());
        assert(self@.plans.dom() =~= self.plans@.dom());
        Ok(shown)
    }
}

} // verus!
