//! Tasks: materialized units of work with an identifier and a live status.

use vstd::prelude::*;

verus! {

/// Where a task stands in its life. A task is created `Pending`, becomes
/// `Running` (a command) or `Waiting` (a composite) when it is started, and
/// ends as `Success` or `Failure`.
#[derive(Clone, Copy, Debug, PartialEq, Eq, Structural)]
pub enum TaskStatus {
    Pending,
    Running,
    Waiting,
    Success,
    Failure,
}

impl TaskStatus {
    /// A settled status is one that never changes again.
    pub open spec fn is_settled(self) -> bool {
        self == TaskStatus::Success || self == TaskStatus::Failure
    }

    /// Whether the status is `Success` or `Failure`.
    pub fn settled(&self) -> (r: bool)
        ensures
            r == self.is_settled(),
    {
        match self {
            TaskStatus::Success => true,
            TaskStatus::Failure => true,
            _ => false,
        }
    }

    /// The name under which the status goes over the wire.
    pub open spec fn name(self) -> Seq<char> {
        match self {
            TaskStatus::Pending => "Pending"@,
            TaskStatus::Running => "Running"@,
            TaskStatus::Waiting => "Waiting"@,
            TaskStatus::Success => "Success"@,
            TaskStatus::Failure => "Failure"@,
        }
    }

    /// The status as text: one of `Pending`, `Running`, `Waiting`,
    /// `Success`, `Failure`.
    pub fn as_str(&self) -> (r: &'static str)
        ensures
            r@ == self.name(),
    {
        match self {
            TaskStatus::Pending => "Pending",
            TaskStatus::Running => "Running",
            TaskStatus::Waiting => "Waiting",
            TaskStatus::Success => "Success",
            TaskStatus::Failure => "Failure",
        }
    }
}

/// The plan a task was materialized from, and the plan's version then.
#[derive(Clone, Copy, Debug, PartialEq, Eq, Structural)]
pub struct TaskPlan {
    pub id: u128,
    pub version: u64,
}

/// The views of a sequence of strings.
pub open spec fn texts(items: Seq<String>) -> Seq<Seq<char>> {
    items.map_values(|s: String| s@)
}

/// What a task does: run one command, or run other tasks, named by their
/// identifiers, side by side or one after the other.
#[derive(Debug, PartialEq, Eq)]
pub enum TaskSpec {
    Command { args: Vec<String> },
    TaskGroup { parallel: Vec<u128> },
    TaskList { serial: Vec<u128> },
}

/// A task's specification as a mathematical value.
pub enum TaskShape {
    Command { args: Seq<Seq<char>> },
    TaskGroup { parallel: Seq<u128> },
    TaskList { serial: Seq<u128> },
}

impl TaskShape {
    /// The identifiers of the tasks that this one runs; none for a command.
    pub open spec fn children(self) -> Seq<u128> {
        match self {
            TaskShape::Command { .. } => Seq::empty(),
            TaskShape::TaskGroup { parallel } => parallel,
            TaskShape::TaskList { serial } => serial,
        }
    }
}

impl View for TaskSpec {
    type V = TaskShape;

    open spec fn view(&self) -> TaskShape {
        match self {
            TaskSpec::Command { args } => TaskShape::Command { args: texts(args@) },
            TaskSpec::TaskGroup { parallel } => TaskShape::TaskGroup { parallel: parallel@ },
            TaskSpec::TaskList { serial } => TaskShape::TaskList { serial: serial@ },
        }
    }
}

impl Clone for TaskSpec {
    fn clone(&self) -> (r: Self)
        ensures
            r@ == self@,
    {
        match self {
            TaskSpec::Command { args } => {
                let copy = args.clone();
                assert(texts(copy@) =~= texts(args@));
                TaskSpec::Command { args: copy }
            },
            TaskSpec::TaskGroup { parallel } => TaskSpec::TaskGroup { parallel: parallel.clone() },
            TaskSpec::TaskList { serial } => TaskSpec::TaskList { serial: serial.clone() },
        }
    }
}

impl TaskSpec {
    /// Whether the task runs a command itself.
    pub fn is_command(&self) -> (r: bool)
        ensures
            r == (self@ is Command),
    {
        match self {
            TaskSpec::Command { .. } => true,
            _ => false,
        }
    }
}

/// A task as clients see it.
#[derive(Debug, PartialEq, Eq)]
pub struct Task {
    pub id: u128,
    pub plan: Option<TaskPlan>,
    pub spec: TaskSpec,
    pub status: TaskStatus,
}

/// A task as a mathematical value.
pub struct TaskView {
    pub id: u128,
    pub plan: Option<TaskPlan>,
    pub spec: TaskShape,
    pub status: TaskStatus,
}

impl View for Task {
    type V = TaskView;

    open spec fn view(&self) -> TaskView {
        TaskView { id: self.id, plan: self.plan, spec: self.spec@, status: self.status }
    }
}

impl Clone for Task {
    fn clone(&self) -> (r: Self)
        ensures
            r@ == self@,
    {
        Task { id: self.id, plan: self.plan, spec: self.spec.clone(), status: self.status }
    }
}

/// What starting a task answers: the task's identifier, its specification
/// and the status it has just been given.
#[derive(Debug, PartialEq, Eq)]
pub struct TaskState {
    pub id: u128,
    pub spec: TaskSpec,
    pub status: TaskStatus,
}

/// A started task's state as a mathematical value.
pub struct TaskStateView {
    pub id: u128,
    pub spec: TaskShape,
    pub status: TaskStatus,
}

impl View for TaskState {
    type V = TaskStateView;

    open spec fn view(&self) -> TaskStateView {
        TaskStateView { id: self.id, spec: self.spec@, status: self.status }
    }
}

impl Clone for TaskState {
    fn clone(&self) -> (r: Self)
        ensures
            r@ == self@,
    {
        TaskState { id: self.id, spec: self.spec.clone(), status: self.status }
    }
}

/// The request to create a task directly, without a plan.
#[derive(Debug, PartialEq, Eq)]
pub struct CreateTask {
    pub spec: TaskSpec,
}

impl View for CreateTask {
    type V = TaskShape;

    open spec fn view(&self) -> TaskShape {
        self.spec@
    }
}

impl Clone for CreateTask {
    fn clone(&self) -> (r: Self)
        ensures
            r@ == self@,
    {
        CreateTask { spec: self.spec.clone() }
    }
}

} // verus!
