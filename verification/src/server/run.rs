//! The scheduler: the decisions that take a task from `Pending` to
//! `Success` or `Failure`.
//!
//! A task is started once. Its run is then driven from outside: the
//! program spawns the process of a command and reports what it printed and
//! how it ended; for a composite it runs the children that were started and
//! comes back when they have settled. Every decision is taken here, on the
//! store alone.
//!
//! A composite asks each of its children to start as any client would. A
//! child that is not pending any more, because a client has started it
//! directly or another composite has, is refused like any second start, and
//! the composite fails for it. Any task may still be started directly as
//! long as it is pending.

use vstd::prelude::*;
use crate::error::{Error, ExitStatus};
use crate::process::{Output, Process, ProcessView};
use crate::server::{evolves, Server, ServerError, ServerView, TaskRecord};
use crate::tasks::{texts, TaskShape, TaskSpec, TaskState, TaskStateView, TaskStatus};

verus! {

/// The status a task gets when it is started: a command runs, a composite
/// waits for its children.
pub open spec fn admitted_status(spec: TaskShape) -> TaskStatus {
    if spec is Command {
        TaskStatus::Running
    } else {
        TaskStatus::Waiting
    }
}

/// A task's record once it has been started.
pub open spec fn admitted(record: TaskRecord) -> TaskRecord {
    TaskRecord { status: admitted_status(record.spec), ..record }
}

/// What a request to start the task `id` answers: only a task that exists
/// and is still pending is started.
pub open spec fn start_answer(tasks: Map<u128, TaskRecord>, id: u128) -> Result<
    TaskStateView,
    ServerError,
> {
    if !tasks.contains_key(id) {
        Err(ServerError::TaskNotFound(id))
    } else if tasks[id].status != TaskStatus::Pending {
        Err(ServerError::InvalidTaskState(id))
    } else {
        Ok(TaskStateView { id, spec: tasks[id].spec, status: admitted_status(tasks[id].spec) })
    }
}

/// The tasks after a request to start the task `id`.
pub open spec fn started(tasks: Map<u128, TaskRecord>, id: u128) -> Map<u128, TaskRecord> {
    if start_answer(tasks, id) is Ok {
        tasks.insert(id, admitted(tasks[id]))
    } else {
        tasks
    }
}

/// A task's record once it has settled: with no error as a success, with
/// an error as a failure. Its end is signalled.
pub open spec fn settled_record(record: TaskRecord, error: Option<Error>) -> TaskRecord {
    TaskRecord {
        status: if error is None {
            TaskStatus::Success
        } else {
            TaskStatus::Failure
        },
        finished: true,
        error,
        ..record
    }
}

/// Whether the task `id` is there, started and not yet settled.
pub open spec fn in_flight(tasks: Map<u128, TaskRecord>, id: u128) -> bool {
    tasks.contains_key(id) && (tasks[id].status == TaskStatus::Running || tasks[id].status
        == TaskStatus::Waiting)
}

/// The tasks after the task `id` has been settled. Only a task in flight
/// settles: settling a task that is missing, pending or already settled
/// changes nothing.
pub open spec fn settled(tasks: Map<u128, TaskRecord>, id: u128, error: Option<Error>) -> Map<
    u128,
    TaskRecord,
> {
    if in_flight(tasks, id) {
        tasks.insert(id, settled_record(tasks[id], error))
    } else {
        tasks
    }
}

/// What waiting for the task `id` answers once the task's end has been
/// signalled.
pub open spec fn wait_answer(tasks: Map<u128, TaskRecord>, id: u128) -> Result<(), Error> {
    if !tasks.contains_key(id) {
        Err(Error::TaskNotFound(id))
    } else {
        match tasks[id].status {
            TaskStatus::Success => Ok(()),
            TaskStatus::Failure => Err(tasks[id].error->0),
            _ => Err(Error::TaskFailed(id)),
        }
    }
}

/// Starts the task `task_id`: a pending command becomes `Running`, a
/// pending composite `Waiting`. A task that is not pending is refused with
/// `InvalidTaskState`, an unknown one with `TaskNotFound`, and nothing
/// changes. The task's run is begun with `run_task`.
pub fn start_task(server: &mut Server, task_id: u128) -> (r: Result<TaskState, ServerError>)
    requires
        old(server).wf(),
    ensures
        final(server).wf(),
        match r {
            Ok(state) => start_answer(old(server)@.tasks, task_id) == Ok::<
                TaskStateView,
                ServerError,
            >(state@),
            Err(error) => start_answer(old(server)@.tasks, task_id) == Err::<
                TaskStateView,
                ServerError,
            >(error),
        },
        final(server)@ == (ServerView {
            tasks: started(old(server)@.tasks, task_id),
            ..old(server)@
        }),
        evolves(old(server)@.tasks, final(server)@.tasks),
{
    match server.lookup(task_id) {
        None => {
            return Err(ServerError::TaskNotFound(task_id));
        },
        Some(task) => {
            match task.status {
                TaskStatus::Pending => {},
                _ => {
                    return Err(ServerError::InvalidTaskState(task_id));
                },
            }
        },
    }
    let mut task = match server.take(task_id) {
        Some(task) => task,
        None => {
            return Err(ServerError::TaskNotFound(task_id));
        },
    };
    task.status = if task.spec.is_command() {
        TaskStatus::Running
    } else {
        TaskStatus::Waiting
    };
    let state = TaskState { id: task_id, spec: task.spec.clone(), status: task.status };
    server.put(task_id, task);
    assert(server@.tasks =~= started(old(server)@.tasks, task_id));
    Ok(state)
}

/// Settles the task `task_id` with `error`, and says whether it did.
fn settle(server: &mut Server, task_id: u128, error: Option<Error>) -> (fired: bool)
    requires
        old(server).wf(),
    ensures
        final(server).wf(),
        fired == in_flight(old(server)@.tasks, task_id),
        final(server)@ == (ServerView {
            tasks: settled(old(server)@.tasks, task_id, error),
            ..old(server)@
        }),
        evolves(old(server)@.tasks, final(server)@.tasks),
{
    match server.lookup(task_id) {
        None => {
            return false;
        },
        Some(task) => {
            match task.status {
                TaskStatus::Running => {},
                TaskStatus::Waiting => {},
                _ => {
                    return false;
                },
            }
        },
    }
    let mut task = match server.take(task_id) {
        Some(task) => task,
        None => {
            return false;
        },
    };
    task.status = match error {
        None => TaskStatus::Success,
        Some(_) => TaskStatus::Failure,
    };
    task.error = error;
    task.finished = true;
    server.put(task_id, task);
    assert(server@.tasks =~= settled(old(server)@.tasks, task_id, error));
    true
}

/// Settles the task `task_id` as a success and signals its end. The answer
/// says whether the end was signalled by this call: a task's end is
/// signalled once, and a call on a task that is not in flight changes
/// nothing.
pub fn finish_task(server: &mut Server, task_id: u128) -> (fired: bool)
    requires
        old(server).wf(),
    ensures
        final(server).wf(),
        fired == in_flight(old(server)@.tasks, task_id),
        final(server)@ == (ServerView {
            tasks: settled(old(server)@.tasks, task_id, None),
            ..old(server)@
        }),
        evolves(old(server)@.tasks, final(server)@.tasks),
{
    settle(server, task_id, None)
}

/// Settles the task `task_id` as a failure with `error` and signals its
/// end. The answer says whether the end was signalled by this call: a
/// task's end is signalled once, and a call on a task that is not in flight
/// changes nothing.
pub fn fail_task(server: &mut Server, task_id: u128, error: Error) -> (fired: bool)
    requires
        old(server).wf(),
    ensures
        final(server).wf(),
        fired == in_flight(old(server)@.tasks, task_id),
        final(server)@ == (ServerView {
            tasks: settled(old(server)@.tasks, task_id, Some(error)),
            ..old(server)@
        }),
        evolves(old(server)@.tasks, final(server)@.tasks),
{
    settle(server, task_id, Some(error))
}

/// Reads how the task `task_id` ended, once its end has been signalled:
/// nothing for a success, the task's error for a failure. A task that has
/// not settled counts as failed, and an unknown one is `TaskNotFound`.
pub fn wait_task(server: &Server, task_id: u128) -> (r: Result<(), Error>)
    requires
        server.wf(),
    ensures
        r == wait_answer(server@.tasks, task_id),
{
    match server.lookup(task_id) {
        None => Err(Error::TaskNotFound(task_id)),
        Some(task) => match task.status {
            TaskStatus::Success => Ok(()),
            TaskStatus::Failure => match task.error {
                Some(error) => Err(error),
                None => Err(Error::TaskFailed(task_id)),
            },
            _ => Err(Error::TaskFailed(task_id)),
        },
    }
}

/// Whether the end of the task `task_id` has been signalled.
pub fn is_finished(server: &Server, task_id: u128) -> (r: bool)
    requires
        server.wf(),
    ensures
        r == (server@.tasks.contains_key(task_id) && server@.tasks[task_id].status.is_settled()),
{
    match server.lookup(task_id) {
        None => false,
        Some(task) => task.finished,
    }
}

/// The tasks after the command `id` has been given its process: only a
/// running command that has none yet gets one.
pub open spec fn attached(tasks: Map<u128, TaskRecord>, id: u128) -> Map<u128, TaskRecord> {
    if awaits_process(tasks, id) {
        tasks.insert(id, TaskRecord { running: Some(ProcessView::fresh()), ..tasks[id] })
    } else {
        tasks
    }
}

/// Whether the task `id` is a running command that has no process yet.
pub open spec fn awaits_process(tasks: Map<u128, TaskRecord>, id: u128) -> bool {
    &&& tasks.contains_key(id)
    &&& tasks[id].spec is Command
    &&& tasks[id].status == TaskStatus::Running
    &&& tasks[id].running is None
}

/// Whether the task `id` is a command whose process can still print: it
/// has a process, and the process has not ended.
pub open spec fn prints(tasks: Map<u128, TaskRecord>, id: u128) -> bool {
    &&& tasks.contains_key(id)
    &&& tasks[id].running is Some
    &&& tasks[id].running->0.status is None
}

/// The tasks after the process of the command `id` has printed `line`.
pub open spec fn printed(tasks: Map<u128, TaskRecord>, id: u128, line: crate::process::OutputLine) -> Map<
    u128,
    TaskRecord,
> {
    if prints(tasks, id) {
        let process = tasks[id].running->0;
        tasks.insert(
            id,
            TaskRecord {
                running: Some(ProcessView { output: process.output.push(line), ..process }),
                ..tasks[id]
            },
        )
    } else {
        tasks
    }
}

/// How a command's run is judged: a process that exited with code zero is
/// a success, any other exit is an `ExitFailure`, and a run that could not
/// be carried out fails with its own error.
pub open spec fn verdict(result: Result<ExitStatus, Error>) -> Option<Error> {
    match result {
        Ok(status) => if status.is_success() {
            None
        } else {
            Some(Error::ExitFailure(status))
        },
        Err(error) => Some(error),
    }
}

/// Whether the task `id` is a command in flight with a process.
pub open spec fn runs_process(tasks: Map<u128, TaskRecord>, id: u128) -> bool {
    in_flight(tasks, id) && tasks[id].running is Some
}

/// The tasks after the run of the command `id` has ended with `result`:
/// the process keeps its exit status, if it has one, and the task settles
/// by the verdict on the run.
pub open spec fn exited(tasks: Map<u128, TaskRecord>, id: u128, result: Result<ExitStatus, Error>) -> Map<
    u128,
    TaskRecord,
> {
    if runs_process(tasks, id) {
        let process = tasks[id].running->0;
        let ended = match result {
            Ok(status) => ProcessView { status: Some(status), ..process },
            Err(_) => process,
        };
        tasks.insert(
            id,
            settled_record(TaskRecord { running: Some(ended), ..tasks[id] }, verdict(result)),
        )
    } else {
        tasks
    }
}

/// Records a line that the process of the command `task_id` has printed.
/// The answer is `false`, and nothing changes, where the task has no
/// process or the process has ended.
pub fn record_output(server: &mut Server, task_id: u128, line: Output) -> (appended: bool)
    requires
        old(server).wf(),
    ensures
        final(server).wf(),
        appended == prints(old(server)@.tasks, task_id),
        final(server)@ == (ServerView {
            tasks: printed(old(server)@.tasks, task_id, line@),
            ..old(server)@
        }),
        evolves(old(server)@.tasks, final(server)@.tasks),
{
    match server.lookup(task_id) {
        None => {
            return false;
        },
        Some(task) => match &task.running {
            None => {
                return false;
            },
            Some(process) => {
                if process.status().is_some() {
                    return false;
                }
            },
        },
    }
    let mut task = match server.take(task_id) {
        Some(task) => task,
        None => {
            return false;
        },
    };
    let mut process = match task.running {
        Some(process) => process,
        None => Process::new(),
    };
    let appended = process.push(line);
    task.running = Some(process);
    server.put(task_id, task);
    assert(server@.tasks =~= printed(old(server)@.tasks, task_id, line@));
    appended
}

/// Records how the run of the command `task_id` ended, and settles the
/// task: a success if the process exited with code zero, an `ExitFailure`
/// if it exited otherwise, and the run's own error if it could not be
/// spawned or awaited. The answer says whether the task's end was signalled
/// by this call; a call on a task that is not a command in flight with a
/// process changes nothing.
pub fn process_exited(server: &mut Server, task_id: u128, result: Result<ExitStatus, Error>) -> (fired:
    bool)
    requires
        old(server).wf(),
    ensures
        final(server).wf(),
        fired == runs_process(old(server)@.tasks, task_id),
        final(server)@ == (ServerView {
            tasks: exited(old(server)@.tasks, task_id, result),
            ..old(server)@
        }),
        evolves(old(server)@.tasks, final(server)@.tasks),
{
    match server.lookup(task_id) {
        None => {
            return false;
        },
        Some(task) => {
            match task.status {
                TaskStatus::Running => {},
                TaskStatus::Waiting => {},
                _ => {
                    return false;
                },
            }
            if task.running.is_none() {
                return false;
            }
        },
    }
    let mut task = match server.take(task_id) {
        Some(task) => task,
        None => {
            return false;
        },
    };
    let mut process = match task.running {
        Some(process) => process,
        None => Process::new(),
    };
    let error = match result {
        Ok(status) => {
            process.exit(status);
            if status.success() {
                None
            } else {
                Some(Error::ExitFailure(status))
            }
        },
        Err(error) => Some(error),
    };
    task.running = Some(process);
    task.status = match error {
        None => TaskStatus::Success,
        Some(_) => TaskStatus::Failure,
    };
    task.error = error;
    task.finished = true;
    server.put(task_id, task);
    assert(server@.tasks =~= exited(old(server)@.tasks, task_id, result));
    true
}

/// Whether the `index`-th request of a group to start its children is
/// granted: the child exists, is pending, and has not been asked for
/// earlier in the list.
pub open spec fn granted(tasks: Map<u128, TaskRecord>, children: Seq<u128>, index: int) -> bool {
    &&& tasks.contains_key(children[index])
    &&& tasks[children[index]].status == TaskStatus::Pending
    &&& !children.take(index).contains(children[index])
}

/// For each child of a group, whether its start is granted.
pub open spec fn grants(tasks: Map<u128, TaskRecord>, children: Seq<u128>) -> Seq<bool> {
    Seq::new(children.len(), |index: int| granted(tasks, children, index))
}

/// The tasks after every one of `children` has been asked to start: each
/// of them that was pending is started, and nothing else changes.
pub open spec fn started_all(tasks: Map<u128, TaskRecord>, children: Seq<u128>) -> Map<
    u128,
    TaskRecord,
> {
    Map::new(
        |id: u128| tasks.contains_key(id),
        |id: u128|
            if children.contains(id) && tasks[id].status == TaskStatus::Pending {
                admitted(tasks[id])
            } else {
                tasks[id]
            },
    )
}

/// Whether the task `id` is over: settled, or not there at all.
pub open spec fn is_over(tasks: Map<u128, TaskRecord>, id: u128) -> bool {
    tasks.contains_key(id) ==> tasks[id].status.is_settled()
}

/// Whether a child's branch of a composite has failed: its start was
/// refused, or the child did not end as a success.
pub open spec fn branch_failed(tasks: Map<u128, TaskRecord>, child: u128, admitted: bool) -> bool {
    !admitted || wait_answer(tasks, child) is Err
}

/// The first child, from `from` on in list order, whose branch has failed.
pub open spec fn first_failed(
    tasks: Map<u128, TaskRecord>,
    children: Seq<u128>,
    flags: Seq<bool>,
    from: int,
) -> Option<u128>
    decreases children.len() - from,
{
    if from < 0 || from >= children.len() {
        None
    } else if branch_failed(tasks, children[from], flags[from]) {
        Some(children[from])
    } else {
        first_failed(tasks, children, flags, from + 1)
    }
}

/// How a group ends: as a success if no branch has failed, and else as a
/// failure that names the first child in list order whose branch has.
pub open spec fn group_verdict(tasks: Map<u128, TaskRecord>, children: Seq<u128>, flags: Seq<bool>) -> Option<
    Error,
> {
    match first_failed(tasks, children, flags, 0) {
        Some(child) => Some(Error::TaskFailed(child)),
        None => None,
    }
}

/// Whether a group still waits: some child that it started is not over.
pub open spec fn group_waits(tasks: Map<u128, TaskRecord>, children: Seq<u128>, flags: Seq<bool>) -> bool {
    exists|index: int|
        0 <= index < children.len() && flags[index] && !is_over(tasks, #[trigger] children[index])
}

/// What is left to do for a task whose run has begun.
pub enum RunnerView {
    /// Nothing: the run of `task` is over, or there was nothing to run
    /// for it.
    Done { task: u128 },
    /// The process of the command `task` is to be spawned with `args`, its
    /// output recorded and its end reported.
    Process { task: u128, args: Seq<Seq<char>> },
    /// The group `task` has asked each of `children` to start, with the
    /// answers `admitted`; those that were started are to be run, and the
    /// group resumed when all of them are over.
    Group { task: u128, children: Seq<u128>, admitted: Seq<bool> },
    /// The list `task` has started `children[position]`, which is to be
    /// run, and the list resumed when it is over.
    List { task: u128, children: Seq<u128>, position: nat },
}

impl RunnerView {
    /// The task whose run this is.
    pub open spec fn task(self) -> u128 {
        match self {
            RunnerView::Done { task } => task,
            RunnerView::Process { task, .. } => task,
            RunnerView::Group { task, .. } => task,
            RunnerView::List { task, .. } => task,
        }
    }

    /// What holds of every runner: a process has a program to spawn; a
    /// group has one answer for each child and has started at least one; a
    /// list waits for one of its children.
    pub open spec fn wf(self) -> bool {
        match self {
            RunnerView::Done { .. } => true,
            RunnerView::Process { args, .. } => args.len() > 0,
            RunnerView::Group { children, admitted, .. } => admitted.len() == children.len()
                && admitted.contains(true),
            RunnerView::List { children, position, .. } => position < children.len(),
        }
    }

    /// The children that are to be run and waited for before the task is
    /// resumed.
    pub open spec fn awaited(self) -> Seq<u128> {
        match self {
            RunnerView::Done { .. } => Seq::empty(),
            RunnerView::Process { .. } => Seq::empty(),
            RunnerView::Group { children, admitted, .. } => picked(children, admitted),
            RunnerView::List { children, position, .. } => seq![children[position as int]],
        }
    }
}

/// Those of `children` whose flag is set, in order.
pub open spec fn picked(children: Seq<u128>, flags: Seq<bool>) -> Seq<u128>
    decreases children.len(),
{
    if children.len() == 0 {
        Seq::empty()
    } else if flags.last() {
        picked(children.drop_last(), flags.drop_last()).push(children.last())
    } else {
        picked(children.drop_last(), flags.drop_last())
    }
}

/// The tasks and the runner after the list `id` has moved on to the child
/// at `position`. Past the last child the list settles as a success. A
/// child that can be started is started, and the list waits for it. A child
/// that cannot be started, be it unknown or not pending any more, fails the
/// list with `TaskFailed`, as a child that has failed does.
pub open spec fn list_from(
    tasks: Map<u128, TaskRecord>,
    id: u128,
    children: Seq<u128>,
    position: nat,
) -> (Map<u128, TaskRecord>, RunnerView) {
    if position >= children.len() {
        (settled(tasks, id, None), RunnerView::Done { task: id })
    } else {
        let child = children[position as int];
        match start_answer(tasks, child) {
            Ok(_) => (started(tasks, child), RunnerView::List { task: id, children, position }),
            Err(_) => (
                settled(tasks, id, Some(Error::TaskFailed(child))),
                RunnerView::Done { task: id },
            ),
        }
    }
}

/// The tasks and the runner after the group `id` has asked all its
/// children to start. Where at least one was started the group waits; where
/// none was, it settles at once: an empty group as a success, any other as
/// a failure.
pub open spec fn group_from(tasks: Map<u128, TaskRecord>, id: u128, children: Seq<u128>) -> (
    Map<u128, TaskRecord>,
    RunnerView,
) {
    let asked = started_all(tasks, children);
    let flags = grants(tasks, children);
    if flags.contains(true) {
        (asked, RunnerView::Group { task: id, children, admitted: flags })
    } else {
        (settled(asked, id, group_verdict(asked, children, flags)), RunnerView::Done { task: id })
    }
}

/// The tasks and the runner after the run of the task `id` has begun. A
/// running command gets its process; one without arguments names no
/// program to spawn, and fails at once with `CommandFailed`. A waiting
/// group asks all its children to start, a waiting list its first. Any
/// other task, and an unknown one, is left alone.
pub open spec fn begun(tasks: Map<u128, TaskRecord>, id: u128) -> (Map<u128, TaskRecord>, RunnerView) {
    if !tasks.contains_key(id) {
        (tasks, RunnerView::Done { task: id })
    } else {
        match tasks[id].spec {
            TaskShape::Command { args } => if !awaits_process(tasks, id) {
                (tasks, RunnerView::Done { task: id })
            } else if args.len() == 0 {
                (
                    settled(tasks, id, Some(Error::CommandFailed(None))),
                    RunnerView::Done { task: id },
                )
            } else {
                (attached(tasks, id), RunnerView::Process { task: id, args })
            },
            TaskShape::TaskGroup { parallel } => if tasks[id].status == TaskStatus::Waiting {
                group_from(tasks, id, parallel)
            } else {
                (tasks, RunnerView::Done { task: id })
            },
            TaskShape::TaskList { serial } => if tasks[id].status == TaskStatus::Waiting {
                list_from(tasks, id, serial, 0)
            } else {
                (tasks, RunnerView::Done { task: id })
            },
        }
    }
}

/// The tasks and the runner after a run has been resumed. A group that
/// still waits for a child, and a list whose current child is not over,
/// stay as they are. A group whose children are all over settles by its
/// verdict. A list whose current child has succeeded moves on to the next;
/// one whose current child has not, fails with `TaskFailed`.
pub open spec fn resumed(tasks: Map<u128, TaskRecord>, runner: RunnerView) -> (
    Map<u128, TaskRecord>,
    RunnerView,
) {
    match runner {
        RunnerView::Done { .. } => (tasks, runner),
        RunnerView::Process { .. } => (tasks, runner),
        RunnerView::Group { task, children, admitted } => if group_waits(tasks, children, admitted) {
            (tasks, runner)
        } else {
            (
                settled(tasks, task, group_verdict(tasks, children, admitted)),
                RunnerView::Done { task },
            )
        },
        RunnerView::List { task, children, position } => {
            let child = children[position as int];
            if !is_over(tasks, child) {
                (tasks, runner)
            } else if wait_answer(tasks, child) is Ok {
                list_from(tasks, task, children, position + 1)
            } else {
                (settled(tasks, task, Some(Error::TaskFailed(child))), RunnerView::Done { task })
            }
        },
    }
}

/// Where a run stands.
#[derive(Debug)]
enum Phase {
    Done,
    Process { args: Vec<String> },
    Group { children: Vec<u128>, admitted: Vec<bool> },
    List { children: Vec<u128>, position: usize },
}

/// The run of one task: what is left to do for it outside the store. It is
/// made by `run_task` and brought forward by `resume`.
#[derive(Debug)]
pub struct Runner {
    task: u128,
    phase: Phase,
}

impl View for Runner {
    type V = RunnerView;

    closed spec fn view(&self) -> RunnerView {
        match self.phase {
            Phase::Done => RunnerView::Done { task: self.task },
            Phase::Process { args } => RunnerView::Process { task: self.task, args: texts(args@) },
            Phase::Group { children, admitted } => RunnerView::Group {
                task: self.task,
                children: children@,
                admitted: admitted@,
            },
            Phase::List { children, position } => RunnerView::List {
                task: self.task,
                children: children@,
                position: position as nat,
            },
        }
    }
}

impl Runner {
    #[verifier::type_invariant]
    spec fn well_formed(self) -> bool {
        self@.wf()
    }

    /// The task whose run this is.
    pub fn task(&self) -> (r: u128)
        ensures
            r == self@.task(),
    {
        self.task
    }

    /// Whether nothing is left to do.
    pub fn is_done(&self) -> (r: bool)
        ensures
            r == (self@ is Done),
    {
        match &self.phase {
            Phase::Done => true,
            _ => false,
        }
    }

    /// The arguments of the process to spawn, where the run is that of a
    /// command.
    pub fn command(&self) -> (r: Option<Vec<String>>)
        ensures
            match r {
                Some(args) => self@ is Process && texts(args@) == self@->args && args.len() > 0,
                None => !(self@ is Process),
            },
    {
        proof {
            use_type_invariant(self);
        }
        match &self.phase {
            Phase::Process { args } => {
                let copy = args.clone();
                assert(texts(copy@) =~= texts(args@));
                Some(copy)
            },
            _ => None,
        }
    }

    /// The children to run and to wait for before the run is resumed.
    pub fn awaited(&self) -> (r: Vec<u128>)
        ensures
            r@ == self@.awaited(),
    {
        proof {
            use_type_invariant(self);
        }
        match &self.phase {
            Phase::Done => Vec::new(),
            Phase::Process { .. } => Vec::new(),
            Phase::Group { children, admitted } => {
                let mut chosen: Vec<u128> = Vec::new();
                let mut i: usize = 0;
                while i < children.len()
                    invariant
                        i <= children.len(),
                        admitted.len() == children.len(),
                        chosen@ == picked(children@.take(i as int), admitted@.take(i as int)),
                    decreases children.len() - i,
                {
                    proof {
                        let next = i as int + 1;
                        assert(children@.take(next).drop_last() =~= children@.take(i as int));
                        assert(admitted@.take(next).drop_last() =~= admitted@.take(i as int));
                    }
                    if admitted[i] {
                        chosen.push(children[i]);
                    }
                    i = i + 1;
                }
                proof {
                    assert(children@.take(i as int) =~= children@);
                    assert(admitted@.take(i as int) =~= admitted@);
                }
                chosen
            },
            Phase::List { children, position } => {
                let mut chosen: Vec<u128> = Vec::new();
                chosen.push(children[*position]);
                assert(chosen@ =~= seq![children@[*position as int]]);
                chosen
            },
        }
    }
}

/// The run of `task` with nothing left to do.
fn done(task: u128) -> (r: Runner)
    ensures
        r@ == (RunnerView::Done { task }),
{
    Runner { task, phase: Phase::Done }
}

/// Membership in a prefix that is one longer.
proof fn lemma_take_contains(items: Seq<u128>, count: int, id: u128)
    requires
        0 <= count < items.len(),
    ensures
        items.take(count + 1).contains(id) <==> items.take(count).contains(id) || id
            == items[count],
{
    let longer = items.take(count + 1);
    let shorter = items.take(count);
    if longer.contains(id) {
        let at = choose|at: int| 0 <= at < longer.len() && longer[at] == id;
        if at < count {
            assert(shorter[at] == id);
        }
    }
    if shorter.contains(id) {
        let at = choose|at: int| 0 <= at < shorter.len() && shorter[at] == id;
        assert(longer[at] == id);
    }
    if id == items[count] {
        assert(longer[count] == id);
    }
}

/// Asking the children to start one after the other comes to the same as
/// `started_all`, and each answer is as `granted` says.
proof fn lemma_started_next(tasks: Map<u128, TaskRecord>, children: Seq<u128>, count: int)
    requires
        0 <= count < children.len(),
    ensures
        started(started_all(tasks, children.take(count)), children[count]) == started_all(
            tasks,
            children.take(count + 1),
        ),
        start_answer(started_all(tasks, children.take(count)), children[count]) is Ok <==> granted(
            tasks,
            children,
            count,
        ),
{
    let so_far = started_all(tasks, children.take(count));
    let next = started_all(tasks, children.take(count + 1));
    let child = children[count];
    assert forall|id: u128|
        children.take(count + 1).contains(id) <==> children.take(count).contains(id) || id
            == child by {
        lemma_take_contains(children, count, id);
    }
    assert(started(so_far, child) =~= next);
}

/// Asks each of `children` to start, in order, and says for each whether
/// it was started.
fn start_all(server: &mut Server, children: &Vec<u128>) -> (flags: Vec<bool>)
    requires
        old(server).wf(),
    ensures
        final(server).wf(),
        final(server)@ == (ServerView {
            tasks: started_all(old(server)@.tasks, children@),
            ..old(server)@
        }),
        flags@ == grants(old(server)@.tasks, children@),
        evolves(old(server)@.tasks, final(server)@.tasks),
{
    let ghost before = server@;
    let mut flags: Vec<bool> = Vec::new();
    let mut i: usize = 0;
    assert(started_all(before.tasks, children@.take(0)) =~= before.tasks);
    while i < children.len()
        invariant
            i <= children.len(),
            server.wf(),
            server@ == (ServerView {
                tasks: started_all(before.tasks, children@.take(i as int)),
                ..before
            }),
            flags.len() == i,
            forall|j: int| 0 <= j < i ==> flags@[j] == granted(before.tasks, children@, j),
            evolves(before.tasks, server@.tasks),
        decreases children.len() - i,
    {
        proof {
            lemma_started_next(before.tasks, children@, i as int);
        }
        let ghost here = server@.tasks;
        let answer = start_task(server, children[i]);
        flags.push(answer.is_ok());
        assert(evolves(before.tasks, server@.tasks)) by {
            assert forall|id: u128| #[trigger] before.tasks.contains_key(id) implies server@.tasks.contains_key(
                id,
            ) && server@.tasks[id].follows(before.tasks[id]) by {
                assert(here.contains_key(id));
            }
        }
        i = i + 1;
    }
    assert(children@.take(i as int) =~= children@);
    assert(flags@ =~= grants(before.tasks, children@));
    flags
}

/// Whether any flag is set.
fn any(flags: &Vec<bool>) -> (r: bool)
    ensures
        r == flags@.contains(true),
{
    let mut i: usize = 0;
    while i < flags.len()
        invariant
            i <= flags.len(),
            forall|j: int| 0 <= j < i ==> !flags@[j],
        decreases flags.len() - i,
    {
        if flags[i] {
            assert(flags@[i as int] == true);
            return true;
        }
        i = i + 1;
    }
    false
}

/// Begins the run of a waiting group.
fn group_begin(server: &mut Server, task: u128, children: Vec<u128>) -> (runner: Runner)
    requires
        old(server).wf(),
    ensures
        final(server).wf(),
        runner@.wf(),
        (final(server)@.tasks, runner@) == group_from(old(server)@.tasks, task, children@),
        final(server)@ == (ServerView { tasks: final(server)@.tasks, ..old(server)@ }),
        evolves(old(server)@.tasks, final(server)@.tasks),
{
    let ghost before = server@.tasks;
    let flags = start_all(server, &children);
    let ghost asked = server@.tasks;
    if any(&flags) {
        Runner { task, phase: Phase::Group { children, admitted: flags } }
    } else {
        let error = if children.len() == 0 {
            None
        } else {
            Some(Error::TaskFailed(children[0]))
        };
        proof {
            if children.len() > 0 {
                assert(!flags@[0]);
            }
            assert(group_verdict(asked, children@, flags@) == error);
        }
        settle(server, task, error);
        assert(evolves(before, server@.tasks)) by {
            assert forall|id: u128| #[trigger] before.contains_key(id) implies server@.tasks.contains_key(
                id,
            ) && server@.tasks[id].follows(before[id]) by {
                assert(asked.contains_key(id));
            }
        }
        done(task)
    }
}

/// Moves the list `task` on to the child at `position`.
fn list_step(server: &mut Server, task: u128, children: Vec<u128>, position: usize) -> (runner:
    Runner)
    requires
        old(server).wf(),
    ensures
        final(server).wf(),
        runner@.wf(),
        (final(server)@.tasks, runner@) == list_from(
            old(server)@.tasks,
            task,
            children@,
            position as nat,
        ),
        final(server)@ == (ServerView { tasks: final(server)@.tasks, ..old(server)@ }),
        evolves(old(server)@.tasks, final(server)@.tasks),
{
    if position >= children.len() {
        settle(server, task, None);
        return done(task);
    }
    let child = children[position];
    match start_task(server, child) {
        Ok(_) => Runner { task, phase: Phase::List { children, position } },
        Err(_) => {
            settle(server, task, Some(Error::TaskFailed(child)));
            done(task)
        },
    }
}

/// Begins the run of the task `task_id`, which `start_task` has started.
/// A running command is given its process, and the runner says with which
/// arguments to spawn it; a command without arguments fails at once with
/// `CommandFailed`. A waiting group asks all its children to start,
/// in list order, whether or not an earlier one was refused; a waiting
/// list asks its first child. The runner names the children that were
/// started: each is to be run in its turn, and the task resumed when they
/// are over. A composite with nothing to wait for settles at once. A task
/// that is unknown, pending or settled, and a command that has its
/// process, is left alone.
pub fn run_task(server: &mut Server, task_id: u128) -> (runner: Runner)
    requires
        old(server).wf(),
    ensures
        final(server).wf(),
        runner@.wf(),
        (final(server)@.tasks, runner@) == begun(old(server)@.tasks, task_id),
        final(server)@ == (ServerView { tasks: final(server)@.tasks, ..old(server)@ }),
        evolves(old(server)@.tasks, final(server)@.tasks),
{
    let (status, spec, bare) = match server.lookup(task_id) {
        None => {
            return done(task_id);
        },
        Some(task) => (task.status, task.spec.clone(), task.running.is_none()),
    };
    match spec {
        TaskSpec::Command { args } => {
            if !(status == TaskStatus::Running && bare) {
                return done(task_id);
            }
            if args.len() == 0 {
                settle(server, task_id, Some(Error::CommandFailed(None)));
                return done(task_id);
            }
            let mut task = match server.take(task_id) {
                Some(task) => task,
                None => {
                    return done(task_id);
                },
            };
            task.running = Some(Process::new());
            server.put(task_id, task);
            assert(server@.tasks =~= attached(old(server)@.tasks, task_id));
            assert(texts(args@).len() == args@.len());
            Runner { task: task_id, phase: Phase::Process { args } }
        },
        TaskSpec::TaskGroup { parallel } => {
            if status == TaskStatus::Waiting {
                group_begin(server, task_id, parallel)
            } else {
                done(task_id)
            }
        },
        TaskSpec::TaskList { serial } => {
            if status == TaskStatus::Waiting {
                list_step(server, task_id, serial, 0)
            } else {
                done(task_id)
            }
        },
    }
}

/// Whether the task `id` is over: settled, or not there at all. Who
/// waits for a task waits until it is over.
pub fn task_is_over(server: &Server, id: u128) -> (r: bool)
    requires
        server.wf(),
    ensures
        r == is_over(server@.tasks, id),
{
    match server.lookup(id) {
        None => true,
        Some(task) => task.status.settled(),
    }
}

/// Whether a group still waits for a child that it started.
fn waits(server: &Server, children: &Vec<u128>, flags: &Vec<bool>) -> (r: bool)
    requires
        server.wf(),
        flags.len() == children.len(),
    ensures
        r == group_waits(server@.tasks, children@, flags@),
{
    let mut i: usize = 0;
    while i < children.len()
        invariant
            i <= children.len(),
            flags.len() == children.len(),
            server.wf(),
            forall|j: int|
                0 <= j < i ==> !(flags@[j] && !is_over(server@.tasks, #[trigger] children@[j])),
        decreases children.len() - i,
    {
        if flags[i] && !task_is_over(server, children[i]) {
            assert(flags@[i as int] && !is_over(server@.tasks, children@[i as int]));
            return true;
        }
        i = i + 1;
    }
    false
}

/// How a group whose children are over ends.
fn judge(server: &Server, children: &Vec<u128>, flags: &Vec<bool>) -> (r: Option<Error>)
    requires
        server.wf(),
        flags.len() == children.len(),
    ensures
        r == group_verdict(server@.tasks, children@, flags@),
{
    let mut i: usize = 0;
    while i < children.len()
        invariant
            i <= children.len(),
            flags.len() == children.len(),
            server.wf(),
            first_failed(server@.tasks, children@, flags@, 0) == first_failed(
                server@.tasks,
                children@,
                flags@,
                i as int,
            ),
        decreases children.len() - i,
    {
        let failed = if flags[i] {
            wait_task(server, children[i]).is_err()
        } else {
            true
        };
        if failed {
            return Some(Error::TaskFailed(children[i]));
        }
        i = i + 1;
    }
    None
}

/// Brings a run forward once the children it waited for have signalled
/// their end. A group settles only when every child that it started is
/// over: as a success if every child was started and succeeded, and else as
/// a failure that names the first child in list order that was refused or
/// did not succeed. A list whose current child succeeded starts the next
/// child, or settles as a success after the last; a list whose current
/// child did not succeed settles as a failure that names it, and starts no
/// further child. A run that still waits, the run of a command, and a run
/// with nothing left to do come back as they are.
pub fn resume(server: &mut Server, runner: Runner) -> (next: Runner)
    requires
        old(server).wf(),
    ensures
        final(server).wf(),
        next@.wf(),
        (final(server)@.tasks, next@) == resumed(old(server)@.tasks, runner@),
        final(server)@ == (ServerView { tasks: final(server)@.tasks, ..old(server)@ }),
        evolves(old(server)@.tasks, final(server)@.tasks),
{
    proof {
        use_type_invariant(&runner);
    }
    let Runner { task, phase } = runner;
    match phase {
        Phase::Done => Runner { task, phase: Phase::Done },
        Phase::Process { args } => Runner { task, phase: Phase::Process { args } },
        Phase::Group { children, admitted } => {
            if waits(server, &children, &admitted) {
                Runner { task, phase: Phase::Group { children, admitted } }
            } else {
                let error = judge(server, &children, &admitted);
                settle(server, task, error);
                done(task)
            }
        },
        Phase::List { children, position } => {
            assert(position < children.len());
            let child = children[position];
            if !task_is_over(server, child) {
                Runner { task, phase: Phase::List { children, position } }
            } else {
                match wait_task(server, child) {
                    Ok(_) => list_step(server, task, children, position + 1),
                    Err(_) => {
                        settle(server, task, Some(Error::TaskFailed(child)));
                        done(task)
                    },
                }
            }
        },
    }
}

} // verus!
