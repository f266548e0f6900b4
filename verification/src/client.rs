//! What a client of the service computes before it sends a request and
//! after it has an answer: where each request goes, and how the output of
//! a task is followed.

use vstd::prelude::*;
use crate::ident::{hyphenated, id_text};
use crate::tasks::{Task, TaskShape, TaskSpec};

verus! {

/// Where plans are created and listed: the server's address and `/plans`.
pub fn plans_url(server: &str) -> (r: String)
    ensures
        r@ == server@ + "/plans"@,
{
    String::from_str(server).concat("/plans")
}

/// Where the plan `plan_id` is read and materialized: `/plan/` and the
/// plan's identifier.
pub fn plan_url(server: &str, plan_id: u128) -> (r: String)
    ensures
        r@ == server@ + "/plan/"@ + hyphenated(plan_id),
{
    let name = id_text(plan_id);
    String::from_str(server).concat("/plan/").concat(name.as_str())
}

/// Where tasks are created and listed: the server's address and `/tasks`.
pub fn tasks_url(server: &str) -> (r: String)
    ensures
        r@ == server@ + "/tasks"@,
{
    String::from_str(server).concat("/tasks")
}

/// Where the task `task_id` is read: `/tasks/` and the task's identifier.
pub fn task_url(server: &str, task_id: u128) -> (r: String)
    ensures
        r@ == server@ + "/tasks/"@ + hyphenated(task_id),
{
    let name = id_text(task_id);
    String::from_str(server).concat("/tasks/").concat(name.as_str())
}

/// Where the task `task_id` is started.
pub fn task_start_url(server: &str, task_id: u128) -> (r: String)
    ensures
        r@ == server@ + "/tasks/"@ + hyphenated(task_id) + "/start"@,
{
    task_url(server, task_id).concat("/start")
}

/// Where the output of the task `task_id` is read.
pub fn task_output_url(server: &str, task_id: u128) -> (r: String)
    ensures
        r@ == server@ + "/tasks/"@ + hyphenated(task_id) + "/output"@,
{
    task_url(server, task_id).concat("/output")
}

/// How the output of a task is followed.
#[derive(Debug, PartialEq, Eq)]
pub enum Tail {
    /// A command: its own output is read to the end.
    Output { task: u128 },
    /// A group: the outputs of its children are followed side by side.
    Together { children: Vec<u128> },
    /// A list: the outputs of its children are followed one after the
    /// other, in order.
    InTurn { children: Vec<u128> },
}

/// A way to follow a task's output as a mathematical value.
pub enum TailView {
    Output { task: u128 },
    Together { children: Seq<u128> },
    InTurn { children: Seq<u128> },
}

impl View for Tail {
    type V = TailView;

    open spec fn view(&self) -> TailView {
        match self {
            Tail::Output { task } => TailView::Output { task: *task },
            Tail::Together { children } => TailView::Together { children: children@ },
            Tail::InTurn { children } => TailView::InTurn { children: children@ },
        }
    }
}

/// How the output of the task `id` with the specification `spec` is
/// followed.
pub open spec fn tail_of(id: u128, spec: TaskShape) -> TailView {
    match spec {
        TaskShape::Command { .. } => TailView::Output { task: id },
        TaskShape::TaskGroup { parallel } => TailView::Together { children: parallel },
        TaskShape::TaskList { serial } => TailView::InTurn { children: serial },
    }
}

/// Says how to follow the output of `task`: a command's own output is
/// read; of a composite, the outputs of its children are followed, side by
/// side for a group and in order for a list.
pub fn tail_task(task: &Task) -> (r: Tail)
    ensures
        r@ == tail_of(task.id, task.spec@),
{
    match &task.spec {
        TaskSpec::Command { .. } => Tail::Output { task: task.id },
        TaskSpec::TaskGroup { parallel } => Tail::Together { children: parallel.clone() },
        TaskSpec::TaskList { serial } => Tail::InTurn { children: serial.clone() },
    }
}

} // verus!
