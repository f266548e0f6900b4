use egg::server::handlers;
use egg::server::run;
use egg::{
    CreatePlan, CreateTask, Error, ExitStatus, Output, PlanSpec, Pull, Server, ServerError,
    TaskSpec, TaskStatus,
};

fn words(items: &[&str]) -> Vec<String> {
    items.iter().map(|item| item.to_string()).collect()
}

fn command(items: &[&str]) -> TaskSpec {
    TaskSpec::Command { args: words(items) }
}

fn leaf(items: &[&str]) -> PlanSpec {
    PlanSpec::Command { args: words(items) }
}

fn exit(code: i32) -> Result<ExitStatus, Error> {
    Ok(ExitStatus { code: Some(code) })
}

/// What a process does in these tests: what it prints and how it ends.
fn play(args: &[String]) -> (Vec<Output>, Result<ExitStatus, Error>) {
    let shown: Vec<&str> = args.iter().map(|arg| arg.as_str()).collect();
    match shown.as_slice() {
        ["true"] => (vec![], exit(0)),
        ["false"] => (vec![], exit(1)),
        ["/bin/sh", "-c", "echo hello"] => (vec![Output::Stdout("hello".to_string())], exit(0)),
        ["/bin/sh", "-c", "exit 3"] => (vec![], exit(3)),
        ["/bin/sh", "-c", "echo oops >&2; exit 2"] => {
            (vec![Output::Stderr("oops".to_string())], exit(2))
        }
        _ => (vec![], Err(Error::CommandFailed(Some(2)))),
    }
}

/// Runs a started task to its end, as the program around the library does:
/// processes are played, children are run before their parent is resumed.
fn drive(server: &mut Server, id: u128) {
    let mut runner = run::run_task(server, id);
    loop {
        if runner.is_done() {
            return;
        }
        if let Some(args) = runner.command() {
            let (lines, result) = play(&args);
            assert_eq!(runner.task(), id);
            for line in lines {
                assert!(run::record_output(server, id, line));
            }
            assert!(run::process_exited(server, id, result));
            return;
        }
        for child in runner.awaited() {
            drive(server, child);
        }
        runner = run::resume(server, runner);
    }
}

fn status(server: &Server, id: u128) -> TaskStatus {
    server.lookup(id).expect("the task is stored").status
}

fn failure(server: &Server, id: u128) -> Option<Error> {
    server.lookup(id).expect("the task is stored").error
}

fn children(server: &Server, id: u128) -> Vec<u128> {
    match &server.lookup(id).expect("the task is stored").spec {
        TaskSpec::Command { .. } => vec![],
        TaskSpec::TaskGroup { parallel } => parallel.clone(),
        TaskSpec::TaskList { serial } => serial.clone(),
    }
}

fn materialized(server: &mut Server, spec: PlanSpec) -> u128 {
    let plan = handlers::create_plan(server, CreatePlan { spec }).expect("a new plan");
    handlers::plan(server, plan.id).expect("its tasks").id
}

#[test]
fn simple_command_success() {
    let mut server = Server::new(false);
    let body = CreateTask { spec: command(&["/bin/sh", "-c", "echo hello"]) };
    let task = handlers::create_task(&mut server, body).unwrap();
    assert_eq!(task.status, TaskStatus::Pending);
    assert_eq!(task.plan, None);

    let state = handlers::start_task(&mut server, task.id).unwrap();
    assert_eq!(state.id, task.id);
    assert_eq!(state.status, TaskStatus::Running);
    assert_eq!(state.spec, command(&["/bin/sh", "-c", "echo hello"]));
    drive(&mut server, task.id);

    let mut stream = handlers::task_output_stream(&server, task.id).unwrap();
    let process = server.lookup(task.id).unwrap().running.as_ref().unwrap();
    assert_eq!(stream.poll_next(process), Pull::Line(Output::Stdout("hello".to_string())));
    assert_eq!(stream.poll_next(process), Pull::End);
    assert_eq!(stream.poll_next(process), Pull::End);
    assert_eq!(process.status(), Some(ExitStatus { code: Some(0) }));
    assert_eq!(status(&server, task.id), TaskStatus::Success);
    assert_eq!(failure(&server, task.id), None);
    assert!(server.lookup(task.id).unwrap().finished);
}

#[test]
fn simple_command_failure() {
    let mut server = Server::new(false);
    let body = CreateTask { spec: command(&["/bin/sh", "-c", "exit 3"]) };
    let task = handlers::create_task(&mut server, body).unwrap();
    handlers::start_task(&mut server, task.id).unwrap();
    drive(&mut server, task.id);

    assert_eq!(status(&server, task.id), TaskStatus::Failure);
    assert_eq!(
        failure(&server, task.id),
        Some(Error::ExitFailure(ExitStatus { code: Some(3) }))
    );
    assert_eq!(
        run::wait_task(&server, task.id),
        Err(Error::ExitFailure(ExitStatus { code: Some(3) }))
    );
    assert!(run::is_finished(&server, task.id));
}

#[test]
fn parallel_success() {
    let mut server = Server::new(false);
    let spec = PlanSpec::TaskGroup {
        parallel: vec![leaf(&["true"]), leaf(&["true"]), leaf(&["true"])],
    };
    let root = materialized(&mut server, spec);
    let state = handlers::start_task(&mut server, root).unwrap();
    assert_eq!(state.status, TaskStatus::Waiting);
    drive(&mut server, root);

    let below = children(&server, root);
    assert_eq!(below.len(), 3);
    assert_eq!(handlers::list_tasks(&server).len(), 4);
    assert_eq!(status(&server, root), TaskStatus::Success);
    for child in below {
        assert_eq!(status(&server, child), TaskStatus::Success);
    }
}

#[test]
fn parallel_with_one_failure() {
    let mut server = Server::new(false);
    let spec = PlanSpec::TaskGroup {
        parallel: vec![leaf(&["true"]), leaf(&["false"]), leaf(&["true"])],
    };
    let root = materialized(&mut server, spec);
    handlers::start_task(&mut server, root).unwrap();
    drive(&mut server, root);

    let below = children(&server, root);
    assert_eq!(status(&server, root), TaskStatus::Failure);
    assert_eq!(failure(&server, root), Some(Error::TaskFailed(below[1])));
    assert_eq!(status(&server, below[0]), TaskStatus::Success);
    assert_eq!(status(&server, below[1]), TaskStatus::Failure);
    assert_eq!(
        failure(&server, below[1]),
        Some(Error::ExitFailure(ExitStatus { code: Some(1) }))
    );
    assert_eq!(status(&server, below[2]), TaskStatus::Success);
}

#[test]
fn serial_with_early_failure() {
    let mut server = Server::new(false);
    let spec = PlanSpec::TaskList {
        serial: vec![leaf(&["true"]), leaf(&["false"]), leaf(&["true"])],
    };
    let root = materialized(&mut server, spec);
    handlers::start_task(&mut server, root).unwrap();
    drive(&mut server, root);

    let below = children(&server, root);
    assert_eq!(status(&server, root), TaskStatus::Failure);
    assert_eq!(failure(&server, root), Some(Error::TaskFailed(below[1])));
    assert_eq!(status(&server, below[0]), TaskStatus::Success);
    assert_eq!(status(&server, below[1]), TaskStatus::Failure);
    assert_eq!(status(&server, below[2]), TaskStatus::Pending);
    assert!(server.lookup(below[2]).unwrap().running.is_none());
    assert!(!server.lookup(below[2]).unwrap().finished);
}

#[test]
fn stream_concurrency() {
    let mut server = Server::new(false);
    let body = CreateTask { spec: command(&["/bin/sh", "-c", "seq 1 1000"]) };
    let task = handlers::create_task(&mut server, body).unwrap();
    handlers::start_task(&mut server, task.id).unwrap();
    let runner = run::run_task(&mut server, task.id);
    assert_eq!(runner.command(), Some(words(&["/bin/sh", "-c", "seq 1 1000"])));

    let mut first = handlers::task_output_stream(&server, task.id).unwrap();
    let mut second = handlers::task_output_stream(&server, task.id).unwrap();
    let mut seen_first: Vec<Output> = vec![];
    let mut seen_second: Vec<Output> = vec![];
    let mut ended_first = false;
    let mut ended_second = false;

    for number in 1..=1000 {
        assert!(run::record_output(&mut server, task.id, Output::Stdout(number.to_string())));
        let process = server.lookup(task.id).unwrap().running.as_ref().unwrap();
        // The first reader keeps up; the second reads every third round.
        loop {
            match first.poll_next(process) {
                Pull::Line(line) => seen_first.push(line),
                Pull::Wait => break,
                Pull::End => panic!("the process has not ended"),
            }
        }
        if number % 3 == 0 {
            match second.poll_next(process) {
                Pull::Line(line) => seen_second.push(line),
                other => panic!("a line was there: {:?}", other),
            }
        }
    }
    assert!(run::process_exited(&mut server, task.id, exit(0)));
    let process = server.lookup(task.id).unwrap().running.as_ref().unwrap();
    while !ended_first || !ended_second {
        match first.poll_next(process) {
            Pull::Line(line) => seen_first.push(line),
            Pull::End => ended_first = true,
            Pull::Wait => panic!("the process has ended"),
        }
        match second.poll_next(process) {
            Pull::Line(line) => seen_second.push(line),
            Pull::End => ended_second = true,
            Pull::Wait => panic!("the process has ended"),
        }
    }

    let expected: Vec<Output> = (1..=1000).map(|n: u32| Output::Stdout(n.to_string())).collect();
    assert_eq!(seen_first, expected);
    assert_eq!(seen_second, expected);
    assert_eq!(first.pulled(), 1000);
    assert_eq!(second.pulled(), 1000);
    assert_eq!(process.lines(), expected);
    assert_eq!(process.len(), 1000);
}

#[test]
fn second_start_is_invalid_task_state() {
    let mut server = Server::new(false);
    let task = handlers::create_task(&mut server, CreateTask { spec: command(&["true"]) }).unwrap();
    assert!(handlers::start_task(&mut server, task.id).is_ok());
    assert_eq!(
        handlers::start_task(&mut server, task.id),
        Err(ServerError::InvalidTaskState(task.id))
    );
    drive(&mut server, task.id);
    assert_eq!(
        handlers::start_task(&mut server, task.id),
        Err(ServerError::InvalidTaskState(task.id))
    );
    assert_eq!(status(&server, task.id), TaskStatus::Success);
}

#[test]
fn start_of_unknown_task_is_not_found() {
    let mut server = Server::new(false);
    assert_eq!(handlers::start_task(&mut server, 42), Err(ServerError::TaskNotFound(42)));
    assert_eq!(run::start_task(&mut server, 42), Err(ServerError::TaskNotFound(42)));
    assert_eq!(handlers::list_tasks(&server).len(), 0);
}

#[test]
fn start_gives_running_to_commands_and_waiting_to_composites() {
    let mut server = Server::new(false);
    server.insert_task(1, None, command(&["true"])).unwrap();
    server.insert_task(2, None, TaskSpec::TaskGroup { parallel: vec![1] }).unwrap();
    server.insert_task(3, None, TaskSpec::TaskList { serial: vec![1] }).unwrap();
    assert_eq!(run::start_task(&mut server, 1).unwrap().status, TaskStatus::Running);
    assert_eq!(run::start_task(&mut server, 2).unwrap().status, TaskStatus::Waiting);
    assert_eq!(run::start_task(&mut server, 3).unwrap().status, TaskStatus::Waiting);
    assert_eq!(status(&server, 1), TaskStatus::Running);
    assert_eq!(status(&server, 2), TaskStatus::Waiting);
    assert_eq!(status(&server, 3), TaskStatus::Waiting);
}

#[test]
fn settled_status_never_changes() {
    let mut server = Server::new(false);
    server.insert_task(1, None, command(&["true"])).unwrap();
    run::start_task(&mut server, 1).unwrap();
    assert!(run::finish_task(&mut server, 1));
    assert_eq!(status(&server, 1), TaskStatus::Success);

    assert!(!run::fail_task(&mut server, 1, Error::TaskFailed(1)));
    assert!(!run::finish_task(&mut server, 1));
    assert!(!run::process_exited(&mut server, 1, exit(1)));
    assert_eq!(status(&server, 1), TaskStatus::Success);
    assert_eq!(failure(&server, 1), None);
    assert!(server.lookup(1).unwrap().finished);

    server.insert_task(2, None, command(&["false"])).unwrap();
    run::start_task(&mut server, 2).unwrap();
    assert!(run::fail_task(&mut server, 2, Error::CommandFailed(None)));
    assert!(!run::finish_task(&mut server, 2));
    assert!(!run::fail_task(&mut server, 2, Error::TaskFailed(2)));
    assert_eq!(status(&server, 2), TaskStatus::Failure);
    assert_eq!(failure(&server, 2), Some(Error::CommandFailed(None)));
}

#[test]
fn only_a_task_in_flight_settles() {
    let mut server = Server::new(false);
    server.insert_task(1, None, command(&["true"])).unwrap();
    assert!(!run::finish_task(&mut server, 1));
    assert!(!run::fail_task(&mut server, 1, Error::TaskFailed(1)));
    assert!(!run::finish_task(&mut server, 9));
    assert_eq!(status(&server, 1), TaskStatus::Pending);
    assert!(!run::is_finished(&server, 1));
    assert!(!run::is_finished(&server, 9));
}

#[test]
fn empty_composites_succeed_at_once() {
    let mut server = Server::new(false);
    let group = materialized(&mut server, PlanSpec::TaskGroup { parallel: vec![] });
    let list = materialized(&mut server, PlanSpec::TaskList { serial: vec![] });
    assert_eq!(children(&server, group), Vec::<u128>::new());
    assert_eq!(children(&server, list), Vec::<u128>::new());

    handlers::start_task(&mut server, group).unwrap();
    assert_eq!(status(&server, group), TaskStatus::Waiting);
    assert!(run::run_task(&mut server, group).is_done());
    assert_eq!(status(&server, group), TaskStatus::Success);

    handlers::start_task(&mut server, list).unwrap();
    assert!(run::run_task(&mut server, list).is_done());
    assert_eq!(status(&server, list), TaskStatus::Success);
}

#[test]
fn group_starts_every_child_and_waits_for_all() {
    let mut server = Server::new(false);
    server.insert_task(1, None, command(&["false"])).unwrap();
    server.insert_task(2, None, command(&["true"])).unwrap();
    server.insert_task(3, None, command(&["true"])).unwrap();
    server.insert_task(9, None, TaskSpec::TaskGroup { parallel: vec![1, 2, 3] }).unwrap();
    run::start_task(&mut server, 9).unwrap();

    let runner = run::run_task(&mut server, 9);
    assert_eq!(runner.task(), 9);
    assert_eq!(runner.awaited(), vec![1, 2, 3]);
    assert_eq!(runner.command(), None);
    for child in [1, 2, 3] {
        assert_eq!(status(&server, child), TaskStatus::Running);
    }

    // The first child fails while the others still run: the group waits.
    drive(&mut server, 1);
    assert_eq!(status(&server, 1), TaskStatus::Failure);
    let runner = run::resume(&mut server, runner);
    assert!(!runner.is_done());
    assert_eq!(status(&server, 9), TaskStatus::Waiting);

    drive(&mut server, 3);
    let runner = run::resume(&mut server, runner);
    assert!(!runner.is_done());
    assert_eq!(status(&server, 9), TaskStatus::Waiting);

    drive(&mut server, 2);
    let runner = run::resume(&mut server, runner);
    assert!(runner.is_done());
    assert_eq!(status(&server, 9), TaskStatus::Failure);
    assert_eq!(failure(&server, 9), Some(Error::TaskFailed(1)));
    assert_eq!(status(&server, 2), TaskStatus::Success);
    assert_eq!(status(&server, 3), TaskStatus::Success);
}

#[test]
fn group_names_the_first_failed_child_in_list_order() {
    let mut server = Server::new(false);
    server.insert_task(1, None, command(&["true"])).unwrap();
    server.insert_task(2, None, command(&["false"])).unwrap();
    server.insert_task(3, None, command(&["false"])).unwrap();
    server.insert_task(9, None, TaskSpec::TaskGroup { parallel: vec![1, 2, 3] }).unwrap();
    run::start_task(&mut server, 9).unwrap();
    let runner = run::run_task(&mut server, 9);
    // The third child fails before the second does.
    drive(&mut server, 3);
    drive(&mut server, 1);
    drive(&mut server, 2);
    assert!(run::resume(&mut server, runner).is_done());
    assert_eq!(failure(&server, 9), Some(Error::TaskFailed(2)));
}

#[test]
fn group_with_a_child_that_cannot_start_fails() {
    let mut server = Server::new(false);
    server.insert_task(1, None, command(&["true"])).unwrap();
    server.insert_task(2, None, command(&["true"])).unwrap();
    // 7 is unknown, and 1 is named twice.
    server.insert_task(9, None, TaskSpec::TaskGroup { parallel: vec![1, 7, 2, 1] }).unwrap();
    run::start_task(&mut server, 9).unwrap();
    let runner = run::run_task(&mut server, 9);
    assert_eq!(runner.awaited(), vec![1, 2]);
    drive(&mut server, 1);
    drive(&mut server, 2);
    assert!(run::resume(&mut server, runner).is_done());
    assert_eq!(status(&server, 1), TaskStatus::Success);
    assert_eq!(status(&server, 2), TaskStatus::Success);
    assert_eq!(status(&server, 9), TaskStatus::Failure);
    assert_eq!(failure(&server, 9), Some(Error::TaskFailed(7)));
}

#[test]
fn group_whose_children_cannot_start_fails_at_once() {
    let mut server = Server::new(false);
    server.insert_task(9, None, TaskSpec::TaskGroup { parallel: vec![5, 6] }).unwrap();
    run::start_task(&mut server, 9).unwrap();
    assert!(run::run_task(&mut server, 9).is_done());
    assert_eq!(status(&server, 9), TaskStatus::Failure);
    assert_eq!(failure(&server, 9), Some(Error::TaskFailed(5)));
}

#[test]
fn list_runs_children_one_after_the_other() {
    let mut server = Server::new(false);
    server.insert_task(1, None, command(&["true"])).unwrap();
    server.insert_task(2, None, command(&["true"])).unwrap();
    server.insert_task(9, None, TaskSpec::TaskList { serial: vec![1, 2] }).unwrap();
    run::start_task(&mut server, 9).unwrap();

    let runner = run::run_task(&mut server, 9);
    assert_eq!(runner.awaited(), vec![1]);
    assert_eq!(status(&server, 1), TaskStatus::Running);
    assert_eq!(status(&server, 2), TaskStatus::Pending);

    // Resumed too early, the list stays where it is.
    let runner = run::resume(&mut server, runner);
    assert_eq!(runner.awaited(), vec![1]);
    assert_eq!(status(&server, 2), TaskStatus::Pending);

    drive(&mut server, 1);
    assert_eq!(status(&server, 2), TaskStatus::Pending);
    let runner = run::resume(&mut server, runner);
    assert_eq!(runner.awaited(), vec![2]);
    assert_eq!(status(&server, 1), TaskStatus::Success);
    assert_eq!(status(&server, 2), TaskStatus::Running);
    assert_eq!(status(&server, 9), TaskStatus::Waiting);

    drive(&mut server, 2);
    let runner = run::resume(&mut server, runner);
    assert!(runner.is_done());
    assert_eq!(runner.task(), 9);
    assert_eq!(runner.awaited(), Vec::<u128>::new());
    assert_eq!(status(&server, 9), TaskStatus::Success);
    assert!(run::resume(&mut server, runner).is_done());
    assert_eq!(status(&server, 9), TaskStatus::Success);
}

#[test]
fn list_with_an_unknown_child_fails_with_task_failed() {
    let mut server = Server::new(false);
    server.insert_task(1, None, command(&["true"])).unwrap();
    server.insert_task(9, None, TaskSpec::TaskList { serial: vec![1, 7] }).unwrap();
    run::start_task(&mut server, 9).unwrap();
    drive(&mut server, 9);
    assert_eq!(status(&server, 1), TaskStatus::Success);
    assert_eq!(status(&server, 9), TaskStatus::Failure);
    assert_eq!(failure(&server, 9), Some(Error::TaskFailed(7)));
}

#[test]
fn list_with_a_child_already_started_fails_with_task_failed() {
    let mut server = Server::new(false);
    server.insert_task(1, None, command(&["true"])).unwrap();
    server.insert_task(9, None, TaskSpec::TaskList { serial: vec![1] }).unwrap();
    run::start_task(&mut server, 1).unwrap();
    run::start_task(&mut server, 9).unwrap();
    assert!(run::run_task(&mut server, 9).is_done());
    assert_eq!(status(&server, 9), TaskStatus::Failure);
    assert_eq!(failure(&server, 9), Some(Error::TaskFailed(1)));
    assert_eq!(status(&server, 1), TaskStatus::Running);
}

#[test]
fn nested_plan_runs_to_the_end() {
    let mut server = Server::new(false);
    let spec = PlanSpec::TaskList {
        serial: vec![
            PlanSpec::TaskGroup { parallel: vec![leaf(&["true"]), leaf(&["true"])] },
            leaf(&["/bin/sh", "-c", "echo hello"]),
            PlanSpec::TaskList { serial: vec![] },
        ],
    };
    let root = materialized(&mut server, spec);
    handlers::start_task(&mut server, root).unwrap();
    drive(&mut server, root);
    assert_eq!(handlers::list_tasks(&server).len(), 6);
    for task in handlers::list_tasks(&server) {
        assert_eq!(task.status, TaskStatus::Success);
    }
}

#[test]
fn command_that_cannot_be_spawned_fails_with_command_failed() {
    let mut server = Server::new(false);
    let body = CreateTask { spec: command(&["/no/such/program"]) };
    let task = handlers::create_task(&mut server, body).unwrap();
    handlers::start_task(&mut server, task.id).unwrap();
    drive(&mut server, task.id);
    assert_eq!(status(&server, task.id), TaskStatus::Failure);
    assert_eq!(failure(&server, task.id), Some(Error::CommandFailed(Some(2))));
    let process = server.lookup(task.id).unwrap().running.as_ref().unwrap();
    assert_eq!(process.status(), None);
}

#[test]
fn process_ended_by_a_signal_fails_the_task() {
    let mut server = Server::new(false);
    server.insert_task(1, None, command(&["sleep", "100"])).unwrap();
    run::start_task(&mut server, 1).unwrap();
    run::run_task(&mut server, 1);
    assert!(run::process_exited(&mut server, 1, Ok(ExitStatus { code: None })));
    assert_eq!(status(&server, 1), TaskStatus::Failure);
    assert_eq!(failure(&server, 1), Some(Error::ExitFailure(ExitStatus { code: None })));
}

#[test]
fn run_leaves_alone_what_was_not_started() {
    let mut server = Server::new(false);
    server.insert_task(1, None, command(&["true"])).unwrap();
    server.insert_task(2, None, TaskSpec::TaskGroup { parallel: vec![1] }).unwrap();
    assert!(run::run_task(&mut server, 1).is_done());
    assert!(run::run_task(&mut server, 2).is_done());
    assert!(run::run_task(&mut server, 3).is_done());
    assert_eq!(status(&server, 1), TaskStatus::Pending);
    assert_eq!(status(&server, 2), TaskStatus::Pending);
    assert!(server.lookup(1).unwrap().running.is_none());
    assert!(server.lookup(3).is_none());
}

#[test]
fn command_gets_its_process_once() {
    let mut server = Server::new(false);
    server.insert_task(1, None, command(&["/bin/sh", "-c", "echo hello"])).unwrap();
    run::start_task(&mut server, 1).unwrap();
    assert!(server.lookup(1).unwrap().running.is_none());
    let runner = run::run_task(&mut server, 1);
    assert_eq!(runner.command(), Some(words(&["/bin/sh", "-c", "echo hello"])));
    assert_eq!(runner.task(), 1);
    assert!(run::record_output(&mut server, 1, Output::Stdout("hello".to_string())));
    // A second run does not replace the process.
    assert!(run::run_task(&mut server, 1).is_done());
    assert_eq!(server.lookup(1).unwrap().running.as_ref().unwrap().len(), 1);
    // Resuming the run of a command changes nothing.
    let runner = run::resume(&mut server, runner);
    assert_eq!(runner.command(), Some(words(&["/bin/sh", "-c", "echo hello"])));
    assert_eq!(status(&server, 1), TaskStatus::Running);
}

#[test]
fn output_is_recorded_only_while_the_process_runs() {
    let mut server = Server::new(false);
    server.insert_task(1, None, command(&["true"])).unwrap();
    assert!(!run::record_output(&mut server, 1, Output::Stdout("early".to_string())));
    assert!(!run::record_output(&mut server, 8, Output::Stdout("nobody".to_string())));
    run::start_task(&mut server, 1).unwrap();
    assert!(!run::record_output(&mut server, 1, Output::Stdout("early".to_string())));
    run::run_task(&mut server, 1);
    assert!(run::record_output(&mut server, 1, Output::Stderr("now".to_string())));
    assert!(run::process_exited(&mut server, 1, exit(0)));
    assert!(!run::record_output(&mut server, 1, Output::Stdout("late".to_string())));
    let process = server.lookup(1).unwrap().running.as_ref().unwrap();
    assert_eq!(process.lines(), vec![Output::Stderr("now".to_string())]);
}

#[test]
fn wait_reads_how_a_task_ended() {
    let mut server = Server::new(false);
    server.insert_task(1, None, command(&["true"])).unwrap();
    assert_eq!(run::wait_task(&server, 5), Err(Error::TaskNotFound(5)));
    assert_eq!(run::wait_task(&server, 1), Err(Error::TaskFailed(1)));
    run::start_task(&mut server, 1).unwrap();
    assert_eq!(run::wait_task(&server, 1), Err(Error::TaskFailed(1)));
    drive(&mut server, 1);
    assert_eq!(run::wait_task(&server, 1), Ok(()));
}

#[test]
fn output_stream_needs_a_process() {
    let mut server = Server::new(false);
    server.insert_task(1, None, command(&["true"])).unwrap();
    server.insert_task(2, None, TaskSpec::TaskGroup { parallel: vec![] }).unwrap();
    assert_eq!(
        handlers::task_output_stream(&server, 1).err(),
        Some(ServerError::TaskNotFound(1))
    );
    assert_eq!(
        handlers::task_output_stream(&server, 2).err(),
        Some(ServerError::TaskNotFound(2))
    );
    assert_eq!(
        handlers::task_output_stream(&server, 3).err(),
        Some(ServerError::TaskNotFound(3))
    );
    run::start_task(&mut server, 1).unwrap();
    assert!(handlers::task_output_stream(&server, 1).is_err());
    run::run_task(&mut server, 1);
    let stream = handlers::task_output_stream(&server, 1).unwrap();
    assert_eq!(stream.pulled(), 0);
    run::start_task(&mut server, 2).unwrap();
    run::run_task(&mut server, 2);
    assert!(handlers::task_output_stream(&server, 2).is_err());
}

#[test]
fn stderr_lines_keep_their_tag() {
    let mut server = Server::new(false);
    let body = CreateTask { spec: command(&["/bin/sh", "-c", "echo oops >&2; exit 2"]) };
    let task = handlers::create_task(&mut server, body).unwrap();
    handlers::start_task(&mut server, task.id).unwrap();
    drive(&mut server, task.id);
    let mut stream = handlers::task_output_stream(&server, task.id).unwrap();
    let process = server.lookup(task.id).unwrap().running.as_ref().unwrap();
    assert_eq!(stream.poll_next(process), Pull::Line(Output::Stderr("oops".to_string())));
    assert_eq!(stream.poll_next(process), Pull::End);
    assert_eq!(
        failure(&server, task.id),
        Some(Error::ExitFailure(ExitStatus { code: Some(2) }))
    );
}

#[test]
fn command_without_arguments_fails_when_its_run_begins() {
    let mut server = Server::new(false);
    let task = handlers::create_task(&mut server, CreateTask { spec: command(&[]) }).unwrap();
    let state = handlers::start_task(&mut server, task.id).unwrap();
    assert_eq!(state.status, TaskStatus::Running);
    let runner = run::run_task(&mut server, task.id);
    assert!(runner.is_done());
    assert_eq!(runner.command(), None);
    assert_eq!(status(&server, task.id), TaskStatus::Failure);
    assert_eq!(failure(&server, task.id), Some(Error::CommandFailed(None)));
    assert!(server.lookup(task.id).unwrap().running.is_none());
    assert!(handlers::task_output_stream(&server, task.id).is_err());
}

#[test]
fn output_is_pulled_through_the_store() {
    let mut server = Server::new(false);
    server.insert_task(1, None, command(&["true"])).unwrap();
    server.insert_task(2, None, TaskSpec::TaskGroup { parallel: vec![] }).unwrap();
    run::start_task(&mut server, 1).unwrap();
    run::run_task(&mut server, 1);
    let mut stream = handlers::task_output_stream(&server, 1).unwrap();
    assert_eq!(handlers::poll_output(&server, 1, &mut stream), Pull::Wait);
    run::record_output(&mut server, 1, Output::Stdout("one".to_string()));
    assert_eq!(
        handlers::poll_output(&server, 1, &mut stream),
        Pull::Line(Output::Stdout("one".to_string()))
    );
    assert_eq!(handlers::poll_output(&server, 1, &mut stream), Pull::Wait);
    run::process_exited(&mut server, 1, exit(0));
    assert_eq!(handlers::poll_output(&server, 1, &mut stream), Pull::End);
    assert_eq!(stream.pulled(), 1);
    // Without a process there is nothing to read.
    assert_eq!(handlers::poll_output(&server, 2, &mut stream), Pull::End);
    assert_eq!(handlers::poll_output(&server, 3, &mut stream), Pull::End);
    assert_eq!(stream.pulled(), 1);
}

#[test]
fn a_task_is_over_when_it_is_settled_or_gone() {
    let mut server = Server::new(false);
    server.insert_task(1, None, command(&["true"])).unwrap();
    assert!(!run::task_is_over(&server, 1));
    assert!(run::task_is_over(&server, 2));
    run::start_task(&mut server, 1).unwrap();
    assert!(!run::task_is_over(&server, 1));
    drive(&mut server, 1);
    assert!(run::task_is_over(&server, 1));
}
