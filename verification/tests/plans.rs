use egg::ident::marked_random;
use egg::server::handlers;
use egg::server::plan::task;
use egg::{
    CreatePlan, CreateTask, Error, Plan, PlanSpec, Server, ServerError, Task, TaskPlan, TaskSpec,
    TaskStatus,
};

fn words(items: &[&str]) -> Vec<String> {
    items.iter().map(|item| item.to_string()).collect()
}

fn leaf(items: &[&str]) -> PlanSpec {
    PlanSpec::Command { args: words(items) }
}

fn sample() -> PlanSpec {
    PlanSpec::TaskList {
        serial: vec![
            leaf(&["make", "clean"]),
            PlanSpec::TaskGroup {
                parallel: vec![leaf(&["make", "lib"]), leaf(&["make", "doc"])],
            },
            PlanSpec::TaskGroup { parallel: vec![] },
            leaf(&["make", "install"]),
        ],
    }
}

/// Checks that the task `id` and the tasks below it have the shape of
/// `spec`, and counts them.
fn same_shape(server: &Server, id: u128, origin: TaskPlan, spec: &PlanSpec) -> usize {
    let held = server.lookup(id).expect("the task is stored");
    assert_eq!(held.plan, Some(origin));
    assert_eq!(held.status, TaskStatus::Pending);
    assert!(held.running.is_none());
    assert!(!held.finished);
    assert_eq!(held.error, None);
    match (spec, &held.spec) {
        (PlanSpec::Command { args }, TaskSpec::Command { args: held_args }) => {
            assert_eq!(args, held_args);
            1
        }
        (PlanSpec::TaskGroup { parallel }, TaskSpec::TaskGroup { parallel: ids }) => {
            assert_eq!(parallel.len(), ids.len());
            let mut count = 1;
            for (child, below) in ids.iter().zip(parallel.iter()) {
                count += same_shape(server, *child, origin, below);
            }
            count
        }
        (PlanSpec::TaskList { serial }, TaskSpec::TaskList { serial: ids }) => {
            assert_eq!(serial.len(), ids.len());
            let mut count = 1;
            for (child, below) in ids.iter().zip(serial.iter()) {
                count += same_shape(server, *child, origin, below);
            }
            count
        }
        (expected, found) => panic!("{:?} was made for {:?}", found, expected),
    }
}

#[test]
fn created_plan_starts_at_version_zero() {
    let mut server = Server::new(false);
    let plan = handlers::create_plan(&mut server, CreatePlan { spec: sample() }).unwrap();
    assert_eq!(plan.version, 0);
    assert_eq!(plan.spec, sample());
    assert!(marked_random(plan.id));
    assert_eq!(handlers::list_tasks(&server).len(), 0);
}

#[test]
fn stored_plan_is_read_back_equal() {
    let mut server = Server::new(false);
    let plan = handlers::create_plan(&mut server, CreatePlan { spec: sample() }).unwrap();
    let read = handlers::get_plan(&server, plan.id).unwrap();
    assert_eq!(read, Plan { id: plan.id, spec: sample(), version: 0 });
    assert_eq!(read, plan);
}

#[test]
fn update_grows_the_version_by_one() {
    let mut server = Server::new(false);
    let plan = handlers::create_plan(&mut server, CreatePlan { spec: sample() }).unwrap();
    let body = CreatePlan { spec: leaf(&["true"]) };
    let first = handlers::update_plan(&mut server, plan.id, body.clone()).unwrap();
    assert_eq!(first, Plan { id: plan.id, spec: leaf(&["true"]), version: 1 });
    assert_eq!(handlers::get_plan(&server, plan.id).unwrap(), first);
    let second = handlers::update_plan(&mut server, plan.id, CreatePlan { spec: sample() });
    assert_eq!(second, Ok(Plan { id: plan.id, spec: sample(), version: 2 }));
    assert_eq!(handlers::list_plans(&server).len(), 1);
}

#[test]
fn unknown_plan_is_not_found() {
    let mut server = Server::new(false);
    assert_eq!(handlers::get_plan(&server, 5), Err(ServerError::PlanNotFound(5)));
    assert_eq!(handlers::plan(&mut server, 5), Err(ServerError::PlanNotFound(5)));
    assert_eq!(
        handlers::update_plan(&mut server, 5, CreatePlan { spec: sample() }),
        Err(ServerError::PlanNotFound(5))
    );
    assert_eq!(handlers::list_plans(&server).len(), 0);
    assert_eq!(handlers::list_tasks(&server).len(), 0);
}

#[test]
fn version_that_cannot_grow_is_an_internal_error() {
    let mut server = Server::new(false);
    server.insert_plan(Plan { id: 1, spec: leaf(&["true"]), version: u64::MAX - 1 }).unwrap();
    server.insert_plan(Plan { id: 2, spec: leaf(&["true"]), version: 0 }).unwrap();
    let body = CreatePlan { spec: leaf(&["false"]) };
    assert_eq!(
        handlers::update_plan(&mut server, 1, body.clone()),
        Ok(Plan { id: 1, spec: leaf(&["false"]), version: u64::MAX })
    );
    assert_eq!(
        handlers::update_plan(&mut server, 1, CreatePlan { spec: leaf(&["true"]) }),
        Err(ServerError::InternalServerError)
    );
    assert_eq!(
        handlers::get_plan(&server, 1),
        Ok(Plan { id: 1, spec: leaf(&["false"]), version: u64::MAX })
    );
    assert_eq!(server.replace_plan(1, leaf(&["true"])), Err(ServerError::InternalServerError));
    assert_eq!(server.lookup_plan(2).unwrap().version, 0);
    assert_eq!(server.replace_plan(3, leaf(&["true"])), Err(ServerError::PlanNotFound(3)));
}

#[test]
fn identifier_in_use_is_refused() {
    let mut server = Server::new(false);
    server.insert_plan(Plan { id: 1, spec: leaf(&["true"]), version: 0 }).unwrap();
    assert_eq!(
        server.insert_plan(Plan { id: 1, spec: leaf(&["false"]), version: 0 }),
        Err(Error::IdInUse(1))
    );
    assert_eq!(server.lookup_plan(1).unwrap().spec, leaf(&["true"]));

    let made = server.insert_task(1, None, TaskSpec::Command { args: words(&["true"]) });
    assert_eq!(
        made,
        Ok(Task {
            id: 1,
            plan: None,
            spec: TaskSpec::Command { args: words(&["true"]) },
            status: TaskStatus::Pending,
        })
    );
    let again = server.insert_task(1, None, TaskSpec::TaskGroup { parallel: vec![] });
    assert_eq!(again, Err(Error::IdInUse(1)));
    assert_eq!(server.lookup(1).unwrap().spec, TaskSpec::Command { args: words(&["true"]) });
    assert_eq!(server.task_ids(), vec![1]);
    assert_eq!(server.plan_ids(), vec![1]);
}

#[test]
fn materialized_tasks_have_the_shape_of_the_plan() {
    let mut server = Server::new(false);
    let plan = handlers::create_plan(&mut server, CreatePlan { spec: sample() }).unwrap();
    let root = handlers::plan(&mut server, plan.id).unwrap();
    let origin = TaskPlan { id: plan.id, version: 0 };
    assert_eq!(root.plan, Some(origin));
    assert_eq!(root.status, TaskStatus::Pending);

    assert_eq!(same_shape(&server, root.id, origin, &sample()), 7);
    let tasks = handlers::list_tasks(&server);
    assert_eq!(tasks.len(), 7);
    let mut ids: Vec<u128> = tasks.iter().map(|task| task.id).collect();
    ids.sort();
    ids.dedup();
    assert_eq!(ids.len(), 7);
    for id in ids {
        assert!(marked_random(id));
    }
    assert_eq!(handlers::get_task(&server, root.id), Ok(root));
}

#[test]
fn materializing_twice_makes_new_tasks() {
    let mut server = Server::new(false);
    let plan = handlers::create_plan(&mut server, CreatePlan { spec: sample() }).unwrap();
    let first = handlers::plan(&mut server, plan.id).unwrap();
    handlers::update_plan(&mut server, plan.id, CreatePlan { spec: leaf(&["true"]) }).unwrap();
    let second = handlers::plan(&mut server, plan.id).unwrap();
    assert_ne!(first.id, second.id);
    assert_eq!(second.plan, Some(TaskPlan { id: plan.id, version: 1 }));
    assert_eq!(second.spec, TaskSpec::Command { args: words(&["true"]) });
    assert_eq!(handlers::list_tasks(&server).len(), 8);
    // The tasks of the first materialization are as they were.
    assert_eq!(same_shape(&server, first.id, TaskPlan { id: plan.id, version: 0 }, &sample()), 7);
}

#[test]
fn children_are_registered_before_their_parent() {
    let mut server = Server::new(false);
    let origin = TaskPlan { id: 77, version: 4 };
    let spec = PlanSpec::TaskGroup { parallel: vec![leaf(&["true"]), leaf(&["false"])] };
    let root = task(&mut server, origin, spec.clone()).unwrap();
    match &root.spec {
        TaskSpec::TaskGroup { parallel } => {
            assert_eq!(parallel.len(), 2);
            let first = server.lookup(parallel[0]).unwrap();
            let second = server.lookup(parallel[1]).unwrap();
            assert_eq!(first.spec, TaskSpec::Command { args: words(&["true"]) });
            assert_eq!(second.spec, TaskSpec::Command { args: words(&["false"]) });
        }
        other => panic!("a group was asked for, not {:?}", other),
    }
    assert_eq!(same_shape(&server, root.id, origin, &spec), 3);
}

#[test]
fn created_task_belongs_to_no_plan() {
    let mut server = Server::new(false);
    let spec = TaskSpec::TaskList { serial: vec![3, 4] };
    let made = handlers::create_task(&mut server, CreateTask { spec: spec.clone() }).unwrap();
    assert_eq!(made.plan, None);
    assert_eq!(made.spec, spec);
    assert_eq!(made.status, TaskStatus::Pending);
    assert!(marked_random(made.id));
    assert_eq!(handlers::get_task(&server, made.id), Ok(made.clone()));
    assert_eq!(handlers::list_tasks(&server), vec![made]);
    assert_eq!(handlers::get_task(&server, 1), Err(ServerError::TaskNotFound(1)));
}

#[test]
fn listing_answers_every_plan_once() {
    let mut server = Server::new(false);
    server.insert_plan(Plan { id: 1, spec: leaf(&["a"]), version: 0 }).unwrap();
    server.insert_plan(Plan { id: 2, spec: leaf(&["b"]), version: 0 }).unwrap();
    server.insert_plan(Plan { id: 3, spec: leaf(&["c"]), version: 0 }).unwrap();
    let mut plans = handlers::list_plans(&server);
    plans.sort_by_key(|plan| plan.id);
    assert_eq!(
        plans,
        vec![
            Plan { id: 1, spec: leaf(&["a"]), version: 0 },
            Plan { id: 2, spec: leaf(&["b"]), version: 0 },
            Plan { id: 3, spec: leaf(&["c"]), version: 0 },
        ]
    );
    let mut ids = server.plan_ids();
    ids.sort();
    assert_eq!(ids, vec![1, 2, 3]);
}

#[test]
fn copies_are_equal() {
    let spec = sample();
    assert_eq!(spec.clone(), spec);
    let plan = Plan { id: 9, spec: sample(), version: 2 };
    assert_eq!(plan.clone(), plan);
    let body = CreatePlan { spec: sample() };
    assert_eq!(body.clone(), body);
    let task = Task {
        id: 1,
        plan: Some(TaskPlan { id: 9, version: 2 }),
        spec: TaskSpec::TaskGroup { parallel: vec![4, 5] },
        status: TaskStatus::Waiting,
    };
    assert_eq!(task.clone(), task);
}

#[test]
fn each_new_task_but_the_root_is_named_once() {
    let mut server = Server::new(false);
    // A task that was there before is not touched, and not named.
    let old = handlers::create_task(
        &mut server,
        CreateTask { spec: TaskSpec::Command { args: words(&["true"]) } },
    )
    .unwrap();
    let plan = handlers::create_plan(&mut server, CreatePlan { spec: sample() }).unwrap();
    let root = handlers::plan(&mut server, plan.id).unwrap();

    let made: Vec<Task> =
        handlers::list_tasks(&server).into_iter().filter(|task| task.id != old.id).collect();
    assert_eq!(made.len(), 7);
    let mut named: Vec<u128> = vec![];
    for task in &made {
        match &task.spec {
            TaskSpec::Command { .. } => {}
            TaskSpec::TaskGroup { parallel } => named.extend(parallel),
            TaskSpec::TaskList { serial } => named.extend(serial),
        }
    }
    for task in &made {
        let times = named.iter().filter(|id| **id == task.id).count();
        if task.id == root.id {
            assert_eq!(times, 0);
        } else {
            assert_eq!(times, 1);
        }
    }
    assert_eq!(named.len(), 6);
    assert!(!named.contains(&old.id));
    assert_eq!(handlers::get_task(&server, old.id), Ok(old));
}

#[test]
fn new_store_refuses_no_draw() {
    let mut server = Server::new(false);
    let origin = TaskPlan { id: 0, version: 0 };
    let root = task(&mut server, origin, PlanSpec::TaskList { serial: vec![] }).unwrap();
    assert_eq!(root.spec, TaskSpec::TaskList { serial: vec![] });
    assert_eq!(root.status, TaskStatus::Pending);
    assert_eq!(root.plan, Some(origin));
    assert_eq!(server.task_ids(), vec![root.id]);

    let mut other = Server::new(false);
    assert!(handlers::create_plan(&mut other, CreatePlan { spec: sample() }).is_ok());
    assert!(handlers::create_task(
        &mut other,
        CreateTask { spec: TaskSpec::TaskGroup { parallel: vec![] } }
    )
    .is_ok());
}

#[test]
fn every_task_of_a_plan_names_stored_tasks() {
    let mut server = Server::new(false);
    let plan = handlers::create_plan(&mut server, CreatePlan { spec: sample() }).unwrap();
    handlers::plan(&mut server, plan.id).unwrap();
    for task in handlers::list_tasks(&server) {
        let children = match &task.spec {
            TaskSpec::Command { .. } => vec![],
            TaskSpec::TaskGroup { parallel } => parallel.clone(),
            TaskSpec::TaskList { serial } => serial.clone(),
        };
        for child in children {
            assert!(server.lookup(child).is_some());
        }
    }
}
