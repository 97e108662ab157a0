use futures::Future;
use rain::instance::{
    handler_for, sleep_millis, Handler, Outcome, StartError, State, TaskFailure, TaskInstance,
    WorkerObject, WorkerTask,
};
use rain::types::{DataObjectState, TaskInput, TaskState};

fn wtask(id: u64, task_type: &str, inputs: Vec<u64>, outputs: Vec<u64>, cpus: u32) -> WorkerTask {
    WorkerTask {
        id,
        task_type: task_type.to_string(),
        state: TaskState::Scheduled,
        inputs: inputs
            .into_iter()
            .map(|o| TaskInput { label: format!("in{}", o), object: o })
            .collect(),
        outputs,
        cpus,
        config: Vec::new(),
        failure: None,
        additionals: String::new(),
    }
}

fn wobject(id: u64, data: Option<&[u8]>) -> WorkerObject {
    WorkerObject {
        id,
        label: format!("o{}", id),
        state: if data.is_some() { DataObjectState::Finished } else { DataObjectState::Unfinished },
        data: data.map(|d| d.to_vec()),
    }
}

#[test]
fn handler_selection_by_type_tag() {
    assert_eq!(handler_for("!run"), Handler::Run);
    assert_eq!(handler_for("!concat"), Handler::Concat);
    assert_eq!(handler_for("!sleep"), Handler::Sleep);
    assert_eq!(handler_for("!open"), Handler::Open);
    assert_eq!(handler_for("!nope"), Handler::Unknown);
    assert_eq!(handler_for("py"), Handler::Subworker);
    assert_eq!(handler_for(""), Handler::Subworker);
}

#[test]
fn sleep_config_parsing() {
    assert_eq!(sleep_millis(&b"10".to_vec()), Some(10));
    assert_eq!(sleep_millis(&b"0".to_vec()), Some(0));
    assert_eq!(sleep_millis(&b"18446744073709551615".to_vec()), Some(u64::MAX));
    assert_eq!(sleep_millis(&b"18446744073709551616".to_vec()), None);
    assert_eq!(sleep_millis(&b"1x".to_vec()), None);
    assert_eq!(sleep_millis(&Vec::new()), None);
}

#[test]
fn sleep_task_finishes_with_its_output() {
    let mut state = State::new(4);
    state.add_object(wobject(10, None));
    let mut t = wtask(1, "!sleep", vec![], vec![10], 1);
    t.config = b"10".to_vec();
    state.add_task(t);
    let started = TaskInstance::start(&mut state, 1).ok().unwrap();
    assert_eq!(started.handler, Handler::Sleep);
    assert_eq!(state.task(1).unwrap().state, TaskState::Running);
    assert_eq!(state.get_free_cpus(), 3);
    let ms = sleep_millis(&state.task(1).unwrap().config).unwrap();
    let begun = std::time::Instant::now();
    while begun.elapsed() < std::time::Duration::from_millis(ms) {}
    let outcome = TaskInstance::complete_sleep(&mut state, 1);
    TaskInstance::finish(&mut state, 1, outcome);
    assert_eq!(state.task(1).unwrap().state, TaskState::Finished);
    assert_eq!(state.object(10).unwrap().state, DataObjectState::Finished);
    assert_eq!(state.get_free_cpus(), 4);
}

#[test]
fn resources_restored_after_every_outcome() {
    let mut state = State::new(4);
    state.add_object(wobject(10, None));
    state.add_task(wtask(1, "py", vec![], vec![10], 3));
    state.add_task(wtask(2, "py", vec![], vec![], 2));
    state.add_task(wtask(3, "py", vec![], vec![], 1));
    TaskInstance::start(&mut state, 1).ok().unwrap();
    assert_eq!(state.get_free_cpus(), 1);
    assert_eq!(TaskInstance::start(&mut state, 2).err(), Some(StartError::NotEnoughResources));
    assert_eq!(state.task(2).unwrap().state, TaskState::Scheduled);
    TaskInstance::finish(&mut state, 1, Outcome::Completed);
    assert_eq!(state.get_free_cpus(), 4);
    TaskInstance::start(&mut state, 2).ok().unwrap();
    TaskInstance::finish(&mut state, 2, Outcome::Cancelled);
    assert_eq!(state.get_free_cpus(), 4);
    TaskInstance::start(&mut state, 3).ok().unwrap();
    TaskInstance::finish(&mut state, 3, Outcome::Failed("bad".to_string()));
    assert_eq!(state.get_free_cpus(), 4);
    assert_eq!(state.get_cpus(), 4);
}

#[test]
fn success_without_outputs_fails() {
    let mut state = State::new(2);
    state.add_object(wobject(10, None));
    state.add_task(wtask(1, "py", vec![], vec![10], 1));
    TaskInstance::start(&mut state, 1).ok().unwrap();
    TaskInstance::finish(&mut state, 1, Outcome::Completed);
    let t = state.task(1).unwrap();
    assert_eq!(t.state, TaskState::Failed);
    assert!(matches!(t.failure, Some(TaskFailure::OutputsNotProduced)));
    assert_eq!(t.failure.as_ref().unwrap().message(), "Some of outputs were not produced");
}

#[test]
fn inputs_must_be_finished() {
    let mut state = State::new(2);
    state.add_object(wobject(10, None));
    state.add_task(wtask(1, "py", vec![10], vec![], 1));
    assert_eq!(TaskInstance::start(&mut state, 1).err(), Some(StartError::InputsNotReady));
    assert!(state.bind_output(10, b"x".to_vec()));
    assert!(!state.bind_output(10, b"y".to_vec()));
    assert_eq!(state.object(10).unwrap().data, Some(b"x".to_vec()));
    assert!(TaskInstance::start(&mut state, 1).is_ok());
}

#[test]
fn unknown_builtin_type_runs_then_fails() {
    let mut state = State::new(2);
    state.add_task(wtask(1, "!bogus", vec![], vec![], 1));
    let started = TaskInstance::start(&mut state, 1).ok().unwrap();
    assert_eq!(started.handler, Handler::Unknown);
    assert_eq!(state.task(1).unwrap().state, TaskState::Running);
    assert_eq!(state.get_free_cpus(), 1);
    TaskInstance::fail_unknown_type(&mut state, 1);
    let t = state.task(1).unwrap();
    assert_eq!(t.state, TaskState::Failed);
    assert!(matches!(&t.failure, Some(TaskFailure::Error(m)) if m == "Unknown task type !bogus"));
    assert_eq!(t.failure.as_ref().unwrap().message(), "Unknown task type !bogus");
    assert_eq!(state.get_free_cpus(), 2);
    assert!(!state.is_task_running(1));
    let batch = state.take_updates();
    assert_eq!(batch.tasks.len(), 2);
    assert_eq!(batch.tasks[1].state, TaskState::Failed);
}

#[test]
fn stop_twice_signals_once() {
    let mut state = State::new(2);
    state.add_task(wtask(1, "py", vec![], vec![], 1));
    let started = TaskInstance::start(&mut state, 1).ok().unwrap();
    assert!(state.stop_task(1));
    assert!(!state.stop_task(1));
    assert_eq!(started.cancel.wait(), Ok(()));
    TaskInstance::finish(&mut state, 1, Outcome::Cancelled);
    let t = state.task(1).unwrap();
    assert!(matches!(t.failure, Some(TaskFailure::TerminatedByServer)));
    assert_eq!(t.failure.as_ref().unwrap().message(), "Task terminated by server");
    assert!(!state.stop_task(1));
}

#[test]
fn concat_joins_inputs() {
    let mut state = State::new(2);
    state.add_object(wobject(1, Some(b"ab")));
    state.add_object(wobject(2, Some(b"cd")));
    state.add_object(wobject(3, None));
    state.add_task(wtask(9, "!concat", vec![1, 2], vec![3], 1));
    TaskInstance::start(&mut state, 9).ok().unwrap();
    let outcome = TaskInstance::complete_concat(&mut state, 9);
    TaskInstance::finish(&mut state, 9, outcome);
    assert_eq!(state.object(3).unwrap().data, Some(b"abcd".to_vec()));
    assert_eq!(state.task(9).unwrap().state, TaskState::Finished);
}

#[test]
fn concat_needs_one_output() {
    let mut state = State::new(2);
    state.add_object(wobject(1, Some(b"ab")));
    state.add_task(wtask(9, "!concat", vec![1], vec![], 1));
    TaskInstance::start(&mut state, 9).ok().unwrap();
    let outcome = TaskInstance::complete_concat(&mut state, 9);
    assert!(matches!(outcome, Outcome::Failed(_)));
}

#[test]
fn take_updates_reports_published_changes() {
    let mut state = State::new(2);
    state.add_object(wobject(10, None));
    state.add_task(wtask(1, "py", vec![], vec![10], 1));
    TaskInstance::start(&mut state, 1).ok().unwrap();
    state.bind_output(10, b"abc".to_vec());
    TaskInstance::finish(&mut state, 1, Outcome::Completed);
    let batch = state.take_updates();
    assert_eq!(batch.objects.len(), 1);
    assert_eq!(batch.objects[0].id, 10);
    assert_eq!(batch.objects[0].size, 3);
    assert_eq!(batch.objects[0].state, DataObjectState::Finished);
    assert_eq!(batch.tasks.len(), 2);
    assert_eq!(batch.tasks[0].state, TaskState::Finished);
    assert_eq!(batch.tasks[1].state, TaskState::Finished);
    assert_eq!(batch.tasks[1].attributes, "");
    let again = state.take_updates();
    assert!(again.objects.is_empty() && again.tasks.is_empty());
}
