use rain::instance::{Outcome, State, TaskFailure, TaskInstance, WorkerObject, WorkerTask};
use rain::subworker::{handle_response, run_task_request, Acquire, Dispatcher, HelperResponse};
use rain::types::{DataObjectState, TaskInput, TaskState};

fn setup() -> State {
    let mut state = State::new(4);
    state.add_object(WorkerObject {
        id: 1,
        label: "in".to_string(),
        state: DataObjectState::Finished,
        data: Some(b"hello".to_vec()),
    });
    state.add_object(WorkerObject { id: 2, label: "out".to_string(), state: DataObjectState::Unfinished, data: None });
    for id in [5u64, 6u64] {
        state.add_task(WorkerTask {
            id,
            task_type: "py".to_string(),
            state: TaskState::Scheduled,
            inputs: vec![TaskInput { label: "arg".to_string(), object: 1 }],
            outputs: vec![2],
            cpus: 1,
            config: b"cfg".to_vec(),
            failure: None,
            additionals: String::new(),
        });
    }
    state
}

#[test]
fn request_carries_task_inputs_and_outputs() {
    let state = setup();
    let req = run_task_request(&state, 5).unwrap();
    assert_eq!(req.task_id, 5);
    assert_eq!(req.config, b"cfg".to_vec());
    assert_eq!(req.inputs.len(), 1);
    assert_eq!(req.inputs[0].id, 1);
    assert_eq!(req.inputs[0].label, "arg");
    assert_eq!(req.inputs[0].data, b"hello".to_vec());
    assert_eq!(req.outputs.len(), 1);
    assert_eq!(req.outputs[0].id, 2);
    assert_eq!(req.outputs[0].label, "out");
    assert!(run_task_request(&state, 99).is_none());
}

#[test]
fn failed_helper_returns_to_pool_and_is_reused() {
    let mut state = setup();
    let mut pools = Dispatcher::new();
    TaskInstance::start(&mut state, 5).ok().unwrap();
    assert!(matches!(pools.acquire("py"), Acquire::Spawn));
    assert!(pools.is_spawning("py"));
    assert!(matches!(pools.acquire("py"), Acquire::Wait(_)));
    pools.helper_ready("py", 42);
    assert!(!pools.is_spawning("py"));
    let helper = match pools.acquire("py") {
        Acquire::Ready(h) => h,
        _ => panic!("helper expected"),
    };
    assert_eq!(helper, 42);
    let outcome = handle_response(&mut state, &mut pools, "py", helper, 5, HelperResponse::Failure { message: "boom".to_string(), additionals: "{\"info\": 1}".to_string() });
    TaskInstance::finish(&mut state, 5, outcome);
    let t = state.task(5).unwrap();
    assert_eq!(t.state, TaskState::Failed);
    assert!(t.failure.as_ref().unwrap().message().contains("boom"));
    assert!(matches!(&t.failure, Some(TaskFailure::Error(e)) if e == "boom"));
    assert_eq!(t.additionals, "{\"info\": 1}");
    assert_eq!(pools.idle_count("py"), 1);
    TaskInstance::start(&mut state, 6).ok().unwrap();
    assert!(matches!(pools.acquire("py"), Acquire::Ready(42)));
    assert!(!pools.is_spawning("py"));
}

#[test]
fn lost_helper_is_not_recycled() {
    let mut state = setup();
    let mut pools = Dispatcher::new();
    TaskInstance::start(&mut state, 5).ok().unwrap();
    pools.helper_ready("py", 7);
    assert!(matches!(pools.acquire("py"), Acquire::Ready(7)));
    let outcome = handle_response(&mut state, &mut pools, "py", 7, 5, HelperResponse::Lost("connection reset".to_string()));
    assert!(matches!(&outcome, Outcome::Failed(e) if e == "connection reset"));
    assert_eq!(pools.idle_count("py"), 0);
    assert!(matches!(pools.acquire("py"), Acquire::Spawn));
}

#[test]
fn successful_helper_binds_outputs() {
    let mut state = setup();
    let mut pools = Dispatcher::new();
    TaskInstance::start(&mut state, 5).ok().unwrap();
    let outcome = handle_response(&mut state, &mut pools, "py", 3, 5, HelperResponse::Success { data: vec![b"result".to_vec()], additionals: "a".to_string() });
    TaskInstance::finish(&mut state, 5, outcome);
    assert_eq!(state.object(2).unwrap().data, Some(b"result".to_vec()));
    assert_eq!(state.task(5).unwrap().state, TaskState::Finished);
    assert_eq!(pools.idle_count("py"), 1);
    assert_eq!(pools.idle_count("other"), 0);
    let batch = state.take_updates();
    assert_eq!(batch.tasks.last().unwrap().attributes, "a");
}

#[test]
fn failed_spawn_clears_the_gate() {
    let mut pools = Dispatcher::new();
    assert!(matches!(pools.acquire("py"), Acquire::Spawn));
    let waiter = match pools.acquire("py") {
        Acquire::Wait(rx) => rx,
        _ => panic!("wait expected"),
    };
    pools.spawn_failed("py");
    assert!(!pools.is_spawning("py"));
    assert_eq!(futures::Future::wait(waiter), Ok(()));
    assert!(matches!(pools.acquire("py"), Acquire::Spawn));
    assert_eq!(pools.idle_count("py"), 0);
}
