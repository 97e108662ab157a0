use rain::graph::{DataObject, FailureReason, Graph, GraphError, Task};
use rain::types::{DataObjectState, ObjectUpdate, TaskState, TaskUpdate, UpdateBatch};
use rain::upstream::{RpcError, WorkerUpstreamImpl};

fn task(id: u64, outputs: Vec<u64>) -> Task {
    Task {
        id,
        task_type: "py".to_string(),
        state: TaskState::Scheduled,
        inputs: Vec::new(),
        outputs,
        cpus: 1,
        config: Vec::new(),
        session: 1,
        worker: None,
        failure: None,
        attributes: String::new(),
    }
}

fn object(id: u64) -> DataObject {
    DataObject {
        id,
        label: format!("o{}", id),
        state: DataObjectState::Unfinished,
        size: 0,
        attributes: String::new(),
        session: 1,
    }
}

fn obj_update(id: u64, state: DataObjectState, size: u64) -> ObjectUpdate {
    ObjectUpdate { id, state, size, attributes: "{}".to_string() }
}

fn task_update(id: u64, state: TaskState) -> TaskUpdate {
    TaskUpdate { id, state, attributes: "{}".to_string() }
}

fn setup() -> Graph {
    let mut g = Graph::new();
    g.register_session(1).unwrap();
    g.register_worker(7, "127.0.0.1:1234".to_string(), 4).unwrap();
    g.register_object(object(100)).unwrap();
    g.register_task(task(1, vec![100])).unwrap();
    g.assign_task(1, 7).unwrap();
    g
}

#[test]
fn registration_refuses_duplicates_and_tombstones() {
    let mut g = setup();
    assert_eq!(g.register_worker(7, "x".to_string(), 1), Err(GraphError::DuplicateWorker(7)));
    assert_eq!(g.register_task(task(1, vec![])), Err(GraphError::DuplicateTask(1)));
    assert_eq!(g.register_object(object(100)), Err(GraphError::DuplicateObject(100)));
    assert!(g.remove_object(100));
    assert!(g.is_object_ignored(100));
    assert!(g.object(100).is_none());
    assert_eq!(g.register_object(object(100)), Err(GraphError::DuplicateObject(100)));
    assert!(!g.remove_object(100));
    let mut assigned = task(2, vec![]);
    assigned.worker = Some(7);
    assert_eq!(g.register_task(assigned), Err(GraphError::NotAssignable(2)));
}

#[test]
fn assign_task_errors() {
    let mut g = setup();
    assert_eq!(g.assign_task(9, 7), Err(GraphError::UnknownTask(9)));
    g.register_task(task(2, vec![])).unwrap();
    assert_eq!(g.assign_task(2, 8), Err(GraphError::UnknownWorker(8)));
    assert_eq!(g.assign_task(1, 7), Err(GraphError::NotAssignable(1)));
    assert!(g.assign_task(2, 7).is_ok());
    assert_eq!(g.worker(7).unwrap().tasks, vec![1, 2]);
}

#[test]
fn update_applies_objects_before_tasks() {
    let mut g = setup();
    let mut consumer = task(2, vec![]);
    consumer.inputs = vec![rain::types::TaskInput { label: "x".to_string(), object: 100 }];
    g.register_task(consumer).unwrap();
    assert!(!g.is_task_ready(2));
    assert!(g.is_task_ready(1));
    let batch = UpdateBatch {
        objects: vec![obj_update(100, DataObjectState::Finished, 42)],
        tasks: vec![task_update(1, TaskState::Finished)],
    };
    assert!(g.apply_worker_update(7, batch).is_ok());
    let o = g.object(100).unwrap();
    assert_eq!(o.state, DataObjectState::Finished);
    assert_eq!(o.size, 42);
    assert_eq!(g.task(1).unwrap().state, TaskState::Finished);
    assert!(g.is_task_ready(2));
}

#[test]
fn finished_without_outputs_becomes_failed() {
    let mut g = setup();
    let batch = UpdateBatch { objects: vec![], tasks: vec![task_update(1, TaskState::Finished)] };
    assert!(g.apply_worker_update(7, batch).is_ok());
    let t = g.task(1).unwrap();
    assert_eq!(t.state, TaskState::Failed);
    assert_eq!(t.failure, Some(FailureReason::OutputsMissing));
}

#[test]
fn task_states_only_move_forward() {
    let mut g = setup();
    let up = UpdateBatch { objects: vec![], tasks: vec![task_update(1, TaskState::Running)] };
    g.apply_worker_update(7, up).unwrap();
    assert_eq!(g.task(1).unwrap().state, TaskState::Running);
    let back = UpdateBatch { objects: vec![], tasks: vec![task_update(1, TaskState::Scheduled)] };
    g.apply_worker_update(7, back).unwrap();
    assert_eq!(g.task(1).unwrap().state, TaskState::Running);
    let fail = UpdateBatch { objects: vec![], tasks: vec![task_update(1, TaskState::Failed)] };
    g.apply_worker_update(7, fail).unwrap();
    assert_eq!(g.task(1).unwrap().failure, Some(FailureReason::ReportedByWorker));
}

#[test]
fn finished_object_is_immutable() {
    let mut g = setup();
    let b1 = UpdateBatch { objects: vec![obj_update(100, DataObjectState::Finished, 5)], tasks: vec![] };
    g.apply_worker_update(7, b1).unwrap();
    let b2 = UpdateBatch { objects: vec![obj_update(100, DataObjectState::Unfinished, 9)], tasks: vec![] };
    g.apply_worker_update(7, b2).unwrap();
    assert_eq!(g.object(100).unwrap().size, 5);
    assert_eq!(g.object(100).unwrap().state, DataObjectState::Finished);
}

#[test]
fn update_on_removed_ids_is_noop() {
    let mut g = setup();
    g.register_object(object(101)).unwrap();
    g.register_task(task(2, vec![])).unwrap();
    assert!(g.remove_object(101));
    assert!(g.remove_task(2));
    let batch = UpdateBatch {
        objects: vec![obj_update(101, DataObjectState::Finished, 3)],
        tasks: vec![task_update(2, TaskState::Running)],
    };
    assert_eq!(g.apply_worker_update(7, batch), Ok(()));
    assert!(g.object(101).is_none());
    assert!(g.task(2).is_none());
    assert_eq!(g.task(1).unwrap().state, TaskState::Scheduled);
    assert_eq!(g.object(100).unwrap().state, DataObjectState::Unfinished);
}

#[test]
fn removed_entries_in_mixed_batch_are_skipped() {
    let mut g = setup();
    g.register_object(object(101)).unwrap();
    assert!(g.remove_object(101));
    let batch = UpdateBatch {
        objects: vec![obj_update(101, DataObjectState::Finished, 3), obj_update(100, DataObjectState::Finished, 8)],
        tasks: vec![task_update(1, TaskState::Running)],
    };
    assert_eq!(g.apply_worker_update(7, batch), Ok(()));
    assert_eq!(g.object(100).unwrap().size, 8);
    assert_eq!(g.task(1).unwrap().state, TaskState::Running);
    assert!(g.object(101).is_none());
}

#[test]
fn unknown_id_refuses_whole_batch() {
    let mut g = setup();
    let batch = UpdateBatch {
        objects: vec![obj_update(100, DataObjectState::Finished, 3), obj_update(555, DataObjectState::Finished, 1)],
        tasks: vec![],
    };
    assert_eq!(g.apply_worker_update(7, batch), Err(GraphError::UnknownObject(555)));
    assert_eq!(g.object(100).unwrap().state, DataObjectState::Unfinished);
    let batch = UpdateBatch { objects: vec![], tasks: vec![task_update(77, TaskState::Running)] };
    assert_eq!(g.apply_worker_update(7, batch), Err(GraphError::UnknownTask(77)));
}

#[test]
fn update_from_other_worker_is_ignored() {
    let mut g = setup();
    g.register_worker(8, "other".to_string(), 2).unwrap();
    let batch = UpdateBatch { objects: vec![], tasks: vec![task_update(1, TaskState::Running)] };
    assert!(g.apply_worker_update(8, batch).is_ok());
    assert_eq!(g.task(1).unwrap().state, TaskState::Scheduled);
}

#[test]
fn worker_loss_fails_running_task_and_drops_stray_update() {
    let mut g = setup();
    let upstream = WorkerUpstreamImpl::new(7);
    let running = UpdateBatch { objects: vec![], tasks: vec![task_update(1, TaskState::Running)] };
    upstream.update_states(&mut g, running).unwrap();
    assert_eq!(g.task(1).unwrap().state, TaskState::Running);
    assert!(upstream.disconnect(&mut g));
    assert!(!g.has_worker(7));
    let t = g.task(1).unwrap();
    assert_eq!(t.state, TaskState::Failed);
    assert_eq!(t.failure, Some(FailureReason::WorkerLost));
    let stray = UpdateBatch { objects: vec![], tasks: vec![task_update(1, TaskState::Finished)] };
    assert_eq!(g.apply_worker_update(7, stray), Ok(()));
    assert_eq!(g.task(1).unwrap().state, TaskState::Failed);
}

#[test]
fn worker_loss_keeps_finished_tasks() {
    let mut g = setup();
    let batch = UpdateBatch {
        objects: vec![obj_update(100, DataObjectState::Finished, 1)],
        tasks: vec![task_update(1, TaskState::Finished)],
    };
    g.apply_worker_update(7, batch).unwrap();
    assert!(g.remove_worker(7));
    assert_eq!(g.task(1).unwrap().state, TaskState::Finished);
    assert!(!g.remove_worker(7));
}

#[test]
fn closing_session_tombstones_its_entities() {
    let mut g = setup();
    assert_eq!(g.register_session(1), Err(GraphError::DuplicateSession(1)));
    let mut foreign = task(3, vec![]);
    foreign.session = 9;
    assert_eq!(g.register_task(foreign), Err(GraphError::UnknownSession(9)));
    g.register_session(2).unwrap();
    let mut other = task(4, vec![]);
    other.session = 2;
    g.register_task(other).unwrap();
    assert!(g.close_session(1));
    assert!(g.task(1).is_none());
    assert!(g.is_task_ignored(1));
    assert!(g.object(100).is_none());
    assert!(g.is_object_ignored(100));
    assert!(g.task(4).is_some());
    assert!(!g.close_session(1));
    let late = UpdateBatch { objects: vec![obj_update(100, DataObjectState::Finished, 1)], tasks: vec![task_update(1, TaskState::Running)] };
    assert_eq!(g.apply_worker_update(7, late), Ok(()));
    assert!(g.task(1).is_none());
}

#[test]
fn client_session_is_unimplemented() {
    let upstream = WorkerUpstreamImpl::new(3);
    assert_eq!(upstream.get_worker(), 3);
    assert_eq!(upstream.get_client_session(), Err(RpcError::Unimplemented));
}
