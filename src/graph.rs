//! The server's authoritative registry of tasks, data objects and workers.
//!
//! Removed tasks and objects leave a tombstone: their ids stay known as
//! deliberately removed, so late updates that name them are ignored rather
//! than treated as protocol errors.

use vstd::prelude::*;
use std::collections::{HashMap, HashSet};
use crate::types::{
    DataObjectId, DataObjectState, ObjectUpdate, TaskId, TaskInput, TaskState, TaskUpdate,
    UpdateBatch, WorkerId, reversed,
};

verus! {

/// Why the server recorded a task as failed.
#[derive(PartialEq, Eq, Structural, Clone, Copy, Debug)]
pub enum FailureReason {
    /// The worker the task was assigned to disconnected.
    WorkerLost,
    /// The worker reported success, but not every output was finished.
    OutputsMissing,
    /// The worker reported the failure.
    ReportedByWorker,
}

#[derive(Debug)]
pub struct Task {
    pub id: TaskId,
    pub task_type: String,
    pub state: TaskState,
    pub inputs: Vec<TaskInput>,
    pub outputs: Vec<DataObjectId>,
    pub cpus: u32,
    pub config: Vec<u8>,
    pub session: u64,
    pub worker: Option<WorkerId>,
    pub failure: Option<FailureReason>,
    pub attributes: String,
}

#[derive(Debug)]
pub struct DataObject {
    pub id: DataObjectId,
    pub label: String,
    pub state: DataObjectState,
    pub size: u64,
    pub attributes: String,
    pub session: u64,
}

#[derive(Debug)]
pub struct Worker {
    pub id: WorkerId,
    pub address: String,
    pub cpus: u32,
    /// Tasks assigned to this worker.
    pub tasks: Vec<TaskId>,
}

/// A client's submission scope: the tasks and objects submitted in it.
#[derive(Debug)]
pub struct Session {
    pub id: u64,
    pub tasks: Vec<TaskId>,
    pub objects: Vec<DataObjectId>,
}

#[derive(Debug, PartialEq, Eq, Structural, Clone, Copy)]
pub enum GraphError {
    DuplicateSession(u64),
    UnknownSession(u64),
    DuplicateTask(TaskId),
    DuplicateObject(DataObjectId),
    DuplicateWorker(WorkerId),
    UnknownTask(TaskId),
    UnknownObject(DataObjectId),
    UnknownWorker(WorkerId),
    /// A task is registered unassigned, and assigned only while scheduled.
    NotAssignable(TaskId),
}

pub struct Graph {
    tasks: HashMap<TaskId, Task>,
    objects: HashMap<DataObjectId, DataObject>,
    workers: HashMap<WorkerId, Worker>,
    removed_tasks: HashSet<TaskId>,
    removed_objects: HashSet<DataObjectId>,
    sessions: HashMap<u64, Session>,
}

/// A task that was running on a lost worker becomes failed.
pub open spec fn lost(t: Task, w: WorkerId) -> Task {
    if t.worker == Some(w) && !t.state.terminal() {
        Task { state: TaskState::Failed, failure: Some(FailureReason::WorkerLost), ..t }
    } else {
        t
    }
}

pub open spec fn outputs_finished(t: Task, objects: Map<DataObjectId, DataObject>) -> bool {
    forall|i: int|
        #![trigger t.outputs@[i]]
        0 <= i < t.outputs@.len() ==> {
            &&& objects.contains_key(t.outputs@[i])
            &&& objects[t.outputs@[i]].state == DataObjectState::Finished
        }
}

pub open spec fn inputs_finished(t: Task, objects: Map<DataObjectId, DataObject>) -> bool {
    forall|i: int|
        #![trigger t.inputs@[i]]
        0 <= i < t.inputs@.len() ==> {
            &&& objects.contains_key(t.inputs@[i].object)
            &&& objects[t.inputs@[i].object].state == DataObjectState::Finished
        }
}

/// One object delta: applied while the object is still unfinished, since a
/// finished object is immutable; ignored for ids that are not live.
pub open spec fn object_step(m: Map<DataObjectId, DataObject>, u: ObjectUpdate) -> Map<
    DataObjectId,
    DataObject,
> {
    if m.contains_key(u.id) && m[u.id].state == DataObjectState::Unfinished {
        m.insert(
            u.id,
            DataObject { state: u.state, size: u.size, attributes: u.attributes, ..m[u.id] },
        )
    } else {
        m
    }
}

pub open spec fn objects_after(m: Map<DataObjectId, DataObject>, us: Seq<ObjectUpdate>) -> Map<
    DataObjectId,
    DataObject,
>
    decreases us.len(),
{
    if us.len() == 0 {
        m
    } else {
        object_step(objects_after(m, us.drop_last()), us.last())
    }
}

/// The state a task takes on a delta that moves it forward: a reported
/// success stands only when every output is finished.
pub open spec fn advanced(t: Task, objects: Map<DataObjectId, DataObject>, u: TaskUpdate) -> Task {
    if u.state == TaskState::Finished && !outputs_finished(t, objects) {
        Task {
            state: TaskState::Failed,
            failure: Some(FailureReason::OutputsMissing),
            attributes: u.attributes,
            ..t
        }
    } else if u.state == TaskState::Failed {
        Task {
            state: TaskState::Failed,
            failure: Some(FailureReason::ReportedByWorker),
            attributes: u.attributes,
            ..t
        }
    } else {
        Task { state: u.state, attributes: u.attributes, ..t }
    }
}

/// One task delta from worker `w`: applied only to a live task assigned to
/// `w`, and only when it moves the task forward.
pub open spec fn task_step(
    m: Map<TaskId, Task>,
    objects: Map<DataObjectId, DataObject>,
    w: WorkerId,
    u: TaskUpdate,
) -> Map<TaskId, Task> {
    if m.contains_key(u.id) && m[u.id].worker == Some(w) && m[u.id].state.rank() < u.state.rank() {
        m.insert(u.id, advanced(m[u.id], objects, u))
    } else {
        m
    }
}

pub open spec fn tasks_after(
    m: Map<TaskId, Task>,
    objects: Map<DataObjectId, DataObject>,
    w: WorkerId,
    us: Seq<TaskUpdate>,
) -> Map<TaskId, Task>
    decreases us.len(),
{
    if us.len() == 0 {
        m
    } else {
        task_step(tasks_after(m, objects, w, us.drop_last()), objects, w, us.last())
    }
}

impl Graph {
    pub closed spec fn tasks(&self) -> Map<TaskId, Task> {
        self.tasks@
    }

    pub closed spec fn objects(&self) -> Map<DataObjectId, DataObject> {
        self.objects@
    }

    pub closed spec fn workers(&self) -> Map<WorkerId, Worker> {
        self.workers@
    }

    pub closed spec fn sessions(&self) -> Map<u64, Session> {
        self.sessions@
    }

    pub closed spec fn removed_tasks(&self) -> Set<TaskId> {
        self.removed_tasks@
    }

    pub closed spec fn removed_objects(&self) -> Set<DataObjectId> {
        self.removed_objects@
    }

    pub open spec fn known_task(&self, id: TaskId) -> bool {
        self.tasks().contains_key(id) || self.removed_tasks().contains(id)
    }

    pub open spec fn known_object(&self, id: DataObjectId) -> bool {
        self.objects().contains_key(id) || self.removed_objects().contains(id)
    }

    /// Every id in the batch is live or tombstoned.
    pub open spec fn batch_known(&self, b: UpdateBatch) -> bool {
        &&& forall|i: int| 0 <= i < b.objects@.len() ==> self.known_object(#[trigger] b.objects@[i].id)
        &&& forall|i: int| 0 <= i < b.tasks@.len() ==> self.known_task(#[trigger] b.tasks@[i].id)
    }

    /// Tombstones are disjoint from live ids, and every unfinished task that
    /// is assigned to a worker is listed by that worker.
    pub closed spec fn wf(&self) -> bool {
        &&& forall|id: TaskId|
            #![trigger self.tasks@.contains_key(id)]
            self.tasks@.contains_key(id) ==> !self.removed_tasks@.contains(id)
        &&& forall|id: DataObjectId|
            #![trigger self.objects@.contains_key(id)]
            self.objects@.contains_key(id) ==> !self.removed_objects@.contains(id)
        &&& forall|id: TaskId|
            #![trigger self.tasks@.contains_key(id)]
            self.tasks@.contains_key(id) && self.tasks@[id].worker is Some
                && !self.tasks@[id].state.terminal() ==> {
                let w = self.tasks@[id].worker->Some_0;
                &&& self.workers@.contains_key(w)
                &&& self.workers@[w].tasks@.contains(id)
            }
        &&& forall|id: TaskId|
            #![trigger self.tasks@.contains_key(id)]
            self.tasks@.contains_key(id) ==> {
                let s = self.tasks@[id].session;
                &&& self.sessions@.contains_key(s)
                &&& self.sessions@[s].tasks@.contains(id)
            }
        &&& forall|id: DataObjectId|
            #![trigger self.objects@.contains_key(id)]
            self.objects@.contains_key(id) ==> {
                let s = self.objects@[id].session;
                &&& self.sessions@.contains_key(s)
                &&& self.sessions@[s].objects@.contains(id)
            }
    }

    pub fn new() -> (r: Self)
        ensures
            r.wf(),
            r.tasks() == Map::<TaskId, Task>::empty(),
            r.objects() == Map::<DataObjectId, DataObject>::empty(),
            r.workers() == Map::<WorkerId, Worker>::empty(),
            r.removed_tasks() == Set::<TaskId>::empty(),
            r.removed_objects() == Set::<DataObjectId>::empty(),
            r.sessions() == Map::<u64, Session>::empty(),
    {
        Graph {
            tasks: HashMap::new(),
            objects: HashMap::new(),
            workers: HashMap::new(),
            removed_tasks: HashSet::new(),
            removed_objects: HashSet::new(),
            sessions: HashMap::new(),
        }
    }

    pub fn has_worker(&self, id: WorkerId) -> (r: bool)
        ensures
            r == self.workers().contains_key(id),
    {
        self.workers.contains_key(&id)
    }

    /// Whether the task id is a tombstone.
    pub fn is_task_ignored(&self, id: TaskId) -> (r: bool)
        ensures
            r == self.removed_tasks().contains(id),
    {
        self.removed_tasks.contains(&id)
    }

    /// Whether the object id is a tombstone.
    pub fn is_object_ignored(&self, id: DataObjectId) -> (r: bool)
        ensures
            r == self.removed_objects().contains(id),
    {
        self.removed_objects.contains(&id)
    }

    /// Looks a live task up; removed and unknown ids give `None`.
    pub fn task(&self, id: TaskId) -> (r: Option<&Task>)
        ensures
            match r {
                Some(t) => self.tasks().contains_key(id) && *t == self.tasks()[id],
                None => !self.tasks().contains_key(id),
            },
    {
        self.tasks.get(&id)
    }

    /// Looks a live object up; removed and unknown ids give `None`.
    pub fn object(&self, id: DataObjectId) -> (r: Option<&DataObject>)
        ensures
            match r {
                Some(o) => self.objects().contains_key(id) && *o == self.objects()[id],
                None => !self.objects().contains_key(id),
            },
    {
        self.objects.get(&id)
    }

    pub fn worker(&self, id: WorkerId) -> (r: Option<&Worker>)
        ensures
            match r {
                Some(w) => self.workers().contains_key(id) && *w == self.workers()[id],
                None => !self.workers().contains_key(id),
            },
    {
        self.workers.get(&id)
    }

    /// Whether a live task may start: every one of its inputs is finished.
    pub fn is_task_ready(&self, id: TaskId) -> (r: bool)
        ensures
            r == (self.tasks().contains_key(id) && inputs_finished(self.tasks()[id], self.objects())),
    {
        let t = match self.tasks.get(&id) {
            Some(t) => t,
            None => {
                return false;
            },
        };
        let mut ids: Vec<DataObjectId> = Vec::new();
        let mut i: usize = 0;
        while i < t.inputs.len()
            invariant
                i <= t.inputs@.len(),
                ids@.len() == i,
                forall|j: int| 0 <= j < i ==> #[trigger] ids@[j] == t.inputs@[j].object,
            decreases t.inputs@.len() - i,
        {
            ids.push(t.inputs[i].object);
            i = i + 1;
        }
        let r = self.all_finished(&ids);
        proof {
            if r {
                assert forall|k: int| #![trigger t.inputs@[k]] 0 <= k < t.inputs@.len() implies {
                    &&& self.objects@.contains_key(t.inputs@[k].object)
                    &&& self.objects@[t.inputs@[k].object].state == DataObjectState::Finished
                } by {
                    assert(ids@[k] == t.inputs@[k].object);
                }
            } else {
                let k = choose|k: int| 0 <= k < ids@.len() && !{
                    &&& self.objects@.contains_key(ids@[k])
                    &&& self.objects@[ids@[k]].state == DataObjectState::Finished
                };
                assert(ids@[k] == t.inputs@[k].object);
            }
        }
        r
    }

    /// Adds a worker with no assigned tasks.
    pub fn register_worker(&mut self, id: WorkerId, address: String, cpus: u32) -> (r: Result<
        (),
        GraphError,
    >)
        requires
            old(self).wf(),
        ensures
            final(self).wf(),
            final(self).tasks() == old(self).tasks(),
            final(self).objects() == old(self).objects(),
            final(self).removed_tasks() == old(self).removed_tasks(),
            final(self).removed_objects() == old(self).removed_objects(),
            old(self).workers().contains_key(id) ==> r == Err::<(), GraphError>(
                GraphError::DuplicateWorker(id),
            ) && final(self).workers() == old(self).workers(),
            !old(self).workers().contains_key(id) ==> {
                &&& r is Ok
                &&& final(self).workers() == old(self).workers().insert(id, final(self).workers()[id])
                &&& final(self).workers()[id].id == id
                &&& final(self).workers()[id].address == address
                &&& final(self).workers()[id].cpus == cpus
                &&& final(self).workers()[id].tasks@.len() == 0
            },
    {
        if self.workers.contains_key(&id) {
            return Err(GraphError::DuplicateWorker(id));
        }
        let worker = Worker { id, address, cpus, tasks: Vec::new() };
        self.workers.insert(id, worker);
        Ok(())
    }

    /// Opens a session with no tasks or objects.
    pub fn register_session(&mut self, id: u64) -> (r: Result<(), GraphError>)
        requires
            old(self).wf(),
        ensures
            final(self).wf(),
            final(self).tasks() == old(self).tasks(),
            final(self).objects() == old(self).objects(),
            final(self).workers() == old(self).workers(),
            final(self).removed_tasks() == old(self).removed_tasks(),
            final(self).removed_objects() == old(self).removed_objects(),
            old(self).sessions().contains_key(id) ==> r == Err::<(), GraphError>(
                GraphError::DuplicateSession(id),
            ) && final(self).sessions() == old(self).sessions(),
            !old(self).sessions().contains_key(id) ==> {
                &&& r is Ok
                &&& final(self).sessions() == old(self).sessions().insert(id, final(self).sessions()[id])
                &&& final(self).sessions()[id].id == id
                &&& final(self).sessions()[id].tasks@.len() == 0
                &&& final(self).sessions()[id].objects@.len() == 0
            },
    {
        if self.sessions.contains_key(&id) {
            return Err(GraphError::DuplicateSession(id));
        }
        self.sessions.insert(id, Session { id, tasks: Vec::new(), objects: Vec::new() });
        Ok(())
    }

    /// Adds an unassigned task to its session. An id that is live or
    /// tombstoned is refused, and so is a session that is not open.
    pub fn register_task(&mut self, task: Task) -> (r: Result<(), GraphError>)
        requires
            old(self).wf(),
        ensures
            final(self).wf(),
            final(self).objects() == old(self).objects(),
            final(self).workers() == old(self).workers(),
            final(self).removed_tasks() == old(self).removed_tasks(),
            final(self).removed_objects() == old(self).removed_objects(),
            old(self).known_task(task.id) ==> r == Err::<(), GraphError>(
                GraphError::DuplicateTask(task.id),
            ),
            !old(self).known_task(task.id) && task.worker is Some ==> r == Err::<(), GraphError>(
                GraphError::NotAssignable(task.id),
            ),
            !old(self).known_task(task.id) && task.worker is None && !old(self).sessions().contains_key(
                task.session,
            ) ==> r == Err::<(), GraphError>(GraphError::UnknownSession(task.session)),
            !old(self).known_task(task.id) && task.worker is None && old(self).sessions().contains_key(
                task.session,
            ) ==> r is Ok,
            r is Ok ==> {
                &&& final(self).tasks() == old(self).tasks().insert(task.id, task)
                &&& final(self).sessions().dom() == old(self).sessions().dom()
                &&& final(self).sessions()[task.session].tasks@ == old(self).sessions()[task.session].tasks@.push(task.id)
            },
            r is Err ==> *final(self) == *old(self),
    {
        let id = task.id;
        let session = task.session;
        if self.tasks.contains_key(&id) || self.removed_tasks.contains(&id) {
            return Err(GraphError::DuplicateTask(id));
        }
        if task.worker.is_some() {
            return Err(GraphError::NotAssignable(id));
        }
        if !self.sessions.contains_key(&session) {
            return Err(GraphError::UnknownSession(session));
        }
        let ghost old_tasks = self.tasks@;
        let ghost old_sessions = self.sessions@;
        self.tasks.insert(id, task);
        let mut sess = self.sessions.remove(&session).unwrap();
        sess.tasks.push(id);
        self.sessions.insert(session, sess);
        proof {
            assert(self.sessions@.dom() =~= old_sessions.dom());
            assert forall|k: TaskId| #![trigger self.tasks@.contains_key(k)] self.tasks@.contains_key(k) implies {
                let s = self.tasks@[k].session;
                &&& self.sessions@.contains_key(s)
                &&& self.sessions@[s].tasks@.contains(k)
            } by {
                let s = self.tasks@[k].session;
                if k == id {
                    assert(self.sessions@[s].tasks@.last() == k);
                } else {
                    assert(old_tasks.contains_key(k));
                    if s == session {
                        let j = choose|j: int| 0 <= j < old_sessions[s].tasks@.len() && old_sessions[s].tasks@[j] == k;
                        assert(self.sessions@[s].tasks@[j] == k);
                    }
                }
            }
            assert forall|k: DataObjectId| #![trigger self.objects@.contains_key(k)] self.objects@.contains_key(k) implies {
                let s = self.objects@[k].session;
                &&& self.sessions@.contains_key(s)
                &&& self.sessions@[s].objects@.contains(k)
            } by {
                let s = self.objects@[k].session;
                assert(old_sessions[s].objects@ == self.sessions@[s].objects@);
            }
        }
        Ok(())
    }

    /// Adds an object to its session. An id that is live or tombstoned is
    /// refused, and so is a session that is not open.
    pub fn register_object(&mut self, object: DataObject) -> (r: Result<(), GraphError>)
        requires
            old(self).wf(),
        ensures
            final(self).wf(),
            final(self).tasks() == old(self).tasks(),
            final(self).workers() == old(self).workers(),
            final(self).removed_tasks() == old(self).removed_tasks(),
            final(self).removed_objects() == old(self).removed_objects(),
            old(self).known_object(object.id) ==> r == Err::<(), GraphError>(
                GraphError::DuplicateObject(object.id),
            ),
            !old(self).known_object(object.id) && !old(self).sessions().contains_key(object.session)
                ==> r == Err::<(), GraphError>(GraphError::UnknownSession(object.session)),
            !old(self).known_object(object.id) && old(self).sessions().contains_key(object.session)
                ==> r is Ok,
            r is Ok ==> {
                &&& final(self).objects() == old(self).objects().insert(object.id, object)
                &&& final(self).sessions().dom() == old(self).sessions().dom()
                &&& final(self).sessions()[object.session].objects@ == old(self).sessions()[object.session].objects@.push(object.id)
            },
            r is Err ==> *final(self) == *old(self),
    {
        let id = object.id;
        let session = object.session;
        if self.objects.contains_key(&id) || self.removed_objects.contains(&id) {
            return Err(GraphError::DuplicateObject(id));
        }
        if !self.sessions.contains_key(&session) {
            return Err(GraphError::UnknownSession(session));
        }
        let ghost old_objects = self.objects@;
        let ghost old_sessions = self.sessions@;
        self.objects.insert(id, object);
        let mut sess = self.sessions.remove(&session).unwrap();
        sess.objects.push(id);
        self.sessions.insert(session, sess);
        proof {
            assert(self.sessions@.dom() =~= old_sessions.dom());
            assert forall|k: DataObjectId| #![trigger self.objects@.contains_key(k)] self.objects@.contains_key(k) implies {
                let s = self.objects@[k].session;
                &&& self.sessions@.contains_key(s)
                &&& self.sessions@[s].objects@.contains(k)
            } by {
                let s = self.objects@[k].session;
                if k == id {
                    assert(self.sessions@[s].objects@.last() == k);
                } else {
                    assert(old_objects.contains_key(k));
                    if s == session {
                        let j = choose|j: int| 0 <= j < old_sessions[s].objects@.len() && old_sessions[s].objects@[j] == k;
                        assert(self.sessions@[s].objects@[j] == k);
                    }
                }
            }
            assert forall|k: TaskId| #![trigger self.tasks@.contains_key(k)] self.tasks@.contains_key(k) implies {
                let s = self.tasks@[k].session;
                &&& self.sessions@.contains_key(s)
                &&& self.sessions@[s].tasks@.contains(k)
            } by {
                let s = self.tasks@[k].session;
                assert(old_sessions[s].tasks@ == self.sessions@[s].tasks@);
            }
        }
        Ok(())
    }

    /// Removes a live task and keeps its id as a tombstone. Returns whether
    /// the task was live.
    pub fn remove_task(&mut self, id: TaskId) -> (r: bool)
        requires
            old(self).wf(),
        ensures
            final(self).wf(),
            r == old(self).tasks().contains_key(id),
            final(self).tasks() == old(self).tasks().remove(id),
            r ==> final(self).removed_tasks() == old(self).removed_tasks().insert(id),
            !r ==> final(self).removed_tasks() == old(self).removed_tasks(),
            final(self).objects() == old(self).objects(),
            final(self).workers() == old(self).workers(),
            final(self).removed_objects() == old(self).removed_objects(),
    {
        if !self.tasks.contains_key(&id) {
            proof {
                assert(self.tasks@.remove(id) =~= self.tasks@);
            }
            return false;
        }
        self.tasks.remove(&id);
        self.removed_tasks.insert(id);
        true
    }

    /// Removes a live object and keeps its id as a tombstone. Returns whether
    /// the object was live.
    pub fn remove_object(&mut self, id: DataObjectId) -> (r: bool)
        requires
            old(self).wf(),
        ensures
            final(self).wf(),
            r == old(self).objects().contains_key(id),
            final(self).objects() == old(self).objects().remove(id),
            r ==> final(self).removed_objects() == old(self).removed_objects().insert(id),
            !r ==> final(self).removed_objects() == old(self).removed_objects(),
            final(self).tasks() == old(self).tasks(),
            final(self).workers() == old(self).workers(),
            final(self).removed_tasks() == old(self).removed_tasks(),
    {
        if !self.objects.contains_key(&id) {
            proof {
                assert(self.objects@.remove(id) =~= self.objects@);
            }
            return false;
        }
        self.objects.remove(&id);
        self.removed_objects.insert(id);
        true
    }

    /// Assigns a scheduled, unassigned task to a registered worker.
    pub fn assign_task(&mut self, task: TaskId, worker: WorkerId) -> (r: Result<(), GraphError>)
        requires
            old(self).wf(),
        ensures
            final(self).wf(),
            !old(self).tasks().contains_key(task) ==> r == Err::<(), GraphError>(
                GraphError::UnknownTask(task),
            ),
            old(self).tasks().contains_key(task) && !old(self).workers().contains_key(worker)
                ==> r == Err::<(), GraphError>(GraphError::UnknownWorker(worker)),
            old(self).tasks().contains_key(task) && old(self).workers().contains_key(worker) && (
            old(self).tasks()[task].state != TaskState::Scheduled
                || old(self).tasks()[task].worker is Some) ==> r == Err::<(), GraphError>(
                GraphError::NotAssignable(task),
            ),
            r is Err ==> *final(self) == *old(self),
            r is Ok ==> {
                &&& old(self).tasks().contains_key(task)
                &&& old(self).workers().contains_key(worker)
                &&& old(self).tasks()[task].state == TaskState::Scheduled
                &&& old(self).tasks()[task].worker is None
                &&& final(self).tasks() == old(self).tasks().insert(
                    task,
                    Task { worker: Some(worker), ..old(self).tasks()[task] },
                )
                &&& final(self).workers().dom() == old(self).workers().dom()
                &&& final(self).workers()[worker].tasks@ == old(self).workers()[worker].tasks@.push(
                    task,
                )
                &&& final(self).objects() == old(self).objects()
                &&& final(self).removed_tasks() == old(self).removed_tasks()
                &&& final(self).removed_objects() == old(self).removed_objects()
            },
    {
        if !self.tasks.contains_key(&task) {
            return Err(GraphError::UnknownTask(task));
        }
        if !self.workers.contains_key(&worker) {
            return Err(GraphError::UnknownWorker(worker));
        }
        {
            let t = self.tasks.get(&task).unwrap();
            if t.state != TaskState::Scheduled || t.worker.is_some() {
                return Err(GraphError::NotAssignable(task));
            }
        }
        let ghost old_workers = self.workers@;
        let ghost old_tasks = self.tasks@;
        let mut t = self.tasks.remove(&task).unwrap();
        t.worker = Some(worker);
        self.tasks.insert(task, t);
        let mut w = self.workers.remove(&worker).unwrap();
        w.tasks.push(task);
        self.workers.insert(worker, w);
        proof {
            assert(self.tasks@ =~= old_tasks.insert(task, Task { worker: Some(worker), ..old_tasks[task] }));
            assert(self.workers@.dom() =~= old_workers.dom());
            assert forall|id: TaskId| #[trigger]
                self.tasks@.contains_key(id) && self.tasks@[id].worker is Some
                    && !self.tasks@[id].state.terminal() implies {
                    let x = self.tasks@[id].worker->Some_0;
                    &&& self.workers@.contains_key(x)
                    &&& self.workers@[x].tasks@.contains(id)
                } by {
                let x = self.tasks@[id].worker->Some_0;
                if id == task {
                    assert(self.workers@[x].tasks@.last() == id);
                } else if x == worker {
                    assert(old_workers[x].tasks@.contains(id));
                    let k = choose|k: int| 0 <= k < old_workers[x].tasks@.len() && old_workers[x].tasks@[k] == id;
                    assert(self.workers@[x].tasks@[k] == id);
                }
            }
        }
        Ok(())
    }

    /// Closes a session: its live tasks and objects are removed and their
    /// ids kept as tombstones. Returns whether the session was open.
    pub fn close_session(&mut self, session: u64) -> (r: bool)
        requires
            old(self).wf(),
        ensures
            final(self).wf(),
            r == old(self).sessions().contains_key(session),
            final(self).sessions() == old(self).sessions().remove(session),
            final(self).tasks() == Map::new(
                |k: TaskId| old(self).tasks().contains_key(k) && old(self).tasks()[k].session != session,
                |k: TaskId| old(self).tasks()[k],
            ),
            final(self).objects() == Map::new(
                |k: DataObjectId|
                    old(self).objects().contains_key(k) && old(self).objects()[k].session != session,
                |k: DataObjectId| old(self).objects()[k],
            ),
            final(self).removed_tasks() == old(self).removed_tasks().union(
                Set::new(
                    |k: TaskId|
                        old(self).tasks().contains_key(k) && old(self).tasks()[k].session == session,
                ),
            ),
            final(self).removed_objects() == old(self).removed_objects().union(
                Set::new(
                    |k: DataObjectId|
                        old(self).objects().contains_key(k) && old(self).objects()[k].session
                            == session,
                ),
            ),
            final(self).workers() == old(self).workers(),
    {
        let ghost t0 = self.tasks@;
        let ghost o0 = self.objects@;
        let ghost rt0 = self.removed_tasks@;
        let ghost ro0 = self.removed_objects@;
        if !self.sessions.contains_key(&session) {
            proof {
                assert(self.sessions@.remove(session) =~= self.sessions@);
                assert(self.tasks@ =~= Map::new(
                    |k: TaskId| t0.contains_key(k) && t0[k].session != session,
                    |k: TaskId| t0[k],
                ));
                assert(self.objects@ =~= Map::new(
                    |k: DataObjectId| o0.contains_key(k) && o0[k].session != session,
                    |k: DataObjectId| o0[k],
                ));
                assert(rt0.union(Set::new(|k: TaskId| t0.contains_key(k) && t0[k].session == session)) =~= rt0);
                assert(ro0.union(Set::new(|k: DataObjectId| o0.contains_key(k) && o0[k].session == session)) =~= ro0);
            }
            return false;
        }
        let ghost s0 = self.sessions@;
        let entry = self.sessions.remove(&session).unwrap();
        let tasks = entry.tasks;
        let objects = entry.objects;
        let mut i: usize = 0;
        while i < tasks.len()
            invariant
                i <= tasks@.len(),
                tasks@ == s0[session].tasks@,
                self.tasks@ == Map::new(
                    |k: TaskId| t0.contains_key(k) && !(tasks@.subrange(0, i as int).contains(k) && t0[k].session == session),
                    |k: TaskId| t0[k],
                ),
                self.removed_tasks@ == rt0.union(Set::new(
                    |k: TaskId| t0.contains_key(k) && tasks@.subrange(0, i as int).contains(k) && t0[k].session == session,
                )),
                self.objects@ == o0,
                self.removed_objects@ == ro0,
                self.workers@ == old(self).workers@,
                self.sessions@ == s0.remove(session),
            decreases tasks@.len() - i,
        {
            let id = tasks[i];
            let hit = match self.tasks.get(&id) {
                Some(t) => t.session == session,
                None => false,
            };
            if hit {
                self.tasks.remove(&id);
                self.removed_tasks.insert(id);
            }
            proof {
                let p = tasks@.subrange(0, i as int);
                let q = tasks@.subrange(0, i as int + 1);
                assert(q =~= p.push(id));
                assert forall|k: TaskId| #[trigger] q.contains(k) == (p.contains(k) || k == id) by {
                    if k == id {
                        assert(q[i as int] == k);
                    }
                    if p.contains(k) {
                        let j = choose|j: int| 0 <= j < p.len() && p[j] == k;
                        assert(q[j] == k);
                    }
                    if q.contains(k) && k != id {
                        let j = choose|j: int| 0 <= j < q.len() && q[j] == k;
                        assert(p[j] == k);
                    }
                }
                assert(self.tasks@ =~= Map::new(
                    |k: TaskId| t0.contains_key(k) && !(q.contains(k) && t0[k].session == session),
                    |k: TaskId| t0[k],
                ));
                assert(self.removed_tasks@ =~= rt0.union(Set::new(
                    |k: TaskId| t0.contains_key(k) && q.contains(k) && t0[k].session == session,
                )));
            }
            i = i + 1;
        }
        proof {
            assert(tasks@.subrange(0, tasks@.len() as int) =~= tasks@);
            assert(self.tasks@ =~= Map::new(
                |k: TaskId| t0.contains_key(k) && !(tasks@.contains(k) && t0[k].session == session),
                |k: TaskId| t0[k],
            ));
            assert(self.removed_tasks@ =~= rt0.union(Set::new(
                |k: TaskId| t0.contains_key(k) && tasks@.contains(k) && t0[k].session == session,
            )));
        }
        let mut i: usize = 0;
        while i < objects.len()
            invariant
                i <= objects@.len(),
                objects@ == s0[session].objects@,
                self.objects@ == Map::new(
                    |k: DataObjectId| o0.contains_key(k) && !(objects@.subrange(0, i as int).contains(k) && o0[k].session == session),
                    |k: DataObjectId| o0[k],
                ),
                self.removed_objects@ == ro0.union(Set::new(
                    |k: DataObjectId| o0.contains_key(k) && objects@.subrange(0, i as int).contains(k) && o0[k].session == session,
                )),
                self.tasks@ == Map::new(
                    |k: TaskId| t0.contains_key(k) && !(tasks@.contains(k) && t0[k].session == session),
                    |k: TaskId| t0[k],
                ),
                self.removed_tasks@ == rt0.union(Set::new(
                    |k: TaskId| t0.contains_key(k) && tasks@.contains(k) && t0[k].session == session,
                )),
                self.workers@ == old(self).workers@,
                self.sessions@ == s0.remove(session),
            decreases objects@.len() - i,
        {
            let id = objects[i];
            let hit = match self.objects.get(&id) {
                Some(o) => o.session == session,
                None => false,
            };
            if hit {
                self.objects.remove(&id);
                self.removed_objects.insert(id);
            }
            proof {
                let p = objects@.subrange(0, i as int);
                let q = objects@.subrange(0, i as int + 1);
                assert forall|k: DataObjectId| #[trigger] q.contains(k) == (p.contains(k) || k == id) by {
                    if k == id {
                        assert(q[i as int] == k);
                    }
                    if p.contains(k) {
                        let j = choose|j: int| 0 <= j < p.len() && p[j] == k;
                        assert(q[j] == k);
                    }
                    if q.contains(k) && k != id {
                        let j = choose|j: int| 0 <= j < q.len() && q[j] == k;
                        assert(p[j] == k);
                    }
                }
                assert(self.objects@ =~= Map::new(
                    |k: DataObjectId| o0.contains_key(k) && !(q.contains(k) && o0[k].session == session),
                    |k: DataObjectId| o0[k],
                ));
                assert(self.removed_objects@ =~= ro0.union(Set::new(
                    |k: DataObjectId| o0.contains_key(k) && q.contains(k) && o0[k].session == session,
                )));
            }
            i = i + 1;
        }
        proof {
            assert(tasks@.subrange(0, tasks@.len() as int) =~= tasks@);
            assert(objects@.subrange(0, objects@.len() as int) =~= objects@);
            assert(self.tasks@ =~= Map::new(
                |k: TaskId| t0.contains_key(k) && t0[k].session != session,
                |k: TaskId| t0[k],
            ));
            assert(self.objects@ =~= Map::new(
                |k: DataObjectId| o0.contains_key(k) && o0[k].session != session,
                |k: DataObjectId| o0[k],
            ));
            assert(self.removed_tasks@ =~= rt0.union(Set::new(
                |k: TaskId| t0.contains_key(k) && t0[k].session == session,
            )));
            assert(self.removed_objects@ =~= ro0.union(Set::new(
                |k: DataObjectId| o0.contains_key(k) && o0[k].session == session,
            )));
            assert forall|k: TaskId| #![trigger self.tasks@.contains_key(k)] self.tasks@.contains_key(k) implies {
                let s = self.tasks@[k].session;
                &&& self.sessions@.contains_key(s)
                &&& self.sessions@[s].tasks@.contains(k)
            } by {
                assert(t0.contains_key(k));
            }
            assert forall|k: DataObjectId| #![trigger self.objects@.contains_key(k)] self.objects@.contains_key(k) implies {
                let s = self.objects@[k].session;
                &&& self.sessions@.contains_key(s)
                &&& self.sessions@[s].objects@.contains(k)
            } by {
                assert(o0.contains_key(k));
            }
            assert forall|k: TaskId| #![trigger self.tasks@.contains_key(k)] self.tasks@.contains_key(k) implies
                !self.removed_tasks@.contains(k) by {
                assert(t0.contains_key(k));
            }
            assert forall|k: DataObjectId| #![trigger self.objects@.contains_key(k)] self.objects@.contains_key(k) implies
                !self.removed_objects@.contains(k) by {
                assert(o0.contains_key(k));
            }
            assert forall|k: TaskId|
                #![trigger self.tasks@.contains_key(k)]
                self.tasks@.contains_key(k) && self.tasks@[k].worker is Some
                    && !self.tasks@[k].state.terminal() implies {
                    let x = self.tasks@[k].worker->Some_0;
                    &&& self.workers@.contains_key(x)
                    &&& self.workers@[x].tasks@.contains(k)
                } by {
                assert(t0.contains_key(k));
            }
        }
        true
    }

    /// Drops a worker. Every unfinished task assigned to it fails with
    /// `WorkerLost`. Returns whether the worker was registered.
    pub fn remove_worker(&mut self, worker: WorkerId) -> (r: bool)
        requires
            old(self).wf(),
        ensures
            final(self).wf(),
            r == old(self).workers().contains_key(worker),
            final(self).workers() == old(self).workers().remove(worker),
            final(self).tasks() == old(self).tasks().map_values(|t: Task| lost(t, worker)),
            final(self).objects() == old(self).objects(),
            final(self).sessions() == old(self).sessions(),
            final(self).removed_tasks() == old(self).removed_tasks(),
            final(self).removed_objects() == old(self).removed_objects(),
    {
        let ghost old_tasks = self.tasks@;
        if !self.workers.contains_key(&worker) {
            proof {
                assert(self.workers@.remove(worker) =~= self.workers@);
                assert(self.tasks@.map_values(|t: Task| lost(t, worker)) =~= self.tasks@);
            }
            return false;
        }
        let ghost old_workers = self.workers@;
        let entry = self.workers.remove(&worker).unwrap();
        let list = entry.tasks;
        let mut i: usize = 0;
        while i < list.len()
            invariant
                i <= list@.len(),
                list@ == old_workers[worker].tasks@,
                self.tasks@.dom() == old_tasks.dom(),
                forall|id: TaskId| #[trigger]
                    self.tasks@.contains_key(id) ==> self.tasks@[id] == if list@.subrange(
                        0,
                        i as int,
                    ).contains(id) {
                        lost(old_tasks[id], worker)
                    } else {
                        old_tasks[id]
                    },
                self.workers@ == old_workers.remove(worker),
                self.sessions@ == old(self).sessions@,
                self.objects@ == old(self).objects@,
                self.removed_tasks@ == old(self).removed_tasks@,
                self.removed_objects@ == old(self).removed_objects@,
            decreases list@.len() - i,
        {
            let id = list[i];
            let ghost before = self.tasks@;
            let hit = match self.tasks.get(&id) {
                Some(t) => match t.worker {
                    Some(x) => x == worker && !t.state.is_terminal(),
                    None => false,
                },
                None => false,
            };
            if hit {
                let mut t = self.tasks.remove(&id).unwrap();
                t.state = TaskState::Failed;
                t.failure = Some(FailureReason::WorkerLost);
                self.tasks.insert(id, t);
            }
            proof {
                assert(list@.subrange(0, i as int + 1) =~= list@.subrange(0, i as int).push(id));
                if hit {
                    assert(self.tasks@.dom() =~= before.dom());
                }
                assert forall|k: TaskId| #[trigger] self.tasks@.contains_key(k) implies self.tasks@[k]
                    == if list@.subrange(0, i as int + 1).contains(k) {
                    lost(old_tasks[k], worker)
                } else {
                    old_tasks[k]
                } by {
                    if k == id {
                        assert(list@.subrange(0, i as int + 1)[i as int] == k);
                        assert(list@.subrange(0, i as int + 1).contains(k));
                    } else {
                        assert(list@.subrange(0, i as int + 1).contains(k)
                            == list@.subrange(0, i as int).contains(k));
                    }
                }
            }
            i = i + 1;
        }
        proof {
            assert(list@.subrange(0, list@.len() as int) =~= list@);
            assert(self.tasks@ =~= old_tasks.map_values(|t: Task| lost(t, worker)));
            assert forall|id: TaskId|
                #![trigger self.tasks@.contains_key(id)]
                self.tasks@.contains_key(id) && self.tasks@[id].worker is Some
                    && !self.tasks@[id].state.terminal() implies {
                    let x = self.tasks@[id].worker->Some_0;
                    &&& self.workers@.contains_key(x)
                    &&& self.workers@[x].tasks@.contains(id)
                } by {
                assert(old_tasks.contains_key(id));
            }
            assert forall|id: TaskId| #![trigger self.tasks@.contains_key(id)] self.tasks@.contains_key(id) implies {
                let s = self.tasks@[id].session;
                &&& self.sessions@.contains_key(s)
                &&& self.sessions@[s].tasks@.contains(id)
            } by {
                assert(old_tasks.contains_key(id));
            }
        }
        true
    }

    /// Whether every one of the objects `ids` is live and finished.
    fn all_finished(&self, ids: &Vec<DataObjectId>) -> (r: bool)
        ensures
            r == forall|i: int|
                #![trigger ids@[i]]
                0 <= i < ids@.len() ==> {
                    &&& self.objects@.contains_key(ids@[i])
                    &&& self.objects@[ids@[i]].state == DataObjectState::Finished
                },
    {
        let mut i: usize = 0;
        while i < ids.len()
            invariant
                i <= ids@.len(),
                forall|j: int|
                    #![trigger ids@[j]]
                    0 <= j < i ==> {
                        &&& self.objects@.contains_key(ids@[j])
                        &&& self.objects@[ids@[j]].state == DataObjectState::Finished
                    },
            decreases ids@.len() - i,
        {
            let done = match self.objects.get(&ids[i]) {
                Some(o) => o.state == DataObjectState::Finished,
                None => false,
            };
            if !done {
                return false;
            }
            i = i + 1;
        }
        true
    }

    fn apply_object_update(&mut self, u: ObjectUpdate)
        requires
            old(self).wf(),
        ensures
            final(self).wf(),
            final(self).objects@ == object_step(old(self).objects@, u),
            final(self).tasks@ == old(self).tasks@,
            final(self).workers@ == old(self).workers@,
            final(self).sessions@ == old(self).sessions@,
            final(self).removed_tasks@ == old(self).removed_tasks@,
            final(self).removed_objects@ == old(self).removed_objects@,
    {
        let open = match self.objects.get(&u.id) {
            Some(o) => o.state == DataObjectState::Unfinished,
            None => false,
        };
        if open {
            let ghost before = self.objects@;
            let mut o = self.objects.remove(&u.id).unwrap();
            o.state = u.state;
            o.size = u.size;
            o.attributes = u.attributes;
            self.objects.insert(u.id, o);
            proof {
                assert(self.objects@ =~= object_step(before, u));
            }
        }
    }

    fn apply_task_update(&mut self, worker: WorkerId, u: TaskUpdate)
        requires
            old(self).wf(),
        ensures
            final(self).wf(),
            final(self).tasks@ == task_step(old(self).tasks@, old(self).objects@, worker, u),
            final(self).objects@ == old(self).objects@,
            final(self).workers@ == old(self).workers@,
            final(self).sessions@ == old(self).sessions@,
            final(self).removed_tasks@ == old(self).removed_tasks@,
            final(self).removed_objects@ == old(self).removed_objects@,
    {
        let (applies, complete) = match self.tasks.get(&u.id) {
            Some(t) => {
                let mine = match t.worker {
                    Some(x) => x == worker,
                    None => false,
                };
                if mine && t.state.advances_to(&u.state) {
                    (true, self.all_finished(&t.outputs))
                } else {
                    (false, false)
                }
            },
            None => (false, false),
        };
        if !applies {
            return;
        }
        let ghost before = self.tasks@;
        let mut t = self.tasks.remove(&u.id).unwrap();
        if u.state == TaskState::Finished && !complete {
            t.state = TaskState::Failed;
            t.failure = Some(FailureReason::OutputsMissing);
        } else if u.state == TaskState::Failed {
            t.state = TaskState::Failed;
            t.failure = Some(FailureReason::ReportedByWorker);
        } else {
            t.state = u.state;
        }
        t.attributes = u.attributes;
        self.tasks.insert(u.id, t);
        proof {
            assert(self.tasks@ =~= task_step(before, self.objects@, worker, u));
            assert forall|id: TaskId|
                #![trigger self.tasks@.contains_key(id)]
                self.tasks@.contains_key(id) && self.tasks@[id].worker is Some
                    && !self.tasks@[id].state.terminal() implies {
                    let x = self.tasks@[id].worker->Some_0;
                    &&& self.workers@.contains_key(x)
                    &&& self.workers@[x].tasks@.contains(id)
                } by {
                assert(before.contains_key(id));
            }
        }
    }

    /// The first id of the batch that is neither live nor tombstoned.
    fn first_unknown(&self, batch: &UpdateBatch) -> (r: Option<GraphError>)
        ensures
            match r {
                None => self.batch_known(*batch),
                Some(GraphError::UnknownObject(id)) => !self.known_object(id),
                Some(GraphError::UnknownTask(id)) => !self.known_task(id),
                Some(_) => false,
            },
            r is Some ==> !self.batch_known(*batch),
    {
        let mut i: usize = 0;
        while i < batch.objects.len()
            invariant
                i <= batch.objects@.len(),
                forall|j: int| 0 <= j < i ==> self.known_object(#[trigger] batch.objects@[j].id),
            decreases batch.objects@.len() - i,
        {
            let id = batch.objects[i].id;
            if !self.objects.contains_key(&id) && !self.removed_objects.contains(&id) {
                return Some(GraphError::UnknownObject(id));
            }
            i = i + 1;
        }
        let mut i: usize = 0;
        while i < batch.tasks.len()
            invariant
                i <= batch.tasks@.len(),
                forall|j: int| 0 <= j < batch.objects@.len() ==> self.known_object(#[trigger] batch.objects@[j].id),
                forall|j: int| 0 <= j < i ==> self.known_task(#[trigger] batch.tasks@[j].id),
            decreases batch.tasks@.len() - i,
        {
            let id = batch.tasks[i].id;
            if !self.tasks.contains_key(&id) && !self.removed_tasks.contains(&id) {
                return Some(GraphError::UnknownTask(id));
            }
            i = i + 1;
        }
        None
    }

    /// Applies one batch of deltas from `worker`: all object deltas first,
    /// then all task deltas, each in batch order.
    ///
    /// A batch from a worker that is no longer registered is dropped. Deltas
    /// naming tombstoned ids are skipped. A batch naming an id that was never
    /// registered is refused as a whole and changes nothing.
    pub fn apply_worker_update(&mut self, worker: WorkerId, batch: UpdateBatch) -> (r: Result<
        (),
        GraphError,
    >)
        requires
            old(self).wf(),
        ensures
            final(self).wf(),
            !old(self).workers().contains_key(worker) ==> r is Ok && *final(self) == *old(self),
            old(self).workers().contains_key(worker) && !old(self).batch_known(batch) ==> r is Err,
            r is Err ==> *final(self) == *old(self),
            r matches Err(GraphError::UnknownObject(id)) ==> !old(self).known_object(id),
            r matches Err(GraphError::UnknownTask(id)) ==> !old(self).known_task(id),
            old(self).workers().contains_key(worker) && old(self).batch_known(batch) ==> {
                let objects = objects_after(old(self).objects(), batch.objects@);
                &&& r is Ok
                &&& final(self).objects() == objects
                &&& final(self).tasks() == tasks_after(old(self).tasks(), objects, worker, batch.tasks@)
                &&& final(self).workers() == old(self).workers()
                &&& final(self).sessions() == old(self).sessions()
                &&& final(self).removed_tasks() == old(self).removed_tasks()
                &&& final(self).removed_objects() == old(self).removed_objects()
            },
    {
        if !self.workers.contains_key(&worker) {
            return Ok(());
        }
        match self.first_unknown(&batch) {
            Some(e) => {
                return Err(e);
            },
            None => {},
        }
        let UpdateBatch { objects, tasks } = batch;
        let ghost os = objects@;
        let ghost m0 = self.objects@;
        let mut rest = reversed(objects);
        let ghost mut k: int = 0;
        while rest.len() > 0
            invariant
                self.wf(),
                0 <= k,
                k + rest@.len() == os.len(),
                rest@ == os.subrange(k, os.len() as int).reverse(),
                self.objects@ == objects_after(m0, os.subrange(0, k)),
                self.tasks@ == old(self).tasks@,
                self.workers@ == old(self).workers@,
                self.sessions@ == old(self).sessions@,
                self.removed_tasks@ == old(self).removed_tasks@,
                self.removed_objects@ == old(self).removed_objects@,
            decreases rest.len(),
        {
            let u = rest.pop().unwrap();
            proof {
                assert(u == os[k]);
                assert(os.subrange(0, k + 1).drop_last() =~= os.subrange(0, k));
                assert(os.subrange(0, k + 1).last() == u);
                assert(rest@ =~= os.subrange(k + 1, os.len() as int).reverse());
            }
            self.apply_object_update(u);
            proof {
                k = k + 1;
            }
        }
        proof {
            assert(os.subrange(0, os.len() as int) =~= os);
        }
        let ghost ts = tasks@;
        let ghost t0 = self.tasks@;
        let mut rest = reversed(tasks);
        let ghost mut k: int = 0;
        while rest.len() > 0
            invariant
                self.wf(),
                0 <= k,
                k + rest@.len() == ts.len(),
                rest@ == ts.subrange(k, ts.len() as int).reverse(),
                self.tasks@ == tasks_after(t0, self.objects@, worker, ts.subrange(0, k)),
                self.objects@ == objects_after(m0, os),
                self.workers@ == old(self).workers@,
                self.sessions@ == old(self).sessions@,
                self.removed_tasks@ == old(self).removed_tasks@,
                self.removed_objects@ == old(self).removed_objects@,
            decreases rest.len(),
        {
            let u = rest.pop().unwrap();
            proof {
                assert(u == ts[k]);
                assert(ts.subrange(0, k + 1).drop_last() =~= ts.subrange(0, k));
                assert(ts.subrange(0, k + 1).last() == u);
                assert(rest@ =~= ts.subrange(k + 1, ts.len() as int).reverse());
            }
            self.apply_task_update(worker, u);
            proof {
                k = k + 1;
            }
        }
        proof {
            assert(ts.subrange(0, ts.len() as int) =~= ts);
        }
        Ok(())
    }
}

proof fn lemma_objects_after_removed(
    m: Map<DataObjectId, DataObject>,
    removed: Set<DataObjectId>,
    us: Seq<ObjectUpdate>,
)
    requires
        forall|id: DataObjectId| #[trigger] m.contains_key(id) ==> !removed.contains(id),
        forall|i: int| 0 <= i < us.len() ==> removed.contains(#[trigger] us[i].id),
    ensures
        objects_after(m, us) == m,
    decreases us.len(),
{
    if us.len() > 0 {
        assert(removed.contains(us[us.len() - 1].id));
        lemma_objects_after_removed(m, removed, us.drop_last());
    }
}

proof fn lemma_tasks_after_removed(
    m: Map<TaskId, Task>,
    objects: Map<DataObjectId, DataObject>,
    w: WorkerId,
    removed: Set<TaskId>,
    us: Seq<TaskUpdate>,
)
    requires
        forall|id: TaskId| #[trigger] m.contains_key(id) ==> !removed.contains(id),
        forall|i: int| 0 <= i < us.len() ==> removed.contains(#[trigger] us[i].id),
    ensures
        tasks_after(m, objects, w, us) == m,
    decreases us.len(),
{
    if us.len() > 0 {
        assert(removed.contains(us[us.len() - 1].id));
        lemma_tasks_after_removed(m, objects, w, removed, us.drop_last());
    }
}

/// Late updates that name only removed tasks and objects are accepted and
/// change nothing: the batch counts as known, and folding its deltas into
/// the graph leaves every task and object as it was.
pub proof fn lemma_removed_ids_ignored(g: Graph, worker: WorkerId, batch: UpdateBatch)
    requires
        g.wf(),
        forall|i: int|
            0 <= i < batch.objects@.len() ==> g.removed_objects().contains(
                #[trigger] batch.objects@[i].id,
            ),
        forall|i: int|
            0 <= i < batch.tasks@.len() ==> g.removed_tasks().contains(#[trigger] batch.tasks@[i].id),
    ensures
        g.batch_known(batch),
        objects_after(g.objects(), batch.objects@) == g.objects(),
        tasks_after(g.tasks(), g.objects(), worker, batch.tasks@) == g.tasks(),
{
    lemma_objects_after_removed(g.objects(), g.removed_objects(), batch.objects@);
    lemma_tasks_after_removed(g.tasks(), g.objects(), worker, g.removed_tasks(), batch.tasks@);
}

pub open spec fn without_removed_objects(us: Seq<ObjectUpdate>, removed: Set<DataObjectId>) -> Seq<
    ObjectUpdate,
> {
    us.filter(keeps_object(removed))
}

pub open spec fn keeps_object(removed: Set<DataObjectId>) -> spec_fn(ObjectUpdate) -> bool {
    |u: ObjectUpdate| !removed.contains(u.id)
}

pub open spec fn keeps_task(removed: Set<TaskId>) -> spec_fn(TaskUpdate) -> bool {
    |u: TaskUpdate| !removed.contains(u.id)
}

pub open spec fn without_removed_tasks(us: Seq<TaskUpdate>, removed: Set<TaskId>) -> Seq<TaskUpdate> {
    us.filter(keeps_task(removed))
}

proof fn lemma_objects_after_dom(m: Map<DataObjectId, DataObject>, us: Seq<ObjectUpdate>)
    ensures
        objects_after(m, us).dom() == m.dom(),
    decreases us.len(),
{
    if us.len() > 0 {
        lemma_objects_after_dom(m, us.drop_last());
        let prev = objects_after(m, us.drop_last());
        assert(object_step(prev, us.last()).dom() =~= prev.dom());
    }
}

proof fn lemma_tasks_after_dom(
    m: Map<TaskId, Task>,
    objects: Map<DataObjectId, DataObject>,
    w: WorkerId,
    us: Seq<TaskUpdate>,
)
    ensures
        tasks_after(m, objects, w, us).dom() == m.dom(),
    decreases us.len(),
{
    if us.len() > 0 {
        lemma_tasks_after_dom(m, objects, w, us.drop_last());
        let prev = tasks_after(m, objects, w, us.drop_last());
        assert(task_step(prev, objects, w, us.last()).dom() =~= prev.dom());
    }
}

proof fn lemma_objects_after_filtered(
    m: Map<DataObjectId, DataObject>,
    removed: Set<DataObjectId>,
    us: Seq<ObjectUpdate>,
)
    requires
        forall|id: DataObjectId| #[trigger] m.contains_key(id) ==> !removed.contains(id),
    ensures
        objects_after(m, us) == objects_after(m, without_removed_objects(us, removed)),
    decreases us.len(),
{
    if us.len() > 0 {
        let f = without_removed_objects(us, removed);
        let fd = without_removed_objects(us.drop_last(), removed);
        lemma_objects_after_filtered(m, removed, us.drop_last());
        lemma_objects_after_dom(m, us.drop_last());
        assert(us =~= us.drop_last().push(us.last()));
        us.drop_last().lemma_filter_push(us.last(), keeps_object(removed));
        if removed.contains(us.last().id) {
            assert(f == fd);
        } else {
            assert(f == fd.push(us.last()));
            assert(f.drop_last() =~= fd);
        }
    }
}

proof fn lemma_tasks_after_filtered(
    m: Map<TaskId, Task>,
    objects: Map<DataObjectId, DataObject>,
    w: WorkerId,
    removed: Set<TaskId>,
    us: Seq<TaskUpdate>,
)
    requires
        forall|id: TaskId| #[trigger] m.contains_key(id) ==> !removed.contains(id),
    ensures
        tasks_after(m, objects, w, us) == tasks_after(m, objects, w, without_removed_tasks(us, removed)),
    decreases us.len(),
{
    if us.len() > 0 {
        let f = without_removed_tasks(us, removed);
        let fd = without_removed_tasks(us.drop_last(), removed);
        lemma_tasks_after_filtered(m, objects, w, removed, us.drop_last());
        lemma_tasks_after_dom(m, objects, w, us.drop_last());
        assert(us =~= us.drop_last().push(us.last()));
        us.drop_last().lemma_filter_push(us.last(), keeps_task(removed));
        if removed.contains(us.last().id) {
            assert(f == fd);
        } else {
            assert(f == fd.push(us.last()));
            assert(f.drop_last() =~= fd);
        }
    }
}

/// Entries that name removed ids are no-ops even inside a batch with live
/// ids: folding a batch into the graph gives the same tasks and objects as
/// folding the batch with those entries deleted.
pub proof fn lemma_removed_entries_ignored(g: Graph, worker: WorkerId, batch: UpdateBatch)
    requires
        g.wf(),
    ensures
        ({
            let objs = without_removed_objects(batch.objects@, g.removed_objects());
            let tasks = without_removed_tasks(batch.tasks@, g.removed_tasks());
            &&& objects_after(g.objects(), batch.objects@) == objects_after(g.objects(), objs)
            &&& tasks_after(g.tasks(), objects_after(g.objects(), batch.objects@), worker, batch.tasks@)
                == tasks_after(g.tasks(), objects_after(g.objects(), objs), worker, tasks)
        }),
{
    lemma_objects_after_filtered(g.objects(), g.removed_objects(), batch.objects@);
    lemma_tasks_after_filtered(
        g.tasks(),
        objects_after(g.objects(), batch.objects@),
        worker,
        g.removed_tasks(),
        batch.tasks@,
    );
}

/// A task delta makes a task finished exactly when it reports success and
/// every declared output of the task is finished.
pub proof fn lemma_finished_iff_outputs_finished(
    m: Map<TaskId, Task>,
    objects: Map<DataObjectId, DataObject>,
    w: WorkerId,
    u: TaskUpdate,
)
    requires
        m.contains_key(u.id),
        m[u.id].worker == Some(w),
        m[u.id].state.rank() < u.state.rank(),
    ensures
        task_step(m, objects, w, u)[u.id].state == TaskState::Finished <==> (u.state
            == TaskState::Finished && outputs_finished(m[u.id], objects)),
{
}

} // verus!
