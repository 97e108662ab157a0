//! The worker's task execution engine: a task goes from scheduled to running
//! with its cpus allocated, is handed to a built-in handler or a helper
//! process, and is finalised exactly once, releasing what it allocated.

use vstd::prelude::*;
use std::collections::HashMap;
use futures::unsync::oneshot::{Receiver, Sender};
use crate::types::{reversed, str_eq, DataObjectId, DataObjectState, ObjectUpdate, TaskId, TaskInput, TaskState, TaskUpdate, UpdateBatch};

verus! {

/// Why a worker recorded a task as failed.
#[derive(Clone, Debug)]
pub enum TaskFailure {
    TerminatedByServer,
    OutputsNotProduced,
    /// The handler or the helper process reported this error.
    Error(String),
}

pub open spec fn failure_message(f: TaskFailure) -> Seq<char> {
    match f {
        TaskFailure::TerminatedByServer => "Task terminated by server"@,
        TaskFailure::OutputsNotProduced => "Some of outputs were not produced"@,
        TaskFailure::Error(e) => e@,
    }
}

impl TaskFailure {
    /// Human-readable reason.
    pub fn message(&self) -> (r: String)
        ensures
            r@ == failure_message(*self),
    {
        match self {
            TaskFailure::TerminatedByServer => "Task terminated by server".to_owned(),
            TaskFailure::OutputsNotProduced => "Some of outputs were not produced".to_owned(),
            TaskFailure::Error(e) => e.clone(),
        }
    }
}

/// A task as the worker holds it.
#[derive(Debug)]
pub struct WorkerTask {
    pub id: TaskId,
    pub task_type: String,
    pub state: TaskState,
    pub inputs: Vec<TaskInput>,
    pub outputs: Vec<DataObjectId>,
    pub cpus: u32,
    pub config: Vec<u8>,
    pub failure: Option<TaskFailure>,
    /// Free-form attributes produced while running, reported upstream.
    pub additionals: String,
}

/// A data object as the worker holds it; its data is set once, when the
/// object is finished.
#[derive(Debug)]
pub struct WorkerObject {
    pub id: DataObjectId,
    pub label: String,
    pub state: DataObjectState,
    pub data: Option<Vec<u8>>,
}

/// How a task is executed, chosen by its type tag.
#[derive(PartialEq, Eq, Structural, Clone, Copy, Debug)]
pub enum Handler {
    Run,
    Concat,
    Sleep,
    Open,
    /// Delegated to a helper process of the flavor named by the task type.
    Subworker,
    /// A built-in tag that names no handler: the task is to fail with
    /// `fail_unknown_type`.
    Unknown,
}

/// How a task's execution ended.
#[derive(Debug)]
pub enum Outcome {
    /// The handler reported success.
    Completed,
    /// The cancellation signal won the race.
    Cancelled,
    /// The handler reported an error.
    Failed(String),
}

#[derive(PartialEq, Eq, Structural, Clone, Copy, Debug)]
pub enum StartError {
    /// Some input object is not finished yet.
    InputsNotReady,
    /// The task asks for more cpus than are free.
    NotEnoughResources,
}

/// What `start` hands to the code that executes the task.
pub struct Started {
    pub handler: Handler,
    /// Resolves when the task is to be terminated.
    pub cancel: Receiver<()>,
}

pub open spec fn is_builtin(t: Seq<char>) -> bool {
    t.len() > 0 && t[0] == '!'
}

/// The handler of a type tag: tags starting with `!` are built in, all
/// others are delegated; a `!` tag naming no built-in handler is unknown.
pub open spec fn handler_of(t: Seq<char>) -> Handler {
    if !is_builtin(t) {
        Handler::Subworker
    } else if t == "!run"@ {
        Handler::Run
    } else if t == "!concat"@ {
        Handler::Concat
    } else if t == "!sleep"@ {
        Handler::Sleep
    } else if t == "!open"@ {
        Handler::Open
    } else {
        Handler::Unknown
    }
}

pub fn handler_for(task_type: &str) -> (r: Handler)
    ensures
        r == handler_of(task_type@),
{
    proof {
        reveal_strlit("!run");
        reveal_strlit("!concat");
        reveal_strlit("!sleep");
        reveal_strlit("!open");
    }
    if task_type.unicode_len() == 0 || task_type.get_char(0) != '!' {
        Handler::Subworker
    } else if str_eq(task_type, "!run") {
        Handler::Run
    } else if str_eq(task_type, "!concat") {
        Handler::Concat
    } else if str_eq(task_type, "!sleep") {
        Handler::Sleep
    } else if str_eq(task_type, "!open") {
        Handler::Open
    } else {
        Handler::Unknown
    }
}

/// Handle of a running task: it remembers the cpus it holds and can signal
/// cancellation once.
pub struct TaskInstance {
    task_id: TaskId,
    cpus: u32,
    cancel_sender: Option<Sender<()>>,
}

impl TaskInstance {
    pub closed spec fn task_id(&self) -> TaskId {
        self.task_id
    }

    pub closed spec fn cpus(&self) -> u32 {
        self.cpus
    }

    /// Cancellation has been signalled already.
    pub closed spec fn cancel_requested(&self) -> bool {
        self.cancel_sender is None
    }

    /// Signals cancellation. Only the first call signals; a later call sees
    /// that termination is already in progress and does nothing. Returns
    /// whether this call signalled.
    pub fn stop(&mut self) -> (r: bool)
        ensures
            stopped(*old(self), *final(self), r),
    {
        let mut cancel_sender = None;
        std::mem::swap(&mut self.cancel_sender, &mut cancel_sender);
        match cancel_sender {
            Some(sender) => {
                let _ = sender.send(());
                true
            },
            None => false,
        }
    }
}

/// `after` is `before` after one `stop` that returned `signalled`.
pub open spec fn stopped(before: TaskInstance, after: TaskInstance, signalled: bool) -> bool {
    &&& after.cancel_requested()
    &&& after.task_id() == before.task_id()
    &&& after.cpus() == before.cpus()
    &&& signalled == !before.cancel_requested()
}

/// Stopping a running task twice signals cancellation exactly once.
pub proof fn lemma_stop_twice_signals_once(
    a: TaskInstance,
    b: TaskInstance,
    c: TaskInstance,
    first: bool,
    second: bool,
)
    requires
        !a.cancel_requested(),
        stopped(a, b, first),
        stopped(b, c, second),
    ensures
        first,
        !second,
{
}

pub open spec fn allocated(s: Seq<TaskInstance>) -> int
    decreases s.len(),
{
    if s.len() == 0 {
        0
    } else {
        allocated(s.drop_last()) + s.last().cpus() as int
    }
}

proof fn lemma_allocated_remove(s: Seq<TaskInstance>, i: int)
    requires
        0 <= i < s.len(),
    ensures
        allocated(s.remove(i)) == allocated(s) - s[i].cpus() as int,
    decreases s.len(),
{
    if i == s.len() - 1 {
        assert(s.remove(i) =~= s.drop_last());
    } else {
        let t = s.drop_last();
        lemma_allocated_remove(t, i);
        assert(s.remove(i).drop_last() =~= t.remove(i));
        assert(s.remove(i).last() == s.last());
    }
}

proof fn lemma_allocated_nonneg(s: Seq<TaskInstance>)
    ensures
        allocated(s) >= 0,
    decreases s.len(),
{
    if s.len() > 0 {
        lemma_allocated_nonneg(s.drop_last());
    }
}

pub open spec fn inputs_finished(t: WorkerTask, objects: Map<DataObjectId, WorkerObject>) -> bool {
    forall|i: int|
        #![trigger t.inputs@[i]]
        0 <= i < t.inputs@.len() ==> {
            &&& objects.contains_key(t.inputs@[i].object)
            &&& objects[t.inputs@[i].object].state == DataObjectState::Finished
        }
}

pub open spec fn outputs_finished(t: WorkerTask, objects: Map<DataObjectId, WorkerObject>) -> bool {
    forall|i: int|
        #![trigger t.outputs@[i]]
        0 <= i < t.outputs@.len() ==> {
            &&& objects.contains_key(t.outputs@[i])
            &&& objects[t.outputs@[i]].state == DataObjectState::Finished
        }
}

/// Size of an object's data in bytes; zero while no data is bound.
pub open spec fn data_size(d: Option<Vec<u8>>) -> u64 {
    match d {
        Some(v) => v@.len() as u64,
        None => 0,
    }
}

/// The terminal state of a task whose execution ended with `outcome`: a
/// reported success stands only when every output is finished.
pub open spec fn finalized(t: WorkerTask, objects: Map<DataObjectId, WorkerObject>, outcome: Outcome) -> WorkerTask {
    match outcome {
        Outcome::Completed => if outputs_finished(t, objects) {
            WorkerTask { state: TaskState::Finished, ..t }
        } else {
            WorkerTask { state: TaskState::Failed, failure: Some(TaskFailure::OutputsNotProduced), ..t }
        },
        Outcome::Cancelled => WorkerTask {
            state: TaskState::Failed,
            failure: Some(TaskFailure::TerminatedByServer),
            ..t
        },
        Outcome::Failed(e) => WorkerTask {
            state: TaskState::Failed,
            failure: Some(TaskFailure::Error(e)),
            ..t
        },
    }
}

/// Binding one produced piece of data: only an object that is known and not
/// finished yet takes it, and is then published.
pub open spec fn bind_step(
    acc: (Map<DataObjectId, WorkerObject>, Seq<DataObjectId>),
    id: DataObjectId,
    d: Vec<u8>,
) -> (Map<DataObjectId, WorkerObject>, Seq<DataObjectId>) {
    let m = acc.0;
    if m.contains_key(id) && m[id].state != DataObjectState::Finished {
        (
            m.insert(id, WorkerObject { state: DataObjectState::Finished, data: Some(d), ..m[id] }),
            acc.1.push(id),
        )
    } else {
        acc
    }
}

/// Objects and published ids after binding `data[i]` to `outputs[i]` for
/// every `i` that both have.
pub open spec fn bound(
    acc: (Map<DataObjectId, WorkerObject>, Seq<DataObjectId>),
    outputs: Seq<DataObjectId>,
    data: Seq<Vec<u8>>,
) -> (Map<DataObjectId, WorkerObject>, Seq<DataObjectId>)
    decreases data.len(),
{
    if data.len() == 0 {
        acc
    } else {
        let prev = bound(acc, outputs, data.drop_last());
        let k = data.len() - 1;
        if k < outputs.len() {
            bind_step(prev, outputs[k], data[k])
        } else {
            prev
        }
    }
}

/// The worker's execution state: its tasks and objects, the running task
/// instances with the cpus they hold, and the ids changed since the last
/// update batch.
pub struct State {
    cpus: u32,
    free_cpus: u32,
    tasks: HashMap<TaskId, WorkerTask>,
    objects: HashMap<DataObjectId, WorkerObject>,
    running: Vec<TaskInstance>,
    updated_tasks: Vec<TaskId>,
    updated_objects: Vec<DataObjectId>,
}

/// `after` is `before` after `start` of task `id` returned `Ok`.
pub open spec fn start_effect(before: State, after: State, id: TaskId) -> bool {
    let t = before.tasks()[id];
    &&& after.free_cpus() == before.free_cpus() - t.cpus
    &&& after.tasks() == before.tasks().insert(id, WorkerTask { state: TaskState::Running, ..t })
    &&& after.objects() == before.objects()
    &&& after.is_running(id)
    &&& !after.cancel_requested(id)
    &&& forall|o: TaskId| o != id ==> after.is_running(o) == before.is_running(o)
    &&& forall|o: TaskId| o != id ==> after.cancel_requested(o) == before.cancel_requested(o)
    &&& after.updated_tasks() == before.updated_tasks().push(id)
    &&& after.updated_objects() == before.updated_objects()
}

/// `after` is `before` after task `id` ended with `outcome`.
pub open spec fn finish_effect(before: State, after: State, id: TaskId, outcome: Outcome) -> bool {
    let t = before.tasks()[id];
    &&& after.free_cpus() == before.free_cpus() + t.cpus
    &&& after.tasks() == before.tasks().insert(id, finalized(t, before.objects(), outcome))
    &&& after.objects() == before.objects()
    &&& !after.is_running(id)
    &&& forall|o: TaskId| o != id ==> after.is_running(o) == before.is_running(o)
    &&& forall|o: TaskId| o != id ==> after.cancel_requested(o) == before.cancel_requested(o)
    &&& after.updated_tasks() == before.updated_tasks().push(id)
    &&& after.updated_objects() == before.updated_objects()
}

impl State {
    pub closed spec fn cpus(&self) -> u32 {
        self.cpus
    }

    pub closed spec fn free_cpus(&self) -> u32 {
        self.free_cpus
    }

    pub closed spec fn tasks(&self) -> Map<TaskId, WorkerTask> {
        self.tasks@
    }

    pub closed spec fn objects(&self) -> Map<DataObjectId, WorkerObject> {
        self.objects@
    }

    /// Cancellation of running task `id` has been signalled already.
    pub closed spec fn cancel_requested(&self, id: TaskId) -> bool {
        exists|i: int|
            0 <= i < self.running@.len() && self.running@[i].task_id == id
                && self.running@[i].cancel_requested()
    }

    /// Cpus held by running task instances.
    pub closed spec fn allocated_cpus(&self) -> int {
        allocated(self.running@)
    }

    pub closed spec fn is_running(&self, id: TaskId) -> bool {
        exists|i: int| 0 <= i < self.running@.len() && self.running@[i].task_id == id
    }

    pub closed spec fn updated_tasks(&self) -> Seq<TaskId> {
        self.updated_tasks@
    }

    pub closed spec fn updated_objects(&self) -> Seq<DataObjectId> {
        self.updated_objects@
    }

    /// The free cpus and those held by running instances add up to the
    /// capacity; each running instance belongs to one distinct running task
    /// and holds exactly the cpus that task asked for.
    pub closed spec fn wf(&self) -> bool {
        &&& self.free_cpus + allocated(self.running@) == self.cpus
        &&& forall|i: int, j: int|
            0 <= i < j < self.running@.len() ==> self.running@[i].task_id != self.running@[j].task_id
        &&& forall|i: int|
            #![trigger self.running@[i]]
            0 <= i < self.running@.len() ==> {
                let id = self.running@[i].task_id;
                &&& self.tasks@.contains_key(id)
                &&& self.tasks@[id].state == TaskState::Running
                &&& self.tasks@[id].cpus == self.running@[i].cpus
            }
        &&& forall|i: int| 0 <= i < self.updated_tasks@.len() ==> self.tasks@.contains_key(#[trigger] self.updated_tasks@[i])
        &&& forall|i: int| 0 <= i < self.updated_objects@.len() ==> self.objects@.contains_key(#[trigger] self.updated_objects@[i])
    }

    /// An idle worker with `cpus` cpus.
    pub fn new(cpus: u32) -> (r: Self)
        ensures
            r.wf(),
            r.cpus() == cpus,
            r.free_cpus() == cpus,
            r.tasks() == Map::<TaskId, WorkerTask>::empty(),
            r.objects() == Map::<DataObjectId, WorkerObject>::empty(),
            forall|id: TaskId| !r.is_running(id),
            r.updated_tasks().len() == 0,
            r.updated_objects().len() == 0,
    {
        State {
            cpus,
            free_cpus: cpus,
            tasks: HashMap::new(),
            objects: HashMap::new(),
            running: Vec::new(),
            updated_tasks: Vec::new(),
            updated_objects: Vec::new(),
        }
    }

    pub fn get_cpus(&self) -> (r: u32)
        ensures
            r == self.cpus(),
    {
        self.cpus
    }

    pub fn get_free_cpus(&self) -> (r: u32)
        ensures
            r == self.free_cpus(),
    {
        self.free_cpus
    }

    pub fn task(&self, id: TaskId) -> (r: Option<&WorkerTask>)
        ensures
            match r {
                Some(t) => self.tasks().contains_key(id) && *t == self.tasks()[id],
                None => !self.tasks().contains_key(id),
            },
    {
        self.tasks.get(&id)
    }

    pub fn object(&self, id: DataObjectId) -> (r: Option<&WorkerObject>)
        ensures
            match r {
                Some(o) => self.objects().contains_key(id) && *o == self.objects()[id],
                None => !self.objects().contains_key(id),
            },
    {
        self.objects.get(&id)
    }

    fn running_index(&self, id: TaskId) -> (r: Option<usize>)
        ensures
            match r {
                Some(i) => i < self.running@.len() && self.running@[i as int].task_id == id,
                None => !self.is_running(id),
            },
    {
        let mut i: usize = 0;
        while i < self.running.len()
            invariant
                i <= self.running@.len(),
                forall|j: int| 0 <= j < i ==> self.running@[j].task_id != id,
            decreases self.running@.len() - i,
        {
            if self.running[i].task_id == id {
                return Some(i);
            }
            i = i + 1;
        }
        None
    }

    pub fn is_task_running(&self, id: TaskId) -> (r: bool)
        ensures
            r == self.is_running(id),
    {
        self.running_index(id).is_some()
    }

    /// Adds a task that the server assigned to this worker.
    pub fn add_task(&mut self, task: WorkerTask) -> (r: bool)
        requires
            old(self).wf(),
        ensures
            final(self).wf(),
            r == !old(self).tasks().contains_key(task.id),
            r ==> final(self).tasks() == old(self).tasks().insert(task.id, task),
            !r ==> final(self).tasks() == old(self).tasks(),
            final(self).objects() == old(self).objects(),
            final(self).free_cpus() == old(self).free_cpus(),
            forall|id: TaskId| final(self).is_running(id) == old(self).is_running(id),
            final(self).updated_tasks() == old(self).updated_tasks(),
            final(self).updated_objects() == old(self).updated_objects(),
    {
        if self.tasks.contains_key(&task.id) {
            return false;
        }
        let ghost before = self.tasks@;
        self.tasks.insert(task.id, task);
        proof {
            assert forall|i: int| #![trigger self.running@[i]] 0 <= i < self.running@.len() implies {
                let id = self.running@[i].task_id;
                &&& self.tasks@.contains_key(id)
                &&& self.tasks@[id].state == TaskState::Running
                &&& self.tasks@[id].cpus == self.running@[i].cpus
            } by {
                assert(before.contains_key(self.running@[i].task_id));
            }
        }
        true
    }

    /// Adds a data object known to this worker.
    pub fn add_object(&mut self, object: WorkerObject) -> (r: bool)
        requires
            old(self).wf(),
        ensures
            final(self).wf(),
            r == !old(self).objects().contains_key(object.id),
            r ==> final(self).objects() == old(self).objects().insert(object.id, object),
            !r ==> final(self).objects() == old(self).objects(),
            final(self).tasks() == old(self).tasks(),
            final(self).free_cpus() == old(self).free_cpus(),
            forall|id: TaskId| final(self).is_running(id) == old(self).is_running(id),
            final(self).updated_tasks() == old(self).updated_tasks(),
            final(self).updated_objects() == old(self).updated_objects(),
    {
        if self.objects.contains_key(&object.id) {
            return false;
        }
        self.objects.insert(object.id, object);
        true
    }

    fn all_finished(&self, ids: &Vec<DataObjectId>) -> (r: bool)
        ensures
            r == forall|i: int|
                #![trigger ids@[i]]
                0 <= i < ids@.len() ==> {
                    &&& self.objects@.contains_key(ids@[i])
                    &&& self.objects@[ids@[i]].state == DataObjectState::Finished
                },
    {
        let mut i: usize = 0;
        while i < ids.len()
            invariant
                i <= ids@.len(),
                forall|j: int|
                    #![trigger ids@[j]]
                    0 <= j < i ==> {
                        &&& self.objects@.contains_key(ids@[j])
                        &&& self.objects@[ids@[j]].state == DataObjectState::Finished
                    },
            decreases ids@.len() - i,
        {
            let done = match self.objects.get(&ids[i]) {
                Some(o) => o.state == DataObjectState::Finished,
                None => false,
            };
            if !done {
                return false;
            }
            i = i + 1;
        }
        true
    }

    fn inputs_ready(&self, t: &WorkerTask) -> (r: bool)
        ensures
            r == inputs_finished(*t, self.objects@),
    {
        let ids = input_objects(t);
        let r = self.all_finished(&ids);
        proof {
            if r {
                assert forall|i: int| #![trigger t.inputs@[i]] 0 <= i < t.inputs@.len() implies {
                    &&& self.objects@.contains_key(t.inputs@[i].object)
                    &&& self.objects@[t.inputs@[i].object].state == DataObjectState::Finished
                } by {
                    assert(ids@[i] == t.inputs@[i].object);
                }
            } else {
                let i = choose|i: int| 0 <= i < ids@.len() && !{
                    &&& self.objects@.contains_key(ids@[i])
                    &&& self.objects@[ids@[i]].state == DataObjectState::Finished
                };
                assert(ids@[i] == t.inputs@[i].object);
            }
        }
        r
    }

    /// Binds the data a handler produced for an object, which finishes it
    /// and publishes the change. Data is bound at most once: an object that
    /// is already finished, or unknown, is left alone and `false` returned.
    pub fn bind_output(&mut self, id: DataObjectId, data: Vec<u8>) -> (r: bool)
        requires
            old(self).wf(),
        ensures
            final(self).wf(),
            r == (old(self).objects().contains_key(id) && old(self).objects()[id].state
                != DataObjectState::Finished),
            r ==> final(self).objects() == old(self).objects().insert(
                id,
                WorkerObject {
                    state: DataObjectState::Finished,
                    data: Some(data),
                    ..old(self).objects()[id]
                },
            ),
            r ==> final(self).updated_objects() == old(self).updated_objects().push(id),
            !r ==> *final(self) == *old(self),
            final(self).tasks() == old(self).tasks(),
            final(self).free_cpus() == old(self).free_cpus(),
            forall|t: TaskId| final(self).is_running(t) == old(self).is_running(t),
            forall|t: TaskId| final(self).cancel_requested(t) == old(self).cancel_requested(t),
            final(self).updated_tasks() == old(self).updated_tasks(),
    {
        let open = match self.objects.get(&id) {
            Some(o) => o.state != DataObjectState::Finished,
            None => false,
        };
        if !open {
            return false;
        }
        let ghost before = self.objects@;
        let mut o = self.objects.remove(&id).unwrap();
        o.state = DataObjectState::Finished;
        o.data = Some(data);
        self.objects.insert(id, o);
        self.updated_objects.push(id);
        proof {
            assert(self.objects@ =~= before.insert(
                id,
                WorkerObject { state: DataObjectState::Finished, data: Some(data), ..before[id] },
            ));
            assert forall|i: int| 0 <= i < self.updated_objects@.len() implies self.objects@.contains_key(
                #[trigger] self.updated_objects@[i],
            ) by {
                if i < self.updated_objects@.len() - 1 {
                    assert(old(self).updated_objects@[i] == self.updated_objects@[i]);
                }
            }
        }
        true
    }

    /// Binds `data[i]` to `outputs[i]` for every `i` that both have, each
    /// as `bind_output` does.
    pub fn bind_outputs(&mut self, outputs: &Vec<DataObjectId>, data: Vec<Vec<u8>>)
        requires
            old(self).wf(),
        ensures
            final(self).wf(),
            (final(self).objects(), final(self).updated_objects()) == bound(
                (old(self).objects(), old(self).updated_objects()),
                outputs@,
                data@,
            ),
            final(self).tasks() == old(self).tasks(),
            final(self).free_cpus() == old(self).free_cpus(),
            forall|t: TaskId| final(self).is_running(t) == old(self).is_running(t),
            forall|t: TaskId| final(self).cancel_requested(t) == old(self).cancel_requested(t),
            final(self).updated_tasks() == old(self).updated_tasks(),
    {
        let n: usize = data.len();
        let ghost ds = data@;
        let ghost acc0 = (self.objects(), self.updated_objects());
        let mut rest = reversed(data);
        let mut k: usize = 0;
        while rest.len() > 0
            invariant
                self.wf(),
                k + rest@.len() == ds.len(),
                ds.len() == n,
                rest@ == ds.subrange(k as int, ds.len() as int).reverse(),
                (self.objects(), self.updated_objects()) == bound(acc0, outputs@, ds.subrange(0, k as int)),
                self.tasks() == old(self).tasks(),
                self.free_cpus() == old(self).free_cpus(),
                forall|t: TaskId| self.cancel_requested(t) == old(self).cancel_requested(t),
                forall|t: TaskId| self.is_running(t) == old(self).is_running(t),
                self.updated_tasks() == old(self).updated_tasks(),
            decreases rest.len(),
        {
            let d = rest.pop().unwrap();
            proof {
                assert(d == ds[k as int]);
                assert(ds.subrange(0, k as int + 1).drop_last() =~= ds.subrange(0, k as int));
                assert(rest@ =~= ds.subrange(k as int + 1, ds.len() as int).reverse());
            }
            if k < outputs.len() {
                self.bind_output(outputs[k], d);
            }
            k = k + 1;
        }
        proof {
            assert(ds.subrange(0, ds.len() as int) =~= ds);
        }
    }

    /// Records the attributes a task produced while running.
    pub fn set_additionals(&mut self, id: TaskId, additionals: String)
        requires
            old(self).wf(),
            old(self).tasks().contains_key(id),
        ensures
            final(self).wf(),
            final(self).tasks() == old(self).tasks().insert(
                id,
                WorkerTask { additionals, ..old(self).tasks()[id] },
            ),
            final(self).objects() == old(self).objects(),
            final(self).free_cpus() == old(self).free_cpus(),
            forall|t: TaskId| final(self).is_running(t) == old(self).is_running(t),
            forall|t: TaskId| final(self).cancel_requested(t) == old(self).cancel_requested(t),
            final(self).updated_tasks() == old(self).updated_tasks(),
            final(self).updated_objects() == old(self).updated_objects(),
    {
        let ghost before = self.tasks@;
        let mut t = self.tasks.remove(&id).unwrap();
        t.additionals = additionals;
        self.tasks.insert(id, t);
        proof {
            assert(self.tasks@ =~= before.insert(id, WorkerTask { additionals, ..before[id] }));
            assert forall|i: int| #![trigger self.running@[i]] 0 <= i < self.running@.len() implies {
                let x = self.running@[i].task_id;
                &&& self.tasks@.contains_key(x)
                &&& self.tasks@[x].state == TaskState::Running
                &&& self.tasks@[x].cpus == self.running@[i].cpus
            } by {
                assert(before.contains_key(self.running@[i].task_id));
            }
        }
    }

    /// Signals cancellation of a running task. Returns whether this call
    /// signalled: `false` for a task that is not running or whose
    /// termination is already in progress.
    pub fn stop_task(&mut self, id: TaskId) -> (r: bool)
        requires
            old(self).wf(),
        ensures
            final(self).wf(),
            final(self).tasks() == old(self).tasks(),
            final(self).objects() == old(self).objects(),
            final(self).free_cpus() == old(self).free_cpus(),
            forall|t: TaskId| final(self).is_running(t) == old(self).is_running(t),
            final(self).updated_tasks() == old(self).updated_tasks(),
            final(self).updated_objects() == old(self).updated_objects(),
            !old(self).is_running(id) ==> !r && *final(self) == *old(self),
            old(self).is_running(id) ==> r == !old(self).cancel_requested(id)
                && final(self).cancel_requested(id),
            forall|o: TaskId| o != id ==> final(self).cancel_requested(o) == old(self).cancel_requested(o),
    {
        match self.running_index(id) {
            None => false,
            Some(i) => {
                let ghost before = self.running@;
                let mut inst = self.running.remove(i);
                let r = inst.stop();
                self.running.insert(i, inst);
                proof {
                    assert(self.running@ =~= before.update(i as int, inst));
                    assert(allocated(self.running@) == allocated(before)) by {
                        lemma_allocated_remove(before, i as int);
                        lemma_allocated_remove(self.running@, i as int);
                        assert(self.running@.remove(i as int) =~= before.remove(i as int));
                    }
                    assert(self.running@[i as int].task_id == id);
                    assert(self.running@[i as int].cancel_requested());
                    if old(self).cancel_requested(id) {
                        let k = choose|k: int| 0 <= k < before.len() && before[k].task_id == id
                            && before[k].cancel_requested();
                        if k != i as int {
                            assert(before[k].task_id != before[i as int].task_id);
                        }
                    }
                    assert forall|o: TaskId| o != id implies self.cancel_requested(o) == old(self).cancel_requested(o) by {
                        if old(self).cancel_requested(o) {
                            let k = choose|k: int| 0 <= k < before.len() && before[k].task_id == o
                                && before[k].cancel_requested();
                            assert(self.running@[k] == before[k]);
                        }
                        if self.cancel_requested(o) {
                            let k = choose|k: int| 0 <= k < self.running@.len() && self.running@[k].task_id == o
                                && self.running@[k].cancel_requested();
                            assert(self.running@[k] == before[k]);
                        }
                    }
                    assert forall|t: TaskId| self.is_running(t) == old(self).is_running(t) by {
                        if old(self).is_running(t) {
                            let k = choose|k: int| 0 <= k < before.len() && before[k].task_id == t;
                            assert(self.running@[k].task_id == t);
                        }
                        if self.is_running(t) {
                            let k = choose|k: int| 0 <= k < self.running@.len() && self.running@[k].task_id == t;
                            assert(before[k].task_id == t);
                        }
                    }
                }
                r
            },
        }
    }

    /// Drains the published changes into one batch for the server: one
    /// object delta per published object and one task delta per published
    /// task, in publication order, each carrying the current state; a task
    /// delta carries the task's attributes, an object delta none.
    pub fn take_updates(&mut self) -> (r: UpdateBatch)
        requires
            old(self).wf(),
        ensures
            final(self).wf(),
            final(self).updated_tasks().len() == 0,
            final(self).updated_objects().len() == 0,
            final(self).tasks() == old(self).tasks(),
            final(self).objects() == old(self).objects(),
            final(self).free_cpus() == old(self).free_cpus(),
            forall|t: TaskId| final(self).is_running(t) == old(self).is_running(t),
            r.objects@.len() == old(self).updated_objects().len(),
            r.tasks@.len() == old(self).updated_tasks().len(),
            forall|i: int|
                #![trigger r.objects@[i]]
                0 <= i < r.objects@.len() ==> {
                    let id = old(self).updated_objects()[i];
                    &&& r.objects@[i].id == id
                    &&& r.objects@[i].state == old(self).objects()[id].state
                    &&& r.objects@[i].size == data_size(old(self).objects()[id].data)
                    &&& r.objects@[i].attributes@.len() == 0
                },
            forall|i: int|
                #![trigger r.tasks@[i]]
                0 <= i < r.tasks@.len() ==> {
                    let id = old(self).updated_tasks()[i];
                    &&& r.tasks@[i].id == id
                    &&& r.tasks@[i].state == old(self).tasks()[id].state
                    &&& r.tasks@[i].attributes == old(self).tasks()[id].additionals
                },
    {
        let mut objects: Vec<ObjectUpdate> = Vec::new();
        let mut i: usize = 0;
        while i < self.updated_objects.len()
            invariant
                self.wf(),
                i <= self.updated_objects@.len(),
                objects@.len() == i,
                forall|j: int|
                    #![trigger objects@[j]]
                    0 <= j < i ==> {
                        let id = self.updated_objects@[j];
                        &&& objects@[j].id == id
                        &&& objects@[j].state == self.objects@[id].state
                        &&& objects@[j].size == data_size(self.objects@[id].data)
                        &&& objects@[j].attributes@.len() == 0
                    },
            decreases self.updated_objects@.len() - i,
        {
            let id = self.updated_objects[i];
            proof {
                assert(self.objects@.contains_key(self.updated_objects@[i as int]));
            }
            let o = self.objects.get(&id).unwrap();
            let size: u64 = match &o.data {
                Some(d) => d.len() as u64,
                None => 0,
            };
            objects.push(ObjectUpdate { id, state: o.state, size, attributes: String::new() });
            i = i + 1;
        }
        let mut tasks: Vec<TaskUpdate> = Vec::new();
        let mut i: usize = 0;
        while i < self.updated_tasks.len()
            invariant
                self.wf(),
                i <= self.updated_tasks@.len(),
                tasks@.len() == i,
                forall|j: int|
                    #![trigger tasks@[j]]
                    0 <= j < i ==> {
                        let id = self.updated_tasks@[j];
                        &&& tasks@[j].id == id
                        &&& tasks@[j].state == self.tasks@[id].state
                        &&& tasks@[j].attributes == self.tasks@[id].additionals
                    },
            decreases self.updated_tasks@.len() - i,
        {
            let id = self.updated_tasks[i];
            proof {
                assert(self.tasks@.contains_key(self.updated_tasks@[i as int]));
            }
            let t = self.tasks.get(&id).unwrap();
            tasks.push(TaskUpdate { id, state: t.state, attributes: t.additionals.clone() });
            i = i + 1;
        }
        self.updated_objects = Vec::new();
        self.updated_tasks = Vec::new();
        UpdateBatch { objects, tasks }
    }
}

impl TaskInstance {
    /// Begins executing scheduled task `id`: checks that its inputs are
    /// finished, allocates its cpus, marks it running, publishes the change,
    /// and selects its handler, `Unknown` for a built-in tag that names none.
    pub fn start(state: &mut State, id: TaskId) -> (r: Result<Started, StartError>)
        requires
            old(state).wf(),
            old(state).tasks().contains_key(id),
            old(state).tasks()[id].state == TaskState::Scheduled,
        ensures
            final(state).wf(),
            ({
                let t = old(state).tasks()[id];
                if !inputs_finished(t, old(state).objects()) {
                    r == Err::<Started, StartError>(StartError::InputsNotReady) && *final(state)
                        == *old(state)
                } else if t.cpus > old(state).free_cpus() {
                    r == Err::<Started, StartError>(StartError::NotEnoughResources)
                        && *final(state) == *old(state)
                } else {
                    &&& r is Ok
                    &&& r->Ok_0.handler == handler_of(t.task_type@)
                    &&& start_effect(*old(state), *final(state), id)
                }
            }),
    {
        let (ready, cpus, handler) = {
            let t = state.tasks.get(&id).unwrap();
            (state.inputs_ready(t), t.cpus, handler_for(t.task_type.as_str()))
        };
        if !ready {
            return Err(StartError::InputsNotReady);
        }
        if cpus > state.free_cpus {
            return Err(StartError::NotEnoughResources);
        }
        let ghost tasks0 = state.tasks@;
        let ghost updated0 = state.updated_tasks@;
        let mut t = state.tasks.remove(&id).unwrap();
        proof {
            assert forall|i: int| 0 <= i < state.running@.len() implies #[trigger] state.running@[i].task_id != id by {
                let x = state.running@[i].task_id;
                assert(tasks0[x].state == TaskState::Running);
            }
        }
        let ghost running0 = state.running@;
        t.state = TaskState::Running;
        state.tasks.insert(id, t);
        state.free_cpus = state.free_cpus - cpus;
        let (sender, receiver) = futures::unsync::oneshot::channel();
        let instance = TaskInstance { task_id: id, cpus, cancel_sender: Some(sender) };
        state.running.push(instance);
        state.updated_tasks.push(id);
        proof {
            assert(state.tasks@ =~= tasks0.insert(id, WorkerTask { state: TaskState::Running, ..tasks0[id] }));
            assert(state.running@.drop_last() =~= running0);
            assert forall|i: int| #![trigger state.running@[i]] 0 <= i < state.running@.len() implies {
                let x = state.running@[i].task_id;
                &&& state.tasks@.contains_key(x)
                &&& state.tasks@[x].state == TaskState::Running
                &&& state.tasks@[x].cpus == state.running@[i].cpus
            } by {
                if i < running0.len() {
                    assert(running0[i] == state.running@[i]);
                    assert(tasks0.contains_key(state.running@[i].task_id));
                }
            }
            assert forall|i: int| 0 <= i < state.updated_tasks@.len() implies state.tasks@.contains_key(
                #[trigger] state.updated_tasks@[i],
            ) by {
                if i < updated0.len() {
                    assert(updated0[i] == state.updated_tasks@[i]);
                }
            }
            assert forall|i: int, j: int|
                0 <= i < j < state.running@.len() implies state.running@[i].task_id
                != state.running@[j].task_id by {
                if j < running0.len() {
                    assert(running0[i] == state.running@[i]);
                    assert(running0[j] == state.running@[j]);
                } else {
                    assert(running0[i] == state.running@[i]);
                }
            }
            assert(state.running@[running0.len() as int].task_id == id);
            assert forall|o: TaskId| o != id implies state.is_running(o) == old(state).is_running(o) by {
                if old(state).is_running(o) {
                    let k = choose|k: int| 0 <= k < running0.len() && running0[k].task_id == o;
                    assert(state.running@[k].task_id == o);
                }
                if state.is_running(o) {
                    let k = choose|k: int| 0 <= k < state.running@.len() && state.running@[k].task_id == o;
                    assert(running0[k].task_id == o);
                }
            }
        }
        Ok(Started { handler, cancel: receiver })
    }

    /// Finalises running task `id` once its execution ended: releases its
    /// cpus, drops its instance, records its terminal state and publishes
    /// it. A reported success stands only when every output is finished.
    pub fn finish(state: &mut State, id: TaskId, outcome: Outcome)
        requires
            old(state).wf(),
            old(state).is_running(id),
        ensures
            final(state).wf(),
            finish_effect(*old(state), *final(state), id, outcome),
    {
        let i = state.running_index(id).unwrap();
        let ghost running0 = state.running@;
        let ghost tasks0 = state.tasks@;
        let ghost updated0 = state.updated_tasks@;
        let instance = state.running.remove(i);
        proof {
            lemma_allocated_remove(running0, i as int);
            lemma_allocated_nonneg(state.running@);
            assert(running0[i as int] == instance);
        }
        state.free_cpus = state.free_cpus + instance.cpus;
        let mut t = state.tasks.remove(&id).unwrap();
        match outcome {
            Outcome::Completed => {
                if state.all_finished(&t.outputs) {
                    t.state = TaskState::Finished;
                } else {
                    t.state = TaskState::Failed;
                    t.failure = Some(TaskFailure::OutputsNotProduced);
                }
            },
            Outcome::Cancelled => {
                t.state = TaskState::Failed;
                t.failure = Some(TaskFailure::TerminatedByServer);
            },
            Outcome::Failed(e) => {
                t.state = TaskState::Failed;
                t.failure = Some(TaskFailure::Error(e));
            },
        }
        state.tasks.insert(id, t);
        state.updated_tasks.push(id);
        proof {
            assert(state.tasks@ =~= tasks0.insert(id, finalized(tasks0[id], state.objects@, outcome)));
            assert forall|k: int| 0 <= k < state.running@.len() implies #[trigger] state.running@[k].task_id != id by {
                if k < i {
                    assert(running0[k] == state.running@[k]);
                } else {
                    assert(running0[k + 1] == state.running@[k]);
                }
            }
            assert forall|k: int| #![trigger state.running@[k]] 0 <= k < state.running@.len() implies {
                let x = state.running@[k].task_id;
                &&& state.tasks@.contains_key(x)
                &&& state.tasks@[x].state == TaskState::Running
                &&& state.tasks@[x].cpus == state.running@[k].cpus
            } by {
                if k < i {
                    assert(running0[k] == state.running@[k]);
                } else {
                    assert(running0[k + 1] == state.running@[k]);
                }
            }
            assert forall|a: int, b: int|
                0 <= a < b < state.running@.len() implies state.running@[a].task_id
                != state.running@[b].task_id by {
                let a0 = if a < i { a } else { a + 1 };
                let b0 = if b < i { b } else { b + 1 };
                assert(running0[a0] == state.running@[a]);
                assert(running0[b0] == state.running@[b]);
            }
            assert forall|k: int| 0 <= k < state.updated_tasks@.len() implies state.tasks@.contains_key(
                #[trigger] state.updated_tasks@[k],
            ) by {
                if k < updated0.len() {
                    assert(updated0[k] == state.updated_tasks@[k]);
                }
            }
            assert forall|o: TaskId| o != id implies state.cancel_requested(o) == old(state).cancel_requested(o) by {
                if old(state).cancel_requested(o) {
                    let k = choose|k: int| 0 <= k < running0.len() && running0[k].task_id == o
                        && running0[k].cancel_requested();
                    if k < i {
                        assert(state.running@[k] == running0[k]);
                    } else {
                        assert(k != i);
                        assert(state.running@[k - 1] == running0[k]);
                    }
                }
                if state.cancel_requested(o) {
                    let k = choose|k: int| 0 <= k < state.running@.len() && state.running@[k].task_id == o
                        && state.running@[k].cancel_requested();
                    if k < i {
                        assert(running0[k] == state.running@[k]);
                    } else {
                        assert(running0[k + 1] == state.running@[k]);
                    }
                }
            }
            assert forall|o: TaskId| o != id implies state.is_running(o) == old(state).is_running(o) by {
                if old(state).is_running(o) {
                    let k = choose|k: int| 0 <= k < running0.len() && running0[k].task_id == o;
                    if k < i {
                        assert(state.running@[k].task_id == o);
                    } else {
                        assert(k != i);
                        assert(state.running@[k - 1].task_id == o);
                    }
                }
                if state.is_running(o) {
                    let k = choose|k: int| 0 <= k < state.running@.len() && state.running@[k].task_id == o;
                    if k < i {
                        assert(running0[k].task_id == o);
                    } else {
                        assert(running0[k + 1].task_id == o);
                    }
                }
            }
        }
    }
}

/// Data held by an object; empty while none is bound.
pub open spec fn object_data(o: WorkerObject) -> Seq<u8> {
    match o.data {
        Some(d) => d@,
        None => Seq::empty(),
    }
}

/// The data of the first `n` inputs of `t`, concatenated.
pub open spec fn concat_inputs(t: WorkerTask, objects: Map<DataObjectId, WorkerObject>, n: int) -> Seq<u8>
    decreases n,
{
    if n <= 0 {
        Seq::empty()
    } else {
        concat_inputs(t, objects, n - 1) + object_data(objects[t.inputs@[n - 1].object])
    }
}

/// Decimal value of a run of ASCII digits.
pub open spec fn decimal(s: Seq<u8>) -> int
    decreases s.len(),
{
    if s.len() == 0 {
        0
    } else {
        decimal(s.drop_last()) * 10 + (s.last() - 48)
    }
}

pub open spec fn all_digits(s: Seq<u8>) -> bool {
    forall|i: int| 0 <= i < s.len() ==> 48 <= #[trigger] s[i] <= 57
}

/// Reads the duration of a sleep task from its config: milliseconds in
/// ASCII decimal digits. `None` for an empty config, another byte, or a
/// value beyond `u64`.
pub fn sleep_millis(config: &Vec<u8>) -> (r: Option<u64>)
    ensures
        r is Some <==> config@.len() > 0 && all_digits(config@) && decimal(config@) <= u64::MAX,
        r matches Some(v) ==> v == decimal(config@),
{
    if config.len() == 0 {
        return None;
    }
    let mut value: u64 = 0;
    let mut i: usize = 0;
    while i < config.len()
        invariant
            i <= config@.len(),
            all_digits(config@.subrange(0, i as int)),
            value == decimal(config@.subrange(0, i as int)),
        decreases config@.len() - i,
    {
        let b = config[i];
        proof {
            assert(config@.subrange(0, i as int + 1).drop_last() =~= config@.subrange(0, i as int));
        }
        if b < 48 || b > 57 {
            proof {
                assert(!all_digits(config@)) by {
                    assert(config@[i as int] == b);
                }
            }
            return None;
        }
        if value > (u64::MAX - (b - 48) as u64) / 10 {
            proof {
                if all_digits(config@) {
                    lemma_decimal_grows(config@, i as int + 1);
                    let p = config@.subrange(0, i as int + 1);
                    assert(p.last() == b);
                    assert(decimal(p) == value * 10 + (b - 48));
                    assert(decimal(p) > u64::MAX) by (nonlinear_arith)
                        requires
                            decimal(p) == value * 10 + (b - 48),
                            value > (u64::MAX - (b - 48)) / 10,
                            0 <= b - 48 <= 9,
                    ;
                }
            }
            return None;
        }
        value = value * 10 + (b - 48) as u64;
        proof {
            assert forall|j: int| 0 <= j < i + 1 implies 48 <= #[trigger] config@.subrange(0, i as int + 1)[j] <= 57 by {
                if j < i {
                    assert(config@.subrange(0, i as int + 1)[j] == config@.subrange(0, i as int)[j]);
                }
            }
        }
        i = i + 1;
    }
    proof {
        assert(config@.subrange(0, config@.len() as int) =~= config@);
    }
    Some(value)
}

proof fn lemma_decimal_grows(s: Seq<u8>, n: int)
    requires
        0 <= n <= s.len(),
        all_digits(s),
    ensures
        decimal(s) >= decimal(s.subrange(0, n)),
    decreases s.len(),
{
    if n < s.len() {
        assert(s.drop_last() =~= s.subrange(0, s.len() - 1));
        assert(all_digits(s.drop_last())) by {
            assert forall|i: int| 0 <= i < s.drop_last().len() implies 48 <= #[trigger] s.drop_last()[i] <= 57 by {
                assert(s.drop_last()[i] == s[i]);
            }
        }
        lemma_decimal_grows(s.drop_last(), n);
        assert(s.drop_last().subrange(0, n) =~= s.subrange(0, n));
        lemma_decimal_nonneg(s.drop_last());
        assert(48 <= s[s.len() - 1]);
    } else {
        assert(s.subrange(0, n) =~= s);
    }
}

proof fn lemma_decimal_nonneg(s: Seq<u8>)
    requires
        all_digits(s),
    ensures
        decimal(s) >= 0,
    decreases s.len(),
{
    if s.len() > 0 {
        assert(all_digits(s.drop_last())) by {
            assert forall|i: int| 0 <= i < s.drop_last().len() implies 48 <= #[trigger] s.drop_last()[i] <= 57 by {
                assert(s.drop_last()[i] == s[i]);
            }
        }
        lemma_decimal_nonneg(s.drop_last());
        assert(48 <= s[s.len() - 1]);
    }
}

/// What a sleep task passes to output `i`: the data of input `i`, or
/// nothing when it has no such input.
pub open spec fn sleep_data(t: WorkerTask, objects: Map<DataObjectId, WorkerObject>, i: int) -> Seq<u8> {
    if i < t.inputs@.len() && objects.contains_key(t.inputs@[i].object) {
        object_data(objects[t.inputs@[i].object])
    } else {
        Seq::empty()
    }
}

pub open spec fn inputs_present(t: WorkerTask, objects: Map<DataObjectId, WorkerObject>) -> bool {
    forall|i: int| 0 <= i < t.inputs@.len() ==> objects.contains_key(#[trigger] t.inputs@[i].object)
}

impl TaskInstance {
    fn data_copy(state: &State, id: DataObjectId) -> (r: Vec<u8>)
        ensures
            state.objects().contains_key(id) ==> r@ == object_data(state.objects()[id]),
            !state.objects().contains_key(id) ==> r@.len() == 0,
    {
        match state.object(id) {
            Some(o) => match &o.data {
                Some(d) => {
                    let c = d.clone();
                    proof {
                        assert(c@ =~= d@);
                    }
                    c
                },
                None => Vec::new(),
            },
            None => Vec::new(),
        }
    }

    /// Ends a sleep task whose pause is over: output `i` receives the data
    /// of input `i`, or empty data when there is no such input.
    pub fn complete_sleep(state: &mut State, id: TaskId) -> (r: Outcome)
        requires
            old(state).wf(),
            old(state).tasks().contains_key(id),
        ensures
            final(state).wf(),
            r is Completed,
            exists|d: Seq<Vec<u8>>|
                {
                    &&& d.len() == old(state).tasks()[id].outputs@.len()
                    &&& forall|i: int|
                        0 <= i < d.len() ==> (#[trigger] d[i])@ == sleep_data(
                            old(state).tasks()[id],
                            old(state).objects(),
                            i,
                        )
                    &&& (final(state).objects(), final(state).updated_objects()) == bound(
                        (old(state).objects(), old(state).updated_objects()),
                        old(state).tasks()[id].outputs@,
                        d,
                    )
                },
            final(state).tasks() == old(state).tasks(),
            final(state).free_cpus() == old(state).free_cpus(),
            forall|t: TaskId| final(state).is_running(t) == old(state).is_running(t),
            final(state).updated_tasks() == old(state).updated_tasks(),
    {
        let t = state.task(id).unwrap();
        let mut data: Vec<Vec<u8>> = Vec::new();
        let mut i: usize = 0;
        while i < t.outputs.len()
            invariant
                state.tasks().contains_key(id),
                *t == state.tasks()[id],
                i <= t.outputs@.len(),
                data@.len() == i,
                forall|j: int| 0 <= j < i ==> (#[trigger] data@[j])@ == sleep_data(*t, state.objects(), j),
            decreases t.outputs@.len() - i,
        {
            let d = if i < t.inputs.len() {
                Self::data_copy(state, t.inputs[i].object)
            } else {
                Vec::new()
            };
            data.push(d);
            i = i + 1;
        }
        let outputs = t.outputs.clone();
        proof {
            assert(outputs@ =~= t.outputs@);
        }
        let ghost ds = data@;
        state.bind_outputs(&outputs, data);
        proof {
            assert(ds.len() == old(state).tasks()[id].outputs@.len());
        }
        Outcome::Completed
    }

    /// Ends a concat task: its single output receives the data of all its
    /// inputs, concatenated in input order. A task without exactly one
    /// output, or with an unknown input, fails instead.
    pub fn complete_concat(state: &mut State, id: TaskId) -> (r: Outcome)
        requires
            old(state).wf(),
            old(state).tasks().contains_key(id),
        ensures
            final(state).wf(),
            ({
                let t = old(state).tasks()[id];
                if t.outputs@.len() == 1 && inputs_present(t, old(state).objects()) {
                    &&& r is Completed
                    &&& exists|d: Vec<u8>|
                        {
                            &&& d@ == concat_inputs(t, old(state).objects(), t.inputs@.len() as int)
                            &&& (final(state).objects(), final(state).updated_objects()) == bound(
                                (old(state).objects(), old(state).updated_objects()),
                                t.outputs@,
                                seq![d],
                            )
                        }
                } else {
                    &&& r is Failed
                    &&& final(state).objects() == old(state).objects()
                    &&& final(state).updated_objects() == old(state).updated_objects()
                }
            }),
            final(state).tasks() == old(state).tasks(),
            final(state).free_cpus() == old(state).free_cpus(),
            forall|t: TaskId| final(state).is_running(t) == old(state).is_running(t),
            final(state).updated_tasks() == old(state).updated_tasks(),
    {
        let t = state.task(id).unwrap();
        if t.outputs.len() != 1 {
            return Outcome::Failed("Concat task needs exactly one output".to_owned());
        }
        let mut buf: Vec<u8> = Vec::new();
        let mut i: usize = 0;
        while i < t.inputs.len()
            invariant
                state.wf(),
                *state == *old(state),
                state.tasks().contains_key(id),
                *t == state.tasks()[id],
                i <= t.inputs@.len(),
                forall|j: int| 0 <= j < i ==> state.objects().contains_key(#[trigger] t.inputs@[j].object),
                buf@ == concat_inputs(*t, state.objects(), i as int),
            decreases t.inputs@.len() - i,
        {
            if state.object(t.inputs[i].object).is_none() {
                return Outcome::Failed("Concat task input is missing".to_owned());
            }
            let mut d = Self::data_copy(state, t.inputs[i].object);
            buf.append(&mut d);
            i = i + 1;
        }
        let mut outputs: Vec<DataObjectId> = Vec::new();
        outputs.push(t.outputs[0]);
        proof {
            assert(outputs@ =~= t.outputs@);
        }
        let ghost b = buf;
        let mut data: Vec<Vec<u8>> = Vec::new();
        data.push(buf);
        proof {
            assert(data@ =~= seq![b]);
        }
        state.bind_outputs(&outputs, data);
        Outcome::Completed
    }
}

/// The objects a task reads, in input order.
fn input_objects(t: &WorkerTask) -> (r: Vec<DataObjectId>)
    ensures
        r@.len() == t.inputs@.len(),
        forall|i: int| 0 <= i < r@.len() ==> #[trigger] r@[i] == t.inputs@[i].object,
{
    let mut r: Vec<DataObjectId> = Vec::new();
    let mut i: usize = 0;
    while i < t.inputs.len()
        invariant
            i <= t.inputs@.len(),
            r@.len() == i,
            forall|j: int| 0 <= j < i ==> #[trigger] r@[j] == t.inputs@[j].object,
        decreases t.inputs@.len() - i,
    {
        r.push(t.inputs[i].object);
        i = i + 1;
    }
    r
}

/// A task that starts and then fails for an unknown type tag passes through
/// `Running`, ends `Failed` with the given reason, and gives its cpus back.
pub proof fn lemma_unknown_type_restores(s0: State, s1: State, s2: State, id: TaskId, m: String)
    requires
        s0.tasks().contains_key(id),
        start_effect(s0, s1, id),
        finish_effect(s1, s2, id, Outcome::Failed(m)),
    ensures
        s1.tasks()[id].state == TaskState::Running,
        s2.tasks()[id].state == TaskState::Failed,
        s2.tasks()[id].failure == Some(TaskFailure::Error(m)),
        !s2.is_running(id),
        s2.free_cpus() == s0.free_cpus(),
{
    assert(s1.tasks()[id].cpus == s0.tasks()[id].cpus);
}

/// Every running task is in the task table in state `Running`.
pub proof fn lemma_running_task_is_running(s: State, id: TaskId)
    requires
        s.wf(),
        s.is_running(id),
    ensures
        s.tasks().contains_key(id),
        s.tasks()[id].state == TaskState::Running,
{
    let k = choose|k: int| 0 <= k < s.running@.len() && s.running@[k].task_id == id;
    assert(s.running@[k].task_id == id);
}

impl TaskInstance {
    /// Ends a running task whose type tag named no handler: it fails with
    /// the reason "Unknown task type <tag>", as `finish` records a failure.
    pub fn fail_unknown_type(state: &mut State, id: TaskId)
        requires
            old(state).wf(),
            old(state).is_running(id),
        ensures
            final(state).wf(),
            exists|m: String|
                m@ == "Unknown task type "@ + old(state).tasks()[id].task_type@ && finish_effect(
                    *old(state),
                    *final(state),
                    id,
                    Outcome::Failed(m),
                ),
    {
        proof {
            lemma_running_task_is_running(*state, id);
        }
        let message = "Unknown task type ".to_owned().concat(state.task(id).unwrap().task_type.as_str());
        let ghost m = message;
        Self::finish(state, id, Outcome::Failed(message));
        proof {
            assert(m@ == "Unknown task type "@ + old(state).tasks()[id].task_type@);
        }
    }
}

/// A task's allocation and release net to zero: the free cpu count after
/// the task's terminal transition equals the count before it started,
/// whatever the outcome.
pub proof fn lemma_resources_restored(s0: State, s1: State, s2: State, id: TaskId, outcome: Outcome)
    requires
        s0.tasks().contains_key(id),
        start_effect(s0, s1, id),
        finish_effect(s1, s2, id, outcome),
    ensures
        s2.free_cpus() == s0.free_cpus(),
{
    assert(s1.tasks()[id].cpus == s0.tasks()[id].cpus);
}

/// Running tasks never hold more cpus than the worker has: in every
/// well-formed state the free count is at most the capacity, and the cpus
/// held by running instances are exactly the difference.
pub proof fn lemma_allocation_within_capacity(s: State)
    requires
        s.wf(),
    ensures
        s.free_cpus() <= s.cpus(),
        s.allocated_cpus() == s.cpus() - s.free_cpus(),
{
    lemma_allocated_nonneg(s.running@);
}

/// A task that ran reaches `Finished` exactly when its execution completed
/// and every one of its declared outputs is finished.
pub proof fn lemma_finished_iff_outputs_finished(s1: State, s2: State, id: TaskId, outcome: Outcome)
    requires
        finish_effect(s1, s2, id, outcome),
    ensures
        s2.tasks()[id].state == TaskState::Finished <==> (outcome is Completed && outputs_finished(
            s1.tasks()[id],
            s1.objects(),
        )),
{
}

} // verus!
