//! Delegation of non-built-in task types to pools of helper processes, one
//! pool per flavor, and the request/response exchange with a helper.

use vstd::prelude::*;
use futures::unsync::oneshot::Receiver;
use crate::asyncinit::AsyncInitWrapper;
use crate::instance::{Outcome, State, WorkerObject, bound, object_data};
use crate::types::{str_eq, DataObjectId, TaskId};

verus! {

pub type SubworkerId = u64;

/// The helpers of one flavor: those idle, and the readiness gate of a
/// helper being spawned, if any.
pub struct SubworkerPool {
    flavor: String,
    idle: Vec<SubworkerId>,
    spawning: Option<AsyncInitWrapper<()>>,
}

/// What a task start needing a helper of some flavor should do.
pub enum Acquire {
    /// Use this idle helper.
    Ready(SubworkerId),
    /// No helper is idle or on its way: spawn one, then report it with
    /// `helper_ready`.
    Spawn,
    /// A helper is being spawned: wait for it, then ask again.
    Wait(Receiver<()>),
}

/// Drops a pool's spawn gate, releasing everyone waiting on it.
fn clear_gate(p: &mut SubworkerPool)
    ensures
        final(p).spawning is None,
        final(p).flavor == old(p).flavor,
        final(p).idle == old(p).idle,
{
    let mut gate = None;
    std::mem::swap(&mut p.spawning, &mut gate);
    match gate {
        Some(mut g) => {
            if !g.is_ready() {
                g.set_value(());
            }
        },
        None => {},
    }
}

/// Helper pools by flavor.
pub struct Dispatcher {
    pools: Vec<SubworkerPool>,
}

impl Dispatcher {
    closed spec fn slot(&self, f: Seq<char>) -> int {
        choose|i: int| 0 <= i < self.pools@.len() && self.pools@[i].flavor@ == f
    }

    pub closed spec fn has_pool(&self, f: Seq<char>) -> bool {
        exists|i: int| 0 <= i < self.pools@.len() && self.pools@[i].flavor@ == f
    }

    /// Idle helpers of flavor `f`; the last one is handed out first.
    pub closed spec fn idle(&self, f: Seq<char>) -> Seq<SubworkerId> {
        if self.has_pool(f) {
            self.pools@[self.slot(f)].idle@
        } else {
            Seq::empty()
        }
    }

    /// A helper of flavor `f` is being spawned.
    pub closed spec fn spawning(&self, f: Seq<char>) -> bool {
        self.has_pool(f) && self.pools@[self.slot(f)].spawning is Some
    }

    /// One pool per flavor; a spawn gate is open until its helper is ready.
    pub closed spec fn wf(&self) -> bool {
        &&& forall|i: int, j: int|
            0 <= i < j < self.pools@.len() ==> self.pools@[i].flavor@ != self.pools@[j].flavor@
        &&& forall|i: int|
            0 <= i < self.pools@.len() ==> match #[trigger] self.pools@[i].spawning {
                Some(g) => g.wf() && !g.ready(),
                None => true,
            }
    }

    pub fn new() -> (r: Self)
        ensures
            r.wf(),
            forall|f: Seq<char>| r.idle(f).len() == 0 && !r.spawning(f),
    {
        Dispatcher { pools: Vec::new() }
    }

    fn find(&self, flavor: &str) -> (r: Option<usize>)
        requires
            self.wf(),
        ensures
            match r {
                Some(i) => i < self.pools@.len() && self.pools@[i as int].flavor@ == flavor@
                    && self.slot(flavor@) == i,
                None => !self.has_pool(flavor@),
            },
    {
        let mut i: usize = 0;
        while i < self.pools.len()
            invariant
                self.wf(),
                i <= self.pools@.len(),
                forall|j: int| 0 <= j < i ==> self.pools@[j].flavor@ != flavor@,
            decreases self.pools@.len() - i,
        {
            if str_eq(self.pools[i].flavor.as_str(), flavor) {
                proof {
                    assert(self.pools@[i as int].flavor@ == flavor@);
                    let k = self.slot(flavor@);
                    assert(self.pools@[k].flavor@ == flavor@);
                    if k < i {
                        assert(self.pools@[k].flavor@ != self.pools@[i as int].flavor@);
                    } else if k > i {
                        assert(self.pools@[i as int].flavor@ != self.pools@[k].flavor@);
                    }
                }
                return Some(i);
            }
            i = i + 1;
        }
        None
    }

    /// The index of the pool of `flavor`, created empty when missing.
    fn ensure_pool(&mut self, flavor: &str) -> (r: usize)
        requires
            old(self).wf(),
        ensures
            final(self).wf(),
            r < final(self).pools@.len(),
            final(self).pools@[r as int].flavor@ == flavor@,
            final(self).has_pool(flavor@),
            final(self).slot(flavor@) == r,
            final(self).idle(flavor@) == old(self).idle(flavor@),
            final(self).spawning(flavor@) == old(self).spawning(flavor@),
            forall|g: Seq<char>|
                g != flavor@ ==> final(self).idle(g) == old(self).idle(g) && final(self).spawning(
                    g,
                ) == old(self).spawning(g),
    {
        match self.find(flavor) {
            Some(i) => i,
            None => {
                let ghost before = self.pools@;
                let pool = SubworkerPool { flavor: flavor.to_owned(), idle: Vec::new(), spawning: None };
                self.pools.push(pool);
                let n = self.pools.len() - 1;
                proof {
                    assert(self.pools@[n as int] == pool);
                    assert forall|i: int, j: int|
                        0 <= i < j < self.pools@.len() implies self.pools@[i].flavor@
                        != self.pools@[j].flavor@ by {
                        assert(before.len() == n);
                        if j < n {
                            assert(before[i] == self.pools@[i] && before[j] == self.pools@[j]);
                        } else {
                            assert(before[i] == self.pools@[i]);
                        }
                    }
                    assert forall|i: int|
                        0 <= i < self.pools@.len() implies match #[trigger] self.pools@[i].spawning {
                            Some(g) => g.wf() && !g.ready(),
                            None => true,
                        } by {
                        if i < n {
                            assert(before[i] == self.pools@[i]);
                        }
                    }
                    let k = self.slot(flavor@);
                    assert(self.pools@[n as int].flavor@ == flavor@);
                    assert(k == n);
                    assert(pool.idle@ =~= Seq::<SubworkerId>::empty());
                    assert forall|g: Seq<char>| g != flavor@ implies self.idle(g) == old(self).idle(g)
                        && self.spawning(g) == old(self).spawning(g) by {
                        if old(self).has_pool(g) {
                            let a = old(self).slot(g);
                            assert(self.pools@[a] == before[a]);
                            let b = self.slot(g);
                            assert(b == a);
                        }
                        if self.has_pool(g) {
                            let b = self.slot(g);
                            assert(b != n);
                            assert(before[b] == self.pools@[b]);
                        }
                    }
                }
                n
            },
        }
    }

    proof fn lemma_replace_pool(old_d: Dispatcher, new_d: Dispatcher, i: int)
        requires
            old_d.wf(),
            0 <= i < old_d.pools@.len(),
            new_d.pools@ == old_d.pools@.update(i, new_d.pools@[i]),
            new_d.pools@[i].flavor@ == old_d.pools@[i].flavor@,
            match new_d.pools@[i].spawning {
                Some(g) => g.wf() && !g.ready(),
                None => true,
            },
        ensures
            new_d.wf(),
            new_d.has_pool(old_d.pools@[i].flavor@),
            new_d.slot(old_d.pools@[i].flavor@) == i,
            new_d.idle(old_d.pools@[i].flavor@) == new_d.pools@[i].idle@,
            new_d.spawning(old_d.pools@[i].flavor@) == new_d.pools@[i].spawning is Some,
            forall|g: Seq<char>|
                g != old_d.pools@[i].flavor@ ==> new_d.idle(g) == old_d.idle(g) && new_d.spawning(g)
                    == old_d.spawning(g),
    {
        let f = old_d.pools@[i].flavor@;
        assert forall|a: int, b: int|
            0 <= a < b < new_d.pools@.len() implies new_d.pools@[a].flavor@ != new_d.pools@[b].flavor@ by {
            assert(old_d.pools@[a].flavor@ != old_d.pools@[b].flavor@);
        }
        assert forall|a: int|
            0 <= a < new_d.pools@.len() implies match #[trigger] new_d.pools@[a].spawning {
                Some(g) => g.wf() && !g.ready(),
                None => true,
            } by {
            if a != i {
                assert(old_d.pools@[a] == new_d.pools@[a]);
            }
        }
        assert(new_d.pools@[i].flavor@ == f);
        let k = new_d.slot(f);
        if k < i {
            assert(new_d.pools@[k].flavor@ != new_d.pools@[i].flavor@);
        } else if k > i {
            assert(new_d.pools@[i].flavor@ != new_d.pools@[k].flavor@);
        }
        assert forall|g: Seq<char>| g != f implies new_d.idle(g) == old_d.idle(g) && new_d.spawning(g)
            == old_d.spawning(g) by {
            if old_d.has_pool(g) {
                let a = old_d.slot(g);
                assert(a != i);
                assert(new_d.pools@[a] == old_d.pools@[a]);
                let b = new_d.slot(g);
                if b < a {
                    assert(new_d.pools@[b].flavor@ != new_d.pools@[a].flavor@);
                } else if b > a {
                    assert(new_d.pools@[a].flavor@ != new_d.pools@[b].flavor@);
                }
            }
            if new_d.has_pool(g) {
                let b = new_d.slot(g);
                assert(b != i);
                assert(new_d.pools@[b] == old_d.pools@[b]);
            }
        }
    }

    /// Finds a helper of `flavor` for a task start: an idle one if any;
    /// otherwise a wait for the helper already being spawned; otherwise a
    /// request to spawn one, so that concurrent starts spawn one helper.
    pub fn acquire(&mut self, flavor: &str) -> (r: Acquire)
        requires
            old(self).wf(),
        ensures
            final(self).wf(),
            old(self).idle(flavor@).len() > 0 ==> {
                &&& r == Acquire::Ready(old(self).idle(flavor@).last())
                &&& final(self).idle(flavor@) == old(self).idle(flavor@).drop_last()
                &&& final(self).spawning(flavor@) == old(self).spawning(flavor@)
            },
            old(self).idle(flavor@).len() == 0 && old(self).spawning(flavor@) ==> {
                &&& r is Wait
                &&& final(self).idle(flavor@) == old(self).idle(flavor@)
                &&& final(self).spawning(flavor@)
            },
            old(self).idle(flavor@).len() == 0 && !old(self).spawning(flavor@) ==> {
                &&& r is Spawn
                &&& final(self).idle(flavor@) == old(self).idle(flavor@)
                &&& final(self).spawning(flavor@)
            },
            forall|g: Seq<char>|
                g != flavor@ ==> final(self).idle(g) == old(self).idle(g) && final(self).spawning(
                    g,
                ) == old(self).spawning(g),
    {
        let i = self.ensure_pool(flavor);
        let ghost mid = *self;
        let mut p = self.pools.remove(i);
        let r = if p.idle.len() > 0 {
            Acquire::Ready(p.idle.pop().unwrap())
        } else {
            match &mut p.spawning {
                Some(g) => match g.wait() {
                    Some(rx) => Acquire::Wait(rx),
                    None => Acquire::Spawn,
                },
                None => {
                    p.spawning = Some(AsyncInitWrapper::new());
                    Acquire::Spawn
                },
            }
        };
        self.pools.insert(i, p);
        proof {
            assert(self.pools@ =~= mid.pools@.update(i as int, p));
            Self::lemma_replace_pool(mid, *self, i as int);
        }
        r
    }

    /// A spawned helper of `flavor` is ready: it joins the idle helpers and
    /// everyone waiting for it is released.
    pub fn helper_ready(&mut self, flavor: &str, helper: SubworkerId)
        requires
            old(self).wf(),
        ensures
            final(self).wf(),
            final(self).idle(flavor@) == old(self).idle(flavor@).push(helper),
            !final(self).spawning(flavor@),
            forall|g: Seq<char>|
                g != flavor@ ==> final(self).idle(g) == old(self).idle(g) && final(self).spawning(
                    g,
                ) == old(self).spawning(g),
    {
        let i = self.ensure_pool(flavor);
        let ghost mid = *self;
        let mut p = self.pools.remove(i);
        p.idle.push(helper);
        clear_gate(&mut p);
        self.pools.insert(i, p);
        proof {
            assert(self.pools@ =~= mid.pools@.update(i as int, p));
            Self::lemma_replace_pool(mid, *self, i as int);
        }
    }

    /// Spawning a helper of `flavor` failed: the spawn gate is cleared and
    /// its waiters released, so that the next request spawns again.
    pub fn spawn_failed(&mut self, flavor: &str)
        requires
            old(self).wf(),
        ensures
            final(self).wf(),
            final(self).idle(flavor@) == old(self).idle(flavor@),
            !final(self).spawning(flavor@),
            forall|g: Seq<char>|
                g != flavor@ ==> final(self).idle(g) == old(self).idle(g) && final(self).spawning(
                    g,
                ) == old(self).spawning(g),
    {
        let i = self.ensure_pool(flavor);
        let ghost mid = *self;
        let mut p = self.pools.remove(i);
        clear_gate(&mut p);
        self.pools.insert(i, p);
        proof {
            assert(self.pools@ =~= mid.pools@.update(i as int, p));
            Self::lemma_replace_pool(mid, *self, i as int);
        }
    }

    /// Returns a helper that is still usable to the idle helpers of `flavor`.
    pub fn release(&mut self, flavor: &str, helper: SubworkerId)
        requires
            old(self).wf(),
        ensures
            final(self).wf(),
            final(self).idle(flavor@) == old(self).idle(flavor@).push(helper),
            final(self).spawning(flavor@) == old(self).spawning(flavor@),
            forall|g: Seq<char>|
                g != flavor@ ==> final(self).idle(g) == old(self).idle(g) && final(self).spawning(
                    g,
                ) == old(self).spawning(g),
    {
        let i = self.ensure_pool(flavor);
        let ghost mid = *self;
        let mut p = self.pools.remove(i);
        p.idle.push(helper);
        self.pools.insert(i, p);
        proof {
            assert(self.pools@ =~= mid.pools@.update(i as int, p));
            Self::lemma_replace_pool(mid, *self, i as int);
        }
    }

    pub fn idle_count(&self, flavor: &str) -> (r: usize)
        requires
            self.wf(),
        ensures
            r == self.idle(flavor@).len(),
    {
        match self.find(flavor) {
            Some(i) => self.pools[i].idle.len(),
            None => 0,
        }
    }

    pub fn is_spawning(&self, flavor: &str) -> (r: bool)
        requires
            self.wf(),
        ensures
            r == self.spawning(flavor@),
    {
        match self.find(flavor) {
            Some(i) => self.pools[i].spawning.is_some(),
            None => false,
        }
    }
}

/// One input of a run-task request, with the data it refers to.
#[derive(Debug)]
pub struct RequestInput {
    pub id: DataObjectId,
    pub label: String,
    pub data: Vec<u8>,
}

/// One output of a run-task request.
#[derive(Debug)]
pub struct RequestOutput {
    pub id: DataObjectId,
    pub label: String,
}

/// What a helper is asked to run.
#[derive(Debug)]
pub struct RunTaskRequest {
    pub task_id: TaskId,
    pub config: Vec<u8>,
    pub inputs: Vec<RequestInput>,
    pub outputs: Vec<RequestOutput>,
}

/// A helper's answer, or the loss of the helper before it answered.
#[derive(Debug)]
pub enum HelperResponse {
    /// The task ran; one piece of data per output, in output order, and
    /// the attributes the task produced.
    Success { data: Vec<Vec<u8>>, additionals: String },
    /// The helper answered that the task failed, with the attributes the
    /// task produced; the helper stays usable.
    Failure { message: String, additionals: String },
    /// The connection or the helper process was lost.
    Lost(String),
}

/// Every input and output object of task `t` is known to the worker.
pub open spec fn objects_present(
    t: crate::instance::WorkerTask,
    objects: Map<DataObjectId, WorkerObject>,
) -> bool {
    &&& forall|i: int|
        0 <= i < t.inputs@.len() ==> objects.contains_key(#[trigger] t.inputs@[i].object)
    &&& forall|i: int| 0 <= i < t.outputs@.len() ==> objects.contains_key(#[trigger] t.outputs@[i])
}

/// Builds the request that asks a helper to run `task`: its id and config,
/// each input's id, label and data, and each output's id and label. `None`
/// when the task or one of its objects is unknown.
pub fn run_task_request(state: &State, task: TaskId) -> (r: Option<RunTaskRequest>)
    ensures
        r is Some <==> state.tasks().contains_key(task) && objects_present(
            state.tasks()[task],
            state.objects(),
        ),
        r matches Some(req) ==> {
            let t = state.tasks()[task];
            &&& req.task_id == task
            &&& req.config@ == t.config@
            &&& req.inputs@.len() == t.inputs@.len()
            &&& req.outputs@.len() == t.outputs@.len()
            &&& forall|i: int|
                #![trigger req.inputs@[i]]
                0 <= i < req.inputs@.len() ==> {
                    &&& req.inputs@[i].id == t.inputs@[i].object
                    &&& req.inputs@[i].label@ == t.inputs@[i].label@
                    &&& req.inputs@[i].data@ == object_data(state.objects()[t.inputs@[i].object])
                }
            &&& forall|i: int|
                #![trigger req.outputs@[i]]
                0 <= i < req.outputs@.len() ==> {
                    &&& req.outputs@[i].id == t.outputs@[i]
                    &&& req.outputs@[i].label@ == state.objects()[t.outputs@[i]].label@
                }
        },
{
    let t = match state.task(task) {
        Some(t) => t,
        None => {
            return None;
        },
    };
    let mut inputs: Vec<RequestInput> = Vec::new();
    let mut i: usize = 0;
    while i < t.inputs.len()
        invariant
            state.tasks().contains_key(task),
            *t == state.tasks()[task],
            i <= t.inputs@.len(),
            inputs@.len() == i,
            forall|j: int| 0 <= j < i ==> state.objects().contains_key(#[trigger] t.inputs@[j].object),
            forall|j: int|
                #![trigger inputs@[j]]
                0 <= j < i ==> {
                    &&& inputs@[j].id == t.inputs@[j].object
                    &&& inputs@[j].label@ == t.inputs@[j].label@
                    &&& inputs@[j].data@ == object_data(state.objects()[t.inputs@[j].object])
                },
        decreases t.inputs@.len() - i,
    {
        let input = &t.inputs[i];
        let o = match state.object(input.object) {
            Some(o) => o,
            None => {
                return None;
            },
        };
        let data = match &o.data {
            Some(d) => d.clone(),
            None => Vec::new(),
        };
        proof {
            assert(data@ =~= object_data(*o));
        }
        inputs.push(RequestInput { id: input.object, label: input.label.clone(), data });
        i = i + 1;
    }
    let mut outputs: Vec<RequestOutput> = Vec::new();
    let mut i: usize = 0;
    while i < t.outputs.len()
        invariant
            state.tasks().contains_key(task),
            *t == state.tasks()[task],
            i <= t.outputs@.len(),
            outputs@.len() == i,
            forall|j: int| 0 <= j < i ==> state.objects().contains_key(#[trigger] t.outputs@[j]),
            forall|j: int|
                #![trigger outputs@[j]]
                0 <= j < i ==> {
                    &&& outputs@[j].id == t.outputs@[j]
                    &&& outputs@[j].label@ == state.objects()[t.outputs@[j]].label@
                },
        decreases t.outputs@.len() - i,
    {
        let id = t.outputs[i];
        let o = match state.object(id) {
            Some(o) => o,
            None => {
                return None;
            },
        };
        outputs.push(RequestOutput { id, label: o.label.clone() });
        i = i + 1;
    }
    let config = t.config.clone();
    proof {
        assert(config@ =~= t.config@);
    }
    Some(RunTaskRequest { task_id: task, config, inputs, outputs })
}

/// Takes in a helper's response for `task`: when the helper answered, it
/// records the task's attributes from the answer and recycles the helper,
/// and on success binds each output's data once; when the helper was lost,
/// it changes nothing and does not recycle the helper, which is presumed
/// dead. Returns how the execution ended, for `TaskInstance::finish`.
pub fn handle_response(
    state: &mut State,
    pools: &mut Dispatcher,
    flavor: &str,
    helper: SubworkerId,
    task: TaskId,
    response: HelperResponse,
) -> (r: Outcome)
    requires
        old(state).wf(),
        old(pools).wf(),
        old(state).tasks().contains_key(task),
    ensures
        final(state).wf(),
        final(pools).wf(),
        final(state).free_cpus() == old(state).free_cpus(),
        forall|t: TaskId| final(state).is_running(t) == old(state).is_running(t),
        forall|t: TaskId| final(state).cancel_requested(t) == old(state).cancel_requested(t),
        final(state).updated_tasks() == old(state).updated_tasks(),
        match response {
            HelperResponse::Success { data, additionals } => {
                let b = bound(
                    (old(state).objects(), old(state).updated_objects()),
                    old(state).tasks()[task].outputs@,
                    data@,
                );
                &&& r is Completed
                &&& final(state).objects() == b.0
                &&& final(state).updated_objects() == b.1
                &&& final(state).tasks() == old(state).tasks().insert(
                    task,
                    crate::instance::WorkerTask { additionals, ..old(state).tasks()[task] },
                )
            },
            HelperResponse::Failure { message, additionals } => {
                &&& r == Outcome::Failed(message)
                &&& final(state).objects() == old(state).objects()
                &&& final(state).updated_objects() == old(state).updated_objects()
                &&& final(state).tasks() == old(state).tasks().insert(
                    task,
                    crate::instance::WorkerTask { additionals, ..old(state).tasks()[task] },
                )
            },
            HelperResponse::Lost(e) => {
                &&& r == Outcome::Failed(e)
                &&& *final(state) == *old(state)
                &&& *final(pools) == *old(pools)
            },
        },
        !(response is Lost) ==> {
            &&& final(pools).idle(flavor@) == old(pools).idle(flavor@).push(helper)
            &&& final(pools).spawning(flavor@) == old(pools).spawning(flavor@)
            &&& forall|g: Seq<char>|
                g != flavor@ ==> final(pools).idle(g) == old(pools).idle(g)
                    && final(pools).spawning(g) == old(pools).spawning(g)
        },
{
    match response {
        HelperResponse::Success { data, additionals } => {
            let outputs = state.task(task).unwrap().outputs.clone();
            proof {
                assert(outputs@ =~= state.tasks()[task].outputs@);
            }
            state.set_additionals(task, additionals);
            state.bind_outputs(&outputs, data);
            pools.release(flavor, helper);
            Outcome::Completed
        },
        HelperResponse::Failure { message, additionals } => {
            state.set_additionals(task, additionals);
            pools.release(flavor, helper);
            Outcome::Failed(message)
        },
        HelperResponse::Lost(e) => Outcome::Failed(e),
    }
}

} // verus!
