//! States, identifiers and update records shared by the server and workers.

use vstd::prelude::*;

verus! {

pub type TaskId = u64;

pub type DataObjectId = u64;

pub type WorkerId = u64;

/// Life cycle of a task; a task only ever moves forward in it.
#[derive(PartialEq, Eq, Structural, Clone, Copy, Debug)]
pub enum TaskState {
    Scheduled,
    Running,
    Finished,
    Failed,
}

impl TaskState {
    /// Position in the life cycle; both terminal states share the last one.
    pub open spec fn rank(self) -> nat {
        match self {
            TaskState::Scheduled => 0,
            TaskState::Running => 1,
            TaskState::Finished => 2,
            TaskState::Failed => 2,
        }
    }

    pub open spec fn terminal(self) -> bool {
        self.rank() == 2
    }

    pub fn is_terminal(&self) -> (r: bool)
        ensures
            r == self.terminal(),
    {
        match self {
            TaskState::Finished | TaskState::Failed => true,
            _ => false,
        }
    }

    /// Whether moving from `self` to `next` goes forward in the life cycle.
    pub fn advances_to(&self, next: &TaskState) -> (r: bool)
        ensures
            r == (self.rank() < next.rank()),
    {
        let a: u8 = match self {
            TaskState::Scheduled => 0,
            TaskState::Running => 1,
            _ => 2,
        };
        let b: u8 = match next {
            TaskState::Scheduled => 0,
            TaskState::Running => 1,
            _ => 2,
        };
        a < b
    }
}

#[derive(PartialEq, Eq, Structural, Clone, Copy, Debug)]
pub enum DataObjectState {
    Unfinished,
    Finished,
    Removed,
}

/// A labelled input of a task.
#[derive(Clone, Debug)]
pub struct TaskInput {
    pub label: String,
    pub object: DataObjectId,
}

/// New state of a data object, as a worker reports it.
#[derive(Clone, Debug)]
pub struct ObjectUpdate {
    pub id: DataObjectId,
    pub state: DataObjectState,
    pub size: u64,
    pub attributes: String,
}

/// New state of a task, as a worker reports it.
#[derive(Clone, Debug)]
pub struct TaskUpdate {
    pub id: TaskId,
    pub state: TaskState,
    pub attributes: String,
}

/// One batch of deltas sent from a worker to the server.
#[derive(Clone, Debug)]
pub struct UpdateBatch {
    pub objects: Vec<ObjectUpdate>,
    pub tasks: Vec<TaskUpdate>,
}

/// Returns the elements of `v` in reverse order, moving them.
pub fn reversed<T>(v: Vec<T>) -> (r: Vec<T>)
    ensures
        r@ == v@.reverse(),
{
    let mut v = v;
    let ghost orig = v@;
    let mut r: Vec<T> = Vec::new();
    while v.len() > 0
        invariant
            v@ == orig.subrange(0, v@.len() as int),
            r@ == orig.subrange(v@.len() as int, orig.len() as int).reverse(),
            v@.len() <= orig.len(),
        decreases v.len(),
    {
        let x = v.pop().unwrap();
        proof {
            let n = v@.len() as int;
            assert(orig.subrange(n, orig.len() as int).reverse() =~= orig.subrange(
                n + 1,
                orig.len() as int,
            ).reverse().push(x));
        }
        r.push(x);
        proof {
            assert(v@ =~= orig.subrange(0, v@.len() as int));
        }
    }
    assert(orig.subrange(0, orig.len() as int) =~= orig);
    r
}

/// Character-wise string equality.
pub fn str_eq(a: &str, b: &str) -> (r: bool)
    ensures
        r == (a@ == b@),
{
    let n = a.unicode_len();
    if n != b.unicode_len() {
        return false;
    }
    let mut i: usize = 0;
    while i < n
        invariant
            n == a@.len(),
            n == b@.len(),
            i <= n,
            forall|j: int| 0 <= j < i ==> a@[j] == b@[j],
        decreases n - i,
    {
        if a.get_char(i) != b.get_char(i) {
            return false;
        }
        i = i + 1;
    }
    assert(a@ =~= b@);
    true
}

} // verus!
