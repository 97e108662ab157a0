//! The server's end of one worker's connection: update batches, event
//! records, and the cleanup when the connection goes away.

use vstd::prelude::*;
use crate::graph::{Graph, GraphError, Task, lost, objects_after, tasks_after};
use crate::types::{UpdateBatch, WorkerId, reversed};

verus! {

#[verifier::external_type_specification]
#[verifier::external_body]
pub struct ExJsonValue(serde_json::Value);

/// Whether serde_json accepts a text as one JSON document (it refuses some
/// valid documents, those nested more deeply than its recursion limit).
pub uninterp spec fn is_json(s: Seq<char>) -> bool;

/// Relies on `serde_json::from_str`: it parses a text into a
/// `serde_json::Value`, and whether it succeeds depends on the text alone.
#[verifier::external_body]
fn parse_json(s: &str) -> (r: Option<serde_json::Value>)
    ensures
        r is Some == is_json(s@),
{
    serde_json::from_str::<serde_json::Value>(s).ok()
}

/// Whether a UTC instant exists at `secs` seconds and `nanos` nanoseconds
/// after the Unix epoch: the day lies between January 1 of the year -262143
/// and December 31 of the year 262142, and the nanosecond part is below one
/// second, or below two in the last second of a minute (a leap second).
pub open spec fn utc_instant_exists(secs: int, nanos: int) -> bool {
    &&& -8_334_601_228_800 <= secs <= 8_210_266_876_799
    &&& nanos < 2_000_000_000
    &&& (nanos < 1_000_000_000 || secs % 60 == 59)
}

/// Relies on `chrono::DateTime::from_timestamp`, which is `Some` exactly
/// for the instants described by `utc_instant_exists`.
#[verifier::external_body]
fn utc_timestamp_valid(secs: i64, nanos: u32) -> (r: bool)
    ensures
        r == utc_instant_exists(secs as int, nanos as int),
{
    chrono::DateTime::from_timestamp(secs, nanos).is_some()
}

/// A point in time as seconds and sub-second nanoseconds since the epoch.
#[derive(PartialEq, Eq, Structural, Clone, Copy, Debug)]
pub struct Timestamp {
    pub seconds: i64,
    pub subsec_nanos: u32,
}

/// A free-form event record as a worker sends it: JSON text and a time.
#[derive(Clone, Debug)]
pub struct EventRecord {
    pub timestamp: Timestamp,
    pub event: String,
}

/// An accepted event record, with its parsed JSON.
#[derive(Debug)]
pub struct LoggedEvent {
    pub timestamp: Timestamp,
    pub text: String,
    pub value: serde_json::Value,
}

/// Events accepted for observability, in arrival order.
pub struct EventLog {
    pub events: Vec<LoggedEvent>,
}

pub open spec fn event_valid(e: EventRecord) -> bool {
    &&& utc_instant_exists(e.timestamp.seconds as int, e.timestamp.subsec_nanos as int)
    &&& is_json(e.event@)
}

#[derive(PartialEq, Eq, Structural, Clone, Copy, Debug)]
pub enum EventError {
    /// The record at this index names no valid instant.
    InvalidTimestamp(usize),
    /// The record at this index is not JSON.
    InvalidEvent(usize),
}

#[derive(PartialEq, Eq, Structural, Clone, Copy, Debug)]
pub enum RpcError {
    Unimplemented,
}

impl EventLog {
    pub fn new() -> (r: Self)
        ensures
            r.events@.len() == 0,
    {
        EventLog { events: Vec::new() }
    }
}

/// The server's end of the connection of one worker.
pub struct WorkerUpstreamImpl {
    worker: WorkerId,
}

impl WorkerUpstreamImpl {
    pub closed spec fn worker(&self) -> WorkerId {
        self.worker
    }

    pub fn new(worker: WorkerId) -> (r: Self)
        ensures
            r.worker() == worker,
    {
        WorkerUpstreamImpl { worker }
    }

    pub fn get_worker(&self) -> (r: WorkerId)
        ensures
            r == self.worker(),
    {
        self.worker
    }

    /// Applies a batch of deltas from this worker to the graph.
    pub fn update_states(&self, graph: &mut Graph, batch: UpdateBatch) -> (r: Result<(), GraphError>)
        requires
            old(graph).wf(),
        ensures
            final(graph).wf(),
            !old(graph).workers().contains_key(self.worker()) ==> r is Ok && *final(graph) == *old(graph),
            old(graph).workers().contains_key(self.worker()) && !old(graph).batch_known(batch)
                ==> r is Err,
            r is Err ==> *final(graph) == *old(graph),
            old(graph).workers().contains_key(self.worker()) && old(graph).batch_known(batch) ==> {
                let objects = objects_after(old(graph).objects(), batch.objects@);
                &&& r is Ok
                &&& final(graph).objects() == objects
                &&& final(graph).tasks() == tasks_after(
                    old(graph).tasks(),
                    objects,
                    self.worker(),
                    batch.tasks@,
                )
                &&& final(graph).workers() == old(graph).workers()
                &&& final(graph).sessions() == old(graph).sessions()
                &&& final(graph).removed_tasks() == old(graph).removed_tasks()
                &&& final(graph).removed_objects() == old(graph).removed_objects()
            },
    {
        graph.apply_worker_update(self.worker, batch)
    }

    /// Sessions cannot be requested by workers yet.
    pub fn get_client_session(&self) -> (r: Result<(), RpcError>)
        ensures
            r == Err::<(), RpcError>(RpcError::Unimplemented),
    {
        Err(RpcError::Unimplemented)
    }

    /// Records a batch of events. A batch holding a record with no valid
    /// instant or no JSON document is refused as a whole; the error names
    /// the first such record.
    pub fn push_events(&self, log: &mut EventLog, events: Vec<EventRecord>) -> (r: Result<
        usize,
        EventError,
    >)
        ensures
            (forall|i: int| 0 <= i < events@.len() ==> event_valid(#[trigger] events@[i])) <==> r is Ok,
            r is Ok ==> {
                &&& r->Ok_0 == events@.len()
                &&& final(log).events@.len() == old(log).events@.len() + events@.len()
                &&& final(log).events@.subrange(0, old(log).events@.len() as int)
                    == old(log).events@
                &&& forall|i: int|
                    #![trigger events@[i]]
                    0 <= i < events@.len() ==> {
                        &&& final(log).events@[old(log).events@.len() + i].timestamp
                            == events@[i].timestamp
                        &&& final(log).events@[old(log).events@.len() + i].text@ == events@[i].event@
                    }
            },
            r is Err ==> *final(log) == *old(log),
            r matches Err(EventError::InvalidTimestamp(i)) ==> i < events@.len()
                && !utc_instant_exists(
                events@[i as int].timestamp.seconds as int,
                events@[i as int].timestamp.subsec_nanos as int,
            ) && forall|j: int| 0 <= j < i ==> event_valid(#[trigger] events@[j]),
            r matches Err(EventError::InvalidEvent(i)) ==> i < events@.len() && !is_json(
                events@[i as int].event@,
            ) && forall|j: int| 0 <= j < i ==> event_valid(#[trigger] events@[j]),
    {
        let mut values: Vec<serde_json::Value> = Vec::new();
        let mut i: usize = 0;
        while i < events.len()
            invariant
                i <= events@.len(),
                values@.len() == i,
                forall|j: int| 0 <= j < i ==> event_valid(#[trigger] events@[j]),
            decreases events@.len() - i,
        {
            let e = &events[i];
            if !utc_timestamp_valid(e.timestamp.seconds, e.timestamp.subsec_nanos) {
                return Err(EventError::InvalidTimestamp(i));
            }
            match parse_json(e.event.as_str()) {
                Some(v) => values.push(v),
                None => {
                    return Err(EventError::InvalidEvent(i));
                },
            }
            i = i + 1;
        }
        let n: usize = events.len();
        let ghost es = events@;
        let ghost base = log.events@;
        let mut rest = reversed(events);
        let mut vals = reversed(values);
        let mut k: usize = 0;
        while rest.len() > 0
            invariant
                k + rest@.len() == es.len(),
                es.len() == n,
                rest@.len() == vals@.len(),
                rest@ == es.subrange(k as int, es.len() as int).reverse(),
                log.events@.len() == base.len() + k,
                log.events@.subrange(0, base.len() as int) == base,
                forall|j: int|
                    #![trigger es[j]]
                    0 <= j < k ==> {
                        &&& log.events@[base.len() + j].timestamp == es[j].timestamp
                        &&& log.events@[base.len() + j].text@ == es[j].event@
                    },
            decreases rest.len(),
        {
            let e = rest.pop().unwrap();
            let v = vals.pop().unwrap();
            proof {
                assert(e == es[k as int]);
                assert(rest@ =~= es.subrange(k as int + 1, es.len() as int).reverse());
            }
            let ghost before = log.events@;
            log.events.push(LoggedEvent { timestamp: e.timestamp, text: e.event, value: v });
            proof {
                assert(log.events@.subrange(0, base.len() as int) =~= before.subrange(0, base.len() as int));
                assert forall|j: int| #![trigger es[j]] 0 <= j < k + 1 implies {
                    &&& log.events@[base.len() + j].timestamp == es[j].timestamp
                    &&& log.events@[base.len() + j].text@ == es[j].event@
                } by {
                    if j < k {
                        assert(log.events@[base.len() + j] == before[base.len() + j]);
                    }
                }
            }
            k = k + 1;
        }
        Ok(n)
    }

    /// The connection is gone: the worker is dropped from the graph and
    /// every unfinished task assigned to it fails as lost, before anything
    /// more from this worker can be applied.
    pub fn disconnect(self, graph: &mut Graph) -> (r: bool)
        requires
            old(graph).wf(),
        ensures
            final(graph).wf(),
            r == old(graph).workers().contains_key(self.worker()),
            final(graph).workers() == old(graph).workers().remove(self.worker()),
            final(graph).tasks() == old(graph).tasks().map_values(|t: Task| lost(t, self.worker())),
            final(graph).objects() == old(graph).objects(),
            final(graph).sessions() == old(graph).sessions(),
            final(graph).removed_tasks() == old(graph).removed_tasks(),
            final(graph).removed_objects() == old(graph).removed_objects(),
    {
        graph.remove_worker(self.worker)
    }
}

} // verus!
