//! Core of a distributed task-workflow executor: the server's task/data
//! graph, the worker's task execution engine, delegation to helper
//! processes, and the update protocol that reconciles the two views.

pub mod types;
pub mod channel;
pub mod asyncinit;
pub mod graph;
pub mod instance;
pub mod subworker;
pub mod upstream;
pub mod resources;
