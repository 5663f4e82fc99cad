//! Agent orchestration: planned DAGs, workflows, durable executions and the
//! agents that run them.

use vstd::prelude::*;

pub mod agent_laws;
pub mod clock;
pub mod dag;
pub mod dag_laws;
pub mod dashboard;
pub mod decode;
pub mod engine;
pub mod envelope;
pub mod error;
pub mod events;
pub mod execution_laws;
pub mod execution_store;
pub mod flow_laws;
pub mod graph;
pub mod health_poller;
pub mod ids;
pub mod instance_manager;
pub mod job;
pub mod json;
pub mod jsonrpc;
pub mod orchestrator;
pub mod plan_laws;
pub mod registry;
pub mod registry_laws;
pub mod registry_server;
pub mod registry_store;
pub mod resume;
pub mod run_laws;
pub mod step_laws;
pub mod store_laws;
pub mod supervisor;
pub mod supervisor_laws;
pub mod text;
pub mod text_map;
pub mod tool_laws;
pub mod transport;
pub mod types;
pub mod wire_laws;
pub mod workflow;

verus! {

} // verus!
