//! The engine behind the tool interface: goals in, results out.

use vstd::prelude::*;
use crate::clock::Instant;
use crate::error::Outcome;
use crate::execution_store;
use crate::execution_store::{ExecutionRecord, StoreView};
use crate::job::{JobState, JobStore, JobsView};
use crate::orchestrator;
use crate::orchestrator::Orchestrator;
use crate::registry_store::RegistryView;
use crate::text;

verus! {

/// An orchestrator with the jobs that were handed to it.
#[derive(Debug)]
pub struct McpEngine {
    pub orchestrator: Orchestrator,
    pub jobs: JobStore,
}

/// An `McpEngine` as a mathematical value.
#[verifier::ext_equal]
pub struct EngineView {
    pub registry: RegistryView,
    pub executions: StoreView,
    pub jobs: JobsView,
}

impl View for McpEngine {
    type V = EngineView;

    open spec fn view(&self) -> EngineView {
        EngineView {
            registry: self.orchestrator.store@,
            executions: self.orchestrator.execution_store@,
            jobs: self.jobs@,
        }
    }
}

impl McpEngine {
    /// An engine without jobs.
    pub fn new(orchestrator: Orchestrator) -> (r: McpEngine)
        ensures
            r@ == (EngineView {
                registry: orchestrator.store@,
                executions: orchestrator.execution_store@,
                jobs: JobsView { jobs: Map::empty(), completed: Seq::empty() },
            }),
    {
        McpEngine { orchestrator, jobs: JobStore::new() }
    }

    /// Enter a goal as a running job under a new id, which is also the id of its
    /// run.
    pub fn submit_goal(&mut self, workflow_id: u128)
        ensures
            final(self)@ == (EngineView { jobs: old(self)@.jobs.created(workflow_id), ..old(self)@ }),
    {
        self.jobs.create(workflow_id);
    }

    /// The run of a job has come to an outcome.
    pub fn complete_goal(&mut self, workflow_id: u128, outcome: Outcome)
        ensures
            final(self)@ == (EngineView {
                jobs: old(self)@.jobs.ended(workflow_id, outcome@),
                ..old(self)@
            }),
    {
        self.jobs.complete(workflow_id, outcome);
    }

    /// How a job stands, where it is known.
    pub fn get_result(&self, id: u128) -> (r: Option<JobState>)
        ensures
            match r {
                Some(s) => self@.jobs.jobs.dom().contains(id) && s@ == self@.jobs.jobs[id],
                None => !self@.jobs.jobs.dom().contains(id),
            },
    {
        self.jobs.get(&id)
    }

    /// The capabilities that healthy instances offer, sorted, each once.
    pub fn list_capabilities(&self) -> (r: Vec<String>)
        ensures
            text::strs(r@) == orchestrator::offered(self@.registry.entries),
    {
        self.orchestrator.list_capabilities()
    }

    /// Fail every parked node whose gate deadline lies before `now`.
    pub fn expire_gates(&mut self, now: Instant) -> (r: Vec<(String, String)>)
        requires
            now.usable(),
        ensures
            execution_store::pair_views(r@) == old(self)@.executions.overdue_pairs(now.words()),
            final(self)@ == (EngineView {
                executions: old(self)@.executions.expired(now.words()),
                ..old(self)@
            }),
    {
        self.orchestrator.expire_gates(now)
    }

    /// The executions that may be recovered.
    pub fn recoverable(&self) -> (r: Vec<ExecutionRecord>)
        ensures
            execution_store::record_views(r@) == self@.executions.active(),
    {
        self.orchestrator.recoverable()
    }
}

} // verus!
