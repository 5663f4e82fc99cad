//! Agents: where they are, how they are started and what happens when they fail.

use vstd::prelude::*;
use std::time::Duration;
use crate::decode;
use crate::text;
use crate::text_map::TextMap;

verus! {

/// How instances of an agent come to be.
#[derive(Debug, Clone, Copy, PartialEq, Eq)]
pub enum SpawnPolicy {
    /// One long-running instance; requests queue. `None` is a queue without a bound.
    Singleton { max_queue: Option<usize> },
    /// `size` long-running instances that take turns.
    Pool { size: usize },
    /// A fresh instance per task, torn down after its answer.
    PerRequest,
}

/// What to do when an agent fails.
#[derive(Debug, PartialEq, Eq)]
pub struct FailurePolicy {
    pub retries: usize,
    pub restart_on_failure: bool,
    pub fallback: Option<String>,
}

/// A `FailurePolicy` as a mathematical value.
pub struct FailureView {
    pub retries: usize,
    pub restart_on_failure: bool,
    pub fallback: Option<Seq<char>>,
}

impl View for FailurePolicy {
    type V = FailureView;

    open spec fn view(&self) -> FailureView {
        FailureView {
            retries: self.retries,
            restart_on_failure: self.restart_on_failure,
            fallback: text::opt(self.fallback),
        }
    }
}

impl Default for FailurePolicy {
    fn default() -> (r: FailurePolicy)
        ensures
            r.retries == 0,
            !r.restart_on_failure,
            r.fallback is None,
    {
        FailurePolicy { retries: 0, restart_on_failure: false, fallback: None }
    }
}

impl Clone for FailurePolicy {
    fn clone(&self) -> (r: FailurePolicy)
        ensures
            r@ == self@,
    {
        FailurePolicy {
            retries: self.retries,
            restart_on_failure: self.restart_on_failure,
            fallback: self.fallback.clone(),
        }
    }
}

/// What a look at an agent has shown.
#[derive(Debug, PartialEq, Eq)]
pub enum HealthStatus {
    Healthy,
    Degraded { reason: String },
    Unreachable,
}

/// An agent behind an HTTP address.
#[derive(Debug, PartialEq, Eq)]
pub struct HttpAgentFactory {
    pub node_name: String,
    pub http_url: String,
}

/// An agent that is a child process, spoken to on its standard streams.
#[derive(Debug, PartialEq, Eq)]
pub struct StdioFactory {
    pub node_name: String,
    pub command: String,
    pub args: Vec<String>,
    pub envs: TextMap<String>,
}

/// An agent behind a Unix socket.
#[derive(Debug, PartialEq, Eq)]
pub struct UnixSocketFactory {
    pub node_name: String,
    pub path: String,
}

/// The way to the instances of an agent. A local agent is one that the embedding
/// program holds under a key.
#[derive(Debug, PartialEq, Eq)]
pub enum AgentEndpoint {
    Http(HttpAgentFactory),
    Stdio(StdioFactory),
    UnixSocket(UnixSocketFactory),
    Local { key: String },
}

/// An `AgentEndpoint` as a mathematical value.
#[verifier::ext_equal]
pub enum EndpointView {
    Http { node_name: Seq<char>, http_url: Seq<char> },
    Stdio {
        node_name: Seq<char>,
        command: Seq<char>,
        args: Seq<Seq<char>>,
        envs: Map<Seq<char>, Seq<char>>,
    },
    UnixSocket { node_name: Seq<char>, path: Seq<char> },
    Local { key: Seq<char> },
}

impl View for AgentEndpoint {
    type V = EndpointView;

    open spec fn view(&self) -> EndpointView {
        match *self {
            AgentEndpoint::Http(f) => EndpointView::Http {
                node_name: f.node_name@,
                http_url: f.http_url@,
            },
            AgentEndpoint::Stdio(f) => EndpointView::Stdio {
                node_name: f.node_name@,
                command: f.command@,
                args: text::strs(f.args@),
                envs: decode::labels(f.envs@),
            },
            AgentEndpoint::UnixSocket(f) => EndpointView::UnixSocket {
                node_name: f.node_name@,
                path: f.path@,
            },
            AgentEndpoint::Local { key } => EndpointView::Local { key: key@ },
        }
    }
}

/// The same labels again.
pub fn copy_labels(m: &TextMap<String>) -> (r: TextMap<String>)
    ensures
        decode::labels(r@) == decode::labels(m@),
{
    let r = m.clone();
    assert(decode::labels(r@) =~= decode::labels(m@));
    r
}

/// The same strings again.
pub fn copy_texts(v: &Vec<String>) -> (r: Vec<String>)
    ensures
        text::strs(r@) == text::strs(v@),
{
    let mut out: Vec<String> = Vec::new();
    let mut i: usize = 0;
    while i < v.len()
        invariant
            i <= v@.len(),
            out@.len() == i,
            forall|j: int| 0 <= j < i ==> (#[trigger] out@[j])@ == v@[j]@,
        decreases v@.len() - i,
    {
        out.push(v[i].clone());
        i += 1;
    }
    assert(text::strs(out@) =~= text::strs(v@));
    out
}

impl Clone for AgentEndpoint {
    fn clone(&self) -> (r: AgentEndpoint)
        ensures
            r@ == self@,
    {
        match self {
            AgentEndpoint::Http(f) => AgentEndpoint::Http(
                HttpAgentFactory { node_name: f.node_name.clone(), http_url: f.http_url.clone() },
            ),
            AgentEndpoint::Stdio(f) => AgentEndpoint::Stdio(
                StdioFactory {
                    node_name: f.node_name.clone(),
                    command: f.command.clone(),
                    args: copy_texts(&f.args),
                    envs: copy_labels(&f.envs),
                },
            ),
            AgentEndpoint::UnixSocket(f) => AgentEndpoint::UnixSocket(
                UnixSocketFactory { node_name: f.node_name.clone(), path: f.path.clone() },
            ),
            AgentEndpoint::Local { key } => AgentEndpoint::Local { key: key.clone() },
        }
    }
}

/// An agent that a workflow can run.
#[derive(Debug, PartialEq, Eq)]
pub struct AgentNode {
    pub name: String,
    pub capabilities: Vec<String>,
    pub factory: AgentEndpoint,
    pub spawn: SpawnPolicy,
    pub failure: FailurePolicy,
    /// How long one call may take.
    pub timeout: Duration,
    /// How long an instance may take to stop.
    pub shutdown_grace: Duration,
    pub metadata: TextMap<String>,
    /// Default gate deadline, in seconds from the moment of parking. An agent
    /// that names a deadline of its own overrides it.
    pub gate_deadline_secs: Option<u64>,
}

/// An `AgentNode` as a mathematical value.
#[verifier::ext_equal]
pub struct AgentNodeView {
    pub name: Seq<char>,
    pub capabilities: Seq<Seq<char>>,
    pub factory: EndpointView,
    pub spawn: SpawnPolicy,
    pub failure: FailureView,
    pub timeout: Duration,
    pub shutdown_grace: Duration,
    pub metadata: Map<Seq<char>, Seq<char>>,
    pub gate_deadline_secs: Option<u64>,
}

impl View for AgentNode {
    type V = AgentNodeView;

    open spec fn view(&self) -> AgentNodeView {
        AgentNodeView {
            name: self.name@,
            capabilities: text::strs(self.capabilities@),
            factory: self.factory@,
            spawn: self.spawn,
            failure: self.failure@,
            timeout: self.timeout,
            shutdown_grace: self.shutdown_grace,
            metadata: decode::labels(self.metadata@),
            gate_deadline_secs: self.gate_deadline_secs,
        }
    }
}

impl Clone for AgentNode {
    fn clone(&self) -> (r: AgentNode)
        ensures
            r@ == self@,
    {
        AgentNode {
            name: self.name.clone(),
            capabilities: copy_texts(&self.capabilities),
            factory: self.factory.clone(),
            spawn: self.spawn,
            failure: self.failure.clone(),
            timeout: self.timeout,
            shutdown_grace: self.shutdown_grace,
            metadata: copy_labels(&self.metadata),
            gate_deadline_secs: self.gate_deadline_secs,
        }
    }
}

} // verus!
