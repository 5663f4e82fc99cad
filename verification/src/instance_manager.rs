//! Instances of agents: which one takes the next task.

use vstd::prelude::*;
use vstd::string::*;
use crate::envelope::Envelope;
use crate::error::{AetherError, ErrorView};
use crate::supervisor;
use crate::text;
use crate::text_map::TextMap;
use crate::types::{AgentNode, SpawnPolicy};

verus! {

/// The long-running instances of an agent.
#[derive(Debug, Clone, Copy, PartialEq, Eq)]
pub enum NodeState {
    /// One instance, with the number of tasks that it has taken and not ended.
    Singleton { pending: usize, max_queue: Option<usize> },
    /// Several instances, with the number of tasks handed out so far.
    Pool { size: usize, cursor: usize },
}

/// The instance that takes a task.
#[derive(Debug, Clone, Copy, PartialEq, Eq)]
pub enum Route {
    Singleton,
    Pool { index: usize },
    /// A fresh instance, torn down after its answer.
    PerRequest,
}

/// The long-running instances of all agents.
#[derive(Debug)]
pub struct InstanceManager {
    states: TextMap<NodeState>,
}

impl View for InstanceManager {
    type V = Map<Seq<char>, NodeState>;

    closed spec fn view(&self) -> Map<Seq<char>, NodeState> {
        self.states@
    }
}

/// The state that an agent starts with; none for one without long-running
/// instances.
pub open spec fn initial_state(spawn: SpawnPolicy) -> Option<NodeState> {
    match spawn {
        SpawnPolicy::Singleton { max_queue } => Some(NodeState::Singleton { pending: 0, max_queue }),
        SpawnPolicy::Pool { size } => Some(NodeState::Pool { size, cursor: 0 }),
        SpawnPolicy::PerRequest => None,
    }
}

/// The cursor after one more task.
pub open spec fn advanced(cursor: usize) -> usize {
    if cursor == usize::MAX {
        0
    } else {
        (cursor + 1) as usize
    }
}

/// Whether a singleton takes no more tasks.
pub open spec fn is_full(s: NodeState) -> bool {
    s matches NodeState::Singleton { pending, max_queue: Some(max) } && pending >= max
}

/// The instance that takes the next task, and the state after it.
pub open spec fn routed(s: Option<NodeState>) -> (Route, Option<NodeState>) {
    match s {
        None => (Route::PerRequest, None),
        Some(NodeState::Singleton { pending, max_queue }) => (
            Route::Singleton,
            Some(NodeState::Singleton { pending: (pending + 1) as usize, max_queue }),
        ),
        Some(NodeState::Pool { size, cursor }) => (
            Route::Pool { index: (cursor as int % size as int) as usize },
            Some(NodeState::Pool { size, cursor: advanced(cursor) }),
        ),
    }
}

/// The state of an agent.
pub open spec fn state_of(m: Map<Seq<char>, NodeState>, name: Seq<char>) -> Option<NodeState> {
    if m.dom().contains(name) {
        Some(m[name])
    } else {
        None
    }
}

/// The states with a new one for one agent, where there is a new one.
pub open spec fn with_state(
    m: Map<Seq<char>, NodeState>,
    name: Seq<char>,
    s: Option<NodeState>,
) -> Map<Seq<char>, NodeState> {
    match s {
        Some(x) => m.insert(name, x),
        None => m,
    }
}

/// The error for a full queue.
pub open spec fn queue_full(name: Seq<char>, max: usize) -> ErrorView {
    ErrorView::WorkflowError {
        message: "singleton '"@ + name + "' queue full (max "@ + text::decimal_text(max as nat)
            + ")"@,
    }
}

impl InstanceManager {
    /// A manager without long-running instances.
    pub fn new() -> (r: InstanceManager)
        ensures
            r@ == Map::<Seq<char>, NodeState>::empty(),
    {
        InstanceManager { states: TextMap::new() }
    }

    /// How many long-running instances an agent has.
    pub fn instances_needed(node: &AgentNode) -> (r: usize)
        ensures
            r == (match node.spawn {
                SpawnPolicy::Singleton { .. } => 1usize,
                SpawnPolicy::Pool { size } => size,
                SpawnPolicy::PerRequest => 0usize,
            }),
    {
        match node.spawn {
            SpawnPolicy::Singleton { .. } => 1,
            SpawnPolicy::Pool { size } => size,
            SpawnPolicy::PerRequest => 0,
        }
    }

    /// Enter the long-running instances of an agent.
    pub fn initialize(&mut self, node: &AgentNode)
        ensures
            final(self)@ == with_state(old(self)@, node.name@, initial_state(node.spawn)),
    {
        match node.spawn {
            SpawnPolicy::Singleton { max_queue } => {
                self.states.insert(node.name.clone(), NodeState::Singleton { pending: 0, max_queue });
            },
            SpawnPolicy::Pool { size } => {
                self.states.insert(node.name.clone(), NodeState::Pool { size, cursor: 0 });
            },
            SpawnPolicy::PerRequest => {},
        }
    }

    fn state(&self, name: &str) -> (r: Option<NodeState>)
        ensures
            r == state_of(self@, name@),
    {
        match self.states.get(name) {
            Some(s) => Some(*s),
            None => None,
        }
    }

    /// Choose the instance for a task. A singleton with a full queue takes none.
    pub fn route(&mut self, name: &str) -> (r: Result<Route, AetherError>)
        requires
            state_of(old(self)@, name@) matches Some(NodeState::Pool { size, .. }) ==> size > 0,
            state_of(old(self)@, name@) matches Some(NodeState::Singleton { pending, .. }) ==> pending
                < usize::MAX,
        ensures
            ({
                let s = state_of(old(self)@, name@);
                if s is Some && is_full(s->0) {
                    &&& r matches Err(e) && e@ == queue_full(name@, s->0->max_queue->0)
                    &&& final(self)@ == old(self)@
                } else {
                    &&& r matches Ok(route) && route == routed(s).0
                    &&& final(self)@ == with_state(old(self)@, name@, routed(s).1)
                }
            }),
    {
        match self.state(name) {
            None => Ok(Route::PerRequest),
            Some(NodeState::Singleton { pending, max_queue }) => {
                if let Some(max) = max_queue {
                    if pending >= max {
                        let mut message = text::cat("singleton '", name);
                        message.append("' queue full (max ");
                        message.append(text::decimal(max as u64).as_str());
                        message.append(")");
                        return Err(AetherError::WorkflowError { message });
                    }
                }
                self.states.insert(
                    name.to_string(),
                    NodeState::Singleton { pending: pending + 1, max_queue },
                );
                Ok(Route::Singleton)
            },
            Some(NodeState::Pool { size, cursor }) => {
                let next: usize = if cursor == usize::MAX {
                    0
                } else {
                    cursor + 1
                };
                self.states.insert(name.to_string(), NodeState::Pool { size, cursor: next });
                Ok(Route::Pool { index: cursor % size })
            },
        }
    }

    /// Choose the instance for a decision: as for a task, but a decision does not
    /// queue.
    pub fn route_resume(&mut self, name: &str) -> (r: Route)
        requires
            state_of(old(self)@, name@) matches Some(NodeState::Pool { size, .. }) ==> size > 0,
        ensures
            r == routed(state_of(old(self)@, name@)).0,
            final(self)@ == (match state_of(old(self)@, name@) {
                Some(NodeState::Pool { .. }) => with_state(
                    old(self)@,
                    name@,
                    routed(state_of(old(self)@, name@)).1,
                ),
                _ => old(self)@,
            }),
    {
        match self.state(name) {
            None => Route::PerRequest,
            Some(NodeState::Singleton { .. }) => Route::Singleton,
            Some(NodeState::Pool { size, cursor }) => {
                let next: usize = if cursor == usize::MAX {
                    0
                } else {
                    cursor + 1
                };
                self.states.insert(name.to_string(), NodeState::Pool { size, cursor: next });
                Route::Pool { index: cursor % size }
            },
        }
    }

    /// A task of an agent has ended.
    pub fn settle(&mut self, name: &str)
        requires
            state_of(old(self)@, name@) matches Some(NodeState::Singleton { pending, .. }) ==> pending > 0,
        ensures
            final(self)@ == (match state_of(old(self)@, name@) {
                Some(NodeState::Singleton { pending, max_queue }) => old(self)@.insert(
                    name@,
                    NodeState::Singleton { pending: (pending - 1) as usize, max_queue },
                ),
                _ => old(self)@,
            }),
    {
        if let Some(NodeState::Singleton { pending, max_queue }) = self.state(name) {
            self.states.insert(
                name.to_string(),
                NodeState::Singleton { pending: pending - 1, max_queue },
            );
        }
    }

    /// What a call that may run out of time comes to; `None` is one that did.
    pub fn unwrap_timeout(result: Option<Result<Envelope, AetherError>>, node_name: &str) -> (r: Result<
        Envelope,
        AetherError,
    >)
        ensures
            supervisor::reply_view(r) == (match result {
                Some(reply) => supervisor::reply_view(reply),
                None => Err(ErrorView::AgentTimeout { node: node_name@ }),
            }),
    {
        match result {
            Some(reply) => reply,
            None => Err(AetherError::AgentTimeout { node: node_name.to_string() }),
        }
    }
}

/// Two tasks in a row go to neighbouring instances of a pool, the first instance
/// following the last.
pub proof fn law_pool_takes_turns(size: usize, cursor: usize)
    requires
        size > 0,
        cursor < usize::MAX,
    ensures
        ({
            let first = routed(Some(NodeState::Pool { size, cursor }));
            let second = routed(first.1);
            &&& first.0->index < size
            &&& second.0->index == (if first.0->index + 1 == size {
                0
            } else {
                first.0->index + 1
            })
        }),
{
    let c = cursor as int;
    let n = size as int;
    vstd::arithmetic::div_mod::lemma_add_mod_noop(c, 1, n);
    vstd::arithmetic::div_mod::lemma_mod_bound(c, n);
    if c % n + 1 == n {
        vstd::arithmetic::div_mod::lemma_mod_self_0(n);
    } else {
        vstd::arithmetic::div_mod::lemma_small_mod((c % n + 1) as nat, n as nat);
    }
    if n == 1 {
        vstd::arithmetic::div_mod::lemma_mod_self_0(1);
    } else {
        vstd::arithmetic::div_mod::lemma_small_mod(1, n as nat);
    }
}

/// A singleton with a bounded queue never holds more tasks than its bound: a task
/// is taken only below the bound.
pub proof fn law_queue_stays_bounded(pending: usize, max: usize)
    requires
        pending <= max,
        !is_full(NodeState::Singleton { pending, max_queue: Some(max) }),
    ensures
        routed(Some(NodeState::Singleton { pending, max_queue: Some(max) })).1 matches Some(
            NodeState::Singleton { pending: p, max_queue: Some(m) },
        ) && p <= m && m == max,
{
}

} // verus!
