//! Executions: the rows that a run leaves behind, and what each operation does
//! to them.

use vstd::prelude::*;
use vstd::string::*;
use crate::error::{AetherError, ErrorView};
use crate::text;

verus! {

/// How an execution stands.
#[derive(Debug, Clone, Copy, PartialEq, Eq, Structural)]
pub enum ExecutionStatus {
    Running,
    Suspended,
    Succeeded,
    Failed,
}

impl ExecutionStatus {
    /// The word for the status.
    pub open spec fn label(self) -> Seq<char> {
        match self {
            ExecutionStatus::Running => "running"@,
            ExecutionStatus::Suspended => "suspended"@,
            ExecutionStatus::Succeeded => "succeeded"@,
            ExecutionStatus::Failed => "failed"@,
        }
    }

    /// The status that a word stands for; a word that is none of the others
    /// stands for a running execution.
    pub open spec fn of_label(s: Seq<char>) -> ExecutionStatus {
        if s == "suspended"@ {
            ExecutionStatus::Suspended
        } else if s == "succeeded"@ {
            ExecutionStatus::Succeeded
        } else if s == "failed"@ {
            ExecutionStatus::Failed
        } else {
            ExecutionStatus::Running
        }
    }

    /// The word for the status.
    pub fn as_str(&self) -> (r: &'static str)
        ensures
            r@ == self.label(),
    {
        match self {
            ExecutionStatus::Running => "running",
            ExecutionStatus::Suspended => "suspended",
            ExecutionStatus::Succeeded => "succeeded",
            ExecutionStatus::Failed => "failed",
        }
    }

    /// The status that a word stands for.
    pub fn parse(s: &str) -> (r: ExecutionStatus)
        ensures
            r == ExecutionStatus::of_label(s@),
    {
        if text::same(s, "suspended") {
            ExecutionStatus::Suspended
        } else if text::same(s, "succeeded") {
            ExecutionStatus::Succeeded
        } else if text::same(s, "failed") {
            ExecutionStatus::Failed
        } else {
            ExecutionStatus::Running
        }
    }
}

/// How a node of an execution stands.
#[derive(Debug, Clone, Copy, PartialEq, Eq, Structural)]
pub enum NodeStatus {
    Pending,
    Running,
    Done,
    Suspended,
    Failed,
}

impl NodeStatus {
    /// The word for the status.
    pub open spec fn label(self) -> Seq<char> {
        match self {
            NodeStatus::Pending => "pending"@,
            NodeStatus::Running => "running"@,
            NodeStatus::Done => "done"@,
            NodeStatus::Suspended => "suspended"@,
            NodeStatus::Failed => "failed"@,
        }
    }

    /// The status that a word stands for; a word that is none of the others
    /// stands for a pending node.
    pub open spec fn of_label(s: Seq<char>) -> NodeStatus {
        if s == "running"@ {
            NodeStatus::Running
        } else if s == "done"@ {
            NodeStatus::Done
        } else if s == "suspended"@ {
            NodeStatus::Suspended
        } else if s == "failed"@ {
            NodeStatus::Failed
        } else {
            NodeStatus::Pending
        }
    }

    /// The word for the status.
    pub fn as_str(&self) -> (r: &'static str)
        ensures
            r@ == self.label(),
    {
        match self {
            NodeStatus::Pending => "pending",
            NodeStatus::Running => "running",
            NodeStatus::Done => "done",
            NodeStatus::Suspended => "suspended",
            NodeStatus::Failed => "failed",
        }
    }

    /// The status that a word stands for.
    pub fn parse(s: &str) -> (r: NodeStatus)
        ensures
            r == NodeStatus::of_label(s@),
    {
        if text::same(s, "running") {
            NodeStatus::Running
        } else if text::same(s, "done") {
            NodeStatus::Done
        } else if text::same(s, "suspended") {
            NodeStatus::Suspended
        } else if text::same(s, "failed") {
            NodeStatus::Failed
        } else {
            NodeStatus::Pending
        }
    }
}

/// Reading the word for a status gives the status again, for executions and for
/// nodes.
pub proof fn law_status_words(e: ExecutionStatus, n: NodeStatus)
    ensures
        ExecutionStatus::of_label(e.label()) == e,
        NodeStatus::of_label(n.label()) == n,
{
    reveal_strlit("pending");
    reveal_strlit("running");
    reveal_strlit("done");
    reveal_strlit("suspended");
    reveal_strlit("succeeded");
    reveal_strlit("failed");
    assert("pending"@[0] == 'p' && "running"@[0] == 'r' && "done"@[0] == 'd');
    assert("suspended"@[1] == 'u' && "succeeded"@[1] == 'u');
    assert("suspended"@[2] == 's' && "succeeded"@[2] == 'c');
    assert("suspended"@[0] == 's' && "succeeded"@[0] == 's' && "failed"@[0] == 'f');
}

/// An execution, as it is read back.
#[derive(Debug, PartialEq, Eq)]
pub struct ExecutionRecord {
    pub workflow_id: String,
    pub status: ExecutionStatus,
    pub workflow_spec: String,
    pub initial_payload: String,
    pub result: Option<String>,
    pub error: Option<String>,
    pub created_at: String,
    pub updated_at: String,
}

/// An `ExecutionRecord` as a mathematical value.
pub struct ExecutionView {
    pub workflow_id: Seq<char>,
    pub status: ExecutionStatus,
    pub workflow_spec: Seq<char>,
    pub initial_payload: Seq<char>,
    pub result: Option<Seq<char>>,
    pub error: Option<Seq<char>>,
    pub created_at: Seq<char>,
    pub updated_at: Seq<char>,
}

impl View for ExecutionRecord {
    type V = ExecutionView;

    open spec fn view(&self) -> ExecutionView {
        ExecutionView {
            workflow_id: self.workflow_id@,
            status: self.status,
            workflow_spec: self.workflow_spec@,
            initial_payload: self.initial_payload@,
            result: text::opt(self.result),
            error: text::opt(self.error),
            created_at: self.created_at@,
            updated_at: self.updated_at@,
        }
    }
}

impl Clone for ExecutionRecord {
    fn clone(&self) -> (r: ExecutionRecord)
        ensures
            r@ == self@,
    {
        ExecutionRecord {
            workflow_id: self.workflow_id.clone(),
            status: self.status,
            workflow_spec: self.workflow_spec.clone(),
            initial_payload: self.initial_payload.clone(),
            result: self.result.clone(),
            error: self.error.clone(),
            created_at: self.created_at.clone(),
            updated_at: self.updated_at.clone(),
        }
    }
}

/// An execution with the driver that holds it and the end of that hold.
#[derive(Debug, PartialEq, Eq)]
pub struct ExecutionRow {
    pub record: ExecutionRecord,
    pub claimed_by: Option<String>,
    pub lease_expires_at: Option<String>,
}

/// An `ExecutionRow` as a mathematical value.
pub struct RowView {
    pub record: ExecutionView,
    pub claimed_by: Option<Seq<char>>,
    pub lease_expires_at: Option<Seq<char>>,
}

impl View for ExecutionRow {
    type V = RowView;

    open spec fn view(&self) -> RowView {
        RowView {
            record: self.record@,
            claimed_by: text::opt(self.claimed_by),
            lease_expires_at: text::opt(self.lease_expires_at),
        }
    }
}

/// A node of an execution.
#[derive(Debug, PartialEq, Eq)]
pub struct ExecutionNodeRecord {
    pub workflow_id: String,
    pub node_id: String,
    pub status: NodeStatus,
    pub output: Option<String>,
    pub session_id: Option<String>,
    pub approval_id: Option<String>,
    pub kind: Option<String>,
    pub prompt: Option<String>,
    pub gate_deadline: Option<String>,
    pub updated_at: String,
}

/// An `ExecutionNodeRecord` as a mathematical value.
pub struct NodeView {
    pub workflow_id: Seq<char>,
    pub node_id: Seq<char>,
    pub status: NodeStatus,
    pub output: Option<Seq<char>>,
    pub session_id: Option<Seq<char>>,
    pub approval_id: Option<Seq<char>>,
    pub kind: Option<Seq<char>>,
    pub prompt: Option<Seq<char>>,
    pub gate_deadline: Option<Seq<char>>,
    pub updated_at: Seq<char>,
}

impl View for ExecutionNodeRecord {
    type V = NodeView;

    open spec fn view(&self) -> NodeView {
        NodeView {
            workflow_id: self.workflow_id@,
            node_id: self.node_id@,
            status: self.status,
            output: text::opt(self.output),
            session_id: text::opt(self.session_id),
            approval_id: text::opt(self.approval_id),
            kind: text::opt(self.kind),
            prompt: text::opt(self.prompt),
            gate_deadline: text::opt(self.gate_deadline),
            updated_at: self.updated_at@,
        }
    }
}

impl Clone for ExecutionNodeRecord {
    fn clone(&self) -> (r: ExecutionNodeRecord)
        ensures
            r@ == self@,
    {
        ExecutionNodeRecord {
            workflow_id: self.workflow_id.clone(),
            node_id: self.node_id.clone(),
            status: self.status,
            output: self.output.clone(),
            session_id: self.session_id.clone(),
            approval_id: self.approval_id.clone(),
            kind: self.kind.clone(),
            prompt: self.prompt.clone(),
            gate_deadline: self.gate_deadline.clone(),
            updated_at: self.updated_at.clone(),
        }
    }
}

/// A `WorkflowError` that carries the words of a failed write.
pub fn store_err(message: String) -> (r: AetherError)
    ensures
        r@ == (ErrorView::WorkflowError { message: message@ }),
{
    AetherError::WorkflowError { message }
}

/// The rows of all executions and of their nodes.
#[derive(Debug, PartialEq, Eq)]
pub struct ExecutionStore {
    pub executions: Vec<ExecutionRow>,
    pub nodes: Vec<ExecutionNodeRecord>,
}

/// An `ExecutionStore` as a mathematical value.
#[verifier::ext_equal]
pub struct StoreView {
    pub executions: Seq<RowView>,
    pub nodes: Seq<NodeView>,
}

/// The views of a sequence of rows.
pub open spec fn row_views(s: Seq<ExecutionRow>) -> Seq<RowView> {
    Seq::new(s.len(), |i: int| s[i]@)
}

/// The views of a sequence of nodes.
pub open spec fn node_views(s: Seq<ExecutionNodeRecord>) -> Seq<NodeView> {
    Seq::new(s.len(), |i: int| s[i]@)
}

/// The views of a sequence of executions.
pub open spec fn record_views(s: Seq<ExecutionRecord>) -> Seq<ExecutionView> {
    Seq::new(s.len(), |i: int| s[i]@)
}

impl View for ExecutionStore {
    type V = StoreView;

    open spec fn view(&self) -> StoreView {
        StoreView { executions: row_views(self.executions@), nodes: node_views(self.nodes@) }
    }
}

/// The first member of `s` of which `p` holds.
pub open spec fn first<A>(s: Seq<A>, p: spec_fn(A) -> bool) -> Option<A>
    decreases s.len(),
{
    if s.len() == 0 {
        None
    } else if p(s[0]) {
        Some(s[0])
    } else {
        first(s.drop_first(), p)
    }
}

impl NodeView {
    /// Whether this is the node `id` of the execution `w`.
    pub open spec fn is(self, w: Seq<char>, id: Seq<char>) -> bool {
        self.workflow_id == w && self.node_id == id
    }

    /// A node that waits for its turn.
    pub open spec fn pending(w: Seq<char>, id: Seq<char>, now: Seq<char>) -> NodeView {
        NodeView {
            workflow_id: w,
            node_id: id,
            status: NodeStatus::Pending,
            output: None,
            session_id: None,
            approval_id: None,
            kind: None,
            prompt: None,
            gate_deadline: None,
            updated_at: now,
        }
    }

    /// The node after it was handed to its agent.
    pub open spec fn started(self, now: Seq<char>) -> NodeView {
        NodeView { status: NodeStatus::Running, updated_at: now, ..self }
    }

    /// The node after its agent has answered.
    pub open spec fn completed(self, output: Seq<char>, now: Seq<char>) -> NodeView {
        NodeView {
            workflow_id: self.workflow_id,
            node_id: self.node_id,
            status: NodeStatus::Done,
            output: Some(output),
            session_id: None,
            approval_id: None,
            kind: None,
            prompt: None,
            gate_deadline: None,
            updated_at: now,
        }
    }

    /// The node after its agent has asked for a decision.
    pub open spec fn parked(
        self,
        session_id: Seq<char>,
        approval_id: Seq<char>,
        kind: Seq<char>,
        prompt: Seq<char>,
        gate_deadline: Option<Seq<char>>,
        now: Seq<char>,
    ) -> NodeView {
        NodeView {
            status: NodeStatus::Suspended,
            session_id: Some(session_id),
            approval_id: Some(approval_id),
            kind: Some(kind),
            prompt: Some(prompt),
            gate_deadline,
            updated_at: now,
            ..self
        }
    }

    /// Whether the node is parked behind a gate whose deadline lies before `now`.
    pub open spec fn overdue(self, now: Seq<char>) -> bool {
        &&& self.status == NodeStatus::Suspended
        &&& self.gate_deadline matches Some(d) && text::lex_lt(d, now)
    }
}

impl StoreView {
    /// Whether there is an execution `w`.
    pub open spec fn has(self, w: Seq<char>) -> bool {
        exists|i: int|
            0 <= i < self.executions.len() && (#[trigger] self.executions[i]).record.workflow_id
                == w
    }

    /// The execution `w`.
    pub open spec fn row(self, w: Seq<char>) -> Option<RowView> {
        first(self.executions, |r: RowView| r.record.workflow_id == w)
    }

    /// The nodes of the execution `w`.
    pub open spec fn nodes_of(self, w: Seq<char>) -> Seq<NodeView> {
        self.nodes.filter(|n: NodeView| n.workflow_id == w)
    }

    /// The store with a new execution, every node of which is pending.
    pub open spec fn created(
        self,
        w: Seq<char>,
        spec_text: Seq<char>,
        payload: Seq<char>,
        ids: Seq<Seq<char>>,
        now: Seq<char>,
    ) -> StoreView {
        StoreView {
            executions: self.executions.push(
                RowView {
                    record: ExecutionView {
                        workflow_id: w,
                        status: ExecutionStatus::Running,
                        workflow_spec: spec_text,
                        initial_payload: payload,
                        result: None,
                        error: None,
                        created_at: now,
                        updated_at: now,
                    },
                    claimed_by: None,
                    lease_expires_at: None,
                },
            ),
            nodes: self.nodes + Seq::new(ids.len(), |i: int| NodeView::pending(w, ids[i], now)),
        }
    }

    /// The store with `f` applied to the node `id` of the execution `w`.
    pub open spec fn with_node(
        self,
        w: Seq<char>,
        id: Seq<char>,
        f: spec_fn(NodeView) -> NodeView,
    ) -> StoreView {
        StoreView {
            executions: self.executions,
            nodes: Seq::new(
                self.nodes.len(),
                |i: int|
                    if self.nodes[i].is(w, id) {
                        f(self.nodes[i])
                    } else {
                        self.nodes[i]
                    },
            ),
        }
    }

    /// The store with `f` applied to the execution `w`.
    pub open spec fn with_row(self, w: Seq<char>, f: spec_fn(RowView) -> RowView) -> StoreView {
        StoreView {
            executions: Seq::new(
                self.executions.len(),
                |i: int|
                    if self.executions[i].record.workflow_id == w {
                        f(self.executions[i])
                    } else {
                        self.executions[i]
                    },
            ),
            nodes: self.nodes,
        }
    }

    /// See `ExecutionStore::mark_node_running`.
    pub open spec fn started(self, w: Seq<char>, id: Seq<char>, now: Seq<char>) -> StoreView {
        self.with_node(w, id, |n: NodeView| n.started(now))
    }

    /// See `ExecutionStore::complete_node`.
    pub open spec fn completed(
        self,
        w: Seq<char>,
        id: Seq<char>,
        output: Seq<char>,
        now: Seq<char>,
    ) -> StoreView {
        self.with_node(w, id, |n: NodeView| n.completed(output, now))
    }

    /// See `ExecutionStore::park_node`.
    pub open spec fn parked(
        self,
        w: Seq<char>,
        id: Seq<char>,
        session_id: Seq<char>,
        approval_id: Seq<char>,
        kind: Seq<char>,
        prompt: Seq<char>,
        gate_deadline: Option<Seq<char>>,
        now: Seq<char>,
    ) -> StoreView {
        self.with_node(
            w,
            id,
            |n: NodeView| n.parked(session_id, approval_id, kind, prompt, gate_deadline, now),
        )
    }

    /// The records of all executions.
    pub open spec fn records(self) -> Seq<ExecutionView> {
        Seq::new(self.executions.len(), |i: int| self.executions[i].record)
    }

    /// The executions that run or are suspended.
    pub open spec fn active(self) -> Seq<ExecutionView> {
        self.records().filter(
            |e: ExecutionView|
                e.status == ExecutionStatus::Running || e.status == ExecutionStatus::Suspended,
        )
    }

    /// The overdue nodes, each with its execution.
    pub open spec fn overdue_pairs(self, now: Seq<char>) -> Seq<(Seq<char>, Seq<char>)> {
        pairs(self.nodes.filter(|n: NodeView| n.overdue(now)))
    }

    /// See `ExecutionStore::finish_execution`.
    pub open spec fn finished(
        self,
        w: Seq<char>,
        status: ExecutionStatus,
        result: Option<Seq<char>>,
        error: Option<Seq<char>>,
        now: Seq<char>,
    ) -> StoreView {
        self.with_row(
            w,
            |r: RowView|
                RowView {
                    record: ExecutionView { status, result, error, updated_at: now, ..r.record },
                    ..r
                },
        )
    }

    /// Whether some parked node of the execution `w` is overdue.
    pub open spec fn has_overdue(self, w: Seq<char>, now: Seq<char>) -> bool {
        exists|i: int|
            0 <= i < self.nodes.len() && (#[trigger] self.nodes[i]).workflow_id == w
                && self.nodes[i].overdue(now)
    }

    /// See `ExecutionStore::expire_gates`.
    pub open spec fn expired(self, now: Seq<char>) -> StoreView {
        StoreView {
            executions: Seq::new(
                self.executions.len(),
                |i: int|
                    if self.has_overdue(self.executions[i].record.workflow_id, now) {
                        RowView {
                            record: ExecutionView {
                                status: ExecutionStatus::Failed,
                                error: Some("gate deadline expired"@),
                                updated_at: now,
                                ..self.executions[i].record
                            },
                            ..self.executions[i]
                        }
                    } else {
                        self.executions[i]
                    },
            ),
            nodes: Seq::new(
                self.nodes.len(),
                |i: int|
                    if self.nodes[i].overdue(now) {
                        NodeView {
                            status: NodeStatus::Failed,
                            updated_at: now,
                            ..self.nodes[i]
                        }
                    } else {
                        self.nodes[i]
                    },
            ),
        }
    }

    /// Whether `driver` may take the execution `w` at `now`: it exists, and no
    /// one holds it, or `driver` does, or the hold has ended.
    pub open spec fn claimable(self, w: Seq<char>, driver: Seq<char>, now: Seq<char>) -> bool {
        self.row(w) matches Some(r) && {
            ||| r.claimed_by is None
            ||| r.claimed_by == Some(driver)
            ||| r.lease_expires_at matches Some(t) && text::lex_lt(t, now)
        }
    }

    /// The store with the execution `w` held by `driver` until `until`.
    pub open spec fn claimed(self, w: Seq<char>, driver: Seq<char>, until: Seq<char>) -> StoreView {
        self.with_row(
            w,
            |r: RowView|
                RowView { claimed_by: Some(driver), lease_expires_at: Some(until), ..r },
        )
    }

    /// See `ExecutionStore::renew_lease`.
    pub open spec fn renewed(self, w: Seq<char>, driver: Seq<char>, until: Seq<char>) -> StoreView {
        self.with_row(
            w,
            |r: RowView|
                if r.claimed_by == Some(driver) {
                    RowView { lease_expires_at: Some(until), ..r }
                } else {
                    r
                },
        )
    }

    /// See `ExecutionStore::release_execution`.
    pub open spec fn released(self, w: Seq<char>, driver: Seq<char>) -> StoreView {
        self.with_row(
            w,
            |r: RowView|
                if r.claimed_by == Some(driver) {
                    RowView { claimed_by: None, lease_expires_at: None, ..r }
                } else {
                    r
                },
        )
    }

    /// No two executions share an id, and no two nodes of one execution.
    pub open spec fn keyed(self) -> bool {
        &&& forall|i: int, j: int|
            0 <= i < j < self.executions.len() ==> (#[trigger] self.executions[i]).record.workflow_id
                != (#[trigger] self.executions[j]).record.workflow_id
        &&& forall|i: int, j: int|
            0 <= i < j < self.nodes.len() ==> !((#[trigger] self.nodes[i]).workflow_id == (
            #[trigger] self.nodes[j]).workflow_id && self.nodes[i].node_id
                == self.nodes[j].node_id)
    }
}

/// The first match in a sequence whose first `n` members do not match.
pub proof fn lemma_first_at<A>(s: Seq<A>, p: spec_fn(A) -> bool, n: int)
    requires
        0 <= n <= s.len(),
        forall|i: int| 0 <= i < n ==> !p(#[trigger] s[i]),
    ensures
        n < s.len() && p(s[n]) ==> first(s, p) == Some(s[n]),
        n == s.len() ==> first(s, p) is None,
    decreases n,
{
    if n > 0 {
        assert(!p(s[0]));
        let t = s.drop_first();
        assert forall|i: int| 0 <= i < n - 1 implies !p(#[trigger] t[i]) by {
            assert(t[i] == s[i + 1]);
        }
        lemma_first_at(t, p, n - 1);
        if n < s.len() {
            assert(t[n - 1] == s[n]);
        }
    }
}

/// An update of the execution `w` changes no other, and that one as it says.
pub proof fn lemma_row_with_row(v: StoreView, w: Seq<char>, other: Seq<char>, f: spec_fn(RowView) -> RowView)
    requires
        forall|r: RowView| (#[trigger] f(r)).record.workflow_id == r.record.workflow_id,
    ensures
        v.with_row(w, f).row(other) == (if other == w {
            match v.row(w) {
                Some(r) => Some(f(r)),
                None => None,
            }
        } else {
            v.row(other)
        }),
        v.with_row(w, f).nodes_of(other) == v.nodes_of(other),
    decreases v.executions.len(),
{
    let u = v.with_row(w, f);
    let p = |r: RowView| r.record.workflow_id == other;
    if v.executions.len() > 0 {
        let v1 = StoreView { executions: v.executions.drop_first(), nodes: v.nodes };
        lemma_row_with_row(v1, w, other, f);
        assert(v1.with_row(w, f).executions =~= u.executions.drop_first());
        assert(u.executions[0].record.workflow_id == v.executions[0].record.workflow_id);
        assert(u.row(other) == if p(u.executions[0]) {
            Some(u.executions[0])
        } else {
            v1.with_row(w, f).row(other)
        });
    }
}

impl ExecutionStore {
    /// A store without executions.
    pub fn new() -> (r: ExecutionStore)
        ensures
            r@ == (StoreView { executions: Seq::empty(), nodes: Seq::empty() }),
            r@.keyed(),
    {
        let r = ExecutionStore { executions: Vec::new(), nodes: Vec::new() };
        assert(r@ =~= StoreView { executions: Seq::empty(), nodes: Seq::empty() });
        r
    }

    fn position(&self, workflow_id: &str) -> (r: Option<usize>)
        ensures
            match r {
                Some(i) => i < self.executions@.len() && self@.row(workflow_id@) == Some(
                    self.executions@[i as int]@,
                ) && self.executions@[i as int].record.workflow_id@ == workflow_id@
                    && self@.has(workflow_id@),
                None => self@.row(workflow_id@) is None && !self@.has(workflow_id@),
            },
    {
        let ghost p = |r: RowView| r.record.workflow_id == workflow_id@;
        let mut i: usize = 0;
        while i < self.executions.len()
            invariant
                i <= self.executions@.len(),
                p == (|r: RowView| r.record.workflow_id == workflow_id@),
                forall|j: int| 0 <= j < i ==> !p(#[trigger] self@.executions[j]),
            decreases self.executions@.len() - i,
        {
            assert(self@.executions[i as int] == self.executions@[i as int]@);
            if text::same(self.executions[i].record.workflow_id.as_str(), workflow_id) {
                proof {
                    lemma_first_at(self@.executions, p, i as int);
                }
                return Some(i);
            }
            i += 1;
        }
        proof {
            lemma_first_at(self@.executions, p, i as int);
        }
        None
    }

    /// Enter a new execution with one pending row per node. Refused, with nothing
    /// entered, where the execution is there already or a node is named twice.
    pub fn create_execution(
        &mut self,
        workflow_id: &str,
        workflow_spec: &str,
        initial_payload: &str,
        node_ids: &Vec<String>,
        now: &str,
    ) -> (r: Result<(), AetherError>)
        ensures
            r is Ok <==> !old(self)@.has(workflow_id@) && text::strs(node_ids@).no_duplicates(),
            r is Ok ==> final(self)@ == old(self)@.created(
                workflow_id@,
                workflow_spec@,
                initial_payload@,
                text::strs(node_ids@),
                now@,
            ),
            r is Err ==> final(self)@ == old(self)@,
            r matches Err(e) ==> e@ == (ErrorView::WorkflowError {
                message: if old(self)@.has(workflow_id@) {
                    "UNIQUE constraint failed: executions.workflow_id"@
                } else {
                    "UNIQUE constraint failed: execution_nodes.workflow_id, execution_nodes.node_id"@
                },
            }),
    {
        if self.position(workflow_id).is_some() {
            return Err(store_err("UNIQUE constraint failed: executions.workflow_id".to_string()));
        }
        let ghost ids = text::strs(node_ids@);
        let mut i: usize = 0;
        while i < node_ids.len()
            invariant
                i <= node_ids@.len(),
                ids == text::strs(node_ids@),
                !old(self)@.has(workflow_id@),
                forall|a: int, b: int| 0 <= a < b < ids.len() && a < i ==> ids[a] != ids[b],
            decreases node_ids@.len() - i,
        {
            let mut j: usize = i + 1;
            while j < node_ids.len()
                invariant
                    i < j <= node_ids@.len(),
                    ids == text::strs(node_ids@),
                    !old(self)@.has(workflow_id@),
                    forall|b: int| i < b < j ==> ids[i as int] != ids[b],
                decreases node_ids@.len() - j,
            {
                if text::same(node_ids[i].as_str(), node_ids[j].as_str()) {
                    assert(ids[i as int] == ids[j as int]);
                    return Err(
                        store_err(
                            "UNIQUE constraint failed: execution_nodes.workflow_id, execution_nodes.node_id".to_string(),
                        ),
                    );
                }
                j += 1;
            }
            i += 1;
        }
        self.executions.push(
            ExecutionRow {
                record: ExecutionRecord {
                    workflow_id: workflow_id.to_string(),
                    status: ExecutionStatus::Running,
                    workflow_spec: workflow_spec.to_string(),
                    initial_payload: initial_payload.to_string(),
                    result: None,
                    error: None,
                    created_at: now.to_string(),
                    updated_at: now.to_string(),
                },
                claimed_by: None,
                lease_expires_at: None,
            },
        );
        let ghost fresh = Seq::new(
            ids.len(),
            |i: int| NodeView::pending(workflow_id@, ids[i], now@),
        );
        let mut k: usize = 0;
        assert(node_views(self.nodes@) =~= old(self)@.nodes + fresh.take(0));
        while k < node_ids.len()
            invariant
                k <= node_ids@.len(),
                ids == text::strs(node_ids@),
                fresh == Seq::new(ids.len(), |i: int| NodeView::pending(workflow_id@, ids[i], now@)),
                node_views(self.nodes@) == old(self)@.nodes + fresh.take(k as int),
                row_views(self.executions@) == old(self)@.created(
                    workflow_id@,
                    workflow_spec@,
                    initial_payload@,
                    ids,
                    now@,
                ).executions,
            decreases node_ids@.len() - k,
        {
            let ghost prior = node_views(self.nodes@);
            self.nodes.push(
                ExecutionNodeRecord {
                    workflow_id: workflow_id.to_string(),
                    node_id: node_ids[k].clone(),
                    status: NodeStatus::Pending,
                    output: None,
                    session_id: None,
                    approval_id: None,
                    kind: None,
                    prompt: None,
                    gate_deadline: None,
                    updated_at: now.to_string(),
                },
            );
            assert(node_views(self.nodes@) =~= prior.push(fresh[k as int]));
            assert(old(self)@.nodes + fresh.take(k + 1) =~= (old(self)@.nodes + fresh.take(k as int)).push(fresh[k as int]));
            k += 1;
        }
        assert(fresh.take(fresh.len() as int) =~= fresh);
        Ok(())
    }

    /// A node was handed to its agent.
    pub fn mark_node_running(&mut self, workflow_id: &str, node_id: &str, now: &str)
        ensures
            final(self)@ == old(self)@.started(workflow_id@, node_id@, now@),
    {
        let ghost before = *self;
        let ghost after = old(self)@.started(workflow_id@, node_id@, now@);
        let mut i: usize = 0;
        while i < self.nodes.len()
            invariant
                i <= self.nodes@.len(),
                self.nodes@.len() == before.nodes@.len(),
                after == before@.started(workflow_id@, node_id@, now@),
                self.executions@ == before.executions@,
                forall|j: int| 0 <= j < i ==> (#[trigger] self.nodes@[j])@ == after.nodes[j],
                forall|j: int| i <= j < self.nodes@.len() ==> (#[trigger] self.nodes@[j])@ == before@.nodes[j],
            decreases self.nodes@.len() - i,
        {
            if text::same(self.nodes[i].workflow_id.as_str(), workflow_id) && text::same(
                self.nodes[i].node_id.as_str(),
                node_id,
            ) {
                let row = ExecutionNodeRecord {
                    status: NodeStatus::Running,
                    updated_at: now.to_string(),
                    ..self.nodes[i].clone()
                };
                self.nodes.set(i, row);
            }
            i += 1;
        }
        assert(self@ =~= after);
    }

    /// A node has its answer. Whatever tied it to a decision is cleared.
    pub fn complete_node(&mut self, workflow_id: &str, node_id: &str, output_json: &str, now: &str)
        ensures
            final(self)@ == old(self)@.completed(workflow_id@, node_id@, output_json@, now@),
    {
        let ghost before = *self;
        let ghost after = old(self)@.completed(workflow_id@, node_id@, output_json@, now@);
        let mut i: usize = 0;
        while i < self.nodes.len()
            invariant
                i <= self.nodes@.len(),
                self.nodes@.len() == before.nodes@.len(),
                after == before@.completed(workflow_id@, node_id@, output_json@, now@),
                self.executions@ == before.executions@,
                forall|j: int| 0 <= j < i ==> (#[trigger] self.nodes@[j])@ == after.nodes[j],
                forall|j: int| i <= j < self.nodes@.len() ==> (#[trigger] self.nodes@[j])@ == before@.nodes[j],
            decreases self.nodes@.len() - i,
        {
            if text::same(self.nodes[i].workflow_id.as_str(), workflow_id) && text::same(
                self.nodes[i].node_id.as_str(),
                node_id,
            ) {
                let row = ExecutionNodeRecord {
                    workflow_id: self.nodes[i].workflow_id.clone(),
                    node_id: self.nodes[i].node_id.clone(),
                    status: NodeStatus::Done,
                    output: Some(output_json.to_string()),
                    session_id: None,
                    approval_id: None,
                    kind: None,
                    prompt: None,
                    gate_deadline: None,
                    updated_at: now.to_string(),
                };
                self.nodes.set(i, row);
            }
            i += 1;
        }
        assert(self@ =~= after);
    }

    /// A node waits for a decision.
    pub fn park_node(
        &mut self,
        workflow_id: &str,
        node_id: &str,
        session_id: &str,
        approval_id: &str,
        kind: &str,
        prompt: &str,
        gate_deadline: &Option<String>,
        now: &str,
    )
        ensures
            final(self)@ == old(self)@.parked(
                workflow_id@,
                node_id@,
                session_id@,
                approval_id@,
                kind@,
                prompt@,
                text::opt(*gate_deadline),
                now@,
            ),
    {
        let ghost before = *self;
        let ghost after = self@.parked(
            workflow_id@,
            node_id@,
            session_id@,
            approval_id@,
            kind@,
            prompt@,
            text::opt(*gate_deadline),
            now@,
        );
        let mut i: usize = 0;
        while i < self.nodes.len()
            invariant
                i <= self.nodes@.len(),
                self.nodes@.len() == before.nodes@.len(),
                after == before@.parked(
                    workflow_id@,
                    node_id@,
                    session_id@,
                    approval_id@,
                    kind@,
                    prompt@,
                    text::opt(*gate_deadline),
                    now@,
                ),
                self.executions@ == before.executions@,
                forall|j: int| 0 <= j < i ==> (#[trigger] self.nodes@[j])@ == after.nodes[j],
                forall|j: int| i <= j < self.nodes@.len() ==> (#[trigger] self.nodes@[j])@ == before@.nodes[j],
            decreases self.nodes@.len() - i,
        {
            if text::same(self.nodes[i].workflow_id.as_str(), workflow_id) && text::same(
                self.nodes[i].node_id.as_str(),
                node_id,
            ) {
                let row = ExecutionNodeRecord {
                    workflow_id: self.nodes[i].workflow_id.clone(),
                    node_id: self.nodes[i].node_id.clone(),
                    status: NodeStatus::Suspended,
                    output: self.nodes[i].output.clone(),
                    session_id: Some(session_id.to_string()),
                    approval_id: Some(approval_id.to_string()),
                    kind: Some(kind.to_string()),
                    prompt: Some(prompt.to_string()),
                    gate_deadline: gate_deadline.clone(),
                    updated_at: now.to_string(),
                };
                self.nodes.set(i, row);
            }
            i += 1;
        }
        assert(self@ =~= after);
    }

    /// An execution has come to stand in a new way.
    pub fn finish_execution(&mut self, workflow_id: &str, status: ExecutionStatus, result: &Option<String>, error: &Option<String>, now: &str)
        ensures
            final(self)@ == old(self)@.finished(workflow_id@, status, text::opt(*result), text::opt(*error), now@),
    {
        let ghost before = *self;
        let ghost after = old(self)@.finished(workflow_id@, status, text::opt(*result), text::opt(*error), now@);
        let mut i: usize = 0;
        while i < self.executions.len()
            invariant
                i <= self.executions@.len(),
                self.executions@.len() == before.executions@.len(),
                after == before@.finished(workflow_id@, status, text::opt(*result), text::opt(*error), now@),
                self.nodes@ == before.nodes@,
                forall|j: int| 0 <= j < i ==> (#[trigger] self.executions@[j])@ == after.executions[j],
                forall|j: int|
                    i <= j < self.executions@.len() ==> (#[trigger] self.executions@[j])@
                        == before@.executions[j],
            decreases self.executions@.len() - i,
        {
            if text::same(self.executions[i].record.workflow_id.as_str(), workflow_id) {
                let row = ExecutionRow {
                    record: ExecutionRecord {
                        workflow_id: self.executions[i].record.workflow_id.clone(),
                        status,
                        workflow_spec: self.executions[i].record.workflow_spec.clone(),
                        initial_payload: self.executions[i].record.initial_payload.clone(),
                        result: result.clone(),
                        error: error.clone(),
                        created_at: self.executions[i].record.created_at.clone(),
                        updated_at: now.to_string(),
                    },
                    claimed_by: self.executions[i].claimed_by.clone(),
                    lease_expires_at: self.executions[i].lease_expires_at.clone(),
                };
                self.executions.set(i, row);
            }
            i += 1;
        }
        assert(self@ =~= after);
    }

    /// Take an execution for `driver` until `until`. Refused where another driver
    /// holds it and that hold has not ended by `now`, or where it does not exist.
    pub fn claim_execution(&mut self, workflow_id: &str, driver: &str, now: &str, until: &str) -> (r: bool)
        ensures
            r == old(self)@.claimable(workflow_id@, driver@, now@),
            r ==> final(self)@ == old(self)@.claimed(workflow_id@, driver@, until@),
            !r ==> final(self)@ == old(self)@,
    {
        let free = match self.position(workflow_id) {
            None => false,
            Some(i) => match (&self.executions[i].claimed_by, &self.executions[i].lease_expires_at) {
                (None, _) => true,
                (Some(holder), None) => text::same(holder.as_str(), driver),
                (Some(holder), Some(end)) => text::same(holder.as_str(), driver) || text::before(
                    end.as_str(),
                    now,
                ),
            },
        };
        if free {
            self.hold(workflow_id, driver, until);
        }
        free
    }

    /// Enter `driver` as the holder of an execution until `until`.
    fn hold(&mut self, workflow_id: &str, driver: &str, until: &str)
        ensures
            final(self)@ == old(self)@.claimed(workflow_id@, driver@, until@),
    {
        let ghost before = *self;
        let ghost after = old(self)@.claimed(workflow_id@, driver@, until@);
        let mut i: usize = 0;
        while i < self.executions.len()
            invariant
                i <= self.executions@.len(),
                self.executions@.len() == before.executions@.len(),
                after == before@.claimed(workflow_id@, driver@, until@),
                self.nodes@ == before.nodes@,
                forall|j: int| 0 <= j < i ==> (#[trigger] self.executions@[j])@ == after.executions[j],
                forall|j: int|
                    i <= j < self.executions@.len() ==> (#[trigger] self.executions@[j])@
                        == before@.executions[j],
            decreases self.executions@.len() - i,
        {
            if text::same(self.executions[i].record.workflow_id.as_str(), workflow_id) {
                let row = ExecutionRow {
                    record: self.executions[i].record.clone(),
                    claimed_by: Some(driver.to_string()),
                    lease_expires_at: Some(until.to_string()),
                };
                self.executions.set(i, row);
            }
            i += 1;
        }
        assert(self@ =~= after);
    }

    /// Put off the end of a hold that `driver` has.
    pub fn renew_lease(&mut self, workflow_id: &str, driver: &str, until: &str)
        ensures
            final(self)@ == old(self)@.renewed(workflow_id@, driver@, until@),
    {
        let ghost before = *self;
        let ghost after = old(self)@.renewed(workflow_id@, driver@, until@);
        let mut i: usize = 0;
        while i < self.executions.len()
            invariant
                i <= self.executions@.len(),
                self.executions@.len() == before.executions@.len(),
                after == before@.renewed(workflow_id@, driver@, until@),
                self.nodes@ == before.nodes@,
                forall|j: int| 0 <= j < i ==> (#[trigger] self.executions@[j])@ == after.executions[j],
                forall|j: int|
                    i <= j < self.executions@.len() ==> (#[trigger] self.executions@[j])@
                        == before@.executions[j],
            decreases self.executions@.len() - i,
        {
            if text::same(self.executions[i].record.workflow_id.as_str(), workflow_id) && held_by(
                &self.executions[i].claimed_by,
                driver,
            ) {
                let row = ExecutionRow {
                    record: self.executions[i].record.clone(),
                    claimed_by: self.executions[i].claimed_by.clone(),
                    lease_expires_at: Some(until.to_string()),
                };
                self.executions.set(i, row);
            }
            i += 1;
        }
        assert(self@ =~= after);
    }

    /// Give up a hold that `driver` has.
    pub fn release_execution(&mut self, workflow_id: &str, driver: &str)
        ensures
            final(self)@ == old(self)@.released(workflow_id@, driver@),
    {
        let ghost before = *self;
        let ghost after = old(self)@.released(workflow_id@, driver@);
        let mut i: usize = 0;
        while i < self.executions.len()
            invariant
                i <= self.executions@.len(),
                self.executions@.len() == before.executions@.len(),
                after == before@.released(workflow_id@, driver@),
                self.nodes@ == before.nodes@,
                forall|j: int| 0 <= j < i ==> (#[trigger] self.executions@[j])@ == after.executions[j],
                forall|j: int|
                    i <= j < self.executions@.len() ==> (#[trigger] self.executions@[j])@
                        == before@.executions[j],
            decreases self.executions@.len() - i,
        {
            if text::same(self.executions[i].record.workflow_id.as_str(), workflow_id) && held_by(
                &self.executions[i].claimed_by,
                driver,
            ) {
                let row = ExecutionRow {
                    record: self.executions[i].record.clone(),
                    claimed_by: None,
                    lease_expires_at: None,
                };
                self.executions.set(i, row);
            }
            i += 1;
        }
        assert(self@ =~= after);
    }

    /// An execution with its nodes.
    pub fn load_execution(&self, workflow_id: &str) -> (r: Option<(ExecutionRecord, Vec<ExecutionNodeRecord>)>)
        ensures
            match r {
                Some((e, nodes)) => self@.row(workflow_id@) matches Some(row) && row.record == e@
                    && node_views(nodes@) == self@.nodes_of(workflow_id@),
                None => self@.row(workflow_id@) is None,
            },
    {
        let record = match self.position(workflow_id) {
            None => return None,
            Some(i) => self.executions[i].record.clone(),
        };
        let ghost p = |n: NodeView| n.workflow_id == workflow_id@;
        let ghost s = self@.nodes;
        let mut nodes: Vec<ExecutionNodeRecord> = Vec::new();
        let mut i: usize = 0;
        assert(node_views(nodes@) =~= s.take(0).filter(p));
        while i < self.nodes.len()
            invariant
                i <= self.nodes@.len(),
                s == self@.nodes,
                p == (|n: NodeView| n.workflow_id == workflow_id@),
                node_views(nodes@) == s.take(i as int).filter(p),
            decreases self.nodes@.len() - i,
        {
            proof {
                assert(s[i as int] == self.nodes@[i as int]@);
                text::lemma_filter_more(s, p, i + 1);
            }
            if text::same(self.nodes[i].workflow_id.as_str(), workflow_id) {
                let ghost prior = node_views(nodes@);
                nodes.push(self.nodes[i].clone());
                assert(node_views(nodes@) =~= prior.push(s[i as int]));
            }
            i += 1;
        }
        assert(s.take(s.len() as int) =~= s);
        Some((record, nodes))
    }

    /// The executions that run or are suspended.
    pub fn list_active(&self) -> (r: Vec<ExecutionRecord>)
        ensures
            record_views(r@) == self@.active(),
    {
        let ghost all = self@.records();
        let ghost p = |e: ExecutionView|
            e.status == ExecutionStatus::Running || e.status == ExecutionStatus::Suspended;
        let mut out: Vec<ExecutionRecord> = Vec::new();
        let mut i: usize = 0;
        assert(record_views(out@) =~= all.take(0).filter(p));
        while i < self.executions.len()
            invariant
                i <= self.executions@.len(),
                all == self@.records(),
                p == (|e: ExecutionView|
                    e.status == ExecutionStatus::Running || e.status == ExecutionStatus::Suspended),
                record_views(out@) == all.take(i as int).filter(p),
            decreases self.executions@.len() - i,
        {
            proof {
                assert(all[i as int] == self.executions@[i as int].record@);
                text::lemma_filter_more(all, p, i + 1);
            }
            let status = self.executions[i].record.status;
            if status == ExecutionStatus::Running || status == ExecutionStatus::Suspended {
                let ghost prior = record_views(out@);
                out.push(self.executions[i].record.clone());
                assert(record_views(out@) =~= prior.push(all[i as int]));
            }
            i += 1;
        }
        assert(all.take(all.len() as int) =~= all);
        out
    }

    /// Fail every parked node whose gate deadline lies before `now`, and its
    /// execution; the failed pairs of execution and node come back.
    pub fn expire_gates(&mut self, now: &str) -> (r: Vec<(String, String)>)
        ensures
            pair_views(r@) == old(self)@.overdue_pairs(now@),
            final(self)@ == old(self)@.expired(now@),
    {
        let ghost before = *self;
        let ghost after = self@.expired(now@);
        let ghost s = self@.nodes;
        let ghost p = |n: NodeView| n.overdue(now@);
        let mut out: Vec<(String, String)> = Vec::new();
        let mut i: usize = 0;
        assert(pair_views(out@) =~= pairs(s.take(0).filter(p)));
        while i < self.nodes.len()
            invariant
                i <= self.nodes@.len(),
                self.nodes@.len() == before.nodes@.len(),
                s == before@.nodes,
                p == (|n: NodeView| n.overdue(now@)),
                after == before@.expired(now@),
                self.executions@ == before.executions@,
                pair_views(out@) == pairs(s.take(i as int).filter(p)),
                forall|j: int| 0 <= j < i ==> (#[trigger] self.nodes@[j])@ == after.nodes[j],
                forall|j: int| i <= j < self.nodes@.len() ==> (#[trigger] self.nodes@[j])@ == s[j],
            decreases self.nodes@.len() - i,
        {
            proof {
                assert(self.nodes@[i as int]@ == s[i as int]);
                text::lemma_filter_more(s, p, i + 1);
            }
            if is_overdue(&self.nodes[i], now) {
                let ghost prior = pair_views(out@);
                out.push((self.nodes[i].workflow_id.clone(), self.nodes[i].node_id.clone()));
                proof {
                    assert(pair_views(out@) =~= prior.push((s[i as int].workflow_id, s[i as int].node_id)));
                    assert(pairs(s.take(i as int).filter(p).push(s[i as int])) =~= pairs(
                        s.take(i as int).filter(p),
                    ).push((s[i as int].workflow_id, s[i as int].node_id)));
                }
                let row = ExecutionNodeRecord {
                    status: NodeStatus::Failed,
                    updated_at: now.to_string(),
                    ..self.nodes[i].clone()
                };
                self.nodes.set(i, row);
            }
            i += 1;
        }
        proof {
            assert(s.take(s.len() as int) =~= s);
            lemma_overdue_pairs(before@, now@);
            assert(pair_views(out@) == before@.overdue_pairs(now@));
            assert(pair_views(out@).len() == out@.len());
        }
        let mut k: usize = 0;
        while k < self.executions.len()
            invariant
                k <= self.executions@.len(),
                self.executions@.len() == before.executions@.len(),
                after == before@.expired(now@),
                self.nodes@.len() == before.nodes@.len(),
                forall|w: Seq<char>| #[trigger]
                    before@.has_overdue(w, now@) <==> exists|j: int|
                        0 <= j < out@.len() && (#[trigger] pair_views(out@)[j]).0 == w,
                forall|j: int| 0 <= j < self.nodes@.len() ==> (#[trigger] self.nodes@[j])@ == after.nodes[j],
                forall|j: int| 0 <= j < k ==> (#[trigger] self.executions@[j])@ == after.executions[j],
                forall|j: int|
                    k <= j < self.executions@.len() ==> (#[trigger] self.executions@[j])@
                        == before@.executions[j],
            decreases self.executions@.len() - k,
        {
            assert(self.executions@[k as int]@ == before@.executions[k as int]);
            if names_execution(&out, self.executions[k].record.workflow_id.as_str()) {
                let row = ExecutionRow {
                    record: ExecutionRecord {
                        status: ExecutionStatus::Failed,
                        error: Some("gate deadline expired".to_string()),
                        updated_at: now.to_string(),
                        ..self.executions[k].record.clone()
                    },
                    claimed_by: self.executions[k].claimed_by.clone(),
                    lease_expires_at: self.executions[k].lease_expires_at.clone(),
                };
                self.executions.set(k, row);
            }
            k += 1;
        }
        assert(self@ =~= after);
        out
    }
}

/// The views of pairs of strings.
pub open spec fn pair_views(s: Seq<(String, String)>) -> Seq<(Seq<char>, Seq<char>)> {
    Seq::new(s.len(), |i: int| (s[i].0@, s[i].1@))
}

/// The executions and ids of nodes.
pub open spec fn pairs(s: Seq<NodeView>) -> Seq<(Seq<char>, Seq<char>)> {
    Seq::new(s.len(), |i: int| (s[i].workflow_id, s[i].node_id))
}

fn held_by(holder: &Option<String>, driver: &str) -> (r: bool)
    ensures
        r == (text::opt(*holder) == Some(driver@)),
{
    match holder {
        Some(h) => text::same(h.as_str(), driver),
        None => false,
    }
}

fn is_overdue(n: &ExecutionNodeRecord, now: &str) -> (r: bool)
    ensures
        r == n@.overdue(now@),
{
    match &n.gate_deadline {
        Some(d) => n.status == NodeStatus::Suspended && text::before(d.as_str(), now),
        None => false,
    }
}

fn names_execution(v: &Vec<(String, String)>, w: &str) -> (r: bool)
    ensures
        r == exists|j: int| 0 <= j < v@.len() && (#[trigger] pair_views(v@)[j]).0 == w@,
{
    let mut i: usize = 0;
    while i < v.len()
        invariant
            i <= v@.len(),
            forall|j: int| 0 <= j < i ==> (#[trigger] pair_views(v@)[j]).0 != w@,
        decreases v@.len() - i,
    {
        if text::same(v[i].0.as_str(), w) {
            assert(pair_views(v@)[i as int].0 == w@);
            return true;
        }
        i += 1;
    }
    false
}

/// An execution has an overdue node exactly if an overdue pair names it.
proof fn lemma_overdue_pairs(v: StoreView, now: Seq<char>)
    ensures
        forall|w: Seq<char>| #[trigger]
            v.has_overdue(w, now) <==> exists|j: int|
                0 <= j < v.overdue_pairs(now).len() && (#[trigger] v.overdue_pairs(now)[j]).0 == w,
{
    let p = |n: NodeView| n.overdue(now);
    let f = v.nodes.filter(p);
    broadcast use vstd::seq_lib::group_filter_ensures;
    assert forall|w: Seq<char>| #[trigger] v.has_overdue(w, now) implies exists|j: int|
        0 <= j < v.overdue_pairs(now).len() && (#[trigger] v.overdue_pairs(now)[j]).0 == w by {
        let i = choose|i: int|
            0 <= i < v.nodes.len() && (#[trigger] v.nodes[i]).workflow_id == w && v.nodes[i].overdue(now);
        assert(f.contains(v.nodes[i]));
        let j = choose|j: int| 0 <= j < f.len() && f[j] == v.nodes[i];
        assert(v.overdue_pairs(now)[j].0 == w);
    }
    assert forall|w: Seq<char>|
        (exists|j: int| 0 <= j < v.overdue_pairs(now).len() && (#[trigger] v.overdue_pairs(now)[j]).0
            == w) implies #[trigger] v.has_overdue(w, now) by {
        let j = choose|j: int|
            0 <= j < v.overdue_pairs(now).len() && (#[trigger] v.overdue_pairs(now)[j]).0 == w;
        assert(f.contains(f[j]));
        v.nodes.lemma_filter_contains_rev(p, f[j]);
        v.nodes.lemma_filter_pred(p, j);
        let i = choose|i: int| 0 <= i < v.nodes.len() && v.nodes[i] == f[j];
        assert(v.nodes[i].workflow_id == w);
    }
}

} // verus!
