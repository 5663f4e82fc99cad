//! Goals that were handed in, and what has become of them.

use vstd::prelude::*;
use std::collections::{HashMap, VecDeque};
use crate::error;
use crate::error::{Outcome, OutcomeView};
use crate::json;
use crate::json::{Json, JsonView};
use crate::text_map::TextMap;
use crate::tool_laws;

verus! {

/// How a job stands.
#[derive(Debug, PartialEq)]
pub enum JobState {
    Running,
    Done { result: Outcome },
}

/// A `JobState` as a mathematical value.
pub enum JobView {
    Running,
    Done { result: OutcomeView },
}

impl View for JobState {
    type V = JobView;

    open spec fn view(&self) -> JobView {
        match *self {
            JobState::Running => JobView::Running,
            JobState::Done { result } => JobView::Done { result: result@ },
        }
    }
}

impl Clone for JobState {
    fn clone(&self) -> (r: JobState)
        ensures
            r@ == self@,
    {
        match self {
            JobState::Running => JobState::Running,
            JobState::Done { result } => JobState::Done { result: result.clone() },
        }
    }
}

impl JobView {
    /// The JSON form.
    pub open spec fn json(self) -> JsonView {
        JsonView::Object(
            match self {
                JobView::Running => map!["status"@ => JsonView::Text("running"@)],
                JobView::Done { result } => map![
                    "status"@ => JsonView::Text("done"@),
                    "result"@ => result.json(),
                ],
            },
        )
    }
}

impl JobState {
    /// The JSON form.
    pub fn to_json(&self) -> (r: Json)
        ensures
            r@ == self@.json(),
            tool_laws::tells_job(r@, self@),
            self@ matches JobView::Done { result } ==> error::outcome_of(
                json::member(r@, "result"@)->0,
            ) == Some(result),
    {
        let mut m: TextMap<Json> = TextMap::new();
        match self {
            JobState::Running => {
                m.insert("status".to_string(), Json::text("running"));
            },
            JobState::Done { result } => {
                let told = result.to_json();
                assert(error::outcome_of(result@.json()) == Some(result@));
                m.insert("status".to_string(), Json::text("done"));
                m.insert("result".to_string(), told);
            },
        }
        let r = Json::Object(m);
        assert(r@->Object_0 =~= self@.json()->Object_0);
        proof {
            tool_laws::law_job_is_told(self@);
            tool_laws::lemma_job_members();
        }
        r
    }
}

/// All jobs that are known.
#[derive(Debug)]
pub struct JobStore {
    jobs: HashMap<u128, JobState>,
    completed_order: VecDeque<u128>,
}

/// A `JobStore` as a mathematical value.
#[verifier::ext_equal]
pub struct JobsView {
    pub jobs: Map<u128, JobView>,
    pub completed: Seq<u128>,
}

impl View for JobStore {
    type V = JobsView;

    closed spec fn view(&self) -> JobsView {
        JobsView {
            jobs: self.jobs@.map_values(|s: JobState| s@),
            completed: self.completed_order@,
        }
    }
}

impl JobsView {
    /// With the oldest completed jobs dropped until no more are kept than may be.
    pub open spec fn trimmed(self) -> JobsView
        decreases self.completed.len(),
    {
        if self.completed.len() > JobStore::MAX_COMPLETED {
            JobsView {
                jobs: self.jobs.remove(self.completed[0]),
                completed: self.completed.drop_first(),
            }.trimmed()
        } else {
            self
        }
    }

    /// After a job was handed in.
    pub open spec fn created(self, id: u128) -> JobsView {
        JobsView { jobs: self.jobs.insert(id, JobView::Running), completed: self.completed }
    }

    /// After a job has ended.
    pub open spec fn ended(self, id: u128, result: OutcomeView) -> JobsView {
        JobsView {
            jobs: self.jobs.insert(id, JobView::Done { result }),
            completed: self.completed.push(id),
        }.trimmed()
    }
}

impl JobStore {
    /// How many completed jobs are kept; past this the oldest goes. Running jobs
    /// are neither counted nor dropped.
    pub const MAX_COMPLETED: usize = 1024;
}

impl JobStore {
    /// A store without jobs.
    pub fn new() -> (r: JobStore)
        ensures
            r@ == (JobsView { jobs: Map::empty(), completed: Seq::empty() }),
    {
        broadcast use vstd::std_specs::hash::group_hash_axioms;
        let r = JobStore { jobs: HashMap::new(), completed_order: VecDeque::new() };
        assert(r@ =~= JobsView { jobs: Map::empty(), completed: Seq::empty() });
        r
    }

    /// Enter a job that runs.
    pub fn create(&mut self, id: u128)
        ensures
            final(self)@ == old(self)@.created(id),
    {
        broadcast use vstd::std_specs::hash::group_hash_axioms;
        self.jobs.insert(id, JobState::Running);
        assert(self@ =~= old(self)@.created(id));
    }

    /// Enter the outcome of a job.
    pub fn complete(&mut self, id: u128, outcome: Outcome)
        ensures
            final(self)@ == old(self)@.ended(id, outcome@),
    {
        broadcast use vstd::std_specs::hash::group_hash_axioms;
        let ghost before = self@;
        let ghost result = outcome@;
        self.jobs.insert(id, JobState::Done { result: outcome });
        self.completed_order.push_back(id);
        assert(self@ =~= JobsView {
            jobs: before.jobs.insert(id, JobView::Done { result }),
            completed: before.completed.push(id),
        });
        while self.completed_order.len() > JobStore::MAX_COMPLETED
            invariant
                self@.trimmed() == before.ended(id, result),
            decreases self.completed_order@.len(),
        {
            let ghost prior = self@;
            if let Some(oldest) = self.completed_order.pop_front() {
                self.jobs.remove(&oldest);
                assert(self@ =~= JobsView {
                    jobs: prior.jobs.remove(prior.completed[0]),
                    completed: prior.completed.drop_first(),
                });
            }
        }
    }

    /// How a job stands, where it is known.
    pub fn get(&self, id: &u128) -> (r: Option<JobState>)
        ensures
            match r {
                Some(s) => self@.jobs.dom().contains(*id) && s@ == self@.jobs[*id],
                None => !self@.jobs.dom().contains(*id),
            },
    {
        broadcast use vstd::std_specs::hash::group_hash_axioms;
        match self.jobs.get(id) {
            Some(s) => Some(s.clone()),
            None => None,
        }
    }
}

proof fn lemma_trimmed(v: JobsView, x: u128)
    ensures
        v.trimmed().completed.len() <= JobStore::MAX_COMPLETED,
        v.completed.len() <= JobStore::MAX_COMPLETED ==> v.trimmed() == v,
        !v.completed.contains(x) ==> (v.trimmed().jobs.dom().contains(x) <==> v.jobs.dom().contains(x))
            && v.trimmed().jobs[x] == v.jobs[x],
    decreases v.completed.len(),
{
    if v.completed.len() > JobStore::MAX_COMPLETED {
        let w = JobsView { jobs: v.jobs.remove(v.completed[0]), completed: v.completed.drop_first() };
        lemma_trimmed(w, x);
        if !v.completed.contains(x) {
            assert(v.completed.contains(v.completed[0]));
            assert(!w.completed.contains(x)) by {
                if w.completed.contains(x) {
                    let i = choose|i: int| 0 <= i < w.completed.len() && w.completed[i] == x;
                    assert(v.completed[i + 1] == x);
                }
            }
        }
    }
}

/// However many jobs end, no more completed ones are kept than may be, and a job
/// that has not ended is as it was.
pub proof fn law_running_jobs_stay(v: JobsView, id: u128, result: OutcomeView, other: u128)
    requires
        other != id,
        !v.completed.contains(other),
        v.jobs.dom().contains(other),
    ensures
        v.ended(id, result).completed.len() <= JobStore::MAX_COMPLETED,
        v.ended(id, result).jobs.dom().contains(other),
        v.ended(id, result).jobs[other] == v.jobs[other],
{
    let w = JobsView {
        jobs: v.jobs.insert(id, JobView::Done { result }),
        completed: v.completed.push(id),
    };
    assert(!w.completed.contains(other)) by {
        if w.completed.contains(other) {
            let i = choose|i: int| 0 <= i < w.completed.len() && w.completed[i] == other;
            if i < v.completed.len() {
                assert(v.completed[i] == other);
            }
        }
    }
    lemma_trimmed(w, other);
}

/// A job that has just ended can be asked for, and shows its outcome, unless its id
/// had ended before.
pub proof fn law_newest_job_is_kept(v: JobsView, id: u128, result: OutcomeView)
    requires
        v.completed.len() <= JobStore::MAX_COMPLETED,
        !v.completed.contains(id),
    ensures
        v.ended(id, result).jobs.dom().contains(id),
        v.ended(id, result).jobs[id] == (JobView::Done { result }),
        v.completed.len() == JobStore::MAX_COMPLETED ==> !v.ended(id, result).jobs.dom().contains(v.completed[0]),
{
    let w = JobsView {
        jobs: v.jobs.insert(id, JobView::Done { result }),
        completed: v.completed.push(id),
    };
    if v.completed.len() == JobStore::MAX_COMPLETED {
        assert(v.completed.contains(v.completed[0]));
        assert(w.completed[0] == v.completed[0]);
        let x = JobsView { jobs: w.jobs.remove(w.completed[0]), completed: w.completed.drop_first() };
        lemma_trimmed(x, id);
        assert(w.trimmed() == x.trimmed());
    } else {
        lemma_trimmed(w, id);
    }
}

/// A call that changes the jobs.
pub enum JobCall {
    Create { id: u128 },
    Complete { id: u128, result: OutcomeView },
}

impl JobCall {
    /// The job that the call is about.
    pub open spec fn id(self) -> u128 {
        match self {
            JobCall::Create { id } => id,
            JobCall::Complete { id, .. } => id,
        }
    }
}

/// The jobs after calls on a store without jobs.
pub open spec fn after_calls(calls: Seq<JobCall>) -> JobsView
    decreases calls.len(),
{
    if calls.len() == 0 {
        JobsView { jobs: Map::empty(), completed: Seq::empty() }
    } else {
        match calls.last() {
            JobCall::Create { id } => after_calls(calls.drop_last()).created(id),
            JobCall::Complete { id, result } => after_calls(calls.drop_last()).ended(id, result),
        }
    }
}

/// The jobs that calls have completed, with their outcomes, the latest last.
pub open spec fn completions(calls: Seq<JobCall>) -> Seq<(u128, OutcomeView)>
    decreases calls.len(),
{
    if calls.len() == 0 {
        Seq::empty()
    } else {
        match calls.last() {
            JobCall::Create { .. } => completions(calls.drop_last()),
            JobCall::Complete { id, result } => completions(calls.drop_last()).push((id, result)),
        }
    }
}

/// Whether a job is among the completed ones.
pub open spec fn ended_in(c: Seq<(u128, OutcomeView)>, id: u128) -> bool {
    exists|i: int| 0 <= i < c.len() && (#[trigger] c[i]).0 == id
}

/// Whether no call is about a job that an earlier one has completed.
pub open spec fn orderly(calls: Seq<JobCall>) -> bool
    decreases calls.len(),
{
    calls.len() > 0 ==> orderly(calls.drop_last()) && !ended_in(
        completions(calls.drop_last()),
        calls.last().id(),
    )
}

/// The first of `n` completed jobs that is still kept.
pub open spec fn kept_from(n: nat) -> int {
    if n <= JobStore::MAX_COMPLETED {
        0
    } else {
        n - JobStore::MAX_COMPLETED
    }
}

/// Whatever jobs are handed in and completed, each once: those kept as done are the
/// latest completed, up to the number that may be kept, and each shows its outcome;
/// a job that was handed in and not completed runs; no other job is known.
pub proof fn law_latest_jobs_are_kept(calls: Seq<JobCall>)
    requires
        orderly(calls),
    ensures
        ({
            let v = after_calls(calls);
            let c = completions(calls);
            let from = kept_from(c.len());
            &&& v.completed == Seq::new((c.len() - from) as nat, |i: int| c[i + from].0)
            &&& forall|i: int| 0 <= i < c.len() ==> (v.jobs.dom().contains((#[trigger] c[i]).0) <==> from <= i)
            &&& forall|i: int| from <= i < c.len() ==> v.jobs[(#[trigger] c[i]).0] == (JobView::Done {
                result: c[i].1,
            })
            &&& forall|i: int, j: int| 0 <= i < j < c.len() ==> (#[trigger] c[i]).0 != (#[trigger] c[j]).0
            &&& forall|id: u128|
                !ended_in(c, id) ==> (#[trigger] v.jobs.dom().contains(id) <==> calls.contains(
                    JobCall::Create { id },
                ))
            &&& forall|id: u128|
                !ended_in(c, id) && #[trigger] v.jobs.dom().contains(id) ==> v.jobs[id] == JobView::Running
        }),
    decreases calls.len(),
{
    let v = after_calls(calls);
    let c = completions(calls);
    if calls.len() == 0 {
        assert(v.completed =~= Seq::new(0, |i: int| c[i].0));
    } else {
        let prior = calls.drop_last();
        law_latest_jobs_are_kept(prior);
        let u = after_calls(prior);
        let b = completions(prior);
        let x = calls.last();
        assert forall|id: u128| #[trigger] calls.contains(JobCall::Create { id }) <==> prior.contains(
            JobCall::Create { id },
        ) || x == (JobCall::Create { id }) by {
            let y = JobCall::Create { id };
            if calls.contains(y) {
                let i = choose|i: int| 0 <= i < calls.len() && calls[i] == y;
                if i < prior.len() {
                    assert(prior[i] == y);
                }
            }
            if prior.contains(y) {
                let i = choose|i: int| 0 <= i < prior.len() && prior[i] == y;
                assert(calls[i] == y);
            }
            if x == y {
                assert(calls[calls.len() - 1] == y);
            }
        }
        match x {
            JobCall::Create { id } => {
                assert(c == b);
                assert(!ended_in(c, id));
                assert forall|i: int| 0 <= i < c.len() implies (#[trigger] c[i]).0 != id by {}
            },
            JobCall::Complete { id, result } => {
                lemma_completed(u, b, id, result);
                assert(c == b.push((id, result)));
                assert forall|i: int| 0 <= i < b.len() implies (#[trigger] c[i]) == b[i] && b[i].0 != id by {}
                assert(c[b.len() as int] == (id, result));
                assert forall|y: u128| !ended_in(c, y) implies !ended_in(b, y) && y != id by {
                    if ended_in(b, y) {
                        let i = choose|i: int| 0 <= i < b.len() && (#[trigger] b[i]).0 == y;
                        assert(c[i].0 == y);
                    }
                    if y == id {
                        assert(c[b.len() as int].0 == y);
                    }
                }
                let from = kept_from(c.len());
                let before = kept_from(b.len());
                assert(v.completed =~= Seq::new((c.len() - from) as nat, |i: int| c[i + from].0));
                assert forall|y: u128| !ended_in(c, y) implies (#[trigger] v.jobs.dom().contains(y)
                    <==> u.jobs.dom().contains(y)) && v.jobs[y] == u.jobs[y] by {
                    if b.len() >= JobStore::MAX_COMPLETED {
                        assert(b[before].0 == u.completed[0]);
                        assert(ended_in(b, u.completed[0]));
                    }
                }
            },
        }
    }
}

/// One more completed job: the oldest kept one goes where there were as many as may
/// be kept.
proof fn lemma_completed(u: JobsView, b: Seq<(u128, OutcomeView)>, id: u128, result: OutcomeView)
    requires
        u.completed == Seq::new((b.len() - kept_from(b.len())) as nat, |i: int| b[i + kept_from(b.len())].0),
    ensures
        b.len() < JobStore::MAX_COMPLETED ==> u.ended(id, result) == (JobsView {
            jobs: u.jobs.insert(id, JobView::Done { result }),
            completed: u.completed.push(id),
        }),
        b.len() >= JobStore::MAX_COMPLETED ==> u.ended(id, result) == (JobsView {
            jobs: u.jobs.insert(id, JobView::Done { result }).remove(u.completed[0]),
            completed: u.completed.push(id).drop_first(),
        }),
{
    let w = JobsView {
        jobs: u.jobs.insert(id, JobView::Done { result }),
        completed: u.completed.push(id),
    };
    if b.len() >= JobStore::MAX_COMPLETED {
        let x = JobsView { jobs: w.jobs.remove(w.completed[0]), completed: w.completed.drop_first() };
        assert(w.completed[0] == u.completed[0]);
        assert(w.trimmed() == x.trimmed());
        assert(x.trimmed() == x);
    } else {
        assert(w.trimmed() == w);
    }
}

} // verus!
