//! Watching the health of registered instances.

use vstd::prelude::*;
use crate::registry_store::{RegistryStatus, RegistryStore, RegistryView};
use crate::text_map::TextMap;

verus! {

/// How many looks in a row must fail before an instance is unhealthy.
pub const FAILURE_THRESHOLD: usize = 3;

/// Decides what looks at instances mean for their health.
#[derive(Debug, Clone, Copy, PartialEq, Eq)]
pub struct HealthPoller {
    pub failure_threshold: usize,
}

/// What one look at an instance has shown.
#[derive(Debug, PartialEq, Eq)]
pub struct Probe {
    pub instance_id: String,
    pub ok: bool,
    pub at: String,
}

/// A `Probe` as a mathematical value.
pub struct ProbeView {
    pub instance_id: Seq<char>,
    pub ok: bool,
    pub at: Seq<char>,
}

impl View for Probe {
    type V = ProbeView;

    open spec fn view(&self) -> ProbeView {
        ProbeView { instance_id: self.instance_id@, ok: self.ok, at: self.at@ }
    }
}

/// The views of a sequence of looks.
pub open spec fn probe_views(s: Seq<Probe>) -> Seq<ProbeView> {
    Seq::new(s.len(), |i: int| s[i]@)
}

/// The instances, and how often in a row each was found failing.
#[verifier::ext_equal]
pub struct HealthView {
    pub store: RegistryView,
    pub failures: Map<Seq<char>, usize>,
}

/// How often in a row an instance was found failing.
pub open spec fn failures_of(failures: Map<Seq<char>, usize>, id: Seq<char>) -> nat {
    if failures.dom().contains(id) {
        failures[id] as nat
    } else {
        0
    }
}

impl HealthView {
    /// After one look: a good one clears the count and makes the instance healthy; a
    /// bad one adds to the count, which at the threshold makes it unhealthy.
    pub open spec fn after(self, threshold: usize, p: ProbeView) -> HealthView {
        if p.ok {
            HealthView {
                store: self.store.checked(p.instance_id, RegistryStatus::Healthy, p.at),
                failures: self.failures.remove(p.instance_id),
            }
        } else {
            let n = failures_of(self.failures, p.instance_id) + 1;
            HealthView {
                store: if n >= threshold {
                    self.store.checked(p.instance_id, RegistryStatus::Unhealthy, p.at)
                } else {
                    self.store
                },
                failures: self.failures.insert(p.instance_id, n as usize),
            }
        }
    }

    /// After the first `n` looks.
    pub open spec fn after_all(self, threshold: usize, probes: Seq<ProbeView>, n: nat) -> HealthView
        decreases n,
    {
        if n == 0 {
            self
        } else {
            self.after_all(threshold, probes, (n - 1) as nat).after(threshold, probes[n - 1])
        }
    }
}

impl HealthPoller {
    /// A poller with the usual threshold.
    pub fn new() -> (r: HealthPoller)
        ensures
            r.failure_threshold == FAILURE_THRESHOLD,
    {
        HealthPoller { failure_threshold: FAILURE_THRESHOLD }
    }

    /// Take in one look.
    fn observe(&self, store: &mut RegistryStore, failure_counts: &mut TextMap<usize>, probe: &Probe)
        requires
            failures_of(old(failure_counts)@, probe@.instance_id) < usize::MAX,
        ensures
            (HealthView { store: final(store)@, failures: final(failure_counts)@ }) == (HealthView {
                store: old(store)@,
                failures: old(failure_counts)@,
            }).after(self.failure_threshold, probe@),
    {
        if probe.ok {
            failure_counts.remove(probe.instance_id.as_str());
            store.update_health(probe.instance_id.as_str(), RegistryStatus::Healthy, probe.at.as_str());
        } else {
            let seen: usize = match failure_counts.get(probe.instance_id.as_str()) {
                Some(n) => *n,
                None => 0,
            };
            let count: usize = seen + 1;
            failure_counts.insert(probe.instance_id.clone(), count);
            if count >= self.failure_threshold {
                store.update_health(
                    probe.instance_id.as_str(),
                    RegistryStatus::Unhealthy,
                    probe.at.as_str(),
                );
            }
        }
    }

    /// Take in one round of looks.
    pub fn poll_once(
        &self,
        store: &mut RegistryStore,
        failure_counts: &mut TextMap<usize>,
        probes: &Vec<Probe>,
    )
        requires
            forall|id: Seq<char>| #[trigger]
                failures_of(old(failure_counts)@, id) + probes@.len() <= usize::MAX,
        ensures
            (HealthView { store: final(store)@, failures: final(failure_counts)@ }) == (HealthView {
                store: old(store)@,
                failures: old(failure_counts)@,
            }).after_all(self.failure_threshold, probe_views(probes@), probes@.len()),
    {
        let ghost start = HealthView { store: store@, failures: failure_counts@ };
        let ghost ps = probe_views(probes@);
        let mut i: usize = 0;
        while i < probes.len()
            invariant
                i <= probes@.len(),
                ps == probe_views(probes@),
                start == (HealthView { store: old(store)@, failures: old(failure_counts)@ }),
                (HealthView { store: store@, failures: failure_counts@ }) == start.after_all(
                    self.failure_threshold,
                    ps,
                    i as nat,
                ),
                forall|id: Seq<char>| #[trigger]
                    failures_of(failure_counts@, id) + probes@.len() <= usize::MAX + i,
            decreases probes@.len() - i,
        {
            let ghost before = failure_counts@;
            assert(ps[i as int] == probes@[i as int]@);
            self.observe(store, failure_counts, &probes[i]);
            i += 1;
            proof {
                assert forall|id: Seq<char>| #[trigger]
                    failures_of(failure_counts@, id) + probes@.len() <= usize::MAX + i by {
                    assert(failures_of(before, id) + probes@.len() <= usize::MAX + i - 1);
                }
            }
        }
    }
}

/// An instance that was not failing is left alone by fewer failing looks in a row
/// than the threshold, and is unhealthy from the threshold on.
pub proof fn law_unhealthy_from_threshold(
    v: HealthView,
    threshold: usize,
    id: Seq<char>,
    probes: Seq<ProbeView>,
    n: nat,
)
    requires
        failures_of(v.failures, id) == 0,
        n <= probes.len() <= usize::MAX,
        threshold > 0,
        forall|i: int| 0 <= i < probes.len() ==> (#[trigger] probes[i]).instance_id == id && !probes[i].ok,
    ensures
        failures_of(v.after_all(threshold, probes, n).failures, id) == n,
        n < threshold ==> v.after_all(threshold, probes, n).store == v.store,
        n >= threshold ==> forall|i: int|
            0 <= i < v.store.entries.len() && (#[trigger] v.store.entries[i]).instance_id == id
                ==> v.after_all(threshold, probes, n).store.entries[i].status
                == RegistryStatus::Unhealthy,
        v.after_all(threshold, probes, n).store.entries.len() == v.store.entries.len(),
        forall|i: int|
            0 <= i < v.store.entries.len() ==> v.after_all(threshold, probes, n).store.entries[i].instance_id
                == (#[trigger] v.store.entries[i]).instance_id,
    decreases n,
{
    if n > 0 {
        law_unhealthy_from_threshold(v, threshold, id, probes, (n - 1) as nat);
        assert(probes[n - 1].instance_id == id && !probes[n - 1].ok);
    }
}

/// A good look makes an instance healthy and clears what counted against it.
pub proof fn law_good_look_clears(v: HealthView, threshold: usize, p: ProbeView)
    requires
        p.ok,
    ensures
        failures_of(v.after(threshold, p).failures, p.instance_id) == 0,
        forall|i: int|
            0 <= i < v.store.entries.len() && (#[trigger] v.store.entries[i]).instance_id == p.instance_id
                ==> v.after(threshold, p).store.entries[i].status == RegistryStatus::Healthy,
{
}

} // verus!
