//! Registered agent instances and the events that they have sent.

use vstd::prelude::*;
use vstd::string::*;
use crate::dag;
use crate::decode;
use crate::error::{AetherError, ErrorView};
use crate::execution_store;
use crate::json;
use crate::json::Json;
use crate::supervisor;
use crate::text;
use crate::text_map::TextMap;
use crate::types::{copy_labels, copy_texts};

verus! {

/// What is known of the health of an instance.
#[derive(Debug, Clone, Copy, PartialEq, Eq, Structural)]
pub enum RegistryStatus {
    Unknown,
    Healthy,
    Unhealthy,
}

impl RegistryStatus {
    /// The word for the status.
    pub open spec fn label(self) -> Seq<char> {
        match self {
            RegistryStatus::Unknown => "unknown"@,
            RegistryStatus::Healthy => "healthy"@,
            RegistryStatus::Unhealthy => "unhealthy"@,
        }
    }

    /// The status that a word stands for.
    pub open spec fn of_label(s: Seq<char>) -> RegistryStatus {
        if s == "healthy"@ {
            RegistryStatus::Healthy
        } else if s == "unhealthy"@ {
            RegistryStatus::Unhealthy
        } else {
            RegistryStatus::Unknown
        }
    }

    /// The word for the status.
    pub fn as_str(&self) -> (r: &'static str)
        ensures
            r@ == self.label(),
    {
        match self {
            RegistryStatus::Unknown => "unknown",
            RegistryStatus::Healthy => "healthy",
            RegistryStatus::Unhealthy => "unhealthy",
        }
    }

    /// The status that a word stands for.
    pub fn parse(s: &str) -> (r: RegistryStatus)
        ensures
            r == RegistryStatus::of_label(s@),
    {
        if text::same(s, "healthy") {
            RegistryStatus::Healthy
        } else if text::same(s, "unhealthy") {
            RegistryStatus::Unhealthy
        } else {
            RegistryStatus::Unknown
        }
    }
}

/// Reading the word for a status gives the status again.
pub proof fn law_health_words(s: RegistryStatus)
    ensures
        RegistryStatus::of_label(s.label()) == s,
{
    reveal_strlit("unknown");
    reveal_strlit("healthy");
    reveal_strlit("unhealthy");
    assert("unknown"@[0] == 'u' && "healthy"@[0] == 'h');
    assert("unknown"@.len() == 7 && "healthy"@.len() == 7 && "unhealthy"@.len() == 9);
}

/// A registered instance of an agent.
#[derive(Debug, PartialEq, Eq)]
pub struct RegistrationEntry {
    pub instance_id: String,
    pub name: String,
    pub http_url: String,
    pub capabilities: Vec<String>,
    pub metadata: TextMap<String>,
    pub registered_at: String,
    pub last_health_check: Option<String>,
    pub status: RegistryStatus,
}

/// A `RegistrationEntry` as a mathematical value.
#[verifier::ext_equal]
pub struct EntryView {
    pub instance_id: Seq<char>,
    pub name: Seq<char>,
    pub http_url: Seq<char>,
    pub capabilities: Seq<Seq<char>>,
    pub metadata: Map<Seq<char>, Seq<char>>,
    pub registered_at: Seq<char>,
    pub last_health_check: Option<Seq<char>>,
    pub status: RegistryStatus,
}

impl View for RegistrationEntry {
    type V = EntryView;

    open spec fn view(&self) -> EntryView {
        EntryView {
            instance_id: self.instance_id@,
            name: self.name@,
            http_url: self.http_url@,
            capabilities: text::strs(self.capabilities@),
            metadata: decode::labels(self.metadata@),
            registered_at: self.registered_at@,
            last_health_check: text::opt(self.last_health_check),
            status: self.status,
        }
    }
}

impl Clone for RegistrationEntry {
    fn clone(&self) -> (r: RegistrationEntry)
        ensures
            r@ == self@,
    {
        RegistrationEntry {
            instance_id: self.instance_id.clone(),
            name: self.name.clone(),
            http_url: self.http_url.clone(),
            capabilities: copy_texts(&self.capabilities),
            metadata: copy_labels(&self.metadata),
            registered_at: self.registered_at.clone(),
            last_health_check: self.last_health_check.clone(),
            status: self.status,
        }
    }
}

/// Something that an instance has reported.
#[derive(Debug, PartialEq, Eq)]
pub struct AgentEvent {
    pub instance_id: String,
    pub event_type: String,
    pub payload: String,
    pub received_at: String,
}

/// An `AgentEvent` as a mathematical value.
pub struct AgentEventView {
    pub instance_id: Seq<char>,
    pub event_type: Seq<char>,
    pub payload: Seq<char>,
    pub received_at: Seq<char>,
}

impl View for AgentEvent {
    type V = AgentEventView;

    open spec fn view(&self) -> AgentEventView {
        AgentEventView {
            instance_id: self.instance_id@,
            event_type: self.event_type@,
            payload: self.payload@,
            received_at: self.received_at@,
        }
    }
}

impl Clone for AgentEvent {
    fn clone(&self) -> (r: AgentEvent)
        ensures
            r@ == self@,
    {
        AgentEvent {
            instance_id: self.instance_id.clone(),
            event_type: self.event_type.clone(),
            payload: self.payload.clone(),
            received_at: self.received_at.clone(),
        }
    }
}

/// The registered instances, in the order of their registration, and the events.
#[derive(Debug, PartialEq, Eq)]
pub struct RegistryStore {
    pub entries: Vec<RegistrationEntry>,
    pub events: Vec<AgentEvent>,
}

/// A `RegistryStore` as a mathematical value.
#[verifier::ext_equal]
pub struct RegistryView {
    pub entries: Seq<EntryView>,
    pub events: Seq<AgentEventView>,
}

/// The views of a sequence of entries.
pub open spec fn entry_views(s: Seq<RegistrationEntry>) -> Seq<EntryView> {
    Seq::new(s.len(), |i: int| s[i]@)
}

/// The views of a sequence of events.
pub open spec fn event_views(s: Seq<AgentEvent>) -> Seq<AgentEventView> {
    Seq::new(s.len(), |i: int| s[i]@)
}

impl View for RegistryStore {
    type V = RegistryView;

    open spec fn view(&self) -> RegistryView {
        RegistryView { entries: entry_views(self.entries@), events: event_views(self.events@) }
    }
}

impl RegistryView {
    /// Whether there is an instance `id`.
    pub open spec fn has(self, id: Seq<char>) -> bool {
        exists|i: int| 0 <= i < self.entries.len() && (#[trigger] self.entries[i]).instance_id == id
    }

    /// Whether an instance gives way to one with this id and address.
    pub open spec fn displaces(e: EntryView, id: Seq<char>, url: Seq<char>) -> bool {
        e.instance_id == id || e.http_url == url
    }

    /// Whether an instance with this id is displaced.
    pub open spec fn is_displaced(self, x: Seq<char>, id: Seq<char>, url: Seq<char>) -> bool {
        exists|i: int|
            0 <= i < self.entries.len() && (#[trigger] self.entries[i]).instance_id == x
                && RegistryView::displaces(self.entries[i], id, url)
    }

    /// See `RegistryStore::register`.
    pub open spec fn registered(self, e: EntryView) -> RegistryView {
        RegistryView {
            entries: self.entries.filter(
                |x: EntryView| !RegistryView::displaces(x, e.instance_id, e.http_url),
            ).push(EntryView { last_health_check: None, status: RegistryStatus::Unknown, ..e }),
            events: self.events.filter(
                |v: AgentEventView| !self.is_displaced(v.instance_id, e.instance_id, e.http_url),
            ),
        }
    }

    /// The instance at the same address under another id, which a registration
    /// puts out.
    pub open spec fn put_out(self, e: EntryView) -> Option<EntryView> {
        execution_store::first(
            self.entries,
            |x: EntryView| x.http_url == e.http_url && x.instance_id != e.instance_id,
        )
    }

    /// See `RegistryStore::deregister`.
    pub open spec fn deregistered(self, id: Seq<char>) -> RegistryView {
        if self.has(id) {
            RegistryView {
                entries: self.entries.filter(|x: EntryView| x.instance_id != id),
                events: self.events.filter(|v: AgentEventView| v.instance_id != id),
            }
        } else {
            self
        }
    }

    /// See `RegistryStore::update_health`.
    pub open spec fn checked(self, id: Seq<char>, status: RegistryStatus, at: Seq<char>) -> RegistryView {
        RegistryView {
            entries: Seq::new(
                self.entries.len(),
                |i: int|
                    if self.entries[i].instance_id == id {
                        EntryView { status, last_health_check: Some(at), ..self.entries[i] }
                    } else {
                        self.entries[i]
                    },
            ),
            events: self.events,
        }
    }

    /// The instances of the agent `name`.
    pub open spec fn named(self, name: Seq<char>) -> Seq<EntryView> {
        self.entries.filter(|x: EntryView| x.name == name)
    }

    /// No two instances share an id or an address.
    pub open spec fn keyed(self) -> bool {
        forall|i: int, j: int|
            0 <= i < j < self.entries.len() ==> (#[trigger] self.entries[i]).instance_id != (
            #[trigger] self.entries[j]).instance_id && self.entries[i].http_url
                != self.entries[j].http_url
    }
}

impl RegistryStore {
    /// A store without instances.
    pub fn new() -> (r: RegistryStore)
        ensures
            r@ == (RegistryView { entries: Seq::empty(), events: Seq::empty() }),
    {
        let r = RegistryStore { entries: Vec::new(), events: Vec::new() };
        assert(r@ =~= RegistryView { entries: Seq::empty(), events: Seq::empty() });
        r
    }

    fn knows(&self, id: &str) -> (r: bool)
        ensures
            r == self@.has(id@),
    {
        let mut i: usize = 0;
        while i < self.entries.len()
            invariant
                i <= self.entries@.len(),
                forall|j: int| 0 <= j < i ==> (#[trigger] self@.entries[j]).instance_id != id@,
            decreases self.entries@.len() - i,
        {
            assert(self@.entries[i as int] == self.entries@[i as int]@);
            if text::same(self.entries[i].instance_id.as_str(), id) {
                return true;
            }
            i += 1;
        }
        false
    }

    fn loses(&self, x: &str, id: &str, url: &str) -> (r: bool)
        ensures
            r == self@.is_displaced(x@, id@, url@),
    {
        let mut i: usize = 0;
        while i < self.entries.len()
            invariant
                i <= self.entries@.len(),
                forall|j: int|
                    0 <= j < i ==> !((#[trigger] self@.entries[j]).instance_id == x@
                        && RegistryView::displaces(self@.entries[j], id@, url@)),
            decreases self.entries@.len() - i,
        {
            assert(self@.entries[i as int] == self.entries@[i as int]@);
            if text::same(self.entries[i].instance_id.as_str(), x) && (text::same(
                self.entries[i].instance_id.as_str(),
                id,
            ) || text::same(self.entries[i].http_url.as_str(), url)) {
                return true;
            }
            i += 1;
        }
        false
    }

    /// Register an instance: an instance with the same id or the same address goes,
    /// with its events, and the new one is of unknown health. The id of one that
    /// had the same address comes back.
    pub fn register(&mut self, entry: RegistrationEntry) -> (r: Option<String>)
        ensures
            final(self)@ == old(self)@.registered(entry@),
            text::opt(r) == (match old(self)@.put_out(entry@) {
                Some(x) => Some(x.instance_id),
                None => None,
            }),
            old(self)@.keyed() ==> final(self)@.keyed(),
    {
        let ghost e = entry@;
        let ghost v = self@;
        let ghost keep = |x: EntryView| !RegistryView::displaces(x, e.instance_id, e.http_url);
        let ghost hear = |x: AgentEventView| !v.is_displaced(x.instance_id, e.instance_id, e.http_url);
        let ghost away = |x: EntryView| x.http_url == e.http_url && x.instance_id != e.instance_id;
        let mut displaced: Option<String> = None;
        let mut entries: Vec<RegistrationEntry> = Vec::new();
        let mut i: usize = 0;
        assert(entry_views(entries@) =~= v.entries.take(0).filter(keep));
        while i < self.entries.len()
            invariant
                i <= self.entries@.len(),
                v == self@,
                e == entry@,
                keep == (|x: EntryView| !RegistryView::displaces(x, e.instance_id, e.http_url)),
                away == (|x: EntryView| x.http_url == e.http_url && x.instance_id != e.instance_id),
                entry_views(entries@) == v.entries.take(i as int).filter(keep),
                displaced is None ==> forall|j: int| 0 <= j < i ==> !away(#[trigger] v.entries[j]),
                displaced is Some ==> v.put_out(e) is Some && text::opt(displaced) == Some(v.put_out(e)->0.instance_id),
            decreases self.entries@.len() - i,
        {
            proof {
                assert(v.entries[i as int] == self.entries@[i as int]@);
                text::lemma_filter_more(v.entries, keep, i + 1);
            }
            let same_id = text::same(self.entries[i].instance_id.as_str(), entry.instance_id.as_str());
            let same_url = text::same(self.entries[i].http_url.as_str(), entry.http_url.as_str());
            if same_url && !same_id && displaced.is_none() {
                proof {
                    execution_store::lemma_first_at(v.entries, away, i as int);
                }
                displaced = Some(self.entries[i].instance_id.clone());
            }
            if !same_id && !same_url {
                let ghost prior = entry_views(entries@);
                entries.push(self.entries[i].clone());
                assert(entry_views(entries@) =~= prior.push(v.entries[i as int]));
            }
            i += 1;
        }
        proof {
            assert(v.entries.take(v.entries.len() as int) =~= v.entries);
            if displaced is None {
                execution_store::lemma_first_at(v.entries, away, v.entries.len() as int);
            }
        }
        let mut events: Vec<AgentEvent> = Vec::new();
        let mut k: usize = 0;
        assert(event_views(events@) =~= v.events.take(0).filter(hear));
        while k < self.events.len()
            invariant
                k <= self.events@.len(),
                v == self@,
                e == entry@,
                hear == (|x: AgentEventView| !v.is_displaced(x.instance_id, e.instance_id, e.http_url)),
                event_views(events@) == v.events.take(k as int).filter(hear),
            decreases self.events@.len() - k,
        {
            proof {
                assert(v.events[k as int] == self.events@[k as int]@);
                text::lemma_filter_more(v.events, hear, k + 1);
            }
            if !self.loses(
                self.events[k].instance_id.as_str(),
                entry.instance_id.as_str(),
                entry.http_url.as_str(),
            ) {
                let ghost prior = event_views(events@);
                events.push(self.events[k].clone());
                assert(event_views(events@) =~= prior.push(v.events[k as int]));
            }
            k += 1;
        }
        assert(v.events.take(v.events.len() as int) =~= v.events);
        let ghost kept = entry_views(entries@);
        entries.push(
            RegistrationEntry { last_health_check: None, status: RegistryStatus::Unknown, ..entry },
        );
        self.entries = entries;
        self.events = events;
        proof {
            assert(entry_views(self.entries@) =~= kept.push(
                EntryView { last_health_check: None, status: RegistryStatus::Unknown, ..e },
            ));
            if v.keyed() {
                lemma_registered_keyed(v, e);
            }
        }
        displaced
    }

    /// Remove an instance with its events; whether there was one.
    pub fn deregister(&mut self, instance_id: &str) -> (r: bool)
        ensures
            r == old(self)@.has(instance_id@),
            final(self)@ == old(self)@.deregistered(instance_id@),
    {
        if !self.knows(instance_id) {
            return false;
        }
        let ghost v = self@;
        let ghost keep = |x: EntryView| x.instance_id != instance_id@;
        let ghost hear = |x: AgentEventView| x.instance_id != instance_id@;
        let mut entries: Vec<RegistrationEntry> = Vec::new();
        let mut i: usize = 0;
        assert(entry_views(entries@) =~= v.entries.take(0).filter(keep));
        while i < self.entries.len()
            invariant
                i <= self.entries@.len(),
                v == self@,
                keep == (|x: EntryView| x.instance_id != instance_id@),
                entry_views(entries@) == v.entries.take(i as int).filter(keep),
            decreases self.entries@.len() - i,
        {
            proof {
                assert(v.entries[i as int] == self.entries@[i as int]@);
                text::lemma_filter_more(v.entries, keep, i + 1);
            }
            if !text::same(self.entries[i].instance_id.as_str(), instance_id) {
                let ghost prior = entry_views(entries@);
                entries.push(self.entries[i].clone());
                assert(entry_views(entries@) =~= prior.push(v.entries[i as int]));
            }
            i += 1;
        }
        assert(v.entries.take(v.entries.len() as int) =~= v.entries);
        let mut events: Vec<AgentEvent> = Vec::new();
        let mut k: usize = 0;
        assert(event_views(events@) =~= v.events.take(0).filter(hear));
        while k < self.events.len()
            invariant
                k <= self.events@.len(),
                v == self@,
                hear == (|x: AgentEventView| x.instance_id != instance_id@),
                event_views(events@) == v.events.take(k as int).filter(hear),
            decreases self.events@.len() - k,
        {
            proof {
                assert(v.events[k as int] == self.events@[k as int]@);
                text::lemma_filter_more(v.events, hear, k + 1);
            }
            if !text::same(self.events[k].instance_id.as_str(), instance_id) {
                let ghost prior = event_views(events@);
                events.push(self.events[k].clone());
                assert(event_views(events@) =~= prior.push(v.events[k as int]));
            }
            k += 1;
        }
        assert(v.events.take(v.events.len() as int) =~= v.events);
        self.entries = entries;
        self.events = events;
        true
    }

    /// Enter what a look at an instance has shown.
    pub fn update_health(&mut self, instance_id: &str, status: RegistryStatus, timestamp: &str)
        ensures
            final(self)@ == old(self)@.checked(instance_id@, status, timestamp@),
    {
        let ghost before = *self;
        let ghost after = self@.checked(instance_id@, status, timestamp@);
        let mut i: usize = 0;
        while i < self.entries.len()
            invariant
                i <= self.entries@.len(),
                self.entries@.len() == before.entries@.len(),
                self.events@ == before.events@,
                after == before@.checked(instance_id@, status, timestamp@),
                forall|j: int| 0 <= j < i ==> (#[trigger] self.entries@[j])@ == after.entries[j],
                forall|j: int|
                    i <= j < self.entries@.len() ==> (#[trigger] self.entries@[j])@ == before@.entries[j],
            decreases self.entries@.len() - i,
        {
            if text::same(self.entries[i].instance_id.as_str(), instance_id) {
                let row = RegistrationEntry {
                    status,
                    last_health_check: Some(timestamp.to_string()),
                    ..self.entries[i].clone()
                };
                self.entries.set(i, row);
            }
            i += 1;
        }
        assert(self@ =~= after);
    }

    /// All instances, in the order of their registration.
    pub fn list_all(&self) -> (r: Vec<RegistrationEntry>)
        ensures
            entry_views(r@) == self@.entries,
    {
        let mut out: Vec<RegistrationEntry> = Vec::new();
        let mut i: usize = 0;
        while i < self.entries.len()
            invariant
                i <= self.entries@.len(),
                out@.len() == i,
                forall|j: int| 0 <= j < i ==> (#[trigger] out@[j])@ == self@.entries[j],
            decreases self.entries@.len() - i,
        {
            out.push(self.entries[i].clone());
            i += 1;
        }
        assert(entry_views(out@) =~= self@.entries);
        out
    }

    /// The instances of one agent.
    pub fn list_by_name(&self, name: &str) -> (r: Vec<RegistrationEntry>)
        ensures
            entry_views(r@) == self@.named(name@),
    {
        let ghost v = self@;
        let ghost keep = |x: EntryView| x.name == name@;
        let mut out: Vec<RegistrationEntry> = Vec::new();
        let mut i: usize = 0;
        assert(entry_views(out@) =~= v.entries.take(0).filter(keep));
        while i < self.entries.len()
            invariant
                i <= self.entries@.len(),
                v == self@,
                keep == (|x: EntryView| x.name == name@),
                entry_views(out@) == v.entries.take(i as int).filter(keep),
            decreases self.entries@.len() - i,
        {
            proof {
                assert(v.entries[i as int] == self.entries@[i as int]@);
                text::lemma_filter_more(v.entries, keep, i + 1);
            }
            if text::same(self.entries[i].name.as_str(), name) {
                let ghost prior = entry_views(out@);
                out.push(self.entries[i].clone());
                assert(entry_views(out@) =~= prior.push(v.entries[i as int]));
            }
            i += 1;
        }
        assert(v.entries.take(v.entries.len() as int) =~= v.entries);
        out
    }

    /// Keep an event of an instance. Refused where there is no such instance.
    pub fn add_event(&mut self, instance_id: &str, event_type: &str, payload: &str, now: &str) -> (r: Result<
        (),
        AetherError,
    >)
        ensures
            r is Ok <==> old(self)@.has(instance_id@),
            r is Ok ==> final(self)@ == (RegistryView {
                entries: old(self)@.entries,
                events: old(self)@.events.push(
                    AgentEventView {
                        instance_id: instance_id@,
                        event_type: event_type@,
                        payload: payload@,
                        received_at: now@,
                    },
                ),
            }),
            r matches Err(e) ==> final(self)@ == old(self)@ && e@ == (ErrorView::RegistryError {
                message: "FOREIGN KEY constraint failed"@,
            }),
    {
        if !self.knows(instance_id) {
            return Err(
                AetherError::RegistryError { message: "FOREIGN KEY constraint failed".to_string() },
            );
        }
        let ghost before = self@;
        self.events.push(
            AgentEvent {
                instance_id: instance_id.to_string(),
                event_type: event_type.to_string(),
                payload: payload.to_string(),
                received_at: now.to_string(),
            },
        );
        assert(self@.events =~= before.events.push(
            AgentEventView {
                instance_id: instance_id@,
                event_type: event_type@,
                payload: payload@,
                received_at: now@,
            },
        ));
        Ok(())
    }
}

/// A filter of a sequence in which no two members clash has no two that clash.
proof fn lemma_filter_keyed(s: Seq<EntryView>, p: spec_fn(EntryView) -> bool)
    requires
        (RegistryView { entries: s, events: Seq::empty() }).keyed(),
    ensures
        (RegistryView { entries: s.filter(p), events: Seq::empty() }).keyed(),
        forall|i: int| 0 <= i < s.filter(p).len() ==> s.contains(#[trigger] s.filter(p)[i]) && p(s.filter(p)[i]),
    decreases s.len(),
{
    reveal(Seq::filter);
    if s.len() > 0 {
        let t = s.drop_last();
        assert forall|i: int, j: int| 0 <= i < j < t.len() implies (#[trigger] t[i]).instance_id != (#[trigger] t[j]).instance_id && t[i].http_url != t[j].http_url by {
            assert(t[i] == s[i] && t[j] == s[j]);
        }
        lemma_filter_keyed(t, p);
        let f = s.filter(p);
        let g = t.filter(p);
        assert forall|i: int| 0 <= i < f.len() implies s.contains(#[trigger] f[i]) && p(f[i]) by {
            if i < g.len() {
                assert(f[i] == g[i]);
                let a = choose|a: int| 0 <= a < t.len() && t[a] == g[i];
                assert(s[a] == g[i]);
            } else {
                assert(s[s.len() - 1] == f[i]);
            }
        }
        assert forall|i: int, j: int| 0 <= i < j < f.len() implies (#[trigger] f[i]).instance_id != (#[trigger] f[j]).instance_id && f[i].http_url != f[j].http_url by {
            if j < g.len() {
                assert(f[i] == g[i] && f[j] == g[j]);
            } else {
                assert(f[i] == g[i]);
                let a = choose|a: int| 0 <= a < t.len() && t[a] == g[i];
                assert(s[a] == f[i] && s[s.len() - 1] == f[j]);
            }
        }
    }
}

proof fn lemma_registered_keyed(v: RegistryView, e: EntryView)
    requires
        v.keyed(),
    ensures
        v.registered(e).keyed(),
{
    let keep = |x: EntryView| !RegistryView::displaces(x, e.instance_id, e.http_url);
    assert((RegistryView { entries: v.entries, events: Seq::empty() }).keyed());
    lemma_filter_keyed(v.entries, keep);
    let f = v.entries.filter(keep);
    let g = v.registered(e).entries;
    let h = RegistryView { entries: f, events: Seq::empty() };
    assert forall|i: int, j: int| 0 <= i < j < g.len() implies (#[trigger] g[i]).instance_id != (#[trigger] g[j]).instance_id && g[i].http_url != g[j].http_url by {
        assert(g[i] == f[i]);
        assert(keep(f[i]));
        if j < f.len() {
            assert(g[j] == f[j]);
            assert(h.entries[i].instance_id != h.entries[j].instance_id);
        }
    }
}

/// The capabilities that a stored text lists; none where it is no list of
/// strings.
pub open spec fn stored_capabilities(s: Seq<char>) -> Seq<Seq<char>> {
    match json::json_parse(s) {
        Ok(v) => match decode::texts_of(v) {
            Ok(t) => t,
            Err(_) => Seq::empty(),
        },
        Err(_) => Seq::empty(),
    }
}

/// The labels that a stored text holds; none where it is no object of strings.
pub open spec fn stored_labels(s: Seq<char>) -> Map<Seq<char>, Seq<char>> {
    match json::json_parse(s) {
        Ok(v) => match decode::labels_of(v) {
            Ok(m) => m,
            Err(_) => Map::empty(),
        },
        Err(_) => Map::empty(),
    }
}

/// See `stored_capabilities`.
pub fn capabilities_from_text(s: &str) -> (r: Vec<String>)
    ensures
        text::strs(r@) == stored_capabilities(s@),
{
    if let Ok(v) = Json::parse(s) {
        if let Ok(t) = decode::texts(&v) {
            return t;
        }
    }
    let none: Vec<String> = Vec::new();
    assert(text::strs(none@) =~= Seq::empty());
    none
}

/// See `stored_labels`.
pub fn labels_from_text(s: &str) -> (r: TextMap<String>)
    ensures
        decode::labels(r@) == stored_labels(s@),
{
    if let Ok(v) = Json::parse(s) {
        if let Ok(m) = decode::label_map(&v) {
            return m;
        }
    }
    let none: TextMap<String> = TextMap::new();
    assert(decode::labels(none@) =~= Map::empty());
    none
}

/// The text in which capabilities are stored. Read back, they are the same.
pub fn capabilities_to_text(v: &Vec<String>) -> (r: String)
    ensures
        r@ == json::json_text(dag::texts_json(text::strs(v@))),
        stored_capabilities(r@) == text::strs(v@),
{
    let list = supervisor::text_list(v);
    proof {
        let s = text::strs(v@);
        assert(list@->List_0 =~= dag::texts_json(s)->List_0);
        reveal_with_fuel(json::nests_within, 2);
        assert(json::nests_within(list@, 127));
        dag::lemma_texts_round_trip(s, s.len());
        assert(s.take(s.len() as int) =~= s);
    }
    list.to_text()
}

/// The text in which labels are stored. Read back, they are the same.
pub fn labels_to_text(m: &TextMap<String>) -> (r: String)
    ensures
        r@ == json::json_text(dag::labels_json(decode::labels(m@))),
        stored_labels(r@) == decode::labels(m@),
{
    let object = dag::labels_to_json(m);
    let count: usize = m.len();
    proof {
        let l = decode::labels(m@);
        assert(l.dom() =~= m@.dom());
        reveal_with_fuel(json::nests_within, 2);
        assert(json::nests_within(object@, 127));
        dag::lemma_label_map_round_trip(l);
    }
    object.to_text()
}

/// An instance out of the texts in which it is stored.
pub fn entry_from_row(
    instance_id: String,
    name: String,
    http_url: String,
    capabilities: &str,
    metadata: &str,
    registered_at: String,
    last_health_check: Option<String>,
    status: &str,
) -> (r: RegistrationEntry)
    ensures
        r@ == (EntryView {
            instance_id: instance_id@,
            name: name@,
            http_url: http_url@,
            capabilities: stored_capabilities(capabilities@),
            metadata: stored_labels(metadata@),
            registered_at: registered_at@,
            last_health_check: text::opt(last_health_check),
            status: RegistryStatus::of_label(status@),
        }),
{
    RegistrationEntry {
        instance_id,
        name,
        http_url,
        capabilities: capabilities_from_text(capabilities),
        metadata: labels_from_text(metadata),
        registered_at,
        last_health_check,
        status: RegistryStatus::parse(status),
    }
}

/// A registered instance is the one at its address and the one with its id, and its
/// health is unknown until it is looked at. Instances elsewhere stay as they were.
pub proof fn law_registered_is_the_one_there(v: RegistryView, e: EntryView, i: int)
    requires
        0 <= i < v.registered(e).entries.len(),
    ensures
        ({
            let x = v.registered(e).entries[i];
            let fresh = EntryView { last_health_check: None, status: RegistryStatus::Unknown, ..e };
            &&& v.registered(e).has(e.instance_id)
            &&& x == fresh || (x.instance_id != e.instance_id && x.http_url != e.http_url
                && v.entries.contains(x))
        }),
{
    let stays = |x: EntryView| !RegistryView::displaces(x, e.instance_id, e.http_url);
    let kept = v.entries.filter(stays);
    let all = v.registered(e).entries;
    assert(all[all.len() - 1].instance_id == e.instance_id);
    if i < kept.len() {
        assert(all[i] == kept[i]);
        v.entries.lemma_filter_pred(stays, i);
        v.entries.lemma_filter_contains_rev(stays, kept[i]);
    }
}

/// An instance that was deregistered is gone with its events, and the others stay.
pub proof fn law_deregistered_is_gone(v: RegistryView, id: Seq<char>, i: int)
    ensures
        !v.deregistered(id).has(id),
        0 <= i < v.entries.len() && v.entries[i].instance_id != id ==> v.deregistered(
            id,
        ).entries.contains(v.entries[i]),
        v.has(id) && 0 <= i < v.deregistered(id).events.len() ==> v.deregistered(
            id,
        ).events[i].instance_id != id,
{
    let stays = |x: EntryView| x.instance_id != id;
    let heard = |x: AgentEventView| x.instance_id != id;
    let left = v.deregistered(id);
    if v.has(id) {
        assert forall|j: int| 0 <= j < left.entries.len() implies (#[trigger] left.entries[j]).instance_id
            != id by {
            v.entries.lemma_filter_pred(stays, j);
        }
        if 0 <= i < v.entries.len() && v.entries[i].instance_id != id {
            v.entries.lemma_filter_contains(stays, i);
        }
        if 0 <= i < left.events.len() {
            v.events.lemma_filter_pred(heard, i);
        }
    } else if 0 <= i < v.entries.len() {
        assert(left.entries[i] == v.entries[i]);
    }
}

/// A look at one instance changes the health of that one, and of no other; ids and
/// addresses stay apart.
pub proof fn law_look_changes_one_instance(
    v: RegistryView,
    id: Seq<char>,
    status: RegistryStatus,
    at: Seq<char>,
    i: int,
)
    requires
        0 <= i < v.entries.len(),
    ensures
        ({
            let x = v.checked(id, status, at).entries[i];
            if v.entries[i].instance_id == id {
                x.status == status && x.last_health_check == Some(at)
            } else {
                x == v.entries[i]
            }
        }),
        v.keyed() ==> v.checked(id, status, at).keyed(),
{
}

} // verus!
