//! Subscriptions to changes in the store: registering, pausing, resuming
//! and removing them, the bookkeeping of their triggers and errors, and the
//! counts the manager keeps. What a subscription queries, whether an event
//! concerns it, and delivering its results are left to the caller.

use vstd::prelude::*;
use crate::ast::{EmitClause, Query};
use crate::parser::{parse_query, query_at, query_is};
use crate::ids::new_uuid;
use crate::strmap::StrMap;

verus! {

/// State of a subscription.
#[derive(Debug, Clone, PartialEq, Eq)]
pub enum SubscriptionStatus {
    Active,
    Paused,
    Error(String),
    Stopped,
}

/// A WebSocket client of a subscription.
#[derive(Debug, Clone, PartialEq, Eq)]
pub struct WebSocketClient {
    pub subscription_id: String,
    pub endpoint: String,
    pub connected: bool,
}

/// Abstract value of a [`SubscriptionStatus`].
pub enum StatusView {
    Active,
    Paused,
    Error(Seq<char>),
    Stopped,
}

impl View for SubscriptionStatus {
    type V = StatusView;

    open spec fn view(&self) -> StatusView {
        match self {
            SubscriptionStatus::Active => StatusView::Active,
            SubscriptionStatus::Paused => StatusView::Paused,
            SubscriptionStatus::Error(m) => StatusView::Error(m@),
            SubscriptionStatus::Stopped => StatusView::Stopped,
        }
    }
}

/// Abstract value of an [`EmitClause`].
pub enum EmitView {
    Changes,
    Events,
    WebSocket(Seq<char>),
    Webhook(Seq<char>),
    Grpc(Seq<char>),
}

impl View for EmitClause {
    type V = EmitView;

    open spec fn view(&self) -> EmitView {
        match self {
            EmitClause::Changes => EmitView::Changes,
            EmitClause::Events => EmitView::Events,
            EmitClause::WebSocket { endpoint } => EmitView::WebSocket(endpoint@),
            EmitClause::Webhook { url } => EmitView::Webhook(url@),
            EmitClause::Grpc { service } => EmitView::Grpc(service@),
        }
    }
}

/// A registered subscription.
pub struct ActiveSubscription {
    pub id: String,
    pub emit: EmitClause,
    /// Seconds since the epoch.
    pub created_at: u64,
    pub last_triggered: Option<u64>,
    pub trigger_count: u64,
    pub error_count: u64,
    pub status: SubscriptionStatus,
}

/// Abstract value of an [`ActiveSubscription`].
pub struct SubView {
    pub id: Seq<char>,
    pub emit: EmitView,
    pub created_at: u64,
    pub last_triggered: Option<u64>,
    pub trigger_count: u64,
    pub error_count: u64,
    pub status: StatusView,
}

impl View for ActiveSubscription {
    type V = SubView;

    open spec fn view(&self) -> SubView {
        SubView {
            id: self.id@,
            emit: self.emit@,
            created_at: self.created_at,
            last_triggered: self.last_triggered,
            trigger_count: self.trigger_count,
            error_count: self.error_count,
            status: self.status@,
        }
    }
}

/// Counts the manager keeps.
#[derive(Debug, Clone, Copy, PartialEq, Eq, Structural)]
pub struct SubscriptionCounts {
    pub total_subscriptions: u64,
    pub active_subscriptions: u64,
    pub total_events: u64,
    pub total_errors: u64,
}

/// The ids of the active subscriptions of `m`.
pub open spec fn active_ids(m: Map<Seq<char>, SubView>) -> Set<Seq<char>> {
    m.dom().filter(|k: Seq<char>| m[k].status is Active)
}

/// The message for an id that is not registered.
pub open spec fn not_found(id: Seq<char>) -> Seq<char> {
    "Subscription '"@ + id + "' not found"@
}

/// A subscription as first registered at `now`.
pub open spec fn registered(id: Seq<char>, emit: EmitView, now: u64) -> SubView {
    SubView {
        id,
        emit,
        created_at: now,
        last_triggered: None,
        trigger_count: 0,
        error_count: 0,
        status: StatusView::Active,
    }
}

/// Errors a subscription may have before it is marked failed.
pub const MAX_ERRORS: u64 = 10;

/// A subscription after one more error: failed once it has more than
/// [`MAX_ERRORS`].
pub open spec fn after_error(s: SubView) -> SubView {
    SubView {
        error_count: (s.error_count + 1) as u64,
        status: if s.error_count + 1 > MAX_ERRORS { StatusView::Error("Too many errors"@) } else { s.status },
        ..s
    }
}

/// A subscription after its results were delivered at `now`.
pub open spec fn after_trigger(s: SubView, now: u64) -> SubView {
    SubView { last_triggered: Some(now), trigger_count: (s.trigger_count + 1) as u64, ..s }
}

/// How many of the keys `ks` name active subscriptions of `m`.
pub open spec fn count_active(ks: Seq<Seq<char>>, m: Map<Seq<char>, SubView>) -> nat
    decreases ks.len(),
{
    if ks.len() == 0 {
        0
    } else {
        count_active(ks.drop_last(), m) + if m[ks.last()].status is Active { 1nat } else { 0nat }
    }
}

proof fn lemma_count_active(ks: Seq<Seq<char>>, m: Map<Seq<char>, SubView>)
    requires
        ks.no_duplicates(),
    ensures
        count_active(ks, m) == ks.to_set().filter(|k: Seq<char>| m[k].status is Active).len(),
        ks.to_set().filter(|k: Seq<char>| m[k].status is Active).finite(),
    decreases ks.len(),
{
    broadcast use vstd::set::group_set_axioms, vstd::seq_lib::seq_to_set_is_finite;

    let p = |k: Seq<char>| m[k].status is Active;
    if ks.len() == 0 {
        assert(ks.to_set() =~= Set::<Seq<char>>::empty());
        assert(ks.to_set().filter(p) =~= Set::<Seq<char>>::empty());
    } else {
        let rest = ks.drop_last();
        let x = ks.last();
        assert(rest.no_duplicates()) by {
            assert forall|i: int, j: int| 0 <= i < rest.len() && 0 <= j < rest.len() && i != j implies rest[i] != rest[j] by {
                assert(rest[i] == ks[i] && rest[j] == ks[j]);
            }
        }
        lemma_count_active(rest, m);
        assert(ks.to_set() =~= rest.to_set().insert(x)) by {
            assert(ks =~= rest.push(x));
            assert forall|k: Seq<char>| ks.to_set().contains(k) <==> rest.to_set().insert(x).contains(k) by {
                if ks.to_set().contains(k) {
                    let i = choose|i: int| 0 <= i < ks.len() && ks[i] == k;
                    if i < ks.len() - 1 {
                        assert(rest[i] == k);
                    }
                }
                if rest.to_set().contains(k) {
                    let i = choose|i: int| 0 <= i < rest.len() && rest[i] == k;
                    assert(ks[i] == k);
                }
                if k == x {
                    assert(ks[ks.len() - 1] == k);
                }
            }
        }
        assert(!rest.to_set().contains(x)) by {
            if rest.to_set().contains(x) {
                let i = choose|i: int| 0 <= i < rest.len() && rest[i] == x;
                assert(ks[i] == ks[ks.len() - 1]);
            }
        }
        let f = rest.to_set().filter(p);
        if p(x) {
            assert(ks.to_set().filter(p) =~= f.insert(x));
        } else {
            assert(ks.to_set().filter(p) =~= f);
        }
    }
}

/// `m` with the entries put in, in order, a later one replacing an earlier
/// one of the same id.
pub open spec fn with_entries(m: Map<Seq<char>, SubView>, es: Seq<(Seq<char>, SubView)>) -> Map<Seq<char>, SubView>
    decreases es.len(),
{
    if es.len() == 0 {
        m
    } else {
        with_entries(m, es.drop_last()).insert(es.last().0, es.last().1)
    }
}

/// Keyed subscriptions as abstract values.
pub open spec fn entries_view(es: Seq<(String, ActiveSubscription)>) -> Seq<(Seq<char>, SubView)> {
    es.map_values(|e: (String, ActiveSubscription)| (e.0@, e.1@))
}

/// The strings as abstract values.
pub open spec fn ids_view(ss: Seq<String>) -> Seq<Seq<char>> {
    ss.map_values(|s: String| s@)
}

/// Pausing an active subscription and resuming it gives back the
/// subscription as it was.
pub proof fn law_pause_then_resume(m: Map<Seq<char>, SubView>, id: Seq<char>)
    requires
        m.contains_key(id),
        m[id].status is Active,
    ensures
        ({
            let paused = m.insert(id, SubView { status: StatusView::Paused, ..m[id] });
            paused.insert(id, SubView { status: StatusView::Active, ..paused[id] })
        }) == m,
{
    let paused = m.insert(id, SubView { status: StatusView::Paused, ..m[id] });
    assert(paused.insert(id, SubView { status: StatusView::Active, ..paused[id] }) =~= m);
}

/// A subscription that errs more than [`MAX_ERRORS`] times is marked
/// failed, and stays so on further errors.
pub proof fn law_errors_fail(s: SubView)
    requires
        s.error_count < u64::MAX,
    ensures
        after_error(s).error_count > MAX_ERRORS ==> after_error(s).status == StatusView::Error("Too many errors"@),
        after_error(s).error_count == s.error_count + 1,
{
}

/// Subscriptions by id, and the counts.
pub struct SubscriptionManager {
    subscriptions: StrMap<ActiveSubscription>,
    websocket_clients: StrMap<WebSocketClient>,
    stats: SubscriptionCounts,
}

impl SubscriptionManager {
    /// The subscriptions by id.
    pub closed spec fn subs(&self) -> Map<Seq<char>, SubView> {
        self.subscriptions.spec_map().map_values(|s: ActiveSubscription| s@)
    }

    /// The WebSocket endpoints by subscription id.
    pub closed spec fn endpoints(&self) -> Map<Seq<char>, Seq<char>> {
        self.websocket_clients.spec_map().map_values(|c: WebSocketClient| c.endpoint@)
    }

    /// The counts.
    pub closed spec fn counts(&self) -> SubscriptionCounts {
        self.stats
    }
}

fn concat(a: &str, b: &str) -> (r: String)
    ensures
        r@ == a@ + b@,
{
    let mut r = a.to_owned();
    r.append(b);
    r
}

fn not_found_message(id: &str) -> (m: String)
    ensures
        m@ == not_found(id@),
{
    let a = concat("Subscription '", id);
    concat(a.as_str(), "' not found")
}

/// Copies an emit clause.
pub fn clone_emit(e: &EmitClause) -> (r: EmitClause)
    ensures
        r@ == e@,
{
    match e {
        EmitClause::Changes => EmitClause::Changes,
        EmitClause::Events => EmitClause::Events,
        EmitClause::WebSocket { endpoint } => EmitClause::WebSocket { endpoint: endpoint.clone() },
        EmitClause::Webhook { url } => EmitClause::Webhook { url: url.clone() },
        EmitClause::Grpc { service } => EmitClause::Grpc { service: service.clone() },
    }
}

/// Copies a status.
pub fn clone_status(s: &SubscriptionStatus) -> (r: SubscriptionStatus)
    ensures
        r@ == s@,
{
    match s {
        SubscriptionStatus::Active => SubscriptionStatus::Active,
        SubscriptionStatus::Paused => SubscriptionStatus::Paused,
        SubscriptionStatus::Error(m) => SubscriptionStatus::Error(m.clone()),
        SubscriptionStatus::Stopped => SubscriptionStatus::Stopped,
    }
}

/// Copies a subscription.
pub fn clone_subscription(s: &ActiveSubscription) -> (r: ActiveSubscription)
    ensures
        r@ == s@,
{
    ActiveSubscription {
        id: s.id.clone(),
        emit: clone_emit(&s.emit),
        created_at: s.created_at,
        last_triggered: s.last_triggered,
        trigger_count: s.trigger_count,
        error_count: s.error_count,
        status: clone_status(&s.status),
    }
}

impl SubscriptionManager {
    /// No subscriptions; all counts zero.
    pub fn new() -> (m: Self)
        ensures
            m.subs() == Map::<Seq<char>, SubView>::empty(),
            m.endpoints() == Map::<Seq<char>, Seq<char>>::empty(),
            m.counts() == (SubscriptionCounts { total_subscriptions: 0, active_subscriptions: 0, total_events: 0, total_errors: 0 }),
    {
        let m = SubscriptionManager {
            subscriptions: StrMap::new(),
            websocket_clients: StrMap::new(),
            stats: SubscriptionCounts { total_subscriptions: 0, active_subscriptions: 0, total_events: 0, total_errors: 0 },
        };
        assert(m.subs() =~= Map::<Seq<char>, SubView>::empty());
        assert(m.endpoints() =~= Map::<Seq<char>, Seq<char>>::empty());
        m
    }

    /// Recounts the subscriptions and the active ones.
    fn refresh_counts(&mut self)
        ensures
            final(self).subs() == old(self).subs(),
            final(self).endpoints() == old(self).endpoints(),
            final(self).counts().total_subscriptions == old(self).subs().dom().len(),
            final(self).counts().active_subscriptions == active_ids(old(self).subs()).len(),
            final(self).counts().total_events == old(self).counts().total_events,
            final(self).counts().total_errors == old(self).counts().total_errors,
    {
        let keys = self.subscriptions.keys();
        let ghost ks = keys@.map_values(|s: String| s@);
        let ghost m = self.subs();
        let mut active: u64 = 0;
        let mut i: usize = 0;
        while i < keys.len()
            invariant
                i <= keys@.len(),
                active <= i,
                ks == keys@.map_values(|s: String| s@),
                m == self.subs(),
                ks.to_set() == self.subscriptions.spec_map().dom(),
                active == count_active(ks.take(i as int), m),
            decreases keys@.len() - i,
        {
            proof {
                assert(ks.take(i + 1).drop_last() =~= ks.take(i as int));
                assert(ks.take(i + 1).last() == keys@[i as int]@);
                assert(ks.to_set().contains(ks[i as int]));
            }
            match self.subscriptions.get(keys[i].as_str()) {
                Some(s) => {
                    if let SubscriptionStatus::Active = s.status {
                        active = active + 1;
                    }
                },
                None => {},
            }
            i = i + 1;
        }
        proof {
            assert(ks.take(keys@.len() as int) =~= ks);
            lemma_count_active(ks, m);
            assert(m.dom() == ks.to_set());
            assert(active_ids(m) =~= ks.to_set().filter(|k: Seq<char>| m[k].status is Active));
        }
        self.stats.total_subscriptions = keys.len() as u64;
        self.stats.active_subscriptions = active;
    }

    /// Registers a subscription under `id`, or under a fresh random id,
    /// as active at `now` (seconds since the epoch), replacing one of the
    /// same id; a WebSocket emitter also records its client. Gives the id.
    pub fn register(&mut self, id: Option<String>, emit: EmitClause, now: u64) -> (r: Result<String, String>)
        ensures
            match r {
                Ok(k) => {
                    &&& (id matches Some(i) ==> k@ == i@)
                    &&& (id is None ==> crate::ids::is_v4_uuid_text(k@))
                    &&& final(self).subs() == old(self).subs().insert(k@, registered(k@, emit@, now))
                    &&& final(self).endpoints() == match emit {
                        EmitClause::WebSocket { endpoint } => old(self).endpoints().insert(k@, endpoint@),
                        _ => old(self).endpoints(),
                    }
                    &&& final(self).counts().total_subscriptions == final(self).subs().dom().len()
                    &&& final(self).counts().active_subscriptions == active_ids(final(self).subs()).len()
                    &&& final(self).counts().total_events == old(self).counts().total_events
                    &&& final(self).counts().total_errors == old(self).counts().total_errors
                },
                Err(_) => false,
            },
    {
        let key = match id {
            Some(i) => i,
            None => new_uuid(),
        };
        let ghost e = emit@;
        if let EmitClause::WebSocket { endpoint } = &emit {
            let client = WebSocketClient { subscription_id: key.clone(), endpoint: endpoint.clone(), connected: true };
            self.websocket_clients.insert(key.clone(), client);
            proof {
                assert(self.endpoints() =~= old(self).endpoints().insert(key@, endpoint@));
            }
        }
        let sub = ActiveSubscription {
            id: key.clone(),
            emit,
            created_at: now,
            last_triggered: None,
            trigger_count: 0,
            error_count: 0,
            status: SubscriptionStatus::Active,
        };
        self.subscriptions.insert(key.clone(), sub);
        proof {
            assert(self.subs() =~= old(self).subs().insert(key@, registered(key@, e, now)));
        }
        self.refresh_counts();
        Ok(key)
    }

    /// Removes subscription `id` and its WebSocket client.
    pub fn unsubscribe(&mut self, id: &str) -> (r: Result<(), String>)
        ensures
            !old(self).subs().contains_key(id@) ==> (r matches Err(e) && e@ == not_found(id@))
                && final(self).subs() == old(self).subs() && final(self).endpoints() == old(self).endpoints()
                && final(self).counts() == old(self).counts(),
            old(self).subs().contains_key(id@) ==> {
                &&& r is Ok
                &&& final(self).subs() == old(self).subs().remove(id@)
                &&& final(self).endpoints() == old(self).endpoints().remove(id@)
                &&& final(self).counts().total_subscriptions == final(self).subs().dom().len()
                &&& final(self).counts().active_subscriptions == active_ids(final(self).subs()).len()
                &&& final(self).counts().total_events == old(self).counts().total_events
                &&& final(self).counts().total_errors == old(self).counts().total_errors
            },
    {
        match self.subscriptions.remove(id) {
            None => {
                proof {
                    assert(self.subs() =~= old(self).subs());
                }
                Err(not_found_message(id))
            },
            Some(_) => {
                self.websocket_clients.remove(id);
                proof {
                    assert(self.subs() =~= old(self).subs().remove(id@));
                    assert(self.endpoints() =~= old(self).endpoints().remove(id@));
                }
                self.refresh_counts();
                Ok(())
            },
        }
    }

    /// Sets the status of subscription `id`; the counts are left as they
    /// were.
    fn set_status(&mut self, id: &str, status: SubscriptionStatus) -> (r: Result<(), String>)
        ensures
            !old(self).subs().contains_key(id@) ==> (r matches Err(e) && e@ == not_found(id@))
                && final(self).subs() == old(self).subs(),
            old(self).subs().contains_key(id@) ==> r is Ok && final(self).subs() == old(self).subs().insert(
                id@,
                SubView { status: status@, ..old(self).subs()[id@] },
            ),
            final(self).endpoints() == old(self).endpoints(),
            final(self).counts() == old(self).counts(),
    {
        match self.subscriptions.remove(id) {
            None => {
                proof {
                    assert(self.subs() =~= old(self).subs());
                }
                Err(not_found_message(id))
            },
            Some(sub) => {
                let ghost s = sub@;
                let updated = ActiveSubscription { status, ..sub };
                self.subscriptions.insert(id.to_owned(), updated);
                proof {
                    assert(self.subs() =~= old(self).subs().insert(id@, SubView { status: status@, ..s }));
                }
                Ok(())
            },
        }
    }

    /// Pauses subscription `id`.
    pub fn pause(&mut self, id: &str) -> (r: Result<(), String>)
        ensures
            !old(self).subs().contains_key(id@) ==> (r matches Err(e) && e@ == not_found(id@))
                && final(self).subs() == old(self).subs(),
            old(self).subs().contains_key(id@) ==> r is Ok && final(self).subs() == old(self).subs().insert(
                id@,
                SubView { status: StatusView::Paused, ..old(self).subs()[id@] },
            ),
            final(self).endpoints() == old(self).endpoints(),
            final(self).counts() == old(self).counts(),
    {
        self.set_status(id, SubscriptionStatus::Paused)
    }

    /// Resumes subscription `id`.
    pub fn resume(&mut self, id: &str) -> (r: Result<(), String>)
        ensures
            !old(self).subs().contains_key(id@) ==> (r matches Err(e) && e@ == not_found(id@))
                && final(self).subs() == old(self).subs(),
            old(self).subs().contains_key(id@) ==> r is Ok && final(self).subs() == old(self).subs().insert(
                id@,
                SubView { status: StatusView::Active, ..old(self).subs()[id@] },
            ),
            final(self).endpoints() == old(self).endpoints(),
            final(self).counts() == old(self).counts(),
    {
        self.set_status(id, SubscriptionStatus::Active)
    }

    /// Subscription `id`, where registered.
    pub fn get_subscription(&self, id: &str) -> (r: Option<ActiveSubscription>)
        ensures
            match r {
                Some(s) => self.subs().contains_key(id@) && s@ == self.subs()[id@],
                None => !self.subs().contains_key(id@),
            },
    {
        match self.subscriptions.get(id) {
            Some(s) => Some(clone_subscription(s)),
            None => None,
        }
    }

    /// All subscriptions, each once.
    pub fn list_subscriptions(&self) -> (r: Vec<ActiveSubscription>)
        ensures
            exists|ks: Seq<Seq<char>>| {
                &&& ks.len() == r@.len()
                &&& ks.no_duplicates()
                &&& ks.to_set() == self.subs().dom()
                &&& forall|i: int| 0 <= i < r@.len() ==> #[trigger] r@[i]@ == self.subs()[ks[i]]
            },
    {
        let keys = self.subscriptions.keys();
        let ghost ks = keys@.map_values(|s: String| s@);
        let mut out: Vec<ActiveSubscription> = Vec::new();
        let mut i: usize = 0;
        while i < keys.len()
            invariant
                i <= keys@.len(),
                ks == keys@.map_values(|s: String| s@),
                ks.to_set() == self.subscriptions.spec_map().dom(),
                out@.len() == i,
                forall|j: int| 0 <= j < out@.len() ==> #[trigger] out@[j]@ == self.subs()[ks[j]],
            decreases keys@.len() - i,
        {
            proof {
                assert(ks.to_set().contains(ks[i as int]));
            }
            let s = match self.subscriptions.get(keys[i].as_str()) {
                Some(s) => s,
                None => {
                    assert(false);
                    return out;
                },
            };
            let c = clone_subscription(s);
            proof {
                assert(ks[i as int] == keys@[i as int]@);
            }
            out.push(c);
            i = i + 1;
        }
        proof {
            assert(self.subs().dom() =~= self.subscriptions.spec_map().dom());
            assert(ks.len() == out@.len());
        }
        out
    }

    /// The ids of the active subscriptions, each once: those an event is
    /// checked against.
    pub fn active_subscription_ids(&self) -> (r: Vec<String>)
        ensures
            ids_view(r@).no_duplicates(),
            forall|k: Seq<char>| #[trigger] ids_view(r@).contains(k) <==> active_ids(self.subs()).contains(k),
    {
        let keys = self.subscriptions.keys();
        let ghost ks = keys@.map_values(|s: String| s@);
        let ghost m = self.subs();
        let mut out: Vec<String> = Vec::new();
        let mut i: usize = 0;
        while i < keys.len()
            invariant
                i <= keys@.len(),
                ks == keys@.map_values(|s: String| s@),
                ks.no_duplicates(),
                ks.to_set() == self.subscriptions.spec_map().dom(),
                m == self.subs(),
                ids_view(out@).no_duplicates(),
                forall|j: int| 0 <= j < out@.len() ==> ks.take(i as int).contains(#[trigger] out@[j]@),
                forall|j: int| 0 <= j < out@.len() ==> active_ids(m).contains(#[trigger] out@[j]@),
                forall|j: int| 0 <= j < i ==> active_ids(m).contains(#[trigger] ks[j]) ==> ids_view(out@).contains(ks[j]),
            decreases keys@.len() - i,
        {
            proof {
                assert(ks.to_set().contains(ks[i as int]));
                assert(m.dom() =~= self.subscriptions.spec_map().dom());
            }
            let active = match self.subscriptions.get(keys[i].as_str()) {
                Some(s) => if let SubscriptionStatus::Active = s.status { true } else { false },
                None => false,
            };
            let ghost before = out@;
            if active {
                proof {
                    assert forall|j: int| 0 <= j < before.len() implies before[j]@ != ks[i as int] by {
                        assert(ks.take(i as int).contains(before[j]@));
                        let p = choose|p: int| 0 <= p < i && ks.take(i as int)[p] == before[j]@;
                        assert(ks[p] == ks[i as int] ==> p == i);
                    }
                }
                out.push(keys[i].clone());
                proof {
                    let ov = ids_view(out@);
                    assert(ov == ids_view(before).push(ks[i as int]));
                    assert forall|a: int, b: int| 0 <= a < ov.len() && 0 <= b < ov.len() && a != b implies ov[a] != ov[b] by {
                        if a < before.len() && b < before.len() {
                            assert(ov[a] == ids_view(before)[a]);
                            assert(ov[b] == ids_view(before)[b]);
                        } else if a < before.len() {
                            assert(before[a]@ != ks[i as int]);
                        } else if b < before.len() {
                            assert(before[b]@ != ks[i as int]);
                        }
                    }
                    assert(ov.contains(ks[i as int])) by {
                        assert(ov[before.len() as int] == ks[i as int]);
                    }
                }
            }
            proof {
                let ov = ids_view(out@);
                assert forall|j: int| 0 <= j < out@.len() implies ks.take(i + 1).contains(#[trigger] out@[j]@) by {
                    if j < before.len() {
                        let p = choose|p: int| 0 <= p < i && ks.take(i as int)[p] == out@[j]@;
                        assert(ks.take(i + 1)[p] == out@[j]@);
                    } else {
                        assert(ks.take(i + 1)[i as int] == out@[j]@);
                    }
                }
                assert forall|j: int| 0 <= j < i + 1 implies active_ids(m).contains(#[trigger] ks[j]) ==> ov.contains(ks[j]) by {
                    if j < i && active_ids(m).contains(ks[j]) {
                        let bv = ids_view(before);
                        let p = choose|p: int| 0 <= p < bv.len() && bv[p] == ks[j];
                        assert(ov[p] == ks[j]);
                    }
                }
            }
            i = i + 1;
        }
        proof {
            let ov = ids_view(out@);
            assert forall|k: Seq<char>| #[trigger] ov.contains(k) <==> active_ids(m).contains(k) by {
                if ov.contains(k) {
                    let p = choose|p: int| 0 <= p < ov.len() && ov[p] == k;
                    assert(active_ids(m).contains(out@[p]@));
                }
                if active_ids(m).contains(k) {
                    assert(m.dom().contains(k));
                    assert(self.subscriptions.spec_map().dom().contains(k));
                    assert(ks.to_set().contains(k));
                    let p = choose|p: int| 0 <= p < ks.len() && ks[p] == k;
                    assert(active_ids(m).contains(ks[p]));
                }
            }
        }
        out
    }

    /// Records that subscription `id` delivered results at `now`.
    pub fn record_trigger(&mut self, id: &str, now: u64)
        requires
            old(self).subs().contains_key(id@) ==> old(self).subs()[id@].trigger_count < u64::MAX,
        ensures
            final(self).subs() == if old(self).subs().contains_key(id@) {
                old(self).subs().insert(id@, after_trigger(old(self).subs()[id@], now))
            } else {
                old(self).subs()
            },
            final(self).endpoints() == old(self).endpoints(),
            final(self).counts() == old(self).counts(),
    {
        match self.subscriptions.remove(id) {
            None => {
                proof {
                    assert(self.subs() =~= old(self).subs());
                }
            },
            Some(sub) => {
                let ghost s = sub@;
                let updated = ActiveSubscription { last_triggered: Some(now), trigger_count: sub.trigger_count + 1, ..sub };
                self.subscriptions.insert(id.to_owned(), updated);
                proof {
                    assert(self.subs() =~= old(self).subs().insert(id@, after_trigger(s, now)));
                }
            },
        }
    }

    /// Records an error of subscription `id`; past [`MAX_ERRORS`] it is
    /// marked failed.
    pub fn record_error(&mut self, id: &str)
        requires
            old(self).subs().contains_key(id@) ==> old(self).subs()[id@].error_count < u64::MAX,
        ensures
            final(self).subs() == if old(self).subs().contains_key(id@) {
                old(self).subs().insert(id@, after_error(old(self).subs()[id@]))
            } else {
                old(self).subs()
            },
            final(self).endpoints() == old(self).endpoints(),
            final(self).counts() == old(self).counts(),
    {
        match self.subscriptions.remove(id) {
            None => {
                proof {
                    assert(self.subs() =~= old(self).subs());
                }
            },
            Some(sub) => {
                let ghost s = sub@;
                let errors = sub.error_count + 1;
                let status = if errors > MAX_ERRORS {
                    SubscriptionStatus::Error("Too many errors".to_owned())
                } else {
                    sub.status
                };
                let updated = ActiveSubscription { error_count: errors, status, ..sub };
                self.subscriptions.insert(id.to_owned(), updated);
                proof {
                    assert(self.subs() =~= old(self).subs().insert(id@, after_error(s)));
                }
            },
        }
    }

    /// Adds the subscriptions that delivered and those that failed while an
    /// event was processed to the totals.
    pub fn record_event_stats(&mut self, processed: u64, errors: u64)
        requires
            old(self).counts().total_events + processed <= u64::MAX,
            old(self).counts().total_errors + errors <= u64::MAX,
        ensures
            final(self).subs() == old(self).subs(),
            final(self).endpoints() == old(self).endpoints(),
            final(self).counts() == (SubscriptionCounts {
                total_events: (old(self).counts().total_events + processed) as u64,
                total_errors: (old(self).counts().total_errors + errors) as u64,
                ..old(self).counts()
            }),
    {
        self.stats.total_events = self.stats.total_events + processed;
        self.stats.total_errors = self.stats.total_errors + errors;
    }

    /// The counts.
    pub fn get_stats(&self) -> (c: SubscriptionCounts)
        ensures
            c == self.counts(),
    {
        self.stats
    }

    /// Parses `tql` as a query and registers a subscription to it that
    /// emits its changes, under a fresh random id, as active at `now`.
    /// Gives the id and the query; text that is not a query is refused
    /// and changes nothing.
    pub fn create_from_tql(&mut self, tql: &str, now: u64) -> (r: Result<(String, Query), String>)
        ensures
            match query_at(tql@, 0) {
                Some((_, v)) => r matches Ok((k, q)) && query_is(q, v) && crate::ids::is_v4_uuid_text(k@)
                    && final(self).subs() == old(self).subs().insert(k@, registered(k@, EmitView::Changes, now))
                    && final(self).endpoints() == old(self).endpoints()
                    && final(self).counts().total_subscriptions == final(self).subs().dom().len()
                    && final(self).counts().active_subscriptions == active_ids(final(self).subs()).len()
                    && final(self).counts().total_events == old(self).counts().total_events
                    && final(self).counts().total_errors == old(self).counts().total_errors,
                None => r matches Err(m) && m@ == "Parse error: Failed to parse query"@
                    && final(self).subs() == old(self).subs()
                    && final(self).endpoints() == old(self).endpoints()
                    && final(self).counts() == old(self).counts(),
            },
    {
        match parse_query(tql) {
            Ok((_, q)) => match self.register(None, EmitClause::Changes, now) {
                Ok(k) => Ok((k, q)),
                Err(e) => Err(e),
            },
            Err(_) => Err(String::from_str("Parse error: Failed to parse query")),
        }
    }

    /// Puts in the subscriptions, each under its key, a later one replacing
    /// an earlier one, and recounts.
    pub fn import_subscriptions(&mut self, entries: Vec<(String, ActiveSubscription)>)
        ensures
            final(self).subs() == with_entries(
                old(self).subs(),
                entries_view(entries@),
            ),
            final(self).endpoints() == old(self).endpoints(),
            final(self).counts().total_subscriptions == final(self).subs().dom().len(),
            final(self).counts().active_subscriptions == active_ids(final(self).subs()).len(),
            final(self).counts().total_events == old(self).counts().total_events,
            final(self).counts().total_errors == old(self).counts().total_errors,
    {
        let ghost es = entries_view(entries@);
        let ghost m0 = self.subs();
        let mut rest = entries;
        let mut n: usize = 0;
        let len = rest.len();
        let ghost total = es.len();
        proof {
            assert(es.len() == len);
            assert(es.take(0) =~= Seq::<(Seq<char>, SubView)>::empty());
            assert(entries_view(rest@) =~= es.skip(0));
        }
        while rest.len() > 0
            invariant
                n + rest@.len() == total,
                total == es.len(),
                total <= usize::MAX,
                entries_view(rest@) == es.skip(n as int),
                self.subs() == with_entries(m0, es.take(n as int)),
                self.endpoints() == old(self).endpoints(),
                self.counts() == old(self).counts(),
            decreases rest@.len(),
        {
            let ghost before = rest@;
            let (k, s) = rest.remove(0);
            proof {
                assert(entries_view(before)[0] == (k@, s@));
                assert(es[n as int] == (k@, s@));
                assert(rest@ =~= before.subrange(1, before.len() as int));
                assert(entries_view(rest@) =~= entries_view(before).skip(1));
                assert(entries_view(rest@) =~= es.skip(n + 1));
                assert(es.take(n + 1).drop_last() =~= es.take(n as int));
            }
            let ghost sv = s@;
            self.subscriptions.insert(k, s);
            proof {
                assert(self.subs() =~= with_entries(m0, es.take(n + 1)));
            }
            n = n + 1;
        }
        proof {
            assert(es.take(n as int) =~= es);
        }
        self.refresh_counts();
    }
}

} // verus!