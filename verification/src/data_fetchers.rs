//! The data-source actor.
//!
//! A data-source actor owns one capability to fetch a single named item of
//! data. It accepts requests over an inbound channel, keeps an unordered pool
//! of in-flight fetches so that arbitrarily many requests can overlap, and
//! resolves each request's reply slot exactly once. The async loop that feeds
//! it lives outside this crate; the actor itself is the state machine below:
//! the loop turns whatever its select wakes on into a [`SourceEvent`], and
//! performs the [`SourceAction`] the step decides on.

use vstd::prelude::*;
use vstd::string::StringExecFns;

verus! {

/// Errors a data-source call can end in. None of them is fatal to the actor
/// that reports it.
#[derive(Debug, PartialEq, Eq)]
pub enum CityDataError {
    /// The external fetch failed or returned nothing usable.
    FetchError(String),
    /// The request could not be enqueued: the actor's channel is gone.
    HandleSendError,
    /// The request was enqueued but the actor went away before replying.
    HandleRecvError,
    /// The actor could not write the reply: the caller abandoned the slot.
    TaskSendError,
}

pub type CityDataResult<T> = Result<T, CityDataError>;

impl CityDataError {
    /// The message that describes this error.
    pub open spec fn describe_spec(&self) -> Seq<char> {
        match self {
            CityDataError::FetchError(reason) => "Data fetch failed with error: "@ + reason@,
            CityDataError::HandleSendError => "Handle send failed, mpsc dropped unexpectedly?"@,
            CityDataError::HandleRecvError => "Handle recv failed, oneshot dropped unexpectedly?"@,
            CityDataError::TaskSendError => "Task response send failed, oneshot dropped unexpectedly?"@,
        }
    }

    /// Render the error as text.
    pub fn describe(&self) -> (r: String)
        ensures
            r@ == self.describe_spec(),
    {
        match self {
            CityDataError::FetchError(reason) => {
                let mut msg = "Data fetch failed with error: ".to_owned();
                msg.append(reason.as_str());
                msg
            },
            CityDataError::HandleSendError => "Handle send failed, mpsc dropped unexpectedly?".to_owned(),
            CityDataError::HandleRecvError => "Handle recv failed, oneshot dropped unexpectedly?".to_owned(),
            CityDataError::TaskSendError => "Task response send failed, oneshot dropped unexpectedly?".to_owned(),
        }
    }
}

/// A request to a data-source actor: which city to fetch data for, and the
/// identifier of the reply slot the caller is waiting on.
pub struct CityDataRequest {
    pub id: u64,
    pub city: String,
}

/// One wake-up of the actor's loop.
pub enum SourceEvent {
    /// A new request arrived on the inbound channel.
    Request(CityDataRequest),
    /// An in-flight fetch finished, successfully or not.
    FetchDone(u64, CityDataResult<String>),
    /// The shared shutdown signal fired.
    Cancelled,
    /// The inbound channel closed: every handle was dropped.
    InboundClosed,
}

/// What the actor decides to do on one event.
#[derive(Debug, PartialEq, Eq)]
pub enum SourceAction {
    /// Start fetching data for the given request as a new unit of in-flight
    /// work.
    StartFetch(u64, String),
    /// Resolve the given request's reply slot with this outcome.
    Reply(u64, CityDataResult<String>),
    /// The request was not accepted; its reply slot is never written.
    Rejected(u64),
    /// Leave the event loop.
    Exit,
}

/// The abstract state of a data-source actor: whether its loop is still
/// running, and which requests are in flight.
#[verifier::ext_equal]
pub struct SourceModel {
    pub running: bool,
    pub inflight: Set<u64>,
}

/// What one event does to the actor. A request is accepted exactly when the
/// loop is running and the request's id is not already in flight; a fetch
/// completion resolves its request exactly when that request is in flight,
/// and takes it out of the pool, so the same request is never resolved twice;
/// cancellation and a closed inbound channel stop the loop without touching
/// in-flight work.
pub open spec fn source_step(s: SourceModel, e: SourceEvent) -> (SourceModel, Option<SourceAction>) {
    match e {
        SourceEvent::Request(req) => {
            if s.running && !s.inflight.contains(req.id) {
                (
                    SourceModel { running: s.running, inflight: s.inflight.insert(req.id) },
                    Some(SourceAction::StartFetch(req.id, req.city)),
                )
            } else {
                (s, Some(SourceAction::Rejected(req.id)))
            }
        },
        SourceEvent::FetchDone(id, r) => {
            if s.running && s.inflight.contains(id) {
                (
                    SourceModel { running: s.running, inflight: s.inflight.remove(id) },
                    Some(SourceAction::Reply(id, r)),
                )
            } else {
                (s, None)
            }
        },
        SourceEvent::Cancelled => (
            SourceModel { running: false, inflight: s.inflight },
            Some(SourceAction::Exit),
        ),
        SourceEvent::InboundClosed => (
            SourceModel { running: false, inflight: s.inflight },
            Some(SourceAction::Exit),
        ),
    }
}

pub open spec fn opt_action_seq(a: Option<SourceAction>) -> Seq<SourceAction> {
    match a {
        Some(act) => seq![act],
        None => Seq::empty(),
    }
}

/// The actor's loop over a whole sequence of events: events are consumed in
/// order until the step decides to exit, and the actions taken are collected.
pub open spec fn source_run(s: SourceModel, events: Seq<SourceEvent>) -> (SourceModel, Seq<SourceAction>)
    decreases events.len(),
{
    if events.len() == 0 {
        (s, Seq::empty())
    } else {
        let (s1, a) = source_step(s, events[0]);
        if a matches Some(SourceAction::Exit) {
            (s1, seq![SourceAction::Exit])
        } else {
            let (s2, rest) = source_run(s1, events.drop_first());
            (s2, opt_action_seq(a) + rest)
        }
    }
}

/// How many of these actions resolve the reply slot of request `id`.
pub open spec fn count_replies(actions: Seq<SourceAction>, id: u64) -> int
    decreases actions.len(),
{
    if actions.len() == 0 {
        0
    } else {
        count_replies(actions.drop_first(), id) + match actions[0] {
            SourceAction::Reply(i, _) => if i == id { 1int } else { 0int },
            _ => 0int,
        }
    }
}

/// How many of these events submit a request under the id `id`.
pub open spec fn count_requests(events: Seq<SourceEvent>, id: u64) -> int
    decreases events.len(),
{
    if events.len() == 0 {
        0
    } else {
        count_requests(events.drop_first(), id) + match events[0] {
            SourceEvent::Request(req) => if req.id == id { 1int } else { 0int },
            _ => 0int,
        }
    }
}

proof fn lemma_count_replies_nonneg(actions: Seq<SourceAction>, id: u64)
    ensures
        count_replies(actions, id) >= 0,
    decreases actions.len(),
{
    if actions.len() > 0 {
        lemma_count_replies_nonneg(actions.drop_first(), id);
    }
}

proof fn lemma_count_requests_nonneg(events: Seq<SourceEvent>, id: u64)
    ensures
        count_requests(events, id) >= 0,
    decreases events.len(),
{
    if events.len() > 0 {
        lemma_count_requests_nonneg(events.drop_first(), id);
    }
}

/// At-most-one reply: over any run of the actor, the reply slot of request
/// `id` is resolved at most once for each time a request under that id is
/// submitted, plus once more if the id was already in flight at the start. In
/// particular, a request that is submitted once to a fresh actor is answered
/// by exactly zero or one reply, never two.
pub proof fn lemma_source_replies_at_most_once(s: SourceModel, events: Seq<SourceEvent>, id: u64)
    ensures
        count_replies(source_run(s, events).1, id) <= count_requests(events, id) + if s.inflight.contains(id) { 1int } else { 0int },
    decreases events.len(),
{
    lemma_count_requests_nonneg(events, id);
    if events.len() > 0 {
        let e0 = events[0];
        let rest_events = events.drop_first();
        let (s1, a) = source_step(s, e0);
        let acts = source_run(s, events).1;
        lemma_count_requests_nonneg(rest_events, id);
        if a matches Some(SourceAction::Exit) {
            assert(acts == seq![SourceAction::Exit]);
            assert(acts[0] == SourceAction::Exit);
            assert(acts.drop_first() =~= Seq::<SourceAction>::empty());
            assert(count_replies(Seq::<SourceAction>::empty(), id) == 0);
            assert(count_replies(acts, id) == 0);
        } else {
            lemma_source_replies_at_most_once(s1, rest_events, id);
            lemma_count_replies_nonneg(source_run(s1, rest_events).1, id);
            let rest = source_run(s1, rest_events).1;
            assert(acts == opt_action_seq(a) + rest);
            match a {
                Some(act) => {
                    assert(acts.len() == 1 + rest.len());
                    assert(acts[0] == act);
                    assert(acts.drop_first() =~= rest);
                },
                None => {
                    assert(acts =~= rest);
                },
            }
            match e0 {
                SourceEvent::Request(req) => {
                    if s.running && !s.inflight.contains(req.id) {
                        if req.id == id {
                            assert(s1.inflight.contains(id));
                            assert(count_requests(events, id) == count_requests(rest_events, id) + 1);
                        } else {
                            assert(s1.inflight.contains(id) == s.inflight.contains(id));
                        }
                    }
                    assert(count_replies(acts, id) == count_replies(rest, id));
                },
                SourceEvent::FetchDone(i, _) => {
                    assert(count_requests(events, id) == count_requests(rest_events, id));
                    if s.running && s.inflight.contains(i) {
                        if i == id {
                            assert(s.inflight.contains(id));
                            assert(!s1.inflight.contains(id));
                            assert(count_replies(acts, id) == count_replies(rest, id) + 1);
                        } else {
                            assert(s1.inflight.contains(id) == s.inflight.contains(id));
                            assert(count_replies(acts, id) == count_replies(rest, id));
                        }
                    }
                },
                _ => {},
            }
        }
    }
}

/// Nothing is processed after a shutdown: once a cancellation or a closed
/// inbound channel is seen at position `k`, the run is the same as if the
/// events after it had never arrived. A request submitted after the shutdown
/// signal therefore produces no fetch and no reply; its caller observes its
/// slot as abandoned or its send as failed, never a successful reply.
pub proof fn lemma_no_accept_after_shutdown(s: SourceModel, events: Seq<SourceEvent>, k: int)
    requires
        0 <= k < events.len(),
        events[k] matches SourceEvent::Cancelled || events[k] matches SourceEvent::InboundClosed,
    ensures
        source_run(s, events) == source_run(s, events.take(k + 1)),
    decreases events.len(),
{
    let (s1, a) = source_step(s, events[0]);
    let taken = events.take(k + 1);
    assert(taken[0] == events[0]);
    if a matches Some(SourceAction::Exit) {
    } else {
        assert(k > 0) by {
            if k == 0 {
                assert(a matches Some(SourceAction::Exit));
            }
        }
        lemma_no_accept_after_shutdown(s1, events.drop_first(), k - 1);
        assert(events.drop_first().take(k) == events.take(k + 1).drop_first());
    }
}

proof fn lemma_count_requests_zero(events: Seq<SourceEvent>, id: u64)
    requires
        forall|j: int| 0 <= j < events.len() ==> !(#[trigger] events[j] matches SourceEvent::Request(req) && req.id == id),
    ensures
        count_requests(events, id) == 0,
    decreases events.len(),
{
    if events.len() > 0 {
        assert forall|j: int| 0 <= j < events.drop_first().len() implies
            !(#[trigger] events.drop_first()[j] matches SourceEvent::Request(req) && req.id == id) by {
            assert(events.drop_first()[j] == events[j + 1]);
        }
        lemma_count_requests_zero(events.drop_first(), id);
    }
}

/// How many of these actions start a fetch for request `id`.
pub open spec fn count_fetches(actions: Seq<SourceAction>, id: u64) -> int
    decreases actions.len(),
{
    if actions.len() == 0 {
        0
    } else {
        count_fetches(actions.drop_first(), id) + match actions[0] {
            SourceAction::StartFetch(i, _) => if i == id { 1int } else { 0int },
            _ => 0int,
        }
    }
}

proof fn lemma_count_fetches_zero(actions: Seq<SourceAction>, events: Seq<SourceEvent>, s: SourceModel, id: u64)
    requires
        actions == source_run(s, events).1,
        count_requests(events, id) == 0,
    ensures
        count_fetches(actions, id) == 0,
    decreases events.len(),
{
    if events.len() > 0 {
        let (s1, a) = source_step(s, events[0]);
        let rest_events = events.drop_first();
        lemma_count_requests_nonneg(rest_events, id);
        let first_requests = match events[0] {
            SourceEvent::Request(req) => if req.id == id { 1int } else { 0int },
            _ => 0int,
        };
        assert(count_requests(events, id) == count_requests(rest_events, id) + first_requests);
        assert(count_requests(rest_events, id) == 0 && first_requests == 0);
        if a matches Some(SourceAction::Exit) {
            assert(actions == seq![SourceAction::Exit]);
            assert(actions[0] == SourceAction::Exit);
            assert(actions.drop_first() =~= Seq::<SourceAction>::empty());
            assert(count_fetches(Seq::<SourceAction>::empty(), id) == 0);
        } else {
            let rest = source_run(s1, rest_events).1;
            lemma_count_fetches_zero(rest, rest_events, s1, id);
            match a {
                Some(act) => {
                    assert(actions == opt_action_seq(a) + rest);
                    assert(actions[0] == act);
                    assert(actions.drop_first() =~= rest);
                    match act {
                        SourceAction::StartFetch(i, _) => {
                            assert(i != id);
                        },
                        _ => {},
                    }
                },
                None => {
                    assert(actions =~= rest);
                },
            }
        }
    }
}

/// No accept after shutdown, spelled out for one late request: when the
/// shutdown signal stands at position `k` of the events, and the request `id`
/// is not in flight and is submitted only after that position, the whole run
/// starts no fetch for it and writes no reply for it — its caller can only
/// observe a failed send or an abandoned reply slot.
pub proof fn lemma_late_request_is_never_served(s: SourceModel, events: Seq<SourceEvent>, k: int, id: u64)
    requires
        0 <= k < events.len(),
        events[k] matches SourceEvent::Cancelled || events[k] matches SourceEvent::InboundClosed,
        !s.inflight.contains(id),
        forall|j: int| 0 <= j <= k ==> !(#[trigger] events[j] matches SourceEvent::Request(req) && req.id == id),
    ensures
        count_replies(source_run(s, events).1, id) == 0,
        count_fetches(source_run(s, events).1, id) == 0,
{
    lemma_no_accept_after_shutdown(s, events, k);
    let taken = events.take(k + 1);
    assert forall|j: int| 0 <= j < taken.len() implies
        !(#[trigger] taken[j] matches SourceEvent::Request(req) && req.id == id) by {
        assert(taken[j] == events[j]);
    }
    lemma_count_requests_zero(taken, id);
    lemma_source_replies_at_most_once(s, taken, id);
    lemma_count_replies_nonneg(source_run(s, taken).1, id);
    lemma_count_fetches_zero(source_run(s, taken).1, taken, s, id);
}

/// A data-source actor: the verified state machine inside one actor task.
/// The surrounding loop owns the channels and the fetch capability; it hands
/// every wake-up to [`CityDataSourceTask::step`] (or a whole script of them to
/// [`CityDataSourceTask::run`]) and carries out the actions.
pub struct CityDataSourceTask {
    running: bool,
    inflight: Vec<u64>,
}

impl View for CityDataSourceTask {
    type V = SourceModel;

    closed spec fn view(&self) -> SourceModel {
        SourceModel { running: self.running, inflight: self.inflight@.to_set() }
    }
}

impl CityDataSourceTask {
    /// The in-flight pool holds each id once.
    pub closed spec fn wf(&self) -> bool {
        self.inflight@.no_duplicates()
    }

    /// A fresh actor: running, with nothing in flight.
    pub fn new() -> (t: CityDataSourceTask)
        ensures
            t.wf(),
            t@ == (SourceModel { running: true, inflight: Set::<u64>::empty() }),
    {
        let t = CityDataSourceTask { running: true, inflight: Vec::new() };
        proof {
            assert(t.inflight@.to_set() =~= Set::<u64>::empty());
        }
        t
    }

    /// Feed the actor one event; it returns the action it decides on, exactly
    /// as [`source_step`] describes.
    pub fn step(&mut self, e: SourceEvent) -> (a: Option<SourceAction>)
        requires
            old(self).wf(),
        ensures
            final(self).wf(),
            (final(self)@, a) == source_step(old(self)@, e),
    {
        match e {
            SourceEvent::Request(req) => {
                if self.running && !contains_id(&self.inflight, req.id) {
                    proof {
                        lemma_push_to_set(self.inflight@, req.id);
                        lemma_push_no_duplicates(self.inflight@, req.id);
                    }
                    self.inflight.push(req.id);
                    Some(SourceAction::StartFetch(req.id, req.city))
                } else {
                    Some(SourceAction::Rejected(req.id))
                }
            },
            SourceEvent::FetchDone(id, r) => {
                if self.running {
                    match find_id(&self.inflight, id) {
                        Some(i) => {
                            proof {
                                lemma_remove_to_set(self.inflight@, i as int);
                            }
                            self.inflight.remove(i);
                            Some(SourceAction::Reply(id, r))
                        },
                        None => None,
                    }
                } else {
                    None
                }
            },
            SourceEvent::Cancelled => {
                self.running = false;
                Some(SourceAction::Exit)
            },
            SourceEvent::InboundClosed => {
                self.running = false;
                Some(SourceAction::Exit)
            },
        }
    }

    /// The actor's event loop over a script of events: steps through them in
    /// order, collects every action taken, and stops at the first exit, as
    /// [`source_run`] describes. In-flight work left at that point is
    /// abandoned; those callers see their reply slots unresolved.
    pub fn run(&mut self, events: Vec<SourceEvent>) -> (actions: Vec<SourceAction>)
        requires
            old(self).wf(),
        ensures
            final(self).wf(),
            final(self)@ == source_run(old(self)@, events@).0,
            actions@ == source_run(old(self)@, events@).1,
    {
        let ghost s0 = self@;
        let ghost evs0 = events@;
        let mut evs = events;
        let mut actions: Vec<SourceAction> = Vec::new();
        loop
            invariant_except_break
                self.wf(),
                source_run(s0, evs0).0 == source_run(self@, evs@).0,
                source_run(s0, evs0).1 == actions@ + source_run(self@, evs@).1,
            ensures
                self.wf(),
                self@ == source_run(s0, evs0).0,
                actions@ == source_run(s0, evs0).1,
            decreases evs@.len(),
        {
            if evs.len() == 0 {
                proof {
                    assert(actions@ + source_run(self@, evs@).1 =~= actions@);
                }
                break;
            }
            let ghost pre_model = self@;
            let ghost pre_evs = evs@;
            let e = evs.remove(0);
            proof {
                assert(pre_evs.remove(0) =~= pre_evs.drop_first());
            }
            let a = self.step(e);
            match a {
                Some(act) => {
                    let exit = matches!(act, SourceAction::Exit);
                    proof {
                        if exit {
                            assert(source_run(pre_model, pre_evs).1 =~= seq![SourceAction::Exit]);
                            assert((actions@ + source_run(pre_model, pre_evs).1) =~= actions@.push(act));
                        } else {
                            assert(opt_action_seq(source_step(pre_model, pre_evs[0]).1) =~= seq![act]);
                            assert(actions@ + (seq![act] + source_run(self@, evs@).1) =~= actions@.push(act) + source_run(self@, evs@).1);
                        }
                    }
                    actions.push(act);
                    if exit {
                        break;
                    }
                },
                None => {
                    proof {
                        assert(opt_action_seq(source_step(pre_model, pre_evs[0]).1) =~= Seq::<SourceAction>::empty());
                        assert(actions@ + (Seq::<SourceAction>::empty() + source_run(self@, evs@).1) =~= actions@ + source_run(self@, evs@).1);
                    }
                },
            }
        }
        actions
    }
}

/// Whether the vector holds this id.
fn contains_id(v: &Vec<u64>, id: u64) -> (r: bool)
    ensures
        r == v@.contains(id),
{
    let mut k: usize = 0;
    while k < v.len()
        invariant
            k <= v.len(),
            forall|j: int| 0 <= j < k ==> v@[j] != id,
        decreases v.len() - k,
    {
        if v[k] == id {
            proof {
                assert(v@[k as int] == id);
            }
            return true;
        }
        k += 1;
    }
    false
}

/// The index of the first occurrence of this id, if any.
fn find_id(v: &Vec<u64>, id: u64) -> (r: Option<usize>)
    ensures
        match r {
            Some(i) => i < v@.len() && v@[i as int] == id,
            None => !v@.contains(id),
        },
{
    let mut k: usize = 0;
    while k < v.len()
        invariant
            k <= v.len(),
            forall|j: int| 0 <= j < k ==> v@[j] != id,
        decreases v.len() - k,
    {
        if v[k] == id {
            return Some(k);
        }
        k += 1;
    }
    None
}

pub(crate) proof fn lemma_push_to_set<A>(s: Seq<A>, x: A)
    ensures
        s.push(x).to_set() == s.to_set().insert(x),
{
    assert forall|a: A| s.push(x).to_set().contains(a) implies s.to_set().insert(x).contains(a) by {
        let i = choose|i: int| 0 <= i < s.push(x).len() && s.push(x)[i] == a;
        if i < s.len() {
            assert(s[i] == a);
        }
    }
    assert forall|a: A| s.to_set().insert(x).contains(a) implies s.push(x).to_set().contains(a) by {
        if a == x {
            assert(s.push(x)[s.len() as int] == a);
        } else {
            let i = choose|i: int| 0 <= i < s.len() && s[i] == a;
            assert(s.push(x)[i] == a);
        }
    }
    assert(s.push(x).to_set() =~= s.to_set().insert(x));
}

pub(crate) proof fn lemma_push_no_duplicates<A>(s: Seq<A>, x: A)
    requires
        s.no_duplicates(),
        !s.contains(x),
    ensures
        s.push(x).no_duplicates(),
{
}

pub(crate) proof fn lemma_remove_to_set<A>(s: Seq<A>, i: int)
    requires
        s.no_duplicates(),
        0 <= i < s.len(),
    ensures
        s.remove(i).to_set() == s.to_set().remove(s[i]),
        s.remove(i).no_duplicates(),
{
    s.remove_ensures(i);
    let t = s.remove(i);
    assert forall|a: A| t.to_set().contains(a) implies s.to_set().remove(s[i]).contains(a) by {
        let j = choose|j: int| 0 <= j < t.len() && t[j] == a;
        if j < i {
            assert(s[j] == a);
        } else {
            assert(s[j + 1] == a);
        }
    }
    assert forall|a: A| s.to_set().remove(s[i]).contains(a) implies t.to_set().contains(a) by {
        let j = choose|j: int| 0 <= j < s.len() && s[j] == a;
        if j < i {
            assert(t[j] == a);
        } else {
            assert(j != i);
            assert(t[j - 1] == a);
        }
    }
    assert(t.to_set() =~= s.to_set().remove(s[i]));
    assert forall|p: int, q: int| 0 <= p < t.len() && 0 <= q < t.len() && p != q implies t[p] != t[q] by {
        let sp = if p < i { p } else { p + 1 };
        let sq = if q < i { q } else { q + 1 };
        assert(t[p] == s[sp]);
        assert(t[q] == s[sq]);
    }
}

} // verus!
