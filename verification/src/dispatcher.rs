//! The dispatcher actor.
//!
//! The dispatcher owns a fixed, ordered list of data-source handles. For each
//! incoming request it asks every source for the requested city, in
//! configuration order, concatenates the answers one line per source, and
//! resolves the request's reply slot exactly once. If any source fails, the
//! partial output is discarded and the reply is a fixed failure sentinel.
//! Each aggregation is an independent unit of in-flight work: the dispatcher
//! keeps accepting and advancing other requests while it waits on a source.
//!
//! As with the data-source actor, the async loop and the channels live
//! outside this crate; the dispatcher here is the state machine the loop
//! consults on every wake-up.

use crate::data_fetchers::{CityDataError, CityDataResult};
use vstd::prelude::*;
use vstd::string::StringExecFns;

verus! {

/// Errors a dispatcher call can end in.
#[derive(Debug, PartialEq, Eq)]
pub enum DispatcherError {
    /// The request could not be enqueued: the dispatcher's channel is gone.
    MpscSendFailed,
    /// The request was enqueued but the dispatcher went away before replying.
    OneshotResponseFailed,
}

pub type DispatcherResult<T> = Result<T, DispatcherError>;

impl DispatcherError {
    /// The message that describes this error.
    pub open spec fn describe_spec(&self) -> Seq<char> {
        match self {
            DispatcherError::MpscSendFailed => "Failed to send request on mpsc, dropped unexpectedly?"@,
            DispatcherError::OneshotResponseFailed => "Failed to send response on oneshot, dropped unexpectedly?"@,
        }
    }

    /// Render the error as text.
    pub fn describe(&self) -> (r: String)
        ensures
            r@ == self.describe_spec(),
    {
        match self {
            DispatcherError::MpscSendFailed => "Failed to send request on mpsc, dropped unexpectedly?".to_owned(),
            DispatcherError::OneshotResponseFailed => "Failed to send response on oneshot, dropped unexpectedly?".to_owned(),
        }
    }
}

/// A request to the dispatcher: which city to aggregate info for, and the
/// identifier of the reply slot the caller is waiting on.
pub struct DispatcherRequest {
    pub id: u64,
    pub city_name: String,
}

/// The reply the dispatcher sends when any data source fails.
pub open spec fn failure_sentinel() -> Seq<char> {
    "Request failed"@
}

/// One line per source: each answer followed by a line separator.
pub open spec fn lines_concat(lines: Seq<Seq<char>>) -> Seq<char>
    decreases lines.len(),
{
    if lines.len() == 0 {
        Seq::empty()
    } else {
        lines_concat(lines.drop_last()) + lines.last() + seq!['\n']
    }
}

pub open spec fn all_ok(outcomes: Seq<CityDataResult<String>>) -> bool {
    forall|i: int| 0 <= i < outcomes.len() ==> outcomes[i] is Ok
}

pub open spec fn ok_views(outcomes: Seq<CityDataResult<String>>) -> Seq<Seq<char>> {
    outcomes.map_values(|r: CityDataResult<String>| match r {
        Ok(line) => line@,
        Err(_) => Seq::<char>::empty(),
    })
}

/// What aggregating these per-source outcomes produces: the sources' answers
/// in order, one line each, if every source succeeded, and the fixed failure
/// sentinel as soon as any source failed.
pub open spec fn aggregate(outcomes: Seq<CityDataResult<String>>) -> Seq<char> {
    if all_ok(outcomes) {
        lines_concat(ok_views(outcomes))
    } else {
        failure_sentinel()
    }
}

/// Order-preserving aggregation: for sources [A, B] that both succeed, the
/// aggregated result is exactly A's line followed by B's line — A's text
/// stands before B's, however the two answers were produced.
pub proof fn lemma_aggregate_preserves_order(a: String, b: String)
    ensures
        aggregate(seq![Ok(a), Ok(b)]) == a@ + seq!['\n'] + b@ + seq!['\n'],
{
    let outcomes: Seq<CityDataResult<String>> = seq![Ok(a), Ok(b)];
    assert(outcomes[0] is Ok && outcomes[1] is Ok);
    let views = ok_views(outcomes);
    assert(views.len() == 2);
    assert(views[0] == a@ && views[1] == b@);
    assert(views.drop_last() =~= seq![a@]);
    assert(seq![a@].drop_last() =~= Seq::<Seq<char>>::empty());
    assert(lines_concat(views) == lines_concat(seq![a@]) + b@ + seq!['\n']);
    assert(lines_concat(seq![a@]) == lines_concat(Seq::<Seq<char>>::empty()) + a@ + seq!['\n']);
    assert(aggregate(outcomes) =~= a@ + seq!['\n'] + b@ + seq!['\n']);
}

/// Fail-fast: if any source fails, the aggregated result is the failure
/// sentinel and nothing else — in particular it does not depend on, and does
/// not contain, whatever any other source produced.
pub proof fn lemma_aggregate_fail_fast(outcomes: Seq<CityDataResult<String>>, k: int)
    requires
        0 <= k < outcomes.len(),
        outcomes[k] is Err,
    ensures
        aggregate(outcomes) == failure_sentinel(),
{
}

/// Aggregate a row of per-source outcomes, in order: the executable form of
/// [`aggregate`]. Consumes the outcomes up to the first failure and ignores
/// the rest, as the dispatcher's fail-fast policy prescribes.
pub fn aggregate_responses(outcomes: Vec<CityDataResult<String>>) -> (r: String)
    ensures
        r@ == aggregate(outcomes@),
{
    let ghost o0 = outcomes@;
    let mut outs = outcomes;
    let mut data = String::new();
    let ghost mut done: int = 0;
    loop
        invariant_except_break
            0 <= done <= o0.len(),
            outs@ == o0.skip(done),
            all_ok(o0.take(done)),
            data@ == lines_concat(ok_views(o0.take(done))),
        ensures
            data@ == aggregate(o0),
        decreases o0.len() - done,
    {
        if outs.len() == 0 {
            proof {
                assert(o0.take(done) =~= o0);
            }
            break;
        }
        let ghost pre_outs = outs@;
        let o = outs.remove(0);
        proof {
            assert(pre_outs.remove(0) =~= pre_outs.drop_first());
            assert(o0.skip(done).drop_first() =~= o0.skip(done + 1));
            assert(o == o0[done]);
        }
        match o {
            Ok(line) => {
                data.append(line.as_str());
                data.append("\n");
                proof {
                    reveal_strlit("\n");
                    assert("\n"@ =~= seq!['\n']);
                    assert(o0.take(done + 1).drop_last() =~= o0.take(done));
                    assert(ok_views(o0.take(done + 1)).drop_last() =~= ok_views(o0.take(done)));
                    assert(ok_views(o0.take(done + 1)).last() == line@);
                    done = done + 1;
                }
            },
            Err(_) => {
                data = "Request failed".to_owned();
                proof {
                    assert(!all_ok(o0)) by {
                        assert(o0[done] is Err);
                    }
                }
                break;
            },
        }
    }
    data
}

/// The progress of one in-flight aggregation: which city it is for, and the
/// answers collected so far, in source order.
#[verifier::ext_equal]
pub struct AggState {
    pub city: Seq<char>,
    pub oks: Seq<Seq<char>>,
}

/// The abstract state of the dispatcher: whether its loop is still running,
/// how many data sources it is configured with, and the in-flight
/// aggregations keyed by request id.
#[verifier::ext_equal]
pub struct DispatcherModel {
    pub running: bool,
    pub n_sources: int,
    pub active: Map<u64, AggState>,
}

/// One wake-up of the dispatcher's loop.
pub enum DispatcherEvent {
    /// A new aggregation request arrived on the inbound channel.
    Request(DispatcherRequest),
    /// The data source the given request was waiting on answered.
    SourceOutcome(u64, CityDataResult<String>),
    /// The shared shutdown signal fired.
    Cancelled,
    /// The inbound channel closed: every handle was dropped.
    InboundClosed,
}

/// What the dispatcher decides to do on one event.
#[derive(Debug, PartialEq, Eq)]
pub enum DispatcherAction {
    /// Ask the source with this index for the given request's city.
    CallSource(u64, usize, String),
    /// Resolve the given request's reply slot with this aggregated text.
    Respond(u64, String),
    /// The request was not accepted; its reply slot is never written.
    Rejected(u64),
    /// Leave the event loop.
    Exit,
}

/// [`DispatcherEvent`], seen abstractly.
pub enum DispatcherEventModel {
    Request(u64, Seq<char>),
    SourceOutcome(u64, Result<Seq<char>, CityDataError>),
    Cancelled,
    InboundClosed,
}

/// [`DispatcherAction`], seen abstractly.
pub enum DispatcherActionModel {
    CallSource(u64, int, Seq<char>),
    Respond(u64, Seq<char>),
    Rejected(u64),
    Exit,
}

impl View for DispatcherEvent {
    type V = DispatcherEventModel;

    open spec fn view(&self) -> DispatcherEventModel {
        match self {
            DispatcherEvent::Request(req) => DispatcherEventModel::Request(req.id, req.city_name@),
            DispatcherEvent::SourceOutcome(id, r) => DispatcherEventModel::SourceOutcome(
                *id,
                match r {
                    Ok(line) => Ok(line@),
                    Err(e) => Err(*e),
                },
            ),
            DispatcherEvent::Cancelled => DispatcherEventModel::Cancelled,
            DispatcherEvent::InboundClosed => DispatcherEventModel::InboundClosed,
        }
    }
}

impl View for DispatcherAction {
    type V = DispatcherActionModel;

    open spec fn view(&self) -> DispatcherActionModel {
        match self {
            DispatcherAction::CallSource(id, idx, city) => DispatcherActionModel::CallSource(*id, *idx as int, city@),
            DispatcherAction::Respond(id, data) => DispatcherActionModel::Respond(*id, data@),
            DispatcherAction::Rejected(id) => DispatcherActionModel::Rejected(*id),
            DispatcherAction::Exit => DispatcherActionModel::Exit,
        }
    }
}

pub open spec fn opt_view(a: Option<DispatcherAction>) -> Option<DispatcherActionModel> {
    match a {
        Some(act) => Some(act@),
        None => None,
    }
}

/// What one event does to the dispatcher. A request is accepted exactly when
/// the loop is running and its id is not already in flight; an accepted
/// request either gets the empty aggregation at once (no sources configured)
/// or starts its aggregation with a call to source 0. A source outcome
/// advances exactly the aggregation it belongs to: a success is recorded and
/// either the next source is called or, when it was the last source, the
/// collected lines are sent as the reply; a failure discards the partial
/// output and replies with the failure sentinel at once. Either reply removes
/// the request from the pool, so each request is answered at most once.
/// Cancellation and a closed inbound channel stop the loop.
pub open spec fn dispatcher_step(s: DispatcherModel, e: DispatcherEventModel) -> (DispatcherModel, Option<DispatcherActionModel>) {
    match e {
        DispatcherEventModel::Request(id, city) => {
            if s.running && !s.active.dom().contains(id) {
                if s.n_sources == 0 {
                    (s, Some(DispatcherActionModel::Respond(id, lines_concat(Seq::empty()))))
                } else {
                    (
                        DispatcherModel {
                            running: s.running,
                            n_sources: s.n_sources,
                            active: s.active.insert(id, AggState { city: city, oks: Seq::empty() }),
                        },
                        Some(DispatcherActionModel::CallSource(id, 0, city)),
                    )
                }
            } else {
                (s, Some(DispatcherActionModel::Rejected(id)))
            }
        },
        DispatcherEventModel::SourceOutcome(id, r) => {
            if s.running && s.active.dom().contains(id) {
                let agg = s.active[id];
                match r {
                    Ok(line) => {
                        let oks2 = agg.oks.push(line);
                        if oks2.len() == s.n_sources {
                            (
                                DispatcherModel {
                                    running: s.running,
                                    n_sources: s.n_sources,
                                    active: s.active.remove(id),
                                },
                                Some(DispatcherActionModel::Respond(id, lines_concat(oks2))),
                            )
                        } else {
                            (
                                DispatcherModel {
                                    running: s.running,
                                    n_sources: s.n_sources,
                                    active: s.active.insert(id, AggState { city: agg.city, oks: oks2 }),
                                },
                                Some(DispatcherActionModel::CallSource(id, oks2.len() as int, agg.city)),
                            )
                        }
                    },
                    Err(_) => (
                        DispatcherModel {
                            running: s.running,
                            n_sources: s.n_sources,
                            active: s.active.remove(id),
                        },
                        Some(DispatcherActionModel::Respond(id, failure_sentinel())),
                    ),
                }
            } else {
                (s, None)
            }
        },
        DispatcherEventModel::Cancelled => (
            DispatcherModel { running: false, n_sources: s.n_sources, active: s.active },
            Some(DispatcherActionModel::Exit),
        ),
        DispatcherEventModel::InboundClosed => (
            DispatcherModel { running: false, n_sources: s.n_sources, active: s.active },
            Some(DispatcherActionModel::Exit),
        ),
    }
}

pub open spec fn opt_model_seq(a: Option<DispatcherActionModel>) -> Seq<DispatcherActionModel> {
    match a {
        Some(act) => seq![act],
        None => Seq::empty(),
    }
}

/// The dispatcher's loop over a whole sequence of events: events are consumed
/// in order until the step decides to exit, and the actions taken are
/// collected.
pub open spec fn dispatcher_run(s: DispatcherModel, events: Seq<DispatcherEventModel>) -> (DispatcherModel, Seq<DispatcherActionModel>)
    decreases events.len(),
{
    if events.len() == 0 {
        (s, Seq::empty())
    } else {
        let (s1, a) = dispatcher_step(s, events[0]);
        if a matches Some(DispatcherActionModel::Exit) {
            (s1, seq![DispatcherActionModel::Exit])
        } else {
            let (s2, rest) = dispatcher_run(s1, events.drop_first());
            (s2, opt_model_seq(a) + rest)
        }
    }
}

/// How many of these actions resolve the reply slot of request `id`.
pub open spec fn count_responds(actions: Seq<DispatcherActionModel>, id: u64) -> int
    decreases actions.len(),
{
    if actions.len() == 0 {
        0
    } else {
        count_responds(actions.drop_first(), id) + match actions[0] {
            DispatcherActionModel::Respond(i, _) => if i == id { 1int } else { 0int },
            _ => 0int,
        }
    }
}

/// How many of these events submit a request under the id `id`.
pub open spec fn count_dispatch_requests(events: Seq<DispatcherEventModel>, id: u64) -> int
    decreases events.len(),
{
    if events.len() == 0 {
        0
    } else {
        count_dispatch_requests(events.drop_first(), id) + match events[0] {
            DispatcherEventModel::Request(i, _) => if i == id { 1int } else { 0int },
            _ => 0int,
        }
    }
}

proof fn lemma_count_responds_nonneg(actions: Seq<DispatcherActionModel>, id: u64)
    ensures
        count_responds(actions, id) >= 0,
    decreases actions.len(),
{
    if actions.len() > 0 {
        lemma_count_responds_nonneg(actions.drop_first(), id);
    }
}

proof fn lemma_count_dispatch_requests_nonneg(events: Seq<DispatcherEventModel>, id: u64)
    ensures
        count_dispatch_requests(events, id) >= 0,
    decreases events.len(),
{
    if events.len() > 0 {
        lemma_count_dispatch_requests_nonneg(events.drop_first(), id);
    }
}

/// At-most-one reply, for the dispatcher: over any run, the reply slot of
/// request `id` is resolved at most once for each time a request under that
/// id is submitted, plus once more if the id was already in flight at the
/// start. A request submitted once to a fresh dispatcher is answered by
/// exactly zero or one aggregated reply, never two.
pub proof fn lemma_dispatcher_responds_at_most_once(s: DispatcherModel, events: Seq<DispatcherEventModel>, id: u64)
    ensures
        count_responds(dispatcher_run(s, events).1, id) <= count_dispatch_requests(events, id) + if s.active.dom().contains(id) { 1int } else { 0int },
    decreases events.len(),
{
    lemma_count_dispatch_requests_nonneg(events, id);
    if events.len() > 0 {
        let e0 = events[0];
        let rest_events = events.drop_first();
        let (s1, a) = dispatcher_step(s, e0);
        let acts = dispatcher_run(s, events).1;
        lemma_count_dispatch_requests_nonneg(rest_events, id);
        if a matches Some(DispatcherActionModel::Exit) {
            assert(acts == seq![DispatcherActionModel::Exit]);
            assert(acts[0] == DispatcherActionModel::Exit);
            assert(acts.drop_first() =~= Seq::<DispatcherActionModel>::empty());
            assert(count_responds(Seq::<DispatcherActionModel>::empty(), id) == 0);
            assert(count_responds(acts, id) == 0);
        } else {
            lemma_dispatcher_responds_at_most_once(s1, rest_events, id);
            lemma_count_responds_nonneg(dispatcher_run(s1, rest_events).1, id);
            let rest = dispatcher_run(s1, rest_events).1;
            assert(acts == opt_model_seq(a) + rest);
            match a {
                Some(act) => {
                    assert(acts.len() == 1 + rest.len());
                    assert(acts[0] == act);
                    assert(acts.drop_first() =~= rest);
                },
                None => {
                    assert(acts =~= rest);
                },
            }
            match e0 {
                DispatcherEventModel::Request(i, _) => {
                    assert(count_dispatch_requests(events, id) == count_dispatch_requests(rest_events, id) + if i == id { 1int } else { 0int });
                    if s.running && !s.active.dom().contains(i) {
                        if s.n_sources == 0 {
                            if i == id {
                                assert(count_responds(acts, id) == count_responds(rest, id) + 1);
                            } else {
                                assert(count_responds(acts, id) == count_responds(rest, id));
                            }
                        } else {
                            if i == id {
                                assert(s1.active.dom().contains(id));
                            } else {
                                assert(s1.active.dom().contains(id) == s.active.dom().contains(id));
                            }
                            assert(count_responds(acts, id) == count_responds(rest, id));
                        }
                    } else {
                        assert(count_responds(acts, id) == count_responds(rest, id));
                    }
                },
                DispatcherEventModel::SourceOutcome(i, r) => {
                    assert(count_dispatch_requests(events, id) == count_dispatch_requests(rest_events, id));
                    if s.running && s.active.dom().contains(i) {
                        let responded = match r {
                            Ok(line) => s.active[i].oks.push(line).len() == s.n_sources,
                            Err(_) => true,
                        };
                        if responded {
                            if i == id {
                                assert(!s1.active.dom().contains(id));
                                assert(count_responds(acts, id) == count_responds(rest, id) + 1);
                            } else {
                                assert(s1.active.dom().contains(id) == s.active.dom().contains(id));
                                assert(count_responds(acts, id) == count_responds(rest, id));
                            }
                        } else {
                            assert(s1.active.dom().contains(id) == s.active.dom().contains(id));
                            assert(count_responds(acts, id) == count_responds(rest, id));
                        }
                    }
                },
                _ => {},
            }
        }
    }
}

/// Nothing is processed after a shutdown: once a cancellation or a closed
/// inbound channel is seen at position `k`, the run is the same as if the
/// events after it had never arrived. A request submitted to the dispatcher
/// after the shutdown signal therefore produces no source calls and no reply.
pub proof fn lemma_dispatcher_ignores_after_shutdown(s: DispatcherModel, events: Seq<DispatcherEventModel>, k: int)
    requires
        0 <= k < events.len(),
        events[k] matches DispatcherEventModel::Cancelled || events[k] matches DispatcherEventModel::InboundClosed,
    ensures
        dispatcher_run(s, events) == dispatcher_run(s, events.take(k + 1)),
    decreases events.len(),
{
    let (s1, a) = dispatcher_step(s, events[0]);
    let taken = events.take(k + 1);
    assert(taken[0] == events[0]);
    if a matches Some(DispatcherActionModel::Exit) {
    } else {
        assert(k > 0) by {
            if k == 0 {
                assert(a matches Some(DispatcherActionModel::Exit));
            }
        }
        lemma_dispatcher_ignores_after_shutdown(s1, events.drop_first(), k - 1);
        assert(events.drop_first().take(k) == events.take(k + 1).drop_first());
    }
}

proof fn lemma_count_dispatch_requests_zero(events: Seq<DispatcherEventModel>, id: u64)
    requires
        forall|j: int| 0 <= j < events.len() ==> !(#[trigger] events[j] matches DispatcherEventModel::Request(i, _) && i == id),
    ensures
        count_dispatch_requests(events, id) == 0,
    decreases events.len(),
{
    if events.len() > 0 {
        assert forall|j: int| 0 <= j < events.drop_first().len() implies
            !(#[trigger] events.drop_first()[j] matches DispatcherEventModel::Request(i, _) && i == id) by {
            assert(events.drop_first()[j] == events[j + 1]);
        }
        lemma_count_dispatch_requests_zero(events.drop_first(), id);
    }
}

/// How many of these actions call a source on behalf of request `id`.
pub open spec fn count_source_calls(actions: Seq<DispatcherActionModel>, id: u64) -> int
    decreases actions.len(),
{
    if actions.len() == 0 {
        0
    } else {
        count_source_calls(actions.drop_first(), id) + match actions[0] {
            DispatcherActionModel::CallSource(i, _, _) => if i == id { 1int } else { 0int },
            _ => 0int,
        }
    }
}

proof fn lemma_count_source_calls_zero(actions: Seq<DispatcherActionModel>, events: Seq<DispatcherEventModel>, s: DispatcherModel, id: u64)
    requires
        actions == dispatcher_run(s, events).1,
        count_dispatch_requests(events, id) == 0,
        !s.active.dom().contains(id),
    ensures
        count_source_calls(actions, id) == 0,
    decreases events.len(),
{
    if events.len() > 0 {
        let (s1, a) = dispatcher_step(s, events[0]);
        let rest_events = events.drop_first();
        lemma_count_dispatch_requests_nonneg(rest_events, id);
        let first_requests = match events[0] {
            DispatcherEventModel::Request(i, _) => if i == id { 1int } else { 0int },
            _ => 0int,
        };
        assert(count_dispatch_requests(events, id) == count_dispatch_requests(rest_events, id) + first_requests);
        assert(count_dispatch_requests(rest_events, id) == 0 && first_requests == 0);
        if a matches Some(DispatcherActionModel::Exit) {
            assert(actions == seq![DispatcherActionModel::Exit]);
            assert(actions[0] == DispatcherActionModel::Exit);
            assert(actions.drop_first() =~= Seq::<DispatcherActionModel>::empty());
            assert(count_source_calls(Seq::<DispatcherActionModel>::empty(), id) == 0);
        } else {
            assert(!s1.active.dom().contains(id)) by {
                match events[0] {
                    DispatcherEventModel::Request(i, _) => {
                        assert(i != id);
                    },
                    _ => {},
                }
            }
            let rest = dispatcher_run(s1, rest_events).1;
            lemma_count_source_calls_zero(rest, rest_events, s1, id);
            match a {
                Some(act) => {
                    assert(actions == opt_model_seq(a) + rest);
                    assert(actions[0] == act);
                    assert(actions.drop_first() =~= rest);
                    match act {
                        DispatcherActionModel::CallSource(i, _, _) => {
                            assert(i != id);
                        },
                        _ => {},
                    }
                },
                None => {
                    assert(actions =~= rest);
                },
            }
        }
    }
}

/// No accept after shutdown, spelled out for one late request: when the
/// shutdown signal stands at position `k` of the events, and the request `id`
/// is not in flight and is submitted only after that position, the whole run
/// calls no source for it and writes no reply for it — its caller can only
/// observe a failed send or an abandoned reply slot.
pub proof fn lemma_late_dispatch_is_never_served(s: DispatcherModel, events: Seq<DispatcherEventModel>, k: int, id: u64)
    requires
        0 <= k < events.len(),
        events[k] matches DispatcherEventModel::Cancelled || events[k] matches DispatcherEventModel::InboundClosed,
        !s.active.dom().contains(id),
        forall|j: int| 0 <= j <= k ==> !(#[trigger] events[j] matches DispatcherEventModel::Request(i, _) && i == id),
    ensures
        count_responds(dispatcher_run(s, events).1, id) == 0,
        count_source_calls(dispatcher_run(s, events).1, id) == 0,
{
    lemma_dispatcher_ignores_after_shutdown(s, events, k);
    let taken = events.take(k + 1);
    assert forall|j: int| 0 <= j < taken.len() implies
        !(#[trigger] taken[j] matches DispatcherEventModel::Request(i, _) && i == id) by {
        assert(taken[j] == events[j]);
    }
    lemma_count_dispatch_requests_zero(taken, id);
    lemma_dispatcher_responds_at_most_once(s, taken, id);
    lemma_count_responds_nonneg(dispatcher_run(s, taken).1, id);
    lemma_count_source_calls_zero(dispatcher_run(s, taken).1, taken, s, id);
}

/// Concurrent requests do not interfere: what the dispatcher does with a
/// source outcome for request `id` depends only on that request's own
/// aggregation state, never on what else is in flight — so one pending
/// request cannot block another's progress. Likewise a new request is
/// accepted or rejected without regard to the rest of the pool.
pub proof fn lemma_requests_progress_independently(s: DispatcherModel, t: DispatcherModel, id: u64, r: Result<Seq<char>, CityDataError>, city: Seq<char>)
    requires
        s.running == t.running,
        s.n_sources == t.n_sources,
        s.active.dom().contains(id) == t.active.dom().contains(id),
        s.active.dom().contains(id) ==> s.active[id] == t.active[id],
    ensures
        dispatcher_step(s, DispatcherEventModel::SourceOutcome(id, r)).1 == dispatcher_step(t, DispatcherEventModel::SourceOutcome(id, r)).1,
        dispatcher_step(s, DispatcherEventModel::Request(id, city)).1 == dispatcher_step(t, DispatcherEventModel::Request(id, city)).1,
{
}

/// One in-flight aggregation as the executable dispatcher tracks it.
struct AggEntry {
    id: u64,
    city: String,
    buf: String,
    count: usize,
    oks: Ghost<Seq<Seq<char>>>,
}

spec fn entry_view(e: AggEntry) -> AggState {
    AggState { city: e.city@, oks: e.oks@ }
}

spec fn entry_wf(e: AggEntry, n_sources: usize) -> bool {
    &&& e.count == e.oks@.len()
    &&& e.buf@ == lines_concat(e.oks@)
    &&& e.count < n_sources
}

spec fn entry_ids(s: Seq<AggEntry>) -> Seq<u64> {
    s.map_values(|e: AggEntry| e.id)
}

spec fn entries_map(s: Seq<AggEntry>) -> Map<u64, AggState>
    decreases s.len(),
{
    if s.len() == 0 {
        Map::empty()
    } else {
        entries_map(s.drop_last()).insert(s.last().id, entry_view(s.last()))
    }
}

proof fn lemma_entries_map_dom(s: Seq<AggEntry>)
    ensures
        entries_map(s).dom() == entry_ids(s).to_set(),
    decreases s.len(),
{
    if s.len() == 0 {
        assert forall|id: u64| !entry_ids(s).to_set().contains(id) by {
            assert(entry_ids(s).len() == 0);
        }
        assert(entries_map(s).dom() =~= entry_ids(s).to_set());
    } else {
        lemma_entries_map_dom(s.drop_last());
        assert(entry_ids(s.drop_last()) =~= entry_ids(s).drop_last());
        assert(entry_ids(s) =~= entry_ids(s).drop_last().push(s.last().id));
        crate::data_fetchers::lemma_push_to_set(entry_ids(s).drop_last(), s.last().id);
        assert(entries_map(s).dom() =~= entry_ids(s).to_set());
    }
}

proof fn lemma_entries_map_index(s: Seq<AggEntry>, i: int)
    requires
        entry_ids(s).no_duplicates(),
        0 <= i < s.len(),
    ensures
        entries_map(s).dom().contains(s[i].id),
        entries_map(s)[s[i].id] == entry_view(s[i]),
    decreases s.len(),
{
    if i == s.len() - 1 {
    } else {
        assert(entry_ids(s.drop_last()) =~= entry_ids(s).drop_last());
        assert(entry_ids(s.drop_last()).no_duplicates()) by {
            assert(forall|p: int, q: int|
                0 <= p < entry_ids(s).drop_last().len() && 0 <= q < entry_ids(s).drop_last().len() && p != q
                    ==> entry_ids(s)[p] != entry_ids(s)[q]);
        }
        lemma_entries_map_index(s.drop_last(), i);
        assert(entry_ids(s)[i] == s[i].id);
        assert(entry_ids(s)[s.len() - 1] == s.last().id);
        assert(s[i].id != s.last().id);
    }
}

proof fn lemma_entries_map_remove(s: Seq<AggEntry>, i: int)
    requires
        entry_ids(s).no_duplicates(),
        0 <= i < s.len(),
    ensures
        entries_map(s.remove(i)) == entries_map(s).remove(s[i].id),
        entry_ids(s.remove(i)) =~= entry_ids(s).remove(i),
        entry_ids(s.remove(i)).no_duplicates(),
    decreases s.len(),
{
    s.remove_ensures(i);
    entry_ids(s).remove_ensures(i);
    assert(entry_ids(s.remove(i)) =~= entry_ids(s).remove(i));
    crate::data_fetchers::lemma_remove_to_set(entry_ids(s), i);
    lemma_entries_map_dom(s);
    lemma_entries_map_dom(s.drop_last());
    assert(entry_ids(s.drop_last()) =~= entry_ids(s).drop_last());
    if i == s.len() - 1 {
        assert(s.remove(i) =~= s.drop_last());
        assert(!entries_map(s.drop_last()).dom().contains(s[i].id)) by {
            assert(forall|j: int| 0 <= j < s.len() - 1 ==> entry_ids(s)[j] != s[i].id);
        }
        assert(entries_map(s.drop_last()) =~= entries_map(s).remove(s[i].id));
    } else {
        assert(entry_ids(s.drop_last()).no_duplicates()) by {
            assert(forall|p: int, q: int|
                0 <= p < entry_ids(s).drop_last().len() && 0 <= q < entry_ids(s).drop_last().len() && p != q
                    ==> entry_ids(s)[p] != entry_ids(s)[q]);
        }
        lemma_entries_map_remove(s.drop_last(), i);
        assert(s.remove(i).drop_last() =~= s.drop_last().remove(i));
        assert(s.remove(i).last() == s.last()) by {
            assert(s.remove(i)[s.len() - 2] == s[s.len() - 1]);
        }
        assert(entry_ids(s)[i] == s[i].id);
        assert(entry_ids(s)[s.len() - 1] == s.last().id);
        assert(s[i].id != s.last().id);
        assert(entries_map(s.remove(i)) == entries_map(s.drop_last()).remove(s[i].id).insert(s.last().id, entry_view(s.last())));
        assert(entries_map(s.drop_last()).remove(s[i].id).insert(s.last().id, entry_view(s.last()))
            =~= entries_map(s.drop_last()).insert(s.last().id, entry_view(s.last())).remove(s[i].id));
    }
}

/// The dispatcher actor: the verified state machine inside the dispatcher
/// task. The surrounding loop owns the channels and the data-source handles;
/// it hands every wake-up to [`DispatcherTask::step`] (or a whole script of
/// them to [`DispatcherTask::run`]) and carries out the actions.
pub struct DispatcherTask {
    running: bool,
    n_sources: usize,
    active: Vec<AggEntry>,
}

impl View for DispatcherTask {
    type V = DispatcherModel;

    closed spec fn view(&self) -> DispatcherModel {
        DispatcherModel {
            running: self.running,
            n_sources: self.n_sources as int,
            active: entries_map(self.active@),
        }
    }
}

impl DispatcherTask {
    /// Each in-flight request is tracked once, its recorded answers agree
    /// with its output buffer, and none has heard from every source yet.
    pub closed spec fn wf(&self) -> bool {
        &&& entry_ids(self.active@).no_duplicates()
        &&& forall|j: int| 0 <= j < self.active@.len() ==> entry_wf(#[trigger] self.active@[j], self.n_sources)
    }

    /// A fresh dispatcher over `n_sources` configured data sources: running,
    /// with nothing in flight.
    pub fn new(n_sources: usize) -> (t: DispatcherTask)
        ensures
            t.wf(),
            t@ == (DispatcherModel { running: true, n_sources: n_sources as int, active: Map::<u64, AggState>::empty() }),
    {
        let t = DispatcherTask { running: true, n_sources, active: Vec::new() };
        t
    }

    /// The index of the in-flight aggregation for this request, if any.
    fn find_entry(&self, id: u64) -> (r: Option<usize>)
        ensures
            match r {
                Some(i) => i < self.active@.len() && self.active@[i as int].id == id,
                None => !entry_ids(self.active@).contains(id),
            },
    {
        let mut k: usize = 0;
        while k < self.active.len()
            invariant
                k <= self.active.len(),
                forall|j: int| 0 <= j < k ==> self.active@[j].id != id,
            decreases self.active.len() - k,
        {
            if self.active[k].id == id {
                return Some(k);
            }
            k += 1;
        }
        proof {
            assert forall|j: int| 0 <= j < entry_ids(self.active@).len() implies entry_ids(self.active@)[j] != id by {
                assert(self.active@[j].id != id);
            }
        }
        None
    }

    /// Feed the dispatcher one event; it returns the action it decides on,
    /// exactly as [`dispatcher_step`] describes.
    pub fn step(&mut self, e: DispatcherEvent) -> (a: Option<DispatcherAction>)
        requires
            old(self).wf(),
        ensures
            final(self).wf(),
            (final(self)@, opt_view(a)) == dispatcher_step(old(self)@, e@),
    {
        match e {
            DispatcherEvent::Request(req) => {
                proof {
                    lemma_entries_map_dom(self.active@);
                }
                let known = match self.find_entry(req.id) {
                    Some(i) => {
                        proof {
                            assert(entry_ids(self.active@)[i as int] == req.id);
                            assert(entry_ids(self.active@).contains(req.id));
                        }
                        true
                    },
                    None => false,
                };
                if self.running && !known {
                    if self.n_sources == 0 {
                        proof {
                            assert(lines_concat(Seq::<Seq<char>>::empty()) =~= Seq::<char>::empty());
                        }
                        Some(DispatcherAction::Respond(req.id, String::new()))
                    } else {
                        let city_copy = req.city_name.clone();
                        let ghost ghost_city = req.city_name@;
                        let ghost pre = self.active@;
                        let entry = AggEntry {
                            id: req.id,
                            city: req.city_name,
                            buf: String::new(),
                            count: 0,
                            oks: Ghost(Seq::empty()),
                        };
                        proof {
                            assert(entry_ids(pre.push(entry)) =~= entry_ids(pre).push(req.id));
                            crate::data_fetchers::lemma_push_no_duplicates(entry_ids(pre), req.id);
                            assert(pre.push(entry).drop_last() =~= pre);
                            assert(lines_concat(Seq::<Seq<char>>::empty()) =~= Seq::<char>::empty());
                        }
                        self.active.push(entry);
                        proof {
                            assert(entries_map(self.active@) =~= entries_map(pre).insert(req.id, AggState { city: ghost_city, oks: Seq::empty() }));
                        }
                        Some(DispatcherAction::CallSource(req.id, 0, city_copy))
                    }
                } else {
                    Some(DispatcherAction::Rejected(req.id))
                }
            },
            DispatcherEvent::SourceOutcome(id, r) => {
                proof {
                    lemma_entries_map_dom(self.active@);
                }
                if !self.running {
                    return None;
                }
                match self.find_entry(id) {
                    None => None,
                    Some(i) => {
                        proof {
                            lemma_entries_map_index(self.active@, i as int);
                            lemma_entries_map_remove(self.active@, i as int);
                        }
                        let ghost pre = self.active@;
                        let mut entry = self.active.remove(i);
                        match r {
                            Ok(line) => {
                                proof {
                                    reveal_strlit("\n");
                                    assert("\n"@ =~= seq!['\n']);
                                    assert(entry.oks@.push(line@).drop_last() =~= entry.oks@);
                                }
                                entry.buf.append(line.as_str());
                                entry.buf.append("\n");
                                entry.count = entry.count + 1;
                                proof {
                                    entry.oks@ = entry.oks@.push(line@);
                                }
                                if entry.count == self.n_sources {
                                    proof {
                                        assert(entries_map(self.active@) =~= entries_map(pre).remove(id));
                                        assert(entry.buf@ == lines_concat(entry.oks@));
                                    }
                                    Some(DispatcherAction::Respond(id, entry.buf))
                                } else {
                                    let city_copy = entry.city.clone();
                                    let cnt = entry.count;
                                    let ghost mid = self.active@;
                                    proof {
                                        assert(entry_ids(mid.push(entry)) =~= entry_ids(mid).push(id));
                                        assert(entry_ids(mid) =~= entry_ids(pre).remove(i as int));
                                        assert(!entry_ids(mid).contains(id)) by {
                                            crate::data_fetchers::lemma_remove_to_set(entry_ids(pre), i as int);
                                            assert(!entry_ids(pre).remove(i as int).to_set().contains(id));
                                        }
                                        crate::data_fetchers::lemma_push_no_duplicates(entry_ids(mid), id);
                                        assert(mid.push(entry).drop_last() =~= mid);
                                        assert(entry.id == id);
                                        assert(entries_map(pre).remove(id).insert(id, entry_view(entry))
                                            =~= entries_map(pre).insert(id, entry_view(entry)));
                                    }
                                    self.active.push(entry);
                                    Some(DispatcherAction::CallSource(id, cnt, city_copy))
                                }
                            },
                            Err(_) => {
                                proof {
                                    assert(entries_map(self.active@) =~= entries_map(pre).remove(id));
                                }
                                Some(DispatcherAction::Respond(id, "Request failed".to_owned()))
                            },
                        }
                    },
                }
            },
            DispatcherEvent::Cancelled => {
                self.running = false;
                Some(DispatcherAction::Exit)
            },
            DispatcherEvent::InboundClosed => {
                self.running = false;
                Some(DispatcherAction::Exit)
            },
        }
    }
}

/// A sequence of dispatcher events, seen abstractly.
pub open spec fn events_view(events: Seq<DispatcherEvent>) -> Seq<DispatcherEventModel> {
    events.map_values(|e: DispatcherEvent| e@)
}

/// A sequence of dispatcher actions, seen abstractly.
pub open spec fn actions_view(actions: Seq<DispatcherAction>) -> Seq<DispatcherActionModel> {
    actions.map_values(|a: DispatcherAction| a@)
}

impl DispatcherTask {
    /// The dispatcher's event loop over a script of events: steps through
    /// them in order, collects every action taken, and stops at the first
    /// exit, as [`dispatcher_run`] describes. Aggregations left in flight at
    /// that point are abandoned; their callers see their reply slots
    /// unresolved.
    pub fn run(&mut self, events: Vec<DispatcherEvent>) -> (actions: Vec<DispatcherAction>)
        requires
            old(self).wf(),
        ensures
            final(self).wf(),
            final(self)@ == dispatcher_run(old(self)@, events_view(events@)).0,
            actions_view(actions@) == dispatcher_run(old(self)@, events_view(events@)).1,
    {
        let ghost s0 = self@;
        let ghost evs0 = events_view(events@);
        let mut evs = events;
        let mut actions: Vec<DispatcherAction> = Vec::new();
        loop
            invariant_except_break
                self.wf(),
                dispatcher_run(s0, evs0).0 == dispatcher_run(self@, events_view(evs@)).0,
                dispatcher_run(s0, evs0).1 == actions_view(actions@) + dispatcher_run(self@, events_view(evs@)).1,
            ensures
                self.wf(),
                self@ == dispatcher_run(s0, evs0).0,
                actions_view(actions@) == dispatcher_run(s0, evs0).1,
            decreases evs@.len(),
        {
            if evs.len() == 0 {
                proof {
                    assert(events_view(evs@).len() == 0);
                    assert(actions_view(actions@) + dispatcher_run(self@, events_view(evs@)).1 =~= actions_view(actions@));
                }
                break;
            }
            let ghost pre_model = self@;
            let ghost pre_evs = events_view(evs@);
            let e = evs.remove(0);
            proof {
                assert(pre_evs.len() > 0);
                assert(pre_evs[0] == e@);
                assert(events_view(evs@) =~= pre_evs.drop_first());
            }
            let a = self.step(e);
            match a {
                Some(act) => {
                    let exit = matches!(act, DispatcherAction::Exit);
                    proof {
                        if exit {
                            assert(act@ matches DispatcherActionModel::Exit);
                            assert(dispatcher_run(pre_model, pre_evs).1 =~= seq![DispatcherActionModel::Exit]);
                            assert(actions_view(actions@.push(act)) =~= actions_view(actions@).push(act@));
                            assert(actions_view(actions@) + dispatcher_run(pre_model, pre_evs).1 =~= actions_view(actions@).push(act@));
                        } else {
                            assert(!(act@ matches DispatcherActionModel::Exit));
                            assert(opt_model_seq(dispatcher_step(pre_model, pre_evs[0]).1) =~= seq![act@]);
                            assert(actions_view(actions@.push(act)) =~= actions_view(actions@).push(act@));
                            assert(actions_view(actions@) + (seq![act@] + dispatcher_run(self@, events_view(evs@)).1)
                                =~= actions_view(actions@).push(act@) + dispatcher_run(self@, events_view(evs@)).1);
                        }
                    }
                    actions.push(act);
                    if exit {
                        break;
                    }
                },
                None => {
                    proof {
                        assert(opt_model_seq(dispatcher_step(pre_model, pre_evs[0]).1) =~= Seq::<DispatcherActionModel>::empty());
                        assert(actions_view(actions@) + (Seq::<DispatcherActionModel>::empty() + dispatcher_run(self@, events_view(evs@)).1)
                            =~= actions_view(actions@) + dispatcher_run(self@, events_view(evs@)).1);
                    }
                },
            }
        }
        actions
    }
}

} // verus!
