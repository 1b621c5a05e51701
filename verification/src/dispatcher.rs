//! The block dispatcher: a queue-and-retry engine that consumes candidate ids
//! from the scanner, keeps one outstanding block request per dispatched id,
//! and resolves each completed request by outcome — success records the
//! block, not-found drops the candidate, and every failure requeues it at the
//! front of the queue so that retries go out before newer arrivals.
//!
//! Dispatching is gated by one deadline: requests fire only once the current
//! Unix second has reached it. The dispatch gate starts open, stays open once the
//! deadline has elapsed, and is re-closed only by a too-many-requests
//! response whose reset lies past the current deadline.
//!
//! The binary runs the event loop: it polls the channel, the outstanding
//! requests and the timer, and hands what arrived to [`Dispatcher::step`],
//! which makes every decision and is specified against the functional model
//! in this module.

use std::collections::VecDeque;
use vstd::prelude::*;

use crate::scanner::is_success;
use crate::twitter::RateLimit;

verus! {

/// The outcome of one finished block request.
#[derive(Clone, Copy, Debug, PartialEq, Eq, Structural)]
pub enum Outcome {
    /// The request succeeded: record the block and retire the id.
    Success,
    /// The account no longer exists: retire the id without a record.
    NotFound,
    /// The connection itself failed: requeue the id at the front.
    TransportError,
    /// Too many requests: requeue the id at the front and, when the reported
    /// reset lies past the current deadline, close the dispatch gate until one second
    /// past the reset.
    RateLimited { reset: u64 },
    /// Any other non-success status: requeue the id at the front.
    Failure,
}

/// One finished block request: the id it was for, and how it ended.
#[derive(Clone, Copy, Debug, PartialEq, Eq, Structural)]
pub struct Completion {
    pub id: i64,
    pub outcome: Outcome,
}

/// Whether `o` sends its id back to the front of the queue.
pub open spec fn requeues(o: Outcome) -> bool {
    o is TransportError || o is RateLimited || o is Failure
}

/// Whether `o` retires its id for good.
pub open spec fn terminal(o: Outcome) -> bool {
    o is Success || o is NotFound
}

/// Whether a reported reset leaves room for the one-second margin.
pub open spec fn gate_reset_ok(o: Outcome) -> bool {
    match o {
        Outcome::RateLimited { reset } => reset < u64::MAX,
        _ => true,
    }
}

/// The dispatcher state, as the contracts speak of it: the queued ids in
/// dispatch order (front first), the ids with an outstanding request, the
/// gate deadline, and whether the inbound source has closed.
#[verifier::ext_equal]
pub struct DispatcherModel {
    pub pending: Seq<i64>,
    pub in_flight: Seq<i64>,
    pub deadline: u64,
    pub closed: bool,
}

/// `s` without its first occurrence of `x` (and unchanged when `x` is absent).
pub open spec fn remove_first(s: Seq<i64>, x: i64) -> Seq<i64>
    decreases s.len(),
{
    if s.len() == 0 {
        s
    } else if s[0] == x {
        s.drop_first()
    } else {
        seq![s[0]] + remove_first(s.drop_first(), x)
    }
}

/// The new deadline after an outcome: only a too-many-requests response whose
/// reset lies past the current deadline moves it, to one second past the
/// reset.
pub open spec fn gate_after(deadline: u64, o: Outcome) -> u64 {
    match o {
        Outcome::RateLimited { reset } => if reset > deadline {
            (reset + 1) as u64
        } else {
            deadline
        },
        _ => deadline,
    }
}

/// One completion resolved: the id leaves the in-flight set, a failing id
/// returns to the front of the queue, and the dispatch gate moves as [`gate_after`]
/// says.
pub open spec fn resolve_spec(m: DispatcherModel, c: Completion) -> DispatcherModel {
    DispatcherModel {
        pending: if requeues(c.outcome) {
            seq![c.id] + m.pending
        } else {
            m.pending
        },
        in_flight: remove_first(m.in_flight, c.id),
        deadline: gate_after(m.deadline, c.outcome),
        closed: m.closed,
    }
}

/// The completions of one step resolved in arrival order.
pub open spec fn resolve_all_spec(m: DispatcherModel, cs: Seq<Completion>) -> DispatcherModel
    decreases cs.len(),
{
    if cs.len() == 0 {
        m
    } else {
        resolve_all_spec(resolve_spec(m, cs[0]), cs.drop_first())
    }
}

/// The inbound ids of one step drained to the back of the queue, and the
/// closed flag latched.
pub open spec fn absorb_spec(m: DispatcherModel, arrivals: Seq<i64>, closed: bool) -> DispatcherModel {
    DispatcherModel {
        pending: m.pending + arrivals,
        in_flight: m.in_flight,
        deadline: m.deadline,
        closed: m.closed || closed,
    }
}

/// What the dispatch gate check fires: the whole queue once `now` has reached the
/// deadline, nothing before.
pub open spec fn fired_spec(m: DispatcherModel, now: u64) -> Seq<i64> {
    if now >= m.deadline {
        m.pending
    } else {
        Seq::empty()
    }
}

/// The state after the dispatch gate check: a fired queue moves wholesale into the
/// in-flight set.
pub open spec fn gate_spec(m: DispatcherModel, now: u64) -> DispatcherModel {
    if now >= m.deadline {
        DispatcherModel {
            pending: Seq::empty(),
            in_flight: m.in_flight + m.pending,
            deadline: m.deadline,
            closed: m.closed,
        }
    } else {
        m
    }
}

/// One whole iteration of the event loop, in its fixed drain order: inbound
/// ids first, then completions, then the dispatch gate check.
pub open spec fn step_spec(
    m: DispatcherModel,
    arrivals: Seq<i64>,
    closed: bool,
    cs: Seq<Completion>,
    now: u64,
) -> DispatcherModel {
    gate_spec(resolve_all_spec(absorb_spec(m, arrivals, closed), cs), now)
}

/// The ids one whole iteration fires.
pub open spec fn step_fired(
    m: DispatcherModel,
    arrivals: Seq<i64>,
    closed: bool,
    cs: Seq<Completion>,
    now: u64,
) -> Seq<i64> {
    fired_spec(resolve_all_spec(absorb_spec(m, arrivals, closed), cs), now)
}

/// The ids whose block succeeded, in completion order: each gets a block
/// record.
pub open spec fn recorded_ids(cs: Seq<Completion>) -> Seq<i64>
    decreases cs.len(),
{
    if cs.len() == 0 {
        Seq::empty()
    } else {
        let rest = recorded_ids(cs.drop_last());
        if cs.last().outcome is Success {
            rest.push(cs.last().id)
        } else {
            rest
        }
    }
}

/// Whether each completion answers an id that is still outstanding when its
/// turn comes: every completed request was dispatched.
pub open spec fn resolvable(in_flight: Seq<i64>, cs: Seq<Completion>) -> bool
    decreases cs.len(),
{
    cs.len() == 0 || (in_flight.contains(cs[0].id) && resolvable(
        remove_first(in_flight, cs[0].id),
        cs.drop_first(),
    ))
}

/// Whether every reported reset of a batch leaves room for the one-second
/// margin.
pub open spec fn resets_ok(cs: Seq<Completion>) -> bool {
    forall|i: int| 0 <= i < cs.len() ==> gate_reset_ok((#[trigger] cs[i]).outcome)
}

/// How many ids the dispatcher still owes a terminal outcome.
pub open spec fn measure(m: DispatcherModel) -> nat {
    m.pending.len() + m.in_flight.len()
}

/// Removing the first occurrence of a present id shrinks a run by one.
proof fn lemma_remove_first_len(s: Seq<i64>, x: i64)
    requires
        s.contains(x),
    ensures
        remove_first(s, x).len() == s.len() - 1,
    decreases s.len(),
{
    if s[0] != x {
        let j = choose|j: int| 0 <= j < s.len() && s[j] == x;
        assert(s.drop_first()[j - 1] == x);
        lemma_remove_first_len(s.drop_first(), x);
    }
}

/// Removing the first occurrence of `x`, found at index `i`, is removing the
/// element at `i`.
proof fn lemma_remove_first_at(s: Seq<i64>, x: i64, i: int)
    requires
        0 <= i < s.len(),
        s[i] == x,
        forall|j: int| 0 <= j < i ==> s[j] != x,
    ensures
        remove_first(s, x) =~= s.remove(i),
    decreases i,
{
    if i == 0 {
        assert(remove_first(s, x) == s.drop_first());
        assert(s.drop_first() =~= s.remove(0));
    } else {
        assert(s[0] != x);
        lemma_remove_first_at(s.drop_first(), x, i - 1);
        assert(seq![s[0]] + s.drop_first().remove(i - 1) =~= s.remove(i));
    }
}

/// Resolving a batch and then one more completion is resolving the extended
/// batch.
proof fn lemma_resolve_all_snoc(m: DispatcherModel, cs: Seq<Completion>, c: Completion)
    ensures
        resolve_all_spec(m, cs.push(c)) =~= resolve_spec(resolve_all_spec(m, cs), c),
    decreases cs.len(),
{
    if cs.len() == 0 {
        assert(cs.push(c)[0] == c);
        assert(cs.push(c).drop_first() =~= Seq::<Completion>::empty());
        assert(resolve_all_spec(m, cs.push(c)) == resolve_all_spec(
            resolve_spec(m, c),
            cs.push(c).drop_first(),
        ));
        assert(resolve_all_spec(resolve_spec(m, c), Seq::<Completion>::empty()) == resolve_spec(
            m,
            c,
        ));
    } else {
        assert(cs.push(c)[0] == cs[0]);
        assert(cs.push(c).drop_first() =~= cs.drop_first().push(c));
        assert(resolve_all_spec(m, cs.push(c)) == resolve_all_spec(
            resolve_spec(m, cs[0]),
            cs.push(c).drop_first(),
        ));
        assert(resolve_all_spec(m, cs) == resolve_all_spec(
            resolve_spec(m, cs[0]),
            cs.drop_first(),
        ));
        lemma_resolve_all_snoc(resolve_spec(m, cs[0]), cs.drop_first(), c);
    }
}

/// What one event-loop iteration hands back: the ids fired through the dispatch gate
/// (one concurrent block request each), the ids whose block succeeded (one
/// block record each), and whether the dispatcher is finished.
pub struct StepOutput {
    pub fired: Vec<i64>,
    pub records: Vec<i64>,
    pub done: bool,
}

/// The queue-and-retry engine. Its exec state is exactly the
/// [`DispatcherModel`] the contracts speak of.
pub struct Dispatcher {
    pending: VecDeque<i64>,
    in_flight: Vec<i64>,
    deadline: u64,
    source_closed: bool,
}

impl Dispatcher {
    /// The state as the contracts speak of it.
    pub closed spec fn model(self) -> DispatcherModel {
        DispatcherModel {
            pending: self.pending@,
            in_flight: self.in_flight@,
            deadline: self.deadline,
            closed: self.source_closed,
        }
    }

    /// A fresh dispatcher: empty queue, nothing outstanding, and the dispatch gate
    /// already open — its deadline is `now`.
    pub fn new(now: u64) -> (d: Dispatcher)
        ensures
            d.model() == (DispatcherModel {
                pending: Seq::<i64>::empty(),
                in_flight: Seq::<i64>::empty(),
                deadline: now,
                closed: false,
            }),
    {
        Dispatcher {
            pending: VecDeque::new(),
            in_flight: Vec::new(),
            deadline: now,
            source_closed: false,
        }
    }

    /// The Unix second from which queued requests may fire.
    pub fn deadline(&self) -> (deadline: u64)
        ensures
            deadline == self.model().deadline,
    {
        self.deadline
    }

    /// Whether a request for `id` is outstanding.
    pub fn is_outstanding(&self, id: i64) -> (r: bool)
        ensures
            r == self.model().in_flight.contains(id),
    {
        let mut k: usize = 0;
        while k < self.in_flight.len()
            invariant
                0 <= k <= self.in_flight@.len(),
                forall|j: int| 0 <= j < k ==> self.in_flight@[j] != id,
            decreases self.in_flight@.len() - k,
        {
            if self.in_flight[k] == id {
                return true;
            }
            k = k + 1;
        }
        false
    }

    /// Whether queued requests may fire at the Unix second `now`.
    pub fn gate_open(&self, now: u64) -> (open: bool)
        ensures
            open == (now >= self.model().deadline),
    {
        now >= self.deadline
    }

    /// Whether the dispatcher is finished: the source has closed and every
    /// accepted id has reached a terminal outcome.
    pub fn is_done(&self) -> (done: bool)
        ensures
            done == (self.model().closed && self.model().pending.len() == 0
                && self.model().in_flight.len() == 0),
    {
        self.source_closed && self.pending.len() == 0 && self.in_flight.len() == 0
    }

    /// Accepts one inbound id at the back of the queue.
    pub fn push_arrival(&mut self, id: i64)
        ensures
            final(self).model() == absorb_spec(old(self).model(), seq![id], false),
    {
        self.pending.push_back(id);
        proof {
            assert(final(self).model() =~= absorb_spec(old(self).model(), seq![id], false));
        }
    }

    /// Notes that the inbound source has closed and will deliver nothing
    /// more.
    pub fn close_source(&mut self)
        ensures
            final(self).model() == absorb_spec(old(self).model(), Seq::<i64>::empty(), true),
    {
        self.source_closed = true;
        proof {
            assert(final(self).model() =~= absorb_spec(
                old(self).model(),
                Seq::<i64>::empty(),
                true,
            ));
        }
    }

    /// Resolves one completed request, as [`resolve_spec`] says: the id
    /// leaves the in-flight set; a success asks the caller for a block record
    /// (the returned flag), a not-found retires the id silently, and every
    /// failure requeues it at the front, a too-many-requests moving the dispatch gate
    /// deadline as well.
    pub fn resolve(&mut self, c: &Completion) -> (record: bool)
        requires
            old(self).model().in_flight.contains(c.id),
            gate_reset_ok(c.outcome),
        ensures
            final(self).model() == resolve_spec(old(self).model(), *c),
            record == (c.outcome is Success),
    {
        let ghost s = self.in_flight@;
        let mut idx: usize = 0;
        while idx < self.in_flight.len() && self.in_flight[idx] != c.id
            invariant
                s == self.in_flight@,
                s.contains(c.id),
                0 <= idx <= s.len(),
                forall|j: int| 0 <= j < idx ==> s[j] != c.id,
            decreases s.len() - idx,
        {
            idx = idx + 1;
        }
        proof {
            if idx >= s.len() {
                let j = choose|j: int| 0 <= j < s.len() && s[j] == c.id;
                assert(false);
            }
            lemma_remove_first_at(s, c.id, idx as int);
        }
        self.in_flight.remove(idx);
        match c.outcome {
            Outcome::Success => {
                proof {
                    assert(final(self).model() =~= resolve_spec(old(self).model(), *c));
                }
                true
            },
            Outcome::NotFound => {
                proof {
                    assert(final(self).model() =~= resolve_spec(old(self).model(), *c));
                }
                false
            },
            Outcome::RateLimited { reset } => {
                self.pending.push_front(c.id);
                if reset > self.deadline {
                    self.deadline = crate::common::next_deadline(reset);
                }
                proof {
                    assert(final(self).model() =~= resolve_spec(old(self).model(), *c));
                }
                false
            },
            Outcome::TransportError | Outcome::Failure => {
                self.pending.push_front(c.id);
                proof {
                    assert(final(self).model() =~= resolve_spec(old(self).model(), *c));
                }
                false
            },
        }
    }

    /// The dispatch gate check: once `now` has reached the deadline, the whole queue
    /// fires, front first — one concurrent block request per returned id —
    /// and every fired id becomes outstanding. Before the deadline nothing
    /// moves.
    pub fn dispatch(&mut self, now: u64) -> (fired: Vec<i64>)
        ensures
            fired@ == fired_spec(old(self).model(), now),
            final(self).model() == gate_spec(old(self).model(), now),
    {
        let mut fired: Vec<i64> = Vec::new();
        if now >= self.deadline {
            while self.pending.len() != 0
                invariant
                    old(self).model().pending == fired@ + self.pending@,
                    self.in_flight@ == old(self).model().in_flight + fired@,
                    self.deadline == old(self).model().deadline,
                    self.source_closed == old(self).model().closed,
                decreases self.pending@.len(),
            {
                match self.pending.pop_front() {
                    Some(id) => {
                        self.in_flight.push(id);
                        fired.push(id);
                        proof {
                            assert(old(self).model().pending =~= fired@ + self.pending@);
                        }
                    },
                    None => {
                        proof {
                            assert(false);
                        }
                    },
                }
            }
            proof {
                assert(fired@ + self.pending@ =~= fired@);
                assert(final(self).model() =~= gate_spec(old(self).model(), now));
            }
        }
        fired
    }

    /// One whole iteration of the event loop, in the fixed drain order that
    /// retry priority and burst timing depend on: the inbound ids join the
    /// back of the queue (and the closed flag latches), then the completions
    /// resolve in order, then the dispatch gate check fires the queue if the deadline
    /// has elapsed. Returns the fired ids, the ids owed a block record, and
    /// whether the dispatcher is finished.
    pub fn step(
        &mut self,
        arrivals: &Vec<i64>,
        closed: bool,
        completions: &Vec<Completion>,
        now: u64,
    ) -> (out: StepOutput)
        requires
            resolvable(old(self).model().in_flight, completions@),
            resets_ok(completions@),
        ensures
            final(self).model() == step_spec(
                old(self).model(),
                arrivals@,
                closed,
                completions@,
                now,
            ),
            out.fired@ == step_fired(old(self).model(), arrivals@, closed, completions@, now),
            out.records@ == recorded_ids(completions@),
            out.done == {
                let m2 = step_spec(old(self).model(), arrivals@, closed, completions@, now);
                m2.closed && m2.pending.len() == 0 && m2.in_flight.len() == 0
            },
    {
        let ghost m0 = self.model();
        let ghost cs = completions@;

        let mut k: usize = 0;
        while k < arrivals.len()
            invariant
                0 <= k <= arrivals@.len(),
                self.model().pending == m0.pending + arrivals@.take(k as int),
                self.model().in_flight == m0.in_flight,
                self.model().deadline == m0.deadline,
                self.model().closed == m0.closed,
            decreases arrivals@.len() - k,
        {
            self.pending.push_back(arrivals[k]);
            proof {
                assert(arrivals@.take(k + 1) =~= arrivals@.take(k as int).push(
                    arrivals@[k as int],
                ));
                assert(m0.pending + arrivals@.take(k + 1) =~= (m0.pending + arrivals@.take(
                    k as int,
                )).push(arrivals@[k as int]));
            }
            k = k + 1;
        }
        if closed {
            self.source_closed = true;
        }
        let ghost m1 = absorb_spec(m0, arrivals@, closed);
        proof {
            assert(arrivals@.take(arrivals@.len() as int) =~= arrivals@);
            assert(self.model() =~= m1);
        }

        let mut records: Vec<i64> = Vec::new();
        let mut j: usize = 0;
        proof {
            assert(cs.take(0) =~= Seq::<Completion>::empty());
            assert(cs.skip(0) =~= cs);
        }
        while j < completions.len()
            invariant
                0 <= j <= cs.len(),
                cs == completions@,
                resets_ok(cs),
                self.model() == resolve_all_spec(m1, cs.take(j as int)),
                records@ == recorded_ids(cs.take(j as int)),
                resolvable(self.model().in_flight, cs.skip(j as int)),
            decreases cs.len() - j,
        {
            let c = completions[j];
            proof {
                assert(cs.skip(j as int)[0] == cs[j as int]);
                assert(gate_reset_ok(cs[j as int].outcome));
            }
            let record = self.resolve(&c);
            if record {
                records.push(c.id);
            }
            proof {
                lemma_resolve_all_snoc(m1, cs.take(j as int), cs[j as int]);
                assert(cs.take(j + 1) =~= cs.take(j as int).push(cs[j as int]));
                assert(cs.take(j + 1).drop_last() =~= cs.take(j as int));
                assert(cs.take(j + 1).last() == cs[j as int]);
                assert(cs.skip(j as int).drop_first() =~= cs.skip(j + 1));
                assert(self.model() =~= resolve_all_spec(m1, cs.take(j + 1)));
            }
            j = j + 1;
        }
        proof {
            assert(cs.take(cs.len() as int) =~= cs);
        }

        let fired = self.dispatch(now);
        let done = self.is_done();
        StepOutput { fired, records, done }
    }
}

/// How the dispatcher reads a block response: a success status records, a
/// not-found drops the candidate, a too-many-requests carries the reported
/// reset, and anything else is a plain failure to retry.
pub fn classify_block_response(status: u16, rate: &Option<RateLimit>) -> (o: Outcome)
    requires
        status == 429 ==> rate is Some,
    ensures
        is_success(status) ==> o == Outcome::Success,
        !is_success(status) && status == 404 ==> o == Outcome::NotFound,
        status == 429 ==> o == (Outcome::RateLimited { reset: rate.unwrap().reset }),
        !is_success(status) && status != 404 && status != 429 ==> o == Outcome::Failure,
{
    if 200 <= status && status < 300 {
        Outcome::Success
    } else if status == 404 {
        Outcome::NotFound
    } else if status == 429 {
        match rate {
            Some(rl) => Outcome::RateLimited { reset: rl.reset },
            None => unreached(),
        }
    } else {
        Outcome::Failure
    }
}

/// Resolving completions never moves the deadline unless one of them is a
/// too-many-requests, and never touches the closed flag.
proof fn lemma_resolve_all_gate(m: DispatcherModel, cs: Seq<Completion>)
    requires
        forall|i: int| 0 <= i < cs.len() ==> !((#[trigger] cs[i]).outcome is RateLimited),
    ensures
        resolve_all_spec(m, cs).deadline == m.deadline,
        resolve_all_spec(m, cs).closed == m.closed,
    decreases cs.len(),
{
    if cs.len() > 0 {
        assert forall|i: int| 0 <= i < cs.drop_first().len() implies !((#[trigger] cs.drop_first()[i]).outcome
            is RateLimited) by {
            assert(cs.drop_first()[i] == cs[i + 1]);
        }
        lemma_resolve_all_gate(resolve_spec(m, cs[0]), cs.drop_first());
    }
}

/// The dispatch gate is a level, not a recurring timer: once the deadline has elapsed,
/// any iteration free of too-many-requests leaves the deadline where it was
/// and fires everything queued — later arrivals dispatch without delay, until
/// a too-many-requests response re-closes the dispatch gate.
pub proof fn lemma_gate_stays_open(
    m: DispatcherModel,
    arrivals: Seq<i64>,
    closed: bool,
    cs: Seq<Completion>,
    now: u64,
)
    requires
        now >= m.deadline,
        forall|i: int| 0 <= i < cs.len() ==> !((#[trigger] cs[i]).outcome is RateLimited),
    ensures
        step_spec(m, arrivals, closed, cs, now).deadline == m.deadline,
        step_spec(m, arrivals, closed, cs, now).pending.len() == 0,
        step_fired(m, arrivals, closed, cs, now) == resolve_all_spec(
            absorb_spec(m, arrivals, closed),
            cs,
        ).pending,
{
    lemma_resolve_all_gate(absorb_spec(m, arrivals, closed), cs);
}

/// A too-many-requests completion whose reset lies past the current deadline
/// re-closes the dispatch gate: the deadline becomes exactly one second past the
/// reset, and nothing fires before it.
pub proof fn lemma_gate_recloses(m: DispatcherModel, c: Completion, reset: u64, now: u64)
    requires
        c.outcome == (Outcome::RateLimited { reset }),
        reset > m.deadline,
        reset < u64::MAX,
        now <= reset,
    ensures
        resolve_spec(m, c).deadline == reset + 1,
        fired_spec(resolve_spec(m, c), now) == Seq::<i64>::empty(),
{
}

/// Retry priority: after an iteration that requeues the failed id `c.id` and
/// accepts `arrivals`, an open gate fires `c.id` first, before every id that
/// was already queued and before every id that arrived after the failure.
pub proof fn lemma_retry_priority(
    m: DispatcherModel,
    c: Completion,
    arrivals: Seq<i64>,
    closed: bool,
    now: u64,
)
    requires
        requeues(c.outcome),
        now >= gate_after(m.deadline, c.outcome),
    ensures
        step_fired(m, arrivals, closed, seq![c], now) =~= seq![c.id] + m.pending + arrivals,
        step_fired(m, arrivals, closed, seq![c], now)[0] == c.id,
{
    let cs = seq![c];
    let m1 = absorb_spec(m, arrivals, closed);
    assert(cs.drop_first() =~= Seq::<Completion>::empty());
    assert(resolve_all_spec(m1, cs) == resolve_all_spec(resolve_spec(m1, cs[0]), cs.drop_first()));
    assert(resolve_all_spec(resolve_spec(m1, cs[0]), Seq::<Completion>::empty()) == resolve_spec(
        m1,
        cs[0],
    ));
    let m2 = resolve_spec(m1, c);
    assert(m2.pending =~= seq![c.id] + m.pending + arrivals);
    assert(now >= m2.deadline);
    assert(step_fired(m, arrivals, closed, cs, now) == m2.pending);
    assert((seq![c.id] + m.pending + arrivals)[0] == c.id);
}

/// A not-found completion retires its id without a block record and without
/// disturbing the rest: the queue, the dispatch gate and the closed flag stay as they
/// were, only the outstanding id is gone.
pub proof fn lemma_not_found_drops(m: DispatcherModel, c: Completion)
    requires
        c.outcome is NotFound,
        m.in_flight.contains(c.id),
    ensures
        resolve_spec(m, c).pending == m.pending,
        resolve_spec(m, c).deadline == m.deadline,
        resolve_spec(m, c).closed == m.closed,
        resolve_spec(m, c).in_flight.len() == m.in_flight.len() - 1,
        recorded_ids(seq![c]) == Seq::<i64>::empty(),
{
    lemma_remove_first_len(m.in_flight, c.id);
    assert(seq![c].drop_last() =~= Seq::<Completion>::empty());
    assert(recorded_ids(Seq::<Completion>::empty()) =~= Seq::<i64>::empty());
    assert(seq![c].last() == c);
    assert(recorded_ids(seq![c]) == recorded_ids(seq![c].drop_last()));
}

/// Every terminal completion of a batch shrinks what the dispatcher still
/// owes by exactly one and leaves the queue, the dispatch gate and the closed flag
/// untouched.
pub proof fn lemma_terminal_completions_shrink(m: DispatcherModel, cs: Seq<Completion>)
    requires
        forall|i: int| 0 <= i < cs.len() ==> terminal((#[trigger] cs[i]).outcome),
        resolvable(m.in_flight, cs),
    ensures
        resolve_all_spec(m, cs).pending == m.pending,
        resolve_all_spec(m, cs).deadline == m.deadline,
        resolve_all_spec(m, cs).closed == m.closed,
        resolve_all_spec(m, cs).in_flight.len() == m.in_flight.len() - cs.len(),
        measure(resolve_all_spec(m, cs)) == measure(m) - cs.len(),
    decreases cs.len(),
{
    if cs.len() > 0 {
        lemma_remove_first_len(m.in_flight, cs[0].id);
        assert forall|i: int| 0 <= i < cs.drop_first().len() implies terminal(
            (#[trigger] cs.drop_first()[i]).outcome,
        ) by {
            assert(cs.drop_first()[i] == cs[i + 1]);
        }
        lemma_terminal_completions_shrink(resolve_spec(m, cs[0]), cs.drop_first());
    }
}

/// Termination of the dispatcher: once the source has closed, the dispatch gate is
/// open and the queue has fired, a batch of terminal completions answering
/// every outstanding id leaves the dispatcher finished — it owes nothing and
/// reports done.
pub proof fn lemma_drain_to_done(m: DispatcherModel, cs: Seq<Completion>)
    requires
        m.closed,
        m.pending.len() == 0,
        forall|i: int| 0 <= i < cs.len() ==> terminal((#[trigger] cs[i]).outcome),
        resolvable(m.in_flight, cs),
        cs.len() == m.in_flight.len(),
    ensures
        resolve_all_spec(m, cs).closed,
        resolve_all_spec(m, cs).pending.len() == 0,
        resolve_all_spec(m, cs).in_flight.len() == 0,
        measure(resolve_all_spec(m, cs)) == 0,
{
    lemma_terminal_completions_shrink(m, cs);
}

} // verus!
