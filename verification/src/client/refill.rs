//! The task that keeps the pool of permits filled. It asks the tracker how
//! many calls are left, brings the pool up to that number less the permits
//! that callers hold and have not used yet, sleeps until the tracker's
//! window ends, and starts over. It only ever adds permits: callers take
//! them, and a permit that was taken is gone.
//!
//! The task itself waits on the network and on the clock. What it does next
//! is decided here: [`Refill::step`] takes what happened and tells what to do.

use vstd::prelude::*;

verus! {

/// What the tracker reports of its rate limit: the calls that are left in
/// the current window, and when the window ends, in seconds since the epoch.
#[derive(Clone, Copy, Debug, PartialEq, Eq, Structural)]
pub struct RateLimit {
    pub remaining: u32,
    pub reset: u32,
}

/// Where the refill task stands.
#[derive(Clone, Copy, Debug, PartialEq, Eq, Structural)]
pub enum Refill {
    /// No probe has succeeded yet, and whoever builds the client waits.
    Starting,
    /// The first probe succeeded and the builder is being told. The permits
    /// of that probe are still to be added.
    Announcing { permits: usize, until: u32 },
    /// Permits are being added, or the task sleeps until the window ends.
    Sleeping,
    /// The client has been built, and the next probe is under way.
    Running,
    /// The task has ended.
    Stopped,
}

/// What happened to the refill task since it was last told what to do.
#[derive(Clone, Copy, Debug, PartialEq, Eq, Structural)]
pub enum RefillEvent {
    /// Nobody else refers to the pool any more.
    PoolDropped,
    /// The tracker did not answer the probe.
    ProbeFailed,
    /// The tracker answered the probe with `limit`. The pool holds
    /// `available` permits, and callers hold `held` permits that they have
    /// taken and not yet used for a call.
    Probed { limit: RateLimit, available: usize, held: usize },
    /// The builder was told that the pool is ready, or it had gone away
    /// before it could be told.
    Announced { delivered: bool },
    /// The permits were added and the sleep is over.
    Refilled,
}

/// What the refill task is to do next.
#[derive(Clone, Copy, Debug, PartialEq, Eq, Structural)]
pub enum RefillAction {
    /// See whether the pool is still in use, and if so ask the tracker for
    /// its rate limit.
    Probe,
    /// Tell the builder that the first probe succeeded.
    AnnounceReady,
    /// Tell the builder that the first probe failed, and end.
    AnnounceFailure,
    /// Add `permits` permits to the pool, then sleep until `until`, in
    /// seconds since the epoch.
    Refill { permits: usize, until: u32 },
    /// End quietly.
    Stop,
    /// End with the probe's error.
    Fail,
}

/// The calls that are left for the pool to hand out: what the tracker
/// reported, less the permits that callers hold and have not used yet. The
/// calls they stand for will still be made, and the tracker has not counted
/// them.
pub open spec fn unclaimed(remaining: nat, held: nat) -> nat {
    if remaining >= held {
        (remaining - held) as nat
    } else {
        0
    }
}

/// The permits to add to a pool that holds `available`, so that it holds
/// `target`: what brings it up to `target`, and none where it already holds
/// as many.
pub open spec fn top_up(target: nat, available: nat) -> nat {
    if target >= available {
        (target - available) as nat
    } else {
        0
    }
}

/// The permits that a probe adds: what brings a pool of `available` permits
/// up to the calls that `remaining` leaves once the `held` permits are
/// taken off.
pub open spec fn refill_of(limit: RateLimit, available: usize, held: usize) -> usize {
    top_up(unclaimed(limit.remaining as nat, held as nat), available as nat) as usize
}

impl RefillAction {
    /// Whether the task ends with this action.
    pub open spec fn is_last(self) -> bool {
        self is AnnounceFailure || self is Stop || self is Fail
    }
}

impl Refill {
    /// The state and the action that follow `event` in state `self`.
    pub open spec fn next(self, event: RefillEvent) -> (Refill, RefillAction) {
        match (self, event) {
            (Refill::Starting, RefillEvent::Probed { limit, available, held }) => (
                Refill::Announcing {
                    permits: refill_of(limit, available, held),
                    until: limit.reset,
                },
                RefillAction::AnnounceReady,
            ),
            (Refill::Starting, RefillEvent::ProbeFailed) => (
                Refill::Stopped,
                RefillAction::AnnounceFailure,
            ),
            (Refill::Announcing { permits, until }, RefillEvent::Announced { delivered: true }) => (
                Refill::Sleeping,
                RefillAction::Refill { permits, until },
            ),
            (Refill::Sleeping, RefillEvent::Refilled) => (Refill::Running, RefillAction::Probe),
            (Refill::Running, RefillEvent::Probed { limit, available, held }) => (
                Refill::Sleeping,
                RefillAction::Refill {
                    permits: refill_of(limit, available, held),
                    until: limit.reset,
                },
            ),
            (Refill::Running, RefillEvent::ProbeFailed) => (Refill::Stopped, RefillAction::Fail),
            _ => (Refill::Stopped, RefillAction::Stop),
        }
    }

    /// Starts the task: nothing is known of the tracker yet, and the first
    /// thing to do is to probe.
    pub fn start() -> (begin: (Refill, RefillAction))
        ensures
            begin == (Refill::Starting, RefillAction::Probe),
    {
        (Refill::Starting, RefillAction::Probe)
    }

    /// Decides what follows `event`.
    ///
    /// Before the first probe has succeeded a failed probe is reported to the
    /// builder; afterwards it ends the task. A successful probe tops the pool
    /// up to what the tracker reported less the permits that callers hold,
    /// and sleeps until the window ends. The task ends quietly once the
    /// pool is no longer in use, or the builder has gone away. An event that
    /// does not answer the last action ends the task as well, with nothing
    /// added.
    pub fn step(self, event: RefillEvent) -> (then: (Refill, RefillAction))
        ensures
            then == self.next(event),
    {
        match self {
            Refill::Starting => match event {
                RefillEvent::Probed { limit, available, held } => (
                    Refill::Announcing {
                        permits: permits_to_add(limit.remaining, available, held),
                        until: limit.reset,
                    },
                    RefillAction::AnnounceReady,
                ),
                RefillEvent::ProbeFailed => (Refill::Stopped, RefillAction::AnnounceFailure),
                _ => (Refill::Stopped, RefillAction::Stop),
            },
            Refill::Announcing { permits, until } => match event {
                RefillEvent::Announced { delivered: true } => (
                    Refill::Sleeping,
                    RefillAction::Refill { permits, until },
                ),
                _ => (Refill::Stopped, RefillAction::Stop),
            },
            Refill::Sleeping => match event {
                RefillEvent::Refilled => (Refill::Running, RefillAction::Probe),
                _ => (Refill::Stopped, RefillAction::Stop),
            },
            Refill::Running => match event {
                RefillEvent::Probed { limit, available, held } => (
                    Refill::Sleeping,
                    RefillAction::Refill {
                        permits: permits_to_add(limit.remaining, available, held),
                        until: limit.reset,
                    },
                ),
                RefillEvent::ProbeFailed => (Refill::Stopped, RefillAction::Fail),
                _ => (Refill::Stopped, RefillAction::Stop),
            },
            Refill::Stopped => (Refill::Stopped, RefillAction::Stop),
        }
    }
}

/// The permits to add to a pool that holds `available`, once the tracker has
/// reported `remaining` while callers hold `held` permits that they have
/// not used yet: what brings the pool up to `remaining` less `held`, and
/// none where it already holds as many.
pub fn permits_to_add(remaining: u32, available: usize, held: usize) -> (permits: usize)
    ensures
        permits == top_up(unclaimed(remaining as nat, held as nat), available as nat),
{
    let reported: usize = remaining as usize;
    let target: usize = if reported >= held {
        reported - held
    } else {
        0
    };
    if target >= available {
        target - available
    } else {
        0
    }
}

/// The actions that a task in state `state` takes while `events` happen to
/// it, one for each event.
pub open spec fn run(state: Refill, events: Seq<RefillEvent>) -> Seq<RefillAction>
    decreases events.len(),
{
    if events.len() == 0 {
        Seq::empty()
    } else {
        let then = state.next(events[0]);
        seq![then.1] + run(then.0, events.skip(1))
    }
}

/// A task that has ended does nothing more: whatever happens, it stays
/// stopped and adds no permit.
pub proof fn lemma_stopped_stays(events: Seq<RefillEvent>, at: int)
    requires
        0 <= at < events.len(),
    ensures
        run(Refill::Stopped, events).len() == events.len(),
        run(Refill::Stopped, events)[at] == RefillAction::Stop,
    decreases events.len(),
{
    lemma_run_len(Refill::Stopped, events);
    if at > 0 {
        lemma_stopped_stays(events.skip(1), at - 1);
    }
}

/// A run takes one action for each event.
pub proof fn lemma_run_len(state: Refill, events: Seq<RefillEvent>)
    ensures
        run(state, events).len() == events.len(),
    decreases events.len(),
{
    if events.len() > 0 {
        lemma_run_len(state.next(events[0]).0, events.skip(1));
    }
}

/// After an action that ends the task, the task is stopped.
pub proof fn lemma_last_action_stops(state: Refill, event: RefillEvent)
    ensures
        state.next(event).1.is_last() ==> state.next(event).0 == Refill::Stopped,
{
}

/// Whether the first probe has not succeeded yet in `state`, so that no
/// client has been handed out.
pub open spec fn unannounced(state: Refill) -> bool {
    state is Starting
}

/// From a state in which the builder has been answered, no action of a run
/// answers it again.
proof fn lemma_no_second_answer(state: Refill, events: Seq<RefillEvent>, at: int)
    requires
        !unannounced(state),
        0 <= at < events.len(),
    ensures
        !(run(state, events)[at] is AnnounceReady),
        !(run(state, events)[at] is AnnounceFailure),
    decreases events.len(),
{
    lemma_run_len(state, events);
    if at > 0 {
        lemma_run_len(state.next(events[0]).0, events.skip(1));
        lemma_no_second_answer(state.next(events[0]).0, events.skip(1), at - 1);
    }
}

/// From a stopped or a failed start no permit is added.
proof fn lemma_nothing_after_stop(events: Seq<RefillEvent>, at: int)
    requires
        0 <= at < events.len(),
    ensures
        !(run(Refill::Stopped, events)[at] is Refill),
{
    lemma_stopped_stays(events, at);
}

/// The builder of a client is answered once, by what follows the first
/// probe: it is told that the pool is ready exactly where the first probe
/// succeeded, and that it failed exactly where the tracker did not answer.
/// No later action answers it again. And unless the first probe succeeded,
/// no permit is ever added to the pool.
pub proof fn lemma_builder_answered_once(events: Seq<RefillEvent>, at: int)
    requires
        0 <= at < events.len(),
    ensures
        run(Refill::Starting, events).len() == events.len(),
        run(Refill::Starting, events)[0] is AnnounceReady <==> events[0] is Probed,
        run(Refill::Starting, events)[0] is AnnounceFailure <==> events[0] is ProbeFailed,
        at > 0 ==> !(run(Refill::Starting, events)[at] is AnnounceReady),
        at > 0 ==> !(run(Refill::Starting, events)[at] is AnnounceFailure),
        run(Refill::Starting, events)[at] is Refill ==> events[0] is Probed,
{
    let then = Refill::Starting.next(events[0]);
    let rest = events.skip(1);
    lemma_run_len(Refill::Starting, events);
    lemma_run_len(then.0, rest);
    if at > 0 {
        lemma_no_second_answer(then.0, rest, at - 1);
        if !(events[0] is Probed) {
            lemma_nothing_after_stop(rest, at - 1);
        }
    }
}

/// Permits are added once for each probe. What follows a refill is the next
/// probe, made when the sleep is over, or the end; a refill never follows a
/// refill.
pub proof fn lemma_one_refill_for_each_probe(state: Refill, events: Seq<RefillEvent>, at: int)
    requires
        0 <= at,
        at + 1 < events.len(),
        run(state, events)[at] is Refill,
    ensures
        run(state, events).len() == events.len(),
        run(state, events)[at + 1] is Probe || run(state, events)[at + 1] is Stop,
        run(state, events)[at + 1] is Probe <==> events[at + 1] is Refilled,
    decreases at,
{
    let then = state.next(events[0]);
    let rest = events.skip(1);
    lemma_run_len(state, events);
    lemma_run_len(then.0, rest);
    if at > 0 {
        lemma_one_refill_for_each_probe(then.0, rest, at - 1);
    } else {
        lemma_run_len(then.0.next(rest[0]).0, rest.skip(1));
    }
}

/// The pool of permits as the refill task and the callers see it.
pub struct Pool {
    /// The permits that can be taken.
    pub available: nat,
    /// The calls that the tracker said were left, when it was last asked.
    pub reported: nat,
    /// The permits that callers have taken and not yet used for a call.
    pub held: nat,
}

impl Pool {
    /// The pool before the first probe: empty, with nothing reported and
    /// nothing held.
    pub open spec fn empty() -> Pool {
        Pool { available: 0, reported: 0, held: 0 }
    }

    /// The pool after the tracker has reported `remaining` and the permits
    /// were added that bring it up to `remaining` less the permits held.
    /// What callers hold stays with them.
    pub open spec fn refilled(self, remaining: nat) -> Pool {
        Pool {
            available: self.available + top_up(unclaimed(remaining, self.held), self.available),
            reported: remaining,
            held: self.held,
        }
    }

    /// The pool after a caller has taken `permits` permits, which it may only
    /// where the pool holds as many.
    pub open spec fn taken(self, permits: nat) -> Pool
        recommends
            permits <= self.available,
    {
        Pool {
            available: (self.available - permits) as nat,
            reported: self.reported,
            held: self.held + permits,
        }
    }

    /// The pool after callers have used `permits` of the permits they hold,
    /// each for a call that is over, or have given them up.
    pub open spec fn used(self, permits: nat) -> Pool
        recommends
            permits <= self.held,
    {
        Pool {
            available: self.available,
            reported: self.reported,
            held: (self.held - permits) as nat,
        }
    }

    /// The pool holds no more than the tracker last reported, less what
    /// callers hold.
    pub open spec fn within_report(self) -> bool {
        self.available + self.held <= self.reported
    }
}

/// A refill never takes a permit away, from the pool or from a caller. It
/// leaves the pool at the number the tracker reported less the permits
/// held, unless the pool already held more, and then leaves it as it was.
pub proof fn lemma_refill_only_adds(pool: Pool, remaining: nat)
    ensures
        pool.refilled(remaining).available >= pool.available,
        pool.refilled(remaining).held == pool.held,
        pool.refilled(remaining).available == if pool.available <= unclaimed(
            remaining,
            pool.held,
        ) {
            unclaimed(remaining, pool.held)
        } else {
            pool.available
        },
        pool.available + pool.held <= remaining ==> pool.refilled(remaining).available
            == remaining - pool.held,
{
}

/// What a probe adds is what the refill of the pool asks for: the permits of
/// the action that answers a probe bring a pool of `available` permits, of
/// which callers hold `held` more, to where `Pool::refilled` puts it, and
/// the sum fits the machine's word. This holds of the first probe, whose
/// permits are added once the builder has been told, and of every later one.
pub proof fn lemma_probe_tops_up(pool: Pool, limit: RateLimit, available: usize, held: usize)
    requires
        pool.available == available,
        pool.held == held,
    ensures
        Refill::Running.next(RefillEvent::Probed { limit, available, held }).1
            == (RefillAction::Refill {
            permits: refill_of(limit, available, held),
            until: limit.reset,
        }),
        Refill::Starting.next(RefillEvent::Probed { limit, available, held }).0.next(
            RefillEvent::Announced { delivered: true },
        ).1 == (RefillAction::Refill {
            permits: refill_of(limit, available, held),
            until: limit.reset,
        }),
        available + refill_of(limit, available, held) == pool.refilled(
            limit.remaining as nat,
        ).available,
        available + refill_of(limit, available, held) <= usize::MAX,
{
}

/// The pool stays within what the tracker reported, less what callers hold.
/// An empty pool is within it. A caller that takes permits changes nothing
/// about that, and a caller that uses them for its calls, or gives them up,
/// cannot break it. And after a refill the pool is within the report
/// exactly where the tracker did not report fewer calls than the pool and
/// the callers held together.
pub proof fn lemma_pool_within_report(pool: Pool, remaining: nat, permits: nat)
    ensures
        Pool::empty().within_report(),
        permits <= pool.available ==> (pool.taken(permits).within_report()
            <==> pool.within_report()),
        permits <= pool.held && pool.within_report() ==> pool.used(permits).within_report(),
        pool.refilled(remaining).within_report() <==> remaining >= pool.available + pool.held,
{
}

/// What changes the pool.
pub enum PoolEvent {
    /// The tracker reported this many calls left, and the pool was refilled.
    Reported(nat),
    /// A caller asked for this many permits, all or none.
    Asked(nat),
    /// Callers used this many of the permits they hold, or gave them up.
    Used(nat),
}

impl Pool {
    /// The pool after `event`. A caller that asks for more permits than the
    /// pool holds gets none, and waits. No more permits are used than are
    /// held.
    pub open spec fn after(self, event: PoolEvent) -> Pool {
        match event {
            PoolEvent::Reported(remaining) => self.refilled(remaining),
            PoolEvent::Asked(permits) => if permits <= self.available {
                self.taken(permits)
            } else {
                self
            },
            PoolEvent::Used(permits) => if permits <= self.held {
                self.used(permits)
            } else {
                self
            },
        }
    }

    /// The pool after all of `events`, from an empty pool.
    pub open spec fn history(events: Seq<PoolEvent>) -> Pool
        decreases events.len(),
    {
        if events.len() == 0 {
            Pool::empty()
        } else {
            Self::history(events.drop_last()).after(events.last())
        }
    }
}

/// Whether the tracker never reported fewer calls than the pool and the
/// callers held together at that moment.
pub open spec fn reports_cover_pool(events: Seq<PoolEvent>) -> bool {
    forall|k: int|
        0 <= k < events.len() ==> (#[trigger] events[k] matches PoolEvent::Reported(remaining)
            ==> remaining >= Pool::history(events.take(k)).available + Pool::history(
            events.take(k),
        ).held)
}

/// Whatever the callers ask for and use, and whenever the tracker is probed,
/// the pool never holds more than the tracker last reported, less what
/// callers hold, as long as the tracker never reports fewer calls than the
/// pool and the callers hold together. A report that does breaks it at
/// once, as `lemma_pool_within_report` says.
pub proof fn lemma_pool_always_within_report(events: Seq<PoolEvent>)
    requires
        reports_cover_pool(events),
    ensures
        Pool::history(events).within_report(),
    decreases events.len(),
{
    if events.len() > 0 {
        let before = events.drop_last();
        assert forall|k: int| 0 <= k < before.len() implies (
        #[trigger] before[k] matches PoolEvent::Reported(remaining) ==> remaining
            >= Pool::history(before.take(k)).available + Pool::history(before.take(k)).held) by {
            assert(before.take(k) =~= events.take(k));
            assert(before[k] == events[k]);
        }
        lemma_pool_always_within_report(before);
        assert(events.take(events.len() - 1) =~= before);
        assert(events[events.len() - 1] == events.last());
    }
}

} // verus!
