//! Filing a batch of issues. The permits for the whole batch are taken in
//! one block before the first issue is made, one permit for each issue, so
//! that a batch is never begun that the rate limit would cut short.
//!
//! Waiting for the permits and calling the tracker are the driver's part.
//! What it does next is decided here: [`Batch::step`] takes what happened and
//! tells what to do.

use crate::client::{
    issue_for, options_for, ApiError, Issue, IssueOptions, IssueOptionsView, IssueView,
};
use crate::config::{Config, ConfigView};
use crate::{advisory_views, Advisory, AdvisoryView};
use vstd::prelude::*;

verus! {

/// How far a batch has come.
#[derive(Clone, Copy, Debug, PartialEq, Eq, Structural)]
pub enum Phase {
    /// The permits have been asked for.
    Waiting,
    /// The permits are held, and the issue of the first pending advisory is
    /// being made.
    Creating,
    /// The batch is over.
    Finished,
}

/// A batch of advisories on its way into the tracker.
#[derive(Debug)]
pub struct Batch {
    pending: Vec<Advisory>,
    created: Vec<(Issue, Advisory)>,
    phase: Phase,
}

/// What happened to a batch since it was last told what to do.
#[derive(Debug)]
pub enum BatchEvent {
    /// The permits were granted, all of them at once.
    Granted,
    /// The permits were refused.
    Denied,
    /// The tracker made the issue.
    Created(Issue),
    /// The tracker did not make the issue.
    Failed,
}

/// What is to be done next for a batch.
#[derive(Debug)]
pub enum BatchAction {
    /// Take this many permits from the pool, all or none, waiting as long as
    /// it takes, and use them up.
    Acquire(u32),
    /// Ask the tracker to make this issue.
    Create(IssueOptions),
    /// The batch is done: these are the issues made, each with its advisory,
    /// in the order in which the advisories were given.
    Done(Vec<(Issue, Advisory)>),
    /// The batch is given up.
    Abort(ApiError),
}

/// The issues made with their advisories, as plain values.
pub open spec fn pair_views(pairs: Seq<(Issue, Advisory)>) -> Seq<(IssueView, AdvisoryView)> {
    pairs.map_values(|pair: (Issue, Advisory)| (pair.0@, pair.1@))
}

/// A batch as plain values.
pub struct BatchView {
    /// The advisories whose issues are still to be made, in order.
    pub pending: Seq<AdvisoryView>,
    /// The issues made so far, each with its advisory.
    pub created: Seq<(IssueView, AdvisoryView)>,
    pub phase: Phase,
}

/// An event as plain values.
pub enum BatchEventView {
    Granted,
    Denied,
    Created(IssueView),
    Failed,
}

/// An action as plain values.
pub enum BatchActionView {
    Acquire(u32),
    Create(IssueOptionsView),
    Done(Seq<(IssueView, AdvisoryView)>),
    Abort(ApiError),
}

impl View for BatchEvent {
    type V = BatchEventView;

    open spec fn view(&self) -> BatchEventView {
        match *self {
            BatchEvent::Granted => BatchEventView::Granted,
            BatchEvent::Denied => BatchEventView::Denied,
            BatchEvent::Created(issue) => BatchEventView::Created(issue@),
            BatchEvent::Failed => BatchEventView::Failed,
        }
    }
}

impl View for BatchAction {
    type V = BatchActionView;

    open spec fn view(&self) -> BatchActionView {
        match *self {
            BatchAction::Acquire(permits) => BatchActionView::Acquire(permits),
            BatchAction::Create(options) => BatchActionView::Create(options@),
            BatchAction::Done(pairs) => BatchActionView::Done(pair_views(pairs@)),
            BatchAction::Abort(error) => BatchActionView::Abort(error),
        }
    }
}

impl View for Batch {
    type V = BatchView;

    closed spec fn view(&self) -> BatchView {
        BatchView {
            pending: advisory_views(self.pending@),
            created: pair_views(self.created@),
            phase: self.phase,
        }
    }
}

impl BatchView {
    /// The permits that the batch has taken and not yet used for a call: one
    /// for each pending advisory once the permits are granted, the one whose
    /// issue is being made among them.
    pub open spec fn held(self) -> nat {
        if self.phase is Creating {
            self.pending.len()
        } else {
            0
        }
    }

    /// A batch that is over.
    pub open spec fn finished() -> BatchView {
        BatchView { pending: Seq::empty(), created: Seq::empty(), phase: Phase::Finished }
    }

    /// How a batch of `advisories` begins: by asking for one permit for
    /// each of them, unless they are more than can be asked for at once.
    pub open spec fn begin(advisories: Seq<AdvisoryView>) -> (BatchView, BatchActionView) {
        if advisories.len() > u32::MAX {
            (Self::finished(), BatchActionView::Abort(ApiError::TooLarge))
        } else {
            (
                BatchView { pending: advisories, created: Seq::empty(), phase: Phase::Waiting },
                BatchActionView::Acquire(advisories.len() as u32),
            )
        }
    }

    /// How a batch that holds its permits goes on: with the issue of the
    /// first pending advisory, or by being done where none is pending.
    pub open spec fn proceed(self, config: ConfigView) -> (BatchView, BatchActionView) {
        if self.pending.len() == 0 {
            (Self::finished(), BatchActionView::Done(self.created))
        } else {
            (
                BatchView { pending: self.pending, created: self.created, phase: Phase::Creating },
                BatchActionView::Create(issue_for(config, self.pending[0])),
            )
        }
    }

    /// The state and the action that follow `event`.
    pub open spec fn next(self, config: ConfigView, event: BatchEventView) -> (
        BatchView,
        BatchActionView,
    ) {
        match (self.phase, event) {
            (Phase::Waiting, BatchEventView::Granted) => self.proceed(config),
            (Phase::Waiting, BatchEventView::Denied) => (
                Self::finished(),
                BatchActionView::Abort(ApiError::Denied),
            ),
            (Phase::Creating, BatchEventView::Created(issue)) => BatchView {
                pending: self.pending.skip(1),
                created: self.created.push((issue, self.pending[0])),
                phase: Phase::Creating,
            }.proceed(config),
            (Phase::Creating, BatchEventView::Failed) => (
                Self::finished(),
                BatchActionView::Abort(ApiError::Rejected),
            ),
            _ => (Self::finished(), BatchActionView::Abort(ApiError::OutOfTurn)),
        }
    }
}

impl Batch {
    #[verifier::type_invariant]
    spec fn in_flight(self) -> bool {
        self.phase is Creating ==> self.pending@.len() > 0
    }

    /// The permits that the batch has taken and not yet used for a call.
    pub fn held(&self) -> (permits: usize)
        ensures
            permits == self@.held(),
    {
        match self.phase {
            Phase::Creating => self.pending.len(),
            _ => 0,
        }
    }

    /// A batch that is over.
    fn finished() -> (batch: Batch)
        ensures
            batch@ == BatchView::finished(),
    {
        let batch = Batch { pending: Vec::new(), created: Vec::new(), phase: Phase::Finished };
        assert(batch@.pending =~= Seq::empty());
        assert(batch@.created =~= Seq::empty());
        batch
    }

    /// Goes on with a batch that holds its permits.
    fn proceed(
        pending: Vec<Advisory>,
        created: Vec<(Issue, Advisory)>,
        config: &Config,
    ) -> (then: (Batch, BatchAction))
        ensures
            (then.0@, then.1@) == (BatchView {
                pending: advisory_views(pending@),
                created: pair_views(created@),
                phase: Phase::Creating,
            }).proceed(config@),
    {
        if pending.len() == 0 {
            (Self::finished(), BatchAction::Done(created))
        } else {
            let options = options_for(config, &pending[0]);
            (Batch { pending, created, phase: Phase::Creating }, BatchAction::Create(options))
        }
    }

    /// Begins a batch: one issue is to be made for each of `advisories`, in
    /// their order. The first thing asked for is the permits, as many as
    /// there are advisories. A batch of more advisories than permits can be
    /// asked for at once is given up before anything is asked.
    pub fn start(advisories: Vec<Advisory>) -> (begin: (Batch, BatchAction))
        ensures
            (begin.0@, begin.1@) == BatchView::begin(advisory_views(advisories@)),
    {
        if advisories.len() > u32::MAX as usize {
            (Self::finished(), BatchAction::Abort(ApiError::TooLarge))
        } else {
            let permits: u32 = advisories.len() as u32;
            let batch = Batch { pending: advisories, created: Vec::new(), phase: Phase::Waiting };
            assert(batch@.created =~= Seq::empty());
            (batch, BatchAction::Acquire(permits))
        }
    }

    /// Decides what follows `event`.
    ///
    /// Once the permits are granted the issues are made one after the other,
    /// each with the labels that `config` gives its advisory. When the last
    /// is made the batch is done. Refused permits, and an issue that the
    /// tracker does not make, give the batch up, and so does an event that
    /// does not answer the last action.
    pub fn step(self, config: &Config, event: BatchEvent) -> (then: (Batch, BatchAction))
        ensures
            (then.0@, then.1@) == self@.next(config@, event@),
    {
        proof {
            use_type_invariant(&self);
        }
        let Batch { pending, created, phase } = self;
        match phase {
            Phase::Waiting => match event {
                BatchEvent::Granted => Self::proceed(pending, created, config),
                BatchEvent::Denied => (Self::finished(), BatchAction::Abort(ApiError::Denied)),
                _ => (Self::finished(), BatchAction::Abort(ApiError::OutOfTurn)),
            },
            Phase::Creating => match event {
                BatchEvent::Created(issue) => {
                    let mut pending = pending;
                    let mut created = created;
                    let ghost before = pending@;
                    let ghost made = created@;
                    let advisory = pending.remove(0);
                    created.push((issue, advisory));
                    proof {
                        assert(advisory_views(pending@) =~= advisory_views(before).skip(1));
                        assert(pair_views(created@) =~= pair_views(made).push(
                            (issue@, before[0]@),
                        ));
                    }
                    Self::proceed(pending, created, config)
                },
                BatchEvent::Failed => (
                    Self::finished(),
                    BatchAction::Abort(ApiError::Rejected),
                ),
                _ => (Self::finished(), BatchAction::Abort(ApiError::OutOfTurn)),
            },
            Phase::Finished => (Self::finished(), BatchAction::Abort(ApiError::OutOfTurn)),
        }
    }
}

/// The actions that a batch in state `state` takes while `events` happen to
/// it, one for each event.
pub open spec fn run(
    state: BatchView,
    config: ConfigView,
    events: Seq<BatchEventView>,
) -> Seq<BatchActionView>
    decreases events.len(),
{
    if events.len() == 0 {
        Seq::empty()
    } else {
        let then = state.next(config, events[0]);
        seq![then.1] + run(then.0, config, events.skip(1))
    }
}

/// The advisories of the issues made.
pub open spec fn filed(created: Seq<(IssueView, AdvisoryView)>) -> Seq<AdvisoryView> {
    created.map_values(|pair: (IssueView, AdvisoryView)| pair.1)
}

/// A run takes one action for each event.
pub proof fn lemma_run_len(state: BatchView, config: ConfigView, events: Seq<BatchEventView>)
    ensures
        run(state, config, events).len() == events.len(),
    decreases events.len(),
{
    if events.len() > 0 {
        lemma_run_len(state.next(config, events[0]).0, config, events.skip(1));
    }
}

/// A batch that is over asks for nothing more: whatever happens, it neither
/// takes permits nor makes an issue.
pub proof fn lemma_finished_stays(config: ConfigView, events: Seq<BatchEventView>, at: int)
    requires
        0 <= at < events.len(),
    ensures
        run(BatchView::finished(), config, events)[at] == BatchActionView::Abort(
            ApiError::OutOfTurn,
        ),
    decreases events.len(),
{
    lemma_run_len(BatchView::finished(), config, events.skip(1));
    if at > 0 {
        lemma_finished_stays(config, events.skip(1), at - 1);
    }
}

/// Whether `pairs` are `before` and then, for each of `pending` in order,
/// the issue that the event of the same position made, with that advisory.
pub open spec fn made_in_order(
    pairs: Seq<(IssueView, AdvisoryView)>,
    before: Seq<(IssueView, AdvisoryView)>,
    pending: Seq<AdvisoryView>,
    events: Seq<BatchEventView>,
) -> bool {
    &&& pairs.len() == before.len() + pending.len()
    &&& pending.len() <= events.len()
    &&& forall|k: int| 0 <= k < before.len() ==> #[trigger] pairs[k] == before[k]
    &&& forall|k: int|
        0 <= k < pending.len() ==> #[trigger] events[k] == BatchEventView::Created(
            pairs[before.len() + k].0,
        ) && pairs[before.len() + k].1 == pending[k]
}

/// What a batch does that holds its permits and is making the issue of its
/// first pending advisory: the issue it asks for after `at` further events
/// is that of the pending advisory after the next `at`, and it is done
/// exactly when the last pending advisory has its issue, with all of them
/// filed in order behind those filed before, each with the issue that the
/// tracker made for it.
proof fn lemma_creating_run(
    state: BatchView,
    config: ConfigView,
    events: Seq<BatchEventView>,
    at: int,
)
    requires
        state.phase is Creating,
        state.pending.len() > 0,
        0 <= at < events.len(),
    ensures
        !(run(state, config, events)[at] is Acquire),
        run(state, config, events)[at] matches BatchActionView::Create(options) ==> at + 1
            < state.pending.len() && options == issue_for(config, state.pending[at + 1]),
        run(state, config, events)[at] matches BatchActionView::Done(created) ==> at + 1
            == state.pending.len() && filed(created) == filed(state.created) + state.pending
            && made_in_order(created, state.created, state.pending, events),
    decreases events.len(),
{
    let then = state.next(config, events[0]);
    let rest = events.skip(1);
    lemma_run_len(then.0, config, rest);
    match events[0] {
        BatchEventView::Created(issue) => {
            let made = state.created.push((issue, state.pending[0]));
            let left = state.pending.skip(1);
            assert(filed(made) =~= filed(state.created).push(state.pending[0]));
            assert(filed(made) + left =~= filed(state.created) + state.pending);
            if left.len() == 0 {
                if at > 0 {
                    lemma_finished_stays(config, rest, at - 1);
                }
            } else if at > 0 {
                lemma_creating_run(then.0, config, rest, at - 1);
                match run(state, config, events)[at] {
                    BatchActionView::Done(created) => {
                        let filed_before = state.created.len() as int;
                        assert(made_in_order(created, made, left, rest));
                        assert forall|k: int| 0 <= k < filed_before implies #[trigger] created[k]
                            == state.created[k] by {
                            assert(created[k] == made[k]);
                        }
                        assert forall|k: int|
                            0 <= k < state.pending.len() implies #[trigger] events[k]
                            == BatchEventView::Created(created[filed_before + k].0)
                            && created[filed_before + k].1 == state.pending[k] by {
                            if k == 0 {
                                assert(created[filed_before] == made[filed_before]);
                            } else {
                                assert(rest[k - 1] == events[k]);
                                assert(left[k - 1] == state.pending[k]);
                            }
                        }
                    },
                    _ => {},
                }
            }
        },
        _ => {
            if at > 0 {
                lemma_finished_stays(config, rest, at - 1);
            }
        },
    }
}

/// A batch is all or nothing. It begins by asking for as many permits as it
/// has advisories, in one block. No issue is made unless those permits were
/// granted: where they are refused, nothing is filed at all. The issues are
/// asked for in the order of the advisories, each as `issue_for` describes
/// it. And a batch is done only when every advisory has its issue, the
/// first action after as many events as it takes to grant the permits and
/// make the issues. What it then hands over are the pairs in the order of
/// the advisories: the k-th pair holds the k-th advisory and the issue that
/// the tracker made for it, which is the issue of the k-th `Created` event.
pub proof fn lemma_batch_all_or_nothing(
    advisories: Seq<AdvisoryView>,
    config: ConfigView,
    events: Seq<BatchEventView>,
    at: int,
)
    requires
        advisories.len() <= u32::MAX,
        0 <= at < events.len(),
    ensures
        BatchView::begin(advisories).1 == BatchActionView::Acquire(advisories.len() as u32),
        run(BatchView::begin(advisories).0, config, events)[at] is Create
            ==> events[0] is Granted,
        run(BatchView::begin(advisories).0, config, events)[at] matches BatchActionView::Create(
            options,
        ) ==> at < advisories.len() && options == issue_for(config, advisories[at]),
        run(BatchView::begin(advisories).0, config, events)[at] matches BatchActionView::Done(
            created,
        ) ==> {
            &&& at == advisories.len()
            &&& events[0] is Granted
            &&& filed(created) == advisories
            &&& created.len() == advisories.len()
            &&& forall|k: int|
                0 <= k < advisories.len() ==> #[trigger] created[k].1 == advisories[k]
                    && events[k + 1] == BatchEventView::Created(created[k].0)
        },
        !(run(BatchView::begin(advisories).0, config, events)[at] is Acquire),
{
    let begin = BatchView::begin(advisories).0;
    let then = begin.next(config, events[0]);
    let rest = events.skip(1);
    lemma_run_len(then.0, config, rest);
    assert(filed(Seq::empty()) =~= Seq::<AdvisoryView>::empty());
    assert(Seq::<AdvisoryView>::empty() + advisories =~= advisories);
    if events[0] is Granted && advisories.len() > 0 {
        if at > 0 {
            lemma_creating_run(then.0, config, rest, at - 1);
            match run(begin, config, events)[at] {
                BatchActionView::Done(created) => {
                    assert(made_in_order(created, Seq::empty(), advisories, rest));
                    assert forall|k: int| 0 <= k < advisories.len() implies #[trigger] created[k].1
                        == advisories[k] && events[k + 1] == BatchEventView::Created(
                        created[k].0,
                    ) by {
                        assert(rest[k] == events[k + 1]);
                    }
                },
                _ => {},
            }
        }
    } else if at > 0 {
        lemma_finished_stays(config, rest, at - 1);
    }
}

/// The permits that a batch holds are those it took and has not used yet:
/// none before they are granted, as many as it has advisories once they are,
/// one fewer with every issue that the tracker makes, and none when the
/// batch is over, be it done or given up.
pub proof fn lemma_batch_holds_what_it_took(
    state: BatchView,
    config: ConfigView,
    event: BatchEventView,
)
    requires
        state.phase is Creating ==> state.pending.len() > 0,
    ensures
        BatchView::finished().held() == 0,
        state.phase is Waiting ==> state.held() == 0,
        state.phase is Waiting && event is Granted ==> state.next(config, event).0.held()
            == state.pending.len(),
        state.phase is Creating && event is Created ==> state.next(config, event).0.held()
            == state.held() - 1,
        !(state.phase is Waiting && event is Granted) && !(state.phase is Creating
            && event is Created) ==> state.next(config, event).0.held() == 0,
{
}

} // verus!
