//! Listing the issues that are open. The listing costs one permit, which is
//! taken before the tracker is called.
//!
//! Waiting for the permit and calling the tracker are the driver's part.
//! What it does next is decided here: [`Listing::step`] takes what happened
//! and tells what to do.

use crate::client::{
    issue_views, list_call, listing_of, ApiError, Issue, IssueView, ListCall, ListCallView,
};
use crate::config::{Config, ConfigView};
use vstd::prelude::*;

verus! {

/// How far a listing has come.
#[derive(Clone, Copy, Debug, PartialEq, Eq, Structural)]
pub enum Listing {
    /// The permit has been asked for.
    Waiting,
    /// The permit is held, and the tracker has been called.
    Fetching,
    /// The listing is over.
    Finished,
}

/// What happened to a listing since it was last told what to do.
#[derive(Debug)]
pub enum ListEvent {
    /// The permit was granted.
    Granted,
    /// The permit was refused.
    Denied,
    /// The tracker listed these issues.
    Listed(Vec<Issue>),
    /// The tracker did not answer.
    Failed,
}

/// What is to be done next for a listing.
#[derive(Debug)]
pub enum ListAction {
    /// Take this many permits from the pool, waiting as long as it takes,
    /// and use them up.
    Acquire(u32),
    /// Make this call.
    List(ListCall),
    /// The listing is done: these are the issues.
    Done(Vec<Issue>),
    /// The listing is given up.
    Abort(ApiError),
}

/// An event as plain values.
pub enum ListEventView {
    Granted,
    Denied,
    Listed(Seq<IssueView>),
    Failed,
}

/// An action as plain values.
pub enum ListActionView {
    Acquire(u32),
    List(ListCallView),
    Done(Seq<IssueView>),
    Abort(ApiError),
}

impl View for ListEvent {
    type V = ListEventView;

    open spec fn view(&self) -> ListEventView {
        match *self {
            ListEvent::Granted => ListEventView::Granted,
            ListEvent::Denied => ListEventView::Denied,
            ListEvent::Listed(issues) => ListEventView::Listed(issue_views(issues@)),
            ListEvent::Failed => ListEventView::Failed,
        }
    }
}

impl View for ListAction {
    type V = ListActionView;

    open spec fn view(&self) -> ListActionView {
        match *self {
            ListAction::Acquire(permits) => ListActionView::Acquire(permits),
            ListAction::List(call) => ListActionView::List(call@),
            ListAction::Done(issues) => ListActionView::Done(issue_views(issues@)),
            ListAction::Abort(error) => ListActionView::Abort(error),
        }
    }
}

impl Listing {
    /// The permits that the listing has taken and not yet used: its one
    /// permit while the tracker is being asked, and none before and after.
    pub open spec fn holds(self) -> nat {
        if self is Fetching {
            1
        } else {
            0
        }
    }

    /// The permits that the listing has taken and not yet used.
    pub fn held(&self) -> (permits: usize)
        ensures
            permits == self.holds(),
    {
        match self {
            Listing::Fetching => 1,
            _ => 0,
        }
    }

    /// How a listing begins: by asking for its permit.
    pub open spec fn begin(config: ConfigView) -> (Listing, ListActionView) {
        (Listing::Waiting, ListActionView::Acquire(listing_of(config).permits))
    }

    /// The state and the action that follow `event`.
    pub open spec fn next(self, config: ConfigView, event: ListEventView) -> (
        Listing,
        ListActionView,
    ) {
        match (self, event) {
            (Listing::Waiting, ListEventView::Granted) => (
                Listing::Fetching,
                ListActionView::List(listing_of(config)),
            ),
            (Listing::Waiting, ListEventView::Denied) => (
                Listing::Finished,
                ListActionView::Abort(ApiError::Denied),
            ),
            (Listing::Fetching, ListEventView::Listed(issues)) => (
                Listing::Finished,
                ListActionView::Done(issues),
            ),
            (Listing::Fetching, ListEventView::Failed) => (
                Listing::Finished,
                ListActionView::Abort(ApiError::Rejected),
            ),
            _ => (Listing::Finished, ListActionView::Abort(ApiError::OutOfTurn)),
        }
    }

    /// Begins a listing.
    pub fn start(config: &Config) -> (begin: (Listing, ListAction))
        ensures
            (begin.0, begin.1@) == Self::begin(config@),
    {
        (Listing::Waiting, ListAction::Acquire(list_call(config).permits))
    }

    /// Decides what follows `event`.
    ///
    /// Once the permit is granted the tracker is asked for the open issues
    /// that carry the labels of every issue, and what it lists is the
    /// result. A refused permit and a call that fails give the listing up,
    /// and so does an event that does not answer the last action.
    pub fn step(self, config: &Config, event: ListEvent) -> (then: (Listing, ListAction))
        ensures
            (then.0, then.1@) == self.next(config@, event@),
    {
        match self {
            Listing::Waiting => match event {
                ListEvent::Granted => (Listing::Fetching, ListAction::List(list_call(config))),
                ListEvent::Denied => (Listing::Finished, ListAction::Abort(ApiError::Denied)),
                _ => (Listing::Finished, ListAction::Abort(ApiError::OutOfTurn)),
            },
            Listing::Fetching => match event {
                ListEvent::Listed(issues) => (Listing::Finished, ListAction::Done(issues)),
                ListEvent::Failed => (Listing::Finished, ListAction::Abort(ApiError::Rejected)),
                _ => (Listing::Finished, ListAction::Abort(ApiError::OutOfTurn)),
            },
            Listing::Finished => (Listing::Finished, ListAction::Abort(ApiError::OutOfTurn)),
        }
    }
}

/// The actions that a listing in state `state` takes while `events` happen
/// to it, one for each event.
pub open spec fn run(state: Listing, config: ConfigView, events: Seq<ListEventView>) -> Seq<
    ListActionView,
>
    decreases events.len(),
{
    if events.len() == 0 {
        Seq::empty()
    } else {
        let then = state.next(config, events[0]);
        seq![then.1] + run(then.0, config, events.skip(1))
    }
}

/// A run takes one action for each event.
pub proof fn lemma_run_len(state: Listing, config: ConfigView, events: Seq<ListEventView>)
    ensures
        run(state, config, events).len() == events.len(),
    decreases events.len(),
{
    if events.len() > 0 {
        lemma_run_len(state.next(config, events[0]).0, config, events.skip(1));
    }
}

/// A listing that is over asks for nothing more.
pub proof fn lemma_finished_stays(config: ConfigView, events: Seq<ListEventView>, at: int)
    requires
        0 <= at < events.len(),
    ensures
        run(Listing::Finished, config, events)[at] == ListActionView::Abort(ApiError::OutOfTurn),
    decreases events.len(),
{
    lemma_run_len(Listing::Finished, config, events.skip(1));
    if at > 0 {
        lemma_finished_stays(config, events.skip(1), at - 1);
    }
}

/// A listing takes its one permit first. The tracker is called only once
/// the permit is granted, and only once; and the listing is done only with
/// what the tracker then listed.
pub proof fn lemma_permit_first(config: ConfigView, events: Seq<ListEventView>, at: int)
    requires
        0 <= at < events.len(),
    ensures
        Listing::begin(config) == (Listing::Waiting, ListActionView::Acquire(1)),
        !(run(Listing::Waiting, config, events)[at] is Acquire),
        run(Listing::Waiting, config, events)[at] matches ListActionView::List(call) ==> at == 0
            && events[0] is Granted && call == listing_of(config),
        run(Listing::Waiting, config, events)[at] matches ListActionView::Done(issues) ==> at
            == 1 && events[0] is Granted && events[1] == ListEventView::Listed(issues),
{
    let first = Listing::Waiting.next(config, events[0]);
    let rest = events.skip(1);
    lemma_run_len(first.0, config, rest);
    if at > 0 {
        if events[0] is Granted {
            let second = first.0.next(config, rest[0]);
            lemma_run_len(second.0, config, rest.skip(1));
            if at > 1 {
                lemma_finished_stays(config, rest.skip(1), at - 2);
            }
        } else {
            lemma_finished_stays(config, rest, at - 1);
        }
    }
}

/// A listing holds its permit from when it is granted until the tracker has
/// answered or failed, and at no other time.
pub proof fn lemma_listing_holds_its_permit(
    state: Listing,
    config: ConfigView,
    event: ListEventView,
)
    ensures
        Listing::Waiting.holds() == 0,
        Listing::Finished.holds() == 0,
        state.next(config, event).0.holds() == if state is Waiting && event is Granted {
            1nat
        } else {
            0nat
        },
{
}

} // verus!
