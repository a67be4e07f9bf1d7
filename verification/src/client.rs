//! The client's decisions: what it asks of the tracker, in which order, and
//! how many permits each call costs. The calls themselves, and the waiting
//! for permits, are made by whoever drives [`listing::Listing`],
//! [`batch::Batch`] and [`refill::Refill`].

use crate::config::{Config, ConfigView};
use crate::text::{clone_strings, opt_str, strs};
use crate::{Advisory, AdvisoryView};
use vstd::prelude::*;

pub mod batch;
pub mod listing;
pub mod refill;

verus! {

/// Why a call to the tracker was given up. Nothing is tried again.
#[derive(Clone, Copy, Debug, PartialEq, Eq, Structural)]
pub enum ApiError {
    /// More permits are needed than can be taken at once.
    TooLarge,
    /// The permits were refused: the pool has been closed.
    Denied,
    /// The tracker refused the call.
    Rejected,
    /// Something happened that does not answer what had been asked for.
    OutOfTurn,
}

/// An issue of the tracker, as far as this tool reads it.
#[derive(Clone, Debug)]
pub struct Issue {
    pub id: u64,
    pub number: u64,
    pub title: String,
}

/// An issue as plain values.
pub struct IssueView {
    pub id: u64,
    pub number: u64,
    pub title: Seq<char>,
}

impl View for Issue {
    type V = IssueView;

    open spec fn view(&self) -> IssueView {
        IssueView { id: self.id, number: self.number, title: self.title@ }
    }
}

/// The issues of `list` as plain values.
pub open spec fn issue_views(list: Seq<Issue>) -> Seq<IssueView> {
    list.map_values(|issue: Issue| issue@)
}

/// Which issues a listing asks for.
#[derive(Clone, Copy, Debug, PartialEq, Eq, Structural)]
pub enum State {
    Open,
    Closed,
    All,
}

/// A call that lists issues: the issues in `state` that carry every one of
/// `labels`, at the price of `permits` permits.
#[derive(Clone, Debug)]
pub struct ListCall {
    pub permits: u32,
    pub state: State,
    pub labels: Vec<String>,
}

/// A listing call as plain values.
pub struct ListCallView {
    pub permits: u32,
    pub state: State,
    pub labels: Seq<Seq<char>>,
}

impl View for ListCall {
    type V = ListCallView;

    open spec fn view(&self) -> ListCallView {
        ListCallView { permits: self.permits, state: self.state, labels: strs(self.labels@) }
    }
}

/// The call that lists the issues already filed: the open issues that carry
/// the labels of every issue, for one permit.
pub open spec fn listing_of(config: ConfigView) -> ListCallView {
    ListCallView { permits: 1, state: State::Open, labels: config.labels }
}

/// What a new issue is made of.
#[derive(Clone, Debug)]
pub struct IssueOptions {
    pub title: String,
    pub body: Option<String>,
    pub assignee: Option<String>,
    pub milestone: Option<u64>,
    pub labels: Vec<String>,
}

/// The makings of a new issue as plain values.
pub struct IssueOptionsView {
    pub title: Seq<char>,
    pub body: Option<Seq<char>>,
    pub assignee: Option<Seq<char>>,
    pub milestone: Option<u64>,
    pub labels: Seq<Seq<char>>,
}

impl View for IssueOptions {
    type V = IssueOptionsView;

    open spec fn view(&self) -> IssueOptionsView {
        IssueOptionsView {
            title: self.title@,
            body: opt_str(self.body),
            assignee: opt_str(self.assignee),
            milestone: self.milestone,
            labels: strs(self.labels@),
        }
    }
}

/// The labels of the issue for an advisory whose progenitor is `root`: the
/// labels of every issue, then those configured for the package `root`.
pub open spec fn issue_labels(config: ConfigView, root: Option<Seq<char>>) -> Seq<Seq<char>> {
    match root {
        Some(name) => if config.crates.dom().contains(name) {
            config.labels + config.crates[name]
        } else {
            config.labels
        },
        None => config.labels,
    }
}

/// The issue that is filed for `advisory`: its title, its body as the text,
/// its labels, and neither assignee nor milestone.
pub open spec fn issue_for(config: ConfigView, advisory: AdvisoryView) -> IssueOptionsView {
    IssueOptionsView {
        title: advisory.title,
        body: Some(advisory.body),
        assignee: None,
        milestone: None,
        labels: issue_labels(config, advisory.crate_name),
    }
}

/// The call that lists the issues already filed: the open issues that carry
/// the labels of every issue. It costs one permit.
pub fn list_call(config: &Config) -> (call: ListCall)
    ensures
        call@ == listing_of(config@),
{
    ListCall { permits: 1, state: State::Open, labels: clone_strings(&config.labels) }
}

/// The labels of the issue for `advisory`.
pub fn labels_for(config: &Config, advisory: &Advisory) -> (labels: Vec<String>)
    ensures
        strs(labels@) == issue_labels(config@, advisory@.crate_name),
{
    let mut labels = clone_strings(&config.labels);
    if let Some(name) = &advisory.crate_name {
        if let Some(own) = config.crates.get(name) {
            let mut more = clone_strings(&own.labels);
            proof {
                assert(strs(labels@ + more@) =~= strs(labels@) + strs(more@));
            }
            labels.append(&mut more);
        }
    }
    labels
}

/// The issue that is filed for `advisory`.
pub fn options_for(config: &Config, advisory: &Advisory) -> (options: IssueOptions)
    ensures
        options@ == issue_for(config@, advisory@),
{
    IssueOptions {
        title: advisory.title.clone(),
        body: Some(advisory.body.clone()),
        assignee: None,
        milestone: None,
        labels: labels_for(config, advisory),
    }
}

} // verus!
