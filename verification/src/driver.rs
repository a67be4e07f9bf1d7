//! One run of the tool: fetch the issues that are open, scan for advisories,
//! and file what has not been filed yet. The run is strictly in that order,
//! and a stage that fails ends it.
//!
//! Calling the tracker and the scanner is the caller's part. What it does
//! next is decided here: [`Driver::step`] takes what happened and tells what
//! to do.

use crate::client::batch::pair_views;
use crate::client::{issue_views, Issue, IssueView};
use crate::text::{decimal, decimal_string, lowercase_is};
use crate::{advisory_views, Advisory, AdvisoryView};
use vstd::prelude::*;
use vstd::string::StringExecFns;

verus! {

/// What is done with the advisories that are not filed yet.
#[derive(Clone, Copy, Debug, PartialEq, Eq, Structural)]
pub enum Mode {
    /// They are listed, nothing is filed, and the run fails if there are any.
    Check,
    /// An issue is filed for each.
    Report,
}

/// A word that names no mode.
#[derive(Clone, Debug)]
pub struct InvalidMode(pub String);

impl InvalidMode {
    /// The error in words.
    pub fn message(&self) -> (text: String)
        ensures
            text@ == "invalid mode: "@ + self.0@,
    {
        let mut text = "invalid mode: ".to_owned();
        text.append(self.0.as_str());
        text
    }
}

impl Mode {
    /// The mode that `s` names: `check` or `report`, in letters of either
    /// case.
    pub open spec fn parse(s: Seq<char>) -> Option<Mode> {
        if crate::text::ascii_lowercase(s) == "check"@ {
            Some(Mode::Check)
        } else if crate::text::ascii_lowercase(s) == "report"@ {
            Some(Mode::Report)
        } else {
            None
        }
    }

    /// Reads a mode. Any other word than `check` and `report` is refused,
    /// and handed back in the error.
    pub fn from_str(s: &str) -> (parsed: Result<Mode, InvalidMode>)
        ensures
            match parsed {
                Ok(mode) => Self::parse(s@) == Some(mode),
                Err(error) => Self::parse(s@) is None && error.0@ == s@,
            },
    {
        proof {
            reveal_strlit("check");
            reveal_strlit("report");
        }
        if lowercase_is(s, "check") {
            Ok(Mode::Check)
        } else if lowercase_is(s, "report") {
            Ok(Mode::Report)
        } else {
            Err(InvalidMode(s.to_owned()))
        }
    }
}

impl std::str::FromStr for Mode {
    type Err = InvalidMode;

    fn from_str(s: &str) -> (parsed: Result<Self, Self::Err>)
        ensures
            match parsed {
                Ok(mode) => Mode::parse(s@) == Some(mode),
                Err(error) => Mode::parse(s@) is None && error.0@ == s@,
            },
    {
        Mode::from_str(s)
    }
}

/// Whether an issue with exactly this title is open.
pub open spec fn reported(open: Seq<IssueView>, title: Seq<char>) -> bool {
    exists|i: int| 0 <= i < open.len() && (#[trigger] open[i]).title == title
}

/// The advisories that are not filed yet: those whose title is the title of
/// no open issue, in their order.
pub open spec fn residual(advisories: Seq<AdvisoryView>, open: Seq<IssueView>) -> Seq<
    AdvisoryView,
>
    decreases advisories.len(),
{
    if advisories.len() == 0 {
        Seq::empty()
    } else {
        let before = residual(advisories.drop_last(), open);
        if reported(open, advisories.last().title) {
            before
        } else {
            before.push(advisories.last())
        }
    }
}

/// Whether an issue with the title of `advisory` is open.
pub fn is_reported(open: &Vec<Issue>, advisory: &Advisory) -> (found: bool)
    ensures
        found == reported(issue_views(open@), advisory@.title),
{
    let mut i: usize = 0;
    while i < open.len()
        invariant
            i <= open@.len(),
            forall|k: int| 0 <= k < i ==> (#[trigger] issue_views(open@)[k]).title != advisory@.title,
        decreases open@.len() - i,
    {
        if open[i].title == advisory.title {
            assert(issue_views(open@)[i as int].title == advisory@.title);
            return true;
        }
        i += 1;
    }
    false
}

/// Keeps the advisories that are not filed yet.
pub fn unreported(advisories: Vec<Advisory>, open: &Vec<Issue>) -> (rest: Vec<Advisory>)
    ensures
        advisory_views(rest@) == residual(advisory_views(advisories@), issue_views(open@)),
{
    let ghost all = advisory_views(advisories@);
    let ghost list = advisories@;
    let mut rest: Vec<Advisory> = Vec::new();
    for advisory in it: advisories
        invariant
            it.seq() == list,
            all == advisory_views(list),
            advisory_views(rest@) == residual(all.take(it.index() as int), issue_views(open@)),
    {
        proof {
            let upto = all.take(it.index() + 1);
            assert(upto.drop_last() =~= all.take(it.index()));
            assert(upto.last() == advisory@);
            assert(advisory_views(rest@.push(advisory)) =~= advisory_views(rest@).push(
                advisory@,
            ));
        }
        if !is_reported(open, &advisory) {
            rest.push(advisory);
        }
    }
    proof {
        assert(all.take(all.len() as int) =~= all);
    }
    rest
}

/// How one issue is named in the summary: its number, a colon, and the id
/// of its advisory.
pub open spec fn entry(pair: (IssueView, AdvisoryView)) -> Seq<char> {
    decimal(pair.0.number as nat) + seq![':'] + pair.1.id
}

/// The summary of the issues that were opened: their entries, with a comma
/// between one and the next.
pub open spec fn opened(pairs: Seq<(IssueView, AdvisoryView)>) -> Seq<char>
    decreases pairs.len(),
{
    if pairs.len() == 0 {
        Seq::empty()
    } else if pairs.len() == 1 {
        entry(pairs[0])
    } else {
        opened(pairs.drop_last()) + seq![','] + entry(pairs.last())
    }
}

/// Writes the summary of the issues that were opened.
pub fn opened_summary(pairs: &Vec<(Issue, Advisory)>) -> (summary: String)
    ensures
        summary@ == opened(pair_views(pairs@)),
{
    let mut summary = String::new();
    let mut i: usize = 0;
    proof {
        reveal_strlit(",");
        reveal_strlit(":");
    }
    while i < pairs.len()
        invariant
            i <= pairs@.len(),
            ","@ == seq![','],
            ":"@ == seq![':'],
            summary@ == opened(pair_views(pairs@).take(i as int)),
        decreases pairs@.len() - i,
    {
        let ghost before = summary@;
        if i > 0 {
            summary.append(",");
        }
        let number = decimal_string(pairs[i].0.number);
        summary.append(number.as_str());
        summary.append(":");
        summary.append(pairs[i].1.id.as_str());
        proof {
            let upto = pair_views(pairs@).take(i + 1);
            assert(upto.drop_last() =~= pair_views(pairs@).take(i as int));
            assert(upto.last() == (pairs@[i as int].0@, pairs@[i as int].1@));
            assert(summary@ =~= opened(upto));
        }
        i += 1;
    }
    proof {
        assert(pair_views(pairs@).take(i as int) =~= pair_views(pairs@));
    }
    summary
}

/// How far a run has come.
#[derive(Clone, Copy, Debug, PartialEq, Eq, Structural)]
pub enum Stage {
    /// The open issues are being fetched.
    Fetching,
    /// The scanner is at work.
    Scanning,
    /// The issues are being filed.
    Creating,
    /// The run is over.
    Finished,
}

/// A run of the tool.
#[derive(Debug)]
pub struct Driver {
    mode: Mode,
    stage: Stage,
    open: Vec<Issue>,
}

/// What happened since the run was last told what to do.
#[derive(Debug)]
pub enum DriverEvent {
    /// The tracker listed these open issues.
    Listed(Vec<Issue>),
    /// The scanner found these advisories.
    Scanned(Vec<Advisory>),
    /// These issues were filed, each for its advisory.
    Created(Vec<(Issue, Advisory)>),
    /// What was asked for could not be done.
    Failed,
}

/// How a run ends.
#[derive(Debug)]
pub enum Outcome {
    /// Checked, and every advisory is filed already.
    Clean,
    /// Checked, and these advisories are not filed yet. Nothing was filed.
    Unreported(Vec<Advisory>),
    /// These issues were filed, and `summary` names them.
    Opened { issues: Vec<(Issue, Advisory)>, summary: String },
    /// A stage failed.
    Failed,
}

/// What is to be done next in a run.
#[derive(Debug)]
pub enum DriverAction {
    /// Fetch the open issues.
    ListIssues,
    /// Run the scanner.
    Scan,
    /// File an issue for each of these advisories.
    Create(Vec<Advisory>),
    /// End the run.
    Finish(Outcome),
}

/// A run as plain values.
pub struct DriverView {
    pub mode: Mode,
    pub stage: Stage,
    /// The open issues, from when they are fetched until the advisories are
    /// held against them.
    pub open: Seq<IssueView>,
}

/// An event as plain values.
pub enum DriverEventView {
    Listed(Seq<IssueView>),
    Scanned(Seq<AdvisoryView>),
    Created(Seq<(IssueView, AdvisoryView)>),
    Failed,
}

/// An outcome as plain values.
pub enum OutcomeView {
    Clean,
    Unreported(Seq<AdvisoryView>),
    Opened { issues: Seq<(IssueView, AdvisoryView)>, summary: Seq<char> },
    Failed,
}

/// An action as plain values.
pub enum DriverActionView {
    ListIssues,
    Scan,
    Create(Seq<AdvisoryView>),
    Finish(OutcomeView),
}

impl View for DriverEvent {
    type V = DriverEventView;

    open spec fn view(&self) -> DriverEventView {
        match *self {
            DriverEvent::Listed(open) => DriverEventView::Listed(issue_views(open@)),
            DriverEvent::Scanned(advisories) => DriverEventView::Scanned(
                advisory_views(advisories@),
            ),
            DriverEvent::Created(pairs) => DriverEventView::Created(pair_views(pairs@)),
            DriverEvent::Failed => DriverEventView::Failed,
        }
    }
}

impl View for Outcome {
    type V = OutcomeView;

    open spec fn view(&self) -> OutcomeView {
        match *self {
            Outcome::Clean => OutcomeView::Clean,
            Outcome::Unreported(advisories) => OutcomeView::Unreported(
                advisory_views(advisories@),
            ),
            Outcome::Opened { issues, summary } => OutcomeView::Opened {
                issues: pair_views(issues@),
                summary: summary@,
            },
            Outcome::Failed => OutcomeView::Failed,
        }
    }
}

impl View for DriverAction {
    type V = DriverActionView;

    open spec fn view(&self) -> DriverActionView {
        match *self {
            DriverAction::ListIssues => DriverActionView::ListIssues,
            DriverAction::Scan => DriverActionView::Scan,
            DriverAction::Create(advisories) => DriverActionView::Create(
                advisory_views(advisories@),
            ),
            DriverAction::Finish(outcome) => DriverActionView::Finish(outcome@),
        }
    }
}

impl View for Driver {
    type V = DriverView;

    closed spec fn view(&self) -> DriverView {
        DriverView { mode: self.mode, stage: self.stage, open: issue_views(self.open@) }
    }
}

impl OutcomeView {
    /// The status with which the process ends: zero where the run did what
    /// it was asked and found nothing amiss, else one. A check that finds
    /// advisories that are not filed ends with one, as a failed stage does.
    pub open spec fn status(self) -> u8 {
        match self {
            OutcomeView::Clean => 0,
            OutcomeView::Opened { .. } => 0,
            OutcomeView::Unreported(_) => 1,
            OutcomeView::Failed => 1,
        }
    }
}

impl Outcome {
    /// The status with which the process ends.
    pub fn status(&self) -> (code: u8)
        ensures
            code == self@.status(),
    {
        match self {
            Outcome::Clean => 0,
            Outcome::Opened { .. } => 0,
            Outcome::Unreported(_) => 1,
            Outcome::Failed => 1,
        }
    }
}

impl DriverView {
    /// A run of `mode` that is over.
    pub open spec fn finished(mode: Mode) -> DriverView {
        DriverView { mode, stage: Stage::Finished, open: Seq::empty() }
    }

    /// How a run begins: by fetching the open issues.
    pub open spec fn begin(mode: Mode) -> (DriverView, DriverActionView) {
        (
            DriverView { mode, stage: Stage::Fetching, open: Seq::empty() },
            DriverActionView::ListIssues,
        )
    }

    /// What is done with the advisories once they are scanned: a check ends
    /// the run, clean or with those that are not filed yet; a report files
    /// those, be they none.
    pub open spec fn triage(self, advisories: Seq<AdvisoryView>) -> (DriverView, DriverActionView) {
        let rest = residual(advisories, self.open);
        match self.mode {
            Mode::Check => if rest.len() == 0 {
                (Self::finished(self.mode), DriverActionView::Finish(OutcomeView::Clean))
            } else {
                (
                    Self::finished(self.mode),
                    DriverActionView::Finish(OutcomeView::Unreported(rest)),
                )
            },
            Mode::Report => (
                DriverView { mode: self.mode, stage: Stage::Creating, open: Seq::empty() },
                DriverActionView::Create(rest),
            ),
        }
    }

    /// The state and the action that follow `event`.
    pub open spec fn next(self, event: DriverEventView) -> (DriverView, DriverActionView) {
        match (self.stage, event) {
            (Stage::Fetching, DriverEventView::Listed(open)) => (
                DriverView { mode: self.mode, stage: Stage::Scanning, open },
                DriverActionView::Scan,
            ),
            (Stage::Scanning, DriverEventView::Scanned(advisories)) => self.triage(advisories),
            (Stage::Creating, DriverEventView::Created(issues)) => (
                Self::finished(self.mode),
                DriverActionView::Finish(OutcomeView::Opened { issues, summary: opened(issues) }),
            ),
            _ => (Self::finished(self.mode), DriverActionView::Finish(OutcomeView::Failed)),
        }
    }
}

impl Driver {
    /// A run of `mode` that is over.
    fn finished(mode: Mode) -> (driver: Driver)
        ensures
            driver@ == DriverView::finished(mode),
    {
        let driver = Driver { mode, stage: Stage::Finished, open: Vec::new() };
        assert(driver@.open =~= Seq::empty());
        driver
    }

    /// Begins a run in `mode`.
    pub fn start(mode: Mode) -> (begin: (Driver, DriverAction))
        ensures
            (begin.0@, begin.1@) == DriverView::begin(mode),
    {
        let driver = Driver { mode, stage: Stage::Fetching, open: Vec::new() };
        assert(driver@.open =~= Seq::empty());
        (driver, DriverAction::ListIssues)
    }

    /// Decides what follows `event`.
    ///
    /// The open issues are fetched, then the scanner runs, then the
    /// advisories whose title no open issue has are told apart. A check
    /// ends there: clean, or with those advisories and nothing filed. A
    /// report files them, and ends with the issues it opened and their
    /// summary. A stage that fails ends the run, and so does an event that
    /// does not answer the last action.
    pub fn step(self, event: DriverEvent) -> (then: (Driver, DriverAction))
        ensures
            (then.0@, then.1@) == self@.next(event@),
    {
        let Driver { mode, stage, open } = self;
        match stage {
            Stage::Fetching => match event {
                DriverEvent::Listed(open) => (
                    Driver { mode, stage: Stage::Scanning, open },
                    DriverAction::Scan,
                ),
                _ => (Self::finished(mode), DriverAction::Finish(Outcome::Failed)),
            },
            Stage::Scanning => match event {
                DriverEvent::Scanned(advisories) => {
                    let rest = unreported(advisories, &open);
                    match mode {
                        Mode::Check => if rest.len() == 0 {
                            (Self::finished(mode), DriverAction::Finish(Outcome::Clean))
                        } else {
                            (
                                Self::finished(mode),
                                DriverAction::Finish(Outcome::Unreported(rest)),
                            )
                        },
                        Mode::Report => {
                            let driver = Driver { mode, stage: Stage::Creating, open: Vec::new() };
                            assert(driver@.open =~= Seq::empty());
                            (driver, DriverAction::Create(rest))
                        },
                    }
                },
                _ => (Self::finished(mode), DriverAction::Finish(Outcome::Failed)),
            },
            Stage::Creating => match event {
                DriverEvent::Created(issues) => {
                    let summary = opened_summary(&issues);
                    (
                        Self::finished(mode),
                        DriverAction::Finish(Outcome::Opened { issues, summary }),
                    )
                },
                _ => (Self::finished(mode), DriverAction::Finish(Outcome::Failed)),
            },
            Stage::Finished => (Self::finished(mode), DriverAction::Finish(Outcome::Failed)),
        }
    }
}

/// The actions that a run in state `state` takes while `events` happen to
/// it, one for each event.
pub open spec fn run(state: DriverView, events: Seq<DriverEventView>) -> Seq<DriverActionView>
    decreases events.len(),
{
    if events.len() == 0 {
        Seq::empty()
    } else {
        let then = state.next(events[0]);
        seq![then.1] + run(then.0, events.skip(1))
    }
}

/// A run takes one action for each event.
pub proof fn lemma_run_len(state: DriverView, events: Seq<DriverEventView>)
    ensures
        run(state, events).len() == events.len(),
    decreases events.len(),
{
    if events.len() > 0 {
        lemma_run_len(state.next(events[0]).0, events.skip(1));
    }
}

/// A run that is over stays over: whatever happens, it asks for nothing.
pub proof fn lemma_finished_stays(mode: Mode, events: Seq<DriverEventView>, at: int)
    requires
        0 <= at < events.len(),
    ensures
        run(DriverView::finished(mode), events)[at] == DriverActionView::Finish(
            OutcomeView::Failed,
        ),
    decreases events.len(),
{
    lemma_run_len(DriverView::finished(mode), events.skip(1));
    if at > 0 {
        lemma_finished_stays(mode, events.skip(1), at - 1);
    }
}

/// The stages of a run come in order, each once. The scanner runs only as
/// the first action after the start, once the open issues are there.
/// Issues are filed only as the second, in a report, and they are the
/// advisories scanned whose title no fetched issue has. A run ends with
/// opened issues only as the third. And a check never files anything.
pub proof fn lemma_stages_in_order(mode: Mode, events: Seq<DriverEventView>, at: int)
    requires
        0 <= at < events.len(),
    ensures
        !(run(DriverView::begin(mode).0, events)[at] is ListIssues),
        run(DriverView::begin(mode).0, events)[at] is Scan ==> at == 0 && events[0] is Listed,
        run(DriverView::begin(mode).0, events)[at] matches DriverActionView::Create(rest) ==> {
            &&& at == 1
            &&& mode == Mode::Report
            &&& events[0] matches DriverEventView::Listed(open)
            &&& events[1] matches DriverEventView::Scanned(advisories)
            &&& rest == residual(advisories, open)
        },
        run(DriverView::begin(mode).0, events)[at] matches DriverActionView::Finish(
            OutcomeView::Opened { issues, summary },
        ) ==> at == 2 && events[2] == DriverEventView::Created(issues) && summary == opened(
            issues,
        ),
        mode == Mode::Check ==> !(run(DriverView::begin(mode).0, events)[at] is Create),
{
    let begin = DriverView::begin(mode).0;
    let first = begin.next(events[0]);
    let rest = events.skip(1);
    lemma_run_len(first.0, rest);
    if at > 0 {
        if !(events[0] is Listed) {
            lemma_finished_stays(mode, rest, at - 1);
        } else {
            let second = first.0.next(rest[0]);
            let after = rest.skip(1);
            lemma_run_len(second.0, after);
            if at > 1 {
                if !(rest[0] is Scanned) || mode == Mode::Check {
                    lemma_finished_stays(mode, after, at - 2);
                } else {
                    let third = second.0.next(after[0]);
                    lemma_run_len(third.0, after.skip(1));
                    assert(after[0] == events[2]);
                    if at > 2 {
                        lemma_finished_stays(mode, after.skip(1), at - 3);
                    }
                }
            }
        }
    }
}

/// Every advisory that is kept has a title that no open issue has, and
/// every advisory with such a title is kept.
pub proof fn lemma_residual_is_unreported(advisories: Seq<AdvisoryView>, open: Seq<IssueView>)
    ensures
        forall|j: int|
            0 <= j < residual(advisories, open).len() ==> !reported(
                open,
                (#[trigger] residual(advisories, open)[j]).title,
            ),
        forall|k: int|
            0 <= k < advisories.len() && !reported(open, (#[trigger] advisories[k]).title)
                ==> residual(advisories, open).contains(advisories[k]),
        residual(advisories, open).len() <= advisories.len(),
    decreases advisories.len(),
{
    if advisories.len() > 0 {
        let before = advisories.drop_last();
        let last = advisories.last();
        lemma_residual_is_unreported(before, open);
        let kept = residual(advisories, open);
        assert forall|k: int|
            0 <= k < advisories.len() && !reported(
                open,
                (#[trigger] advisories[k]).title,
            ) implies kept.contains(advisories[k]) by {
            if k < before.len() {
                assert(before[k] == advisories[k]);
                let j = choose|j: int|
                    0 <= j < residual(before, open).len() && residual(before, open)[j]
                        == before[k];
                assert(kept[j] == advisories[k]);
            } else {
                assert(kept[kept.len() - 1] == advisories[k]);
            }
        }
    }
}

/// Where every advisory has the title of an open issue, none is kept.
pub proof fn lemma_all_reported(advisories: Seq<AdvisoryView>, open: Seq<IssueView>)
    requires
        forall|k: int| 0 <= k < advisories.len() ==> reported(open, (#[trigger] advisories[k]).title),
    ensures
        residual(advisories, open) == Seq::<AdvisoryView>::empty(),
    decreases advisories.len(),
{
    if advisories.len() > 0 {
        let before = advisories.drop_last();
        assert forall|k: int| 0 <= k < before.len() implies reported(
            open,
            (#[trigger] before[k]).title,
        ) by {
            assert(before[k] == advisories[k]);
        }
        lemma_all_reported(before, open);
        assert(reported(open, advisories[advisories.len() - 1].title));
    }
}

/// Running again files nothing. Once the advisories that were not filed
/// have their issues, each under the title of its advisory, and the issues
/// that were open still are, the same advisories leave nothing to file: a
/// report has no issue to make, and a check is clean.
pub proof fn lemma_rerun_files_nothing(
    mode: Mode,
    advisories: Seq<AdvisoryView>,
    open: Seq<IssueView>,
    created: Seq<IssueView>,
)
    requires
        created.len() == residual(advisories, open).len(),
        forall|j: int|
            0 <= j < created.len() ==> (#[trigger] created[j]).title == residual(
                advisories,
                open,
            )[j].title,
    ensures
        residual(advisories, open + created) == Seq::<AdvisoryView>::empty(),
        (DriverView { mode, stage: Stage::Scanning, open: open + created }).triage(advisories).1
            == match mode {
            Mode::Check => DriverActionView::Finish(OutcomeView::Clean),
            Mode::Report => DriverActionView::Create(Seq::empty()),
        },
{
    let now = open + created;
    lemma_residual_is_unreported(advisories, open);
    assert forall|k: int| 0 <= k < advisories.len() implies reported(
        now,
        (#[trigger] advisories[k]).title,
    ) by {
        let title = advisories[k].title;
        if reported(open, title) {
            let i = choose|i: int| 0 <= i < open.len() && (#[trigger] open[i]).title == title;
            assert(now[i].title == title);
        } else {
            let kept = residual(advisories, open);
            let j = choose|j: int| 0 <= j < kept.len() && kept[j] == advisories[k];
            assert(created[j].title == title);
            assert(now[open.len() + j].title == title);
        }
    }
    lemma_all_reported(advisories, now);
}

} // verus!
