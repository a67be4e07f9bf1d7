use rustsecbot::client::Issue;
use rustsecbot::driver::{
    is_reported, opened_summary, unreported, Driver, DriverAction, DriverEvent, Mode, Outcome,
};
use rustsecbot::Advisory;

fn advisory(id: &str, message: &str) -> Advisory {
    Advisory {
        title: Advisory::title(&None, id, message),
        id: id.to_string(),
        body: "body".to_string(),
        withdrawn: false,
        crate_name: None,
    }
}

fn issue(number: u64, title: &str) -> Issue {
    Issue {
        id: 500 + number,
        number,
        title: title.to_string(),
    }
}

fn ids(advisories: &[Advisory]) -> Vec<String> {
    advisories.iter().map(|a| a.id.clone()).collect()
}

#[test]
fn advisory_is_reported_when_an_issue_has_its_exact_title() {
    let open = vec![issue(1, "[A] m"), issue(2, "[B] m")];
    assert!(is_reported(&open, &advisory("A", "m")));
    assert!(is_reported(&open, &advisory("B", "m")));
    assert!(!is_reported(&open, &advisory("C", "m")));
    assert!(!is_reported(&open, &advisory("A", "m ")));
    assert!(!is_reported(&open, &advisory("a", "m")));
    assert!(!is_reported(&vec![], &advisory("A", "m")));
}

#[test]
fn unreported_keeps_the_others_in_order() {
    let open = vec![issue(1, "[B] m"), issue(2, "unrelated")];
    let rest = unreported(
        vec![
            advisory("A", "m"),
            advisory("B", "m"),
            advisory("C", "m"),
            advisory("A", "m"),
        ],
        &open,
    );
    assert_eq!(ids(&rest), vec!["A", "C", "A"]);
    assert!(unreported(vec![], &open).is_empty());
    assert_eq!(ids(&unreported(vec![advisory("B", "m")], &vec![])), vec!["B"]);
}

#[test]
fn summary_names_number_and_id() {
    assert_eq!(opened_summary(&vec![]), "");
    assert_eq!(
        opened_summary(&vec![(issue(7, "t"), advisory("RUSTSEC-2020-0071", "m"))]),
        "7:RUSTSEC-2020-0071"
    );
    assert_eq!(
        opened_summary(&vec![
            (issue(7, "t"), advisory("RUSTSEC-1", "m")),
            (issue(120, "u"), advisory("RUSTSEC-2", "m")),
            (issue(0, "v"), advisory("", "m")),
        ]),
        "7:RUSTSEC-1,120:RUSTSEC-2,0:"
    );
}

#[test]
fn check_with_a_residual_advisory_fails_and_files_nothing() {
    let (driver, action) = Driver::start(Mode::Check);
    assert!(matches!(action, DriverAction::ListIssues));
    let (driver, action) = driver.step(DriverEvent::Listed(vec![issue(1, "[OLD] m")]));
    assert!(matches!(action, DriverAction::Scan));
    let (driver, action) =
        driver.step(DriverEvent::Scanned(vec![advisory("OLD", "m"), advisory("NEW", "m")]));
    match action {
        DriverAction::Finish(outcome) => {
            assert_ne!(outcome.status(), 0);
            assert_eq!(outcome.status(), 1);
            match outcome {
                Outcome::Unreported(rest) => assert_eq!(ids(&rest), vec!["NEW"]),
                other => panic!("expected unreported advisories, got {:?}", other),
            }
        }
        other => panic!("expected the run to end, got {:?}", other),
    }
    let (_, action) = driver.step(DriverEvent::Created(vec![]));
    assert!(matches!(action, DriverAction::Finish(Outcome::Failed)));
}

#[test]
fn report_with_a_residual_advisory_files_one_issue_and_names_it() {
    let (driver, action) = Driver::start(Mode::Report);
    assert!(matches!(action, DriverAction::ListIssues));
    let (driver, action) = driver.step(DriverEvent::Listed(vec![issue(1, "[OLD] m")]));
    assert!(matches!(action, DriverAction::Scan));
    let (driver, action) =
        driver.step(DriverEvent::Scanned(vec![advisory("OLD", "m"), advisory("NEW", "m")]));
    let to_file = match action {
        DriverAction::Create(rest) => rest,
        other => panic!("expected issues to be filed, got {:?}", other),
    };
    assert_eq!(ids(&to_file), vec!["NEW"]);
    let filed: Vec<(Issue, Advisory)> = to_file
        .into_iter()
        .map(|a| (issue(42, &a.title), a))
        .collect();
    let (_, action) = driver.step(DriverEvent::Created(filed));
    match action {
        DriverAction::Finish(outcome) => {
            assert_eq!(outcome.status(), 0);
            match outcome {
                Outcome::Opened { issues, summary } => {
                    assert_eq!(issues.len(), 1);
                    assert_eq!(issues[0].0.number, 42);
                    assert_eq!(summary, "42:NEW");
                }
                other => panic!("expected opened issues, got {:?}", other),
            }
        }
        other => panic!("expected the run to end, got {:?}", other),
    }
}

#[test]
fn check_without_residual_is_clean() {
    let (driver, _) = Driver::start(Mode::Check);
    let (driver, _) = driver.step(DriverEvent::Listed(vec![issue(1, "[OLD] m")]));
    let (_, action) = driver.step(DriverEvent::Scanned(vec![advisory("OLD", "m")]));
    match action {
        DriverAction::Finish(outcome) => {
            assert_eq!(outcome.status(), 0);
            assert!(matches!(outcome, Outcome::Clean));
        }
        other => panic!("expected the run to end, got {:?}", other),
    }
}

#[test]
fn report_without_residual_files_an_empty_batch() {
    let (driver, _) = Driver::start(Mode::Report);
    let (driver, _) = driver.step(DriverEvent::Listed(vec![issue(1, "[OLD] m")]));
    let (driver, action) = driver.step(DriverEvent::Scanned(vec![advisory("OLD", "m")]));
    match action {
        DriverAction::Create(rest) => assert!(rest.is_empty()),
        other => panic!("expected an empty batch, got {:?}", other),
    }
    let (_, action) = driver.step(DriverEvent::Created(vec![]));
    match action {
        DriverAction::Finish(Outcome::Opened { issues, summary }) => {
            assert!(issues.is_empty());
            assert_eq!(summary, "");
        }
        other => panic!("expected the run to end, got {:?}", other),
    }
}

#[test]
fn running_again_files_nothing() {
    let scan = || vec![advisory("A", "m"), advisory("B", "m"), advisory("C", "m")];
    let mut open = vec![issue(1, "[B] m")];

    let (driver, _) = Driver::start(Mode::Report);
    let (driver, _) = driver.step(DriverEvent::Listed(open.clone()));
    let (_, action) = driver.step(DriverEvent::Scanned(scan()));
    let to_file = match action {
        DriverAction::Create(rest) => rest,
        other => panic!("expected issues to be filed, got {:?}", other),
    };
    assert_eq!(ids(&to_file), vec!["A", "C"]);
    for (i, a) in to_file.iter().enumerate() {
        open.push(issue(10 + i as u64, &a.title));
    }

    let (driver, _) = Driver::start(Mode::Report);
    let (driver, _) = driver.step(DriverEvent::Listed(open.clone()));
    let (_, action) = driver.step(DriverEvent::Scanned(scan()));
    match action {
        DriverAction::Create(rest) => assert!(rest.is_empty()),
        other => panic!("expected an empty batch, got {:?}", other),
    }

    let (driver, _) = Driver::start(Mode::Check);
    let (driver, _) = driver.step(DriverEvent::Listed(open));
    let (_, action) = driver.step(DriverEvent::Scanned(scan()));
    assert!(matches!(action, DriverAction::Finish(Outcome::Clean)));
}

#[test]
fn failed_stage_ends_the_run() {
    let (driver, _) = Driver::start(Mode::Report);
    let (driver, action) = driver.step(DriverEvent::Failed);
    match action {
        DriverAction::Finish(outcome) => {
            assert!(matches!(outcome, Outcome::Failed));
            assert_eq!(outcome.status(), 1);
        }
        other => panic!("expected the run to end, got {:?}", other),
    }
    let (_, action) = driver.step(DriverEvent::Listed(vec![]));
    assert!(matches!(action, DriverAction::Finish(Outcome::Failed)));

    let (driver, _) = Driver::start(Mode::Report);
    let (driver, _) = driver.step(DriverEvent::Listed(vec![]));
    let (_, action) = driver.step(DriverEvent::Failed);
    assert!(matches!(action, DriverAction::Finish(Outcome::Failed)));

    let (driver, _) = Driver::start(Mode::Report);
    let (driver, _) = driver.step(DriverEvent::Listed(vec![]));
    let (driver, _) = driver.step(DriverEvent::Scanned(vec![advisory("A", "m")]));
    let (_, action) = driver.step(DriverEvent::Failed);
    assert!(matches!(action, DriverAction::Finish(Outcome::Failed)));
}

#[test]
fn stage_out_of_turn_ends_the_run() {
    let (driver, _) = Driver::start(Mode::Report);
    let (_, action) = driver.step(DriverEvent::Scanned(vec![advisory("A", "m")]));
    assert!(matches!(action, DriverAction::Finish(Outcome::Failed)));
}
