use rustsecbot::client::batch::{Batch, BatchAction, BatchEvent};
use rustsecbot::client::listing::{ListAction, ListEvent, Listing};
use rustsecbot::client::refill::{permits_to_add, RateLimit, Refill, RefillAction, RefillEvent};
use rustsecbot::client::{labels_for, list_call, options_for, ApiError, Issue, State};
use rustsecbot::config::{Config, CrateConfig, CrateMap};
use rustsecbot::Advisory;

fn advisory(id: &str, root: Option<&str>) -> Advisory {
    Advisory {
        title: Advisory::title(&root.map(|r| r.to_string()), id, "message"),
        id: id.to_string(),
        body: format!("body of {}", id),
        withdrawn: false,
        crate_name: root.map(|r| r.to_string()),
    }
}

fn issue(number: u64, title: &str) -> Issue {
    Issue {
        id: 1000 + number,
        number,
        title: title.to_string(),
    }
}

fn config() -> Config {
    let mut crates = CrateMap::new();
    crates.insert(
        "foo".to_string(),
        CrateConfig {
            labels: vec!["crate/foo".to_string(), "team/a".to_string()],
        },
    );
    Config {
        labels: vec!["rust".to_string(), "security".to_string()],
        crates,
    }
}

fn probed(remaining: u32, reset: u32, available: usize) -> RefillEvent {
    probed_with_held(remaining, reset, available, 0)
}

fn probed_with_held(remaining: u32, reset: u32, available: usize, held: usize) -> RefillEvent {
    RefillEvent::Probed {
        limit: RateLimit { remaining, reset },
        available,
        held,
    }
}

#[test]
fn listing_asks_for_open_issues_with_the_base_labels() {
    let call = list_call(&config());
    assert_eq!(call.permits, 1);
    assert_eq!(call.state, State::Open);
    assert_eq!(call.labels, vec!["rust", "security"]);
}

#[test]
fn issue_of_a_configured_package_gets_its_labels_too() {
    let labels = labels_for(&config(), &advisory("RUSTSEC-1", Some("foo")));
    assert_eq!(labels, vec!["rust", "security", "crate/foo", "team/a"]);
}

#[test]
fn issue_of_another_package_gets_the_base_labels() {
    assert_eq!(
        labels_for(&config(), &advisory("RUSTSEC-1", Some("bar"))),
        vec!["rust", "security"]
    );
    assert_eq!(
        labels_for(&config(), &advisory("RUSTSEC-1", None)),
        vec!["rust", "security"]
    );
}

#[test]
fn issue_is_made_of_title_body_and_labels() {
    let a = advisory("RUSTSEC-7", Some("foo"));
    let options = options_for(&config(), &a);
    assert_eq!(options.title, "foo: [RUSTSEC-7] message");
    assert_eq!(options.body, Some("body of RUSTSEC-7".to_string()));
    assert_eq!(options.assignee, None);
    assert_eq!(options.milestone, None);
    assert_eq!(options.labels, vec!["rust", "security", "crate/foo", "team/a"]);
}

#[test]
fn permits_bring_the_pool_up_to_the_report() {
    assert_eq!(permits_to_add(5000, 0, 0), 5000);
    assert_eq!(permits_to_add(5000, 4990, 0), 10);
    assert_eq!(permits_to_add(5000, 5000, 0), 0);
    assert_eq!(permits_to_add(0, 0, 0), 0);
    assert_eq!(permits_to_add(u32::MAX, 1, 0), u32::MAX as usize - 1);
}

#[test]
fn permits_held_by_callers_are_taken_off_the_report() {
    assert_eq!(permits_to_add(10, 0, 3), 7);
    assert_eq!(permits_to_add(10, 4, 3), 3);
    assert_eq!(permits_to_add(10, 7, 3), 0);
    assert_eq!(permits_to_add(10, 8, 3), 0);
    assert_eq!(permits_to_add(10, 0, 10), 0);
    assert_eq!(permits_to_add(10, 0, 11), 0);
    assert_eq!(permits_to_add(3, 0, usize::MAX), 0);
    assert_eq!(permits_to_add(u32::MAX, 0, 1), u32::MAX as usize - 1);
}

#[test]
fn permits_are_never_taken_away() {
    assert_eq!(permits_to_add(5, 10, 0), 0);
    assert_eq!(permits_to_add(0, usize::MAX, 0), 0);
    assert_eq!(permits_to_add(5, 3, 4), 0);
}

#[test]
fn pool_follows_reports_and_callers() {
    let mut pool: usize = 0;
    let mut held: usize = 0;
    pool += permits_to_add(10, pool, held);
    assert_eq!(pool, 10);
    // A caller takes three permits and has made none of its calls yet.
    pool -= 3;
    held += 3;
    pool += permits_to_add(10, pool, held);
    assert_eq!(pool, 7);
    assert!(pool + held <= 10);
    // It makes two of them, and the tracker counts them.
    held -= 2;
    pool += permits_to_add(8, pool, held);
    assert_eq!(pool, 7);
    assert!(pool + held <= 8);
    // The last one is made, and a new window opens.
    held -= 1;
    pool += permits_to_add(20, pool, held);
    assert_eq!(pool, 20);
    // A report of fewer calls than the pool holds leaves the pool as it is.
    pool += permits_to_add(4, pool, held);
    assert_eq!(pool, 20);
}

#[test]
fn refill_starts_with_a_probe() {
    assert_eq!(Refill::start(), (Refill::Starting, RefillAction::Probe));
}

#[test]
fn first_probe_is_announced_before_permits_are_added() {
    let (state, action) = Refill::start();
    assert_eq!(action, RefillAction::Probe);
    let (state, action) = state.step(probed(4000, 1700000000, 0));
    assert_eq!(action, RefillAction::AnnounceReady);
    assert_eq!(
        state,
        Refill::Announcing {
            permits: 4000,
            until: 1700000000
        }
    );
    let (state, action) = state.step(RefillEvent::Announced { delivered: true });
    assert_eq!(
        action,
        RefillAction::Refill {
            permits: 4000,
            until: 1700000000
        }
    );
    assert_eq!(state, Refill::Sleeping);
    let (state, action) = state.step(RefillEvent::Refilled);
    assert_eq!((state, action), (Refill::Running, RefillAction::Probe));
    let (state, action) = state.step(probed(3990, 1700003600, 3980));
    assert_eq!(
        (state, action),
        (
            Refill::Sleeping,
            RefillAction::Refill {
                permits: 10,
                until: 1700003600
            }
        )
    );
}

#[test]
fn refill_leaves_room_for_the_permits_that_callers_hold() {
    assert_eq!(
        Refill::Running.step(probed_with_held(10, 99, 0, 3)),
        (
            Refill::Sleeping,
            RefillAction::Refill {
                permits: 7,
                until: 99
            }
        )
    );
    let (state, action) = Refill::Starting.step(probed_with_held(10, 99, 2, 3));
    assert_eq!(action, RefillAction::AnnounceReady);
    assert_eq!(
        state.step(RefillEvent::Announced { delivered: true }),
        (
            Refill::Sleeping,
            RefillAction::Refill {
                permits: 5,
                until: 99
            }
        )
    );
    assert_eq!(
        Refill::Running.step(probed_with_held(10, 99, 0, 12)),
        (
            Refill::Sleeping,
            RefillAction::Refill {
                permits: 0,
                until: 99
            }
        )
    );
}

#[test]
fn failed_first_probe_fails_the_builder() {
    let (state, _) = Refill::start();
    assert_eq!(
        state.step(RefillEvent::ProbeFailed),
        (Refill::Stopped, RefillAction::AnnounceFailure)
    );
}

#[test]
fn failed_later_probe_ends_the_refill() {
    assert_eq!(
        Refill::Running.step(RefillEvent::ProbeFailed),
        (Refill::Stopped, RefillAction::Fail)
    );
}

#[test]
fn refill_ends_quietly_when_the_pool_is_dropped() {
    assert_eq!(
        Refill::Running.step(RefillEvent::PoolDropped),
        (Refill::Stopped, RefillAction::Stop)
    );
    assert_eq!(
        Refill::Starting.step(RefillEvent::PoolDropped),
        (Refill::Stopped, RefillAction::Stop)
    );
}

#[test]
fn refill_ends_quietly_when_the_builder_is_gone() {
    let state = Refill::Announcing {
        permits: 12,
        until: 99,
    };
    assert_eq!(
        state.step(RefillEvent::Announced { delivered: false }),
        (Refill::Stopped, RefillAction::Stop)
    );
}

#[test]
fn stopped_refill_stays_stopped() {
    for event in [
        RefillEvent::PoolDropped,
        RefillEvent::ProbeFailed,
        probed(10, 10, 0),
        RefillEvent::Announced { delivered: true },
        RefillEvent::Refilled,
    ] {
        assert_eq!(
            Refill::Stopped.step(event),
            (Refill::Stopped, RefillAction::Stop)
        );
    }
}

#[test]
fn refill_stops_on_an_event_out_of_turn() {
    assert_eq!(
        Refill::Sleeping.step(probed(10, 10, 0)),
        (Refill::Stopped, RefillAction::Stop)
    );
    assert_eq!(
        Refill::Starting.step(RefillEvent::Refilled),
        (Refill::Stopped, RefillAction::Stop)
    );
    assert_eq!(
        Refill::Running.step(RefillEvent::Announced { delivered: true }),
        (Refill::Stopped, RefillAction::Stop)
    );
}

#[test]
fn batch_takes_all_permits_then_files_in_order() {
    let config = config();
    let (batch, action) = Batch::start(vec![
        advisory("RUSTSEC-1", Some("foo")),
        advisory("RUSTSEC-2", None),
    ]);
    assert!(matches!(action, BatchAction::Acquire(2)));
    assert_eq!(batch.held(), 0);
    let (batch, action) = batch.step(&config, BatchEvent::Granted);
    assert_eq!(batch.held(), 2);
    match action {
        BatchAction::Create(options) => {
            assert_eq!(options.title, "foo: [RUSTSEC-1] message");
            assert_eq!(options.body, Some("body of RUSTSEC-1".to_string()));
            assert_eq!(options.labels, vec!["rust", "security", "crate/foo", "team/a"]);
        }
        other => panic!("expected an issue to be asked for, got {:?}", other),
    }
    let (batch, action) = batch.step(&config, BatchEvent::Created(issue(11, "first")));
    assert_eq!(batch.held(), 1);
    match action {
        BatchAction::Create(options) => {
            assert_eq!(options.title, "[RUSTSEC-2] message");
            assert_eq!(options.labels, vec!["rust", "security"]);
        }
        other => panic!("expected an issue to be asked for, got {:?}", other),
    }
    let (batch, action) = batch.step(&config, BatchEvent::Created(issue(12, "second")));
    assert_eq!(batch.held(), 0);
    match action {
        BatchAction::Done(created) => {
            assert_eq!(created.len(), 2);
            assert_eq!(created[0].0.number, 11);
            assert_eq!(created[0].1.id, "RUSTSEC-1");
            assert_eq!(created[1].0.number, 12);
            assert_eq!(created[1].1.id, "RUSTSEC-2");
        }
        other => panic!("expected the batch to be done, got {:?}", other),
    }
    let (_, action) = batch.step(&config, BatchEvent::Granted);
    assert!(matches!(action, BatchAction::Abort(ApiError::OutOfTurn)));
}

#[test]
fn batch_without_permits_files_nothing() {
    let config = config();
    let (batch, action) = Batch::start(vec![
        advisory("RUSTSEC-1", None),
        advisory("RUSTSEC-2", None),
        advisory("RUSTSEC-3", None),
    ]);
    assert!(matches!(action, BatchAction::Acquire(3)));
    let (batch, action) = batch.step(&config, BatchEvent::Denied);
    assert!(matches!(action, BatchAction::Abort(ApiError::Denied)));
    assert_eq!(batch.held(), 0);
    let (_, action) = batch.step(&config, BatchEvent::Granted);
    assert!(matches!(action, BatchAction::Abort(ApiError::OutOfTurn)));
}

#[test]
fn batch_makes_no_issue_before_the_permits_are_granted() {
    let config = config();
    let (batch, _) = Batch::start(vec![advisory("RUSTSEC-1", None)]);
    let (_, action) = batch.step(&config, BatchEvent::Created(issue(1, "early")));
    assert!(matches!(action, BatchAction::Abort(ApiError::OutOfTurn)));
}

#[test]
fn empty_batch_asks_for_no_permit_and_is_done() {
    let config = config();
    let (batch, action) = Batch::start(vec![]);
    assert!(matches!(action, BatchAction::Acquire(0)));
    let (_, action) = batch.step(&config, BatchEvent::Granted);
    match action {
        BatchAction::Done(created) => assert!(created.is_empty()),
        other => panic!("expected the batch to be done, got {:?}", other),
    }
}

#[test]
fn batch_is_given_up_when_the_tracker_refuses() {
    let config = config();
    let (batch, _) = Batch::start(vec![advisory("RUSTSEC-1", None), advisory("RUSTSEC-2", None)]);
    let (batch, _) = batch.step(&config, BatchEvent::Granted);
    let (batch, _) = batch.step(&config, BatchEvent::Created(issue(1, "one")));
    assert_eq!(batch.held(), 1);
    let (batch, action) = batch.step(&config, BatchEvent::Failed);
    assert!(matches!(action, BatchAction::Abort(ApiError::Rejected)));
    assert_eq!(batch.held(), 0);
    let (_, action) = batch.step(&config, BatchEvent::Created(issue(2, "two")));
    assert!(matches!(action, BatchAction::Abort(ApiError::OutOfTurn)));
}

#[test]
fn listing_takes_its_permit_before_it_calls() {
    let config = config();
    let (listing, action) = Listing::start(&config);
    assert_eq!(listing, Listing::Waiting);
    assert_eq!(listing.held(), 0);
    assert!(matches!(action, ListAction::Acquire(1)));
    let (listing, action) = listing.step(&config, ListEvent::Granted);
    assert_eq!(listing, Listing::Fetching);
    assert_eq!(listing.held(), 1);
    match action {
        ListAction::List(call) => {
            assert_eq!(call.permits, 1);
            assert_eq!(call.state, State::Open);
            assert_eq!(call.labels, vec!["rust", "security"]);
        }
        other => panic!("expected the call, got {:?}", other),
    }
    let (listing, action) =
        listing.step(&config, ListEvent::Listed(vec![issue(3, "a"), issue(4, "b")]));
    assert_eq!(listing, Listing::Finished);
    assert_eq!(listing.held(), 0);
    match action {
        ListAction::Done(issues) => {
            assert_eq!(issues.len(), 2);
            assert_eq!(issues[0].number, 3);
            assert_eq!(issues[0].id, 1003);
            assert_eq!(issues[1].title, "b");
        }
        other => panic!("expected the listing to be done, got {:?}", other),
    }
    let (_, action) = listing.step(&config, ListEvent::Granted);
    assert!(matches!(action, ListAction::Abort(ApiError::OutOfTurn)));
}

#[test]
fn listing_without_permit_calls_nothing() {
    let config = config();
    let (listing, _) = Listing::start(&config);
    let (listing, action) = listing.step(&config, ListEvent::Denied);
    assert_eq!(listing, Listing::Finished);
    assert!(matches!(action, ListAction::Abort(ApiError::Denied)));

    let (listing, _) = Listing::start(&config);
    let (_, action) = listing.step(&config, ListEvent::Listed(vec![]));
    assert!(matches!(action, ListAction::Abort(ApiError::OutOfTurn)));
}

#[test]
fn listing_is_given_up_when_the_tracker_fails() {
    let config = config();
    let (listing, _) = Listing::start(&config);
    let (listing, _) = listing.step(&config, ListEvent::Granted);
    let (_, action) = listing.step(&config, ListEvent::Failed);
    assert!(matches!(action, ListAction::Abort(ApiError::Rejected)));
}
