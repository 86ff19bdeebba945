use salvage::error::Error;
use salvage::orchestrator::{Orchestrator, Phase};

fn ids(names: &[&str]) -> Vec<String> {
    names.iter().map(|s| s.to_string()).collect()
}

#[test]
fn cycle_without_container_management_goes_straight_to_archiving() {
    let mut o = Orchestrator::new(false);
    o.begin();
    assert_eq!(o.phase, Phase::Enumerating);
    o.enumeration_done();
    assert_eq!(o.phase, Phase::Archiving);
    o.archive_succeeded();
    assert_eq!(o.phase, Phase::Idle);
    assert_eq!(o.failure, None);
}

#[test]
fn full_cycle_stops_and_restarts_in_order() {
    let mut o = Orchestrator::new(true);
    o.begin();
    o.enumeration_done();
    assert_eq!(o.phase, Phase::ResolvingContainers);
    o.dependents_resolved(ids(&["a", "b", "c"]));

    let mut stopped_order = Vec::new();
    loop {
        let next = o.stop_target().cloned();
        match next {
            Some(id) => {
                stopped_order.push(id);
                o.stop_succeeded();
            },
            None => break,
        }
    }
    o.stops_complete();
    assert_eq!(stopped_order, ids(&["a", "b", "c"]));
    assert_eq!(o.phase, Phase::Archiving);

    o.archive_succeeded();
    assert_eq!(o.phase, Phase::RestartingDependents);
    let mut restart_order = Vec::new();
    loop {
        let next = o.restart_target().cloned();
        match next {
            Some(id) => {
                restart_order.push(id);
                o.restart_succeeded();
            },
            None => break,
        }
    }
    o.restarts_complete();
    assert_eq!(restart_order, ids(&["a", "b", "c"]), "restart follows stop order");
    assert_eq!(o.phase, Phase::Idle);
    assert_eq!(o.failure, None);
}

#[test]
fn failed_stop_issues_no_more_stops_and_no_restarts() {
    // three dependents; the second stop fails
    let mut o = Orchestrator::new(true);
    o.begin();
    o.enumeration_done();
    o.dependents_resolved(ids(&["a", "b", "c"]));

    assert_eq!(o.stop_target().unwrap().as_str(), "a");
    o.stop_succeeded();
    assert_eq!(o.stop_target().unwrap().as_str(), "b");
    o.stop_failed("runtime unreachable".to_string());

    assert_eq!(o.phase, Phase::Failed);
    assert_eq!(o.failure, Some(Error::DockerApi("runtime unreachable".to_string())));
    // the third stop was never offered, and nothing is queued to
    // restart: restart is a distinct step the orchestrator did not take
    assert_eq!(o.stopped, ids(&["a"]));
    assert!(o.pending_restarts.is_empty());
}

#[test]
fn failed_archive_still_restarts_stopped_containers() {
    let mut o = Orchestrator::new(true);
    o.begin();
    o.enumeration_done();
    o.dependents_resolved(ids(&["a", "b"]));
    o.stop_succeeded();
    o.stop_succeeded();
    o.stops_complete();

    o.archive_failed(Error::Io("disk full".to_string()));
    assert_eq!(o.phase, Phase::RestartingDependents);
    assert_eq!(o.pending_restarts, ids(&["a", "b"]));

    // best-effort cleanup: one restart fails, the next is still tried
    assert_eq!(o.restart_target().unwrap().as_str(), "a");
    o.restart_failed("still down".to_string());
    assert_eq!(o.phase, Phase::RestartingDependents);
    assert_eq!(o.restart_target().unwrap().as_str(), "b");
    o.restart_succeeded();
    assert!(o.restart_target().is_none());
    o.restarts_complete();

    // the archive failure, not the restart failure, is surfaced
    assert_eq!(o.phase, Phase::Failed);
    assert_eq!(o.failure, Some(Error::Io("disk full".to_string())));
}

#[test]
fn restart_failure_on_a_healthy_cycle_is_fatal() {
    let mut o = Orchestrator::new(true);
    o.begin();
    o.enumeration_done();
    o.dependents_resolved(ids(&["a"]));
    o.stop_succeeded();
    o.stops_complete();
    o.archive_succeeded();
    assert_eq!(o.phase, Phase::RestartingDependents);
    o.restart_failed("gone".to_string());
    assert_eq!(o.phase, Phase::Failed);
    assert_eq!(o.failure, Some(Error::DockerApi("gone".to_string())));
}

#[test]
fn enumeration_and_resolution_failures_end_the_cycle() {
    let mut o = Orchestrator::new(true);
    o.begin();
    o.enumeration_failed(Error::Io("unreadable".to_string()));
    assert_eq!(o.phase, Phase::Failed);
    assert_eq!(o.failure, Some(Error::Io("unreadable".to_string())));

    let mut o = Orchestrator::new(true);
    o.begin();
    o.enumeration_done();
    o.resolution_failed(Error::NoSalvageContainer);
    assert_eq!(o.phase, Phase::Failed);
    assert_eq!(o.failure, Some(Error::NoSalvageContainer));
    assert!(o.stopped.is_empty());
}
