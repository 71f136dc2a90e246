use sn_launch_tool::orchestrator::{liveness_verdict, LIVENESS_WINDOW_MS};
use sn_launch_tool::{
    serialize_contacts, Action, Endpoint, Event, Failure, LaunchError, NodeRole, Orchestrator,
    Phase, ReadError,
};

fn registry() -> Event {
    Event::Registry(Some(serialize_contacts(&vec![Endpoint::localhost(12000)])))
}

/// Drives a run where every launch succeeds; returns the actions asked for.
fn drive_ok(o: &mut Orchestrator, first: Action, existing: usize) -> Vec<Action> {
    let mut actions = vec![first];
    let mut a = first;
    for _ in 0..1000 {
        let ev = match a {
            Action::ScanNodesDir => Event::ExistingNodes(existing),
            Action::Launch(_) => Event::Launched(Ok(())),
            Action::Wait(_) => Event::Waited,
            Action::ReadContacts => registry(),
            Action::Finish | Action::Abort(_) => break,
        };
        a = o.step(ev);
        actions.push(a);
    }
    actions
}

fn launches(actions: &[Action]) -> Vec<usize> {
    actions
        .iter()
        .filter_map(|a| match a {
            Action::Launch(NodeRole::Genesis) => Some(1),
            Action::Launch(NodeRole::Joining(i)) => Some(*i),
            _ => None,
        })
        .collect()
}

#[test]
fn fresh_run_launches_genesis_then_requested_nodes() {
    let (mut o, first) = Orchestrator::new(3, false, 100);
    assert_eq!(first, Action::Launch(NodeRole::Genesis));
    let actions = drive_ok(&mut o, first, 0);
    assert_eq!(launches(&actions), vec![1, 2, 3, 4]);
    assert_eq!(o.launched, vec![1, 2, 3, 4]);
    assert_eq!(o.phase, Phase::Done);
    assert_eq!(*actions.last().unwrap(), Action::Finish);
}

#[test]
fn fresh_run_waits_after_every_launch_and_reads_contacts_once() {
    let (mut o, first) = Orchestrator::new(2, false, 250);
    let actions = drive_ok(&mut o, first, 0);
    assert_eq!(
        actions,
        vec![
            Action::Launch(NodeRole::Genesis),
            Action::Wait(250),
            Action::ReadContacts,
            Action::Launch(NodeRole::Joining(2)),
            Action::Wait(250),
            Action::Launch(NodeRole::Joining(3)),
            Action::Wait(250),
            Action::Finish,
        ]
    );
}

#[test]
fn fresh_run_of_one_node() {
    let (mut o, first) = Orchestrator::new(1, false, 0);
    let actions = drive_ok(&mut o, first, 0);
    assert_eq!(launches(&actions), vec![1, 2]);
}

#[test]
fn zero_nodes_is_refused() {
    let (o, first) = Orchestrator::new(0, false, 100);
    assert_eq!(first, Action::Abort(Failure::InvalidNodeCount));
    assert!(o.launched.is_empty());
    let (_, first) = Orchestrator::new(0, true, 100);
    assert_eq!(first, Action::Abort(Failure::InvalidNodeCount));
}

#[test]
fn too_many_nodes_is_refused() {
    let (_, first) = Orchestrator::new(usize::MAX, false, 100);
    assert_eq!(first, Action::Abort(Failure::InvalidNodeCount));
    let (mut o, first) = Orchestrator::new(usize::MAX, true, 100);
    assert_eq!(first, Action::ScanNodesDir);
    assert_eq!(
        o.step(Event::ExistingNodes(1)),
        Action::Abort(Failure::InvalidNodeCount)
    );
}

#[test]
fn extend_run_launches_after_existing_nodes() {
    let (mut o, first) = Orchestrator::new(2, true, 100);
    assert_eq!(first, Action::ScanNodesDir);
    let actions = drive_ok(&mut o, first, 4);
    assert_eq!(launches(&actions), vec![5, 6]);
    assert!(!actions.contains(&Action::Launch(NodeRole::Genesis)));
    assert_eq!(o.phase, Phase::Done);
}

#[test]
fn extend_with_no_existing_node_fails_before_any_launch() {
    let (mut o, first) = Orchestrator::new(3, true, 100);
    assert_eq!(first, Action::ScanNodesDir);
    assert_eq!(
        o.step(Event::ExistingNodes(0)),
        Action::Abort(Failure::NoExistingNetwork)
    );
    assert!(o.launched.is_empty());
    assert_eq!(o.phase, Phase::Failed(Failure::NoExistingNetwork));
}

#[test]
fn crash_of_node_three_of_five_stops_the_run() {
    let (mut o, mut a) = Orchestrator::new(4, false, 10);
    let mut launched = vec![];
    loop {
        let ev = match a {
            Action::Launch(NodeRole::Genesis) => {
                launched.push(1);
                Event::Launched(Ok(()))
            }
            Action::Launch(NodeRole::Joining(i)) => {
                launched.push(i);
                if i == 3 {
                    Event::Launched(Err(LaunchError::ExitedEarly(Some(1))))
                } else {
                    Event::Launched(Ok(()))
                }
            }
            Action::Wait(_) => Event::Waited,
            Action::ReadContacts => registry(),
            _ => break,
        };
        a = o.step(ev);
    }
    let failure = Failure::Launch(NodeRole::Joining(3), LaunchError::ExitedEarly(Some(1)));
    assert_eq!(a, Action::Abort(failure));
    assert_eq!(launched, vec![1, 2, 3]);
    assert_eq!(o.launched, vec![1, 2, 3]);
    assert_eq!(o.step(Event::Launched(Ok(()))), Action::Abort(failure));
    assert_eq!(o.step(Event::Waited), Action::Abort(failure));
    assert_eq!(o.launched, vec![1, 2, 3]);
}

#[test]
fn genesis_spawn_failure_stops_the_run() {
    let (mut o, _) = Orchestrator::new(3, false, 10);
    let failure = Failure::Launch(NodeRole::Genesis, LaunchError::SpawnFailed);
    assert_eq!(o.step(Event::Launched(Err(LaunchError::SpawnFailed))), Action::Abort(failure));
    assert_eq!(o.launched, vec![1]);
}

#[test]
fn missing_registry_stops_the_run() {
    let (mut o, _) = Orchestrator::new(3, false, 10);
    o.step(Event::Launched(Ok(())));
    assert_eq!(o.step(Event::Waited), Action::ReadContacts);
    assert_eq!(
        o.step(Event::Registry(None)),
        Action::Abort(Failure::RegistryUnavailable(ReadError::NotFound))
    );
    assert_eq!(o.launched, vec![1]);
}

#[test]
fn malformed_registry_stops_the_run() {
    let (mut o, _) = Orchestrator::new(2, true, 10);
    o.step(Event::ExistingNodes(3));
    assert_eq!(
        o.step(Event::Registry(Some("not json".to_string()))),
        Action::Abort(Failure::RegistryUnavailable(ReadError::Malformed))
    );
    assert!(o.launched.is_empty());
}

#[test]
fn empty_registry_stops_the_run() {
    let (mut o, _) = Orchestrator::new(2, true, 10);
    o.step(Event::ExistingNodes(3));
    assert_eq!(
        o.step(Event::Registry(Some("[]".to_string()))),
        Action::Abort(Failure::EmptyContactList)
    );
}

#[test]
fn unexpected_event_stops_the_run() {
    let (mut o, _) = Orchestrator::new(2, false, 10);
    assert_eq!(o.step(Event::Waited), Action::Abort(Failure::OutOfOrder));
    assert_eq!(o.step(Event::Launched(Ok(()))), Action::Abort(Failure::OutOfOrder));
}

#[test]
fn done_run_stays_done() {
    let (mut o, first) = Orchestrator::new(1, false, 0);
    drive_ok(&mut o, first, 0);
    assert_eq!(o.step(Event::Waited), Action::Finish);
    assert_eq!(o.launched, vec![1, 2]);
}

#[test]
fn liveness_window_and_verdict() {
    assert_eq!(LIVENESS_WINDOW_MS, 2000);
    assert_eq!(liveness_verdict(None), Ok(()));
    assert_eq!(
        liveness_verdict(Some(Some(101))),
        Err(LaunchError::ExitedEarly(Some(101)))
    );
    assert_eq!(
        liveness_verdict(Some(None)),
        Err(LaunchError::ExitedEarly(None))
    );
}
