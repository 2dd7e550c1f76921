use chargebot::flo::client::{park_url, DEFAULT_API_ORIGIN};
use chargebot::flo::models::{Park, Station, Status};
use chargebot::flo::watch::{handle_command, refresh_statuses, Command, WatchAction, Watchers};
use chargebot::keyed::StrMap;

fn park(id: &str, stations: &[(&str, Status)]) -> Park {
    Park {
        id: id.to_string(),
        stations: stations.iter().map(|(s, st)| Station { id: s.to_string(), status: *st }).collect(),
    }
}

fn ids(report: &[Station]) -> Vec<(String, Status)> {
    report.iter().map(|s| (s.id.clone(), s.status)).collect()
}

#[test]
fn watch_happy_flow() {
    let mut watchers = Watchers::new();

    // subscribe to P2: a watcher starts and reports current statuses
    match handle_command(&mut watchers, Command::SubscribeToPark("p2".to_string())) {
        WatchAction::Start(p) => assert_eq!(p, "p2"),
        _ => panic!("expected a new watcher"),
    }
    let mut p2: StrMap<Status> = StrMap::new();
    let report = refresh_statuses(&mut p2, park("p2", &[("p2s1", Status::InUse)]));
    assert_eq!(ids(&report), vec![("p2s1".to_string(), Status::InUse)]);

    // subscribe to P2 again: deduplicated
    assert!(matches!(handle_command(&mut watchers, Command::SubscribeToPark("p2".to_string())), WatchAction::Ignore));

    // subscribe to P1: immediate updates, one per station
    assert!(matches!(handle_command(&mut watchers, Command::SubscribeToPark("p1".to_string())), WatchAction::Start(_)));
    let mut p1: StrMap<Status> = StrMap::new();
    let report = refresh_statuses(&mut p1, park("p1", &[("p1s1", Status::InUse), ("p1s2", Status::Available)]));
    assert_eq!(
        ids(&report),
        vec![("p1s1".to_string(), Status::InUse), ("p1s2".to_string(), Status::Available)]
    );

    // P1S2 changes: one update
    let report = refresh_statuses(&mut p1, park("p1", &[("p1s1", Status::InUse), ("p1s2", Status::InUse)]));
    assert_eq!(ids(&report), vec![("p1s2".to_string(), Status::InUse)]);

    // P2S1 changes: one update
    let report = refresh_statuses(&mut p2, park("p2", &[("p2s1", Status::Available)]));
    assert_eq!(ids(&report), vec![("p2s1".to_string(), Status::Available)]);

    // unsubscribe from P1: its watcher stops
    match handle_command(&mut watchers, Command::UnsubscribeFromPark("p1".to_string())) {
        WatchAction::Stop(p) => assert_eq!(p, "p1"),
        _ => panic!("expected the watcher to stop"),
    }

    // nothing changed: nothing to report
    let report = refresh_statuses(&mut p2, park("p2", &[("p2s1", Status::Available)]));
    assert!(report.is_empty());

    // subscribing to P1 again starts a new watcher
    assert!(matches!(handle_command(&mut watchers, Command::SubscribeToPark("p1".to_string())), WatchAction::Start(_)));
}

#[test]
fn watch_refresh_twice_reports_nothing() {
    let mut known: StrMap<Status> = StrMap::new();
    let p = park("p", &[("a", Status::Other), ("b", Status::Available)]);
    assert_eq!(refresh_statuses(&mut known, p.clone()).len(), 2);
    assert!(refresh_statuses(&mut known, p).is_empty());
    assert_eq!(known.get("a"), Some(&Status::Other));
}

#[test]
fn watch_unsubscribe_unknown_park() {
    let mut watchers = Watchers::new();
    assert!(matches!(handle_command(&mut watchers, Command::UnsubscribeFromPark("x".to_string())), WatchAction::Stop(_)));
    assert!(matches!(handle_command(&mut watchers, Command::SubscribeToPark("x".to_string())), WatchAction::Start(_)));
}

#[test]
fn watch_park_url() {
    assert_eq!(park_url(DEFAULT_API_ORIGIN, "abc"), "https://emobility.flo.ca/v3.0/parks/abc/");
    assert_eq!(Status::default(), Status::Other);
}
