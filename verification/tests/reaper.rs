use rides::db::delete_old_events;
use rides::statements::{delete_events_before, expire_time, Query};
use rides::models::{Campus, Driver, Event, Ride, Value};
use rides::store::{Store, RETENTION};
use rides::worker::{changes, run_now, run_pass, start, Action, PassReport, INTERVAL};
use rides::store::Assignment;

const HOUR: i64 = 3_600;
const NOW: i64 = 1_700_000_000;

fn event(id: u128, time: i64) -> Event {
    Event {
        id,
        name: String::from("Bonfire"),
        time,
        address1: String::from("500 Joseph C. Wilson Blvd"),
        address2: String::from("Wilson Commons"),
        city: String::from("Rochester"),
        state: String::from("NY"),
        zipcode: String::from("14627"),
        creator_id: 900,
    }
}

fn driver(event_id: u128, driver_id: u128, seats: i64, campus: Campus) -> Driver {
    Driver { event_id, driver_id, seats, vehicle_id: 7000 + driver_id, campus }
}

fn ride(event_id: u128, rider_id: u128, campus: Campus, driver_id: Option<u128>) -> Ride {
    Ride { rider_id, driver_id, event_id, campus, pickup_location: String::from("Susan B. Anthony") }
}

fn id_text(id: u128) -> Value {
    Value::String(format!("00000000-0000-0000-0000-{:012x}", id))
}

#[test]
fn an_old_event_goes_with_its_rides_and_drivers() {
    let mut store = Store {
        events: vec![event(1, NOW - 25 * HOUR), event(2, NOW - 23 * HOUR)],
        drivers: vec![driver(1, 50, 2, Campus::RIT), driver(2, 51, 2, Campus::RIT)],
        rides: vec![
            ride(1, 10, Campus::RIT, Some(50)),
            ride(2, 11, Campus::RIT, Some(51)),
            ride(1, 12, Campus::UofR, None),
            ride(2, 13, Campus::UofR, None),
        ],
    };
    let gone = delete_old_events(&mut store, NOW);
    assert_eq!(gone, vec![1]);
    assert_eq!(store.events, vec![event(2, NOW - 23 * HOUR)]);
    assert_eq!(store.drivers, vec![driver(2, 51, 2, Campus::RIT)]);
    assert_eq!(
        store.rides,
        vec![ride(2, 11, Campus::RIT, Some(51)), ride(2, 13, Campus::UofR, None)]
    );
}

#[test]
fn an_event_is_kept_for_a_full_day() {
    let mut store = Store {
        events: vec![event(1, NOW - 24 * HOUR), event(2, NOW - 24 * HOUR - 1), event(3, NOW + HOUR)],
        drivers: vec![],
        rides: vec![],
    };
    assert_eq!(delete_old_events(&mut store, NOW), vec![2]);
    assert_eq!(store.events, vec![event(1, NOW - 24 * HOUR), event(3, NOW + HOUR)]);
}

#[test]
fn nothing_is_old_at_the_beginning_of_time() {
    let mut store = Store {
        events: vec![event(1, i64::MIN), event(2, 0)],
        drivers: vec![driver(1, 50, 1, Campus::RIT)],
        rides: vec![ride(1, 10, Campus::RIT, None)],
    };
    assert_eq!(delete_old_events(&mut store, i64::MIN + 5), Vec::<u128>::new());
    assert_eq!(store.events.len(), 2);
    assert_eq!(store.drivers.len(), 1);
    assert_eq!(store.rides.len(), 1);
    assert_eq!(expire_time(i64::MIN + 5), i64::MIN);
}

#[test]
fn everything_is_old_at_the_end_of_time() {
    let mut store = Store {
        events: vec![event(1, i64::MAX - RETENTION - 1), event(2, i64::MAX - RETENTION)],
        drivers: vec![],
        rides: vec![],
    };
    assert_eq!(delete_old_events(&mut store, i64::MAX), vec![1]);
    assert_eq!(store.events, vec![event(2, i64::MAX - RETENTION)]);
}

#[test]
fn events_that_share_an_id_go_together() {
    let mut store = Store {
        events: vec![event(1, NOW), event(1, NOW - 30 * HOUR), event(2, NOW)],
        drivers: vec![driver(1, 50, 2, Campus::RIT)],
        rides: vec![ride(1, 10, Campus::RIT, None), ride(2, 10, Campus::RIT, None)],
    };
    assert_eq!(delete_old_events(&mut store, NOW), vec![1]);
    assert_eq!(store.events, vec![event(2, NOW)]);
    assert_eq!(store.drivers, vec![]);
    assert_eq!(store.rides, vec![ride(2, 10, Campus::RIT, None)]);
}

#[test]
fn the_retention_is_a_day() {
    assert_eq!(RETENTION, 86_400);
    assert_eq!(expire_time(NOW), 1_699_913_600);
    assert_eq!(expire_time(0), -86_400);
    let statements = delete_events_before(NOW);
    let queries: Vec<Query> = statements.iter().map(|st| st.query).collect();
    assert_eq!(
        queries,
        vec![Query::DeleteOldRides, Query::DeleteOldDrivers, Query::DeleteOldEvents]
    );
    for statement in &statements {
        assert_eq!(statement.values, vec![Value::Integer(1_699_913_600)]);
    }
}

#[test]
fn a_pass_reaps_before_it_matches() {
    let mut store = Store {
        events: vec![event(1, NOW - 48 * HOUR), event(2, NOW + HOUR)],
        drivers: vec![driver(1, 50, 2, Campus::RIT), driver(2, 51, 1, Campus::RIT)],
        rides: vec![
            ride(1, 10, Campus::RIT, None),
            ride(2, 11, Campus::RIT, None),
            ride(2, 12, Campus::RIT, None),
        ],
    };
    let report = run_pass(&mut store, NOW);
    assert_eq!(
        report,
        PassReport {
            now: NOW,
            deleted: vec![1],
            assigned: vec![Assignment { ride: 0, event_id: 2, rider_id: 11, driver_id: 51 }],
        }
    );
    assert_eq!(store.events, vec![event(2, NOW + HOUR)]);
    assert_eq!(store.drivers, vec![driver(2, 51, 1, Campus::RIT)]);
    assert_eq!(
        store.rides,
        vec![ride(2, 11, Campus::RIT, Some(51)), ride(2, 12, Campus::RIT, None)]
    );

    let statements = changes(&report);
    assert_eq!(statements.len(), 4);
    assert_eq!(statements[0].query, Query::DeleteOldRides);
    assert_eq!(statements[1].query, Query::DeleteOldDrivers);
    assert_eq!(statements[2].query, Query::DeleteOldEvents);
    assert_eq!(statements[2].values, vec![Value::Integer(NOW - 86_400)]);
    assert_eq!(statements[3].query, Query::AssignRider);
    assert_eq!(statements[3].values, vec![id_text(51), id_text(2), id_text(11)]);

    let again = run_pass(&mut store, NOW);
    assert_eq!(again, PassReport { now: NOW, deleted: vec![], assigned: vec![] });
    assert_eq!(changes(&again).len(), 3);
}

#[test]
fn a_pass_at_the_time_of_the_machine() {
    let mut store = Store {
        events: vec![event(1, 0), event(2, i64::MAX)],
        drivers: vec![driver(2, 51, 1, Campus::UofR)],
        rides: vec![ride(1, 10, Campus::UofR, None), ride(2, 11, Campus::UofR, None)],
    };
    let report = run_now(&mut store);
    assert!(report.now > 1_700_000_000);
    assert_eq!(report.deleted, vec![1]);
    assert_eq!(
        report.assigned,
        vec![Assignment { ride: 0, event_id: 2, rider_id: 11, driver_id: 51 }]
    );
    assert_eq!(store.events, vec![event(2, i64::MAX)]);
}

#[test]
fn requests_for_a_pass_are_not_counted() {
    assert_eq!(INTERVAL, 10);
    let mut worker = start();
    assert_eq!(worker.next(), Action::Run);
    assert_eq!(worker.next(), Action::Wait);
    assert!(worker.notify());
    assert!(!worker.notify());
    assert!(!worker.notify());
    assert_eq!(worker.next(), Action::Run);
    assert_eq!(worker.next(), Action::Wait);
}

#[test]
fn a_failed_pass_does_not_stop_the_worker() {
    let mut worker = start();
    assert_eq!(worker.next(), Action::Run);
    worker.finished(false);
    assert_eq!(worker.failed(), 1);
    assert_eq!(worker.next(), Action::Wait);
    assert!(worker.notify());
    worker.finished(true);
    assert_eq!(worker.failed(), 1);
    assert_eq!(worker.next(), Action::Run);
    worker.finished(false);
    assert_eq!(worker.failed(), 2);
}
