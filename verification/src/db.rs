//! The queries and changes that the worker makes on the store, and the
//! reading of the store from the rows of the database.

use vstd::prelude::*;
use crate::matching::{first_fit, is_first_fit, lemma_owner_unique};
use crate::models::{
    driver_of, event_of, ride_of, Campus, Driver, Event, EventView, MalformedRow, Ride, RideView,
    Value,
};
use crate::store::{
    assign, assign_all, assigned_count, drivers_outside, events_outside, is_carried,
    lemma_assign_all_joined, lemma_assign_all_keeps, lemma_pass_shape, lemma_seat_has_owner,
    lemma_waiting_sorted, old_event_ids, old_events, pass_plan, pool, reported, rides_outside,
    run_plan, seat_owner, waiting, Assignment, Store, StoreError, RETENTION,
};

verus! {

/// Gets the events of the store, in the order in which they were created.
pub fn get_events(store: &Store) -> (events: Vec<Event>)
    ensures
        events@ == store.events@,
{
    let mut events: Vec<Event> = Vec::new();
    let mut i: usize = 0;
    while i < store.events.len()
        invariant
            i <= store.events@.len(),
            events@ == store.events@.take(i as int),
        decreases store.events@.len() - i,
    {
        events.push(store.events[i].clone());
        assert(store.events@.take(i + 1) =~= store.events@.take(i as int).push(store.events@[i as int]));
        i += 1;
    }
    assert(store.events@.take(i as int) =~= store.events@);
    events
}

/// Gets the rides of an event on a campus that have no driver yet: their
/// positions in the store, earliest ride first.
pub fn unassigned_campus_riders(store: &Store, event_id: u128, campus: Campus) -> (ids: Vec<usize>)
    ensures
        ids@ == waiting(store.rides@, event_id, campus),
{
    let mut ids: Vec<usize> = Vec::new();
    let mut i: usize = 0;
    while i < store.rides.len()
        invariant
            i <= store.rides@.len(),
            ids@ == waiting(store.rides@.take(i as int), event_id, campus),
        decreases store.rides@.len() - i,
    {
        let ride = &store.rides[i];
        assert(store.rides@.take(i + 1).drop_last() =~= store.rides@.take(i as int));
        if ride.event_id == event_id && ride.campus == campus && ride.driver_id.is_none() {
            ids.push(i);
        }
        i += 1;
    }
    assert(store.rides@.take(i as int) =~= store.rides@);
    ids
}

/// Counts the rides of the event that the user drives.
fn count_assigned(rides: &Vec<Ride>, event_id: u128, driver_id: u128) -> (count: i64)
    ensures
        count == reported(assigned_count(rides@, event_id, driver_id)),
{
    let mut count: i64 = 0;
    let mut i: usize = 0;
    while i < rides.len()
        invariant
            i <= rides@.len(),
            count == reported(assigned_count(rides@.take(i as int), event_id, driver_id)),
        decreases rides@.len() - i,
    {
        let ride = &rides[i];
        assert(rides@.take(i + 1).drop_last() =~= rides@.take(i as int));
        let carried = match ride.driver_id {
            Some(id) => ride.event_id == event_id && id == driver_id,
            None => false,
        };
        assert(carried == is_carried(rides@[i as int], event_id, driver_id));
        if carried && count < i64::MAX {
            count += 1;
        }
        i += 1;
    }
    assert(rides@.take(i as int) =~= rides@);
    count
}

/// Gets the drivers of an event on a campus, earliest driver first, each
/// with the number of rides of the event that are assigned to them.
pub fn get_available_drivers(store: &Store, event_id: u128, campus: Campus) -> (found: Vec<
    (Driver, i64),
>)
    ensures
        found@ == pool(store.rides@, store.drivers@, event_id, campus),
{
    let mut found: Vec<(Driver, i64)> = Vec::new();
    let mut i: usize = 0;
    while i < store.drivers.len()
        invariant
            i <= store.drivers@.len(),
            found@ == pool(store.rides@, store.drivers@.take(i as int), event_id, campus),
        decreases store.drivers@.len() - i,
    {
        let driver = store.drivers[i];
        assert(store.drivers@.take(i + 1).drop_last() =~= store.drivers@.take(i as int));
        if driver.event_id == event_id && driver.campus == campus {
            let count = count_assigned(&store.rides, event_id, driver.driver_id);
            found.push((driver, count));
            assert(found@ =~= pool(store.rides@, store.drivers@.take(i + 1), event_id, campus));
        }
        i += 1;
    }
    assert(store.drivers@.take(i as int) =~= store.drivers@);
    found
}

/// Assigns the ride at the given position to a driver.
///
/// A ride that has a driver is never moved: the store then refuses.
pub fn assign_ride(store: &mut Store, ride: usize, driver_id: u128) -> (done: Result<(), StoreError>)
    ensures
        final(store).events == old(store).events,
        final(store).drivers == old(store).drivers,
        match done {
            Ok(()) => {
                &&& ride < old(store).rides@.len()
                &&& old(store).rides@[ride as int].driver_id is None
                &&& final(store).rides@ == assign(old(store).rides@, ride as int, driver_id)
            },
            Err(StoreError::NoSuchRide) => {
                &&& ride >= old(store).rides@.len()
                &&& final(store).rides == old(store).rides
            },
            Err(StoreError::AlreadyAssigned) => {
                &&& ride < old(store).rides@.len()
                &&& old(store).rides@[ride as int].driver_id is Some
                &&& final(store).rides == old(store).rides
            },
        },
{
    if ride >= store.rides.len() {
        Err(StoreError::NoSuchRide)
    } else if store.rides[ride].driver_id.is_some() {
        Err(StoreError::AlreadyAssigned)
    } else {
        store.rides[ride].driver_id = Some(driver_id);
        Ok(())
    }
}

/// Whether `id` is among `ids`.
fn holds(ids: &Vec<u128>, id: u128) -> (found: bool)
    ensures
        found == ids@.contains(id),
{
    let mut i: usize = 0;
    while i < ids.len()
        invariant
            i <= ids@.len(),
            forall|j: int| 0 <= j < i ==> ids@[j] != id,
        decreases ids@.len() - i,
    {
        if ids[i] == id {
            return true;
        }
        i += 1;
    }
    false
}

/// Deletes the old events of the store: every event that took place more
/// than 24 hours before `now`, given in seconds since the Unix epoch, and
/// with it every event, driver and ride that carries the id of such an
/// event. The result lists the ids of the old events, in the order of the
/// store.
pub fn delete_old_events(store: &mut Store, now: i64) -> (gone: Vec<u128>)
    ensures
        gone@ == old_event_ids(old(store).events@, now),
        final(store).events@ == old(store).events@.filter(events_outside(gone@)),
        final(store).drivers@ == old(store).drivers@.filter(drivers_outside(gone@)),
        final(store).rides@ == old(store).rides@.filter(rides_outside(gone@)),
{
    let mut gone: Vec<u128> = Vec::new();
    let mut i: usize = 0;
    assert(store.events@.take(0).filter(old_events(now)) =~= Seq::<Event>::empty()) by {
        reveal(Seq::filter);
    }
    while i < store.events.len()
        invariant
            i <= store.events@.len(),
            *store == *old(store),
            gone@ == old_event_ids(store.events@.take(i as int), now),
        decreases store.events@.len() - i,
    {
        let event = &store.events[i];
        proof {
            assert(store.events@.take(i + 1) =~= store.events@.take(i as int).push(*event));
            store.events@.take(i as int).lemma_filter_push(*event, old_events(now));
        }
        if (event.time as i128) < now as i128 - RETENTION as i128 {
            gone.push(event.id);
            assert(gone@ =~= old_event_ids(store.events@.take(i + 1), now));
        }
        i += 1;
    }
    assert(store.events@.take(i as int) =~= store.events@);

    let mut events: Vec<Event> = Vec::new();
    let mut i: usize = 0;
    assert(store.events@.take(0).filter(events_outside(gone@)) =~= Seq::<Event>::empty()) by {
        reveal(Seq::filter);
    }
    while i < store.events.len()
        invariant
            i <= store.events@.len(),
            *store == *old(store),
            events@ == store.events@.take(i as int).filter(events_outside(gone@)),
        decreases store.events@.len() - i,
    {
        let event = &store.events[i];
        proof {
            assert(store.events@.take(i + 1) =~= store.events@.take(i as int).push(*event));
            store.events@.take(i as int).lemma_filter_push(*event, events_outside(gone@));
        }
        if !holds(&gone, event.id) {
            events.push(event.clone());
        }
        i += 1;
    }
    assert(store.events@.take(i as int) =~= store.events@);

    let mut drivers: Vec<Driver> = Vec::new();
    let mut i: usize = 0;
    assert(store.drivers@.take(0).filter(drivers_outside(gone@)) =~= Seq::<Driver>::empty()) by {
        reveal(Seq::filter);
    }
    while i < store.drivers.len()
        invariant
            i <= store.drivers@.len(),
            *store == *old(store),
            drivers@ == store.drivers@.take(i as int).filter(drivers_outside(gone@)),
        decreases store.drivers@.len() - i,
    {
        let driver = store.drivers[i];
        proof {
            assert(store.drivers@.take(i + 1) =~= store.drivers@.take(i as int).push(driver));
            store.drivers@.take(i as int).lemma_filter_push(driver, drivers_outside(gone@));
        }
        if !holds(&gone, driver.event_id) {
            drivers.push(driver);
        }
        i += 1;
    }
    assert(store.drivers@.take(i as int) =~= store.drivers@);

    let mut rides: Vec<Ride> = Vec::new();
    let mut i: usize = 0;
    assert(store.rides@.take(0).filter(rides_outside(gone@)) =~= Seq::<Ride>::empty()) by {
        reveal(Seq::filter);
    }
    while i < store.rides.len()
        invariant
            i <= store.rides@.len(),
            *store == *old(store),
            rides@ == store.rides@.take(i as int).filter(rides_outside(gone@)),
        decreases store.rides@.len() - i,
    {
        let ride = &store.rides[i];
        proof {
            assert(store.rides@.take(i + 1) =~= store.rides@.take(i as int).push(*ride));
            store.rides@.take(i as int).lemma_filter_push(*ride, rides_outside(gone@));
        }
        if !holds(&gone, ride.event_id) {
            rides.push(ride.clone());
        }
        i += 1;
    }
    assert(store.rides@.take(i as int) =~= store.rides@);

    store.events = events;
    store.drivers = drivers;
    store.rides = rides;
    gone
}

/// One pass of a matching run: seats the riders that wait for the event on
/// the campus with the drivers of that event and campus, and adds what it
/// assigned to `made`.
fn match_campus(store: &mut Store, event_id: u128, campus: Campus, made: &mut Vec<Assignment>)
    ensures
        final(store).events == old(store).events,
        final(store).drivers == old(store).drivers,
        final(made)@ == old(made)@ + pass_plan(
            old(store).rides@,
            old(store).drivers@,
            event_id,
            campus,
        ),
        final(store).rides@ == assign_all(
            old(store).rides@,
            pass_plan(old(store).rides@, old(store).drivers@, event_id, campus),
        ),
{
    let ids = unassigned_campus_riders(store, event_id, campus);
    let seats = get_available_drivers(store, event_id, campus);
    let plan = first_fit(ids.len(), &seats);
    let ghost rides = store.rides@;
    let ghost before = made@;
    let ghost target = pass_plan(rides, store.drivers@, event_id, campus);
    proof {
        assert(rides.len() == store.rides.len());
        lemma_waiting_sorted(rides, event_id, campus);
        assert(target.take(0) =~= Seq::<Assignment>::empty());
        assert(before + target.take(0) =~= before);
    }
    let mut k: usize = 0;
    while k < plan.len()
        invariant
            k <= plan@.len(),
            plan@.len() == target.len(),
            rides.len() <= usize::MAX,
            ids@ == waiting(rides, event_id, campus),
            seats@ == pool(rides, store.drivers@, event_id, campus),
            target == pass_plan(rides, store.drivers@, event_id, campus),
            is_first_fit(plan@, ids@.len(), seats@),
            store.events == old(store).events,
            store.drivers == old(store).drivers,
            store.rides@ == assign_all(rides, target.take(k as int)),
            made@ == before + target.take(k as int),
        decreases plan@.len() - k,
    {
        let ride = ids[k];
        let owner = plan[k];
        proof {
            lemma_assign_all_keeps(rides, target.take(k as int));
            lemma_waiting_sorted(rides, event_id, campus);
            lemma_pass_shape(rides, store.drivers@, event_id, campus, k as int);
            lemma_seat_has_owner(seats@, k as int, seats@.len() as int);
            lemma_owner_unique(seats@, owner as int, seat_owner(seats@, k as int), k as int);
            assert(target.take(k + 1).drop_last() =~= target.take(k as int));
            assert(before + target.take(k + 1) =~= (before + target.take(k as int)).push(
                target[k as int],
            ));
        }
        let assignment = Assignment {
            ride,
            event_id,
            rider_id: store.rides[ride].rider_id,
            driver_id: seats[owner].0.driver_id,
        };
        assert(target[k as int] == assignment);
        let done = assign_ride(store, ride, assignment.driver_id);
        assert(done is Ok);
        made.push(assignment);
        k += 1;
    }
    assert(target.take(k as int) =~= target);
}

/// Pairs waiting riders with drivers: one matching run over the store.
///
/// For each event, in the order of the store, and for each campus on its
/// own, the riders that wait take the free seats of the drivers, earliest
/// rider and earliest driver first. A pass that runs out of free seats
/// leaves the other riders waiting; that is no failure. The result lists
/// the assignments that the run made, in the order in which it made them.
pub fn match_rides(store: &mut Store) -> (made: Vec<Assignment>)
    ensures
        final(store).events == old(store).events,
        final(store).drivers == old(store).drivers,
        made@ == run_plan(
            old(store).rides@,
            old(store).drivers@,
            old(store).events@,
            old(store).events@.len() as int,
        ),
        final(store).rides@ == assign_all(old(store).rides@, made@),
{
    let events = get_events(store);
    let mut made: Vec<Assignment> = Vec::new();
    let ghost rides = store.rides@;
    let mut n: usize = 0;
    while n < events.len()
        invariant
            n <= events@.len(),
            events@ == store.events@,
            store.events == old(store).events,
            store.drivers == old(store).drivers,
            rides == old(store).rides@,
            made@ == run_plan(rides, store.drivers@, store.events@, n as int),
            store.rides@ == assign_all(rides, made@),
        decreases events@.len() - n,
    {
        let event_id = events[n].id;
        let ghost before = made@;
        let ghost first = pass_plan(store.rides@, store.drivers@, event_id, Campus::RIT);
        let ghost middle = assign_all(store.rides@, first);
        let ghost second = pass_plan(middle, store.drivers@, event_id, Campus::UofR);
        match_campus(store, event_id, Campus::RIT, &mut made);
        match_campus(store, event_id, Campus::UofR, &mut made);
        proof {
            assert(made@ =~= before + (first + second));
            lemma_assign_all_joined(rides, before, first);
            lemma_assign_all_joined(rides, before + first, second);
            assert(before + first + second =~= before + (first + second));
        }
        n += 1;
    }
    made
}

/// The tables that the worker reads.
#[derive(Clone, Copy, Debug, PartialEq, Eq, Structural)]
pub enum Table {
    Events,
    Drivers,
    Rides,
}

/// The row that kept the store from being read: its table, its position
/// there, and what is wrong with it.
#[derive(Clone, Copy, Debug, PartialEq, Eq, Structural)]
pub struct BadRow {
    pub table: Table,
    pub row: usize,
    pub problem: MalformedRow,
}

/// Whether the events are what the rows describe, row by row.
pub open spec fn events_read(events: Seq<Event>, rows: Seq<Vec<Value>>) -> bool {
    &&& events.len() == rows.len()
    &&& forall|i: int|
        #![trigger rows[i]]
        #![trigger events[i]]
        0 <= i < rows.len() ==> event_of(rows[i]@) == Ok::<EventView, MalformedRow>(events[i]@)
}

/// Whether the drivers are what the rows describe, row by row.
pub open spec fn drivers_read(drivers: Seq<Driver>, rows: Seq<Vec<Value>>) -> bool {
    &&& drivers.len() == rows.len()
    &&& forall|i: int|
        #![trigger rows[i]]
        #![trigger drivers[i]]
        0 <= i < rows.len() ==> driver_of(rows[i]@) == Ok::<Driver, MalformedRow>(drivers[i])
}

/// Whether the rides are what the rows describe, row by row.
pub open spec fn rides_read(rides: Seq<Ride>, rows: Seq<Vec<Value>>) -> bool {
    &&& rides.len() == rows.len()
    &&& forall|i: int|
        #![trigger rows[i]]
        #![trigger rides[i]]
        0 <= i < rows.len() ==> ride_of(rows[i]@) == Ok::<RideView, MalformedRow>(rides[i]@)
}

/// Whether every row describes an event.
pub open spec fn all_events(rows: Seq<Vec<Value>>) -> bool {
    forall|i: int| 0 <= i < rows.len() ==> event_of((#[trigger] rows[i])@) is Ok
}

/// Whether every row describes a driver.
pub open spec fn all_drivers(rows: Seq<Vec<Value>>) -> bool {
    forall|i: int| 0 <= i < rows.len() ==> driver_of((#[trigger] rows[i])@) is Ok
}

/// Whether every row describes a ride.
pub open spec fn all_rides(rows: Seq<Vec<Value>>) -> bool {
    forall|i: int| 0 <= i < rows.len() ==> ride_of((#[trigger] rows[i])@) is Ok
}

/// Reads the events that rows describe; where a row describes none, the
/// first such row is named.
fn read_events(rows: &Vec<Vec<Value>>) -> (read: Result<Vec<Event>, BadRow>)
    ensures
        match read {
            Ok(events) => events_read(events@, rows@),
            Err(bad) => {
                &&& bad.table == Table::Events
                &&& bad.row < rows@.len()
                &&& all_events(rows@.take(bad.row as int))
                &&& event_of(rows@[bad.row as int]@) == Err::<EventView, MalformedRow>(bad.problem)
            },
        },
{
    let mut events: Vec<Event> = Vec::new();
    let mut i: usize = 0;
    while i < rows.len()
        invariant
            i <= rows@.len(),
            events_read(events@, rows@.take(i as int)),
        decreases rows@.len() - i,
    {
        match Event::from(rows[i].as_slice()) {
            Ok(event) => {
                events.push(event);
            },
            Err(problem) => {
                return Err(BadRow { table: Table::Events, row: i, problem });
            },
        }
        i += 1;
    }
    assert(rows@.take(i as int) =~= rows@);
    Ok(events)
}

/// Reads the drivers that rows describe; where a row describes none, the
/// first such row is named.
fn read_drivers(rows: &Vec<Vec<Value>>) -> (read: Result<Vec<Driver>, BadRow>)
    ensures
        match read {
            Ok(drivers) => drivers_read(drivers@, rows@),
            Err(bad) => {
                &&& bad.table == Table::Drivers
                &&& bad.row < rows@.len()
                &&& all_drivers(rows@.take(bad.row as int))
                &&& driver_of(rows@[bad.row as int]@) == Err::<Driver, MalformedRow>(bad.problem)
            },
        },
{
    let mut drivers: Vec<Driver> = Vec::new();
    let mut i: usize = 0;
    while i < rows.len()
        invariant
            i <= rows@.len(),
            drivers_read(drivers@, rows@.take(i as int)),
        decreases rows@.len() - i,
    {
        match Driver::from(rows[i].as_slice()) {
            Ok(driver) => {
                drivers.push(driver);
            },
            Err(problem) => {
                return Err(BadRow { table: Table::Drivers, row: i, problem });
            },
        }
        i += 1;
    }
    assert(rows@.take(i as int) =~= rows@);
    Ok(drivers)
}

/// Reads the rides that rows describe; where a row describes none, the
/// first such row is named.
fn read_rides(rows: &Vec<Vec<Value>>) -> (read: Result<Vec<Ride>, BadRow>)
    ensures
        match read {
            Ok(rides) => rides_read(rides@, rows@),
            Err(bad) => {
                &&& bad.table == Table::Rides
                &&& bad.row < rows@.len()
                &&& all_rides(rows@.take(bad.row as int))
                &&& ride_of(rows@[bad.row as int]@) == Err::<RideView, MalformedRow>(bad.problem)
            },
        },
{
    let mut rides: Vec<Ride> = Vec::new();
    let mut i: usize = 0;
    while i < rows.len()
        invariant
            i <= rows@.len(),
            rides_read(rides@, rows@.take(i as int)),
        decreases rows@.len() - i,
    {
        match Ride::from(rows[i].as_slice()) {
            Ok(ride) => {
                rides.push(ride);
            },
            Err(problem) => {
                return Err(BadRow { table: Table::Rides, row: i, problem });
            },
        }
        i += 1;
    }
    assert(rows@.take(i as int) =~= rows@);
    Ok(rides)
}

/// Reads the store from the rows of its three tables, each in the order
/// in which the rows were created.
///
/// A row that does not describe a record ends the reading: the events are
/// read first, then the drivers, then the rides, and the first row that
/// fails is named with its table and what is wrong with it.
pub fn read_store(events: &Vec<Vec<Value>>, drivers: &Vec<Vec<Value>>, rides: &Vec<Vec<Value>>) -> (read:
    Result<Store, BadRow>)
    ensures
        match read {
            Ok(store) => {
                &&& events_read(store.events@, events@)
                &&& drivers_read(store.drivers@, drivers@)
                &&& rides_read(store.rides@, rides@)
            },
            Err(bad) => match bad.table {
                Table::Events => {
                    &&& bad.row < events@.len()
                    &&& all_events(events@.take(bad.row as int))
                    &&& event_of(events@[bad.row as int]@) == Err::<EventView, MalformedRow>(
                        bad.problem,
                    )
                },
                Table::Drivers => {
                    &&& all_events(events@)
                    &&& bad.row < drivers@.len()
                    &&& all_drivers(drivers@.take(bad.row as int))
                    &&& driver_of(drivers@[bad.row as int]@) == Err::<Driver, MalformedRow>(
                        bad.problem,
                    )
                },
                Table::Rides => {
                    &&& all_events(events@)
                    &&& all_drivers(drivers@)
                    &&& bad.row < rides@.len()
                    &&& all_rides(rides@.take(bad.row as int))
                    &&& ride_of(rides@[bad.row as int]@) == Err::<RideView, MalformedRow>(
                        bad.problem,
                    )
                },
            },
        },
{
    let events = match read_events(events) {
        Ok(events) => events,
        Err(bad) => {
            return Err(bad);
        },
    };
    let drivers = match read_drivers(drivers) {
        Ok(drivers) => drivers,
        Err(bad) => {
            return Err(bad);
        },
    };
    let rides = match read_rides(rides) {
        Ok(rides) => rides,
        Err(bad) => {
            return Err(bad);
        },
    };
    Ok(Store { events, drivers, rides })
}

} // verus!
