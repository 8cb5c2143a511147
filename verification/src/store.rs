//! The store of events, drivers and rides, and what a matching run makes
//! of it. Rows are kept in the order in which they were created; a ride is
//! known by its position among the rides.

use vstd::prelude::*;
use crate::matching::{free_before, owns_seat, total_free};
use crate::models::{Campus, Driver, Event, Ride};

verus! {

/// The rows that the worker reads and changes.
#[derive(Debug, PartialEq, Eq)]
pub struct Store {
    pub events: Vec<Event>,
    pub drivers: Vec<Driver>,
    pub rides: Vec<Ride>,
}

/// A ride that a matching run gave to a driver.
#[derive(Clone, Copy, Debug, PartialEq, Eq, Structural)]
pub struct Assignment {
    /// The position of the ride among the rides of the store
    pub ride: usize,
    /// The event of the ride
    pub event_id: u128,
    /// The user id of the rider
    pub rider_id: u128,
    /// The user id of the driver
    pub driver_id: u128,
}

/// Why the store refused to assign a ride.
#[derive(Clone, Copy, Debug, PartialEq, Eq, Structural)]
pub enum StoreError {
    /// There is no ride at that position.
    NoSuchRide,
    /// The ride has a driver already; an assigned ride is never moved.
    AlreadyAssigned,
}

/// The time, in seconds, for which an event is kept after it took place:
/// 24 hours.
pub const RETENTION: i64 = 86_400;

/// Whether an event took place more than the retention time before `now`.
pub open spec fn is_old(event: Event, now: i64) -> bool {
    event.time < now - RETENTION
}

/// The events that took place more than the retention time before `now`.
pub open spec fn old_events(now: i64) -> spec_fn(Event) -> bool {
    |event: Event| is_old(event, now)
}

/// The ids of the events that took place more than the retention time
/// before `now`, in the order of the events.
pub open spec fn old_event_ids(events: Seq<Event>, now: i64) -> Seq<u128> {
    events.filter(old_events(now)).map_values(|event: Event| event.id)
}

/// The events that stay when the events with the ids `gone` are deleted.
pub open spec fn events_outside(gone: Seq<u128>) -> spec_fn(Event) -> bool {
    |event: Event| !gone.contains(event.id)
}

/// The drivers that stay when the events with the ids `gone` are deleted.
pub open spec fn drivers_outside(gone: Seq<u128>) -> spec_fn(Driver) -> bool {
    |driver: Driver| !gone.contains(driver.event_id)
}

/// The rides that stay when the events with the ids `gone` are deleted.
pub open spec fn rides_outside(gone: Seq<u128>) -> spec_fn(Ride) -> bool {
    |ride: Ride| !gone.contains(ride.event_id)
}

/// Whether a ride waits for a driver for the given event on the given campus.
pub open spec fn is_waiting(ride: Ride, event_id: u128, campus: Campus) -> bool {
    &&& ride.event_id == event_id
    &&& ride.campus == campus
    &&& ride.driver_id is None
}

/// The positions of the rides that wait for the event on the campus, in the
/// order in which the rides were created.
pub open spec fn waiting(rides: Seq<Ride>, event_id: u128, campus: Campus) -> Seq<usize>
    decreases rides.len(),
{
    if rides.len() == 0 {
        Seq::empty()
    } else if is_waiting(rides.last(), event_id, campus) {
        waiting(rides.drop_last(), event_id, campus).push((rides.len() - 1) as usize)
    } else {
        waiting(rides.drop_last(), event_id, campus)
    }
}

/// Whether a ride of the event is assigned to the user as its driver.
pub open spec fn is_carried(ride: Ride, event_id: u128, driver_id: u128) -> bool {
    ride.event_id == event_id && ride.driver_id == Some(driver_id)
}

/// The number of rides of the event that are assigned to the user as their
/// driver.
pub open spec fn assigned_count(rides: Seq<Ride>, event_id: u128, driver_id: u128) -> nat
    decreases rides.len(),
{
    if rides.len() == 0 {
        0
    } else {
        assigned_count(rides.drop_last(), event_id, driver_id) + if is_carried(
            rides.last(),
            event_id,
            driver_id,
        ) {
            1nat
        } else {
            0nat
        }
    }
}

/// A count as the store reports it: as it is, or the largest `i64` where it
/// is larger than that.
pub open spec fn reported(count: nat) -> i64 {
    if count <= i64::MAX {
        count as i64
    } else {
        i64::MAX
    }
}

/// Whether a driver drives for the event from the campus.
pub open spec fn drives_for(driver: Driver, event_id: u128, campus: Campus) -> bool {
    driver.event_id == event_id && driver.campus == campus
}

/// The drivers of the event on the campus, in the order in which they were
/// created.
pub open spec fn campus_drivers(drivers: Seq<Driver>, event_id: u128, campus: Campus) -> Seq<
    Driver,
>
    decreases drivers.len(),
{
    if drivers.len() == 0 {
        Seq::empty()
    } else if drives_for(drivers.last(), event_id, campus) {
        campus_drivers(drivers.drop_last(), event_id, campus).push(drivers.last())
    } else {
        campus_drivers(drivers.drop_last(), event_id, campus)
    }
}

/// The drivers of the event on the campus, each with the number of rides of
/// the event that are assigned to them.
pub open spec fn pool(rides: Seq<Ride>, drivers: Seq<Driver>, event_id: u128, campus: Campus) -> Seq<
    (Driver, i64),
> {
    campus_drivers(drivers, event_id, campus).map_values(
        |d: Driver| (d, reported(assigned_count(rides, event_id, d.driver_id))),
    )
}

/// The ride with the user as its driver.
pub open spec fn with_driver(ride: Ride, driver_id: u128) -> Ride {
    Ride { driver_id: Some(driver_id), ..ride }
}

/// The rides after the ride at position `ride` was given to the driver: a
/// ride that waits gets the driver; one that has a driver stays as it is,
/// and so do all the rides where there is no ride at that position.
pub open spec fn assign(rides: Seq<Ride>, ride: int, driver_id: u128) -> Seq<Ride> {
    if 0 <= ride < rides.len() && rides[ride].driver_id is None {
        rides.update(ride, with_driver(rides[ride], driver_id))
    } else {
        rides
    }
}

/// The rides after the assignments of `plan` were made, one after the other.
pub open spec fn assign_all(rides: Seq<Ride>, plan: Seq<Assignment>) -> Seq<Ride>
    decreases plan.len(),
{
    if plan.len() == 0 {
        rides
    } else {
        assign(assign_all(rides, plan.drop_last()), plan.last().ride as int, plan.last().driver_id)
    }
}

/// The driver who owns the free seat number `k` of the pool.
pub open spec fn seat_owner(pool: Seq<(Driver, i64)>, k: int) -> int {
    choose|j: int| owns_seat(pool, j, k)
}

/// The number of riders that one pass seats: the riders that wait, or the
/// free seats where these are fewer.
pub open spec fn seated(rides: Seq<Ride>, drivers: Seq<Driver>, event_id: u128, campus: Campus) -> nat {
    let riders = waiting(rides, event_id, campus).len();
    let seats = total_free(pool(rides, drivers, event_id, campus));
    if riders <= seats {
        riders
    } else {
        seats
    }
}

/// The assignments that one pass over the event and the campus makes: the
/// waiting rider number `k` takes the free seat number `k`, as long as there
/// are riders and seats.
pub open spec fn pass_plan(rides: Seq<Ride>, drivers: Seq<Driver>, event_id: u128, campus: Campus) -> Seq<
    Assignment,
> {
    let ids = waiting(rides, event_id, campus);
    let seats = pool(rides, drivers, event_id, campus);
    Seq::new(
        seated(rides, drivers, event_id, campus),
        |k: int|
            Assignment {
                ride: ids[k],
                event_id,
                rider_id: rides[ids[k] as int].rider_id,
                driver_id: seats[seat_owner(seats, k)].0.driver_id,
            },
    )
}

/// The assignments that a run makes for one event: those for RIT, then those
/// for the University of Rochester on the rides as the first pass left them.
pub open spec fn event_plan(rides: Seq<Ride>, drivers: Seq<Driver>, event_id: u128) -> Seq<
    Assignment,
> {
    let first = pass_plan(rides, drivers, event_id, Campus::RIT);
    first + pass_plan(assign_all(rides, first), drivers, event_id, Campus::UofR)
}

/// The assignments that a run makes for the first `n` events, each event on
/// the rides as the events before it left them.
pub open spec fn run_plan(rides: Seq<Ride>, drivers: Seq<Driver>, events: Seq<Event>, n: int) -> Seq<
    Assignment,
>
    decreases n,
{
    if n <= 0 {
        Seq::empty()
    } else {
        let before = run_plan(rides, drivers, events, n - 1);
        before + event_plan(assign_all(rides, before), drivers, events[n - 1].id)
    }
}

/// The rides after one matching run.
pub open spec fn matched(rides: Seq<Ride>, drivers: Seq<Driver>, events: Seq<Event>) -> Seq<Ride> {
    assign_all(rides, run_plan(rides, drivers, events, events.len() as int))
}

/// The waiting positions are positions of waiting rides, and come in
/// rising order.
pub proof fn lemma_waiting_sorted(rides: Seq<Ride>, event_id: u128, campus: Campus)
    requires
        rides.len() <= usize::MAX,
    ensures
        forall|k: int|
            0 <= k < waiting(rides, event_id, campus).len() ==> {
                &&& (#[trigger] waiting(rides, event_id, campus)[k]) < rides.len()
                &&& is_waiting(rides[waiting(rides, event_id, campus)[k] as int], event_id, campus)
            },
        forall|i: int, k: int|
            0 <= i < k < waiting(rides, event_id, campus).len() ==> waiting(
                rides,
                event_id,
                campus,
            )[i] < waiting(rides, event_id, campus)[k],
        waiting(rides, event_id, campus).len() <= rides.len(),
    decreases rides.len(),
{
    if rides.len() > 0 {
        lemma_waiting_sorted(rides.drop_last(), event_id, campus);
    }
}

/// Every waiting ride is among the waiting positions.
pub proof fn lemma_waiting_complete(rides: Seq<Ride>, event_id: u128, campus: Campus, p: int)
    requires
        rides.len() <= usize::MAX,
        0 <= p < rides.len(),
        is_waiting(rides[p], event_id, campus),
    ensures
        exists|k: int|
            0 <= k < waiting(rides, event_id, campus).len() && #[trigger] waiting(
                rides,
                event_id,
                campus,
            )[k] == p,
    decreases rides.len(),
{
    let ids = waiting(rides, event_id, campus);
    if p == rides.len() - 1 {
        assert(ids[ids.len() - 1] == p);
    } else {
        lemma_waiting_complete(rides.drop_last(), event_id, campus, p);
        let k = choose|k: int|
            0 <= k < waiting(rides.drop_last(), event_id, campus).len() && #[trigger] waiting(
                rides.drop_last(),
                event_id,
                campus,
            )[k] == p;
        assert(ids[k] == p);
    }
}

/// What the first `k` assignments of a pass leave behind: the first `k`
/// waiting rides have the drivers that the plan names, and every other ride
/// is as it was.
pub proof fn lemma_pass_shape(
    rides: Seq<Ride>,
    drivers: Seq<Driver>,
    event_id: u128,
    campus: Campus,
    k: int,
)
    requires
        rides.len() <= usize::MAX,
        0 <= k <= seated(rides, drivers, event_id, campus),
    ensures
        ({
            let ids = waiting(rides, event_id, campus);
            let plan = pass_plan(rides, drivers, event_id, campus);
            let now = assign_all(rides, plan.take(k));
            &&& now.len() == rides.len()
            &&& forall|i: int|
                0 <= i < k ==> now[(#[trigger] ids[i]) as int] == with_driver(
                    rides[ids[i] as int],
                    plan[i].driver_id,
                )
            &&& forall|i: int|
                k <= i < ids.len() ==> now[(#[trigger] ids[i]) as int] == rides[ids[i] as int]
            &&& forall|p: int|
                0 <= p < rides.len() && !is_waiting(rides[p], event_id, campus) ==> #[trigger] now[p]
                    == rides[p]
        }),
    decreases k,
{
    let ids = waiting(rides, event_id, campus);
    let plan = pass_plan(rides, drivers, event_id, campus);
    lemma_waiting_sorted(rides, event_id, campus);
    if k > 0 {
        lemma_pass_shape(rides, drivers, event_id, campus, k - 1);
        assert(plan.take(k).drop_last() =~= plan.take(k - 1));
        let before = assign_all(rides, plan.take(k - 1));
        let now = assign_all(rides, plan.take(k));
        assert(plan.take(k).last() == plan[k - 1]);
        assert(plan[k - 1].ride == ids[k - 1]);
        assert(before[ids[k - 1] as int] == rides[ids[k - 1] as int]);
        assert(now == before.update(
            ids[k - 1] as int,
            with_driver(rides[ids[k - 1] as int], plan[k - 1].driver_id),
        ));
        assert forall|i: int| 0 <= i < k implies now[(#[trigger] ids[i]) as int] == with_driver(
            rides[ids[i] as int],
            plan[i].driver_id,
        ) by {
            if i < k - 1 {
                assert(ids[i] < ids[k - 1]);
            }
        }
        assert forall|i: int| k <= i < ids.len() implies now[(#[trigger] ids[i]) as int]
            == rides[ids[i] as int] by {
            assert(ids[k - 1] < ids[i]);
        }
    }
}

/// Assignments change the driver of a ride and nothing else: the rides stay
/// as many, and each keeps its rider, event, campus and pickup location.
pub proof fn lemma_assign_all_keeps(rides: Seq<Ride>, plan: Seq<Assignment>)
    ensures
        assign_all(rides, plan).len() == rides.len(),
        forall|p: int|
            0 <= p < rides.len() ==> {
                let now = #[trigger] assign_all(rides, plan)[p];
                &&& now.rider_id == rides[p].rider_id
                &&& now.event_id == rides[p].event_id
                &&& now.campus == rides[p].campus
                &&& now.pickup_location == rides[p].pickup_location
            },
    decreases plan.len(),
{
    if plan.len() > 0 {
        lemma_assign_all_keeps(rides, plan.drop_last());
    }
}

/// Making the assignments of one plan and then those of another is making
/// those of the two plans joined.
pub proof fn lemma_assign_all_joined(rides: Seq<Ride>, first: Seq<Assignment>, then: Seq<Assignment>)
    ensures
        assign_all(rides, first + then) == assign_all(assign_all(rides, first), then),
    decreases then.len(),
{
    if then.len() == 0 {
        assert(first + then =~= first);
    } else {
        lemma_assign_all_joined(rides, first, then.drop_last());
        assert((first + then).drop_last() =~= first + then.drop_last());
    }
}

/// Every free seat below the total has an owner.
pub proof fn lemma_seat_has_owner(seats: Seq<(Driver, i64)>, k: int, n: int)
    requires
        0 <= k < free_before(seats, n),
        n <= seats.len(),
    ensures
        owns_seat(seats, seat_owner(seats, k), k),
    decreases n,
{
    if k >= free_before(seats, n - 1) {
        assert(owns_seat(seats, n - 1, k));
    } else {
        lemma_seat_has_owner(seats, k, n - 1);
    }
}

} // verus!
