//! What the worker keeps. A matching run gives no driver more riders than
//! seats and no ride to a driver of another campus; it serves the riders in
//! their order, leaves a ride that has a driver with them, and leaves
//! nothing for a second run to do. Reaping takes the old events with all
//! that belongs to them, and nothing else.

use vstd::prelude::*;
use crate::matching::{
    free_before, free_seats, lemma_free_before_monotonic, lemma_load_step, lemma_owners_rise,
    load,
};
use crate::models::{Campus, Driver, Event, Ride};
use crate::store::{
    assign, assign_all, assigned_count, campus_drivers, drivers_outside, drives_for,
    events_outside, is_carried, is_old, is_waiting, lemma_assign_all_joined,
    lemma_assign_all_keeps, lemma_pass_shape, lemma_seat_has_owner, lemma_waiting_complete,
    lemma_waiting_sorted, matched, old_event_ids, old_events, pass_plan, pool, rides_outside,
    run_plan, seat_owner, seated, waiting, with_driver, Assignment,
};

verus! {

/// Whether no user drives twice for the same event.
pub open spec fn distinct_drivers(drivers: Seq<Driver>) -> bool {
    forall|i: int, j: int|
        #![trigger drivers[i], drivers[j]]
        0 <= i < j < drivers.len() ==> !(drivers[i].event_id == drivers[j].event_id
            && drivers[i].driver_id == drivers[j].driver_id)
}

/// Whether every driver has at most as many riders as seats.
pub open spec fn within_capacity(rides: Seq<Ride>, drivers: Seq<Driver>) -> bool {
    forall|i: int|
        0 <= i < drivers.len() ==> assigned_count(
            rides,
            (#[trigger] drivers[i]).event_id,
            drivers[i].driver_id,
        ) <= drivers[i].seats
}

/// Whether every ride that a driver carries is a ride from the campus of
/// that driver.
pub open spec fn campuses_kept(rides: Seq<Ride>, drivers: Seq<Driver>) -> bool {
    forall|p: int, i: int|
        #![trigger rides[p], drivers[i]]
        0 <= p < rides.len() && 0 <= i < drivers.len() && is_carried(
            rides[p],
            drivers[i].event_id,
            drivers[i].driver_id,
        ) ==> rides[p].campus == drivers[i].campus
}

/// Whether `after` comes from `before` by giving drivers to rides that
/// waited: every ride that had a driver is as it was, and a ride that got
/// one differs in nothing else.
pub open spec fn only_seated(before: Seq<Ride>, after: Seq<Ride>) -> bool {
    &&& after.len() == before.len()
    &&& forall|p: int|
        0 <= p < before.len() ==> (#[trigger] after[p]) == before[p] || (before[p].driver_id
            is None && after[p].driver_id is Some && after[p] == with_driver(
            before[p],
            after[p].driver_id.unwrap(),
        ))
}

/// Whether a pass over the event and the campus would seat nobody: no rider
/// waits, or no driver has a free seat.
pub open spec fn quiet(rides: Seq<Ride>, drivers: Seq<Driver>, event_id: u128, campus: Campus) -> bool {
    seated(rides, drivers, event_id, campus) == 0
}

/// Nobody carries a ride where no ride has a driver.
pub proof fn lemma_nobody_carries(rides: Seq<Ride>, event_id: u128, driver_id: u128)
    requires
        forall|p: int| 0 <= p < rides.len() ==> (#[trigger] rides[p]).driver_id is None,
    ensures
        assigned_count(rides, event_id, driver_id) == 0,
    decreases rides.len(),
{
    if rides.len() > 0 {
        assert forall|p: int| 0 <= p < rides.drop_last().len() implies (#[trigger] rides.drop_last()[p]).driver_id
            is None by {
            assert(rides[p] == rides.drop_last()[p]);
        }
        lemma_nobody_carries(rides.drop_last(), event_id, driver_id);
        assert(rides.last() == rides[rides.len() - 1]);
    }
}

/// Where no ride has a driver yet and no driver offers fewer than no
/// seats, every driver is within capacity and every ride is with a driver
/// of its own campus.
pub proof fn lemma_unmatched_is_safe(rides: Seq<Ride>, drivers: Seq<Driver>)
    requires
        forall|p: int| 0 <= p < rides.len() ==> (#[trigger] rides[p]).driver_id is None,
        forall|i: int| 0 <= i < drivers.len() ==> (#[trigger] drivers[i]).seats >= 0,
    ensures
        within_capacity(rides, drivers),
        campuses_kept(rides, drivers),
{
    assert forall|i: int| 0 <= i < drivers.len() implies assigned_count(
        rides,
        (#[trigger] drivers[i]).event_id,
        drivers[i].driver_id,
    ) <= drivers[i].seats by {
        lemma_nobody_carries(rides, drivers[i].event_id, drivers[i].driver_id);
    }
}

/// Assignments only give drivers to rides that waited.
pub proof fn lemma_assign_all_only_seats(rides: Seq<Ride>, plan: Seq<Assignment>)
    ensures
        only_seated(rides, assign_all(rides, plan)),
    decreases plan.len(),
{
    if plan.len() > 0 {
        lemma_assign_all_only_seats(rides, plan.drop_last());
    }
}

/// Giving drivers to rides that waited takes no rider from any driver.
pub proof fn lemma_counts_grow(before: Seq<Ride>, after: Seq<Ride>, event_id: u128, driver_id: u128)
    requires
        only_seated(before, after),
    ensures
        assigned_count(before, event_id, driver_id) <= assigned_count(after, event_id, driver_id),
    decreases before.len(),
{
    if before.len() > 0 {
        assert(after.last() == after[after.len() - 1]);
        assert(only_seated(before.drop_last(), after.drop_last())) by {
            assert forall|p: int| 0 <= p < before.len() - 1 implies (#[trigger] after.drop_last()[p])
                == before.drop_last()[p] || (before.drop_last()[p].driver_id is None
                && after.drop_last()[p].driver_id is Some && after.drop_last()[p] == with_driver(
                before.drop_last()[p],
                after.drop_last()[p].driver_id.unwrap(),
            )) by {
                assert(after[p] == after.drop_last()[p]);
            }
        }
        lemma_counts_grow(before.drop_last(), after.drop_last(), event_id, driver_id);
    }
}

/// Giving a waiting ride to a driver adds one rider to that driver for the
/// event of the ride, and changes no other count.
pub proof fn lemma_count_after_assign(
    rides: Seq<Ride>,
    ride: int,
    given_to: u128,
    event_id: u128,
    driver_id: u128,
)
    requires
        0 <= ride < rides.len(),
        rides[ride].driver_id is None,
    ensures
        assigned_count(assign(rides, ride, given_to), event_id, driver_id) == assigned_count(
            rides,
            event_id,
            driver_id,
        ) + if rides[ride].event_id == event_id && given_to == driver_id {
            1nat
        } else {
            0nat
        },
    decreases rides.len(),
{
    let after = assign(rides, ride, given_to);
    if ride == rides.len() - 1 {
        assert(after.drop_last() =~= rides.drop_last());
    } else {
        lemma_count_after_assign(rides.drop_last(), ride, given_to, event_id, driver_id);
        assert(after.drop_last() =~= assign(rides.drop_last(), ride, given_to));
    }
}

/// Where no ride waited before, none waits after drivers were given to
/// waiting rides.
pub proof fn lemma_none_waiting_stays(
    before: Seq<Ride>,
    after: Seq<Ride>,
    event_id: u128,
    campus: Campus,
)
    requires
        before.len() <= usize::MAX,
        only_seated(before, after),
        waiting(before, event_id, campus).len() == 0,
    ensures
        waiting(after, event_id, campus).len() == 0,
{
    let left = waiting(after, event_id, campus);
    if left.len() > 0 {
        lemma_waiting_sorted(after, event_id, campus);
        let p = left[0] as int;
        assert(after[p] == before[p]);
        lemma_waiting_complete(before, event_id, campus, p);
    }
}

/// The drivers of an event on a campus are drivers of the store who drive
/// for that event from that campus.
pub proof fn lemma_campus_drivers_sound(drivers: Seq<Driver>, event_id: u128, campus: Campus)
    ensures
        forall|j: int|
            0 <= j < campus_drivers(drivers, event_id, campus).len() ==> {
                let d = #[trigger] campus_drivers(drivers, event_id, campus)[j];
                drivers.contains(d) && drives_for(d, event_id, campus)
            },
    decreases drivers.len(),
{
    if drivers.len() > 0 {
        lemma_campus_drivers_sound(drivers.drop_last(), event_id, campus);
        let found = campus_drivers(drivers, event_id, campus);
        assert forall|j: int| 0 <= j < found.len() implies drivers.contains(#[trigger] found[j])
            && drives_for(found[j], event_id, campus) by {
            if j < campus_drivers(drivers.drop_last(), event_id, campus).len() {
                let d = campus_drivers(drivers.drop_last(), event_id, campus)[j];
                let i = choose|i: int| 0 <= i < drivers.drop_last().len() && drivers.drop_last()[i] == d;
                assert(drivers[i] == d);
            } else {
                assert(drivers[drivers.len() - 1] == found[j]);
            }
        }
    }
}

/// Every driver of the store who drives for the event from the campus is
/// among the drivers of that event and campus.
pub proof fn lemma_campus_drivers_complete(
    drivers: Seq<Driver>,
    event_id: u128,
    campus: Campus,
    i: int,
)
    requires
        0 <= i < drivers.len(),
        drives_for(drivers[i], event_id, campus),
    ensures
        campus_drivers(drivers, event_id, campus).contains(drivers[i]),
    decreases drivers.len(),
{
    let found = campus_drivers(drivers, event_id, campus);
    if i == drivers.len() - 1 {
        assert(found[found.len() - 1] == drivers[i]);
    } else {
        lemma_campus_drivers_complete(drivers.drop_last(), event_id, campus, i);
        let rest = campus_drivers(drivers.drop_last(), event_id, campus);
        let j = choose|j: int| 0 <= j < rest.len() && rest[j] == drivers.drop_last()[i];
        assert(found[j] == drivers[i]);
    }
}

/// Where no user drives twice for the same event, the drivers of an event
/// on a campus are different users.
pub proof fn lemma_campus_drivers_distinct(drivers: Seq<Driver>, event_id: u128, campus: Campus)
    requires
        distinct_drivers(drivers),
    ensures
        forall|i: int, j: int|
            #![trigger campus_drivers(drivers, event_id, campus)[i], campus_drivers(drivers, event_id, campus)[j]]
            0 <= i < j < campus_drivers(drivers, event_id, campus).len() ==> campus_drivers(
                drivers,
                event_id,
                campus,
            )[i].driver_id != campus_drivers(drivers, event_id, campus)[j].driver_id,
    decreases drivers.len(),
{
    if drivers.len() > 0 {
        let rest = campus_drivers(drivers.drop_last(), event_id, campus);
        let found = campus_drivers(drivers, event_id, campus);
        assert(distinct_drivers(drivers.drop_last())) by {
            assert forall|i: int, j: int|
                #![trigger drivers.drop_last()[i], drivers.drop_last()[j]]
                0 <= i < j < drivers.drop_last().len() implies !(drivers.drop_last()[i].event_id
                == drivers.drop_last()[j].event_id && drivers.drop_last()[i].driver_id
                == drivers.drop_last()[j].driver_id) by {
                assert(drivers[i] == drivers.drop_last()[i]);
                assert(drivers[j] == drivers.drop_last()[j]);
            }
        }
        lemma_campus_drivers_distinct(drivers.drop_last(), event_id, campus);
        lemma_campus_drivers_sound(drivers.drop_last(), event_id, campus);
        assert forall|i: int, j: int|
            #![trigger found[i], found[j]]
            0 <= i < j < found.len() implies found[i].driver_id != found[j].driver_id by {
            if j == rest.len() {
                let d = rest[i];
                let t = choose|t: int| 0 <= t < drivers.drop_last().len() && drivers.drop_last()[t] == d;
                assert(drivers[t] == d);
                assert(drivers[drivers.len() - 1] == found[j]);
            } else {
                assert(rest[i] == found[i]);
                assert(rest[j] == found[j]);
            }
        }
    }
}

/// The riders that the first `k` assignments of a pass bring to a driver of
/// the pool: at least the seats of that driver that the first `k` riders
/// take, and exactly these where the drivers of the pool are different
/// users.
pub proof fn lemma_pass_counts(
    rides: Seq<Ride>,
    drivers: Seq<Driver>,
    event_id: u128,
    campus: Campus,
    k: int,
    j: int,
)
    requires
        rides.len() <= usize::MAX,
        0 <= k <= seated(rides, drivers, event_id, campus),
        0 <= j < campus_drivers(drivers, event_id, campus).len(),
    ensures
        ({
            let seats = pool(rides, drivers, event_id, campus);
            let now = assign_all(rides, pass_plan(rides, drivers, event_id, campus).take(k));
            let user = seats[j].0.driver_id;
            &&& assigned_count(now, event_id, user) >= assigned_count(rides, event_id, user) + load(
                seats,
                j,
                k,
            )
            &&& distinct_drivers(drivers) ==> assigned_count(now, event_id, user) == assigned_count(
                rides,
                event_id,
                user,
            ) + load(seats, j, k)
        }),
    decreases k,
{
    let ids = waiting(rides, event_id, campus);
    let seats = pool(rides, drivers, event_id, campus);
    let plan = pass_plan(rides, drivers, event_id, campus);
    let user = seats[j].0.driver_id;
    if k == 0 {
        assert(plan.take(0) =~= Seq::<Assignment>::empty());
    } else {
        lemma_pass_counts(rides, drivers, event_id, campus, k - 1, j);
        lemma_pass_shape(rides, drivers, event_id, campus, k - 1);
        lemma_waiting_sorted(rides, event_id, campus);
        lemma_seat_has_owner(seats, k - 1, seats.len() as int);
        let owner = seat_owner(seats, k - 1);
        lemma_load_step(seats, owner, j, k - 1);
        let before = assign_all(rides, plan.take(k - 1));
        assert(plan.take(k).drop_last() =~= plan.take(k - 1));
        assert(plan.take(k).last() == plan[k - 1]);
        assert(before[ids[k - 1] as int] == rides[ids[k - 1] as int]);
        lemma_count_after_assign(before, ids[k - 1] as int, plan[k - 1].driver_id, event_id, user);
        if distinct_drivers(drivers) && owner != j {
            lemma_campus_drivers_distinct(drivers, event_id, campus);
            let found = campus_drivers(drivers, event_id, campus);
            assert(found[owner].driver_id != found[j].driver_id);
        }
    }
}

/// The first `k` assignments of a pass bring no rider to anyone who is not
/// a driver of the pool.
pub proof fn lemma_pass_other_counts(
    rides: Seq<Ride>,
    drivers: Seq<Driver>,
    event_id: u128,
    campus: Campus,
    k: int,
    other_event: u128,
    other_user: u128,
)
    requires
        rides.len() <= usize::MAX,
        0 <= k <= seated(rides, drivers, event_id, campus),
        other_event != event_id || forall|j: int|
            0 <= j < campus_drivers(drivers, event_id, campus).len() ==> (#[trigger] campus_drivers(
                drivers,
                event_id,
                campus,
            )[j]).driver_id != other_user,
    ensures
        assigned_count(
            assign_all(rides, pass_plan(rides, drivers, event_id, campus).take(k)),
            other_event,
            other_user,
        ) == assigned_count(rides, other_event, other_user),
    decreases k,
{
    let ids = waiting(rides, event_id, campus);
    let seats = pool(rides, drivers, event_id, campus);
    let plan = pass_plan(rides, drivers, event_id, campus);
    if k == 0 {
        assert(plan.take(0) =~= Seq::<Assignment>::empty());
    } else {
        lemma_pass_other_counts(rides, drivers, event_id, campus, k - 1, other_event, other_user);
        lemma_pass_shape(rides, drivers, event_id, campus, k - 1);
        lemma_waiting_sorted(rides, event_id, campus);
        lemma_seat_has_owner(seats, k - 1, seats.len() as int);
        let owner = seat_owner(seats, k - 1);
        let before = assign_all(rides, plan.take(k - 1));
        assert(plan.take(k).drop_last() =~= plan.take(k - 1));
        assert(plan.take(k).last() == plan[k - 1]);
        assert(before[ids[k - 1] as int] == rides[ids[k - 1] as int]);
        lemma_count_after_assign(
            before,
            ids[k - 1] as int,
            plan[k - 1].driver_id,
            other_event,
            other_user,
        );
        assert(campus_drivers(drivers, event_id, campus)[owner].driver_id == plan[k - 1].driver_id);
    }
}

/// One pass keeps every driver within capacity.
pub proof fn lemma_pass_keeps_capacity(
    rides: Seq<Ride>,
    drivers: Seq<Driver>,
    event_id: u128,
    campus: Campus,
)
    requires
        rides.len() <= usize::MAX,
        distinct_drivers(drivers),
        within_capacity(rides, drivers),
    ensures
        within_capacity(
            assign_all(rides, pass_plan(rides, drivers, event_id, campus)),
            drivers,
        ),
{
    let plan = pass_plan(rides, drivers, event_id, campus);
    let seats = pool(rides, drivers, event_id, campus);
    let found = campus_drivers(drivers, event_id, campus);
    let after = assign_all(rides, plan);
    let m = plan.len() as int;
    assert(plan.take(m) =~= plan);
    assert forall|i: int| 0 <= i < drivers.len() implies assigned_count(
        after,
        (#[trigger] drivers[i]).event_id,
        drivers[i].driver_id,
    ) <= drivers[i].seats by {
        let d = drivers[i];
        if drives_for(d, event_id, campus) {
            lemma_campus_drivers_complete(drivers, event_id, campus, i);
            let j = choose|j: int| 0 <= j < found.len() && found[j] == d;
            lemma_pass_counts(rides, drivers, event_id, campus, m, j);
            assert(seats[j].0 == d);
        } else {
            if d.event_id == event_id {
                lemma_campus_drivers_sound(drivers, event_id, campus);
                assert forall|j: int| 0 <= j < found.len() implies (#[trigger] found[j]).driver_id
                    != d.driver_id by {
                    let t = choose|t: int| 0 <= t < drivers.len() && drivers[t] == found[j];
                    if t < i {
                        assert(!(drivers[t].event_id == drivers[i].event_id && drivers[t].driver_id
                            == drivers[i].driver_id));
                    } else if i < t {
                        assert(!(drivers[i].event_id == drivers[t].event_id && drivers[i].driver_id
                            == drivers[t].driver_id));
                    }
                }
            }
            lemma_pass_other_counts(rides, drivers, event_id, campus, m, d.event_id, d.driver_id);
        }
    }
}

/// One pass gives no ride to a driver of another campus.
pub proof fn lemma_pass_keeps_campuses(
    rides: Seq<Ride>,
    drivers: Seq<Driver>,
    event_id: u128,
    campus: Campus,
)
    requires
        rides.len() <= usize::MAX,
        distinct_drivers(drivers),
        campuses_kept(rides, drivers),
    ensures
        campuses_kept(assign_all(rides, pass_plan(rides, drivers, event_id, campus)), drivers),
{
    let ids = waiting(rides, event_id, campus);
    let plan = pass_plan(rides, drivers, event_id, campus);
    let seats = pool(rides, drivers, event_id, campus);
    let found = campus_drivers(drivers, event_id, campus);
    let after = assign_all(rides, plan);
    let m = plan.len() as int;
    assert(plan.take(m) =~= plan);
    lemma_pass_shape(rides, drivers, event_id, campus, m);
    lemma_campus_drivers_sound(drivers, event_id, campus);
    assert forall|p: int, i: int|
        #![trigger after[p], drivers[i]]
        0 <= p < after.len() && 0 <= i < drivers.len() && is_carried(
            after[p],
            drivers[i].event_id,
            drivers[i].driver_id,
        ) implies after[p].campus == drivers[i].campus by {
        if after[p] == rides[p] {
            assert(rides[p].campus == drivers[i].campus);
        } else {
            lemma_waiting_complete(rides, event_id, campus, p);
            let t = choose|t: int| 0 <= t < ids.len() && ids[t] == p;
            assert(t < m);
            lemma_seat_has_owner(seats, t, seats.len() as int);
            let owner = seat_owner(seats, t);
            let d = found[owner];
            assert(after[p] == with_driver(rides[p], d.driver_id));
            let s = choose|s: int| 0 <= s < drivers.len() && drivers[s] == d;
            if s < i {
                assert(!(drivers[s].event_id == drivers[i].event_id && drivers[s].driver_id
                    == drivers[i].driver_id));
            } else if i < s {
                assert(!(drivers[i].event_id == drivers[s].event_id && drivers[i].driver_id
                    == drivers[s].driver_id));
            }
        }
    }
}

/// Priority: a pass serves the riders in the order in which they
/// registered. Where a waiting ride gets a driver, so does every ride that
/// waited before it for the same event on the same campus, and the driver
/// of the earlier ride comes no later among the drivers than that of the
/// later ride.
pub proof fn lemma_pass_serves_in_order(
    rides: Seq<Ride>,
    drivers: Seq<Driver>,
    event_id: u128,
    campus: Campus,
    i: int,
    j: int,
)
    requires
        rides.len() <= usize::MAX,
        0 <= i < j < waiting(rides, event_id, campus).len(),
        after_pass(rides, drivers, event_id, campus)[waiting(rides, event_id, campus)[j] as int].driver_id
            is Some,
    ensures
        ({
            let ids = waiting(rides, event_id, campus);
            let seats = pool(rides, drivers, event_id, campus);
            let after = after_pass(rides, drivers, event_id, campus);
            &&& j < seated(rides, drivers, event_id, campus)
            &&& after[ids[i] as int].driver_id == Some(seats[seat_owner(seats, i)].0.driver_id)
            &&& after[ids[j] as int].driver_id == Some(seats[seat_owner(seats, j)].0.driver_id)
            &&& 0 <= seat_owner(seats, i) <= seat_owner(seats, j) < seats.len()
        }),
{
    let ids = waiting(rides, event_id, campus);
    let seats = pool(rides, drivers, event_id, campus);
    let plan = pass_plan(rides, drivers, event_id, campus);
    let m = plan.len() as int;
    assert(plan.take(m) =~= plan);
    lemma_pass_shape(rides, drivers, event_id, campus, m);
    lemma_waiting_sorted(rides, event_id, campus);
    assert(j < m) by {
        if j >= m {
            assert(assign_all(rides, plan)[ids[j] as int] == rides[ids[j] as int]);
        }
    }
    lemma_seat_has_owner(seats, i, seats.len() as int);
    lemma_seat_has_owner(seats, j, seats.len() as int);
    lemma_owners_rise(seats, seat_owner(seats, i), i, seat_owner(seats, j), j);
    assert(assign_all(rides, plan)[ids[i] as int] == with_driver(
        rides[ids[i] as int],
        plan[i].driver_id,
    ));
    assert(assign_all(rides, plan)[ids[j] as int] == with_driver(
        rides[ids[j] as int],
        plan[j].driver_id,
    ));
}

/// Where no driver of the pool has a free seat, the pool has no free seat.
pub proof fn lemma_no_free_seats(seats: Seq<(Driver, i64)>, n: int)
    requires
        0 <= n <= seats.len(),
        forall|j: int| 0 <= j < seats.len() ==> free_seats(#[trigger] seats[j]) == 0,
    ensures
        free_before(seats, n) == 0,
    decreases n,
{
    if n > 0 {
        lemma_no_free_seats(seats, n - 1);
    }
}

/// After a pass over an event and a campus, no rider waits there or no
/// driver there has a free seat.
pub proof fn lemma_pass_leaves_quiet(
    rides: Seq<Ride>,
    drivers: Seq<Driver>,
    event_id: u128,
    campus: Campus,
)
    requires
        rides.len() <= usize::MAX,
    ensures
        quiet(assign_all(rides, pass_plan(rides, drivers, event_id, campus)), drivers, event_id, campus),
{
    let ids = waiting(rides, event_id, campus);
    let plan = pass_plan(rides, drivers, event_id, campus);
    let seats = pool(rides, drivers, event_id, campus);
    let after = assign_all(rides, plan);
    let m = plan.len() as int;
    assert(plan.take(m) =~= plan);
    lemma_pass_shape(rides, drivers, event_id, campus, m);
    if m == ids.len() {
        let left = waiting(after, event_id, campus);
        if left.len() > 0 {
            lemma_waiting_sorted(after, event_id, campus);
            let p = left[0] as int;
            if is_waiting(rides[p], event_id, campus) {
                lemma_waiting_complete(rides, event_id, campus, p);
                let t = choose|t: int| 0 <= t < ids.len() && ids[t] == p;
                assert(after[ids[t] as int].driver_id is Some);
            }
        }
    } else {
        let seats_after = pool(after, drivers, event_id, campus);
        assert forall|j: int| 0 <= j < seats_after.len() implies free_seats(
            #[trigger] seats_after[j],
        ) == 0 by {
            lemma_pass_counts(rides, drivers, event_id, campus, m, j);
            lemma_free_before_monotonic(seats, j + 1, seats.len() as int);
        }
        lemma_no_free_seats(seats_after, seats_after.len() as int);
    }
}

/// Where a pass over an event and a campus would seat nobody, it still
/// would after drivers were given to waiting rides.
pub proof fn lemma_quiet_stays(
    before: Seq<Ride>,
    after: Seq<Ride>,
    drivers: Seq<Driver>,
    event_id: u128,
    campus: Campus,
)
    requires
        before.len() <= usize::MAX,
        only_seated(before, after),
        quiet(before, drivers, event_id, campus),
    ensures
        quiet(after, drivers, event_id, campus),
{
    if waiting(before, event_id, campus).len() == 0 {
        lemma_none_waiting_stays(before, after, event_id, campus);
    } else {
        let seats = pool(before, drivers, event_id, campus);
        let seats_after = pool(after, drivers, event_id, campus);
        assert forall|j: int| 0 <= j < seats_after.len() implies free_seats(
            #[trigger] seats_after[j],
        ) == 0 by {
            lemma_counts_grow(before, after, event_id, seats[j].0.driver_id);
            lemma_free_before_monotonic(seats, j + 1, seats.len() as int);
            assert(free_seats(seats[j]) == 0);
        }
        lemma_no_free_seats(seats_after, seats_after.len() as int);
    }
}

/// The rides after a run has gone through the first `n` events.
pub open spec fn after_events(rides: Seq<Ride>, drivers: Seq<Driver>, events: Seq<Event>, n: int) -> Seq<
    Ride,
> {
    assign_all(rides, run_plan(rides, drivers, events, n))
}

/// The rides after a pass over the event and the campus.
pub open spec fn after_pass(rides: Seq<Ride>, drivers: Seq<Driver>, event_id: u128, campus: Campus) -> Seq<
    Ride,
> {
    assign_all(rides, pass_plan(rides, drivers, event_id, campus))
}

/// The rides after `times` matching runs, one after the other.
pub open spec fn after_runs(rides: Seq<Ride>, drivers: Seq<Driver>, events: Seq<Event>, times: nat) -> Seq<
    Ride,
>
    decreases times,
{
    if times == 0 {
        rides
    } else {
        matched(after_runs(rides, drivers, events, (times - 1) as nat), drivers, events)
    }
}

/// A run goes through an event by a pass over RIT and then a pass over the
/// University of Rochester, on the rides as the events before left them.
pub proof fn lemma_run_step(rides: Seq<Ride>, drivers: Seq<Driver>, events: Seq<Event>, n: int)
    requires
        1 <= n <= events.len(),
    ensures
        after_events(rides, drivers, events, n) == after_pass(
            after_pass(
                after_events(rides, drivers, events, n - 1),
                drivers,
                events[n - 1].id,
                Campus::RIT,
            ),
            drivers,
            events[n - 1].id,
            Campus::UofR,
        ),
        after_events(rides, drivers, events, n).len() == rides.len(),
        after_events(rides, drivers, events, n - 1).len() == rides.len(),
        after_pass(after_events(rides, drivers, events, n - 1), drivers, events[n - 1].id, Campus::RIT).len()
            == rides.len(),
{
    let before = run_plan(rides, drivers, events, n - 1);
    let start = assign_all(rides, before);
    let first = pass_plan(start, drivers, events[n - 1].id, Campus::RIT);
    let middle = assign_all(start, first);
    let second = pass_plan(middle, drivers, events[n - 1].id, Campus::UofR);
    lemma_assign_all_joined(rides, before, first + second);
    lemma_assign_all_joined(start, first, second);
    lemma_assign_all_keeps(rides, before);
    lemma_assign_all_keeps(start, first);
    lemma_assign_all_keeps(middle, second);
}

/// A run keeps every driver within capacity, however far it has gone.
proof fn lemma_events_keep_capacity(rides: Seq<Ride>, drivers: Seq<Driver>, events: Seq<Event>, n: int)
    requires
        rides.len() <= usize::MAX,
        distinct_drivers(drivers),
        within_capacity(rides, drivers),
        0 <= n <= events.len(),
    ensures
        within_capacity(after_events(rides, drivers, events, n), drivers),
    decreases n,
{
    if n > 0 {
        lemma_events_keep_capacity(rides, drivers, events, n - 1);
        lemma_run_step(rides, drivers, events, n);
        let start = after_events(rides, drivers, events, n - 1);
        let middle = after_pass(start, drivers, events[n - 1].id, Campus::RIT);
        lemma_pass_keeps_capacity(start, drivers, events[n - 1].id, Campus::RIT);
        lemma_pass_keeps_capacity(middle, drivers, events[n - 1].id, Campus::UofR);
    }
}

/// Capacity safety: where no user drives twice for the same event and no
/// driver has more riders than seats, no driver has more riders than seats
/// after a matching run.
pub proof fn lemma_matching_keeps_capacity(rides: Seq<Ride>, drivers: Seq<Driver>, events: Seq<Event>)
    requires
        rides.len() <= usize::MAX,
        distinct_drivers(drivers),
        within_capacity(rides, drivers),
    ensures
        within_capacity(matched(rides, drivers, events), drivers),
{
    lemma_events_keep_capacity(rides, drivers, events, events.len() as int);
}

/// Capacity safety over time: the same holds after any number of matching
/// runs.
pub proof fn lemma_runs_keep_capacity(
    rides: Seq<Ride>,
    drivers: Seq<Driver>,
    events: Seq<Event>,
    times: nat,
)
    requires
        rides.len() <= usize::MAX,
        distinct_drivers(drivers),
        within_capacity(rides, drivers),
    ensures
        within_capacity(after_runs(rides, drivers, events, times), drivers),
        after_runs(rides, drivers, events, times).len() == rides.len(),
    decreases times,
{
    if times > 0 {
        lemma_runs_keep_capacity(rides, drivers, events, (times - 1) as nat);
        let before = after_runs(rides, drivers, events, (times - 1) as nat);
        lemma_matching_keeps_capacity(before, drivers, events);
        lemma_assign_all_keeps(before, run_plan(before, drivers, events, events.len() as int));
    }
}

/// Campus isolation over time: the same holds after any number of
/// matching runs.
pub proof fn lemma_runs_keep_campuses(
    rides: Seq<Ride>,
    drivers: Seq<Driver>,
    events: Seq<Event>,
    times: nat,
)
    requires
        rides.len() <= usize::MAX,
        distinct_drivers(drivers),
        campuses_kept(rides, drivers),
    ensures
        campuses_kept(after_runs(rides, drivers, events, times), drivers),
        after_runs(rides, drivers, events, times).len() == rides.len(),
    decreases times,
{
    if times > 0 {
        lemma_runs_keep_campuses(rides, drivers, events, (times - 1) as nat);
        let before = after_runs(rides, drivers, events, (times - 1) as nat);
        lemma_matching_keeps_campuses(before, drivers, events);
        lemma_assign_all_keeps(before, run_plan(before, drivers, events, events.len() as int));
    }
}

/// A run gives no ride to a driver of another campus, however far it has
/// gone.
proof fn lemma_events_keep_campuses(rides: Seq<Ride>, drivers: Seq<Driver>, events: Seq<Event>, n: int)
    requires
        rides.len() <= usize::MAX,
        distinct_drivers(drivers),
        campuses_kept(rides, drivers),
        0 <= n <= events.len(),
    ensures
        campuses_kept(after_events(rides, drivers, events, n), drivers),
    decreases n,
{
    if n > 0 {
        lemma_events_keep_campuses(rides, drivers, events, n - 1);
        lemma_run_step(rides, drivers, events, n);
        let start = after_events(rides, drivers, events, n - 1);
        let middle = after_pass(start, drivers, events[n - 1].id, Campus::RIT);
        lemma_pass_keeps_campuses(start, drivers, events[n - 1].id, Campus::RIT);
        lemma_pass_keeps_campuses(middle, drivers, events[n - 1].id, Campus::UofR);
    }
}

/// Campus isolation: where no user drives twice for the same event and
/// every ride is with a driver of its own campus, every ride is with a
/// driver of its own campus after a matching run.
pub proof fn lemma_matching_keeps_campuses(rides: Seq<Ride>, drivers: Seq<Driver>, events: Seq<Event>)
    requires
        rides.len() <= usize::MAX,
        distinct_drivers(drivers),
        campuses_kept(rides, drivers),
    ensures
        campuses_kept(matched(rides, drivers, events), drivers),
{
    lemma_events_keep_campuses(rides, drivers, events, events.len() as int);
}

/// A ride that has a driver is never looked at again: a matching run gives
/// drivers to rides that waited and changes nothing else.
pub proof fn lemma_matching_only_seats_waiting(
    rides: Seq<Ride>,
    drivers: Seq<Driver>,
    events: Seq<Event>,
)
    ensures
        only_seated(rides, matched(rides, drivers, events)),
{
    lemma_assign_all_only_seats(rides, run_plan(rides, drivers, events, events.len() as int));
}

/// After a run has gone through the first `n` events, a pass over any of
/// them, on either campus, would seat nobody.
proof fn lemma_events_leave_quiet(
    rides: Seq<Ride>,
    drivers: Seq<Driver>,
    events: Seq<Event>,
    n: int,
    i: int,
    campus: Campus,
)
    requires
        rides.len() <= usize::MAX,
        0 <= i < n <= events.len(),
    ensures
        quiet(after_events(rides, drivers, events, n), drivers, events[i].id, campus),
    decreases n,
{
    lemma_run_step(rides, drivers, events, n);
    let start = after_events(rides, drivers, events, n - 1);
    let e = events[n - 1].id;
    let middle = after_pass(start, drivers, e, Campus::RIT);
    let end = after_pass(middle, drivers, e, Campus::UofR);
    lemma_assign_all_only_seats(start, pass_plan(start, drivers, e, Campus::RIT));
    lemma_assign_all_only_seats(middle, pass_plan(middle, drivers, e, Campus::UofR));
    if i < n - 1 {
        lemma_events_leave_quiet(rides, drivers, events, n - 1, i, campus);
        lemma_quiet_stays(start, middle, drivers, events[i].id, campus);
        lemma_quiet_stays(middle, end, drivers, events[i].id, campus);
    } else if campus == Campus::RIT {
        lemma_pass_leaves_quiet(start, drivers, e, Campus::RIT);
        lemma_quiet_stays(middle, end, drivers, e, Campus::RIT);
    } else {
        lemma_pass_leaves_quiet(middle, drivers, e, Campus::UofR);
    }
}

/// Where a pass over any of the events, on either campus, would seat
/// nobody, a run makes no assignment.
proof fn lemma_quiet_run_is_empty(rides: Seq<Ride>, drivers: Seq<Driver>, events: Seq<Event>, n: int)
    requires
        0 <= n <= events.len(),
        forall|i: int, campus: Campus|
            0 <= i < events.len() ==> #[trigger] quiet(rides, drivers, events[i].id, campus),
    ensures
        run_plan(rides, drivers, events, n) == Seq::<Assignment>::empty(),
    decreases n,
{
    if n > 0 {
        lemma_quiet_run_is_empty(rides, drivers, events, n - 1);
        let e = events[n - 1].id;
        assert(quiet(rides, drivers, e, Campus::RIT));
        assert(quiet(rides, drivers, e, Campus::UofR));
        assert(pass_plan(rides, drivers, e, Campus::RIT) =~= Seq::<Assignment>::empty());
        assert(pass_plan(rides, drivers, e, Campus::UofR) =~= Seq::<Assignment>::empty());
        assert(run_plan(rides, drivers, events, n) =~= Seq::<Assignment>::empty());
    }
}

/// Stability: a matching run that follows another, with no ride, driver or
/// event added in between, makes no assignment and leaves the rides as they
/// are.
pub proof fn lemma_matching_is_stable(rides: Seq<Ride>, drivers: Seq<Driver>, events: Seq<Event>)
    requires
        rides.len() <= usize::MAX,
    ensures
        run_plan(matched(rides, drivers, events), drivers, events, events.len() as int)
            == Seq::<Assignment>::empty(),
        matched(matched(rides, drivers, events), drivers, events) == matched(rides, drivers, events),
{
    let once = matched(rides, drivers, events);
    assert forall|i: int, campus: Campus| 0 <= i < events.len() implies #[trigger] quiet(
        once,
        drivers,
        events[i].id,
        campus,
    ) by {
        lemma_events_leave_quiet(rides, drivers, events, events.len() as int, i, campus);
    }
    lemma_quiet_run_is_empty(once, drivers, events, events.len() as int);
}

/// Every assignment of a run is for one of the events of the store.
pub proof fn lemma_run_plan_events(
    rides: Seq<Ride>,
    drivers: Seq<Driver>,
    events: Seq<Event>,
    n: int,
    k: int,
)
    requires
        0 <= n <= events.len(),
        0 <= k < run_plan(rides, drivers, events, n).len(),
    ensures
        exists|i: int| 0 <= i < n && (#[trigger] events[i]).id == run_plan(rides, drivers, events, n)[k].event_id,
    decreases n,
{
    let before = run_plan(rides, drivers, events, n - 1);
    if k < before.len() {
        lemma_run_plan_events(rides, drivers, events, n - 1, k);
        let i = choose|i: int| 0 <= i < n - 1 && (#[trigger] events[i]).id == before[k].event_id;
        assert(events[i].id == run_plan(rides, drivers, events, n)[k].event_id);
    } else {
        assert(events[n - 1].id == run_plan(rides, drivers, events, n)[k].event_id);
    }
}

/// Stability over time: however many matching runs follow one another, the
/// rides are as the first run left them.
pub proof fn lemma_runs_are_stable(rides: Seq<Ride>, drivers: Seq<Driver>, events: Seq<Event>, times: nat)
    requires
        rides.len() <= usize::MAX,
        times >= 1,
    ensures
        after_runs(rides, drivers, events, times) == matched(rides, drivers, events),
    decreases times,
{
    if times > 1 {
        lemma_runs_are_stable(rides, drivers, events, (times - 1) as nat);
        lemma_matching_is_stable(rides, drivers, events);
    } else {
        assert(after_runs(rides, drivers, events, 0) == rides);
    }
}

/// The ids of the old events are the ids that an old event carries.
pub proof fn lemma_old_event_ids(events: Seq<Event>, now: i64, id: u128)
    ensures
        old_event_ids(events, now).contains(id) <==> exists|i: int|
            0 <= i < events.len() && is_old(#[trigger] events[i], now) && events[i].id == id,
{
    let old = events.filter(old_events(now));
    let ids = old_event_ids(events, now);
    if ids.contains(id) {
        let j = choose|j: int| 0 <= j < ids.len() && ids[j] == id;
        events.lemma_filter_pred(old_events(now), j);
        events.lemma_filter_contains_rev(old_events(now), old[j]);
        let i = choose|i: int| 0 <= i < events.len() && events[i] == old[j];
        assert(is_old(events[i], now) && events[i].id == id);
    }
    if exists|i: int| 0 <= i < events.len() && is_old(#[trigger] events[i], now) && events[i].id == id {
        let i = choose|i: int|
            0 <= i < events.len() && is_old(#[trigger] events[i], now) && events[i].id == id;
        events.lemma_filter_contains(old_events(now), i);
        let j = choose|j: int| 0 <= j < old.len() && old[j] == events[i];
        assert(ids[j] == id);
    }
}

/// Reaping cascades: once the old events are deleted, no event that is left
/// is old, and no event, driver or ride that is left carries the id of an
/// old event.
pub proof fn lemma_reaping_cascades(
    events: Seq<Event>,
    drivers: Seq<Driver>,
    rides: Seq<Ride>,
    now: i64,
)
    ensures
        ({
            let gone = old_event_ids(events, now);
            &&& forall|i: int|
                0 <= i < events.filter(events_outside(gone)).len() ==> {
                    let e = #[trigger] events.filter(events_outside(gone))[i];
                    !is_old(e, now) && !gone.contains(e.id)
                }
            &&& forall|i: int|
                0 <= i < drivers.filter(drivers_outside(gone)).len() ==> !gone.contains(
                    (#[trigger] drivers.filter(drivers_outside(gone))[i]).event_id,
                )
            &&& forall|i: int|
                0 <= i < rides.filter(rides_outside(gone)).len() ==> !gone.contains(
                    (#[trigger] rides.filter(rides_outside(gone))[i]).event_id,
                )
        }),
{
    let gone = old_event_ids(events, now);
    let left = events.filter(events_outside(gone));
    assert forall|i: int| 0 <= i < left.len() implies !is_old(#[trigger] left[i], now)
        && !gone.contains(left[i].id) by {
        events.lemma_filter_pred(events_outside(gone), i);
        events.lemma_filter_contains_rev(events_outside(gone), left[i]);
        lemma_old_event_ids(events, now, left[i].id);
    }
    assert forall|i: int| 0 <= i < drivers.filter(drivers_outside(gone)).len() implies !gone.contains(
        (#[trigger] drivers.filter(drivers_outside(gone))[i]).event_id,
    ) by {
        drivers.lemma_filter_pred(drivers_outside(gone), i);
    }
    assert forall|i: int| 0 <= i < rides.filter(rides_outside(gone)).len() implies !gone.contains(
        (#[trigger] rides.filter(rides_outside(gone))[i]).event_id,
    ) by {
        rides.lemma_filter_pred(rides_outside(gone), i);
    }
}

/// Reaping spares the rest: an event whose id no old event carries stays,
/// and so does every driver and every ride of such an event.
pub proof fn lemma_reaping_spares(
    events: Seq<Event>,
    drivers: Seq<Driver>,
    rides: Seq<Ride>,
    now: i64,
    id: u128,
)
    requires
        forall|i: int| 0 <= i < events.len() && (#[trigger] events[i]).id == id ==> !is_old(events[i], now),
    ensures
        ({
            let gone = old_event_ids(events, now);
            &&& forall|i: int|
                0 <= i < events.len() && (#[trigger] events[i]).id == id ==> events.filter(
                    events_outside(gone),
                ).contains(events[i])
            &&& forall|i: int|
                0 <= i < drivers.len() && (#[trigger] drivers[i]).event_id == id ==> drivers.filter(
                    drivers_outside(gone),
                ).contains(drivers[i])
            &&& forall|i: int|
                0 <= i < rides.len() && (#[trigger] rides[i]).event_id == id ==> rides.filter(
                    rides_outside(gone),
                ).contains(rides[i])
        }),
{
    let gone = old_event_ids(events, now);
    lemma_old_event_ids(events, now, id);
    assert forall|i: int| 0 <= i < events.len() && (#[trigger] events[i]).id == id implies events.filter(
        events_outside(gone),
    ).contains(events[i]) by {
        events.lemma_filter_contains(events_outside(gone), i);
    }
    assert forall|i: int|
        0 <= i < drivers.len() && (#[trigger] drivers[i]).event_id == id implies drivers.filter(
        drivers_outside(gone),
    ).contains(drivers[i]) by {
        drivers.lemma_filter_contains(drivers_outside(gone), i);
    }
    assert forall|i: int| 0 <= i < rides.len() && (#[trigger] rides[i]).event_id == id implies rides.filter(
        rides_outside(gone),
    ).contains(rides[i]) by {
        rides.lemma_filter_contains(rides_outside(gone), i);
    }
}

/// Deleting the rides of some events takes no rider from the drivers of
/// the other events.
pub proof fn lemma_count_outside(rides: Seq<Ride>, gone: Seq<u128>, event_id: u128, driver_id: u128)
    requires
        !gone.contains(event_id),
    ensures
        assigned_count(rides.filter(rides_outside(gone)), event_id, driver_id) == assigned_count(
            rides,
            event_id,
            driver_id,
        ),
    decreases rides.len(),
{
    reveal(Seq::filter);
    if rides.len() > 0 {
        lemma_count_outside(rides.drop_last(), gone, event_id, driver_id);
        let left = rides.drop_last().filter(rides_outside(gone));
        if rides_outside(gone)(rides.last()) {
            assert(left.push(rides.last()).drop_last() =~= left);
        }
    }
}

/// Where no user drives twice for the same event, that is so among the
/// drivers that are left when events are deleted.
pub proof fn lemma_drivers_outside_distinct(drivers: Seq<Driver>, gone: Seq<u128>)
    requires
        distinct_drivers(drivers),
    ensures
        distinct_drivers(drivers.filter(drivers_outside(gone))),
    decreases drivers.len(),
{
    reveal(Seq::filter);
    if drivers.len() > 0 {
        let rest = drivers.drop_last();
        let left = rest.filter(drivers_outside(gone));
        let all = drivers.filter(drivers_outside(gone));
        assert(distinct_drivers(rest)) by {
            assert forall|i: int, j: int|
                #![trigger rest[i], rest[j]]
                0 <= i < j < rest.len() implies !(rest[i].event_id == rest[j].event_id
                && rest[i].driver_id == rest[j].driver_id) by {
                assert(drivers[i] == rest[i]);
                assert(drivers[j] == rest[j]);
            }
        }
        lemma_drivers_outside_distinct(rest, gone);
        assert forall|i: int, j: int|
            #![trigger all[i], all[j]]
            0 <= i < j < all.len() implies !(all[i].event_id == all[j].event_id && all[i].driver_id
            == all[j].driver_id) by {
            if j == left.len() {
                assert(left.contains(left[i]));
                rest.lemma_filter_contains_rev(drivers_outside(gone), left[i]);
                let t = choose|t: int| 0 <= t < rest.len() && rest[t] == left[i];
                assert(drivers[t] == all[i]);
                assert(drivers[drivers.len() - 1] == all[j]);
            } else {
                assert(left[i] == all[i]);
                assert(left[j] == all[j]);
            }
        }
    }
}

/// Reaping keeps what matching keeps: where no user drives twice for the
/// same event, no driver has more riders than seats and every ride is with
/// a driver of its own campus, all of this is so after the old events were
/// deleted with their drivers and rides.
pub proof fn lemma_reaping_keeps_safety(
    events: Seq<Event>,
    drivers: Seq<Driver>,
    rides: Seq<Ride>,
    now: i64,
)
    requires
        distinct_drivers(drivers),
    ensures
        ({
            let gone = old_event_ids(events, now);
            let drivers_left = drivers.filter(drivers_outside(gone));
            let rides_left = rides.filter(rides_outside(gone));
            &&& distinct_drivers(drivers_left)
            &&& within_capacity(rides, drivers) ==> within_capacity(rides_left, drivers_left)
            &&& campuses_kept(rides, drivers) ==> campuses_kept(rides_left, drivers_left)
            &&& rides_left.len() <= rides.len()
        }),
{
    let gone = old_event_ids(events, now);
    let drivers_left = drivers.filter(drivers_outside(gone));
    let rides_left = rides.filter(rides_outside(gone));
    lemma_drivers_outside_distinct(drivers, gone);
    rides.lemma_filter_len(rides_outside(gone));
    if within_capacity(rides, drivers) {
        assert forall|i: int| 0 <= i < drivers_left.len() implies assigned_count(
            rides_left,
            (#[trigger] drivers_left[i]).event_id,
            drivers_left[i].driver_id,
        ) <= drivers_left[i].seats by {
            let d = drivers_left[i];
            drivers.lemma_filter_pred(drivers_outside(gone), i);
            assert(drivers_left.contains(d));
            drivers.lemma_filter_contains_rev(drivers_outside(gone), d);
            let t = choose|t: int| 0 <= t < drivers.len() && drivers[t] == d;
            assert(assigned_count(rides, drivers[t].event_id, drivers[t].driver_id)
                <= drivers[t].seats);
            lemma_count_outside(rides, gone, d.event_id, d.driver_id);
        }
    }
    if campuses_kept(rides, drivers) {
        assert forall|p: int, i: int|
            #![trigger rides_left[p], drivers_left[i]]
            0 <= p < rides_left.len() && 0 <= i < drivers_left.len() && is_carried(
                rides_left[p],
                drivers_left[i].event_id,
                drivers_left[i].driver_id,
            ) implies rides_left[p].campus == drivers_left[i].campus by {
            assert(drivers_left.contains(drivers_left[i]));
            drivers.lemma_filter_contains_rev(drivers_outside(gone), drivers_left[i]);
            let t = choose|t: int| 0 <= t < drivers.len() && drivers[t] == drivers_left[i];
            assert(rides_left.contains(rides_left[p]));
            rides.lemma_filter_contains_rev(rides_outside(gone), rides_left[p]);
            let q = choose|q: int| 0 <= q < rides.len() && rides[q] == rides_left[p];
            assert(rides[q].campus == drivers[t].campus);
        }
    }
}

} // verus!
