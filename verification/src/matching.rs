//! First-fit seating: waiting riders, in the order in which they registered,
//! take the free seats of the drivers, in the order in which the drivers
//! registered.

use vstd::prelude::*;
use crate::models::Driver;

verus! {

/// The seats that a driver with `seats` seats has left when `taken` of them
/// are taken. A driver at or over capacity has none.
pub open spec fn seats_left(seats: int, taken: int) -> nat {
    if seats > taken {
        (seats - taken) as nat
    } else {
        0
    }
}

/// The free seats of a driver who comes with the number of riders already
/// assigned to them.
pub open spec fn free_seats(driver: (Driver, i64)) -> nat {
    seats_left(driver.0.seats as int, driver.1 as int)
}

/// The free seats of the first `n` drivers together.
pub open spec fn free_before(drivers: Seq<(Driver, i64)>, n: int) -> nat
    decreases n,
{
    if n <= 0 {
        0
    } else {
        free_before(drivers, n - 1) + free_seats(drivers[n - 1])
    }
}

/// The free seats of all the drivers together.
pub open spec fn total_free(drivers: Seq<(Driver, i64)>) -> nat {
    free_before(drivers, drivers.len() as int)
}

/// Whether `plan` seats the first riders first-fit: rider `k` sits with the
/// driver `plan[k]`, which is the driver who owns the free seat number `k`
/// when the free seats are numbered driver by driver; and the riders seated
/// are as many as there are riders, or free seats if these are fewer.
pub open spec fn is_first_fit(plan: Seq<usize>, riders: nat, drivers: Seq<(Driver, i64)>) -> bool {
    &&& plan.len() == if riders <= total_free(drivers) { riders } else { total_free(drivers) }
    &&& forall|k: int| 0 <= k < plan.len() ==> owns_seat(drivers, #[trigger] plan[k] as int, k)
}

/// Whether driver `j` owns the free seat number `k`.
pub open spec fn owns_seat(drivers: Seq<(Driver, i64)>, j: int, k: int) -> bool {
    &&& 0 <= j < drivers.len()
    &&& free_before(drivers, j) <= k < free_before(drivers, j + 1)
}

/// The seats of driver `j` that the first `k` riders of a first-fit plan take.
pub open spec fn load(drivers: Seq<(Driver, i64)>, j: int, k: int) -> nat {
    if k <= free_before(drivers, j) {
        0
    } else if k >= free_before(drivers, j + 1) {
        free_seats(drivers[j])
    } else {
        (k - free_before(drivers, j)) as nat
    }
}

/// The free seats counted up to a driver never exceed those counted up to a
/// later one.
pub proof fn lemma_free_before_monotonic(drivers: Seq<(Driver, i64)>, i: int, j: int)
    requires
        i <= j,
    ensures
        free_before(drivers, i) <= free_before(drivers, j),
    decreases j - i,
{
    if i < j {
        lemma_free_before_monotonic(drivers, i, j - 1);
    }
}

/// Each free seat has one owner: two drivers who own the same seat are the
/// same driver.
pub proof fn lemma_owner_unique(drivers: Seq<(Driver, i64)>, i: int, j: int, k: int)
    requires
        owns_seat(drivers, i, k),
        owns_seat(drivers, j, k),
    ensures
        i == j,
{
    if i < j {
        lemma_free_before_monotonic(drivers, i + 1, j);
    } else if j < i {
        lemma_free_before_monotonic(drivers, j + 1, i);
    }
}

/// The free seats are numbered driver by driver: a later seat belongs to
/// the same driver or to a later one.
pub proof fn lemma_owners_rise(drivers: Seq<(Driver, i64)>, i: int, k: int, j: int, l: int)
    requires
        owns_seat(drivers, i, k),
        owns_seat(drivers, j, l),
        k <= l,
    ensures
        i <= j,
{
    if j < i {
        lemma_free_before_monotonic(drivers, j + 1, i);
    }
}

/// Seating one more rider with the owner of seat `k` adds one to the load of
/// that driver and leaves every other load as it was.
pub proof fn lemma_load_step(drivers: Seq<(Driver, i64)>, owner: int, j: int, k: int)
    requires
        owns_seat(drivers, owner, k),
        0 <= j < drivers.len(),
    ensures
        load(drivers, j, k + 1) == load(drivers, j, k) + if j == owner { 1nat } else { 0nat },
        load(drivers, j, k + 1) <= free_seats(drivers[j]),
{
    if j < owner {
        lemma_free_before_monotonic(drivers, j + 1, owner);
    } else if owner < j {
        lemma_free_before_monotonic(drivers, owner + 1, j);
    }
}

/// Seats the first of `riders` waiting riders with the drivers that have
/// free seats, first-fit: the result names, for each rider seated, the
/// position of their driver in `drivers`.
///
/// Each driver comes with the number of riders already assigned to them.
/// Running out of free seats is no failure: the riders that are left are
/// not in the plan.
pub fn first_fit(riders: usize, drivers: &Vec<(Driver, i64)>) -> (plan: Vec<usize>)
    ensures
        is_first_fit(plan@, riders as nat, drivers@),
{
    let mut plan: Vec<usize> = Vec::new();
    let mut cursor: usize = 0;
    let mut taken: usize = 0;
    let mut seated: usize = 0;
    let mut exhausted = false;
    while seated < riders && !exhausted
        invariant
            seated <= riders,
            plan@.len() == seated,
            cursor <= drivers@.len(),
            seated == free_before(drivers@, cursor as int) + taken,
            cursor < drivers@.len() ==> taken <= free_seats(drivers@[cursor as int]),
            cursor == drivers@.len() ==> taken == 0,
            exhausted ==> cursor == drivers@.len(),
            forall|k: int| 0 <= k < plan@.len() ==> owns_seat(drivers@, #[trigger] plan@[k] as int, k),
        decreases riders - seated + if exhausted { 0int } else { 1int },
    {
        while cursor < drivers.len() && !has_room(&drivers[cursor], taken)
            invariant
                cursor <= drivers@.len(),
                seated == free_before(drivers@, cursor as int) + taken,
                cursor < drivers@.len() ==> taken <= free_seats(drivers@[cursor as int]),
                cursor == drivers@.len() ==> taken == 0,
            decreases drivers@.len() - cursor,
        {
            cursor += 1;
            taken = 0;
        }
        if cursor >= drivers.len() {
            exhausted = true;
        } else {
            plan.push(cursor);
            taken += 1;
            seated += 1;
        }
    }
    proof {
        lemma_free_before_monotonic(drivers@, cursor as int, drivers@.len() as int);
        if cursor < drivers@.len() {
            lemma_free_before_monotonic(drivers@, cursor + 1, drivers@.len() as int);
        }
    }
    plan
}

/// Whether a driver who was given `taken` riders in this pass, on top of
/// those counted before, still has a free seat.
fn has_room(driver: &(Driver, i64), taken: usize) -> (room: bool)
    ensures
        room == (taken < free_seats(*driver)),
{
    driver.0.seats as i128 - driver.1 as i128 > taken as i128
}

} // verus!
