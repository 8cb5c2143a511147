//! The background worker: what one of its passes does to the store, and
//! when it runs the next one.

use vstd::prelude::*;
use crate::clock::current_time;
use crate::db::{delete_old_events, match_rides};
use crate::statements::{
    assign_rider, assignment_values, delete_events_before, reaping, Query, Statement,
    StatementView,
};
use crate::safety::{lemma_reaping_cascades, lemma_run_plan_events};
use crate::store::{
    assign_all, drivers_outside, events_outside, old_event_ids, rides_outside, run_plan,
    Assignment, Store,
};

verus! {

/// What one pass of the worker changed: the changes that the database has
/// to see, in this order, inside one transaction.
#[derive(Debug, PartialEq, Eq)]
pub struct PassReport {
    /// The time at which the pass ran, in seconds since the Unix epoch
    pub now: i64,
    /// The ids of the old events; they are deleted with their drivers and
    /// rides
    pub deleted: Vec<u128>,
    /// The rides that were given to drivers
    pub assigned: Vec<Assignment>,
}

/// One pass of the worker at the time `now`, in seconds since the Unix
/// epoch: deletes the old events with their drivers and rides, then runs
/// the matching on what is left. No ride of a deleted event is matched.
pub fn run_pass(store: &mut Store, now: i64) -> (report: PassReport)
    ensures
        ({
            let gone = old_event_ids(old(store).events@, now);
            let events = old(store).events@.filter(events_outside(gone));
            let drivers = old(store).drivers@.filter(drivers_outside(gone));
            let rides = old(store).rides@.filter(rides_outside(gone));
            &&& report.now == now
            &&& report.deleted@ == gone
            &&& report.assigned@ == run_plan(rides, drivers, events, events.len() as int)
            &&& final(store).events@ == events
            &&& final(store).drivers@ == drivers
            &&& final(store).rides@ == assign_all(rides, report.assigned@)
            &&& forall|k: int|
                0 <= k < report.assigned@.len() ==> !gone.contains(
                    (#[trigger] report.assigned@[k]).event_id,
                )
        }),
{
    let ghost gone = old_event_ids(store.events@, now);
    let ghost events = store.events@.filter(events_outside(gone));
    let ghost drivers = store.drivers@.filter(drivers_outside(gone));
    let ghost rides = store.rides@.filter(rides_outside(gone));
    let deleted = delete_old_events(store, now);
    let assigned = match_rides(store);
    proof {
        lemma_reaping_cascades(old(store).events@, old(store).drivers@, old(store).rides@, now);
        assert forall|k: int| 0 <= k < assigned@.len() implies !gone.contains(
            (#[trigger] assigned@[k]).event_id,
        ) by {
            lemma_run_plan_events(rides, drivers, events, events.len() as int, k);
        }
    }
    PassReport { now, deleted, assigned }
}

/// One pass of the worker at the current time of the machine, which the
/// report names.
pub fn run_now(store: &mut Store) -> (report: PassReport)
    ensures
        ({
            let gone = old_event_ids(old(store).events@, report.now);
            let events = old(store).events@.filter(events_outside(gone));
            let drivers = old(store).drivers@.filter(drivers_outside(gone));
            let rides = old(store).rides@.filter(rides_outside(gone));
            &&& report.deleted@ == gone
            &&& report.assigned@ == run_plan(rides, drivers, events, events.len() as int)
            &&& final(store).events@ == events
            &&& final(store).drivers@ == drivers
            &&& final(store).rides@ == assign_all(rides, report.assigned@)
        }),
{
    let now = current_time();
    run_pass(store, now)
}

/// The time, in seconds, after which the worker runs a pass that nobody
/// asked for.
pub const INTERVAL: u64 = 10;

/// The statements that a pass at the time `now` leaves for the database
/// where it made the given assignments.
pub open spec fn changes_of(assigned: Seq<Assignment>, now: i64) -> Seq<StatementView> {
    reaping(now) + assigned.map_values(
        |a: Assignment| StatementView { query: Query::AssignRider, values: assignment_values(a) },
    )
}

/// Lists the statements that bring the database to where a pass has
/// brought the store: first those that delete the old events with their
/// rides and drivers, then one for each ride that was assigned, in the
/// order of the assignments. They belong into the transaction in which the
/// rows of the store were read.
pub fn changes(report: &PassReport) -> (statements: Vec<Statement>)
    ensures
        statements@.map_values(|st: Statement| st@) == changes_of(report.assigned@, report.now),
{
    let now = report.now;
    let mut statements: Vec<Statement> = delete_events_before(now);
    assert(report.assigned@.take(0) =~= Seq::<Assignment>::empty());
    assert(statements@.map_values(|st: Statement| st@) =~= changes_of(
        report.assigned@.take(0),
        now,
    ));
    let mut k: usize = 0;
    while k < report.assigned.len()
        invariant
            k <= report.assigned@.len(),
            now == report.now,
            statements@.map_values(|st: Statement| st@) == changes_of(
                report.assigned@.take(k as int),
                now,
            ),
        decreases report.assigned@.len() - k,
    {
        let ghost before = statements@.map_values(|st: Statement| st@);
        let statement = assign_rider(&report.assigned[k]);
        let ghost added = statement@;
        statements.push(statement);
        proof {
            let shown = |a: Assignment|
                StatementView { query: Query::AssignRider, values: assignment_values(a) };
            let done = report.assigned@.take(k as int);
            let next = report.assigned@[k as int];
            assert(report.assigned@.take(k + 1) =~= done.push(next));
            assert(done.push(next).map_values(shown) =~= done.map_values(shown).push(added));
            assert(statements@.map_values(|st: Statement| st@) =~= before.push(added));
            assert(changes_of(done.push(next), now) =~= changes_of(done, now).push(added));
        }
        k += 1;
    }
    assert(report.assigned@.take(k as int) =~= report.assigned@);
    statements
}

/// What the worker does next.
#[derive(Clone, Copy, Debug, PartialEq, Eq, Structural)]
pub enum Action {
    /// Run a pass now.
    Run,
    /// Wait for the timer or for a request.
    Wait,
}

/// The state of the worker between passes: whether a pass is due, and how
/// many passes have failed.
#[derive(Debug, PartialEq, Eq)]
pub struct Worker {
    due: bool,
    failures: u64,
}

impl Worker {
    /// Whether a pass is due.
    pub closed spec fn due(&self) -> bool {
        self.due
    }

    /// The number of passes that failed, up to the largest `u64`.
    pub closed spec fn failures(&self) -> nat {
        self.failures as nat
    }

    /// Takes note that the timer has struck or that a pass was requested.
    /// Requests are not counted: however many come in before the next pass,
    /// one pass is due. The result says whether this one was the first.
    pub fn notify(&mut self) -> (first: bool)
        ensures
            final(self).due(),
            final(self).failures() == old(self).failures(),
            first == !old(self).due(),
    {
        let first = !self.due;
        self.due = true;
        first
    }

    /// Says what to do next: to run a pass where one is due, which is then
    /// no longer due, and to wait where none is.
    pub fn next(&mut self) -> (action: Action)
        ensures
            action == if old(self).due() { Action::Run } else { Action::Wait },
            !final(self).due(),
            final(self).failures() == old(self).failures(),
    {
        if self.due {
            self.due = false;
            Action::Run
        } else {
            Action::Wait
        }
    }

    /// Takes note of how a pass ended. A pass that failed is counted and
    /// changes nothing else: the worker goes on with the next request.
    pub fn finished(&mut self, succeeded: bool)
        ensures
            final(self).due() == old(self).due(),
            final(self).failures() == if succeeded || old(self).failures() == u64::MAX {
                old(self).failures()
            } else {
                old(self).failures() + 1
            },
    {
        if !succeeded && self.failures < u64::MAX {
            self.failures += 1;
        }
    }

    /// The number of passes that failed.
    pub fn failed(&self) -> (count: u64)
        ensures
            count == self.failures(),
    {
        self.failures
    }
}

/// Starts a worker: its first pass is due at once, and none has failed.
pub fn start() -> (worker: Worker)
    ensures
        worker.due(),
        worker.failures() == 0,
{
    Worker { due: true, failures: 0 }
}

} // verus!
