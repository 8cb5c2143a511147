//! The statements that are run on the database, with the values that are
//! bound to them, and the reading of the rows that they give.

use vstd::prelude::*;
use crate::ids::{new_uuid, uuid_text, uuid_to_string};
use crate::models::{
    driver_of, integer_at, read_integer, read_text, text_at, user_of, vehicle_of, Campus, Driver,
    Event, MalformedRow, User, UserView, Value, ValueView, Vehicle, VehicleView,
};
use crate::passwords::{hash_password, verified};
use crate::store::{is_old, Assignment, RETENTION};

verus! {

/// Path of the database file
pub const DB_PATH: &'static str = "rides.db";

/// The cost at which passwords are hashed
pub const HASH_COST: u32 = 7;

/// The statements that are run on the database. The values that each one
/// takes are those that the function of its name binds.
#[derive(Clone, Copy, Debug, PartialEq, Eq, Structural)]
pub enum Query {
    /// Sets up the tables.
    InitDatabase,
    /// Stores a user.
    CreateUser,
    /// Gets the user with an email.
    GetUserByEmail,
    /// Gets the user with an id.
    GetUser,
    /// Lists the passengers of a driver for an event, each with their pickup
    /// location.
    GetDriverPassengers,
    /// Stores a driver.
    CreateDriver,
    /// Stores a ride.
    CreateRide,
    /// Stores an event.
    CreateEvent,
    /// Lists the events.
    GetEvents,
    /// Stores a vehicle.
    CreateVehicle,
    /// Lists the vehicles of an owner.
    GetDriverVehicles,
    /// Gets the vehicle with an id.
    GetVehicle,
    /// Lists the events that a user drives for.
    GetDriverEvents,
    /// Lists the events that a user rides to.
    GetRiderEvents,
    /// Takes the rides of a user out of an event.
    DeleteUserRides,
    /// Takes the rides that a user drives out of an event.
    DeleteUserRidesDrives,
    /// Takes the offers of a user to drive out of an event.
    DeleteUserDrives,
    /// Gets the driver of a user for an event, with their vehicle.
    GetEventDriver,
    /// Deletes the rides of the events before a time.
    DeleteOldRides,
    /// Deletes the drivers of the events before a time.
    DeleteOldDrivers,
    /// Deletes the events before a time.
    DeleteOldEvents,
    /// Gives the earliest waiting ride of a rider for an event to a driver.
    AssignRider,
    /// Lists all the events, as the worker reads them.
    AllEvents,
    /// Lists all the drivers, as the worker reads them.
    AllDrivers,
    /// Lists all the rides, as the worker reads them.
    AllRides,
    /// Begins a transaction.
    Begin,
    /// Commits the transaction.
    Commit,
    /// Rolls the transaction back.
    Rollback,
}

/// A statement with the values that are bound to it, in their order.
#[derive(Debug, PartialEq, Eq)]
pub struct Statement {
    pub query: Query,
    pub values: Vec<Value>,
}

/// A statement as a value.
pub struct StatementView {
    pub query: Query,
    pub values: Seq<ValueView>,
}

impl View for Statement {
    type V = StatementView;

    open spec fn view(&self) -> StatementView {
        StatementView { query: self.query, values: self.values@.map_values(|v: Value| v@) }
    }
}

impl Statement {
    /// A statement to which no value is bound.
    pub fn plain(query: Query) -> (statement: Statement)
        ensures
            statement@ == (StatementView { query, values: Seq::empty() }),
    {
        let st = Statement { query, values: Vec::new() };
        assert(st@.values =~= Seq::empty());
        st
    }
}

/// An id as it is bound to a statement: as the text of its UUID.
pub open spec fn id_value(id: u128) -> ValueView {
    ValueView::String(uuid_text(id))
}

/// A text as it is bound to a statement.
pub open spec fn text_value(text: Seq<char>) -> ValueView {
    ValueView::String(text)
}

/// A campus as it is bound to a statement: by its name.
pub open spec fn campus_value(campus: Campus) -> ValueView {
    ValueView::String(campus.name()@)
}

/// The value that binds an id.
fn bind_id(id: u128) -> (value: Value)
    ensures
        value@ == id_value(id),
{
    Value::String(uuid_to_string(id))
}

/// The value that binds a campus.
fn bind_campus(campus: Campus) -> (value: Value)
    ensures
        value@ == campus_value(campus),
{
    Value::String(campus.into())
}

/// The earliest time at which an event may have taken place without being
/// old at the time `now`: the retention time before `now`, or the earliest
/// time there is where that is earlier still.
pub open spec fn expire_time_of(now: i64) -> i64 {
    if now - RETENTION < i64::MIN {
        i64::MIN
    } else {
        (now - RETENTION) as i64
    }
}

/// Computes the time before which an event is old at the time `now`: an
/// event is old where it took place before that time.
pub fn expire_time(now: i64) -> (time: i64)
    ensures
        time == expire_time_of(now),
        forall|event: Event| #[trigger] is_old(event, now) <==> event.time < time,
{
    if now < i64::MIN + RETENTION {
        i64::MIN
    } else {
        now - RETENTION
    }
}

/// The statements that delete what is old at the time `now`, each bound to
/// the time before which an event is old: the rides of the old events go
/// first, then their drivers, then the old events themselves, so that no
/// ride or driver is ever left without its event.
pub open spec fn reaping(now: i64) -> Seq<StatementView> {
    seq![
        StatementView {
            query: Query::DeleteOldRides,
            values: seq![ValueView::Integer(expire_time_of(now))],
        },
        StatementView {
            query: Query::DeleteOldDrivers,
            values: seq![ValueView::Integer(expire_time_of(now))],
        },
        StatementView {
            query: Query::DeleteOldEvents,
            values: seq![ValueView::Integer(expire_time_of(now))],
        },
    ]
}

/// A statement that is bound to the time before which an event is old.
fn before(query: Query, time: i64) -> (statement: Statement)
    ensures
        statement@ == (StatementView { query, values: seq![ValueView::Integer(time)] }),
{
    let mut values: Vec<Value> = Vec::new();
    values.push(Value::Integer(time));
    let st = Statement { query, values };
    assert(st@.values =~= seq![ValueView::Integer(time)]);
    st
}

/// Lists the statements that delete the events that are old at the time
/// `now`, with their drivers and rides.
pub fn delete_events_before(now: i64) -> (statements: Vec<Statement>)
    ensures
        statements@.map_values(|st: Statement| st@) == reaping(now),
{
    let time = expire_time(now);
    let mut statements: Vec<Statement> = Vec::new();
    statements.push(before(Query::DeleteOldRides, time));
    statements.push(before(Query::DeleteOldDrivers, time));
    statements.push(before(Query::DeleteOldEvents, time));
    assert(statements@.map_values(|st: Statement| st@) =~= reaping(now));
    statements
}

/// The values that are bound to assign a ride: the driver, the event and
/// the rider.
pub open spec fn assignment_values(assignment: Assignment) -> Seq<ValueView> {
    seq![
        id_value(assignment.driver_id),
        id_value(assignment.event_id),
        id_value(assignment.rider_id),
    ]
}

/// The statement that assigns a rider to a driver for an event.
pub fn assign_rider(assignment: &Assignment) -> (statement: Statement)
    ensures
        statement@ == (StatementView {
            query: Query::AssignRider,
            values: assignment_values(*assignment),
        }),
{
    let mut values: Vec<Value> = Vec::new();
    values.push(bind_id(assignment.driver_id));
    values.push(bind_id(assignment.event_id));
    values.push(bind_id(assignment.rider_id));
    let st = Statement { query: Query::AssignRider, values };
    assert(st@.values =~= assignment_values(*assignment));
    st
}

/// The statement that ends a transaction: it is committed where all went
/// well, and rolled back where anything failed.
pub fn closing(succeeded: bool) -> (statement: Statement)
    ensures
        statement@ == (StatementView {
            query: if succeeded {
                Query::Commit
            } else {
                Query::Rollback
            },
            values: Seq::empty(),
        }),
{
    if succeeded {
        Statement::plain(Query::Commit)
    } else {
        Statement::plain(Query::Rollback)
    }
}

/// The statement that sets up the tables of a new database, where the
/// database file does not exist yet; nothing where it does.
pub fn create_database(exists: bool) -> (statement: Option<Statement>)
    ensures
        match statement {
            Some(st) => !exists && st@ == (StatementView {
                query: Query::InitDatabase,
                values: Seq::empty(),
            }),
            None => exists,
        },
{
    if exists {
        None
    } else {
        let st = Statement { query: Query::InitDatabase, values: Vec::new() };
        assert(st@.values =~= Seq::empty());
        Some(st)
    }
}

/// The statement that stores a new user with the given id and password
/// hash.
pub fn new_user(
    id: u128,
    email: String,
    fullname: String,
    hash: String,
    number: String,
    campus: Campus,
) -> (statement: Statement)
    ensures
        statement@ == (StatementView {
            query: Query::CreateUser,
            values: seq![
                id_value(id),
                ValueView::String(email@),
                ValueView::String(fullname@),
                ValueView::String(hash@),
                ValueView::String(number@),
                campus_value(campus),
            ],
        }),
{
    let mut values: Vec<Value> = Vec::new();
    values.push(bind_id(id));
    values.push(Value::String(email));
    values.push(Value::String(fullname));
    values.push(Value::String(hash));
    values.push(Value::String(number));
    values.push(bind_campus(campus));
    let st = Statement { query: Query::CreateUser, values };
    assert(st@.values =~= seq![
        id_value(id),
        ValueView::String(email@),
        ValueView::String(fullname@),
        ValueView::String(hash@),
        ValueView::String(number@),
        campus_value(campus),
    ]);
    st
}

/// Creates a new user: draws a new id, hashes the password with bcrypt at
/// cost 7, and gives the statement that stores the user under that id with
/// that hash. Nothing is given where bcrypt gives no hash.
pub fn create_user(
    email: String,
    fullname: String,
    password: String,
    number: String,
    campus: Campus,
) -> (statement: Option<Statement>)
    ensures
        match statement {
            Some(st) => exists|id: u128, hash: Seq<char>|
                #![trigger id_value(id), text_value(hash)]
                verified(password@, hash) == Some(true) && Some(st@) == stored_user(
                    id,
                    email@,
                    fullname@,
                    Some(hash),
                    number@,
                    campus,
                ),
            None => true,
        },
{
    let id = new_uuid();
    let hashed = hash_password(password.as_str(), HASH_COST);
    store_user(id, email, fullname, hashed, number, campus)
}

/// What is stored of a new user, given what bcrypt made of the password:
/// the statement that stores the user with the hash, or nothing where
/// there is no hash.
pub open spec fn stored_user(
    id: u128,
    email: Seq<char>,
    fullname: Seq<char>,
    hashed: Option<Seq<char>>,
    number: Seq<char>,
    campus: Campus,
) -> Option<StatementView> {
    match hashed {
        Some(hash) => Some(
            StatementView {
                query: Query::CreateUser,
                values: seq![
                    id_value(id),
                    ValueView::String(email),
                    ValueView::String(fullname),
                    text_value(hash),
                    ValueView::String(number),
                    campus_value(campus),
                ],
            },
        ),
        None => None,
    }
}

/// The statement that stores a new user with the given id, given what the
/// hashing of the password came to: the user is stored with the hash, and
/// not at all where there is none.
pub fn store_user(
    id: u128,
    email: String,
    fullname: String,
    hashed: Option<String>,
    number: String,
    campus: Campus,
) -> (statement: Option<Statement>)
    ensures
        match statement {
            Some(st) => hashed matches Some(hash) && Some(st@) == stored_user(
                id,
                email@,
                fullname@,
                Some(hash@),
                number@,
                campus,
            ),
            None => hashed is None,
        },
{
    match hashed {
        Some(hash) => Some(new_user(id, email, fullname, hash, number, campus)),
        None => None,
    }
}

/// The statement that searches for a user by their email.
pub fn get_user_by_email(email: String) -> (statement: Statement)
    ensures
        statement@ == (StatementView {
            query: Query::GetUserByEmail,
            values: seq![ValueView::String(email@)],
        }),
{
    let mut values: Vec<Value> = Vec::new();
    values.push(Value::String(email));
    let st = Statement { query: Query::GetUserByEmail, values };
    assert(st@.values =~= seq![ValueView::String(email@)]);
    st
}

/// A statement that is asked of one id.
fn about(query: Query, id: u128) -> (statement: Statement)
    ensures
        statement@ == (StatementView { query, values: seq![id_value(id)] }),
{
    let mut values: Vec<Value> = Vec::new();
    values.push(bind_id(id));
    let st = Statement { query, values };
    assert(st@.values =~= seq![id_value(id)]);
    st
}

/// A statement that is asked of two ids.
fn about_both(query: Query, first: u128, second: u128) -> (statement: Statement)
    ensures
        statement@ == (StatementView { query, values: seq![id_value(first), id_value(second)] }),
{
    let mut values: Vec<Value> = Vec::new();
    values.push(bind_id(first));
    values.push(bind_id(second));
    let st = Statement { query, values };
    assert(st@.values =~= seq![id_value(first), id_value(second)]);
    st
}

/// The statement that gets a user by their id.
pub fn get_user(id: u128) -> (statement: Statement)
    ensures
        statement@ == (StatementView { query: Query::GetUser, values: seq![id_value(id)] }),
{
    about(Query::GetUser, id)
}

/// The statement that lists the passengers of a driver for a single event.
pub fn get_driver_passengers(event_id: u128, driver_id: u128) -> (statement: Statement)
    ensures
        statement@ == (StatementView {
            query: Query::GetDriverPassengers,
            values: seq![id_value(event_id), id_value(driver_id)],
        }),
{
    about_both(Query::GetDriverPassengers, event_id, driver_id)
}

/// The statement that makes a user a driver for an event. The number of
/// seats is bound as a 64-bit integer.
pub fn create_driver(user_id: u128, event_id: u128, vehicle_id: u128, seats: usize, campus: Campus) -> (statement:
    Statement)
    ensures
        statement@ == (StatementView {
            query: Query::CreateDriver,
            values: seq![
                id_value(user_id),
                id_value(event_id),
                id_value(vehicle_id),
                ValueView::Integer(seats as i64),
                campus_value(campus),
            ],
        }),
{
    let mut values: Vec<Value> = Vec::new();
    values.push(bind_id(user_id));
    values.push(bind_id(event_id));
    values.push(bind_id(vehicle_id));
    values.push(Value::Integer(#[verifier::truncate] (seats as i64)));
    values.push(bind_campus(campus));
    let st = Statement { query: Query::CreateDriver, values };
    assert(st@.values =~= seq![
        id_value(user_id),
        id_value(event_id),
        id_value(vehicle_id),
        ValueView::Integer(seats as i64),
        campus_value(campus),
    ]);
    st
}

/// The statement that asks for a ride to an event.
pub fn create_ride(user_id: u128, event_id: u128, campus: Campus, pickup_location: String) -> (statement:
    Statement)
    ensures
        statement@ == (StatementView {
            query: Query::CreateRide,
            values: seq![
                id_value(user_id),
                id_value(event_id),
                campus_value(campus),
                ValueView::String(pickup_location@),
            ],
        }),
{
    let mut values: Vec<Value> = Vec::new();
    values.push(bind_id(user_id));
    values.push(bind_id(event_id));
    values.push(bind_campus(campus));
    values.push(Value::String(pickup_location));
    let st = Statement { query: Query::CreateRide, values };
    assert(st@.values =~= seq![
        id_value(user_id),
        id_value(event_id),
        campus_value(campus),
        ValueView::String(pickup_location@),
    ]);
    st
}

/// The statement that stores a new event under the given id.
pub fn new_event(
    id: u128,
    name: String,
    time: i64,
    address1: String,
    address2: String,
    city: String,
    state: String,
    zipcode: String,
    owner_id: u128,
) -> (statement: Statement)
    ensures
        statement@ == (StatementView {
            query: Query::CreateEvent,
            values: seq![
                id_value(id),
                ValueView::String(name@),
                ValueView::Integer(time),
                ValueView::String(address1@),
                ValueView::String(address2@),
                ValueView::String(city@),
                ValueView::String(state@),
                ValueView::String(zipcode@),
                id_value(owner_id),
            ],
        }),
{
    let mut values: Vec<Value> = Vec::new();
    values.push(bind_id(id));
    values.push(Value::String(name));
    values.push(Value::Integer(time));
    values.push(Value::String(address1));
    values.push(Value::String(address2));
    values.push(Value::String(city));
    values.push(Value::String(state));
    values.push(Value::String(zipcode));
    values.push(bind_id(owner_id));
    let st = Statement { query: Query::CreateEvent, values };
    assert(st@.values =~= seq![
        id_value(id),
        ValueView::String(name@),
        ValueView::Integer(time),
        ValueView::String(address1@),
        ValueView::String(address2@),
        ValueView::String(city@),
        ValueView::String(state@),
        ValueView::String(zipcode@),
        id_value(owner_id),
    ]);
    st
}

/// Creates a new event: draws a new id and gives the statement that stores
/// the event, which takes place at `time`, in seconds since the Unix epoch.
pub fn create_event(
    name: String,
    time: i64,
    address1: String,
    address2: String,
    city: String,
    state: String,
    zipcode: String,
    owner_id: u128,
) -> (statement: Statement)
    ensures
        exists|id: u128|
            statement@ == (StatementView {
                query: Query::CreateEvent,
                values: seq![
                    #[trigger] id_value(id),
                    ValueView::String(name@),
                    ValueView::Integer(time),
                    ValueView::String(address1@),
                    ValueView::String(address2@),
                    ValueView::String(city@),
                    ValueView::String(state@),
                    ValueView::String(zipcode@),
                    id_value(owner_id),
                ],
            }),
{
    let id = new_uuid();
    let st = new_event(id, name, time, address1, address2, city, state, zipcode, owner_id);
    assert(st@.values[0] == id_value(id));
    st
}

/// The statement that stores a new vehicle under the given id.
pub fn new_vehicle(id: u128, user_id: u128, color: String, make: String, model: String) -> (statement:
    Statement)
    ensures
        statement@ == (StatementView {
            query: Query::CreateVehicle,
            values: seq![
                id_value(id),
                id_value(user_id),
                ValueView::String(color@),
                ValueView::String(make@),
                ValueView::String(model@),
            ],
        }),
{
    let mut values: Vec<Value> = Vec::new();
    values.push(bind_id(id));
    values.push(bind_id(user_id));
    values.push(Value::String(color));
    values.push(Value::String(make));
    values.push(Value::String(model));
    let st = Statement { query: Query::CreateVehicle, values };
    assert(st@.values =~= seq![
        id_value(id),
        id_value(user_id),
        ValueView::String(color@),
        ValueView::String(make@),
        ValueView::String(model@),
    ]);
    st
}

/// Creates a new vehicle for a driver: draws a new id and gives the
/// statement that stores the vehicle.
pub fn create_vehicle(user_id: u128, color: String, make: String, model: String) -> (statement:
    Statement)
    ensures
        exists|id: u128|
            statement@ == (StatementView {
                query: Query::CreateVehicle,
                values: seq![
                    #[trigger] id_value(id),
                    id_value(user_id),
                    ValueView::String(color@),
                    ValueView::String(make@),
                    ValueView::String(model@),
                ],
            }),
{
    let id = new_uuid();
    let st = new_vehicle(id, user_id, color, make, model);
    assert(st@.values[0] == id_value(id));
    st
}

/// The statement that lists the vehicles of a driver.
pub fn get_driver_vehicles(driver_id: u128) -> (statement: Statement)
    ensures
        statement@ == (StatementView {
            query: Query::GetDriverVehicles,
            values: seq![id_value(driver_id)],
        }),
{
    about(Query::GetDriverVehicles, driver_id)
}

/// The statement that gets a vehicle by its id.
pub fn get_vehicle(id: u128) -> (statement: Statement)
    ensures
        statement@ == (StatementView { query: Query::GetVehicle, values: seq![id_value(id)] }),
{
    about(Query::GetVehicle, id)
}

/// The statement that lists the events that a user drives for.
pub fn get_driver_events(driver_id: u128) -> (statement: Statement)
    ensures
        statement@ == (StatementView {
            query: Query::GetDriverEvents,
            values: seq![id_value(driver_id)],
        }),
{
    about(Query::GetDriverEvents, driver_id)
}

/// The statement that lists the events that a user gets a ride to.
pub fn get_rider_events(rider_id: u128) -> (statement: Statement)
    ensures
        statement@ == (StatementView {
            query: Query::GetRiderEvents,
            values: seq![id_value(rider_id)],
        }),
{
    about(Query::GetRiderEvents, rider_id)
}

/// The statement that gets the driver of a user for an event, with their
/// vehicle.
pub fn get_event_driver(event_id: u128, user_id: u128) -> (statement: Statement)
    ensures
        statement@ == (StatementView {
            query: Query::GetEventDriver,
            values: seq![id_value(event_id), id_value(user_id)],
        }),
{
    about_both(Query::GetEventDriver, event_id, user_id)
}

/// The statements that take a user out of an event, whether they ride or
/// drive: inside one transaction, the one for their rides, then the one for
/// the rides that they drive, then the one for their offers to drive. The
/// event stays for everyone else.
pub fn delete_user_event(user_id: u128, event_id: u128) -> (statements: Vec<Statement>)
    ensures
        statements@.map_values(|st: Statement| st@) == seq![
            StatementView { query: Query::Begin, values: Seq::empty() },
            StatementView {
                query: Query::DeleteUserRides,
                values: seq![id_value(user_id), id_value(event_id)],
            },
            StatementView {
                query: Query::DeleteUserRidesDrives,
                values: seq![id_value(user_id), id_value(event_id)],
            },
            StatementView {
                query: Query::DeleteUserDrives,
                values: seq![id_value(user_id), id_value(event_id)],
            },
            StatementView { query: Query::Commit, values: Seq::empty() },
        ],
{
    let begin = Statement { query: Query::Begin, values: Vec::new() };
    let commit = Statement { query: Query::Commit, values: Vec::new() };
    assert(begin@.values =~= Seq::empty());
    assert(commit@.values =~= Seq::empty());
    let mut statements: Vec<Statement> = Vec::new();
    statements.push(begin);
    statements.push(about_both(Query::DeleteUserRides, user_id, event_id));
    statements.push(about_both(Query::DeleteUserRidesDrives, user_id, event_id));
    statements.push(about_both(Query::DeleteUserDrives, user_id, event_id));
    statements.push(commit);
    assert(statements@.map_values(|st: Statement| st@) =~= seq![
        StatementView { query: Query::Begin, values: Seq::empty() },
        StatementView {
            query: Query::DeleteUserRides,
            values: seq![id_value(user_id), id_value(event_id)],
        },
        StatementView {
            query: Query::DeleteUserRidesDrives,
            values: seq![id_value(user_id), id_value(event_id)],
        },
        StatementView {
            query: Query::DeleteUserDrives,
            values: seq![id_value(user_id), id_value(event_id)],
        },
        StatementView { query: Query::Commit, values: Seq::empty() },
    ]);
    statements
}

/// Reads a row of the drivers of an event on a campus: the driver, and in
/// the sixth column the number of rides that are assigned to them.
pub fn read_available_driver(row: &[Value]) -> (found: Result<(Driver, i64), MalformedRow>)
    ensures
        found == match driver_of(row@) {
            Err(e) => Err::<(Driver, i64), MalformedRow>(e),
            Ok(driver) => match integer_at(row@, 5) {
                Err(e) => Err::<(Driver, i64), MalformedRow>(e),
                Ok(count) => Ok::<(Driver, i64), MalformedRow>((driver, count)),
            },
        },
{
    let driver = Driver::from(row)?;
    let count = read_integer(row, 5)?;
    Ok((driver, count))
}

/// Reads a row of the passengers of a driver: the user, and in the seventh
/// column the location where they want to be picked up.
pub fn read_passenger(row: &[Value]) -> (found: Result<(User, String), MalformedRow>)
    ensures
        match found {
            Ok((user, pickup)) => user_of(row@, 0) == Ok::<UserView, MalformedRow>(user@) && text_at(
                row@,
                6,
            ) == Ok::<Seq<char>, MalformedRow>(pickup@),
            Err(e) => match user_of(row@, 0) {
                Err(first) => e == first,
                Ok(_) => text_at(row@, 6) == Err::<Seq<char>, MalformedRow>(e),
            },
        },
{
    let user = User::from(row)?;
    let pickup = read_text(row, 6)?;
    Ok((user, pickup))
}

/// Reads the row of the driver of a user for an event: the driver as a
/// user, and from the seventh column on their vehicle.
pub fn read_event_driver(row: &[Value]) -> (found: Result<(User, Vehicle), MalformedRow>)
    ensures
        match found {
            Ok((user, vehicle)) => user_of(row@, 0) == Ok::<UserView, MalformedRow>(user@)
                && vehicle_of(row@, 6) == Ok::<VehicleView, MalformedRow>(vehicle@),
            Err(e) => match user_of(row@, 0) {
                Err(first) => e == first,
                Ok(_) => vehicle_of(row@, 6) == Err::<VehicleView, MalformedRow>(e),
            },
        },
{
    let user = User::from(row)?;
    let vehicle = Vehicle::from_columns(row, 6)?;
    Ok((user, vehicle))
}

} // verus!
