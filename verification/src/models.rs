//! The data model: campus groups, users, events, vehicles, drivers and rides.

use vstd::prelude::*;
use vstd::std_specs::convert::FromSpecImpl;
use crate::clock::{is_timestamp, timestamp_in_range};
use crate::ids::{parse_uuid, parsed_uuid};

verus! {

/// Available campus locations.
/// A driver can only give rides to people on their campus.
#[derive(Clone, Copy, Debug, PartialEq, Eq, Structural, Hash)]
pub enum Campus {
    /// Rochester Institute of Technology
    RIT,
    /// University of Rochester
    UofR,
}

impl Campus {
    /// The campus that a stored name stands for: `"RIT"` is RIT, every other
    /// text is the University of Rochester.
    pub open spec fn of_name(name: Seq<char>) -> Campus {
        if name == "RIT"@ {
            Campus::RIT
        } else {
            Campus::UofR
        }
    }

    /// The name under which the campus is stored.
    pub open spec fn name(self) -> &'static str {
        match self {
            Campus::RIT => "RIT",
            Campus::UofR => "UR",
        }
    }
}

impl From<&str> for Campus {
    fn from(s: &str) -> (campus: Campus)
        ensures
            campus == Campus::of_name(s@),
    {
        let given = s.to_owned();
        let rit = "RIT".to_owned();
        if given == rit {
            Campus::RIT
        } else {
            Campus::UofR
        }
    }
}

impl FromSpecImpl<&str> for Campus {
    open spec fn obeys_from_spec() -> bool {
        true
    }

    open spec fn from_spec(s: &str) -> Campus {
        Campus::of_name(s@)
    }
}

impl From<Campus> for &'static str {
    fn from(campus: Campus) -> (name: &'static str)
        ensures
            name == campus.name(),
    {
        match campus {
            Campus::RIT => "RIT",
            Campus::UofR => "UR",
        }
    }
}

impl FromSpecImpl<Campus> for &'static str {
    open spec fn obeys_from_spec() -> bool {
        true
    }

    open spec fn from_spec(campus: Campus) -> &'static str {
        campus.name()
    }
}

impl From<Campus> for String {
    fn from(campus: Campus) -> (name: String)
        ensures
            name@ == campus.name()@,
    {
        match campus {
            Campus::RIT => "RIT".to_owned(),
            Campus::UofR => "UR".to_owned(),
        }
    }
}

impl FromSpecImpl<Campus> for String {
    /// A `String` is known by its view only, so the conversion is stated by
    /// the `ensures` of `from` and not by a spec value.
    open spec fn obeys_from_spec() -> bool {
        false
    }

    open spec fn from_spec(campus: Campus) -> String {
        arbitrary()
    }
}

/// A value of a row of the database.
#[derive(Debug, PartialEq, Eq)]
pub enum Value {
    /// Binary data
    Binary(Vec<u8>),
    /// A number with a fraction; no column of the rows that are read here
    /// holds one, and what it holds is not kept
    Float,
    /// An integer
    Integer(i64),
    /// A text
    String(String),
    /// No value
    Null,
}

/// A value of a row as a value: text and bytes as sequences.
pub enum ValueView {
    Binary(Seq<u8>),
    Float,
    Integer(i64),
    String(Seq<char>),
    Null,
}

impl View for Value {
    type V = ValueView;

    open spec fn view(&self) -> ValueView {
        match self {
            Value::Binary(bytes) => ValueView::Binary(bytes@),
            Value::Float => ValueView::Float,
            Value::Integer(n) => ValueView::Integer(*n),
            Value::String(text) => ValueView::String(text@),
            Value::Null => ValueView::Null,
        }
    }
}

/// Why a row does not make a record of the data model.
#[derive(Clone, Copy, Debug, PartialEq, Eq, Structural)]
pub enum MalformedRow {
    /// The row has no value at this column.
    Missing(usize),
    /// The value at this column is no text.
    NotText(usize),
    /// The value at this column is no integer.
    NotInteger(usize),
    /// The text at this column is no UUID.
    NotUuid(usize),
    /// The integer at this column is no time that a calendar can show.
    NotTime(usize),
}

impl Value {
    /// The text, where the value is one.
    pub fn as_string(&self) -> (text: Option<&str>)
        ensures
            match text {
                Some(t) => self matches Value::String(s) && t@ == s@,
                None => !(self is String),
            },
    {
        match self {
            Value::String(s) => Some(s.as_str()),
            _ => None,
        }
    }

    /// The integer, where the value is one.
    pub fn as_integer(&self) -> (number: Option<i64>)
        ensures
            match number {
                Some(n) => self == Value::Integer(n),
                None => !(self is Integer),
            },
    {
        match self {
            Value::Integer(n) => Some(*n),
            _ => None,
        }
    }
}

/// The text at a column of a row.
pub open spec fn text_at(row: Seq<Value>, column: int) -> Result<Seq<char>, MalformedRow> {
    if !(0 <= column < row.len()) {
        Err(MalformedRow::Missing(column as usize))
    } else {
        match row[column] {
            Value::String(s) => Ok(s@),
            _ => Err(MalformedRow::NotText(column as usize)),
        }
    }
}

/// The integer at a column of a row.
pub open spec fn integer_at(row: Seq<Value>, column: int) -> Result<i64, MalformedRow> {
    if !(0 <= column < row.len()) {
        Err(MalformedRow::Missing(column as usize))
    } else {
        match row[column] {
            Value::Integer(n) => Ok(n),
            _ => Err(MalformedRow::NotInteger(column as usize)),
        }
    }
}

/// The id at a column of a row: the text there, read as a UUID.
pub open spec fn id_at(row: Seq<Value>, column: int) -> Result<u128, MalformedRow> {
    match text_at(row, column) {
        Ok(text) => match parsed_uuid(text) {
            Some(id) => Ok(id),
            None => Err(MalformedRow::NotUuid(column as usize)),
        },
        Err(e) => Err(e),
    }
}

/// The time at a column of a row: the integer there, where it is a number
/// of seconds that a calendar can show.
pub open spec fn time_at(row: Seq<Value>, column: int) -> Result<i64, MalformedRow> {
    match integer_at(row, column) {
        Ok(seconds) => if is_timestamp(seconds) {
            Ok(seconds)
        } else {
            Err(MalformedRow::NotTime(column as usize))
        },
        Err(e) => Err(e),
    }
}

/// The campus at a column of a row: the campus that the text there names.
pub open spec fn campus_at(row: Seq<Value>, column: int) -> Result<Campus, MalformedRow> {
    match text_at(row, column) {
        Ok(text) => Ok(Campus::of_name(text)),
        Err(e) => Err(e),
    }
}

/// Reads the text at a column of a row.
pub fn read_text(row: &[Value], column: usize) -> (text: Result<String, MalformedRow>)
    ensures
        match text {
            Ok(t) => text_at(row@, column as int) == Ok::<Seq<char>, MalformedRow>(t@),
            Err(e) => text_at(row@, column as int) == Err::<Seq<char>, MalformedRow>(e),
        },
{
    if column >= row.len() {
        return Err(MalformedRow::Missing(column));
    }
    match row[column].as_string() {
        Some(text) => Ok(text.to_owned()),
        None => Err(MalformedRow::NotText(column)),
    }
}

/// Reads the integer at a column of a row.
pub fn read_integer(row: &[Value], column: usize) -> (number: Result<i64, MalformedRow>)
    ensures
        number == integer_at(row@, column as int),
{
    if column >= row.len() {
        return Err(MalformedRow::Missing(column));
    }
    match row[column].as_integer() {
        Some(number) => Ok(number),
        None => Err(MalformedRow::NotInteger(column)),
    }
}

/// Reads the id at a column of a row.
pub fn read_id(row: &[Value], column: usize) -> (id: Result<u128, MalformedRow>)
    ensures
        id == id_at(row@, column as int),
{
    if column >= row.len() {
        return Err(MalformedRow::Missing(column));
    }
    match row[column].as_string() {
        Some(text) => match parse_uuid(text) {
            Some(id) => Ok(id),
            None => Err(MalformedRow::NotUuid(column)),
        },
        None => Err(MalformedRow::NotText(column)),
    }
}

/// Reads the time at a column of a row.
pub fn read_time(row: &[Value], column: usize) -> (time: Result<i64, MalformedRow>)
    ensures
        time == time_at(row@, column as int),
{
    let seconds = read_integer(row, column)?;
    if timestamp_in_range(seconds) {
        Ok(seconds)
    } else {
        Err(MalformedRow::NotTime(column))
    }
}

/// Reads the campus at a column of a row.
pub fn read_campus(row: &[Value], column: usize) -> (campus: Result<Campus, MalformedRow>)
    ensures
        campus == campus_at(row@, column as int),
{
    if column >= row.len() {
        return Err(MalformedRow::Missing(column));
    }
    match row[column].as_string() {
        Some(text) => Ok(Campus::from(text)),
        None => Err(MalformedRow::NotText(column)),
    }
}

/// A user of the app, who can act as a driver or as a rider.
#[derive(Debug, PartialEq, Eq)]
pub struct User {
    /// Unique user id
    pub id: u128,
    pub email: String,
    pub fullname: String,
    /// Hashed with bcrypt
    pub password: String,
    /// Phone number
    pub number: String,
    /// Default campus of the user
    pub campus: Campus,
}

/// A single event that people need rides to or can give rides to.
/// Events that have passed are deleted by the worker.
#[derive(Debug, PartialEq, Eq)]
pub struct Event {
    pub id: u128,
    pub name: String,
    /// Scheduled time, in seconds since the Unix epoch
    pub time: i64,
    pub address1: String,
    pub address2: String,
    pub city: String,
    pub state: String,
    pub zipcode: String,
    /// Id of the user who created and can delete this event
    pub creator_id: u128,
}

/// Information about a driver's vehicle.
#[derive(Debug, PartialEq, Eq)]
pub struct Vehicle {
    pub id: u128,
    pub owner_id: u128,
    pub color: String,
    pub make: String,
    pub model: String,
}

/// A driver for a single event.
#[derive(Clone, Copy, Debug, PartialEq, Eq, Structural)]
pub struct Driver {
    /// The event that the driver will drive for
    pub event_id: u128,
    /// The user id of the driver
    pub driver_id: u128,
    /// Number of total seats
    pub seats: i64,
    /// The vehicle that the driver will be driving
    pub vehicle_id: u128,
    /// Campus the driver will be driving from
    pub campus: Campus,
}

/// A single ride for a single event.
#[derive(Debug, PartialEq, Eq)]
pub struct Ride {
    /// The user id of the rider
    pub rider_id: u128,
    /// The user id of the driver, once one is assigned
    pub driver_id: Option<u128>,
    /// The id of the event
    pub event_id: u128,
    /// The campus to be picked up from
    pub campus: Campus,
    /// The location where the rider wants to be picked up
    pub pickup_location: String,
}

/// All that a driver or rider needs to know of one event.
#[derive(Debug, PartialEq, Eq)]
pub struct EventData {
    pub event: Event,
    /// The riders that the user drives, each with their pickup location
    pub riders: Option<Vec<(User, String)>>,
    /// The driver of the user, with their vehicle
    pub driver: Option<(User, Vehicle)>,
    /// Whether the user drives for this event
    pub is_driver: bool,
}

/// A user as a value: the texts as sequences of characters.
pub struct UserView {
    pub id: u128,
    pub email: Seq<char>,
    pub fullname: Seq<char>,
    pub password: Seq<char>,
    pub number: Seq<char>,
    pub campus: Campus,
}

/// An event as a value.
pub struct EventView {
    pub id: u128,
    pub name: Seq<char>,
    pub time: i64,
    pub address1: Seq<char>,
    pub address2: Seq<char>,
    pub city: Seq<char>,
    pub state: Seq<char>,
    pub zipcode: Seq<char>,
    pub creator_id: u128,
}

/// A vehicle as a value.
pub struct VehicleView {
    pub id: u128,
    pub owner_id: u128,
    pub color: Seq<char>,
    pub make: Seq<char>,
    pub model: Seq<char>,
}

/// A ride as a value.
pub struct RideView {
    pub rider_id: u128,
    pub driver_id: Option<u128>,
    pub event_id: u128,
    pub campus: Campus,
    pub pickup_location: Seq<char>,
}

impl View for User {
    type V = UserView;

    open spec fn view(&self) -> UserView {
        UserView {
            id: self.id,
            email: self.email@,
            fullname: self.fullname@,
            password: self.password@,
            number: self.number@,
            campus: self.campus,
        }
    }
}

impl View for Event {
    type V = EventView;

    open spec fn view(&self) -> EventView {
        EventView {
            id: self.id,
            name: self.name@,
            time: self.time,
            address1: self.address1@,
            address2: self.address2@,
            city: self.city@,
            state: self.state@,
            zipcode: self.zipcode@,
            creator_id: self.creator_id,
        }
    }
}

impl View for Vehicle {
    type V = VehicleView;

    open spec fn view(&self) -> VehicleView {
        VehicleView {
            id: self.id,
            owner_id: self.owner_id,
            color: self.color@,
            make: self.make@,
            model: self.model@,
        }
    }
}

impl View for Ride {
    type V = RideView;

    open spec fn view(&self) -> RideView {
        RideView {
            rider_id: self.rider_id,
            driver_id: self.driver_id,
            event_id: self.event_id,
            campus: self.campus,
            pickup_location: self.pickup_location@,
        }
    }
}

/// The user that a row describes: id, email, full name, password hash,
/// phone number and campus, in this order from column `start` on. Where a
/// column cannot be read, the first such column says why.
pub open spec fn user_of(row: Seq<Value>, start: int) -> Result<UserView, MalformedRow> {
    match id_at(row, start) {
        Err(e) => Err(e),
        Ok(id) => match text_at(row, start + 1) {
            Err(e) => Err(e),
            Ok(email) => match text_at(row, start + 2) {
                Err(e) => Err(e),
                Ok(fullname) => match text_at(row, start + 3) {
                    Err(e) => Err(e),
                    Ok(password) => match text_at(row, start + 4) {
                        Err(e) => Err(e),
                        Ok(number) => match campus_at(row, start + 5) {
                            Err(e) => Err(e),
                            Ok(campus) => Ok(
                                UserView { id, email, fullname, password, number, campus },
                            ),
                        },
                    },
                },
            },
        },
    }
}

/// The event that a row describes: id, name, time, the two address lines,
/// city, state, zip code and creator, in this order from the first column
/// on.
pub open spec fn event_of(row: Seq<Value>) -> Result<EventView, MalformedRow> {
    match id_at(row, 0) {
        Err(e) => Err(e),
        Ok(id) => match text_at(row, 1) {
            Err(e) => Err(e),
            Ok(name) => match time_at(row, 2) {
                Err(e) => Err(e),
                Ok(time) => match text_at(row, 3) {
                    Err(e) => Err(e),
                    Ok(address1) => match text_at(row, 4) {
                        Err(e) => Err(e),
                        Ok(address2) => match text_at(row, 5) {
                            Err(e) => Err(e),
                            Ok(city) => match text_at(row, 6) {
                                Err(e) => Err(e),
                                Ok(state) => match text_at(row, 7) {
                                    Err(e) => Err(e),
                                    Ok(zipcode) => match id_at(row, 8) {
                                        Err(e) => Err(e),
                                        Ok(creator_id) => Ok(
                                            EventView {
                                                id,
                                                name,
                                                time,
                                                address1,
                                                address2,
                                                city,
                                                state,
                                                zipcode,
                                                creator_id,
                                            },
                                        ),
                                    },
                                },
                            },
                        },
                    },
                },
            },
        },
    }
}

/// The vehicle that a row describes: id, owner, color, make and model, in
/// this order from column `start` on.
pub open spec fn vehicle_of(row: Seq<Value>, start: int) -> Result<VehicleView, MalformedRow> {
    match id_at(row, start) {
        Err(e) => Err(e),
        Ok(id) => match id_at(row, start + 1) {
            Err(e) => Err(e),
            Ok(owner_id) => match text_at(row, start + 2) {
                Err(e) => Err(e),
                Ok(color) => match text_at(row, start + 3) {
                    Err(e) => Err(e),
                    Ok(make) => match text_at(row, start + 4) {
                        Err(e) => Err(e),
                        Ok(model) => Ok(VehicleView { id, owner_id, color, make, model }),
                    },
                },
            },
        },
    }
}

/// The driver that a row describes: event, user, seats, vehicle and campus,
/// in this order from the first column on.
pub open spec fn driver_of(row: Seq<Value>) -> Result<Driver, MalformedRow> {
    match id_at(row, 0) {
        Err(e) => Err(e),
        Ok(event_id) => match id_at(row, 1) {
            Err(e) => Err(e),
            Ok(driver_id) => match integer_at(row, 2) {
                Err(e) => Err(e),
                Ok(seats) => match id_at(row, 3) {
                    Err(e) => Err(e),
                    Ok(vehicle_id) => match campus_at(row, 4) {
                        Err(e) => Err(e),
                        Ok(campus) => Ok(Driver { event_id, driver_id, seats, vehicle_id, campus }),
                    },
                },
            },
        },
    }
}

/// The driver of a ride as a row gives it at a column: none where the value
/// there is `Null`, else the id that the text there is.
pub open spec fn driver_at(row: Seq<Value>, column: int) -> Result<Option<u128>, MalformedRow> {
    if 0 <= column < row.len() && row[column] is Null {
        Ok(None)
    } else {
        match id_at(row, column) {
            Ok(id) => Ok(Some(id)),
            Err(e) => Err(e),
        }
    }
}

/// The ride that a row describes: rider, driver, event, campus and pickup
/// location, in this order from the first column on.
pub open spec fn ride_of(row: Seq<Value>) -> Result<RideView, MalformedRow> {
    match id_at(row, 0) {
        Err(e) => Err(e),
        Ok(rider_id) => match driver_at(row, 1) {
            Err(e) => Err(e),
            Ok(driver_id) => match id_at(row, 2) {
                Err(e) => Err(e),
                Ok(event_id) => match campus_at(row, 3) {
                    Err(e) => Err(e),
                    Ok(campus) => match text_at(row, 4) {
                        Err(e) => Err(e),
                        Ok(pickup_location) => Ok(
                            RideView { rider_id, driver_id, event_id, campus, pickup_location },
                        ),
                    },
                },
            },
        },
    }
}

impl User {
    /// Reads a user from the first six columns of a row.
    pub fn from(row: &[Value]) -> (user: Result<User, MalformedRow>)
        ensures
            match user {
                Ok(u) => user_of(row@, 0) == Ok::<UserView, MalformedRow>(u@),
                Err(e) => user_of(row@, 0) == Err::<UserView, MalformedRow>(e),
            },
    {
        User::from_columns(row, 0)
    }

    /// Reads a user from the six columns of a row that begin at `start`.
    pub fn from_columns(row: &[Value], start: usize) -> (user: Result<User, MalformedRow>)
        requires
            start + 5 <= usize::MAX,
        ensures
            match user {
                Ok(u) => user_of(row@, start as int) == Ok::<UserView, MalformedRow>(u@),
                Err(e) => user_of(row@, start as int) == Err::<UserView, MalformedRow>(e),
            },
    {
        let id = read_id(row, start)?;
        let email = read_text(row, start + 1)?;
        let fullname = read_text(row, start + 2)?;
        let password = read_text(row, start + 3)?;
        let number = read_text(row, start + 4)?;
        let campus = read_campus(row, start + 5)?;
        Ok(User { id, email, fullname, password, number, campus })
    }
}

impl Event {
    /// Reads an event from the first nine columns of a row.
    pub fn from(row: &[Value]) -> (event: Result<Event, MalformedRow>)
        ensures
            match event {
                Ok(ev) => event_of(row@) == Ok::<EventView, MalformedRow>(ev@),
                Err(e) => event_of(row@) == Err::<EventView, MalformedRow>(e),
            },
    {
        let id = read_id(row, 0)?;
        let name = read_text(row, 1)?;
        let time = read_time(row, 2)?;
        let address1 = read_text(row, 3)?;
        let address2 = read_text(row, 4)?;
        let city = read_text(row, 5)?;
        let state = read_text(row, 6)?;
        let zipcode = read_text(row, 7)?;
        let creator_id = read_id(row, 8)?;
        Ok(Event { id, name, time, address1, address2, city, state, zipcode, creator_id })
    }
}

impl Vehicle {
    /// Reads a vehicle from the first five columns of a row.
    pub fn from(row: &[Value]) -> (vehicle: Result<Vehicle, MalformedRow>)
        ensures
            match vehicle {
                Ok(v) => vehicle_of(row@, 0) == Ok::<VehicleView, MalformedRow>(v@),
                Err(e) => vehicle_of(row@, 0) == Err::<VehicleView, MalformedRow>(e),
            },
    {
        Vehicle::from_columns(row, 0)
    }

    /// Reads a vehicle from the five columns of a row that begin at `start`.
    pub fn from_columns(row: &[Value], start: usize) -> (vehicle: Result<Vehicle, MalformedRow>)
        requires
            start + 4 <= usize::MAX,
        ensures
            match vehicle {
                Ok(v) => vehicle_of(row@, start as int) == Ok::<VehicleView, MalformedRow>(v@),
                Err(e) => vehicle_of(row@, start as int) == Err::<VehicleView, MalformedRow>(e),
            },
    {
        let id = read_id(row, start)?;
        let owner_id = read_id(row, start + 1)?;
        let color = read_text(row, start + 2)?;
        let make = read_text(row, start + 3)?;
        let model = read_text(row, start + 4)?;
        Ok(Vehicle { id, owner_id, color, make, model })
    }
}

impl Driver {
    /// Reads a driver from the first five columns of a row.
    pub fn from(row: &[Value]) -> (driver: Result<Driver, MalformedRow>)
        ensures
            driver == driver_of(row@),
    {
        let event_id = read_id(row, 0)?;
        let driver_id = read_id(row, 1)?;
        let seats = read_integer(row, 2)?;
        let vehicle_id = read_id(row, 3)?;
        let campus = read_campus(row, 4)?;
        Ok(Driver { event_id, driver_id, seats, vehicle_id, campus })
    }
}

impl Ride {
    /// Reads a ride from the first five columns of a row. A ride whose
    /// driver column holds no value has no driver yet.
    pub fn from(row: &[Value]) -> (ride: Result<Ride, MalformedRow>)
        ensures
            match ride {
                Ok(r) => ride_of(row@) == Ok::<RideView, MalformedRow>(r@),
                Err(e) => ride_of(row@) == Err::<RideView, MalformedRow>(e),
            },
    {
        let rider_id = read_id(row, 0)?;
        let driver_id = if 1 < row.len() && is_null(&row[1]) {
            None
        } else {
            Some(read_id(row, 1)?)
        };
        let event_id = read_id(row, 2)?;
        let campus = read_campus(row, 3)?;
        let pickup_location = read_text(row, 4)?;
        Ok(Ride { rider_id, driver_id, event_id, campus, pickup_location })
    }
}

/// Whether the value is `Null`.
fn is_null(value: &Value) -> (null: bool)
    ensures
        null == (value is Null),
{
    match value {
        Value::Null => true,
        _ => false,
    }
}

impl EventData {
    /// Puts together what a user sees of one event: the event, the riders
    /// that the user drives, if there are any, and the driver of the user,
    /// if they have one. The user counts as a driver where they drive a
    /// rider.
    pub fn new(event: Event, riders: Vec<(User, String)>, driver: Option<(User, Vehicle)>) -> (data:
        EventData)
        ensures
            data.event == event,
            data.driver == driver,
            data.is_driver == (riders@.len() > 0),
            data.riders == if riders@.len() == 0 {
                None
            } else {
                Some(riders)
            },
    {
        let is_driver = riders.len() > 0;
        let riders = if riders.len() == 0 {
            None
        } else {
            Some(riders)
        };
        EventData { event, riders, driver, is_driver }
    }
}

impl Clone for User {
    fn clone(&self) -> (copy: User)
        ensures
            copy == *self,
    {
        User {
            id: self.id,
            email: self.email.clone(),
            fullname: self.fullname.clone(),
            password: self.password.clone(),
            number: self.number.clone(),
            campus: self.campus,
        }
    }
}

impl Clone for Event {
    fn clone(&self) -> (copy: Event)
        ensures
            copy == *self,
    {
        Event {
            id: self.id,
            name: self.name.clone(),
            time: self.time,
            address1: self.address1.clone(),
            address2: self.address2.clone(),
            city: self.city.clone(),
            state: self.state.clone(),
            zipcode: self.zipcode.clone(),
            creator_id: self.creator_id,
        }
    }
}

impl Clone for Vehicle {
    fn clone(&self) -> (copy: Vehicle)
        ensures
            copy == *self,
    {
        Vehicle {
            id: self.id,
            owner_id: self.owner_id,
            color: self.color.clone(),
            make: self.make.clone(),
            model: self.model.clone(),
        }
    }
}

impl Clone for Ride {
    fn clone(&self) -> (copy: Ride)
        ensures
            copy == *self,
    {
        Ride {
            rider_id: self.rider_id,
            driver_id: self.driver_id,
            event_id: self.event_id,
            campus: self.campus,
            pickup_location: self.pickup_location.clone(),
        }
    }
}

} // verus!
