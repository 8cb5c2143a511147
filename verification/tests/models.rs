use rides::db::{read_store, BadRow, Table};
use rides::statements::{read_available_driver, read_event_driver, read_passenger};
use rides::models::{
    read_campus, read_id, read_integer, read_text, read_time, Campus, Driver, Event, EventData,
    MalformedRow, Ride, User, Value, Vehicle,
};

const ALICE: &str = "a1a2a3a4-b1b2-c1c2-d1d2-d3d4d5d6d7d8";
const ALICE_ID: u128 = 0xa1a2a3a4b1b2c1c2d1d2d3d4d5d6d7d8;
const BOB: &str = "936DA01F9ABD4d9d80C702AF85C822A8";
const BOB_ID: u128 = 0x936da01f9abd4d9d80c702af85c822a8;
const PARTY: &str = "urn:uuid:00000000-0000-0000-0000-00000000002a";
const CAR: &str = "{00000000-0000-0000-0000-000000000007}";

fn text(s: &str) -> Value {
    Value::String(String::from(s))
}

fn user_row() -> Vec<Value> {
    vec![
        text(ALICE),
        text("alice@rit.edu"),
        text("Alice Liddell"),
        text("$2b$04$hash"),
        text("585-555-0100"),
        text("RIT"),
    ]
}

fn alice() -> User {
    User {
        id: ALICE_ID,
        email: String::from("alice@rit.edu"),
        fullname: String::from("Alice Liddell"),
        password: String::from("$2b$04$hash"),
        number: String::from("585-555-0100"),
        campus: Campus::RIT,
    }
}

fn event_row() -> Vec<Value> {
    vec![
        text(PARTY),
        text("Fall Retreat"),
        Value::Integer(1_431_648_000),
        text("1 Lomb Memorial Dr"),
        text(""),
        text("Rochester"),
        text("NY"),
        text("14623"),
        text(BOB),
    ]
}

fn party() -> Event {
    Event {
        id: 42,
        name: String::from("Fall Retreat"),
        time: 1_431_648_000,
        address1: String::from("1 Lomb Memorial Dr"),
        address2: String::new(),
        city: String::from("Rochester"),
        state: String::from("NY"),
        zipcode: String::from("14623"),
        creator_id: BOB_ID,
    }
}

fn vehicle_row() -> Vec<Value> {
    vec![text(CAR), text(BOB), text("blue"), text("Subaru"), text("Outback")]
}

fn car() -> Vehicle {
    Vehicle {
        id: 7,
        owner_id: BOB_ID,
        color: String::from("blue"),
        make: String::from("Subaru"),
        model: String::from("Outback"),
    }
}

fn driver_row() -> Vec<Value> {
    vec![text(PARTY), text(BOB), Value::Integer(4), text(CAR), text("UR")]
}

fn bob_drives() -> Driver {
    Driver { event_id: 42, driver_id: BOB_ID, seats: 4, vehicle_id: 7, campus: Campus::UofR }
}

fn ride_row(driver: Value) -> Vec<Value> {
    vec![text(ALICE), driver, text(PARTY), text("RIT"), text("Sol Heumann Hall")]
}

fn alice_rides(driver_id: Option<u128>) -> Ride {
    Ride {
        rider_id: ALICE_ID,
        driver_id,
        event_id: 42,
        campus: Campus::RIT,
        pickup_location: String::from("Sol Heumann Hall"),
    }
}

#[test]
fn a_campus_is_known_by_its_name() {
    assert_eq!(Campus::from("RIT"), Campus::RIT);
    assert_eq!(Campus::from("UR"), Campus::UofR);
    assert_eq!(Campus::from("UofR"), Campus::UofR);
    assert_eq!(Campus::from("rit"), Campus::UofR);
    assert_eq!(Campus::from(""), Campus::UofR);
    let rit: &'static str = Campus::RIT.into();
    let ur: &'static str = Campus::UofR.into();
    assert_eq!(rit, "RIT");
    assert_eq!(ur, "UR");
    let rit: String = Campus::RIT.into();
    let ur: String = Campus::UofR.into();
    assert_eq!(rit, "RIT");
    assert_eq!(ur, "UR");
}

#[test]
fn a_campus_comes_back_from_its_name() {
    for campus in [Campus::RIT, Campus::UofR] {
        let name: &'static str = campus.into();
        assert_eq!(Campus::from(name), campus);
    }
}

#[test]
fn values_give_what_they_hold() {
    assert_eq!(text("x").as_string(), Some("x"));
    assert_eq!(Value::Integer(3).as_string(), None);
    assert_eq!(Value::Null.as_string(), None);
    assert_eq!(Value::Integer(-3).as_integer(), Some(-3));
    assert_eq!(text("3").as_integer(), None);
    assert_eq!(Value::Float.as_integer(), None);
    assert_eq!(Value::Binary(vec![1, 2]).as_string(), None);
}

#[test]
fn columns_are_read_or_say_why_not() {
    let row = vec![text(ALICE), Value::Integer(9), text("no id"), Value::Null, text("RIT")];
    assert_eq!(read_id(&row, 0), Ok(ALICE_ID));
    assert_eq!(read_id(&row, 1), Err(MalformedRow::NotText(1)));
    assert_eq!(read_id(&row, 2), Err(MalformedRow::NotUuid(2)));
    assert_eq!(read_id(&row, 5), Err(MalformedRow::Missing(5)));
    assert_eq!(read_text(&row, 2), Ok(String::from("no id")));
    assert_eq!(read_text(&row, 3), Err(MalformedRow::NotText(3)));
    assert_eq!(read_text(&row, 9), Err(MalformedRow::Missing(9)));
    assert_eq!(read_integer(&row, 1), Ok(9));
    assert_eq!(read_integer(&row, 0), Err(MalformedRow::NotInteger(0)));
    assert_eq!(read_integer(&row, 5), Err(MalformedRow::Missing(5)));
    assert_eq!(read_time(&row, 1), Ok(9));
    assert_eq!(read_time(&row, 4), Err(MalformedRow::NotInteger(4)));
    assert_eq!(read_campus(&row, 4), Ok(Campus::RIT));
    assert_eq!(read_campus(&row, 2), Ok(Campus::UofR));
    assert_eq!(read_campus(&row, 1), Err(MalformedRow::NotText(1)));
    assert_eq!(read_campus(&row, 7), Err(MalformedRow::Missing(7)));
}

#[test]
fn a_time_has_to_be_on_the_calendar() {
    assert_eq!(read_time(&[Value::Integer(0)], 0), Ok(0));
    assert_eq!(read_time(&[Value::Integer(-86_400)], 0), Ok(-86_400));
    assert_eq!(read_time(&[Value::Integer(i64::MAX)], 0), Err(MalformedRow::NotTime(0)));
    assert_eq!(read_time(&[Value::Integer(i64::MIN)], 0), Err(MalformedRow::NotTime(0)));
    assert_eq!(read_time(&[], 0), Err(MalformedRow::Missing(0)));
}

#[test]
fn a_user_is_read_from_its_row() {
    assert_eq!(User::from(&user_row()), Ok(alice()));
    let mut long = user_row();
    long.push(text("more"));
    assert_eq!(User::from(&long), Ok(alice()));
    let mut row = vec![text("left")];
    row.extend(user_row());
    assert_eq!(User::from_columns(&row, 1), Ok(alice()));
    assert_eq!(User::from(&row), Err(MalformedRow::NotUuid(0)));
}

#[test]
fn a_row_that_is_no_user_says_where() {
    assert_eq!(User::from(&user_row()[..5]), Err(MalformedRow::Missing(5)));
    assert_eq!(User::from(&[]), Err(MalformedRow::Missing(0)));
    let mut row = user_row();
    row[3] = Value::Null;
    assert_eq!(User::from(&row), Err(MalformedRow::NotText(3)));
    row[1] = Value::Integer(1);
    assert_eq!(User::from(&row), Err(MalformedRow::NotText(1)));
    row[0] = text("a1a2a3a4-b1b2-c1c2-d1d2-d3d4d5d6d7dx");
    assert_eq!(User::from(&row), Err(MalformedRow::NotUuid(0)));
}

#[test]
fn an_event_is_read_from_its_row() {
    assert_eq!(Event::from(&event_row()), Ok(party()));
    let mut row = event_row();
    row[2] = Value::Integer(i64::MAX);
    assert_eq!(Event::from(&row), Err(MalformedRow::NotTime(2)));
    row[2] = text("1431648000");
    assert_eq!(Event::from(&row), Err(MalformedRow::NotInteger(2)));
    row[8] = text("nobody");
    assert_eq!(Event::from(&row), Err(MalformedRow::NotInteger(2)));
    row[2] = Value::Integer(0);
    assert_eq!(Event::from(&row), Err(MalformedRow::NotUuid(8)));
    assert_eq!(Event::from(&event_row()[..8]), Err(MalformedRow::Missing(8)));
}

#[test]
fn a_vehicle_is_read_from_its_row() {
    assert_eq!(Vehicle::from(&vehicle_row()), Ok(car()));
    let mut row = vehicle_row();
    row[1] = Value::Binary(vec![1]);
    assert_eq!(Vehicle::from(&row), Err(MalformedRow::NotText(1)));
    assert_eq!(Vehicle::from(&vehicle_row()[..4]), Err(MalformedRow::Missing(4)));
}

#[test]
fn a_driver_is_read_from_its_row() {
    assert_eq!(Driver::from(&driver_row()), Ok(bob_drives()));
    let mut row = driver_row();
    row[2] = Value::Float;
    assert_eq!(Driver::from(&row), Err(MalformedRow::NotInteger(2)));
    row[2] = Value::Integer(-1);
    row[4] = text("RIT");
    assert_eq!(
        Driver::from(&row),
        Ok(Driver { seats: -1, campus: Campus::RIT, ..bob_drives() })
    );
}

#[test]
fn a_ride_is_read_from_its_row() {
    assert_eq!(Ride::from(&ride_row(Value::Null)), Ok(alice_rides(None)));
    assert_eq!(Ride::from(&ride_row(text(BOB))), Ok(alice_rides(Some(BOB_ID))));
    assert_eq!(Ride::from(&ride_row(text(""))), Err(MalformedRow::NotUuid(1)));
    assert_eq!(Ride::from(&ride_row(Value::Integer(0))), Err(MalformedRow::NotText(1)));
    assert_eq!(Ride::from(&ride_row(Value::Null)[..1]), Err(MalformedRow::Missing(1)));
    assert_eq!(Ride::from(&ride_row(Value::Null)[..4]), Err(MalformedRow::Missing(4)));
}

#[test]
fn a_driver_comes_with_their_count() {
    let mut row = driver_row();
    assert_eq!(read_available_driver(&row), Err(MalformedRow::Missing(5)));
    row.push(Value::Integer(3));
    assert_eq!(read_available_driver(&row), Ok((bob_drives(), 3)));
    row[5] = Value::Null;
    assert_eq!(read_available_driver(&row), Err(MalformedRow::NotInteger(5)));
    row[0] = Value::Null;
    assert_eq!(read_available_driver(&row), Err(MalformedRow::NotText(0)));
}

#[test]
fn a_passenger_comes_with_their_pickup() {
    let mut row = user_row();
    row.push(text("Grace Watson Hall"));
    assert_eq!(read_passenger(&row), Ok((alice(), String::from("Grace Watson Hall"))));
    row[6] = Value::Null;
    assert_eq!(read_passenger(&row), Err(MalformedRow::NotText(6)));
    row[5] = Value::Null;
    assert_eq!(read_passenger(&row), Err(MalformedRow::NotText(5)));
    assert_eq!(read_passenger(&user_row()), Err(MalformedRow::Missing(6)));
}

#[test]
fn the_driver_of_an_event_comes_with_their_vehicle() {
    let mut row = user_row();
    row.extend(vehicle_row());
    assert_eq!(read_event_driver(&row), Ok((alice(), car())));
    row[8] = Value::Integer(1);
    assert_eq!(read_event_driver(&row), Err(MalformedRow::NotText(8)));
    assert_eq!(read_event_driver(&user_row()), Err(MalformedRow::Missing(6)));
}

#[test]
fn the_store_is_read_table_by_table() {
    let events = vec![event_row()];
    let drivers = vec![driver_row()];
    let rides = vec![ride_row(Value::Null), ride_row(text(BOB))];
    let store = read_store(&events, &drivers, &rides).unwrap();
    assert_eq!(store.events, vec![party()]);
    assert_eq!(store.drivers, vec![bob_drives()]);
    assert_eq!(store.rides, vec![alice_rides(None), alice_rides(Some(BOB_ID))]);

    let empty = read_store(&vec![], &vec![], &vec![]).unwrap();
    assert!(empty.events.is_empty() && empty.drivers.is_empty() && empty.rides.is_empty());
}

#[test]
fn the_first_bad_row_is_named() {
    let mut short = event_row();
    short.truncate(3);
    let events = vec![event_row(), short];
    let drivers = vec![driver_row(), driver_row(), vec![Value::Null]];
    let rides = vec![ride_row(Value::Float)];
    assert_eq!(
        read_store(&events, &drivers, &rides),
        Err(BadRow { table: Table::Events, row: 1, problem: MalformedRow::Missing(3) })
    );
    let events = vec![event_row()];
    assert_eq!(
        read_store(&events, &drivers, &rides),
        Err(BadRow { table: Table::Drivers, row: 2, problem: MalformedRow::NotText(0) })
    );
    let drivers = vec![driver_row()];
    assert_eq!(
        read_store(&events, &drivers, &rides),
        Err(BadRow { table: Table::Rides, row: 0, problem: MalformedRow::NotText(1) })
    );
}

#[test]
fn event_data_has_riders_or_none() {
    let none = EventData::new(party(), vec![], None);
    assert_eq!(none.event, party());
    assert_eq!(none.riders, None);
    assert_eq!(none.driver, None);
    assert!(!none.is_driver);

    let riders = vec![(alice(), String::from("Sol Heumann Hall"))];
    let some = EventData::new(party(), riders.clone(), Some((alice(), car())));
    assert_eq!(some.riders, Some(riders));
    assert_eq!(some.driver, Some((alice(), car())));
    assert!(some.is_driver);
}

#[test]
fn records_are_copied_whole() {
    assert_eq!(alice().clone(), alice());
    assert_eq!(party().clone(), party());
    assert_eq!(car().clone(), car());
    assert_eq!(alice_rides(Some(BOB_ID)).clone(), alice_rides(Some(BOB_ID)));
}
