use rides::statements::{
    assign_rider, closing, create_database, create_driver, create_event, create_ride, create_user,
    create_vehicle, delete_user_event, get_driver_events, get_driver_passengers,
    get_driver_vehicles, get_event_driver, get_rider_events, get_user, get_user_by_email,
    get_vehicle, new_event, new_user, new_vehicle, store_user, Query, Statement, DB_PATH,
    HASH_COST,
};
use rides::email::{reset_email_form, reset_variables, FROM, SUBJECT, TEMPLATE, URL};
use rides::ids::{from_text, to_text};
use rides::models::{Campus, User, Value};
use rides::store::Assignment;
use rides::webserver::{
    authorized, check_invitation, check_signup, event_time, events_href, invite_id,
    invite_id_or_new, login, login_with, Invitation, SignupError, EVENT_TIME_FORMAT,
    LOGIN_REFUSED,
};

const ALICE: &str = "a1a2a3a4-b1b2-c1c2-d1d2-d3d4d5d6d7d8";
const ALICE_ID: u128 = 0xa1a2a3a4b1b2c1c2d1d2d3d4d5d6d7d8;
const PARTY: &str = "00000000-0000-0000-0000-00000000002a";
const CAR: &str = "00000000-0000-0000-0000-000000000007";
const HASH: &str = "$2b$04$EGdrhbKUv8Oc9vGiXX0HQOxSg445d458Muh7DAHskb6QbtCvdxcie";

fn text(s: &str) -> Value {
    Value::String(String::from(s))
}

fn own(s: &str) -> String {
    String::from(s)
}

fn alice(password: &str) -> User {
    User {
        id: ALICE_ID,
        email: own("alice@rit.edu"),
        fullname: own("Alice Liddell"),
        password: own(password),
        number: own("585-555-0100"),
        campus: Campus::RIT,
    }
}

#[test]
fn ids_are_written_as_uuids() {
    assert_eq!(to_text(ALICE_ID), ALICE);
    assert_eq!(to_text(42), PARTY);
    assert_eq!(to_text(0), "00000000-0000-0000-0000-000000000000");
    assert_eq!(from_text(ALICE), Some(ALICE_ID));
    assert_eq!(from_text("A1A2A3A4B1B2C1C2D1D2D3D4D5D6D7D8"), Some(ALICE_ID));
    assert_eq!(from_text("{a1a2a3a4-b1b2-c1c2-d1d2-d3d4d5d6d7d8}"), Some(ALICE_ID));
    assert_eq!(from_text("urn:uuid:a1a2a3a4-b1b2-c1c2-d1d2-d3d4d5d6d7d8"), Some(ALICE_ID));
    assert_eq!(from_text("a1a2a3a4-b1b2-c1c2-d1d2-d3d4d5d6d7d"), None);
    assert_eq!(from_text("a1a2a3a4_b1b2_c1c2_d1d2_d3d4d5d6d7d8"), None);
    assert_eq!(from_text(""), None);
    for id in [0, 1, ALICE_ID, u128::MAX] {
        assert_eq!(from_text(&to_text(id)), Some(id));
    }
}

#[test]
fn a_new_database_is_set_up_once() {
    assert_eq!(create_database(true), None);
    assert_eq!(
        create_database(false),
        Some(Statement { query: Query::InitDatabase, values: vec![] })
    );
    assert_eq!(DB_PATH, "rides.db");
}

#[test]
fn a_user_is_stored_with_id_and_hash() {
    let statement =
        new_user(ALICE_ID, own("alice@rit.edu"), own("Alice"), own(HASH), own("555"), Campus::UofR);
    assert_eq!(statement.query, Query::CreateUser);
    assert_eq!(
        statement.values,
        vec![text(ALICE), text("alice@rit.edu"), text("Alice"), text(HASH), text("555"), text("UR")]
    );
}

#[test]
fn a_user_is_stored_where_there_is_a_hash() {
    let store = |hashed: Option<String>| {
        store_user(ALICE_ID, own("alice@rit.edu"), own("Alice"), hashed, own("555"), Campus::RIT)
    };
    assert_eq!(store(None), None);
    assert_eq!(
        store(Some(own(HASH))),
        Some(Statement {
            query: Query::CreateUser,
            values: vec![
                text(ALICE),
                text("alice@rit.edu"),
                text("Alice"),
                text(HASH),
                text("555"),
                text("RIT")
            ]
        })
    );
}

#[test]
fn a_created_user_gets_a_new_id_and_a_hash_of_the_password() {
    assert_eq!(HASH_COST, 7);
    let create = || {
        create_user(own("bob@rochester.edu"), own("Bob"), own("hunter22"), own("555"), Campus::RIT)
            .unwrap()
    };
    let first = create();
    let second = create();
    assert_eq!(first.query, Query::CreateUser);
    assert_eq!(first.values.len(), 6);
    assert_eq!(first.values[1], text("bob@rochester.edu"));
    assert_eq!(first.values[2], text("Bob"));
    assert_eq!(first.values[4], text("555"));
    assert_eq!(first.values[5], text("RIT"));
    let id = first.values[0].as_string().unwrap();
    assert_eq!(id.len(), 36);
    assert_ne!(first.values[0], second.values[0]);
    assert_eq!(check_invitation(Some(id), 0), Invitation::Refused);
    let hash = first.values[3].as_string().unwrap();
    assert_ne!(hash, "hunter22");
    assert!(hash.starts_with("$2b$07$"));
    assert_eq!(login(Some(&alice(hash)), "hunter22"), Some(ALICE_ID));
    assert_eq!(login(Some(&alice(hash)), "hunter23"), None);
}

#[test]
fn users_are_asked_for_by_email_or_id() {
    assert_eq!(
        get_user_by_email(own("alice@rit.edu")),
        Statement { query: Query::GetUserByEmail, values: vec![text("alice@rit.edu")] }
    );
    assert_eq!(get_user(ALICE_ID), Statement { query: Query::GetUser, values: vec![text(ALICE)] });
    assert_eq!(
        get_user(0),
        Statement {
            query: Query::GetUser,
            values: vec![text("00000000-0000-0000-0000-000000000000")]
        }
    );
    assert_eq!(
        get_user(u128::MAX),
        Statement {
            query: Query::GetUser,
            values: vec![text("ffffffff-ffff-ffff-ffff-ffffffffffff")]
        }
    );
}

#[test]
fn statements_bind_their_ids_in_order() {
    assert_eq!(
        get_driver_passengers(42, ALICE_ID),
        Statement { query: Query::GetDriverPassengers, values: vec![text(PARTY), text(ALICE)] }
    );
    assert_eq!(
        get_event_driver(42, ALICE_ID),
        Statement { query: Query::GetEventDriver, values: vec![text(PARTY), text(ALICE)] }
    );
    assert_eq!(
        get_driver_vehicles(ALICE_ID),
        Statement { query: Query::GetDriverVehicles, values: vec![text(ALICE)] }
    );
    assert_eq!(get_vehicle(7), Statement { query: Query::GetVehicle, values: vec![text(CAR)] });
    assert_eq!(
        get_driver_events(ALICE_ID),
        Statement { query: Query::GetDriverEvents, values: vec![text(ALICE)] }
    );
    assert_eq!(
        get_rider_events(ALICE_ID),
        Statement { query: Query::GetRiderEvents, values: vec![text(ALICE)] }
    );
    assert_eq!(
        assign_rider(&Assignment { ride: 3, event_id: 42, rider_id: ALICE_ID, driver_id: 7 }),
        Statement { query: Query::AssignRider, values: vec![text(CAR), text(PARTY), text(ALICE)] }
    );
}

#[test]
fn a_driver_is_stored_with_their_seats() {
    assert_eq!(
        create_driver(ALICE_ID, 42, 7, 4, Campus::UofR),
        Statement {
            query: Query::CreateDriver,
            values: vec![text(ALICE), text(PARTY), text(CAR), Value::Integer(4), text("UR")]
        }
    );
    assert_eq!(create_driver(1, 2, 3, 0, Campus::RIT).values[3], Value::Integer(0));
    assert_eq!(create_driver(1, 2, 3, usize::MAX, Campus::RIT).values[3], Value::Integer(-1));
}

#[test]
fn a_ride_is_stored_with_its_pickup() {
    assert_eq!(
        create_ride(ALICE_ID, 42, Campus::RIT, own("Sol Heumann Hall")),
        Statement {
            query: Query::CreateRide,
            values: vec![text(ALICE), text(PARTY), text("RIT"), text("Sol Heumann Hall")]
        }
    );
}

#[test]
fn an_event_is_stored_with_its_time_in_seconds() {
    let values = || {
        vec![
            text(PARTY),
            text("Fall Retreat"),
            Value::Integer(1_431_648_000),
            text("1 Lomb Memorial Dr"),
            text(""),
            text("Rochester"),
            text("NY"),
            text("14623"),
            text(ALICE),
        ]
    };
    let make = |id: Option<u128>| {
        let (name, a1, a2) = (own("Fall Retreat"), own("1 Lomb Memorial Dr"), own(""));
        let (city, state, zip) = (own("Rochester"), own("NY"), own("14623"));
        match id {
            Some(id) => new_event(id, name, 1_431_648_000, a1, a2, city, state, zip, ALICE_ID),
            None => create_event(name, 1_431_648_000, a1, a2, city, state, zip, ALICE_ID),
        }
    };
    assert_eq!(make(Some(42)), Statement { query: Query::CreateEvent, values: values() });
    let created = make(None);
    assert_eq!(created.query, Query::CreateEvent);
    assert_eq!(created.values[1..], values()[1..]);
    assert_ne!(created.values[0], make(None).values[0]);
    assert_eq!(created.values[0].as_string().unwrap().len(), 36);
}

#[test]
fn a_vehicle_is_stored_for_its_owner() {
    let values = || vec![text(CAR), text(ALICE), text("blue"), text("Subaru"), text("Outback")];
    assert_eq!(
        new_vehicle(7, ALICE_ID, own("blue"), own("Subaru"), own("Outback")),
        Statement { query: Query::CreateVehicle, values: values() }
    );
    let created = create_vehicle(ALICE_ID, own("blue"), own("Subaru"), own("Outback"));
    assert_eq!(created.query, Query::CreateVehicle);
    assert_eq!(created.values[1..], values()[1..]);
    assert_eq!(created.values[0].as_string().unwrap().len(), 36);
}

#[test]
fn a_user_leaves_an_event_in_one_transaction() {
    let both = || vec![text(ALICE), text(PARTY)];
    assert_eq!(
        delete_user_event(ALICE_ID, 42),
        vec![
            Statement { query: Query::Begin, values: vec![] },
            Statement { query: Query::DeleteUserRides, values: both() },
            Statement { query: Query::DeleteUserRidesDrives, values: both() },
            Statement { query: Query::DeleteUserDrives, values: both() },
            Statement { query: Query::Commit, values: vec![] },
        ]
    );
}

#[test]
fn a_transaction_ends_as_it_went() {
    assert_eq!(closing(true), Statement { query: Query::Commit, values: vec![] });
    assert_eq!(closing(false), Statement { query: Query::Rollback, values: vec![] });
    assert_eq!(Statement::plain(Query::AllRides), Statement { query: Query::AllRides, values: vec![] });
}

#[test]
fn only_a_session_that_says_so_is_logged_in() {
    assert!(authorized(Some(true)));
    assert!(!authorized(Some(false)));
    assert!(!authorized(None));
}

#[test]
fn a_flow_leads_to_its_page() {
    assert_eq!(events_href("drive"), Some("/vehicles"));
    assert_eq!(events_href("ride"), Some("/pickup"));
    assert_eq!(events_href("Drive"), None);
    assert_eq!(events_href(""), None);
    assert_eq!(events_href("rides"), None);
}

#[test]
fn a_sign_up_needs_a_password_twice() {
    assert_eq!(check_signup("password", "password"), Ok(()));
    assert_eq!(check_signup("passwords", "password"), Err(SignupError::PasswordsDiffer));
    assert_eq!(check_signup("short", "shore"), Err(SignupError::PasswordsDiffer));
    assert_eq!(check_signup("seven77", "seven77"), Err(SignupError::PasswordTooShort));
    assert_eq!(check_signup("", ""), Err(SignupError::PasswordTooShort));
    assert_eq!(check_signup("äöüß", "äöüß"), Ok(()));
    assert_eq!(SignupError::PasswordsDiffer.message(), "Passwords do not match");
    assert_eq!(
        SignupError::PasswordTooShort.message(),
        "Password must be 8 characters or more"
    );
}

#[test]
fn an_invitation_has_to_be_the_one_of_the_server() {
    assert_eq!(check_invitation(None, ALICE_ID), Invitation::Missing);
    assert_eq!(check_invitation(Some("friend"), ALICE_ID), Invitation::Malformed);
    assert_eq!(check_invitation(Some(PARTY), ALICE_ID), Invitation::Refused);
    assert_eq!(check_invitation(Some(ALICE), ALICE_ID), Invitation::Accepted);
    assert_eq!(
        check_invitation(Some("A1A2A3A4B1B2C1C2D1D2D3D4D5D6D7D8"), ALICE_ID),
        Invitation::Accepted
    );
}

#[test]
fn the_invitation_comes_from_the_environment() {
    let vars = vec![
        (own("PATH"), own(ALICE)),
        (own("INVITE_ID"), own("not an id")),
        (own("INVITE_ID"), own(PARTY)),
        (own("INVITE_ID"), own(CAR)),
    ];
    assert_eq!(invite_id(&vars, 5), 42);
    assert_eq!(invite_id(&vars[..2].to_vec(), 5), 5);
    assert_eq!(invite_id(&Vec::new(), 5), 5);
    assert_eq!(invite_id_or_new(&vars), 42);
    assert_ne!(invite_id_or_new(&Vec::new()), invite_id_or_new(&Vec::new()));
}

#[test]
fn a_login_needs_the_password_of_the_hash() {
    assert_eq!(login(Some(&alice(HASH)), "correctbatteryhorsestapler"), Some(ALICE_ID));
    assert_eq!(login(Some(&alice(HASH)), "wrong"), None);
    assert_eq!(login(Some(&alice("correctbatteryhorsestapler")), "correctbatteryhorsestapler"), None);
    assert_eq!(login(None, "correctbatteryhorsestapler"), None);
    assert_eq!(login_with(Some(&alice(HASH)), Some(true)), Some(ALICE_ID));
    assert_eq!(login_with(Some(&alice(HASH)), Some(false)), None);
    assert_eq!(login_with(Some(&alice(HASH)), None), None);
    assert_eq!(login_with(None, Some(true)), None);
    assert_eq!(LOGIN_REFUSED, "Email/Password Incorrect");
}

#[test]
fn an_event_takes_place_at_a_date_and_time() {
    assert_eq!(EVENT_TIME_FORMAT, "%Y-%m-%d %H:%M");
    assert_eq!(event_time("2015-09-05", "23:56"), Some(1_441_497_360));
    assert_eq!(event_time("1970-01-01", "00:00"), Some(0));
    assert_eq!(event_time("1969-12-31", "23:59"), Some(-60));
    assert_eq!(event_time("2015-09-05", "24:00"), None);
    assert_eq!(event_time("2015-02-30", "12:00"), None);
    assert_eq!(event_time("2015-09-05", ""), None);
    assert_eq!(event_time("", ""), None);
}

#[test]
fn the_reset_mail_names_the_reset_id() {
    assert_eq!(reset_variables("abc"), "{\"reset_id\": \"abc\"}");
    assert_eq!(reset_variables(""), "{\"reset_id\": \"\"}");
    assert_eq!(
        reset_email_form("alice@rit.edu", "r-1"),
        vec![
            ("from", own("ACF Rides <mail@rides.vstelt.dev>")),
            ("to", own("alice@rit.edu")),
            ("template", own("rides_reset_pw")),
            ("subject", own("Reset Your Password")),
            ("t:variables", own("{\"reset_id\": \"r-1\"}")),
        ]
    );
    assert_eq!(URL, "https://api.mailgun.net/v3/rides.vstelt.dev/messages");
    assert_eq!((FROM, TEMPLATE, SUBJECT).1, "rides_reset_pw");
}
