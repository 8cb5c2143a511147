//! Shared rides for campus events: the data model, the store of events,
//! drivers and rides, and the worker pass that expires old events and pairs
//! waiting riders with drivers that still have seats.

pub mod clock;
pub mod db;
pub mod email;
pub mod ids;
pub mod matching;
pub mod models;
pub mod passwords;
pub mod safety;
pub mod statements;
pub mod store;
pub mod webserver;
pub mod worker;
