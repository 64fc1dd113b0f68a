//! The family dashboard server: what it paints and the rules around it.

pub mod battery;
pub mod birthdays;
pub mod config;
pub mod dates;
pub mod debug;
pub mod display;
pub mod frame;
pub mod household;
pub mod http;
pub mod ics;
pub mod meross;
pub mod meross_cloud;
pub mod meross_rooms;
pub mod model;
pub mod pack;
pub mod photo;
pub mod pictures;
pub mod pronote;
pub mod pronote_session;
pub mod schedule;
pub mod wakes;
pub mod sources;
