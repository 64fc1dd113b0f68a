//! Family frame: a Raspberry Pi Pico e-paper client and the dashboard
//! server it polls, with their shared rules verified.

pub mod cipher;
pub mod fw;
pub mod hashing;
pub mod server;
pub mod sim;
pub mod text;
