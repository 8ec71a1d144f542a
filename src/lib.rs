//! Decoding of a delimited stream of sensor readings from a serial device, and
//! the decisions of the loop that reads it.
pub mod decoder;
pub mod session;
