//! Register readers and writers of the microcontroller's peripherals.
pub mod cidr0;
pub mod itatbctr2;
pub mod owdr;
pub mod pidr3;
pub mod pidr5;
pub mod tmxbfr;
