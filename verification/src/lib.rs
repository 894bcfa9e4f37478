//! A traffic generator for message-broker benchmarks: simulated drivers
//! ("agents") emit IMU measurements and trip start/end events on a schedule.
//! The scheduling, event construction and result accounting are verified here;
//! sending, serialisation and the command line live in the application.

pub mod agent;
pub mod agent_runner;
mod clock;
pub mod entropy;
pub mod events;
pub mod laws;
