//! The logic of an MQTT benchmark: a publisher that sends bursts of counter
//! messages, and an analyser that drives it through a matrix of settings and
//! measures how many messages arrive and how late.

pub mod broker;
pub mod client;
pub mod clock;
pub mod filters;
pub mod matrix;
pub mod message;
pub mod number;
pub mod publisher;
pub mod qos;
pub mod receiver;
pub mod report;
pub mod session;
pub mod stats;
pub mod text;
pub mod timing;
pub mod topics;
