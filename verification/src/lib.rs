//! The decisions of an HTTP proxy: who may use it, which hosts may be reached and when, and
//! what a client is answered.
pub mod authorization;
pub mod clock;
pub mod config;
pub mod crontab;
pub mod exchange;
pub mod meter;
pub mod pattern;
pub mod proxy;
pub mod stats;
pub mod text;
pub mod timespec;
