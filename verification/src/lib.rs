//! A small compute grid: a coordinator that queues jobs, places them on
//! connected workers and tells observers what happened, together with the
//! decision logic of the worker that runs the jobs.

pub mod capabilities;
pub mod client;
pub mod config;
pub mod coordinator;
pub mod event;
pub mod frames;
pub mod ids;
pub mod intake;
pub mod json;
pub mod model;
pub mod profiles;
pub mod query;
pub mod registry;
pub mod runner;
pub mod status;
pub mod store;
pub mod text;
