//! Feed monitoring over object listings: bounded arrival history, cadence and
//! size health, date-templated targets, and the request handling around them.

pub mod text;
pub mod digits;
pub mod time;
pub mod error;
pub mod uri;
pub mod model;
pub mod sorting;
pub mod history;
pub mod retention;
pub mod statistics;
pub mod cadence;
pub mod template;
pub mod periods;
pub mod store;
pub mod arrivals;
pub mod ids;
pub mod download;
pub mod transfers;
pub mod watcher;
pub mod cli;
pub mod output;
pub mod wording;
pub mod showing;
pub mod protocol;
pub mod service;
pub mod runtime;
pub mod transport;
pub mod conduct;
pub mod outcomes;
pub mod upkeep;
pub mod naming;
pub mod standing;
pub mod particulars;
