//! A Vagrant environment monitor: the data model, parsers, aggregation,
//! sorting and screen-state logic, with their contracts.

pub mod app_state;
pub mod config;
pub mod display;
pub mod domstats;
pub mod model;
pub mod name_map;
pub mod paths;
pub mod probe;
pub mod sorting;
pub mod text;
pub mod tracker;
pub mod vagrant;
