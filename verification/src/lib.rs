//! Core of a request-dispatch service that aggregates per-city data from
//! several independent data-source actors, plus a small word-garbling library.
//!
//! The actor loops themselves run on an async executor outside this crate;
//! here each actor is a state machine with an explicit event/action interface,
//! so that the decisions the loops make (accept a request, start a fetch,
//! resolve a reply slot exactly once, shut down) are verified.

pub mod city_stats_api;
pub mod data_fetchers;
pub mod dispatcher;
pub mod modifiers;
pub mod reply;
pub mod rest_api;
pub mod weather_api;
