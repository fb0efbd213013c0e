//! Provider-neutral market data, an in-memory candle cache, user
//! configuration rules and the request handling of the private backend.
use vstd::prelude::*;

pub mod calendar;
pub mod candle_store;
pub mod configuration;
pub mod http_api;
pub mod http_request;
pub mod market_data;
pub mod price;
pub mod provider;
pub mod providers;
pub mod series;
pub mod supervisor;
pub mod text;
pub mod time_sort;

verus! {

} // verus!
