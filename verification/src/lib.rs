//! Verified core of an adhan clock: the prayer schedule and how it advances
//! with time, the texts that the clock shows, the cache and request names of
//! the yearly prayer calendars, and the searches over the country and city
//! lists.

pub mod clock;
pub mod json;
pub mod location;
pub mod prayer;
pub mod reload;
pub mod requests;
pub mod schedule;
pub mod text;
