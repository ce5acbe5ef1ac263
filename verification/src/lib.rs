//! DNS toy services: a query router that answers from registered services,
//! and a gazetteer index for population-ranked place lookup.

pub mod casing;
pub mod decimal;
pub mod dns;
pub mod geo;
pub mod handlers;
pub mod ifsc;
pub mod routing;
pub mod search;
pub mod services;
pub mod table;
pub mod text;
