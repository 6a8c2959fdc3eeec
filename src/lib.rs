//! A local development reverse proxy's routing engine: normalizing route
//! sources and targets, the route table, deriving a routing key from a
//! request, and deciding where each request is forwarded.
pub mod config;
pub mod extract;
pub mod label;
pub mod laws;
pub mod proxy;
pub mod routes;
pub mod source;
pub mod target;
pub mod text;
