//! An in-memory entity-component registry.
//!
//! A [`world::World`] associates opaque identifiers ([`entity::Entity`]) with
//! typed data records ("components"), keyed by a component-type token, and
//! answers queries for the set of live entities whose component types form a
//! superset of a requested set ([`query::Query`]).

pub mod entity;
pub mod generator;
pub mod injection;
pub mod laws;
pub mod query;
pub mod service;
pub mod world;
