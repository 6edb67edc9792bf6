//! A small in-memory graph of countries, cities and people, with the visits
//! people paid to cities, their nationalities, and the friendships that follow
//! from a shared nationality.
//!
//! The [`Store`] owns every record. Records come in through
//! [`Store::add_entity`] and [`Store::add_relationship`], or list-wise through
//! [`Store::ingest`]; friendships are never handed in but derived by
//! [`Store::infer_friendships`]. Three queries read the store:
//! [`Store::count_visits`], how many people visited a city;
//! [`Store::most_visited_city`], which of some cities was visited most; and
//! [`Store::friends_met`], how often a person met a friend, that is, stayed
//! in the same city on a common day.
//!
//! Every function is verified against a contract over [`model::StoreModel`],
//! the mathematical model of a store. [`laws`] proves what holds of the
//! queries and of inference on every store.
//!
//! [`typeql`] writes the TypeQL statements that tell a database of the same
//! records ([`Store::entity_statement`], [`Store::statements_for`]), and
//! [`cohort`] plans the travels of the people of one country by a common
//! timetable.

pub mod cohort;
pub mod date;
pub mod inference;
pub mod ingest;
pub mod laws;
pub mod model;
pub mod query;
pub mod store;
pub mod typeql;

pub use date::Date;
pub use model::{
    Entity, EntityId, EntityKind, GraphError, NewRelationship, Relationship, RelationshipId,
    RelationshipKind,
};
pub use store::Store;
