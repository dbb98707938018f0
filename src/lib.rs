//! Loading of a yearly epidemiological case dataset into a relational store:
//! schema inference from a data dictionary, dimension tables with surrogate
//! keys, row normalisation and a batched, policy-driven bulk writer.
pub mod error;
pub mod text;
pub mod types;
pub mod schema;
pub mod frame;
pub mod insert;
pub mod writer;
pub mod country;
pub mod normalize;
pub mod dictionary;
