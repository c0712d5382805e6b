//! Search, aggregation, row projection and invoice commands of a small
//! financial-records backend, over an in-memory view of its records.
pub mod text;
pub mod model;
pub mod filter;
pub mod order;
pub mod customer;
pub mod invoice;
pub mod row;
pub mod command;
