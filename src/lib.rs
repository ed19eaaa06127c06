//! An append-only event log for plannable aggregates (todos and tasks):
//! a codec between domain events and stored rows, a repository that appends
//! whole batches or nothing, and one store per aggregate family.
pub mod codec;
pub mod events;
pub mod models;
pub mod repository;
pub mod store;
pub mod timestamp;
pub mod usecases;
