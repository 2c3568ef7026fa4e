//! A catalog of partitioned datasets on an object store, and the jobs that maintain them.
//!
//! The catalog ([`state::State`]) records, for each dataset, its partitions and the objects
//! in them. A job ([`job::Job`]) reads the catalog and plans actions ([`action::Action`]) in
//! a graph ([`dag::ActionTree`]); the runtime ([`runtime::Runtime`]) runs them against a
//! store ([`store::Store`]) and hands the catalog from one action to the next.

pub mod action;
pub mod base;
pub mod dag;
pub mod job;
pub mod outside;
pub mod path;
pub mod rebalance;
pub mod runtime;
pub mod state;
pub mod store;
pub mod tables;
pub mod text;
