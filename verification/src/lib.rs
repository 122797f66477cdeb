//! Benchmarking of distributed queries, and the plan rewrite that it measures.
//!
//! [`reduce`] merges partial aggregates before they cross the network, on the plans of [`plan`];
//! [`physical`] does so on the operators of the query engine. [`options`], [`queries`],
//! [`progress`] and [`runner`] decide what a benchmark runs, [`metrics`] and [`results`] what it
//! measures, [`store`] where that is kept, and [`compare`] how it is compared with what was
//! measured before.

pub mod compare;
pub mod error;
pub mod ids;
pub mod machine;
pub mod metrics;
pub mod options;
pub mod order;
pub mod physical;
pub mod plan;
pub mod progress;
pub mod queries;
pub mod reduce;
pub mod results;
pub mod runner;
pub mod session;
pub mod store;
pub mod text;
pub mod time;
