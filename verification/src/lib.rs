//! Checks the dependencies of a code base against a layered architecture.
//!
//! Every unit of the code base (a project file, a namespace) is classified
//! into a layer by the patterns of the configuration, every dependency
//! between two units is judged by the rules that say which layer may depend
//! on which, and the resulting graph is searched for cycles.
//!
//! - [`config`] holds the configuration, [`order`] puts its maps in the order
//!   of its layers.
//! - [`patterns`] matches names against patterns: the layer classifier and
//!   the exclusion filter.
//! - [`graph`] is the graph model, [`rules`] the rule validator and the
//!   legend graph of the layers.
//! - [`analysis`] is the interface of the analyzers, [`projects`] and
//!   [`namespaces`] are the two analyzers.
//! - [`cycles`] detects cycles.
//! - [`output`] and [`page`] write a graph down as a diagram or a page.
//! - [`text`] and [`seqs`] are helpers for texts and sequences.
//!
//! The library reads no file and prints nothing: its callers hand it what
//! they read and show what it returns.

pub mod analysis;
pub mod config;
pub mod cycles;
pub mod graph;
pub mod namespaces;
pub mod order;
pub mod output;
pub mod page;
pub mod patterns;
pub mod projects;
pub mod rules;
pub mod seqs;
pub mod text;
