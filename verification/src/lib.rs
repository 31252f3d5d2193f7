//! Line-oriented differencing of two texts.
//!
//! Three engines compare an old and a new sequence of lines and describe the
//! differences as a [`service::data_types::FileDiff`]: a positional
//! comparator, a longest-common-subsequence engine and an edit-graph engine.
//! [`algorithms::run`] picks one of them by name.
//!
//! The contracts are stated over edit scripts ([`script`]), the chunks that
//! a script gives ([`coalesce`]) and the reading of chunks against the old
//! text ([`apply`]). [`service::report`] turns any diff into the lines of a
//! report, and [`selection`] reads the answers to the interactive menu.

pub mod service;
pub mod script;
pub mod coalesce;
pub mod apply;
pub mod error;
pub mod algorithms;
pub mod selection;
