//! Harvesting of repository URLs: target naming, the ordered result set,
//! page-by-page accumulation, and the decisions of the clone and run drivers.

pub mod harvest;
pub mod materialize;
pub mod options;
pub mod query;
pub mod run;
pub mod target;
pub mod url_set;
