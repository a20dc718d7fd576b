//! Publishes per-interface network statistics counters as gauge samples.
//!
//! The library holds the logic: turning counter file contents into values,
//! discovering an interface's counters from a directory listing, the
//! failure-isolating report cycle, and the startup decisions of the driver.
//! Reading files and directories and talking to a metrics agent happen
//! around it.
use vstd::prelude::*;

pub mod counter;
pub mod report;
pub mod interface;
pub mod config;
pub mod driver;

verus! {

} // verus!
