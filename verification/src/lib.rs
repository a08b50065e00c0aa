//! Decision logic of a fleet controller for disposable relay bridges.
//!
//! The controller keeps, for every allocation group, a set of frontline
//! bridges, a warm reserve and a stream of replacements.  Five loops share
//! the bridge table and nothing else: one fills the reserve, one sizes the
//! frontline, one probes reachability from the censored region, one switches
//! the service on each bridge, one retires bridges by age.
//!
//! Everything here is free of I/O.  A caller loads the rows, hands them to
//! the function of a loop, and carries out what the function returns: which
//! servers to delete, which bridge to promote, what to run on a host.

mod chance;
pub mod config;
pub mod database;
pub mod loop_frontline;
pub mod loop_gfw;
pub mod loop_onoff;
pub mod loop_provision;
pub mod loop_prune;
pub mod measure;
pub mod provider;
pub mod ssh;
pub mod status;
pub mod text;
