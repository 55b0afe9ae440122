//! Garnet: capability sets and diffs, checker diagnostics, hot-reload
//! authorisation, state fingerprints and the Studio's command planning, with
//! their contracts proved by Verus.

pub mod capset;
pub mod text;
pub mod order;
pub mod caps_diff;
pub mod bytes;
pub mod digest;
pub mod reloadkey;
pub mod statecert;
pub mod diagnostics;
pub mod settings;
pub mod command;
pub mod bootstrap;
pub mod report;
pub mod enforcement;
pub mod suggest;
pub mod effects;
pub mod bounds;
pub mod runtime;
pub mod evidence;
pub mod coherence;
pub mod borrow;
pub mod caps_graph;
pub mod span;
pub mod audit;
pub mod surfaces;
pub mod memory;
pub mod ast;
pub mod borrow_check;
pub mod sites;
pub mod capability_surface;
pub mod stability;
pub mod match_coverage;
pub mod checker;
pub mod caps_source;
pub mod module_check;
pub mod module_surfaces;
