//! A virtual-DOM reconciliation core: a virtual text node engine that diffs a
//! new virtual tree against the previous render and issues the minimal set of
//! mutations to a live node tree, together with the backend capability
//! interface that decouples the engine from any concrete host binding, and the
//! pure normalization of input/change events.

pub mod backend;
pub mod listener;
pub mod renderer;
pub mod vtext;
