//! Runtime object-graph introspection core.
//!
//! Given a store of entities grouped into fixed-layout storage groups
//! ("archetypes"), this library builds a per-pass snapshot index mapping each
//! entity to its storage location and component-type list, renders the
//! parent/child hierarchy as a sequence of UI commands, and shortens
//! fully-qualified type names for display.  The widget toolkit, the host
//! object graph and the per-type inspector functions are the embedder's;
//! the library speaks to them through plain data.

pub mod model;
pub mod names;
pub mod params;
pub mod render;
pub mod snapshot;
