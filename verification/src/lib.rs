//! A reactive dependency-tracking runtime: mutable state cells ("signals")
//! drive automatic, minimal recomputation of derived values, side-effecting
//! callbacks ("effects"), and re-renderable UI regions ("scopes").
//!
//! The runtime is an explicit object ([`runtime::Runtime`]) owning every
//! table: the signal store, the dependency graph, the scope and effect
//! registries, and the batching/drain scheduler.  Render bodies and effect
//! bodies are supplied by the caller through the [`runtime::Host`] trait.

pub mod laws;

mod store;

pub mod nodes;
pub mod runtime;

pub mod value;

pub use value::ResourceStatus;
pub use value::SignalValue;
pub use value::Value;
