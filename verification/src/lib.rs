//! A handle allocator: dispenses unique integer handles under a configurable
//! allocation strategy and tracks which of them are live, so that a release of a
//! handle that is not live can be refused.
//!
//! - [`policy`]: the allocation and release policies, and the errors.
//! - [`model`]: the manager as a state machine over a counter and a set of free handles.
//! - [`manager`]: the executable [`HandleManager`], whose operations are specified by the model.
//! - [`laws`]: what holds of a manager over any sequence of requests.

mod free_list;
pub mod laws;
pub mod manager;
pub mod model;
pub mod policy;

pub use manager::HandleManager;
pub use model::{ManagerState, Request};
pub use policy::{AllocPolicy, HandleError, ReleasePolicy};
