//! Stands up a local test network of nodes: a genesis node first, then nodes
//! that bootstrap from the contacts it publishes, or more nodes added to a
//! network that is already running.
//!
//! The library decides and composes; the caller runs processes, sleeps and
//! reads files as the [`orchestrator::Orchestrator`] asks.
pub mod command;
pub mod config;
pub mod decimal;
pub mod endpoint;
pub mod orchestrator;
pub mod registry;

pub use command::{Invocation, NodeArgs, NodeCmd};
pub use config::{CommonArgs, Join, Launch};
pub use endpoint::{parse_endpoint, Endpoint};
pub use orchestrator::{Action, Event, Failure, LaunchError, NodeRole, Orchestrator, Phase};
pub use registry::{parse_contacts, read_registry, serialize_contacts, ContactRegistry, ReadError};
