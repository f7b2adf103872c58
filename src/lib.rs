//! Event collection core of a local monitoring sidecar: a bounded, ordered
//! event log with sequential ids, the replies of its HTTP operations, the
//! messages pushed to the dashboard, and the choice of a listening port.

pub mod event;
pub mod store;
pub mod port;
pub mod api;
