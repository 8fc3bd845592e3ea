//! Node brokering engine of a local application hub: framed RPC messages,
//! the pending-request table, the URL router, sessions, the application
//! supervisor and the node registry.

pub mod error;
pub mod value;
pub mod api;
pub mod codec;
pub mod pending;
pub mod pattern;
pub mod router;
pub mod app;
pub mod supervisor;
pub mod clock;
pub mod session;
pub mod logs;
pub mod registry;
pub mod text;
pub mod number;
pub mod http;
pub mod system;
pub mod display;
