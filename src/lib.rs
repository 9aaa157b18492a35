//! Request routing and a duplex echo session for a small HTTP service.

pub mod path;
pub mod reply;
pub mod router;
pub mod service;
pub mod session;
pub mod store;
