//! Routing, configuration and message rendering for a bridge that forwards
//! Gotify notifications into Matrix rooms.
pub mod text;
pub mod unique;
pub mod paths;
pub mod config;
pub mod router;
pub mod gotify;
pub mod template;
pub mod status;
pub mod backoff;
pub mod rooms;
