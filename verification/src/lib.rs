//! An express-style HTTP server framework: a request decoder, a
//! method/path-template router with parameter capture, a three-phase
//! middleware session engine with explicit continue/terminate control,
//! and a response writer.
//!
//! The library holds the framework's logic over plain text values; the
//! sockets, files and worker threads that feed it live outside.

pub mod errors;
pub mod kvmap;
pub mod middleware;
pub mod request;
pub mod response;
pub mod router;
pub mod server;
pub mod session;
pub mod text;

pub use server::Server;
