//! Type checking with tsgo, compiled to a WASI module and run inside the process.
//!
//! This library holds what can be decided without touching the outside world: how the
//! module is configured, compiled and run, the messages that a session exchanges with the
//! guest, what the guest may see of the host's files, and where diagnostics point.

pub mod archive;
pub mod callback;
pub mod config;
pub mod config_laws;
pub mod diagnostic;
pub mod diagnostic_laws;
pub mod distribution;
pub mod engine;
pub mod error;
pub mod files;
pub mod frame;
pub mod frame_laws;
pub mod json;
pub mod pipe;
pub mod request_laws;
pub mod runtime;
pub mod series;
pub mod session;
pub mod session_laws;
pub mod text;
pub mod wire_laws;

pub use archive::module_bytes;
pub use config::{build_cwasm, build_cwasm_zst, precompile, TypeScriptConfig};
pub use diagnostic::{Category, Diagnostic, Position, Range};
pub use runtime::{Output, TypeScript};
pub use session::ApiSession;
