//! Rendering of DXB instruction streams as readable source text.
//!
//! The crate has two components. The decompiler turns an untrusted byte
//! buffer into text, with three independent rendering flags (pretty
//! printing, color markers, slot resolution) that change only how tokens
//! are laid out, never which tokens appear. The logger is a small
//! formatting facade over an optional host-supplied sink; with no sink
//! configured, logging is a guaranteed no-op.

pub mod decompiler;
pub mod instr;
pub mod laws;
pub mod logger;
pub mod render;

pub use decompiler::decompile;
pub use decompiler::decompile_with_diagnostics;
pub use instr::Instr;
pub use instr::decode;

pub use logger::LogLevel;
pub use logger::Logger;
pub use logger::LoggerContext;
