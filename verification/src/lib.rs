//! unirun: one command specification in, one normalized result out.

pub mod text;
pub mod encoding;
pub mod textmap;
pub mod path;
pub mod recipe;
pub mod spec;
pub mod error_maps;
pub mod taxonomy;
pub mod number;
pub mod exec;
pub mod probe;
pub mod payload;
pub mod transport;
pub mod winrm;
pub mod session;
pub mod json;
pub mod acp;
pub mod cli;
pub mod mcp;

pub use probe::{probe, Capabilities};
pub use spec::{ExecKind, ExecResult, ExecSpec, Shell};
pub use transport::{ssh_run, SshTarget};
