//! Recipient addresses given by the user, on the command line or in a file.

pub mod cli;
pub mod enode;
pub mod file;

pub use cli::{parse_cli_args, ParsedArgs};
pub use enode::Enode;
pub use file::parse_enode_lines;
