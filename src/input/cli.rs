//! Arguments for dialing a list of recipients.

use vstd::prelude::*;

use crate::input::enode::Enode;
use crate::input::file::{parse_enode_lines, parses_valid_enodes, texts};

verus! {

/// Parsed arguments:
/// - the handshake timeout in milliseconds
/// - the valid enodes given on the command line
/// - an optional path to a text file with a list of enodes
#[derive(Debug)]
pub struct ParsedArgs {
    pub timeout: u64,
    pub cli_enodes: Vec<Enode>,
    pub file_path: Option<String>,
}

/// Builds the parsed arguments from the values given on the command line.
pub fn parse_cli_args(
    timeout: u64,
    recipient_enodes: Option<Vec<String>>,
    file_path: Option<String>,
) -> (r: ParsedArgs)
    ensures
        r.timeout == timeout,
        r.file_path == file_path,
        match recipient_enodes {
            Some(enodes) => parses_valid_enodes(texts(enodes@), r.cli_enodes@),
            None => r.cli_enodes@.len() == 0,
        },
{
    let cli_enodes = parse_cli_enodes(recipient_enodes);
    ParsedArgs { timeout, cli_enodes, file_path }
}

/// Parses the enodes given on the command line: the invalid ones are left
/// out, the valid ones are kept in their order.
pub fn parse_cli_enodes(recipient_enodes: Option<Vec<String>>) -> (r: Vec<Enode>)
    ensures
        match recipient_enodes {
            Some(enodes) => parses_valid_enodes(texts(enodes@), r@),
            None => r@.len() == 0,
        },
{
    match recipient_enodes {
        Some(enodes) => parse_enode_lines(enodes),
        None => Vec::new(),
    }
}

} // verus!
