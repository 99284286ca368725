//! Arguments for dialing a single recipient.

use vstd::prelude::*;

use crate::errors::{CliError, EnodeParseError};
use crate::input::enode::{contains_char, has_node_id, host_part, is_node_id_of, split_enode, user_part};

verus! {

/// Parsed arguments:
/// - the handshake timeout in milliseconds
/// - the node id of the recipient (part of its enode: its public key)
/// - the host name of the recipient (part of its enode: address and port)
#[derive(Debug)]
pub struct ParsedArgs {
    pub timeout: u64,
    pub username: String,
    pub hostname: String,
}

/// Builds the parsed arguments from the timeout and the optional enode given
/// on the command line; without an enode the node id and the host are empty.
pub fn parse_cli_args(timeout: u64, recipient_enode: Option<String>) -> (r: Result<
    ParsedArgs,
    CliError,
>)
    ensures
        match recipient_enode {
            None => r matches Ok(a) && a.timeout == timeout && a.username@.len() == 0
                && a.hostname@.len() == 0,
            Some(e) => match r {
                Ok(a) => {
                    &&& a.timeout == timeout
                    &&& has_node_id(user_part(e@))
                    &&& contains_char(e@, '@')
                    &&& is_node_id_of(user_part(e@), a.username@)
                    &&& a.hostname@ == host_part(e@)
                },
                Err(CliError::InvalidRecipientUserName(user)) => {
                    &&& !has_node_id(user_part(e@))
                    &&& user@ == user_part(e@)
                },
                Err(CliError::InvalidRecipientEnode) => {
                    &&& has_node_id(user_part(e@))
                    &&& !contains_char(e@, '@')
                },
            },
        },
{
    match recipient_enode {
        Some(enode) => {
            let (username, hostname) = parse_recipient_enode(enode.as_str())?;
            Ok(ParsedArgs { timeout, username, hostname })
        },
        None => Ok(ParsedArgs { timeout, username: String::new(), hostname: String::new() }),
    }
}

/// Parses a recipient's enode, `enode://<node_id>@<ip_address>:<port>`, into
/// its node id and its host name.
///
/// The node id is what follows the first eight bytes, the length of
/// `enode://`; the host name is the part after the first `@` (up to a second
/// one), not checked further.
pub fn parse_recipient_enode(recipient_enode: &str) -> (r: Result<(String, String), CliError>)
    ensures
        match r {
            Ok((id, host)) => {
                &&& has_node_id(user_part(recipient_enode@))
                &&& contains_char(recipient_enode@, '@')
                &&& is_node_id_of(user_part(recipient_enode@), id@)
                &&& host@ == host_part(recipient_enode@)
            },
            Err(CliError::InvalidRecipientUserName(user)) => {
                &&& !has_node_id(user_part(recipient_enode@))
                &&& user@ == user_part(recipient_enode@)
            },
            Err(CliError::InvalidRecipientEnode) => {
                &&& has_node_id(user_part(recipient_enode@))
                &&& !contains_char(recipient_enode@, '@')
            },
        },
{
    match split_enode(recipient_enode) {
        Ok(parts) => Ok(parts),
        Err(EnodeParseError::InvalidRecipientUserName(user)) => Err(
            CliError::InvalidRecipientUserName(user),
        ),
        Err(_) => Err(CliError::InvalidRecipientEnode),
    }
}

} // verus!
