//! A recipient's enode: `enode://<node_id>@<ip_address>:<port>`.

use vstd::prelude::*;
use vstd::string::*;
use vstd::utf8::*;

use crate::errors::EnodeParseError;

verus! {

/// Index of the first `c` in `s`, or `s.len()` where `s` holds none.
pub open spec fn find_char(s: Seq<char>, c: char) -> int
    decreases s.len(),
{
    if s.len() == 0 {
        0
    } else if s[0] == c {
        0
    } else {
        1 + find_char(s.drop_first(), c)
    }
}

/// Whether `c` occurs in `s`.
pub open spec fn contains_char(s: Seq<char>, c: char) -> bool {
    exists|i: int| 0 <= i < s.len() && s[i] == c
}

/// The part of an enode before its first `@`: the scheme and the node id.
pub open spec fn user_part(s: Seq<char>) -> Seq<char> {
    s.take(find_char(s, '@'))
}

/// The part of an enode after its first `@`, up to a second `@` if there is one.
pub open spec fn host_part(s: Seq<char>) -> Seq<char> {
    let rest = s.skip(find_char(s, '@') + 1);
    rest.take(find_char(rest, '@'))
}

/// Whether the UTF-8 encoding of `user` has a character boundary at byte 8,
/// the end of the `enode://` scheme.
pub open spec fn has_node_id(user: Seq<char>) -> bool {
    is_char_boundary(encode_utf8(user), 8)
}

/// `id` is what follows the first eight bytes of `user`.
pub open spec fn is_node_id_of(user: Seq<char>, id: Seq<char>) -> bool {
    encode_utf8(id) == encode_utf8(user).skip(8)
}

/// An enode that names a node id and a host with a port.
pub open spec fn is_valid_enode(s: Seq<char>) -> bool {
    &&& has_node_id(user_part(s))
    &&& contains_char(s, '@')
    &&& contains_char(host_part(s), ':')
}

proof fn lemma_find_char(s: Seq<char>, c: char, i: int)
    requires
        0 <= i <= s.len(),
        forall|j: int| 0 <= j < i ==> s[j] != c,
        i == s.len() || s[i] == c,
    ensures
        find_char(s, c) == i,
    decreases s.len(),
{
    if s.len() > 0 && i > 0 {
        let t = s.drop_first();
        assert forall|j: int| 0 <= j < i - 1 implies t[j] != c by {
            assert(t[j] == s[j + 1]);
        }
        lemma_find_char(t, c, i - 1);
    }
}

/// Index of the first `c` in `s`, or the length of `s`.
pub(crate) fn position_of(s: &str, c: char) -> (r: usize)
    ensures
        r as int == find_char(s@, c),
        r <= s@.len(),
        forall|j: int| 0 <= j < r ==> s@[j] != c,
        r < s@.len() ==> s@[r as int] == c,
{
    let n = s.unicode_len();
    let mut i: usize = 0;
    while i < n
        invariant
            n == s@.len(),
            i <= n,
            forall|j: int| 0 <= j < i ==> s@[j] != c,
        decreases n - i,
    {
        if s.get_char(i) == c {
            proof {
                lemma_find_char(s@, c, i as int);
            }
            return i;
        }
        i = i + 1;
    }
    proof {
        lemma_find_char(s@, c, i as int);
    }
    i
}

/// Splits an enode into its node id and its host name, without looking at the
/// host name.
pub(crate) fn split_enode(enode: &str) -> (r: Result<(String, String), EnodeParseError>)
    ensures
        match r {
            Ok((id, host)) => {
                &&& has_node_id(user_part(enode@))
                &&& contains_char(enode@, '@')
                &&& is_node_id_of(user_part(enode@), id@)
                &&& host@ == host_part(enode@)
            },
            Err(EnodeParseError::InvalidRecipientUserName(user)) => {
                &&& !has_node_id(user_part(enode@))
                &&& user@ == user_part(enode@)
            },
            Err(EnodeParseError::InvalidRecipientEnode) => {
                &&& has_node_id(user_part(enode@))
                &&& !contains_char(enode@, '@')
            },
            Err(EnodeParseError::InvalidRecipientHostName(_)) => false,
        },
{
    let at = position_of(enode, '@');
    let n = enode.unicode_len();
    let user = enode.substring_char(0, at);
    assert(user@ == user_part(enode@));
    if !user.is_char_boundary(8) {
        return Err(EnodeParseError::InvalidRecipientUserName(user.to_owned()));
    }
    let (_, id) = user.split_at(8);
    if at == n {
        return Err(EnodeParseError::InvalidRecipientEnode);
    }
    let rest = enode.substring_char(at + 1, n);
    assert(rest@ == enode@.skip(find_char(enode@, '@') + 1));
    let end = position_of(rest, '@');
    let host = rest.substring_char(0, end);
    let id = id.to_owned();
    let host = host.to_owned();
    Ok((id, host))
}

/// Recipient's enode.
///
/// - `username`: the node id, the recipient's public key in hex
/// - `hostname`: the recipient's address and port, separated by `:`
#[derive(Debug, PartialEq, Eq)]
pub struct Enode {
    pub username: String,
    pub hostname: String,
}

impl Enode {
    /// Parses an enode of the form `enode://<node_id>@<ip_address>:<port>`.
    ///
    /// The node id is what follows the first eight bytes; the host name is the
    /// part after the first `@`, and it must hold a `:`.
    pub fn new(enode: &str) -> (r: Result<Self, EnodeParseError>)
        ensures
            match r {
                Ok(e) => {
                    &&& is_valid_enode(enode@)
                    &&& is_node_id_of(user_part(enode@), e.username@)
                    &&& e.hostname@ == host_part(enode@)
                },
                Err(EnodeParseError::InvalidRecipientUserName(user)) => {
                    &&& !has_node_id(user_part(enode@))
                    &&& user@ == user_part(enode@)
                },
                Err(EnodeParseError::InvalidRecipientEnode) => {
                    &&& has_node_id(user_part(enode@))
                    &&& !contains_char(enode@, '@')
                },
                Err(EnodeParseError::InvalidRecipientHostName(host)) => {
                    &&& has_node_id(user_part(enode@))
                    &&& contains_char(enode@, '@')
                    &&& !contains_char(host_part(enode@), ':')
                    &&& host@ == host_part(enode@)
                },
            },
    {
        let (username, hostname) = Self::parse(enode)?;
        Ok(Self { username, hostname })
    }

    /// Parses an enode into its node id and its host name.
    fn parse(enode: &str) -> (r: Result<(String, String), EnodeParseError>)
        ensures
            match r {
                Ok((id, host)) => {
                    &&& is_valid_enode(enode@)
                    &&& is_node_id_of(user_part(enode@), id@)
                    &&& host@ == host_part(enode@)
                },
                Err(EnodeParseError::InvalidRecipientUserName(user)) => {
                    &&& !has_node_id(user_part(enode@))
                    &&& user@ == user_part(enode@)
                },
                Err(EnodeParseError::InvalidRecipientEnode) => {
                    &&& has_node_id(user_part(enode@))
                    &&& !contains_char(enode@, '@')
                },
                Err(EnodeParseError::InvalidRecipientHostName(host)) => {
                    &&& has_node_id(user_part(enode@))
                    &&& contains_char(enode@, '@')
                    &&& !contains_char(host_part(enode@), ':')
                    &&& host@ == host_part(enode@)
                },
            },
    {
        let (username, hostname) = split_enode(enode)?;
        Self::validate_hostname(&hostname)?;
        Ok((username, hostname))
    }

    /// Checks that a host name holds a `:` between address and port.
    fn validate_hostname(hostname: &String) -> (r: Result<(), EnodeParseError>)
        ensures
            match r {
                Ok(()) => contains_char(hostname@, ':'),
                Err(EnodeParseError::InvalidRecipientHostName(host)) => {
                    &&& !contains_char(hostname@, ':')
                    &&& host@ == hostname@
                },
                Err(_) => false,
            },
    {
        let colon = position_of(hostname.as_str(), ':');
        if colon == hostname.as_str().unicode_len() {
            Err(EnodeParseError::InvalidRecipientHostName(hostname.clone()))
        } else {
            Ok(())
        }
    }
}

} // verus!
