use ethereum_handshake::errors::{CliError, EnodeParseError};
use ethereum_handshake::cli::{parse_cli_args as parse_single_cli_args, parse_recipient_enode};
use ethereum_handshake::input::cli::parse_cli_enodes;
use ethereum_handshake::input::{parse_cli_args, parse_enode_lines, Enode};

const TEST_ENODE: &str = "enode://a3435a0155a3e837c02f5e7f5662a2f1fbc25b48e4dc\
    232016e1c51b544cb5b4510ef633ea3278c0e970fa8ad8141e2d4\
    d0f9f95456c537ff05fdf9b31c15072@178.128.136.233:30303";
const TEST_USERNAME: &str = "a3435a0155a3e837c02f5e7f5662a2f1fbc25b48e4dc232016e1c51b\
    544cb5b4510ef633ea3278c0e970fa8ad8141e2d4d0f9f95456c537ff05fdf9b31c15072";
const TEST_HOSTNAME: &str = "178.128.136.233:30303";

#[test]
fn test_parse_recipient_enode_pass() {
    let enode = TEST_ENODE;

    let result = parse_recipient_enode(enode);
    assert!(result.is_ok());

    let (username, hostname) = result.unwrap();
    assert_eq!(TEST_USERNAME, username);
    assert_eq!(TEST_HOSTNAME, hostname);
}

#[test]
fn test_parse_recipient_enode_fail_bad_username() {
    let enode = "";

    let result = parse_recipient_enode(enode);

    assert!(result.is_err());
    assert_eq!(
        Err(CliError::InvalidRecipientUserName("".to_string())),
        result
    );
}

#[test]
fn test_parse_recipient_enode_fail_bad_enode_missing_at() {
    let mut enode = TEST_ENODE.to_string();
    enode = enode.replace('@', "A");

    let result = parse_recipient_enode(enode.as_ref());

    assert!(result.is_err());
    assert_eq!(Err(CliError::InvalidRecipientEnode), result);
}

#[test]
fn test_parse_pass() {
    let enode = TEST_ENODE;

    let result = Enode::new(enode);
    assert!(result.is_ok());

    let result = result.unwrap();
    let (username, hostname) = (result.username, result.hostname);
    assert_eq!(TEST_USERNAME, username);
    assert_eq!(TEST_HOSTNAME, hostname);
}

#[test]
fn test_parse_fail_bad_enode_missing_at() {
    let mut enode = TEST_ENODE.to_string();
    enode = enode.replace('@', "A");

    let result = Enode::new(enode.as_ref());

    assert!(result.is_err());
    assert_eq!(Err(EnodeParseError::InvalidRecipientEnode), result);
}

#[test]
fn test_parse_fail_bad_username() {
    let enode = "";

    let result = Enode::new(enode);

    assert!(result.is_err());

    assert_eq!(
        Err(EnodeParseError::InvalidRecipientUserName("".to_string())),
        result
    );
}

#[test]
fn test_parse_fail_bad_hostname_missing_colon() {
    let mut enode = TEST_ENODE.to_string();
    enode = enode.replace(":30303", "*30303");

    let result = Enode::new(enode.as_ref());

    assert!(result.is_err());

    assert_eq!(
        Err(EnodeParseError::InvalidRecipientHostName(
            TEST_HOSTNAME.to_string().replace(':', "*")
        )),
        result
    );
}

#[test]
fn test_parse_cli_enodes_none() {
    let recipient_enodes = None;

    let result = parse_cli_enodes(recipient_enodes);

    assert!(result.is_empty());
}

#[test]
fn test_parse_cli_enodes_some_pass() {
    let mut recipient_enodes = vec![TEST_ENODE, TEST_ENODE, TEST_ENODE]
        .iter()
        .map(|enode| enode.to_string())
        .collect::<Vec<String>>();
    let enodes_len = recipient_enodes.len();

    recipient_enodes[1] = recipient_enodes[1].replace(":30303", "30303");

    let result = parse_cli_enodes(Some(recipient_enodes));

    assert_eq!(enodes_len - 1, result.len());

    assert_eq!(TEST_USERNAME, result[0].username);
    assert_eq!(TEST_HOSTNAME, result[0].hostname);
    assert_eq!(TEST_USERNAME, result[1].username);
    assert_eq!(TEST_HOSTNAME, result[1].hostname);
}

#[test]
fn test_parse_cli_enodes_empty() {
    let mut enode = TEST_ENODE.to_string();
    enode = enode.replace(":30303", "30303");

    let recipient_enodes = Some(vec![enode]);

    let result = parse_cli_enodes(recipient_enodes);

    assert!(result.is_empty());
}

#[test]
fn enode_node_id_starts_after_eight_bytes() {
    let e = Enode::new("abcdefghXYZ@h:1").unwrap();
    assert_eq!("XYZ", e.username);
    assert_eq!("h:1", e.hostname);
}

#[test]
fn enode_host_stops_at_second_at() {
    let e = Enode::new("enode://id@host:1@tail").unwrap();
    assert_eq!("id", e.username);
    assert_eq!("host:1", e.hostname);
}

#[test]
fn enode_short_user_part_is_rejected() {
    assert_eq!(
        Err(EnodeParseError::InvalidRecipientUserName("enode:/".to_string())),
        Enode::new("enode:/@host:1")
    );
}

#[test]
fn enode_eighth_byte_inside_a_character_is_rejected() {
    // "é" takes two bytes: the eighth byte falls inside it.
    let user = "enode:/é";
    let enode = format!("{}@host:1", user);
    assert_eq!(
        Err(EnodeParseError::InvalidRecipientUserName(user.to_string())),
        Enode::new(&enode)
    );
}

#[test]
fn enode_with_empty_node_id_is_accepted() {
    let e = Enode::new("enode://@host:1").unwrap();
    assert_eq!("", e.username);
}

#[test]
fn enode_lines_keep_valid_ones_in_order() {
    let lines = vec![
        "enode://aa@h1:1".to_string(),
        "bad".to_string(),
        "enode://bb@h2".to_string(),
        "enode://cc@h3:3".to_string(),
    ];
    let result = parse_enode_lines(lines);
    assert_eq!(2, result.len());
    assert_eq!("aa", result[0].username);
    assert_eq!("h1:1", result[0].hostname);
    assert_eq!("cc", result[1].username);
    assert_eq!("h3:3", result[1].hostname);
}

#[test]
fn enode_lines_empty() {
    assert!(parse_enode_lines(Vec::new()).is_empty());
}

#[test]
fn cli_args_keep_timeout_and_path() {
    let args = parse_cli_args(
        1500,
        Some(vec![TEST_ENODE.to_string()]),
        Some("peers.txt".to_string()),
    );
    assert_eq!(1500, args.timeout);
    assert_eq!(Some("peers.txt".to_string()), args.file_path);
    assert_eq!(1, args.cli_enodes.len());
    assert_eq!(TEST_USERNAME, args.cli_enodes[0].username);
}

#[test]
fn single_cli_args_without_enode_are_empty() {
    let args = parse_single_cli_args(1000, None).unwrap();
    assert_eq!(1000, args.timeout);
    assert_eq!("", args.username);
    assert_eq!("", args.hostname);
}

#[test]
fn single_cli_args_with_enode() {
    let args = parse_single_cli_args(700, Some(TEST_ENODE.to_string())).unwrap();
    assert_eq!(700, args.timeout);
    assert_eq!(TEST_USERNAME, args.username);
    assert_eq!(TEST_HOSTNAME, args.hostname);
}

#[test]
fn single_cli_args_bad_enode() {
    let r = parse_single_cli_args(700, Some("no-at-sign-here".to_string()));
    assert!(matches!(r, Err(CliError::InvalidRecipientEnode)));
}
