use std::collections::HashSet;

use ethereum_handshake::errors::{HandshakeError, SessionError};
use ethereum_handshake::frame::Session;
use ethereum_handshake::handshake::{
    accept_ack, ack_body, auth_body, finish, initiate, message_len, open_message, prefix_length,
    recipient_session, remote_public_key, respond, respond_with, seal_message, AuthInfo, Initiator,
    StaticKeyPair,
};

const GENERATOR: &str = "0479be667ef9dcbbac55a06295ce870b07029bfcdb2dce28d959f2815b16f81798\
    483ada7726a3c4655da4fbfc0e1108a8fd17b448a68554199c47d08ffb10d4b8";

fn key_one() -> StaticKeyPair {
    let mut secret = vec![0u8; 32];
    secret[31] = 1;
    StaticKeyPair::from_secret(secret).unwrap()
}

fn hex_id(keys: &StaticKeyPair) -> String {
    hex::encode(keys.node_id())
}

fn handshake(a: &StaticKeyPair, b: &StaticKeyPair) -> (Session, Session) {
    let (st, auth) = initiate(a, &hex_id(b)).unwrap();
    let (recipient, ack) = respond(b, &auth).unwrap();
    let initiator = finish(st, a, &ack).unwrap();
    (initiator, recipient)
}

#[test]
fn key_pair_of_secret_one_is_the_generator() {
    let k = key_one();
    assert_eq!(hex::decode(GENERATOR).unwrap(), k.public);
    assert_eq!(hex::decode(&GENERATOR[2..]).unwrap(), k.node_id());
}

#[test]
fn invalid_secrets_are_refused() {
    assert!(StaticKeyPair::from_secret(vec![0u8; 32]).is_none());
    assert!(StaticKeyPair::from_secret(vec![0xff; 32]).is_none());
    assert!(StaticKeyPair::from_secret(vec![1u8; 31]).is_none());
}

#[test]
fn generated_key_pairs_are_valid() {
    let k = StaticKeyPair::generate().unwrap();
    let again = StaticKeyPair::from_secret(k.secret.clone()).unwrap();
    assert_eq!(k.public, again.public);
    assert_eq!(65, k.public.len());
    assert_eq!(4, k.public[0]);
}

#[test]
fn remote_key_from_hex_id() {
    let local = StaticKeyPair::generate().unwrap();
    let remote = remote_public_key(&local, &GENERATOR[2..]).unwrap();
    assert_eq!(hex::decode(GENERATOR).unwrap(), remote);
    let upper = GENERATOR[2..].to_uppercase();
    assert_eq!(hex::decode(GENERATOR).unwrap(), remote_public_key(&local, &upper).unwrap());
}

#[test]
fn remote_key_not_hex_is_an_input_error() {
    let local = key_one();
    let text = "zz".repeat(64);
    assert_eq!(
        Err(HandshakeError::HexDecodeError(text.clone())),
        remote_public_key(&local, &text)
    );
    assert_eq!(
        Err(HandshakeError::HexDecodeError("abc".to_string())),
        remote_public_key(&local, "abc")
    );
}

#[test]
fn remote_key_too_short_is_an_input_error() {
    let local = key_one();
    let short = &GENERATOR[2..126];
    assert_eq!(
        Err(HandshakeError::Sec1Error(short.to_string())),
        remote_public_key(&local, short)
    );
    assert!(matches!(initiate(&local, short), Err(HandshakeError::Sec1Error(_))));
}

#[test]
fn remote_key_off_the_curve_is_an_input_error() {
    let local = key_one();
    let text = "00".repeat(64);
    assert_eq!(Err(HandshakeError::Sec1Error(text.clone())), remote_public_key(&local, &text));
}

#[test]
fn length_prefix() {
    assert_eq!(Some(vec![0, 3, 7, 8, 9]), prefix_length(&[7, 8, 9]));
    assert_eq!(vec![0x01, 0x2c], prefix_length(&[0u8; 300]).unwrap()[..2].to_vec());
    assert_eq!(None, prefix_length(&vec![0u8; 65536]));
    assert_eq!(300, message_len(&[0x01, 0x2c]));
}

#[test]
fn seal_then_open_gives_the_message() {
    let b = StaticKeyPair::generate().unwrap();
    for message in [Vec::new(), b"hello".to_vec(), vec![0x5a; 1000]] {
        let wire = seal_message(&b.public, &message).unwrap();
        assert_eq!(message_len(&wire), wire.len() - 2);
        assert_eq!(Ok(message), open_message(&b.secret, &wire));
    }
}

#[test]
fn open_with_another_key_fails() {
    let b = StaticKeyPair::generate().unwrap();
    let c = StaticKeyPair::generate().unwrap();
    let wire = seal_message(&b.public, b"secret").unwrap();
    assert_eq!(Err(HandshakeError::ProtocolError), open_message(&c.secret, &wire));
}

#[test]
fn any_flipped_bit_fails_to_open() {
    let b = StaticKeyPair::generate().unwrap();
    let wire = seal_message(&b.public, b"ping").unwrap();
    for i in 0..wire.len() {
        for bit in 0..8 {
            let mut tampered = wire.clone();
            tampered[i] ^= 1 << bit;
            assert_eq!(
                Err(HandshakeError::ProtocolError),
                open_message(&b.secret, &tampered)
            );
        }
    }
}

#[test]
fn wrong_length_prefix_fails_to_open() {
    let b = StaticKeyPair::generate().unwrap();
    let mut wire = seal_message(&b.public, b"ping").unwrap();
    wire.push(0);
    assert_eq!(Err(HandshakeError::ProtocolError), open_message(&b.secret, &wire));
    assert_eq!(Err(HandshakeError::ProtocolError), open_message(&b.secret, &[0]));
}

#[test]
fn auth_body_has_four_fields() {
    let a = key_one();
    let b = StaticKeyPair::generate().unwrap();
    let eph = StaticKeyPair::generate().unwrap();
    let nonce = vec![7u8; 32];
    let body = auth_body(&a, &b.public, &eph.secret, &nonce).unwrap();
    let fields = ethereum_handshake::codec::decode_list(&body).unwrap();
    assert_eq!(4, fields.len());
    assert_eq!(65, fields[0].len());
    assert_eq!(a.node_id(), fields[1]);
    assert_eq!(nonce, fields[2]);
    assert_eq!(vec![5], fields[3]);
    // the signature is deterministic
    assert_eq!(body, auth_body(&a, &b.public, &eph.secret, &nonce).unwrap());
}

#[test]
fn ack_body_layout() {
    let body = ack_body(&[1u8; 64], &[2u8; 32]);
    let fields = ethereum_handshake::codec::decode_list(&body).unwrap();
    assert_eq!(vec![vec![1u8; 64], vec![2u8; 32], vec![5]], fields);
}

#[test]
fn handshake_derives_matching_secrets() {
    let a = StaticKeyPair::generate().unwrap();
    let b = StaticKeyPair::generate().unwrap();
    let (i, r) = handshake(&a, &b);
    assert_eq!(i.egress.key, r.ingress.key);
    assert_eq!(i.egress.mac, r.ingress.mac);
    assert_eq!(i.ingress.key, r.egress.key);
    assert_eq!(i.ingress.mac, r.egress.mac);
    assert_ne!(i.egress.key, i.ingress.key);
    assert_ne!(i.egress.mac, i.ingress.mac);
    assert!(!i.closed && !r.closed);
}

#[test]
fn handshake_then_ping() {
    let a = StaticKeyPair::generate().unwrap();
    let b = StaticKeyPair::generate().unwrap();
    let (mut i, mut r) = handshake(&a, &b);
    let frame = i.write_frame(b"ping").unwrap();
    let (payload, used) = r.read_frame(&frame).unwrap();
    assert_eq!(b"ping".to_vec(), payload);
    assert_eq!(frame.len(), used);
    let frame = r.write_frame(b"pong").unwrap();
    assert_eq!(b"pong".to_vec(), i.read_frame(&frame).unwrap().0);
}

#[test]
fn corrupted_ack_fails_the_handshake() {
    let a = StaticKeyPair::generate().unwrap();
    let b = StaticKeyPair::generate().unwrap();
    let (_, auth) = initiate(&a, &hex_id(&b)).unwrap();
    let (_, ack) = respond(&b, &auth).unwrap();
    for i in [2, 40, ack.len() / 2, ack.len() - 1] {
        let (st, _) = initiate(&a, &hex_id(&b)).unwrap();
        let mut bad = ack.clone();
        bad[i] ^= 0x01;
        assert!(matches!(finish(st, &a, &bad), Err(HandshakeError::ProtocolError)));
    }
}

#[test]
fn ack_from_another_handshake_gives_other_secrets() {
    let a = StaticKeyPair::generate().unwrap();
    let b = StaticKeyPair::generate().unwrap();
    let (_, auth1) = initiate(&a, &hex_id(&b)).unwrap();
    let (st2, _) = initiate(&a, &hex_id(&b)).unwrap();
    let (r1, ack1) = respond(&b, &auth1).unwrap();
    let i2 = finish(st2, &a, &ack1).unwrap();
    assert_ne!(i2.egress.mac, r1.ingress.mac);
}

#[test]
fn auth_for_another_recipient_is_refused() {
    let a = StaticKeyPair::generate().unwrap();
    let b = StaticKeyPair::generate().unwrap();
    let c = StaticKeyPair::generate().unwrap();
    let (_, auth) = initiate(&a, &hex_id(&b)).unwrap();
    assert!(matches!(respond(&c, &auth), Err(HandshakeError::ProtocolError)));
}

#[test]
fn accept_ack_checks_the_body() {
    let a = StaticKeyPair::generate().unwrap();
    let b = StaticKeyPair::generate().unwrap();
    let (st, auth) = initiate(&a, &hex_id(&b)).unwrap();
    let eph = StaticKeyPair::generate().unwrap();
    let good = ack_body(&eph.node_id(), &[3u8; 32]);
    assert!(accept_ack(&st, &[0, 1, 2], &good).is_ok());
    // a node id of the wrong length, or an old version
    let short = ack_body(&eph.node_id()[..63], &[3u8; 32]);
    assert!(matches!(accept_ack(&st, &[], &short), Err(HandshakeError::ProtocolError)));
    let old = ethereum_handshake::codec::encode_list(&vec![eph.node_id(), vec![3u8; 32], vec![4]]);
    assert!(matches!(accept_ack(&st, &[], &old), Err(HandshakeError::ProtocolError)));
    // extra fields are ignored
    let newer = ethereum_handshake::codec::encode_list(&vec![
        eph.node_id(),
        vec![3u8; 32],
        vec![6],
        vec![0xaa],
    ]);
    assert!(accept_ack(&st, &[], &newer).is_ok());
    let Initiator { auth: sent, .. } = st;
    assert_eq!(auth, sent);
}

#[test]
fn attempts_never_reuse_ephemeral_keys_or_nonces() {
    let a = StaticKeyPair::generate().unwrap();
    let b = StaticKeyPair::generate().unwrap();
    let id = hex_id(&b);
    let mut secrets = HashSet::new();
    let mut nonces = HashSet::new();
    for _ in 0..300 {
        let (st, _) = initiate(&a, &id).unwrap();
        assert!(secrets.insert(st.ephemeral_secret.clone()));
        assert!(nonces.insert(st.nonce.clone()));
    }
}

#[test]
fn key_generation_never_repeats() {
    let mut seen = HashSet::new();
    for _ in 0..2000 {
        let k = StaticKeyPair::generate().unwrap();
        assert!(seen.insert(k.secret));
    }
}

#[test]
fn frames_in_wrong_order_fail() {
    let a = StaticKeyPair::generate().unwrap();
    let b = StaticKeyPair::generate().unwrap();
    let (mut i, mut r) = handshake(&a, &b);
    let first = i.write_frame(b"first").unwrap();
    let second = i.write_frame(b"second").unwrap();
    assert_eq!(Err(SessionError::MacMismatch), r.read_frame(&second));
    assert!(r.closed);
    assert_eq!(Err(SessionError::Closed), r.read_frame(&first));
}

#[test]
fn auth_body_list_header() {
    let a = key_one();
    let b = StaticKeyPair::generate().unwrap();
    let eph = StaticKeyPair::generate().unwrap();
    let body = auth_body(&a, &b.public, &eph.secret, &[9u8; 32]).unwrap();
    assert_eq!(vec![0xf8, 0xa7, 0xb8, 0x41], body[..4].to_vec());
    assert_eq!(2 + 0xa7, body.len());
}

#[test]
fn sealed_message_overhead() {
    let b = StaticKeyPair::generate().unwrap();
    let wire = seal_message(&b.public, &[1u8; 10]).unwrap();
    assert_eq!(2 + 10 + 97, wire.len());
}

#[test]
fn ack_that_is_not_one_prefixed_message_fails() {
    let a = StaticKeyPair::generate().unwrap();
    let b = StaticKeyPair::generate().unwrap();
    let (_, auth) = initiate(&a, &hex_id(&b)).unwrap();
    let (_, ack) = respond(&b, &auth).unwrap();
    let mut longer = ack.clone();
    longer.extend_from_slice(&[0u8; 3]);
    let (st, _) = initiate(&a, &hex_id(&b)).unwrap();
    assert!(matches!(finish(st, &a, &longer), Err(HandshakeError::ProtocolError)));
    let (st, _) = initiate(&a, &hex_id(&b)).unwrap();
    assert!(matches!(finish(st, &a, &ack[..ack.len() - 1]), Err(HandshakeError::ProtocolError)));
    let (st, _) = initiate(&a, &hex_id(&b)).unwrap();
    assert!(matches!(finish(st, &a, &vec![0xff; 70000]), Err(HandshakeError::ProtocolError)));
}

#[test]
fn respond_refuses_a_malformed_prefix() {
    let b = StaticKeyPair::generate().unwrap();
    assert!(matches!(respond(&b, &[0, 5, 1]), Err(HandshakeError::ProtocolError)));
    assert!(matches!(respond(&b, &[]), Err(HandshakeError::ProtocolError)));
}

#[test]
fn respond_with_given_key_and_nonce_mirrors_the_initiator() {
    let a = StaticKeyPair::generate().unwrap();
    let b = StaticKeyPair::generate().unwrap();
    let eph = StaticKeyPair::generate().unwrap();
    let (st, auth) = initiate(&a, &hex_id(&b)).unwrap();
    let (r, ack) = respond_with(&b, &auth, eph, vec![4u8; 32]).unwrap();
    let i = finish(st, &a, &ack).unwrap();
    assert_eq!(i.egress.key, r.ingress.key);
    assert_eq!(i.egress.mac, r.ingress.mac);
    assert_eq!(i.ingress.key, r.egress.key);
    assert_eq!(i.ingress.mac, r.egress.mac);
}

#[test]
fn recipient_derivation_is_a_function_of_its_inputs() {
    let a_eph = StaticKeyPair::generate().unwrap();
    let b_eph = StaticKeyPair::generate().unwrap();
    let info = AuthInfo {
        remote_static: key_one().public,
        remote_ephemeral: a_eph.public.clone(),
        remote_nonce: vec![1u8; 32],
    };
    let s1 = recipient_session(&info, &b_eph.secret, &[2u8; 32], b"auth", b"ack").unwrap();
    let s2 = recipient_session(&info, &b_eph.secret, &[2u8; 32], b"auth", b"ack").unwrap();
    assert_eq!(s1.egress.key, s2.egress.key);
    assert_eq!(s1.egress.mac, s2.egress.mac);
    assert_eq!(s1.ingress.key, s2.ingress.key);
    assert_eq!(s1.ingress.mac, s2.ingress.mac);
    let s3 = recipient_session(&info, &b_eph.secret, &[3u8; 32], b"auth", b"ack").unwrap();
    assert_ne!(s1.egress.key, s3.egress.key);
}
