use ethereum_handshake::errors::SessionError;
use ethereum_handshake::frame::{FrameState, Session};

fn state(key: u8, mac: u8) -> FrameState {
    FrameState { key: vec![key; 32], mac: vec![mac; 32], offset: 0 }
}

fn pair() -> (Session, Session) {
    let a = Session { egress: state(1, 2), ingress: state(3, 4), closed: false };
    let b = Session { egress: state(3, 4), ingress: state(1, 2), closed: false };
    (a, b)
}

#[test]
fn frame_layout_and_padding() {
    let (mut a, _) = pair();
    assert_eq!(48 + 16, a.write_frame(b"ping").unwrap().len());
    assert_eq!(48, a.write_frame(b"").unwrap().len());
    assert_eq!(48 + 16, a.write_frame(&[0u8; 16]).unwrap().len());
    assert_eq!(48 + 32, a.write_frame(&[0u8; 17]).unwrap().len());
    assert_eq!(32 + 16 + 32 + 48, a.egress.offset);
}

#[test]
fn frames_read_back_in_order() {
    let (mut a, mut b) = pair();
    let mut stream = Vec::new();
    let payloads: Vec<Vec<u8>> = vec![b"one".to_vec(), Vec::new(), vec![9u8; 100], vec![7u8; 16]];
    for p in &payloads {
        stream.extend(a.write_frame(p).unwrap());
    }
    let mut pos = 0;
    for p in &payloads {
        let (payload, used) = b.read_frame(&stream[pos..]).unwrap();
        assert_eq!(*p, payload);
        pos += used;
    }
    assert_eq!(stream.len(), pos);
    assert_eq!(a.egress.mac, b.ingress.mac);
    assert_eq!(a.egress.offset, b.ingress.offset);
}

#[test]
fn frame_body_is_encrypted() {
    let (mut a, _) = pair();
    let frame = a.write_frame(b"plain text here!").unwrap();
    assert!(!frame.windows(16).any(|w| w == b"plain text here!"));
}

#[test]
fn truncated_frame_asks_for_more() {
    let (mut a, mut b) = pair();
    let frame = a.write_frame(b"hello").unwrap();
    assert_eq!(Err(SessionError::Truncated), b.read_frame(&frame[..20]));
    assert_eq!(Err(SessionError::Truncated), b.read_frame(&frame[..40]));
    assert!(!b.closed);
    assert_eq!(b"hello".to_vec(), b.read_frame(&frame).unwrap().0);
}

#[test]
fn tampered_frame_closes_the_session() {
    let (mut a, mut b) = pair();
    let frame = a.write_frame(b"hello").unwrap();
    for i in [0, 20, 35, frame.len() - 1] {
        let (_, mut fresh) = pair();
        let mut bad = frame.clone();
        bad[i] ^= 0x80;
        let r = fresh.read_frame(&bad);
        assert_eq!(Err(SessionError::MacMismatch), r);
        assert!(fresh.closed);
        assert!(fresh.ingress.key.is_empty() && fresh.egress.key.is_empty());
    }
    assert!(b.read_frame(&frame).is_ok());
}

#[test]
fn dropped_or_repeated_frame_fails() {
    let (mut a, mut b) = pair();
    let first = a.write_frame(b"first").unwrap();
    let second = a.write_frame(b"second").unwrap();
    let (_, mut c) = pair();
    assert_eq!(Err(SessionError::MacMismatch), c.read_frame(&second));
    assert!(b.read_frame(&first).is_ok());
    assert_eq!(Err(SessionError::MacMismatch), b.read_frame(&first));
    assert_eq!(Err(SessionError::Closed), b.read_frame(&second));
}

#[test]
fn oversized_payload_is_refused() {
    let (mut a, _) = pair();
    let before = a.egress.offset;
    assert_eq!(Err(SessionError::TooLarge), a.write_frame(&vec![0u8; 0x100_0000]));
    assert_eq!(before, a.egress.offset);
}

#[test]
fn closed_session_refuses_to_write() {
    let (mut a, _) = pair();
    a.closed = true;
    assert_eq!(Err(SessionError::Closed), a.write_frame(b"x"));
}

#[test]
fn close_wipes_the_keys() {
    let (mut a, _) = pair();
    a.close();
    assert!(a.closed);
    assert!(a.egress.key.is_empty() && a.egress.mac.is_empty());
    assert!(a.ingress.key.is_empty() && a.ingress.mac.is_empty());
}
