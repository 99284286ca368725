use ethereum_handshake::codec::{decode_list, decode_uint, encode_list, encode_uint};
use ethereum_handshake::errors::DecodeError;

fn reference_encoding(fields: &[Vec<u8>]) -> Vec<u8> {
    let mut s = rlp::RlpStream::new_list(fields.len());
    for f in fields {
        s.append(f);
    }
    s.out().to_vec()
}

#[test]
fn codec_known_vectors() {
    assert_eq!(vec![0xc0], encode_list(&vec![]));
    assert_eq!(vec![0xc1, 0x80], encode_list(&vec![vec![]]));
    assert_eq!(vec![0xc1, 0x0f], encode_list(&vec![vec![0x0f]]));
    assert_eq!(vec![0xc2, 0x81, 0x80], encode_list(&vec![vec![0x80]]));
    assert_eq!(
        vec![0xc8, 0x83, b'c', b'a', b't', 0x83, b'd', b'o', b'g'],
        encode_list(&vec![b"cat".to_vec(), b"dog".to_vec()])
    );
}

#[test]
fn codec_long_string_and_long_list() {
    let long = vec![0xaa; 56];
    let encoded = encode_list(&vec![long.clone()]);
    assert_eq!(vec![0xf8, 58, 0xb8, 56], encoded[..4].to_vec());
    assert_eq!(60, encoded.len());
    let big = vec![0x11; 1024];
    let encoded = encode_list(&vec![big.clone()]);
    assert_eq!(vec![0xf9, 0x04, 0x03, 0xb9, 0x04, 0x00], encoded[..6].to_vec());
}

#[test]
fn codec_matches_reference_encoder() {
    let cases: Vec<Vec<Vec<u8>>> = vec![
        vec![],
        vec![vec![]],
        vec![vec![0x00]],
        vec![vec![0x7f], vec![0x80], vec![0xff, 0x00]],
        vec![vec![7; 55], vec![8; 56], vec![9; 300]],
        vec![vec![1; 65], vec![2; 64], vec![3; 32], vec![5]],
    ];
    for fields in cases {
        assert_eq!(reference_encoding(&fields), encode_list(&fields));
    }
}

#[test]
fn codec_round_trip() {
    let cases: Vec<Vec<Vec<u8>>> = vec![
        vec![],
        vec![vec![]],
        vec![vec![0x00], vec![0x7f], vec![0x80]],
        vec![vec![1; 55], vec![2; 56], vec![3; 255], vec![4; 256], vec![5; 70000]],
    ];
    for fields in cases {
        let encoded = encode_list(&fields);
        assert_eq!(Ok(fields.clone()), decode_list(&encoded));
        let mut padded = encoded.clone();
        padded.extend_from_slice(&[0xde, 0xad, 0xbe, 0xef]);
        assert_eq!(Ok(fields), decode_list(&padded));
    }
}

#[test]
fn codec_decodes_reference_encoding() {
    let fields = vec![vec![9; 100], vec![], vec![0x42]];
    assert_eq!(Ok(fields.clone()), decode_list(&reference_encoding(&fields)));
}

#[test]
fn codec_rejects_malformed_input() {
    // empty input, a string where a list is expected, truncated payloads
    assert_eq!(Err(DecodeError), decode_list(&[]));
    assert_eq!(Err(DecodeError), decode_list(&[0x83, b'c', b'a', b't']));
    assert_eq!(Err(DecodeError), decode_list(&[0xc4, 0x83, b'c', b'a']));
    assert_eq!(Err(DecodeError), decode_list(&[0xc2, 0x83, b'c', b'a', b't']));
    // a single byte below 0x80 written with a prefix
    assert_eq!(Err(DecodeError), decode_list(&[0xc2, 0x81, 0x05]));
    // a long-form length with a leading zero, or short enough for the short form
    assert_eq!(Err(DecodeError), decode_list(&[0xc3, 0xb8, 0x01, 0x00]));
    assert_eq!(Err(DecodeError), decode_list(&[0xf8, 0x01, 0x00]));
    // a nested list
    assert_eq!(Err(DecodeError), decode_list(&[0xc1, 0xc0]));
    // a long-form length beyond the input
    assert_eq!(Err(DecodeError), decode_list(&[0xfb, 0xff, 0xff, 0xff, 0xff]));
}

#[test]
fn codec_uint() {
    assert_eq!(Vec::<u8>::new(), encode_uint(0));
    assert_eq!(vec![5], encode_uint(5));
    assert_eq!(vec![0x04, 0x00], encode_uint(1024));
    assert_eq!(vec![0xff; 8], encode_uint(u64::MAX));
    assert_eq!(Some(0), decode_uint(&[]));
    assert_eq!(Some(1024), decode_uint(&[0x04, 0x00]));
    assert_eq!(Some(u64::MAX), decode_uint(&[0xff; 8]));
    assert_eq!(None, decode_uint(&[0x00, 0x01]));
    assert_eq!(None, decode_uint(&[0x01; 9]));
}
