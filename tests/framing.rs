use ir::err::Error;
use ir::fdio;
use ir::fdio::{read_str, read_usize, write_str, write_usize};
use ir::frame::{encode_frame, encode_word, native_order, order_of, split_frames, ByteOrder};

#[test]
fn word_little_endian_bytes() {
    assert_eq!(encode_word(0x0102030405060708, ByteOrder::Little), vec![8, 7, 6, 5, 4, 3, 2, 1]);
}

#[test]
fn word_big_endian_bytes() {
    assert_eq!(encode_word(0x0102030405060708, ByteOrder::Big), vec![1, 2, 3, 4, 5, 6, 7, 8]);
}

#[test]
fn native_order_matches_machine() {
    let order = native_order();
    assert_eq!(encode_word(0x1122334455667788, order), 0x1122334455667788u64.to_ne_bytes().to_vec());
}

#[test]
fn frame_layout() {
    let f = encode_frame(b"ab", ByteOrder::Little);
    assert_eq!(f, vec![2, 0, 0, 0, 0, 0, 0, 0, b'a', b'b']);
}

#[test]
fn string_round_trip() {
    for s in ["", "x", "failed to set up fd 3: Permission denied", "héllo wörld ✓"] {
        for order in [ByteOrder::Little, ByteOrder::Big] {
            let bytes = write_str(s, order);
            assert_eq!(bytes.len(), 8 + s.len());
            assert_eq!(read_str(&bytes, order), Ok(s.to_string()));
        }
    }
}

#[test]
fn read_str_empty_is_eof() {
    assert_eq!(read_str(&[], ByteOrder::Little), Err(Error::Eof));
}

#[test]
fn read_str_partial_prefix_is_short() {
    assert_eq!(read_str(&[5, 0, 0], ByteOrder::Little), Err(Error::IoShort));
}

#[test]
fn read_str_prefix_only_is_short() {
    assert_eq!(read_str(&[5, 0, 0, 0, 0, 0, 0, 0], ByteOrder::Little), Err(Error::IoShort));
}

#[test]
fn read_str_partial_payload_is_short() {
    assert_eq!(read_str(&[5, 0, 0, 0, 0, 0, 0, 0, b'a'], ByteOrder::Little), Err(Error::IoShort));
}

#[test]
fn read_str_replaces_invalid_utf8() {
    let bytes = encode_frame(&[b'a', 0xff, b'b'], ByteOrder::Little);
    assert_eq!(read_str(&bytes, ByteOrder::Little), Ok("a\u{fffd}b".to_string()));
}

#[test]
fn transfer_outcomes() {
    assert_eq!(fdio::read(8, 0, 8), Ok(()));
    assert_eq!(fdio::read(0, 0, 8), Err(Error::Eof));
    assert_eq!(fdio::read(-1, 4, 8), Err(Error::Os(4)));
    assert_eq!(fdio::read(3, 0, 8), Err(Error::IoShort));
    assert_eq!(fdio::read(9, 0, 8), Err(Error::Fatal));
    assert_eq!(fdio::read(-2, 0, 8), Err(Error::Fatal));
    assert_eq!(fdio::read(0, 0, 0), Ok(()));
    assert_eq!(fdio::write(5, 0, 5), Ok(()));
    assert_eq!(fdio::write(2, 0, 5), Err(Error::IoShort));
    assert_eq!(fdio::write(-1, 32, 5), Err(Error::Os(32)));
}

#[test]
fn read_usize_outcomes() {
    let data = write_usize(300, ByteOrder::Little);
    assert_eq!(data, vec![44, 1, 0, 0, 0, 0, 0, 0]);
    assert_eq!(read_usize(8, 0, &data, ByteOrder::Little), Ok(300));
    assert_eq!(read_usize(0, 0, &data, ByteOrder::Little), Err(Error::Eof));
    assert_eq!(read_usize(4, 0, &data, ByteOrder::Little), Err(Error::IoShort));
    assert_eq!(read_usize(9, 0, &data, ByteOrder::Little), Err(Error::Fatal));
    assert_eq!(read_usize(-1, 9, &data, ByteOrder::Little), Err(Error::Os(9)));
}

#[test]
fn interleaved_frames_arrive_whole() {
    // Two writers, each writing whole frames; the reader sees them in the
    // order they landed on the pipe, each intact.
    let order = ByteOrder::Little;
    let mut pipe = Vec::new();
    pipe.extend(write_str("child b: one", order));
    pipe.extend(write_str("child a: one", order));
    pipe.extend(write_str("child b: two", order));
    let (frames, rest) = split_frames(&pipe, order);
    assert_eq!(frames, vec![b"child b: one".to_vec(), b"child a: one".to_vec(), b"child b: two".to_vec()]);
    assert!(rest.is_empty());
}

#[test]
fn split_keeps_partial_tail() {
    let order = ByteOrder::Big;
    let mut b = encode_frame(b"abc", order);
    let second = encode_frame(b"defg", order);
    b.extend_from_slice(&second[..10]);
    let (frames, rest) = split_frames(&b, order);
    assert_eq!(frames, vec![b"abc".to_vec()]);
    assert_eq!(rest, second[..10].to_vec());
}

#[test]
fn order_of_one() {
    assert_eq!(order_of(&[1, 0, 0, 0, 0, 0, 0, 0]), ByteOrder::Little);
    assert_eq!(order_of(&[0, 0, 0, 0, 0, 0, 0, 1]), ByteOrder::Big);
}
