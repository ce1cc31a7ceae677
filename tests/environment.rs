use ir::environ::build;
use ir::frame::ByteOrder;
use ir::selector::{read_into, ReaderState};
use ir::fdio::write_str;

fn pair(n: &str, v: &str) -> (Vec<u8>, Vec<u8>) {
    (n.as_bytes().to_vec(), v.as_bytes().to_vec())
}

#[test]
fn overrides_replace_ambient() {
    let ambient = vec![pair("PATH", "/bin"), pair("HOME", "/root"), pair("LANG", "C")];
    let overrides = vec![pair("HOME", "/tmp"), pair("NEW", "1")];
    let env = build(&ambient, &overrides);
    assert_eq!(env, vec![pair("PATH", "/bin"), pair("LANG", "C"), pair("HOME", "/tmp"), pair("NEW", "1")]);
}

#[test]
fn no_overrides_keeps_ambient() {
    let ambient = vec![pair("A", "1"), pair("B", "2")];
    assert_eq!(build(&ambient, &vec![]), ambient);
}

#[test]
fn empty_ambient_gives_overrides() {
    let overrides = vec![pair("X", "y")];
    assert_eq!(build(&vec![], &overrides), overrides);
}

#[test]
fn reads_in_pieces_match_one_read() {
    let order = ByteOrder::Little;
    let mut stream = write_str("first", order);
    stream.extend(write_str("second", order));
    let whole = read_into(ReaderState::Errors { errs: vec![], pending: vec![] }, &stream, order);
    let mut s = ReaderState::Errors { errs: vec![], pending: vec![] };
    for chunk in stream.chunks(3) {
        s = read_into(s, chunk, order);
    }
    match (whole, s) {
        (ReaderState::Errors { errs: e1, pending: p1 }, ReaderState::Errors { errs: e2, pending: p2 }) => {
            assert_eq!(e1, vec![b"first".to_vec(), b"second".to_vec()]);
            assert_eq!(e1, e2);
            assert!(p1.is_empty() && p2.is_empty());
        }
        _ => panic!("wrong state"),
    }
}
