//! Framed descriptor IO. The descriptor operations themselves happen at the
//! caller; these functions decide what the byte counts and bytes they
//! produced mean, and build the bytes to be written.
use vstd::prelude::*;
use vstd::utf8::{decode_utf8, encode_utf8, valid_utf8};

use crate::err::Error;
use crate::frame::{decode_word_at, encode_frame, encode_word, frame, frames, lemma_word_round_trip, word_bytes, word_value, ByteOrder};

verus! {

/// What a transfer of `len` bytes that returned `ret` means; `errno` is the
/// error code that came with a return of -1. A count below -1 or above `len`
/// is outside the call's range.
pub open spec fn transfer_outcome(ret: int, errno: i32, len: int) -> Result<(), Error> {
    if ret == len {
        Ok(())
    } else if ret == 0 {
        Err(Error::Eof)
    } else if ret == -1 {
        Err(Error::Os(errno))
    } else if ret < -1 || ret > len {
        Err(Error::Fatal)
    } else {
        Err(Error::IoShort)
    }
}

/// Judges a read of `len` bytes that returned `ret`.
pub fn read(ret: isize, errno: i32, len: usize) -> (r: Result<(), Error>)
    ensures
        r == transfer_outcome(ret as int, errno, len as int),
{
    if ret >= 0 && ret as usize == len {
        Ok(())
    } else if ret == 0 {
        Err(Error::Eof)
    } else if ret == -1 {
        Err(Error::Os(errno))
    } else if ret < -1 || ret as usize > len {
        Err(Error::Fatal)
    } else {
        Err(Error::IoShort)
    }
}

/// Judges a write of `len` bytes that returned `ret`.
pub fn write(ret: isize, errno: i32, len: usize) -> (r: Result<(), Error>)
    ensures
        r == transfer_outcome(ret as int, errno, len as int),
{
    read(ret, errno, len)
}

/// What a read of a length prefix into `data` that returned `ret` yields.
pub open spec fn usize_outcome(ret: int, errno: i32, data: Seq<u8>, order: ByteOrder) -> Result<
    u64,
    Error,
> {
    if ret == -1 {
        Err(Error::Os(errno))
    } else if ret == 0 {
        Err(Error::Eof)
    } else if ret == 8 {
        Ok(word_value(data, order))
    } else if ret < -1 || ret > 8 {
        Err(Error::Fatal)
    } else {
        Err(Error::IoShort)
    }
}

/// Reads a length prefix out of the bytes `data` that a read returning `ret`
/// filled.
pub fn read_usize(ret: isize, errno: i32, data: &[u8], order: ByteOrder) -> (r: Result<
    u64,
    Error,
>)
    requires
        data@.len() == 8,
    ensures
        r == usize_outcome(ret as int, errno, data@, order),
{
    if ret == -1 {
        Err(Error::Os(errno))
    } else if ret == 0 {
        Err(Error::Eof)
    } else if ret == 8 {
        let v = decode_word_at(data, 0, order);
        assert(data@.subrange(0, 8) =~= data@);
        Ok(v)
    } else if ret < -1 || ret > 8 {
        Err(Error::Fatal)
    } else {
        Err(Error::IoShort)
    }
}

/// The bytes that write a length prefix of `val`.
pub fn write_usize(val: u64, order: ByteOrder) -> (r: Vec<u8>)
    ensures
        r@ == word_bytes(val, order),
{
    encode_word(val, order)
}

/// The bytes that write `s` as one frame: its length, then its UTF-8 bytes.
pub fn write_str(s: &str, order: ByteOrder) -> (r: Vec<u8>)
    ensures
        r@ == frame(encode_utf8(s@), order),
{
    encode_frame(s.as_bytes(), order)
}

/// The payload of the frame at the front of `b`: `Eof` where `b` is empty,
/// `IoShort` where it ends inside the length prefix or before the whole
/// payload.
pub open spec fn framed_payload(b: Seq<u8>, order: ByteOrder) -> Result<Seq<u8>, Error> {
    if b.len() == 0 {
        Err(Error::Eof)
    } else if b.len() < 8 {
        Err(Error::IoShort)
    } else {
        let n = word_value(b.subrange(0, 8), order) as int;
        if b.len() - 8 >= n {
            Ok(b.subrange(8, 8 + n))
        } else {
            Err(Error::IoShort)
        }
    }
}

/// What decoding `b` as UTF-8 gives, each invalid sequence replaced by
/// U+FFFD.
pub uninterp spec fn utf8_lossy(b: Seq<u8>) -> Seq<char>;

/// Relies on `String::from_utf8_lossy`: valid UTF-8 is decoded as it is.
#[verifier::external_body]
pub(crate) fn from_utf8_lossy(b: &[u8]) -> (r: String)
    ensures
        r@ == utf8_lossy(b@),
        valid_utf8(b@) ==> r@ == decode_utf8(b@),
{
    String::from_utf8_lossy(b).into_owned()
}

/// Reads the string framed at the front of `b`, as `write_str` wrote it.
pub fn read_str(b: &[u8], order: ByteOrder) -> (r: Result<String, Error>)
    ensures
        match framed_payload(b@, order) {
            Ok(p) => r.is_ok() && r.unwrap()@ == utf8_lossy(p) && (valid_utf8(p) ==> r.unwrap()@
                == decode_utf8(p)),
            Err(e) => r == Err::<String, Error>(e),
        },
{
    let len = b.len();
    if len == 0 {
        return Err(Error::Eof);
    }
    if len < 8 {
        return Err(Error::IoShort);
    }
    let n = decode_word_at(b, 0, order);
    if n <= (len - 8) as u64 {
        let end = 8 + n as usize;
        let mut p: Vec<u8> = Vec::new();
        let mut i: usize = 8;
        while i < end
            invariant
                8 <= i <= end <= len == b@.len(),
                p@ == b@.subrange(8, i as int),
            decreases end - i,
        {
            p.push(b[i]);
            i = i + 1;
            assert(b@.subrange(8, i as int) =~= b@.subrange(8, i - 1) + seq![b@[i - 1]]);
        }
        Ok(from_utf8_lossy(p.as_slice()))
    } else {
        Err(Error::IoShort)
    }
}

/// Reading back what `write_str` wrote gives the string written: the frame's
/// payload is the string's UTF-8 encoding, which decodes to the string.
pub proof fn lemma_str_round_trip(s: Seq<char>, order: ByteOrder)
    requires
        encode_utf8(s).len() <= u64::MAX,
    ensures
        framed_payload(frame(encode_utf8(s), order), order) == Ok::<Seq<u8>, Error>(
            encode_utf8(s),
        ),
        valid_utf8(encode_utf8(s)),
        decode_utf8(encode_utf8(s)) == s,
{
    let p = encode_utf8(s);
    let b = frame(p, order);
    lemma_word_round_trip(p.len() as u64, order);
    assert(b.subrange(0, 8) =~= word_bytes(p.len() as u64, order));
    assert(b.subrange(8, 8 + p.len() as int) =~= p);
    vstd::utf8::encode_utf8_valid_utf8(s);
    vstd::utf8::encode_utf8_decode_utf8(s);
}

/// Reading frame after frame from a stream of whole frames: each read gives
/// the next payload, intact, and leaves the rest of the stream; once the
/// stream is used up the read gives `Eof`.
pub proof fn lemma_read_frames_in_turn(fs: Seq<Seq<u8>>, order: ByteOrder)
    requires
        forall|i: int| 0 <= i < fs.len() ==> (#[trigger] fs[i]).len() <= u64::MAX,
    ensures
        fs.len() == 0 ==> framed_payload(frames(fs, order), order) == Err::<Seq<u8>, Error>(
            Error::Eof,
        ),
        fs.len() > 0 ==> framed_payload(frames(fs, order), order) == Ok::<Seq<u8>, Error>(fs[0]),
        fs.len() > 0 ==> frames(fs, order).subrange(8 + fs[0].len() as int, frames(fs, order).len() as int)
            == frames(fs.drop_first(), order),
{
    if fs.len() > 0 {
        let p = fs[0];
        let b = frames(fs, order);
        let w = word_bytes(p.len() as u64, order);
        lemma_word_round_trip(p.len() as u64, order);
        assert(b =~= w + p + frames(fs.drop_first(), order));
        assert(b.subrange(0, 8) =~= w);
        assert(b.subrange(8, 8 + p.len() as int) =~= p);
        assert(b.subrange(8 + p.len() as int, b.len() as int) =~= frames(fs.drop_first(), order));
    }
}

} // verus!
