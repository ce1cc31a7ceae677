//! Length-prefixed frames: an 8-byte unsigned length followed by that many
//! payload bytes. The byte order of the prefix is explicit; the error channel
//! uses the machine's own.
use vstd::prelude::*;

verus! {

/// Byte order of a length prefix.
#[derive(Clone, Copy, Debug, PartialEq, Eq, Structural)]
pub enum ByteOrder {
    Little,
    Big,
}

/// The eight bytes of `x`, least significant first.
pub open spec fn le_bytes(x: u64) -> Seq<u8> {
    seq![
        x as u8,
        (x >> 8u64) as u8,
        (x >> 16u64) as u8,
        (x >> 24u64) as u8,
        (x >> 32u64) as u8,
        (x >> 40u64) as u8,
        (x >> 48u64) as u8,
        (x >> 56u64) as u8,
    ]
}

/// The eight bytes of `x`, most significant first.
pub open spec fn be_bytes(x: u64) -> Seq<u8> {
    seq![
        (x >> 56u64) as u8,
        (x >> 48u64) as u8,
        (x >> 40u64) as u8,
        (x >> 32u64) as u8,
        (x >> 24u64) as u8,
        (x >> 16u64) as u8,
        (x >> 8u64) as u8,
        x as u8,
    ]
}

pub open spec fn le_value(b: Seq<u8>) -> u64
    recommends
        b.len() == 8,
{
    (b[0] as u64) | ((b[1] as u64) << 8u64) | ((b[2] as u64) << 16u64) | ((b[3] as u64) << 24u64)
        | ((b[4] as u64) << 32u64) | ((b[5] as u64) << 40u64) | ((b[6] as u64) << 48u64) | ((
    b[7] as u64) << 56u64)
}

pub open spec fn be_value(b: Seq<u8>) -> u64
    recommends
        b.len() == 8,
{
    (b[7] as u64) | ((b[6] as u64) << 8u64) | ((b[5] as u64) << 16u64) | ((b[4] as u64) << 24u64)
        | ((b[3] as u64) << 32u64) | ((b[2] as u64) << 40u64) | ((b[1] as u64) << 48u64) | ((
    b[0] as u64) << 56u64)
}

/// The encoding of `x` as a length prefix.
#[verifier::opaque]
pub open spec fn word_bytes(x: u64, order: ByteOrder) -> Seq<u8> {
    match order {
        ByteOrder::Little => le_bytes(x),
        ByteOrder::Big => be_bytes(x),
    }
}

/// The value of the length prefix `b`.
#[verifier::opaque]
pub open spec fn word_value(b: Seq<u8>, order: ByteOrder) -> u64
    recommends
        b.len() == 8,
{
    match order {
        ByteOrder::Little => le_value(b),
        ByteOrder::Big => be_value(b),
    }
}

/// One frame holding `p`.
pub open spec fn frame(p: Seq<u8>, order: ByteOrder) -> Seq<u8> {
    word_bytes(p.len() as u64, order) + p
}

/// The frames of `fs`, one after another.
pub open spec fn frames(fs: Seq<Seq<u8>>, order: ByteOrder) -> Seq<u8>
    decreases fs.len(),
{
    if fs.len() == 0 {
        Seq::empty()
    } else {
        frame(fs[0], order) + frames(fs.drop_first(), order)
    }
}

/// The whole frames at the front of `b`, and the bytes after them that do
/// not yet make a whole frame.
pub open spec fn parse_frames(b: Seq<u8>, order: ByteOrder) -> (Seq<Seq<u8>>, Seq<u8>)
    decreases b.len(),
{
    if b.len() < 8 {
        (Seq::empty(), b)
    } else {
        let n = word_value(b.subrange(0, 8), order) as int;
        if b.len() - 8 < n {
            (Seq::empty(), b)
        } else {
            let rest = parse_frames(b.subrange(8 + n, b.len() as int), order);
            (seq![b.subrange(8, 8 + n)] + rest.0, rest.1)
        }
    }
}

/// A length prefix reads back as the value it was written from.
pub proof fn lemma_word_round_trip(x: u64, order: ByteOrder)
    ensures
        word_bytes(x, order).len() == 8,
        word_value(word_bytes(x, order), order) == x,
{
    reveal(word_bytes);
    reveal(word_value);
    let b0 = x as u8;
    let b1 = (x >> 8u64) as u8;
    let b2 = (x >> 16u64) as u8;
    let b3 = (x >> 24u64) as u8;
    let b4 = (x >> 32u64) as u8;
    let b5 = (x >> 40u64) as u8;
    let b6 = (x >> 48u64) as u8;
    let b7 = (x >> 56u64) as u8;
    assert((b0 as u64) | ((b1 as u64) << 8u64) | ((b2 as u64) << 16u64) | ((b3 as u64) << 24u64)
        | ((b4 as u64) << 32u64) | ((b5 as u64) << 40u64) | ((b6 as u64) << 48u64) | ((
    b7 as u64) << 56u64) == x) by (bit_vector)
        requires
            b0 == x as u8,
            b1 == (x >> 8u64) as u8,
            b2 == (x >> 16u64) as u8,
            b3 == (x >> 24u64) as u8,
            b4 == (x >> 32u64) as u8,
            b5 == (x >> 40u64) as u8,
            b6 == (x >> 48u64) as u8,
            b7 == (x >> 56u64) as u8,
    ;
}

/// Reading a single frame gives back its payload and leaves nothing over.
pub proof fn lemma_frame_round_trip(p: Seq<u8>, order: ByteOrder)
    requires
        p.len() <= u64::MAX,
    ensures
        parse_frames(frame(p, order), order) == (seq![p], Seq::<u8>::empty()),
{
    lemma_frames_round_trip(seq![p], order);
    assert(seq![p].drop_first() =~= Seq::<Seq<u8>>::empty());
    assert(frames(seq![p].drop_first(), order) =~= Seq::<u8>::empty());
    assert(frames(seq![p], order) =~= frame(p, order));
}

/// Whole frames written one after another, by one writer or by several whose
/// frames do not overlap, are read back as exactly those payloads, each intact
/// and in the order in which they were written.
pub proof fn lemma_frames_round_trip(fs: Seq<Seq<u8>>, order: ByteOrder)
    requires
        forall|i: int| 0 <= i < fs.len() ==> (#[trigger] fs[i]).len() <= u64::MAX,
    ensures
        parse_frames(frames(fs, order), order) == (fs, Seq::<u8>::empty()),
    decreases fs.len(),
{
    let b = frames(fs, order);
    if fs.len() == 0 {
        assert(fs =~= Seq::<Seq<u8>>::empty());
    } else {
        let p = fs[0];
        let rest = fs.drop_first();
        assert forall|i: int| 0 <= i < rest.len() implies (#[trigger] rest[i]).len() <= u64::MAX by {
            assert(rest[i] == fs[i + 1]);
        }
        lemma_frames_round_trip(rest, order);
        lemma_word_round_trip(p.len() as u64, order);
        let w = word_bytes(p.len() as u64, order);
        let n = p.len() as int;
        assert(b =~= w + p + frames(rest, order));
        assert(b.subrange(0, 8) =~= w);
        assert(b.subrange(8, 8 + n) =~= p);
        assert(b.subrange(8 + n, b.len() as int) =~= frames(rest, order));
        assert(seq![p] + rest =~= fs);
    }
}

/// Parsing a stream in two pieces gives what parsing it whole gives: the
/// frames of the first piece, then those of its leftover bytes followed by
/// the second piece.
pub proof fn lemma_parse_append(x: Seq<u8>, y: Seq<u8>, order: ByteOrder)
    ensures
        parse_frames(x + y, order) == ({
            let (fs, rest) = parse_frames(x, order);
            let tail = parse_frames(rest + y, order);
            (fs + tail.0, tail.1)
        }),
    decreases x.len(),
{
    let (fs, rest) = parse_frames(x, order);
    let tail = parse_frames(rest + y, order);
    if x.len() < 8 {
        assert(fs + tail.0 =~= tail.0);
    } else {
        let n = word_value(x.subrange(0, 8), order) as int;
        assert((x + y).subrange(0, 8) =~= x.subrange(0, 8));
        if x.len() - 8 < n {
            assert(fs + tail.0 =~= tail.0);
        } else {
            let x2 = x.subrange(8 + n, x.len() as int);
            lemma_parse_append(x2, y, order);
            assert((x + y).subrange(8, 8 + n) =~= x.subrange(8, 8 + n));
            assert((x + y).subrange(8 + n, (x + y).len() as int) =~= x2 + y);
            let r2 = parse_frames(x2, order);
            assert(seq![x.subrange(8, 8 + n)] + r2.0 + tail.0 =~= seq![x.subrange(8, 8 + n)] + (r2.0
                + tail.0));
        }
    }
}

/// Encodes `x` as a length prefix.
pub fn encode_word(x: u64, order: ByteOrder) -> (r: Vec<u8>)
    ensures
        r@ == word_bytes(x, order),
{
    reveal(word_bytes);
    let r = match order {
        ByteOrder::Little => vec![
            x as u8,
            (x >> 8u64) as u8,
            (x >> 16u64) as u8,
            (x >> 24u64) as u8,
            (x >> 32u64) as u8,
            (x >> 40u64) as u8,
            (x >> 48u64) as u8,
            (x >> 56u64) as u8,
        ],
        ByteOrder::Big => vec![
            (x >> 56u64) as u8,
            (x >> 48u64) as u8,
            (x >> 40u64) as u8,
            (x >> 32u64) as u8,
            (x >> 24u64) as u8,
            (x >> 16u64) as u8,
            (x >> 8u64) as u8,
            x as u8,
        ],
    };
    assert(r@ =~= word_bytes(x, order));
    r
}

/// Decodes the length prefix that starts at `pos` in `b`.
pub fn decode_word_at(b: &[u8], pos: usize, order: ByteOrder) -> (r: u64)
    requires
        pos + 8 <= b@.len(),
    ensures
        r == word_value(b@.subrange(pos as int, pos + 8), order),
{
    reveal(word_value);
    let b0 = b[pos] as u64;
    let b1 = b[pos + 1] as u64;
    let b2 = b[pos + 2] as u64;
    let b3 = b[pos + 3] as u64;
    let b4 = b[pos + 4] as u64;
    let b5 = b[pos + 5] as u64;
    let b6 = b[pos + 6] as u64;
    let b7 = b[pos + 7] as u64;
    match order {
        ByteOrder::Little => b0 | (b1 << 8u64) | (b2 << 16u64) | (b3 << 24u64) | (b4 << 32u64) | (
        b5 << 40u64) | (b6 << 48u64) | (b7 << 56u64),
        ByteOrder::Big => b7 | (b6 << 8u64) | (b5 << 16u64) | (b4 << 24u64) | (b3 << 32u64) | (b2
            << 40u64) | (b1 << 48u64) | (b0 << 56u64),
    }
}

/// Relies on `u64::to_ne_bytes`: the eight bytes of `x` in the machine's own
/// byte order, which is one of the two orders.
#[verifier::external_body]
fn ne_bytes(x: u64) -> (r: [u8; 8])
    ensures
        r@ == le_bytes(x) || r@ == be_bytes(x),
{
    x.to_ne_bytes()
}

/// The byte order of this machine.
pub fn native_order() -> ByteOrder {
    let b = ne_bytes(1);
    order_of(&b)
}

/// The byte order in which `b` holds the value 1.
pub fn order_of(b: &[u8]) -> (r: ByteOrder)
    requires
        b@ == le_bytes(1) || b@ == be_bytes(1),
    ensures
        b@ == le_bytes(1) ==> r == ByteOrder::Little,
        b@ == be_bytes(1) ==> r == ByteOrder::Big,
{
    proof {
        let one: u64 = 1;
        assert(one as u8 == 1u8) by (bit_vector)
            requires
                one == 1u64,
        ;
        assert((one >> 56u64) as u8 == 0u8) by (bit_vector)
            requires
                one == 1u64,
        ;
    }
    if b[0] == 1 {
        ByteOrder::Little
    } else {
        ByteOrder::Big
    }
}

/// Encodes one frame holding `p`.
pub fn encode_frame(p: &[u8], order: ByteOrder) -> (r: Vec<u8>)
    ensures
        r@ == frame(p@, order),
{
    let mut r = encode_word(p.len() as u64, order);
    let mut i: usize = 0;
    while i < p.len()
        invariant
            i <= p@.len(),
            r@ == word_bytes(p@.len() as u64, order) + p@.subrange(0, i as int),
        decreases p@.len() - i,
    {
        r.push(p[i]);
        i = i + 1;
        assert(p@.subrange(0, i as int) =~= p@.subrange(0, i - 1) + seq![p@[i - 1]]);
    }
    assert(p@.subrange(0, p@.len() as int) =~= p@);
    r
}

/// Copies `b[start..end]`.
fn copy_range(b: &[u8], start: usize, end: usize) -> (r: Vec<u8>)
    requires
        start <= end <= b@.len(),
    ensures
        r@ == b@.subrange(start as int, end as int),
{
    let mut r: Vec<u8> = Vec::new();
    let mut i: usize = start;
    while i < end
        invariant
            start <= i <= end <= b@.len(),
            r@ == b@.subrange(start as int, i as int),
        decreases end - i,
    {
        r.push(b[i]);
        i = i + 1;
        assert(b@.subrange(start as int, i as int) =~= b@.subrange(start as int, i - 1) + seq![
            b@[i - 1],
        ]);
    }
    r
}

/// The payloads held by `v`.
pub open spec fn payloads(v: Seq<Vec<u8>>) -> Seq<Seq<u8>> {
    v.map_values(|x: Vec<u8>| x@)
}

/// Splits `b` into the whole frames at its front and the bytes left over.
pub fn split_frames(b: &[u8], order: ByteOrder) -> (r: (Vec<Vec<u8>>, Vec<u8>))
    ensures
        payloads(r.0@) == parse_frames(b@, order).0,
        r.1@ == parse_frames(b@, order).1,
{
    let mut out: Vec<Vec<u8>> = Vec::new();
    let mut pos: usize = 0;
    let len = b.len();
    assert(b@.subrange(0, len as int) =~= b@);
    assert(payloads(out@) + parse_frames(b@, order).0 =~= parse_frames(b@, order).0);
    loop
        invariant
            pos <= len == b@.len(),
            parse_frames(b@, order).0 == payloads(out@) + parse_frames(
                b@.subrange(pos as int, len as int),
                order,
            ).0,
            parse_frames(b@, order).1 == parse_frames(b@.subrange(pos as int, len as int), order).1,
        ensures
            pos <= len,
            parse_frames(b@.subrange(pos as int, len as int), order).0 == Seq::<Seq<u8>>::empty(),
        decreases len - pos,
    {
        let ghost rest = b@.subrange(pos as int, len as int);
        if len - pos < 8 {
            break;
        }
        let n = decode_word_at(b, pos, order);
        assert(rest.subrange(0, 8) =~= b@.subrange(pos as int, pos + 8));
        if n > (len - pos - 8) as u64 {
            break;
        }
        let end = pos + 8 + n as usize;
        let p = copy_range(b, pos + 8, end);
        assert(rest.subrange(8, 8 + n) =~= p@);
        assert(rest.subrange(8 + n, rest.len() as int) =~= b@.subrange(end as int, len as int));
        let ghost before = out@;
        out.push(p);
        assert(payloads(out@) =~= payloads(before) + seq![p@]);
        assert(payloads(out@) + parse_frames(b@.subrange(end as int, len as int), order).0
            =~= payloads(before) + (seq![p@] + parse_frames(b@.subrange(end as int, len as int), order).0));
        pos = end;
    }
    let left = copy_range(b, pos, len);
    proof {
        assert(payloads(out@) + Seq::<Seq<u8>>::empty() =~= payloads(out@));
        assert(b@.subrange(pos as int, len as int) =~= left@);
    }
    (out, left)
}

} // verus!
