//! The registry of descriptors watched for readiness, each with the state
//! that says what to do with the bytes read from it.
use std::collections::BTreeMap;
use vstd::prelude::*;

use crate::frame::{lemma_parse_append, parse_frames, payloads, split_frames, ByteOrder};

verus! {

broadcast use vstd::std_specs::btree::group_btree_axioms;

/// What to do with the bytes that become readable on a descriptor.
pub enum ReaderState {
    /// The error channel: the payloads of the whole frames read so far, and
    /// the bytes of a frame not yet whole.
    Errors { errs: Vec<Vec<u8>>, pending: Vec<u8> },
    /// Output kept for a descriptor manager.
    Capture { buf: Vec<u8> },
}

/// A reader state as values.
pub enum ReaderModel {
    Errors { errs: Seq<Seq<u8>>, pending: Seq<u8> },
    Capture { buf: Seq<u8> },
}

impl ReaderState {
    pub open spec fn model(&self) -> ReaderModel {
        match self {
            ReaderState::Errors { errs, pending } => ReaderModel::Errors {
                errs: payloads(errs@),
                pending: pending@,
            },
            ReaderState::Capture { buf } => ReaderModel::Capture { buf: buf@ },
        }
    }
}

/// The state that reading `bytes` leaves `s` in: whole frames join the
/// error list; captured bytes are appended.
pub open spec fn after_read(s: ReaderModel, bytes: Seq<u8>, order: ByteOrder) -> ReaderModel {
    match s {
        ReaderModel::Errors { errs, pending } => {
            let parsed = parse_frames(pending + bytes, order);
            ReaderModel::Errors { errs: errs + parsed.0, pending: parsed.1 }
        },
        ReaderModel::Capture { buf } => ReaderModel::Capture { buf: buf + bytes },
    }
}

/// Reading `a` and then `b` leaves a state as reading them in one piece
/// does: how the stream is cut into reads changes nothing.
pub proof fn lemma_read_in_pieces(s: ReaderModel, a: Seq<u8>, b: Seq<u8>, order: ByteOrder)
    ensures
        after_read(after_read(s, a, order), b, order) == after_read(s, a + b, order),
{
    match s {
        ReaderModel::Errors { errs, pending } => {
            lemma_parse_append(pending + a, b, order);
            assert(pending + a + b =~= pending + (a + b));
            let p1 = parse_frames(pending + a, order);
            let p2 = parse_frames(p1.1 + b, order);
            assert(errs + p1.0 + p2.0 =~= errs + (p1.0 + p2.0));
        },
        ReaderModel::Capture { buf } => {
            assert(buf + a + b =~= buf + (a + b));
        },
    }
}

/// The registry: descriptor number to reader state. It borrows the
/// descriptors; their owners close them.
pub struct Selecter {
    readers: BTreeMap<i32, ReaderState>,
}

impl View for Selecter {
    type V = Map<i32, ReaderModel>;

    closed spec fn view(&self) -> Map<i32, ReaderModel> {
        self.readers@.map_values(|s: ReaderState| s.model())
    }
}

fn append(v: &mut Vec<u8>, bytes: &[u8])
    ensures
        final(v)@ == old(v)@ + bytes@,
{
    let mut i: usize = 0;
    while i < bytes.len()
        invariant
            i <= bytes@.len(),
            v@ == old(v)@ + bytes@.subrange(0, i as int),
        decreases bytes@.len() - i,
    {
        v.push(bytes[i]);
        i = i + 1;
        assert(bytes@.subrange(0, i as int) =~= bytes@.subrange(0, i - 1) + seq![bytes@[i - 1]]);
    }
    assert(bytes@.subrange(0, bytes@.len() as int) =~= bytes@);
}

/// Reading `bytes` in state `s`.
pub fn read_into(s: ReaderState, bytes: &[u8], order: ByteOrder) -> (r: ReaderState)
    ensures
        r.model() == after_read(s.model(), bytes@, order),
{
    match s {
        ReaderState::Errors { errs, pending } => {
            let mut all = pending;
            append(&mut all, bytes);
            let (fs, rest) = split_frames(all.as_slice(), order);
            let mut errs = errs;
            let ghost before = errs@;
            let mut i: usize = 0;
            while i < fs.len()
                invariant
                    i <= fs@.len(),
                    payloads(errs@) == payloads(before) + payloads(fs@).subrange(0, i as int),
                decreases fs@.len() - i,
            {
                let ghost prev = errs@;
                errs.push(fs[i].clone());
                i = i + 1;
                assert(payloads(errs@) =~= payloads(prev) + seq![fs@[i - 1]@]);
                assert(payloads(fs@).subrange(0, i as int) =~= payloads(fs@).subrange(0, i - 1)
                    + seq![fs@[i - 1]@]);
            }
            assert(payloads(fs@).subrange(0, fs@.len() as int) =~= payloads(fs@));
            let r = ReaderState::Errors { errs, pending: rest };
            assert(r.model() == after_read(s.model(), bytes@, order));
            r
        },
        ReaderState::Capture { buf } => {
            let mut buf = buf;
            append(&mut buf, bytes);
            ReaderState::Capture { buf }
        },
    }
}

impl Selecter {
    /// An empty registry.
    pub fn new() -> (r: Selecter)
        ensures
            r@ == Map::<i32, ReaderModel>::empty(),
    {
        let r = Selecter { readers: BTreeMap::new() };
        assert(r@ =~= Map::<i32, ReaderModel>::empty());
        r
    }

    /// Registers `fd` with `state`.
    pub fn insert_reader(&mut self, fd: i32, state: ReaderState)
        requires
            !old(self)@.contains_key(fd),
        ensures
            final(self)@ == old(self)@.insert(fd, state.model()),
    {
        self.readers.insert(fd, state);
        assert(self@ =~= old(self)@.insert(fd, state.model()));
    }

    /// Deregisters `fd` and hands back its state.
    pub fn remove_reader(&mut self, fd: i32) -> (r: ReaderState)
        requires
            old(self)@.contains_key(fd),
        ensures
            r.model() == old(self)@[fd],
            final(self)@ == old(self)@.remove(fd),
    {
        let r = self.readers.remove(&fd);
        assert(self@ =~= old(self)@.remove(fd));
        match r {
            Some(s) => s,
            None => {
                proof {
                    assert(false);
                }
                ReaderState::Capture { buf: Vec::new() }
            },
        }
    }

    /// The state of `fd`, if it is registered.
    pub fn get(&self, fd: i32) -> (r: Option<&ReaderState>)
        ensures
            r is Some <==> self@.contains_key(fd),
            r matches Some(s) ==> s.model() == self@[fd],
    {
        self.readers.get(&fd)
    }

    /// The registered descriptors, ascending.
    pub fn fds(&self) -> (r: Vec<i32>)
        ensures
            r@.to_set() == self@.dom(),
            r@.no_duplicates(),
    {
        let mut r: Vec<i32> = Vec::new();
        let ghost ks = vstd::std_specs::iter::IteratorSpec::remaining(&vstd::std_specs::btree::spec_keys_iter(&self.readers));
        for k in it: self.readers.keys()
            invariant
                it.seq() == ks,
                r@ == ks.subrange(0, it.index() as int).map_values(|x: &i32| *x),
            ensures
                r@ == ks.map_values(|x: &i32| *x),
        {
            assert(ks.subrange(0, it.index() + 1).map_values(|x: &i32| *x) =~= ks.subrange(
                0,
                it.index() as int,
            ).map_values(|x: &i32| *x).push(*k));
            r.push(*k);
        }
        proof {
            assert(ks.map_values(|x: &i32| *x) =~= ks.unref());
        }
        r
    }

    /// Whether `fd` is registered.
    pub fn contains(&self, fd: i32) -> (r: bool)
        ensures
            r == self@.contains_key(fd),
    {
        self.readers.contains_key(&fd)
    }

    /// Whether any descriptor is registered.
    pub fn any(&self) -> (r: bool)
        ensures
            r == !self@.dom().is_empty(),
    {
        let r = !self.readers.is_empty();
        proof {
            if !r {
                assert(self@.dom() =~= Set::<i32>::empty());
            } else {
                assert(!self.readers@.dom().is_empty());
                let k = self.readers@.dom().choose();
                assert(self@.dom().contains(k));
            }
        }
        r
    }

    /// Hands the bytes read from `fd` to its state. Where `fd` is not
    /// registered nothing changes.
    pub fn handle_read(&mut self, fd: i32, bytes: &[u8], order: ByteOrder)
        ensures
            old(self)@.contains_key(fd) ==> final(self)@ == old(self)@.insert(
                fd,
                after_read(old(self)@[fd], bytes@, order),
            ),
            !old(self)@.contains_key(fd) ==> final(self)@ == old(self)@,
    {
        if self.contains(fd) {
            let s = self.remove_reader(fd);
            let s2 = read_into(s, bytes, order);
            self.insert_reader(fd, s2);
        }
    }
}

} // verus!
