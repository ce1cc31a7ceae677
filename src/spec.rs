//! Checks on a process specification made before anything is forked.
use vstd::prelude::*;

use vstd::utf8::encode_utf8;

use crate::err::Error;

verus! {

pub open spec fn is_digit(c: u8) -> bool {
    48 <= c <= 57
}

pub open spec fn all_digits(b: Seq<u8>) -> bool {
    forall|i: int| 0 <= i < b.len() ==> is_digit(#[trigger] b[i])
}

/// The value of the decimal numeral `b`.
pub open spec fn decimal_value(b: Seq<u8>) -> int
    decreases b.len(),
{
    if b.len() == 0 {
        0
    } else {
        decimal_value(b.drop_last()) * 10 + (b.last() - 48)
    }
}

/// The descriptor number that the key `b` names, if it names one.
pub open spec fn fd_of(b: Seq<u8>) -> Option<i32> {
    if b.len() > 0 && all_digits(b) && decimal_value(b) <= i32::MAX {
        Some(decimal_value(b) as i32)
    } else {
        None
    }
}

proof fn lemma_decimal_grows(b: Seq<u8>, i: int, j: int)
    requires
        all_digits(b),
        0 <= i <= j <= b.len(),
    ensures
        0 <= decimal_value(b.subrange(0, i)) <= decimal_value(b.subrange(0, j)),
    decreases j - i,
{
    if i < j {
        lemma_decimal_grows(b, i, j - 1);
        let s = b.subrange(0, j);
        assert(s.drop_last() =~= b.subrange(0, j - 1));
        assert(is_digit(b[j - 1]));
    } else {
        lemma_decimal_nonneg(b.subrange(0, i));
    }
}

proof fn lemma_decimal_nonneg(b: Seq<u8>)
    requires
        all_digits(b),
    ensures
        decimal_value(b) >= 0,
    decreases b.len(),
{
    if b.len() > 0 {
        assert(all_digits(b.drop_last()));
        lemma_decimal_nonneg(b.drop_last());
    }
}

/// Parses a descriptor key: a non-empty decimal numeral that fits an `i32`.
pub fn parse_fd(s: &str) -> (r: Result<i32, Error>)
    ensures
        match fd_of(encode_utf8(s@)) {
            Some(n) => r == Ok::<i32, Error>(n),
            None => r == Err::<i32, Error>(Error::Spec),
        },
{
    let b = s.as_bytes();
    assert(b@ == encode_utf8(s@));
    let len = b.len();
    if len == 0 {
        return Err(Error::Spec);
    }
    let mut v: i64 = 0;
    let mut i: usize = 0;
    while i < len
        invariant
            i <= len == b@.len(),
            b@ == encode_utf8(s@),
            all_digits(b@.subrange(0, i as int)),
            v == decimal_value(b@.subrange(0, i as int)),
            0 <= v <= i32::MAX,
        decreases len - i,
    {
        let c = b[i];
        if c < 48 || c > 57 {
            assert(!is_digit(b@[i as int]));
            assert(!all_digits(b@));
            return Err(Error::Spec);
        }
        assert(b@.subrange(0, i + 1).drop_last() =~= b@.subrange(0, i as int));
        let w = v * 10 + (c - 48) as i64;
        assert(decimal_value(b@.subrange(0, i + 1)) == w);
        assert(all_digits(b@.subrange(0, i + 1)));
        if w > i32::MAX as i64 {
            proof {
                assert(all_digits(b@.subrange(0, i + 1)));
                if all_digits(b@) {
                    lemma_decimal_grows(b@, i + 1, len as int);
                    assert(b@.subrange(0, len as int) =~= b@);
                }
            }
            return Err(Error::Spec);
        }
        v = w;
        i = i + 1;
    }
    assert(b@.subrange(0, len as int) =~= b@);
    Ok(v as i32)
}

/// A process specification that passed the checks made before a fork: a
/// non-empty argument vector and distinct descriptor numbers, ascending.
pub struct Launch {
    pub argv: Vec<Vec<u8>>,
    pub fds: Vec<i32>,
}

impl Launch {
    pub open spec fn valid(&self) -> bool {
        &&& self.argv@.len() > 0
        &&& ascending(self.fds@)
    }
}

/// Whether `s` is strictly increasing.
pub open spec fn ascending(s: Seq<i32>) -> bool {
    forall|i: int, j: int| 0 <= i < j < s.len() ==> s[i] < s[j]
}

/// The distinct values `v` in ascending order.
fn sort_distinct(v: &Vec<i32>) -> (r: Vec<i32>)
    requires
        forall|i: int, j: int| 0 <= i < j < v@.len() ==> v@[i] != v@[j],
    ensures
        r@.len() == v@.len(),
        ascending(r@),
        forall|i: int| 0 <= i < v@.len() ==> r@.contains(#[trigger] v@[i]),
        forall|j: int| 0 <= j < r@.len() ==> v@.contains(#[trigger] r@[j]),
{
    let mut r: Vec<i32> = Vec::new();
    let mut i: usize = 0;
    while i < v.len()
        invariant
            i <= v@.len(),
            r@.len() == i,
            forall|a: int, b: int| 0 <= a < b < v@.len() ==> v@[a] != v@[b],
            ascending(r@),
            forall|k: int| 0 <= k < i ==> r@.contains(#[trigger] v@[k]),
            forall|j: int| 0 <= j < r@.len() ==> exists|k: int| 0 <= k < i && v@[k] == #[trigger] r@[j],
        decreases v@.len() - i,
    {
        let n = v[i];
        let mut pos: usize = 0;
        while pos < r.len() && r[pos] < n
            invariant
                pos <= r@.len(),
                forall|m: int| 0 <= m < pos ==> r@[m] < n,
            decreases r@.len() - pos,
        {
            pos = pos + 1;
        }
        proof {
            if pos < r@.len() {
                assert(r@[pos as int] != n) by {
                    let k = choose|k: int| 0 <= k < i && v@[k] == r@[pos as int];
                }
            }
        }
        let ghost old_r = r@;
        r.insert(pos, n);
        proof {
            assert(r@ == old_r.insert(pos as int, n));
            assert forall|a: int, b: int| 0 <= a < b < r@.len() implies r@[a] < r@[b] by {
                if b < pos {
                } else if b == pos {
                } else if a < pos {
                    assert(old_r[b - 1] >= old_r[pos as int]);
                } else if a == pos {
                    assert(old_r[b - 1] >= old_r[pos as int]);
                } else {
                }
            }
            assert forall|k: int| 0 <= k < i + 1 implies r@.contains(#[trigger] v@[k]) by {
                if k == i {
                    assert(r@[pos as int] == n);
                } else {
                    let j = choose|j: int| 0 <= j < old_r.len() && old_r[j] == v@[k];
                    if j < pos {
                        assert(r@[j] == v@[k]);
                    } else {
                        assert(r@[j + 1] == v@[k]);
                    }
                }
            }
            assert forall|j: int| 0 <= j < r@.len() implies exists|k: int| 0 <= k < i + 1 && v@[k] == #[trigger] r@[j] by {
                if j < pos {
                    assert(r@[j] == old_r[j]);
                } else if j == pos {
                    assert(v@[i as int] == r@[j]);
                } else {
                    assert(r@[j] == old_r[j - 1]);
                }
            }
        }
        i = i + 1;
    }
    proof {
        assert forall|j: int| 0 <= j < r@.len() implies v@.contains(#[trigger] r@[j]) by {
            let k = choose|k: int| 0 <= k < v@.len() && v@[k] == r@[j];
        }
    }
    r
}

/// Whether every key of `keys` names a descriptor.
pub open spec fn keys_parse(keys: Seq<String>) -> bool {
    forall|i: int| 0 <= i < keys.len() ==> (#[trigger] fd_of(encode_utf8(keys[i]@))).is_some()
}

/// Whether some key of `keys` names the descriptor `x`.
pub open spec fn names_fd(keys: Seq<String>, x: i32) -> bool {
    exists|i: int| 0 <= i < keys.len() && fd_of(encode_utf8(keys[i]@)) == Some(x)
}

/// Whether two keys of `keys` name the same descriptor.
pub open spec fn keys_repeat(keys: Seq<String>) -> bool {
    exists|i: int, j: int|
        0 <= i < j < keys.len() && #[trigger] fd_of(encode_utf8(keys[i]@)) == #[trigger] fd_of(
            encode_utf8(keys[j]@),
        )
}

/// Checks a process specification: `Spec` where the argument vector is empty,
/// a key is not a descriptor number, or two keys name the same descriptor;
/// else the launch, with the keys' descriptor numbers in ascending order.
pub fn prepare(argv: Vec<Vec<u8>>, keys: &Vec<String>) -> (r: Result<Launch, Error>)
    ensures
        (argv@.len() == 0 || !keys_parse(keys@) || keys_repeat(keys@)) ==> r == Err::<
            Launch,
            Error,
        >(Error::Spec),
        !(argv@.len() == 0 || !keys_parse(keys@) || keys_repeat(keys@)) ==> r.is_ok() && ({
            let l = r.unwrap();
            &&& l.valid()
            &&& l.argv == argv
            &&& l.fds@.len() == keys@.len()
            &&& forall|i: int|
                0 <= i < keys@.len() ==> l.fds@.contains(#[trigger] fd_of(encode_utf8(keys@[i]@)).unwrap())
            &&& forall|j: int| 0 <= j < l.fds@.len() ==> names_fd(keys@, #[trigger] l.fds@[j])
        }),
{
    if argv.len() == 0 {
        return Err(Error::Spec);
    }
    let mut fds: Vec<i32> = Vec::new();
    let mut i: usize = 0;
    while i < keys.len()
        invariant
            i <= keys@.len(),
            fds@.len() == i,
            forall|k: int| 0 <= k < i ==> fd_of(encode_utf8(keys@[k]@)) == Some(#[trigger] fds@[k]),
            forall|k: int, m: int| 0 <= k < m < i ==> fds@[k] != fds@[m],
        decreases keys@.len() - i,
    {
        let n = match parse_fd(keys[i].as_str()) {
            Ok(n) => n,
            Err(e) => {
                assert(fd_of(encode_utf8(keys@[i as int]@)).is_none());
                return Err(e);
            },
        };
        let mut k: usize = 0;
        while k < i
            invariant
                k <= i == fds@.len(),
                i < keys@.len(),
                fd_of(encode_utf8(keys@[i as int]@)) == Some(n),
                forall|m: int| 0 <= m < i ==> fd_of(encode_utf8(keys@[m]@)) == Some(#[trigger] fds@[m]),
                forall|m: int| 0 <= m < k ==> fds@[m] != n,
            decreases i - k,
        {
            if fds[k] == n {
                assert(fd_of(encode_utf8(keys@[k as int]@)) == Some(fds@[k as int]));
                assert(fd_of(encode_utf8(keys@[k as int]@)) == fd_of(encode_utf8(keys@[i as int]@)));
                assert(keys_repeat(keys@));
                return Err(Error::Spec);
            }
            k = k + 1;
        }
        fds.push(n);
        i = i + 1;
    }
    proof {
        assert forall|k: int| 0 <= k < keys@.len() implies (#[trigger] fd_of(encode_utf8(keys@[k]@))).is_some() by {
            assert(fd_of(encode_utf8(keys@[k]@)) == Some(fds@[k]));
        }
        assert(keys_parse(keys@));
        if keys_repeat(keys@) {
            let (a, b) = choose|a: int, b: int|
                0 <= a < b < keys@.len() && #[trigger] fd_of(encode_utf8(keys@[a]@)) == #[trigger] fd_of(
                    encode_utf8(keys@[b]@),
                );
            assert(fd_of(encode_utf8(keys@[a]@)) == Some(fds@[a]));
            assert(fd_of(encode_utf8(keys@[b]@)) == Some(fds@[b]));
            assert(fds@[a] == fds@[b]);
        }
    }
    let sorted = sort_distinct(&fds);
    proof {
        assert forall|i: int| 0 <= i < keys@.len() implies sorted@.contains(#[trigger] fd_of(encode_utf8(keys@[i]@)).unwrap()) by {
            assert(fd_of(encode_utf8(keys@[i]@)) == Some(fds@[i]));
            assert(sorted@.contains(fds@[i]));
        }
        assert forall|j: int| 0 <= j < sorted@.len() implies names_fd(keys@, #[trigger] sorted@[j]) by {
            assert(fds@.contains(sorted@[j]));
            let k = choose|k: int| 0 <= k < fds@.len() && fds@[k] == sorted@[j];
            assert(fd_of(encode_utf8(keys@[k]@)) == Some(fds@[k]));
        }
    }
    Ok(Launch { argv, fds: sorted })
}

} // verus!
