//! System call results and arguments. The calls themselves are made by the
//! caller; these functions turn their raw return values into typed results,
//! and build the NUL-terminated strings that `execve` takes.
use vstd::prelude::*;

use crate::err::Error;

verus! {

/// What a call that returns 0 on success and -1 on failure returned.
pub open spec fn unit_outcome(ret: i32, errno: i32) -> Result<(), Error> {
    if ret == 0 {
        Ok(())
    } else if ret == -1 {
        Err(Error::Os(errno))
    } else {
        Err(Error::Fatal)
    }
}

/// What a call that returns a descriptor or a pid, or -1 on failure, returned.
pub open spec fn id_outcome(ret: i32, errno: i32) -> Result<i32, Error> {
    if ret >= 0 {
        Ok(ret)
    } else if ret == -1 {
        Err(Error::Os(errno))
    } else {
        Err(Error::Fatal)
    }
}

fn id_result(ret: i32, errno: i32) -> (r: Result<i32, Error>)
    ensures
        r == id_outcome(ret, errno),
{
    if ret >= 0 {
        Ok(ret)
    } else if ret == -1 {
        Err(Error::Os(errno))
    } else {
        Err(Error::Fatal)
    }
}

/// Judges `close`.
pub fn close(ret: i32, errno: i32) -> (r: Result<(), Error>)
    ensures
        r == unit_outcome(ret, errno),
{
    if ret == 0 {
        Ok(())
    } else if ret == -1 {
        Err(Error::Os(errno))
    } else {
        Err(Error::Fatal)
    }
}

/// Judges `pipe`, which fills in the two descriptors on success.
pub fn pipe(ret: i32, errno: i32) -> (r: Result<(), Error>)
    ensures
        r == unit_outcome(ret, errno),
{
    close(ret, errno)
}

/// Judges `dup2(fd, fd2)`, which returns `fd2` on success.
pub fn dup2(ret: i32, fd2: i32, errno: i32) -> (r: Result<(), Error>)
    ensures
        r == (if ret == -1 {
            Err(Error::Os(errno))
        } else if ret == fd2 {
            Ok(())
        } else {
            Err(Error::Fatal)
        }),
{
    if ret == -1 {
        Err(Error::Os(errno))
    } else if ret == fd2 {
        Ok(())
    } else {
        Err(Error::Fatal)
    }
}

/// Judges `fork`: 0 in the child, the child's pid in the parent.
pub fn fork(ret: i32, errno: i32) -> (r: Result<i32, Error>)
    ensures
        r == id_outcome(ret, errno),
{
    id_result(ret, errno)
}

/// Judges `open`: the new descriptor, open and owned by the caller.
pub fn open(ret: i32, errno: i32) -> (r: Result<i32, Error>)
    ensures
        r == id_outcome(ret, errno),
{
    id_result(ret, errno)
}

/// Judges `mkstemp` on the NUL-terminated template `path`, which the call
/// filled in: the file's path, without its terminator, and its descriptor.
pub fn mkstemp(ret: i32, errno: i32, path: &Vec<u8>) -> (r: Result<(Vec<u8>, i32), Error>)
    ensures
        match id_outcome(ret, errno) {
            Ok(fd) => r.is_ok() && r.unwrap().1 == fd && r.unwrap().0@ == without_nul(path@),
            Err(e) => r == Err::<(Vec<u8>, i32), Error>(e),
        },
{
    match id_result(ret, errno) {
        Ok(fd) => {
            let mut p: Vec<u8> = Vec::new();
            let mut i: usize = 0;
            while i < path.len() && path[i] != 0
                invariant
                    i <= path@.len(),
                    p@ == path@.subrange(0, i as int),
                    forall|j: int| 0 <= j < i ==> path@[j] != 0,
                decreases path@.len() - i,
            {
                p.push(path[i]);
                i = i + 1;
                assert(path@.subrange(0, i as int) =~= path@.subrange(0, i - 1) + seq![path@[i - 1]]);
            }
            proof {
                lemma_without_nul(path@, i as int);
            }
            Ok((p, fd))
        },
        Err(e) => Err(e),
    }
}

/// `s` up to its first NUL byte.
pub open spec fn without_nul(s: Seq<u8>) -> Seq<u8>
    decreases s.len(),
{
    if s.len() == 0 || s[0] == 0 {
        Seq::empty()
    } else {
        seq![s[0]] + without_nul(s.drop_first())
    }
}

proof fn lemma_without_nul(s: Seq<u8>, i: int)
    requires
        0 <= i <= s.len(),
        forall|j: int| 0 <= j < i ==> s[j] != 0,
        i == s.len() || s[i] == 0,
    ensures
        without_nul(s) == s.subrange(0, i),
    decreases i,
{
    if i == 0 {
        assert(s.subrange(0, 0) =~= Seq::<u8>::empty());
    } else {
        lemma_without_nul(s.drop_first(), i - 1);
        assert(seq![s[0]] + s.drop_first().subrange(0, i - 1) =~= s.subrange(0, i));
    }
}

/// Judges `wait4`: `None` where no child has changed state (a non-blocking
/// call), else the reaped pid and its raw wait status.
pub fn wait4(ret: i32, status: i32, errno: i32) -> (r: Result<Option<(i32, i32)>, Error>)
    ensures
        r == (if ret > 0 {
            Ok(Some((ret, status)))
        } else if ret == 0 {
            Ok(None)
        } else if ret == -1 {
            Err(Error::Os(errno))
        } else {
            Err(Error::Fatal)
        }),
{
    if ret > 0 {
        Ok(Some((ret, status)))
    } else if ret == 0 {
        Ok(None)
    } else if ret == -1 {
        Err(Error::Os(errno))
    } else {
        Err(Error::Fatal)
    }
}

/// Whether `s` holds a NUL byte.
pub open spec fn has_nul(s: Seq<u8>) -> bool {
    exists|i: int| 0 <= i < s.len() && s[i] == 0
}

/// Whether `s` holds the byte `c`.
fn holds_byte(s: &Vec<u8>, c: u8) -> (r: bool)
    ensures
        r == exists|i: int| 0 <= i < s@.len() && s@[i] == c,
{
    let mut i: usize = 0;
    while i < s.len()
        invariant
            i <= s@.len(),
            forall|j: int| 0 <= j < i ==> s@[j] != c,
        decreases s@.len() - i,
    {
        if s[i] == c {
            return true;
        }
        i = i + 1;
    }
    false
}

/// `s` with a NUL terminator, or `BadArgument` where `s` holds a NUL byte.
pub fn c_string(s: &Vec<u8>) -> (r: Result<Vec<u8>, Error>)
    ensures
        has_nul(s@) ==> r == Err::<Vec<u8>, Error>(Error::BadArgument),
        !has_nul(s@) ==> r.is_ok() && r.unwrap()@ == s@.push(0),
{
    if holds_byte(s, 0) {
        return Err(Error::BadArgument);
    }
    let mut r = s.clone();
    r.push(0);
    Ok(r)
}

/// The path that `open` is handed: `path` NUL-terminated, or `BadArgument`
/// where it holds a NUL byte.
pub fn open_path(path: &Vec<u8>) -> (r: Result<Vec<u8>, Error>)
    ensures
        has_nul(path@) ==> r == Err::<Vec<u8>, Error>(Error::BadArgument),
        !has_nul(path@) ==> r.is_ok() && r.unwrap()@ == path@.push(0),
{
    c_string(path)
}

/// The template that `mkstemp` is handed: `template` NUL-terminated, or
/// `BadArgument` where it holds a NUL byte.
pub fn mkstemp_template(template: &Vec<u8>) -> (r: Result<Vec<u8>, Error>)
    ensures
        has_nul(template@) ==> r == Err::<Vec<u8>, Error>(Error::BadArgument),
        !has_nul(template@) ==> r.is_ok() && r.unwrap()@ == template@.push(0),
{
    c_string(template)
}

/// Each of `strs` with a NUL terminator, or `BadArgument` where any holds a
/// NUL byte.
pub fn c_strings(strs: &Vec<Vec<u8>>) -> (r: Result<Vec<Vec<u8>>, Error>)
    ensures
        (exists|i: int| 0 <= i < strs@.len() && has_nul(#[trigger] strs@[i]@)) ==> r == Err::<
            Vec<Vec<u8>>,
            Error,
        >(Error::BadArgument),
        (forall|i: int| 0 <= i < strs@.len() ==> !has_nul(#[trigger] strs@[i]@)) ==> r.is_ok()
            && r.unwrap()@.len() == strs@.len() && forall|i: int|
            0 <= i < strs@.len() ==> (#[trigger] r.unwrap()@[i])@ == strs@[i]@.push(0),
{
    let mut out: Vec<Vec<u8>> = Vec::new();
    let mut i: usize = 0;
    while i < strs.len()
        invariant
            i <= strs@.len(),
            out@.len() == i,
            forall|j: int| 0 <= j < i ==> !has_nul(#[trigger] strs@[j]@),
            forall|j: int| 0 <= j < i ==> (#[trigger] out@[j])@ == strs@[j]@.push(0),
        decreases strs@.len() - i,
    {
        match c_string(&strs[i]) {
            Ok(c) => out.push(c),
            Err(e) => return Err(e),
        }
        i = i + 1;
    }
    Ok(out)
}

/// The byte `=`.
pub const EQUALS: u8 = 61;

/// One `NAME=VALUE` environment entry, NUL-terminated.
pub open spec fn env_entry(name: Seq<u8>, value: Seq<u8>) -> Seq<u8> {
    name + seq![EQUALS] + value + seq![0u8]
}

/// Whether a name and value can make an environment entry: no NUL in either,
/// no `=` in the name.
pub open spec fn env_pair_ok(name: Seq<u8>, value: Seq<u8>) -> bool {
    !has_nul(name) && !has_nul(value) && !(exists|i: int| 0 <= i < name.len() && name[i] == EQUALS)
}

/// The entries of `env`, NUL-terminated, or `BadArgument` where one cannot be
/// made.
pub fn env_entries(env: &Vec<(Vec<u8>, Vec<u8>)>) -> (r: Result<Vec<Vec<u8>>, Error>)
    ensures
        (exists|i: int| 0 <= i < env@.len() && !env_pair_ok(env@[i].0@, env@[i].1@)) ==> r
            == Err::<Vec<Vec<u8>>, Error>(Error::BadArgument),
        (forall|i: int| 0 <= i < env@.len() ==> env_pair_ok(env@[i].0@, env@[i].1@)) ==> r.is_ok()
            && r.unwrap()@.len() == env@.len() && forall|i: int|
            0 <= i < env@.len() ==> (#[trigger] r.unwrap()@[i])@ == env_entry(env@[i].0@, env@[i].1@),
{
    let mut out: Vec<Vec<u8>> = Vec::new();
    let mut i: usize = 0;
    while i < env.len()
        invariant
            i <= env@.len(),
            out@.len() == i,
            forall|j: int| 0 <= j < i ==> env_pair_ok(env@[j].0@, env@[j].1@),
            forall|j: int| 0 <= j < i ==> (#[trigger] out@[j])@ == env_entry(env@[j].0@, env@[j].1@),
        decreases env@.len() - i,
    {
        let name = &env[i].0;
        let value = &env[i].1;
        if holds_byte(name, 0) || holds_byte(value, 0) || holds_byte(name, EQUALS) {
            return Err(Error::BadArgument);
        }
        let mut e = name.clone();
        e.push(EQUALS);
        let mut k: usize = 0;
        while k < value.len()
            invariant
                k <= value@.len(),
                e@ == name@ + seq![EQUALS] + value@.subrange(0, k as int),
            decreases value@.len() - k,
        {
            e.push(value[k]);
            k = k + 1;
            assert(value@.subrange(0, k as int) =~= value@.subrange(0, k - 1) + seq![value@[k - 1]]);
        }
        e.push(0);
        assert(value@.subrange(0, value@.len() as int) =~= value@);
        assert(e@ =~= env_entry(name@, value@));
        out.push(e);
        i = i + 1;
    }
    Ok(out)
}

/// What an exec call is handed: the program's path, the argument vector and,
/// for `execve`, the environment, each string NUL-terminated. `envp` is
/// `None` where the new image inherits the caller's environment (`execv`).
pub struct ExecImage {
    pub path: Vec<u8>,
    pub argv: Vec<Vec<u8>>,
    pub envp: Option<Vec<Vec<u8>>>,
}

/// Builds the path and argument vector, or `BadArgument` where a string
/// holds a NUL byte.
fn program(exe: &Vec<u8>, args: &Vec<Vec<u8>>) -> (r: Result<(Vec<u8>, Vec<Vec<u8>>), Error>)
    ensures
        r.is_ok() <==> (!has_nul(exe@) && (forall|i: int|
            0 <= i < args@.len() ==> !has_nul(#[trigger] args@[i]@))),
        r.is_err() ==> r == Err::<(Vec<u8>, Vec<Vec<u8>>), Error>(Error::BadArgument),
        r.is_ok() ==> ({
            let (path, argv) = r.unwrap();
            &&& path@ == exe@.push(0)
            &&& argv@.len() == args@.len()
            &&& (forall|i: int| 0 <= i < args@.len() ==> (#[trigger] argv@[i])@ == args@[i]@.push(0))
        }),
{
    let path = c_string(exe)?;
    let argv = c_strings(args)?;
    Ok((path, argv))
}

/// Builds what `execve(exe, args, env)` is handed, or `BadArgument` where a
/// string holds a NUL byte or a name holds `=`.
pub fn execve(exe: &Vec<u8>, args: &Vec<Vec<u8>>, env: &Vec<(Vec<u8>, Vec<u8>)>) -> (r: Result<
    ExecImage,
    Error,
>)
    ensures
        r.is_ok() <==> (!has_nul(exe@) && (forall|i: int|
            0 <= i < args@.len() ==> !has_nul(#[trigger] args@[i]@)) && (forall|i: int|
            0 <= i < env@.len() ==> env_pair_ok(env@[i].0@, env@[i].1@))),
        r.is_err() ==> r == Err::<ExecImage, Error>(Error::BadArgument),
        r.is_ok() ==> ({
            let im = r.unwrap();
            &&& im.path@ == exe@.push(0)
            &&& im.argv@.len() == args@.len()
            &&& (forall|i: int| 0 <= i < args@.len() ==> (#[trigger] im.argv@[i])@ == args@[i]@.push(0))
            &&& im.envp is Some
            &&& im.envp.unwrap()@.len() == env@.len()
            &&& (forall|i: int|
                0 <= i < env@.len() ==> (#[trigger] im.envp.unwrap()@[i])@ == env_entry(
                    env@[i].0@,
                    env@[i].1@,
                ))
        }),
{
    let (path, argv) = program(exe, args)?;
    let envp = env_entries(env)?;
    Ok(ExecImage { path, argv, envp: Some(envp) })
}

/// Builds what `execv(exe, args)` is handed: the path and argument vector;
/// no environment, since the new image runs with the caller's.
pub fn execv(exe: &Vec<u8>, args: &Vec<Vec<u8>>) -> (r: Result<ExecImage, Error>)
    ensures
        r.is_ok() <==> (!has_nul(exe@) && (forall|i: int|
            0 <= i < args@.len() ==> !has_nul(#[trigger] args@[i]@))),
        r.is_err() ==> r == Err::<ExecImage, Error>(Error::BadArgument),
        r.is_ok() ==> ({
            let im = r.unwrap();
            &&& im.path@ == exe@.push(0)
            &&& im.argv@.len() == args@.len()
            &&& (forall|i: int| 0 <= i < args@.len() ==> (#[trigger] im.argv@[i])@ == args@[i]@.push(0))
            &&& im.envp is None
        }),
{
    let (path, argv) = program(exe, args)?;
    Ok(ExecImage { path, argv, envp: None })
}

} // verus!
