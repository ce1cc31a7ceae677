use ir::err::Error;
use ir::spec::{parse_fd, prepare};
use ir::sys::{c_string, c_strings, close, dup2, env_entries, execv, execve, fork, mkstemp, mkstemp_template, open, open_path, wait4};

#[test]
fn close_results() {
    assert_eq!(close(0, 0), Ok(()));
    assert_eq!(close(-1, 9), Err(Error::Os(9)));
    assert_eq!(close(7, 0), Err(Error::Fatal));
}

#[test]
fn dup2_results() {
    assert_eq!(dup2(1, 1, 0), Ok(()));
    assert_eq!(dup2(-1, 1, 24), Err(Error::Os(24)));
    assert_eq!(dup2(3, 1, 0), Err(Error::Fatal));
}

#[test]
fn fork_and_open_results() {
    assert_eq!(fork(0, 0), Ok(0));
    assert_eq!(fork(1234, 0), Ok(1234));
    assert_eq!(fork(-1, 11), Err(Error::Os(11)));
    assert_eq!(fork(-2, 0), Err(Error::Fatal));
    assert_eq!(open(5, 0), Ok(5));
    assert_eq!(open(-1, 2), Err(Error::Os(2)));
}

#[test]
fn wait4_results() {
    assert_eq!(wait4(42, 256, 0), Ok(Some((42, 256))));
    assert_eq!(wait4(0, 0, 0), Ok(None));
    assert_eq!(wait4(-1, 0, 10), Err(Error::Os(10)));
}

#[test]
fn mkstemp_path() {
    let path = b"/tmp/outXXXXXX\0".to_vec();
    assert_eq!(mkstemp(4, 0, &path), Ok((b"/tmp/outXXXXXX".to_vec(), 4)));
    assert_eq!(mkstemp(-1, 13, &path), Err(Error::Os(13)));
}

#[test]
fn nul_in_argument_is_rejected() {
    assert_eq!(c_string(&b"a\0b".to_vec()), Err(Error::BadArgument));
    assert_eq!(c_string(&b"ab".to_vec()), Ok(b"ab\0".to_vec()));
    assert_eq!(c_strings(&vec![b"x".to_vec(), b"y\0".to_vec()]), Err(Error::BadArgument));
    let args = vec![b"/bin/echo".to_vec(), b"hel\0lo".to_vec()];
    assert!(matches!(execv(&b"/bin/echo".to_vec(), &args), Err(Error::BadArgument)));
}

#[test]
fn nul_in_env_value_is_rejected() {
    let env = vec![(b"HOME".to_vec(), b"/ro\0ot".to_vec())];
    assert_eq!(env_entries(&env), Err(Error::BadArgument));
    let args = vec![b"/bin/true".to_vec()];
    assert!(matches!(execve(&b"/bin/true".to_vec(), &args, &env), Err(Error::BadArgument)));
}

#[test]
fn env_name_with_equals_is_rejected() {
    let env = vec![(b"A=B".to_vec(), b"c".to_vec())];
    assert_eq!(env_entries(&env), Err(Error::BadArgument));
}

#[test]
fn execve_image() {
    let args = vec![b"/bin/echo".to_vec(), b"hello".to_vec()];
    let env = vec![(b"PATH".to_vec(), b"/bin".to_vec()), (b"X".to_vec(), b"".to_vec())];
    let im = match execve(&b"/bin/echo".to_vec(), &args, &env) {
        Ok(im) => im,
        Err(e) => panic!("unexpected {:?}", e),
    };
    assert_eq!(im.path, b"/bin/echo\0".to_vec());
    assert_eq!(im.argv, vec![b"/bin/echo\0".to_vec(), b"hello\0".to_vec()]);
    assert_eq!(im.envp, Some(vec![b"PATH=/bin\0".to_vec(), b"X=\0".to_vec()]));
}

#[test]
fn execv_inherits_environment() {
    let args = vec![b"/bin/echo".to_vec(), b"hi".to_vec()];
    let im = match execv(&b"/bin/echo".to_vec(), &args) {
        Ok(im) => im,
        Err(e) => panic!("unexpected {:?}", e),
    };
    assert_eq!(im.path, b"/bin/echo\0".to_vec());
    assert_eq!(im.argv, vec![b"/bin/echo\0".to_vec(), b"hi\0".to_vec()]);
    assert!(im.envp.is_none());
}

#[test]
fn parse_fd_keys() {
    assert_eq!(parse_fd("0"), Ok(0));
    assert_eq!(parse_fd("12"), Ok(12));
    assert_eq!(parse_fd("2147483647"), Ok(2147483647));
    assert_eq!(parse_fd("2147483648"), Err(Error::Spec));
    assert_eq!(parse_fd(""), Err(Error::Spec));
    assert_eq!(parse_fd("-1"), Err(Error::Spec));
    assert_eq!(parse_fd("1a"), Err(Error::Spec));
}

#[test]
fn empty_argv_is_a_spec_error() {
    assert!(matches!(prepare(vec![], &vec!["1".to_string()]), Err(Error::Spec)));
}

#[test]
fn repeated_fd_is_a_spec_error() {
    let argv = vec![b"/bin/true".to_vec()];
    assert!(matches!(prepare(argv, &vec!["1".to_string(), "01".to_string()]), Err(Error::Spec)));
}

#[test]
fn bad_fd_key_is_a_spec_error() {
    let argv = vec![b"/bin/true".to_vec()];
    assert!(matches!(prepare(argv, &vec!["stdout".to_string()]), Err(Error::Spec)));
}

#[test]
fn prepare_sorts_fds() {
    let argv = vec![b"/bin/true".to_vec()];
    let l = match prepare(argv, &vec!["2".to_string(), "0".to_string(), "1".to_string()]) {
        Ok(l) => l,
        Err(e) => panic!("unexpected {:?}", e),
    };
    assert_eq!(l.fds, vec![0, 1, 2]);
    assert_eq!(l.argv, vec![b"/bin/true".to_vec()]);
}

#[test]
fn nul_in_path_is_rejected() {
    assert_eq!(open_path(&b"/tmp/a\0b".to_vec()), Err(Error::BadArgument));
    assert_eq!(open_path(&b"/tmp/ab".to_vec()), Ok(b"/tmp/ab\0".to_vec()));
    assert_eq!(mkstemp_template(&b"/tmp/x\0XXXXXX".to_vec()), Err(Error::BadArgument));
    assert_eq!(mkstemp_template(&b"/tmp/xXXXXXX".to_vec()), Ok(b"/tmp/xXXXXXX\0".to_vec()));
}
