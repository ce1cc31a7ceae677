//! The launch-and-supervise loop as a state machine. The caller forks,
//! selects, reads and waits; each outcome is handed to a `Supervisor`, which
//! keeps the table of live children, the error channel and the results.
use std::collections::BTreeMap;
use vstd::prelude::*;

use crate::err::Error;
use vstd::utf8::{decode_utf8, valid_utf8};

use crate::fdio::{from_utf8_lossy, utf8_lossy};
use crate::frame::{payloads, ByteOrder};
use crate::selector::{after_read, ReaderModel, ReaderState, Selecter};
use crate::spec::Launch;

verus! {

broadcast use vstd::std_specs::btree::group_btree_axioms;

/// What a descriptor manager contributed to a child's result.
pub enum FdResult {
    /// The sentinel of a manager whose teardown failed.
    Unavailable,
    /// Bytes the manager kept.
    Output(Vec<u8>),
}

/// The outcome of a manager's teardown in the parent.
pub enum Cleanup {
    /// A result for its descriptor.
    Done(FdResult),
    /// No result for its descriptor.
    Nothing,
    /// The teardown failed, with this message.
    Failed(String),
}

/// Resource usage of a reaped child.
pub struct Usage {
    pub user_usec: i64,
    pub system_usec: i64,
    pub max_rss: i64,
}

/// The record of one reaped child.
pub struct ProcResult {
    pub pid: i32,
    pub status: i32,
    pub usage: Usage,
    pub fds: Vec<(i32, FdResult)>,
}

/// Results of the whole run: one record per reaped child, in reap order, and
/// the errors not tied to one record.
pub struct GlobalResult {
    pub procs: Vec<ProcResult>,
    pub errors: Vec<String>,
}

/// A child forked and not yet reaped: its pid and the descriptor numbers of
/// its managers, in order.
pub struct LiveProc {
    pub pid: i32,
    pub fds: Vec<i32>,
}

/// How a call of `select` ended.
pub enum SelectOutcome {
    Ready,
    Interrupted,
    Failed(i32),
}

/// How a non-blocking `wait4` ended.
pub enum WaitOutcome {
    /// A child was reaped: its pid and raw wait status.
    Reaped(i32, i32),
    /// No child has changed state.
    NothingYet,
    /// A signal interrupted the call.
    Interrupted,
    /// The process has no children.
    NoChildren,
    /// Any other failure.
    Failed(Error),
}

/// What the loop does after a call of `wait4`.
#[derive(PartialEq, Eq, Structural)]
pub enum WaitStep {
    /// Handle the reap of this pid with this status, then wait again.
    Reap(i32, i32),
    /// Call again at once.
    Again,
    /// Go back to the selector.
    Done,
    Fatal(Error),
}

/// What the loop does after a call of `select`.
#[derive(PartialEq, Eq, Structural)]
pub enum Step {
    Again,
    Fatal(Error),
}

/// The entries that the teardown outcomes `outs` of managers for the
/// descriptors `fds` give a child's record.
pub open spec fn fd_entries(fds: Seq<i32>, outs: Seq<Cleanup>) -> Seq<(i32, FdResult)>
    decreases outs.len(),
{
    if outs.len() == 0 {
        Seq::empty()
    } else {
        let prev = fd_entries(fds, outs.drop_last());
        let i = outs.len() - 1;
        if i >= fds.len() {
            prev
        } else {
            match outs.last() {
                Cleanup::Done(r) => prev.push((fds[i], r)),
                Cleanup::Nothing => prev,
                Cleanup::Failed(_) => prev.push((fds[i], FdResult::Unavailable)),
            }
        }
    }
}

/// The messages of the failed teardowns among `outs`.
pub open spec fn failure_messages(fds: Seq<i32>, outs: Seq<Cleanup>) -> Seq<String>
    decreases outs.len(),
{
    if outs.len() == 0 {
        Seq::empty()
    } else {
        let prev = failure_messages(fds, outs.drop_last());
        if outs.len() - 1 >= fds.len() {
            prev
        } else {
            match outs.last() {
                Cleanup::Failed(m) => prev.push(m),
                _ => prev,
            }
        }
    }
}

/// A child's record holds at most one entry per manager.
pub proof fn lemma_fd_entries_bounded(fds: Seq<i32>, outs: Seq<Cleanup>)
    ensures
        fd_entries(fds, outs).len() <= fds.len(),
        fd_entries(fds, outs).len() <= outs.len(),
    decreases outs.len(),
{
    if outs.len() > 0 {
        lemma_fd_entries_bounded(fds, outs.drop_last());
        if outs.len() - 1 < fds.len() {
            lemma_fd_entries_prefix_bounded(fds, outs.drop_last());
        }
    }
}

proof fn lemma_fd_entries_prefix_bounded(fds: Seq<i32>, outs: Seq<Cleanup>)
    requires
        outs.len() < fds.len(),
    ensures
        fd_entries(fds, outs).len() <= outs.len(),
    decreases outs.len(),
{
    if outs.len() > 0 {
        lemma_fd_entries_prefix_bounded(fds, outs.drop_last());
    }
}

/// Whether `new` is `old` followed by the decoded error frames `chan` and
/// then the messages `msgs`.
pub open spec fn errors_extended(
    old: Seq<String>,
    chan: Seq<Seq<u8>>,
    msgs: Seq<String>,
    new: Seq<String>,
) -> bool {
    &&& new.len() == old.len() + chan.len() + msgs.len()
    &&& forall|i: int| 0 <= i < old.len() ==> new[i] == old[i]
    &&& forall|i: int| 0 <= i < chan.len() ==> (#[trigger] new[old.len() + i])@ == utf8_lossy(chan[i])
    &&& forall|i: int|
        0 <= i < chan.len() && valid_utf8(chan[i]) ==> (#[trigger] new[old.len() + i])@
            == decode_utf8(chan[i])
    &&& forall|i: int|
        0 <= i < msgs.len() ==> #[trigger] new[old.len() + chan.len() + i] == msgs[i]
}

/// Decodes each error frame's payload.
fn decode_all(errs: &Vec<Vec<u8>>) -> (r: Vec<String>)
    ensures
        r@.len() == errs@.len(),
        forall|i: int| 0 <= i < errs@.len() ==> (#[trigger] r@[i])@ == utf8_lossy(errs@[i]@),
        forall|i: int|
            0 <= i < errs@.len() && valid_utf8(errs@[i]@) ==> (#[trigger] r@[i])@ == decode_utf8(
                errs@[i]@,
            ),
{
    let mut r: Vec<String> = Vec::new();
    let mut i: usize = 0;
    while i < errs.len()
        invariant
            i <= errs@.len(),
            r@.len() == i,
            forall|j: int| 0 <= j < i ==> (#[trigger] r@[j])@ == utf8_lossy(errs@[j]@),
            forall|j: int|
                0 <= j < i && valid_utf8(errs@[j]@) ==> (#[trigger] r@[j])@ == decode_utf8(
                    errs@[j]@,
                ),
        decreases errs@.len() - i,
    {
        r.push(from_utf8_lossy(errs[i].as_slice()));
        i = i + 1;
    }
    r
}

/// The entries and failure messages that the teardown outcomes `outs` give.
fn fd_results(fds: &Vec<i32>, outs: Vec<Cleanup>) -> (r: (Vec<(i32, FdResult)>, Vec<String>))
    ensures
        r.0@ == fd_entries(fds@, outs@),
        r.1@ == failure_messages(fds@, outs@),
{
    let ghost all = outs@;
    let mut outs = outs;
    let mut entries: Vec<(i32, FdResult)> = Vec::new();
    let mut msgs: Vec<String> = Vec::new();
    let n = outs.len();
    let mut i: usize = 0;
    while i < n
        invariant
            i <= n == all.len(),
            outs@ == all.subrange(i as int, n as int),
            entries@ == fd_entries(fds@, all.subrange(0, i as int)),
            msgs@ == failure_messages(fds@, all.subrange(0, i as int)),
        decreases n - i,
    {
        let o = outs.remove(0);
        assert(all.subrange(0, i + 1).drop_last() =~= all.subrange(0, i as int));
        assert(outs@ =~= all.subrange(i + 1, n as int));
        if i < fds.len() {
            match o {
                Cleanup::Done(res) => entries.push((fds[i], res)),
                Cleanup::Nothing => {},
                Cleanup::Failed(m) => {
                    entries.push((fds[i], FdResult::Unavailable));
                    msgs.push(m);
                },
            }
        }
        i = i + 1;
    }
    assert(all.subrange(0, n as int) =~= all);
    (entries, msgs)
}

/// Once no child is live, the pids that have a record are exactly the pids
/// that were forked, and there is one record per fork.
pub proof fn lemma_all_reaped(s: &Supervisor)
    requires
        s.wf(),
        s.live().dom().is_empty(),
    ensures
        s.result_pids() == s.forked_pids(),
        s.result.procs@.len() == s.fork_count(),
{
    assert(s.procs@.dom() =~= s.live().dom());
    assert(s.forked_pids() =~= s.result_pids());
}

/// The error recorded where the error channel ends inside a frame.
pub const INCOMPLETE_FRAME: &'static str = "incomplete frame on the error channel";

/// The supervisor's state.
pub struct Supervisor {
    pub selector: Selecter,
    /// Read end of the error channel.
    pub err_fd: i32,
    pub order: ByteOrder,
    pub procs: BTreeMap<i32, LiveProc>,
    pub result: GlobalResult,
    /// What the run has done so far, kept for the proofs.
    pub tally: Tally,
}

/// Counts kept for the proofs; only this module changes them.
pub struct Tally {
    /// Every pid recorded as forked.
    forked: Ghost<Set<i32>>,
    /// How many frames the error channel has delivered.
    delivered: Ghost<nat>,
    /// How many of those have been moved into the errors.
    drained: Ghost<nat>,
    /// How many forks were recorded.
    forks: Ghost<nat>,
}

impl Tally {
    pub closed spec fn forked(&self) -> Set<i32> {
        self.forked@
    }

    pub closed spec fn delivered(&self) -> nat {
        self.delivered@
    }

    pub closed spec fn drained(&self) -> nat {
        self.drained@
    }

    pub closed spec fn forks(&self) -> nat {
        self.forks@
    }
}

impl Supervisor {
    /// Every pid recorded as forked.
    pub open spec fn forked_pids(&self) -> Set<i32> {
        self.tally.forked()
    }

    /// How many frames the error channel has delivered.
    pub open spec fn delivered_frames(&self) -> nat {
        self.tally.delivered()
    }

    /// How many delivered frames have been moved into the errors.
    pub open spec fn drained_frames(&self) -> nat {
        self.tally.drained()
    }

    /// How many forks were recorded.
    pub open spec fn fork_count(&self) -> nat {
        self.tally.forks()
    }

    /// The payloads of error frames read and not yet moved into the errors.
    pub open spec fn channel_errs(&self) -> Seq<Seq<u8>> {
        if self.selector@.contains_key(self.err_fd) {
            match self.selector@[self.err_fd] {
                ReaderModel::Errors { errs, pending } => errs,
                ReaderModel::Capture { buf } => Seq::empty(),
            }
        } else {
            Seq::empty()
        }
    }

    /// The bytes of an error frame not yet whole.
    pub open spec fn channel_pending(&self) -> Seq<u8> {
        if self.selector@.contains_key(self.err_fd) {
            match self.selector@[self.err_fd] {
                ReaderModel::Errors { errs, pending } => pending,
                ReaderModel::Capture { buf } => Seq::empty(),
            }
        } else {
            Seq::empty()
        }
    }

    /// The live children: pid to descriptor numbers of its managers.
    pub open spec fn live(&self) -> Map<i32, Seq<i32>> {
        self.procs@.map_values(|p: LiveProc| p.fds@)
    }

    /// The pids that have a record in the results.
    pub open spec fn result_pids(&self) -> Set<i32> {
        Set::new(|p: i32| exists|i: int| 0 <= i < self.result.procs@.len() && #[trigger] self.result.procs@[i].pid == p)
    }

    pub open spec fn wf(&self) -> bool {
        &&& forall|p: i32| #[trigger] self.procs@.contains_key(p) ==> self.procs@[p].pid == p
        &&& self.forked_pids() == self.procs@.dom() + self.result_pids()
        &&& self.drained_frames() <= self.result.errors@.len()
        &&& self.delivered_frames() == self.drained_frames() + self.channel_errs().len()
        &&& self.selector@.contains_key(self.err_fd) ==> self.selector@[self.err_fd] is Errors
        &&& self.procs@.dom().finite()
        &&& self.result.procs@.len() + self.procs@.dom().len() == self.fork_count()
    }

    /// A supervisor with no children, watching the error channel's read end
    /// `err_fd`.
    pub fn new(err_fd: i32, order: ByteOrder) -> (r: Supervisor)
        ensures
            r.wf(),
            r.err_fd == err_fd,
            r.order == order,
            r.selector@ == Map::<i32, ReaderModel>::empty().insert(
                err_fd,
                ReaderModel::Errors { errs: Seq::empty(), pending: Seq::empty() },
            ),
            r.live() == Map::<i32, Seq<i32>>::empty(),
            r.result.procs@.len() == 0,
            r.result.errors@.len() == 0,
            r.forked_pids() == Set::<i32>::empty(),
            r.delivered_frames() == 0,
            r.fork_count() == 0,
    {
        let mut selector = Selecter::new();
        let errs: Vec<Vec<u8>> = Vec::new();
        let pending: Vec<u8> = Vec::new();
        let st = ReaderState::Errors { errs, pending };
        assert(st.model() == ReaderModel::Errors { errs: Seq::<Seq<u8>>::empty(), pending: Seq::<u8>::empty() }) by {
            assert(payloads(errs@) =~= Seq::<Seq<u8>>::empty());
        }
        selector.insert_reader(err_fd, st);
        let r = Supervisor {
            selector,
            err_fd,
            order,
            procs: BTreeMap::new(),
            result: GlobalResult { procs: Vec::new(), errors: Vec::new() },
            tally: Tally { forked: Ghost(Set::empty()), delivered: Ghost(0), drained: Ghost(0), forks: Ghost(0) },
        };
        assert(r.live() =~= Map::<i32, Seq<i32>>::empty());
        assert(r.result_pids() =~= Set::<i32>::empty());
        assert(r.forked_pids() =~= r.procs@.dom() + r.result_pids());
        r
    }

    /// Records the child `pid`, forked for `launch`.
    pub fn record_fork(&mut self, pid: i32, launch: Launch)
        requires
            old(self).wf(),
            launch.valid(),
            pid > 0,
            !old(self).live().contains_key(pid),
        ensures
            final(self).wf(),
            final(self).live() == old(self).live().insert(pid, launch.fds@),
            final(self).forked_pids() == old(self).forked_pids().insert(pid),
            final(self).fork_count() == old(self).fork_count() + 1,
            final(self).selector@ == old(self).selector@,
            final(self).err_fd == old(self).err_fd,
            final(self).order == old(self).order,
            final(self).result == old(self).result,
            final(self).delivered_frames() == old(self).delivered_frames(),
    {
        let ghost fds = launch.fds@;
        let Launch { fds: v, .. } = launch;
        self.procs.insert(pid, LiveProc { pid, fds: v });
        proof {
            self.tally.forked = Ghost(self.forked_pids().insert(pid));
            self.tally.forks = Ghost(self.fork_count() + 1);
            assert(self.live() =~= old(self).live().insert(pid, fds));
            assert(self.forked_pids() =~= self.procs@.dom() + self.result_pids());
        }
    }

    /// Records an error of the supervisor's own.
    pub fn record_error(&mut self, msg: String)
        requires
            old(self).wf(),
        ensures
            final(self).wf(),
            final(self).result.errors@ == old(self).result.errors@.push(msg),
            final(self).result.procs == old(self).result.procs,
            final(self).selector@ == old(self).selector@,
            final(self).err_fd == old(self).err_fd,
            final(self).order == old(self).order,
            final(self).live() == old(self).live(),
            final(self).forked_pids() == old(self).forked_pids(),
            final(self).delivered_frames() == old(self).delivered_frames(),
    {
        self.result.errors.push(msg);
        assert(self.result_pids() =~= old(self).result_pids());
    }

    /// Registers a manager's descriptor `fd`.
    pub fn insert_reader(&mut self, fd: i32, state: ReaderState)
        requires
            old(self).wf(),
            fd != old(self).err_fd,
            !old(self).selector@.contains_key(fd),
        ensures
            final(self).wf(),
            final(self).selector@ == old(self).selector@.insert(fd, state.model()),
            final(self).err_fd == old(self).err_fd,
            final(self).order == old(self).order,
            final(self).result == old(self).result,
            final(self).live() == old(self).live(),
            final(self).forked_pids() == old(self).forked_pids(),
            final(self).delivered_frames() == old(self).delivered_frames(),
    {
        self.selector.insert_reader(fd, state);
    }

    /// Deregisters a manager's descriptor `fd` and hands back its state.
    pub fn remove_reader(&mut self, fd: i32) -> (r: ReaderState)
        requires
            old(self).wf(),
            fd != old(self).err_fd,
            old(self).selector@.contains_key(fd),
        ensures
            final(self).wf(),
            r.model() == old(self).selector@[fd],
            final(self).selector@ == old(self).selector@.remove(fd),
            final(self).err_fd == old(self).err_fd,
            final(self).order == old(self).order,
            final(self).result == old(self).result,
            final(self).live() == old(self).live(),
            final(self).forked_pids() == old(self).forked_pids(),
            final(self).delivered_frames() == old(self).delivered_frames(),
    {
        self.selector.remove_reader(fd)
    }

    /// Whether any descriptor is still watched.
    pub fn any_readers(&self) -> (r: bool)
        ensures
            r == !self.selector@.dom().is_empty(),
    {
        self.selector.any()
    }

    /// Whether any child is still live.
    pub fn any_live(&self) -> (r: bool)
        ensures
            r == !self.live().dom().is_empty(),
    {
        let r = !self.procs.is_empty();
        proof {
            if r {
                let k = self.procs@.dom().choose();
                assert(self.live().dom().contains(k));
            } else {
                assert(self.live().dom() =~= Set::<i32>::empty());
            }
        }
        r
    }

    /// Hands the bytes read from the ready descriptor `fd` to its state.
    pub fn on_read(&mut self, fd: i32, bytes: &[u8])
        requires
            old(self).wf(),
        ensures
            final(self).wf(),
            old(self).selector@.contains_key(fd) ==> final(self).selector@ == old(
                self,
            ).selector@.insert(fd, after_read(old(self).selector@[fd], bytes@, old(self).order)),
            !old(self).selector@.contains_key(fd) ==> final(self).selector@ == old(self).selector@,
            final(self).err_fd == old(self).err_fd,
            final(self).order == old(self).order,
            final(self).result == old(self).result,
            final(self).live() == old(self).live(),
            final(self).forked_pids() == old(self).forked_pids(),
            final(self).delivered_frames() >= old(self).delivered_frames(),
    {
        self.selector.handle_read(fd, bytes, self.order);
        proof {
            let before = old(self).channel_errs().len();
            let after = self.channel_errs().len();
            if fd == self.err_fd && old(self).selector@.contains_key(fd) {
                assert(after >= before);
                self.tally.delivered = Ghost(self.delivered_frames() + (after - before) as nat);
            }
        }
    }

    /// What the loop does after `select` ended with `o`: an interruption is a
    /// wakeup and changes nothing, so every watched descriptor is watched
    /// again on the next call; any other failure is fatal.
    pub fn after_select(&self, o: SelectOutcome) -> (r: Step)
        ensures
            o is Ready ==> r == Step::Again,
            o is Interrupted ==> r == Step::Again,
            o matches SelectOutcome::Failed(e) ==> r == Step::Fatal(Error::Os(e)),
    {
        match o {
            SelectOutcome::Ready => Step::Again,
            SelectOutcome::Interrupted => Step::Again,
            SelectOutcome::Failed(e) => Step::Fatal(Error::Os(e)),
        }
    }

    /// Moves the error frames read so far into the errors, decoded.
    fn drain_channel(&mut self)
        requires
            old(self).wf(),
        ensures
            final(self).wf(),
            errors_extended(
                old(self).result.errors@,
                old(self).channel_errs(),
                Seq::empty(),
                final(self).result.errors@,
            ),
            final(self).channel_errs().len() == 0,
            final(self).channel_pending() == old(self).channel_pending(),
            final(self).selector@.dom() == old(self).selector@.dom(),
            forall|fd: i32|
                fd != old(self).err_fd && #[trigger] old(self).selector@.contains_key(fd)
                    ==> final(self).selector@[fd] == old(self).selector@[fd],
            final(self).err_fd == old(self).err_fd,
            final(self).order == old(self).order,
            final(self).result.procs == old(self).result.procs,
            final(self).procs == old(self).procs,
            final(self).forked_pids() == old(self).forked_pids(),
            final(self).delivered_frames() == old(self).delivered_frames(),
    {
        if self.selector.contains(self.err_fd) {
            let st = self.selector.remove_reader(self.err_fd);
            match st {
                ReaderState::Errors { errs, pending } => {
                    let mut msgs = decode_all(&errs);
                    let ghost before = self.result.errors@;
                    self.result.errors.append(&mut msgs);
                    let empty: Vec<Vec<u8>> = Vec::new();
                    let st2 = ReaderState::Errors { errs: empty, pending };
                    assert(payloads(empty@) =~= Seq::<Seq<u8>>::empty());
                    self.selector.insert_reader(self.err_fd, st2);
                    proof {
                        self.tally.drained = Ghost(self.drained_frames() + errs@.len());
                        assert(self.selector@.dom() =~= old(self).selector@.dom());
                        assert(self.result_pids() =~= old(self).result_pids());
                        assert forall|i: int| 0 <= i < old(self).channel_errs().len() implies (#[trigger] self.result.errors@[before.len() + i])@ == utf8_lossy(old(self).channel_errs()[i]) by {
                            assert(old(self).channel_errs()[i] == errs@[i]@);
                        }
                    }
                },
                ReaderState::Capture { buf } => {
                    proof {
                        assert(false);
                    }
                },
            }
        } else {
            assert(self.result.errors@ =~= old(self).result.errors@);
        }
    }

    /// The error channel reached end of file: its remaining frames move into
    /// the errors, and a frame left unfinished becomes an error of its own.
    pub fn close_channel(&mut self)
        requires
            old(self).wf(),
            old(self).selector@.contains_key(old(self).err_fd),
        ensures
            final(self).wf(),
            errors_extended(
                old(self).result.errors@,
                old(self).channel_errs(),
                Seq::empty(),
                final(self).result.errors@.subrange(
                    0,
                    (old(self).result.errors@.len() + old(self).channel_errs().len()) as int,
                ),
            ),
            final(self).result.errors@.len() == old(self).result.errors@.len()
                + old(self).channel_errs().len() + (if old(self).channel_pending().len() > 0 {
                1int
            } else {
                0int
            }),
            old(self).channel_pending().len() > 0 ==> final(self).result.errors@.last()@
                == INCOMPLETE_FRAME@,
            final(self).selector@ == old(self).selector@.remove(old(self).err_fd),
            final(self).err_fd == old(self).err_fd,
            final(self).order == old(self).order,
            final(self).result.procs == old(self).result.procs,
            final(self).live() == old(self).live(),
            final(self).forked_pids() == old(self).forked_pids(),
            final(self).delivered_frames() == old(self).delivered_frames(),
    {
        self.drain_channel();
        let ghost mid = self.result.errors@;
        let st = self.selector.remove_reader(self.err_fd);
        let partial = match &st {
            ReaderState::Errors { errs, pending } => pending.len() > 0,
            ReaderState::Capture { buf } => false,
        };
        if partial {
            self.result.errors.push(INCOMPLETE_FRAME.to_owned());
        }
        proof {
            assert(self.selector@ =~= old(self).selector@.remove(old(self).err_fd));
            assert(self.result_pids() =~= old(self).result_pids());
            assert(self.result.errors@.subrange(0, mid.len() as int) =~= mid);
        }
    }

    /// Handles the reap of `pid` with its raw wait status and resource usage;
    /// `outs` are the teardown outcomes of its managers, in their order. A
    /// pid that is not live is left alone and `false` returned.
    pub fn reap(&mut self, pid: i32, status: i32, usage: Usage, outs: Vec<Cleanup>) -> (r: bool)
        requires
            old(self).wf(),
        ensures
            final(self).wf(),
            r == old(self).live().contains_key(pid),
            !r ==> final(self).live() == old(self).live() && final(self).result == old(self).result
                && final(self).selector@ == old(self).selector@,
            r ==> final(self).live() == old(self).live().remove(pid),
            r ==> final(self).result.procs@.len() == old(self).result.procs@.len() + 1,
            r ==> forall|i: int|
                0 <= i < old(self).result.procs@.len() ==> final(self).result.procs@[i] == old(
                    self,
                ).result.procs@[i],
            r ==> ({
                let rec = final(self).result.procs@.last();
                &&& rec.pid == pid
                &&& rec.status == status
                &&& rec.usage == usage
                &&& rec.fds@ == fd_entries(old(self).live()[pid], outs@)
                &&& rec.fds@.len() <= old(self).live()[pid].len()
            }),
            r ==> errors_extended(
                old(self).result.errors@,
                old(self).channel_errs(),
                failure_messages(old(self).live()[pid], outs@),
                final(self).result.errors@,
            ),
            r ==> final(self).channel_errs().len() == 0,
            r ==> final(self).channel_pending() == old(self).channel_pending(),
            r ==> final(self).selector@.dom() == old(self).selector@.dom(),
            r ==> forall|fd: i32|
                fd != old(self).err_fd && #[trigger] old(self).selector@.contains_key(fd)
                    ==> final(self).selector@[fd] == old(self).selector@[fd],
            final(self).err_fd == old(self).err_fd,
            final(self).order == old(self).order,
            final(self).forked_pids() == old(self).forked_pids(),
            final(self).fork_count() == old(self).fork_count(),
            final(self).delivered_frames() == old(self).delivered_frames(),
    {
        if !self.procs.contains_key(&pid) {
            return false;
        }
        self.drain_channel();
        let proc = match self.procs.remove(&pid) {
            Some(p) => p,
            None => {
                proof {
                    assert(false);
                }
                return false;
            },
        };
        let ghost mid_errors = self.result.errors@;
        let (entries, mut msgs) = fd_results(&proc.fds, outs);
        proof {
            lemma_fd_entries_bounded(proc.fds@, outs@);
        }
        self.result.errors.append(&mut msgs);
        let ghost old_procs = self.result.procs@;
        self.result.procs.push(ProcResult { pid, status, usage, fds: entries });
        proof {
            let n = old_procs.len();
            assert forall|p: i32| #[trigger] self.result_pids().contains(p) <==> old(self).result_pids().insert(pid).contains(p) by {
                if p == pid {
                    assert(self.result.procs@[n as int].pid == pid);
                }
                if old(self).result_pids().contains(p) {
                    let i = choose|i: int| 0 <= i < old(self).result.procs@.len() && #[trigger] old(self).result.procs@[i].pid == p;
                    assert(self.result.procs@[i].pid == p);
                }
                if self.result_pids().contains(p) && p != pid {
                    let i = choose|i: int| 0 <= i < self.result.procs@.len() && #[trigger] self.result.procs@[i].pid == p;
                    assert(i < n);
                    assert(old(self).result.procs@[i].pid == p);
                }
            }
            assert(self.live() =~= old(self).live().remove(pid));
            assert(self.result_pids() =~= old(self).result_pids().insert(pid));
            assert(self.forked_pids() =~= self.procs@.dom() + self.result_pids());
            assert(forall|i: int| 0 <= i < mid_errors.len() ==> self.result.errors@[i] == mid_errors[i]);
        }
        true
    }

    /// The exit code of the run: 0 where no error was recorded and no child
    /// wrote to the error channel, else 1.
    pub fn exit_code(&self) -> (r: i32)
        requires
            self.wf(),
        ensures
            r == 0 || r == 1,
            r == 0 <==> (self.result.errors@.len() == 0 && self.delivered_frames() == 0
                && self.channel_pending().len() == 0),
    {
        let (n, p) = match self.selector.get(self.err_fd) {
            Some(ReaderState::Errors { errs, pending }) => (errs.len(), pending.len()),
            Some(ReaderState::Capture { buf }) => (0, 0),
            None => (0, 0),
        };
        if self.result.errors.len() == 0 && n == 0 && p == 0 {
            0
        } else {
            1
        }
    }

    /// What the loop does after `wait4` ended with `o`: an interruption is
    /// retried; "no children" while children are still recorded as live is
    /// fatal, since they could never be reaped.
    pub fn after_wait(&self, o: WaitOutcome) -> (r: WaitStep)
        ensures
            o matches WaitOutcome::Reaped(p, s) ==> r == WaitStep::Reap(p, s),
            o is NothingYet ==> r == WaitStep::Done,
            o is Interrupted ==> r == WaitStep::Again,
            o is NoChildren ==> r == (if self.live().dom().is_empty() {
                WaitStep::Done
            } else {
                WaitStep::Fatal(Error::Fatal)
            }),
            o matches WaitOutcome::Failed(e) ==> r == WaitStep::Fatal(e),
    {
        match o {
            WaitOutcome::Reaped(p, s) => WaitStep::Reap(p, s),
            WaitOutcome::NothingYet => WaitStep::Done,
            WaitOutcome::Interrupted => WaitStep::Again,
            WaitOutcome::NoChildren => {
                if self.any_live() {
                    WaitStep::Fatal(Error::Fatal)
                } else {
                    WaitStep::Done
                }
            },
            WaitOutcome::Failed(e) => WaitStep::Fatal(e),
        }
    }
}

} // verus!
