//! The reactor core: correlation ids, the submissions table, the ready
//! queue, and the submit → harvest → dispatch cycle.
//!
//! The kernel ring itself lives outside this crate. The reactor produces
//! plain submission descriptors ([`Sqe`]) that a driver pushes into the
//! ring, and consumes plain completion events ([`CqEvent`]) the driver
//! read back from it. Each submitted operation gets a fresh, never-reused
//! correlation id and is recorded in the submissions table until its
//! completion is harvested; harvested operations wait in the ready queue
//! and leave it exactly once, in harvest order.

use std::collections::HashMap;
use std::collections::VecDeque;
use vstd::prelude::*;

use crate::completion::Completion;
use crate::completion::Prepared;
use crate::completion::Ready;
use crate::completion::prepare_rejects;
use crate::completion::prepare_resubmits;
use crate::completion::prepare_ok;
use crate::handles::HandleTable;

verus! {

broadcast use vstd::std_specs::hash::group_hash_axioms;

/// Capacity of the submission side of the ring: no more than this many
/// kernel requests may wait unflushed at any time.
pub const RING_SIZE: usize = 1024;

/// Capacity of the scratch buffer a receive operation asks the kernel to
/// fill.
pub const RECV_BUFFER_CAPACITY: usize = 4096;

/// A kernel request descriptor, ready to be pushed onto the submission
/// side of the ring, tagged with the correlation id of its record.
#[derive(Debug)]
pub struct Sqe {
    pub key: u64,
    pub req: SqeReq,
}

/// What the kernel is asked to do.
#[derive(Debug)]
pub enum SqeReq {
    /// Accept one connection on the listening descriptor `fd`.
    Accept { fd: i32 },
    /// Receive at most `cap` bytes from `fd`.
    Recv { fd: i32, cap: usize },
    /// Send the bytes of `data` on `fd`.
    Send { fd: i32, data: Vec<u8> },
}

/// One entry read from the completion side of the ring: the correlation
/// id the request was tagged with, the kernel's result code, and — for a
/// receive — the bytes the kernel wrote into the operation's buffer.
#[derive(Debug)]
pub struct CqEvent {
    pub key: u64,
    pub result: i32,
    pub data: Vec<u8>,
}

/// Failures the reactor surfaces to its caller.
#[derive(Debug, Clone, Copy, PartialEq, Eq)]
pub enum IOError {
    /// The submission side of the ring is full; the operation was not
    /// registered and nothing changed.
    SubmissionQueueFull,
    /// A completion event carried a correlation id with no matching
    /// record in the submissions table: a fatal invariant violation.
    UnknownCompletion { key: u64 },
    /// A completion event's result is inconsistent with its record (for
    /// example, more bytes than the operation asked for): a fatal
    /// invariant violation.
    BadCompletion { key: u64 },
}

/// The kernel request that a record's pending submission must carry.
pub open spec fn sqe_matches<K>(req: SqeReq, c: Completion<K>) -> bool {
    match c {
        Completion::Accept { listener_fd, .. } => req == (SqeReq::Accept { fd: listener_fd }),
        Completion::Close => false,
        Completion::Recv { fd, cap, .. } => req == (SqeReq::Recv { fd, cap }),
        Completion::Send { fd, buf, sent, total, .. } => match req {
            SqeReq::Send { fd: sfd, data } => sfd == fd && data@ == buf@.subrange(
                sent as int,
                total as int,
            ),
            _ => false,
        },
    }
}

/// The reactor core. `C` is an opaque caller-defined context threaded to
/// continuations; `K` is the opaque continuation value each operation
/// carries. The reactor inspects neither.
pub struct IO<C, K> {
    /// Source of correlation ids: every id ever issued is below this.
    pub key_seq: u64,
    /// In-flight operations, keyed by correlation id.
    pub submissions: HashMap<u64, Completion<K>>,
    /// Kernel requests built but not yet handed to the ring driver.
    pub sq: VecDeque<Sqe>,
    /// Harvested operations whose continuation has not run yet, in
    /// harvest order.
    pub ready: VecDeque<Ready<K>>,
    /// Shared-ownership ledger for the descriptors the reactor works on.
    pub handles: HandleTable,
    /// The caller's context value.
    pub context: C,
}

impl<C, K> IO<C, K> {
    /// The reactor's invariant.
    ///
    /// Correlation ids are never reused: every id in the submissions
    /// table, and every id a ready operation completed under, is below
    /// `key_seq`. An operation is owned by exactly one of the submissions
    /// table and the ready queue, never both, and the ready queue never
    /// holds two operations with the same id. Every pending kernel
    /// request is tagged with the id of exactly one record in the
    /// submissions table and asks for exactly what that record describes.
    pub open spec fn wf(self) -> bool {
        &&& forall|k: u64| #[trigger] self.submissions@.contains_key(k) ==> k < self.key_seq
        &&& forall|k: u64| #[trigger]
            self.submissions@.contains_key(k) ==> self.submissions@[k].wf()
        &&& forall|i: int|
            0 <= i < self.ready@.len() ==> (#[trigger] self.ready@[i]).key < self.key_seq
        &&& forall|i: int|
            0 <= i < self.ready@.len() ==> !self.submissions@.contains_key(
                (#[trigger] self.ready@[i]).key,
            )
        &&& forall|i: int, j: int|
            0 <= i < j < self.ready@.len() ==> (#[trigger] self.ready@[i]).key != (
            #[trigger] self.ready@[j]).key
        &&& forall|i: int|
            0 <= i < self.sq@.len() ==> self.submissions@.contains_key(
                (#[trigger] self.sq@[i]).key,
            )
        &&& forall|i: int|
            0 <= i < self.sq@.len() ==> sqe_matches(
                (#[trigger] self.sq@[i]).req,
                self.submissions@[self.sq@[i].key],
            )
        &&& forall|i: int, j: int|
            0 <= i < j < self.sq@.len() ==> (#[trigger] self.sq@[i]).key != (
            #[trigger] self.sq@[j]).key
        &&& self.handles.wf()
    }

    /// A fresh reactor around the caller's context: no operation in
    /// flight, nothing ready, no descriptor adopted, ids starting at zero.
    pub fn new(context: C) -> (r: Self)
        ensures
            r.wf(),
            r.key_seq == 0,
            r.submissions@ == Map::<u64, Completion<K>>::empty(),
            r.sq@ == Seq::<Sqe>::empty(),
            r.ready@ == Seq::<Ready<K>>::empty(),
            forall|fd: i32| r.handles.share_count(fd) == 0,
            r.context == context,
    {
        IO {
            key_seq: 0,
            submissions: HashMap::new(),
            sq: VecDeque::new(),
            ready: VecDeque::new(),
            handles: HandleTable::new(),
            context,
        }
    }

    /// The caller's context value.
    pub fn context(&self) -> (r: &C)
        ensures
            *r == self.context,
    {
        &self.context
    }

    /// Issue a fresh correlation id: strictly increasing, starting at
    /// zero, never returned twice.
    fn get_key(&mut self) -> (key: u64)
        requires
            old(self).key_seq < u64::MAX,
        ensures
            key == old(self).key_seq,
            final(self).key_seq == old(self).key_seq + 1,
            final(self).submissions == old(self).submissions,
            final(self).sq == old(self).sq,
            final(self).ready == old(self).ready,
            final(self).handles == old(self).handles,
            final(self).context == old(self).context,
    {
        let key = self.key_seq;
        self.key_seq = self.key_seq + 1;
        key
    }

    /// Record an in-flight operation under its correlation id.
    fn enqueue(&mut self, key: u64, c: Completion<K>)
        ensures
            final(self).submissions@ == old(self).submissions@.insert(key, c),
            final(self).key_seq == old(self).key_seq,
            final(self).sq == old(self).sq,
            final(self).ready == old(self).ready,
            final(self).handles == old(self).handles,
            final(self).context == old(self).context,
    {
        self.submissions.insert(key, c);
    }

    /// Adopt a descriptor the caller just obtained (a listener it bound,
    /// or the connection an accept continuation received), with a single
    /// ownership share.
    pub fn register_socket(&mut self, fd: i32)
        requires
            old(self).wf(),
            !old(self).handles.is_open(fd),
        ensures
            final(self).wf(),
            final(self).handles.share_count(fd) == 1,
            forall|f: i32|
                f != fd ==> final(self).handles.share_count(f) == old(self).handles.share_count(f),
            final(self).key_seq == old(self).key_seq,
            final(self).submissions == old(self).submissions,
            final(self).sq == old(self).sq,
            final(self).ready == old(self).ready,
            final(self).context == old(self).context,
    {
        self.handles.register(fd);
    }

    /// Record one more owner of an open descriptor (a continuation
    /// keeping a reference beyond its own run).
    pub fn retain_socket(&mut self, fd: i32)
        requires
            old(self).wf(),
            old(self).handles.is_open(fd),
            old(self).handles.share_count(fd) < u64::MAX,
        ensures
            final(self).wf(),
            final(self).handles.share_count(fd) == old(self).handles.share_count(fd) + 1,
            forall|f: i32|
                f != fd ==> final(self).handles.share_count(f) == old(self).handles.share_count(f),
            final(self).key_seq == old(self).key_seq,
            final(self).submissions == old(self).submissions,
            final(self).sq == old(self).sq,
            final(self).ready == old(self).ready,
            final(self).context == old(self).context,
    {
        self.handles.retain(fd);
    }

    /// Drop one ownership share of `fd` immediately, without going
    /// through the ring. Returns true exactly when that was the last
    /// share: only then may the descriptor be closed at the
    /// operating-system level. While another owner (for example a
    /// still-executing continuation) holds a share, the descriptor stays
    /// open and usable for that owner.
    pub fn close(&mut self, fd: i32) -> (released: bool)
        requires
            old(self).wf(),
            old(self).handles.is_open(fd),
        ensures
            final(self).wf(),
            released <==> old(self).handles.share_count(fd) == 1,
            final(self).handles.share_count(fd) == old(self).handles.share_count(fd) - 1,
            old(self).handles.share_count(fd) >= 2 ==> !released && final(self).handles.is_open(
                fd,
            ),
            forall|f: i32|
                f != fd ==> final(self).handles.share_count(f) == old(self).handles.share_count(f),
            final(self).key_seq == old(self).key_seq,
            final(self).submissions == old(self).submissions,
            final(self).sq == old(self).sq,
            final(self).ready == old(self).ready,
            final(self).context == old(self).context,
    {
        self.handles.release(fd)
    }

    /// Register a request to accept one connection on the listening
    /// descriptor `listener_fd`: a kernel accept request tagged with a
    /// fresh correlation id is queued for the ring, and an accept record
    /// holding one ownership share of the listener is stored under that
    /// id. Does not block and does not invoke the continuation. Fails
    /// exactly when the submission side of the ring is full, changing
    /// nothing.
    pub fn accept(&mut self, listener_fd: i32, cb: K) -> (r: Result<u64, IOError>)
        requires
            old(self).wf(),
            old(self).handles.is_open(listener_fd),
            old(self).handles.share_count(listener_fd) < u64::MAX,
            old(self).key_seq < u64::MAX,
        ensures
            final(self).wf(),
            final(self).ready == old(self).ready,
            final(self).context == old(self).context,
            match r {
                Ok(key) => {
                    &&& old(self).sq@.len() < RING_SIZE
                    &&& key == old(self).key_seq
                    &&& final(self).key_seq == old(self).key_seq + 1
                    &&& !old(self).submissions@.contains_key(key)
                    &&& final(self).submissions@ == old(self).submissions@.insert(
                        key,
                        (Completion::Accept { listener_fd, cb }),
                    )
                    &&& final(self).sq@ == old(self).sq@.push(
                        (Sqe { key, req: (SqeReq::Accept { fd: listener_fd }) }),
                    )
                    &&& final(self).handles.share_count(listener_fd) == old(
                        self,
                    ).handles.share_count(listener_fd) + 1
                    &&& forall|f: i32|
                        f != listener_fd ==> final(self).handles.share_count(f) == old(
                            self,
                        ).handles.share_count(f)
                },
                Err(e) => {
                    &&& e == IOError::SubmissionQueueFull
                    &&& old(self).sq@.len() >= RING_SIZE
                    &&& *final(self) == *old(self)
                },
            },
    {
        if self.sq.len() >= RING_SIZE {
            return Err(IOError::SubmissionQueueFull);
        }
        let key = self.get_key();
        self.handles.retain(listener_fd);
        self.sq.push_back(Sqe { key, req: SqeReq::Accept { fd: listener_fd } });
        self.enqueue(key, Completion::Accept { listener_fd, cb });
        Ok(key)
    }

    /// Register a request to receive at most [`RECV_BUFFER_CAPACITY`]
    /// bytes from `fd`: a kernel receive request tagged with a fresh
    /// correlation id is queued for the ring, and a receive record
    /// holding one ownership share of `fd` is stored under that id.
    /// Fails exactly when the submission side of the ring is full,
    /// changing nothing.
    pub fn recv(&mut self, fd: i32, cb: K) -> (r: Result<u64, IOError>)
        requires
            old(self).wf(),
            old(self).handles.is_open(fd),
            old(self).handles.share_count(fd) < u64::MAX,
            old(self).key_seq < u64::MAX,
        ensures
            final(self).wf(),
            final(self).ready == old(self).ready,
            final(self).context == old(self).context,
            match r {
                Ok(key) => {
                    &&& old(self).sq@.len() < RING_SIZE
                    &&& key == old(self).key_seq
                    &&& final(self).key_seq == old(self).key_seq + 1
                    &&& !old(self).submissions@.contains_key(key)
                    &&& final(self).submissions@ == old(self).submissions@.insert(
                        key,
                        (Completion::Recv { fd, cap: RECV_BUFFER_CAPACITY, cb }),
                    )
                    &&& final(self).sq@ == old(self).sq@.push(
                        (Sqe { key, req: (SqeReq::Recv { fd, cap: RECV_BUFFER_CAPACITY }) }),
                    )
                    &&& final(self).handles.share_count(fd) == old(self).handles.share_count(fd)
                        + 1
                    &&& forall|f: i32|
                        f != fd ==> final(self).handles.share_count(f) == old(
                            self,
                        ).handles.share_count(f)
                },
                Err(e) => {
                    &&& e == IOError::SubmissionQueueFull
                    &&& old(self).sq@.len() >= RING_SIZE
                    &&& *final(self) == *old(self)
                },
            },
    {
        if self.sq.len() >= RING_SIZE {
            return Err(IOError::SubmissionQueueFull);
        }
        let key = self.get_key();
        self.handles.retain(fd);
        self.sq.push_back(Sqe { key, req: SqeReq::Recv { fd, cap: RECV_BUFFER_CAPACITY } });
        self.enqueue(key, Completion::Recv { fd, cap: RECV_BUFFER_CAPACITY, cb });
        Ok(key)
    }

    /// Register a request to send the first `count` bytes of `buf` on
    /// `fd`: a kernel send request for those bytes, tagged with a fresh
    /// correlation id, is queued for the ring, and a send record holding
    /// the bytes, the requested count and one ownership share of `fd` is
    /// stored under that id. If the kernel later reports a partial write,
    /// the remainder is re-submitted when that completion is harvested.
    /// Fails exactly when the submission side of the ring is full,
    /// changing nothing.
    #[verifier::loop_isolation(false)]
    pub fn send(&mut self, fd: i32, buf: &Vec<u8>, count: usize, cb: K) -> (r: Result<
        u64,
        IOError,
    >)
        requires
            old(self).wf(),
            old(self).handles.is_open(fd),
            old(self).handles.share_count(fd) < u64::MAX,
            old(self).key_seq < u64::MAX,
            count <= buf@.len(),
        ensures
            final(self).wf(),
            final(self).ready == old(self).ready,
            final(self).context == old(self).context,
            match r {
                Ok(key) => {
                    &&& old(self).sq@.len() < RING_SIZE
                    &&& key == old(self).key_seq
                    &&& final(self).key_seq == old(self).key_seq + 1
                    &&& !old(self).submissions@.contains_key(key)
                    &&& final(self).submissions@.contains_key(key)
                    &&& final(self).submissions@.remove(key) == old(self).submissions@
                    &&& match final(self).submissions@[key] {
                        Completion::Send { fd: rfd, buf: rbuf, sent, total, cb: rcb } => {
                            &&& rfd == fd
                            &&& rbuf@ == buf@.subrange(0, count as int)
                            &&& sent == 0
                            &&& total == count
                            &&& rcb == cb
                        },
                        _ => false,
                    }
                    &&& final(self).sq@.len() == old(self).sq@.len() + 1
                    &&& final(self).sq@.subrange(0, old(self).sq@.len() as int) == old(self).sq@
                    &&& final(self).sq@[old(self).sq@.len() as int].key == key
                    &&& match final(self).sq@[old(self).sq@.len() as int].req {
                        SqeReq::Send { fd: sfd, data } => sfd == fd && data@ == buf@.subrange(
                            0,
                            count as int,
                        ),
                        _ => false,
                    }
                    &&& final(self).handles.share_count(fd) == old(self).handles.share_count(fd)
                        + 1
                    &&& forall|f: i32|
                        f != fd ==> final(self).handles.share_count(f) == old(
                            self,
                        ).handles.share_count(f)
                },
                Err(e) => {
                    &&& e == IOError::SubmissionQueueFull
                    &&& old(self).sq@.len() >= RING_SIZE
                    &&& *final(self) == *old(self)
                },
            },
    {
        if self.sq.len() >= RING_SIZE {
            return Err(IOError::SubmissionQueueFull);
        }
        let key = self.get_key();
        self.handles.retain(fd);
        let data = copy_range(buf, 0, count);
        let owned = copy_range(buf, 0, count);
        proof {
            assert(data@ =~= owned@.subrange(0, count as int));
        }
        self.sq.push_back(Sqe { key, req: SqeReq::Send { fd, data } });
        self.enqueue(key, Completion::Send { fd, buf: owned, sent: 0, total: count, cb });
        Ok(key)
    }

    /// Hand over every kernel request queued since the last flush, in the
    /// order they were built, leaving the submission queue empty. The
    /// driver pushes them into the ring and submits them to the kernel.
    #[verifier::loop_isolation(false)]
    pub fn take_sqes(&mut self) -> (out: Vec<Sqe>)
        requires
            old(self).wf(),
        ensures
            final(self).wf(),
            out@ == old(self).sq@,
            final(self).sq@ == Seq::<Sqe>::empty(),
            final(self).key_seq == old(self).key_seq,
            final(self).submissions == old(self).submissions,
            final(self).ready == old(self).ready,
            final(self).handles == old(self).handles,
            final(self).context == old(self).context,
    {
        let mut out: Vec<Sqe> = Vec::new();
        while self.sq.len() > 0
            invariant
                old(self).sq@ == out@ + self.sq@,
                self.key_seq == old(self).key_seq,
                self.submissions == old(self).submissions,
                self.ready == old(self).ready,
                self.handles == old(self).handles,
                self.context == old(self).context,
            decreases self.sq@.len(),
        {
            let sqe = match self.sq.pop_front() {
                Some(s) => s,
                None => unreached(),
            };
            out.push(sqe);
        }
        proof {
            assert(out@ =~= old(self).sq@);
            assert(self.sq@ =~= Seq::<Sqe>::empty());
        }
        out
    }

    /// One harvest → dispatch cycle over a batch of completion events the
    /// driver read from the ring (the driver flushes the pending kernel
    /// requests with [`IO::take_sqes`] first, so harvesting starts from a
    /// flushed ring).
    ///
    /// Every event's record leaves the submissions table. A partial send
    /// goes back in under a fresh id, with a kernel request for the
    /// remaining bytes queued; every other record has its result folded
    /// in and joins the ready queue. Only after the whole batch is
    /// harvested is the ready queue drained, and the returned list is the
    /// dispatch order: everything already ready first, then the completed
    /// operations in harvest order, each exactly once. The caller invokes
    /// each returned operation's continuation once, in list order.
    ///
    /// Fails exactly when the batch is not one the kernel could have
    /// produced: an event names an untracked id, an id completes twice,
    /// or a result is inconsistent with its record — fatal invariant
    /// violations for the caller to surface.
    #[verifier::loop_isolation(false)]
    pub fn run_once(&mut self, events: Vec<CqEvent>) -> (r: Result<Vec<Ready<K>>, IOError>)
        requires
            old(self).wf(),
            old(self).sq@.len() == 0,
            old(self).key_seq as int + events@.len() as int <= u64::MAX as int,
        ensures
            final(self).wf(),
            final(self).context == old(self).context,
            final(self).handles == old(self).handles,
            final(self).key_seq >= old(self).key_seq,
            match r {
                Ok(out) => {
                    &&& valid_batch(old(self).submissions@, events@)
                    &&& final(self).ready@ == Seq::<Ready<K>>::empty()
                    &&& out@.len() >= old(self).ready@.len()
                    &&& out@.subrange(0, old(self).ready@.len() as int) == old(self).ready@
                    &&& forall|m1: int, m2: int|
                        0 <= m1 < m2 < out@.len() ==> (#[trigger] out@[m1]).key != (
                        #[trigger] out@[m2]).key
                    &&& forall|m: int|
                        0 <= m < out@.len() ==> !final(self).submissions@.contains_key(
                            (#[trigger] out@[m]).key,
                        )
                    &&& forall|i: int|
                        0 <= i < events@.len() ==> !final(self).submissions@.contains_key(
                            (#[trigger] events@[i]).key,
                        )
                    &&& batch_dispatch_link(old(self).submissions@, old(self).ready@, events@, out@)
                },
                Err(e) => {
                    &&& !valid_batch(old(self).submissions@, events@)
                    &&& (e is UnknownCompletion || e is BadCompletion)
                },
            },
    {
        let mut events = events;
        let start_seq: u64 = self.key_seq;
        let ghost evs0: Seq<CqEvent> = events@;
        let ghost s0: Map<u64, Completion<K>> = self.submissions@;
        let ghost r0: Seq<Ready<K>> = self.ready@;
        let ghost mut js: Seq<int> = Seq::empty();
        let ghost mut i: int = 0;

        proof {
            assert(self.ready@.subrange(0, r0.len() as int) =~= r0);
        }
        while events.len() > 0
            invariant
                self.wf(),
                forall|m: int| 0 <= m < self.sq@.len() ==> (#[trigger] self.sq@[m]).key >= start_seq,
                self.context == old(self).context,
                self.handles == old(self).handles,
                start_seq <= self.key_seq,
                self.key_seq as int <= start_seq as int + i,
                0 <= i <= evs0.len(),
                events@ == evs0.subrange(i, evs0.len() as int),
                forall|j: int| 0 <= j < i ==> s0.contains_key((#[trigger] evs0[j]).key),
                forall|j: int| 0 <= j < i ==> (#[trigger] evs0[j]).key < start_seq,
                forall|j: int|
                    0 <= j < i ==> !prepare_rejects(
                        s0[(#[trigger] evs0[j]).key],
                        evs0[j].result,
                        evs0[j].data@.len() as int,
                    ),
                forall|j1: int, j2: int|
                    0 <= j1 < j2 < i ==> (#[trigger] evs0[j1]).key != (#[trigger] evs0[j2]).key,
                forall|k: u64|
                    k < start_seq ==> (#[trigger] self.submissions@.contains_key(k) <==> (
                    s0.contains_key(k) && forall|j: int|
                        0 <= j < i ==> (#[trigger] evs0[j]).key != k)),
                forall|k: u64|
                    k < start_seq && #[trigger] self.submissions@.contains_key(k)
                        ==> self.submissions@[k] == s0[k],
                batch_dispatch_upto(s0, r0, evs0, self.ready@, js, i),
            decreases events@.len(),
        {
            let e = events.remove(0);
            let key_i: u64 = e.key;
            let res_i: i32 = e.result;
            proof {
                assert(e == evs0[i]);
                assert(events@ =~= evs0.subrange(i + 1, evs0.len() as int));
            }
            if key_i >= start_seq {
                proof {
                    assert(!s0.contains_key(key_i));
                    assert(!valid_batch(s0, evs0));
                }
                return Err(IOError::UnknownCompletion { key: key_i });
            }
            let rec = match self.submissions.remove(&key_i) {
                Some(c) => c,
                None => {
                    proof {
                        if s0.contains_key(key_i) {
                            let j = choose|j: int| 0 <= j < i && (#[trigger] evs0[j]).key == key_i;
                            assert(evs0[j].key == evs0[i].key);
                            assert(!valid_batch(s0, evs0));
                        } else {
                            assert(!valid_batch(s0, evs0));
                        }
                    }
                    return Err(IOError::UnknownCompletion { key: key_i });
                },
            };
            proof {
                assert(rec == s0[key_i]);
            }
            match rec.prepare(res_i, e.data) {
                Prepared::Dispatch { op } => {
                    self.ready.push_back(Ready { key: key_i, op });
                    proof {
                        let js_old = js;
                        js = js_old.push(i);
                        let mlast = js.len() - 1;
                        assert(self.ready@.subrange(0, r0.len() as int) =~= r0);
                        assert(js[mlast] == i);
                        assert(self.ready@[r0.len() as int + mlast] == (Ready { key: key_i, op }));
                        assert forall|j: int|
                            0 <= j < i + 1 && !prepare_resubmits(
                                s0[(#[trigger] evs0[j]).key],
                                evs0[j].result,
                            ) implies exists|m: int| 0 <= m < js.len() && js[m] == j by {
                            if j < i {
                                let m0 = choose|m0: int|
                                    0 <= m0 < js_old.len() && js_old[m0] == j;
                                assert(js[m0] == j);
                            } else {
                                assert(js[mlast] == j);
                            }
                        }
                    }
                },
                Prepared::Resubmit { rest } => {
                    let key2 = self.get_key();
                    let fd2: i32 = match &rest {
                        Completion::Send { fd, .. } => *fd,
                        _ => unreached(),
                    };
                    let data2 = match &rest {
                        Completion::Send { buf, sent, total, .. } => copy_range(
                            buf,
                            *sent,
                            *total,
                        ),
                        _ => unreached(),
                    };
                    self.sq.push_back(Sqe { key: key2, req: SqeReq::Send { fd: fd2, data: data2 } });
                    self.enqueue(key2, rest);
                    proof {
                        assert(prepare_resubmits(s0[evs0[i].key], evs0[i].result));
                    }
                },
                Prepared::Rejected => {
                    proof {
                        assert(prepare_rejects(s0[key_i], res_i, evs0[i].data@.len() as int));
                        assert(!valid_batch(s0, evs0));
                    }
                    return Err(IOError::BadCompletion { key: key_i });
                },
            }
            proof {
                i = i + 1;
            }
        }
        proof {
            assert(i == evs0.len());
            assert(valid_batch(s0, evs0));
        }
        let ghost hstate: IO<C, K> = *self;
        let ghost rend: Seq<Ready<K>> = self.ready@;
        let mut out: Vec<Ready<K>> = Vec::new();
        while self.ready.len() > 0
            invariant
                rend == out@ + self.ready@,
                self.submissions == hstate.submissions,
                self.key_seq == hstate.key_seq,
                self.sq == hstate.sq,
                self.handles == hstate.handles,
                self.context == hstate.context,
            decreases self.ready@.len(),
        {
            let rdy = match self.ready.pop_front() {
                Some(x) => x,
                None => unreached(),
            };
            out.push(rdy);
        }
        proof {
            assert(out@ =~= rend);
            assert(self.ready@ =~= Seq::<Ready<K>>::empty());
            assert forall|ii: int|
                0 <= ii < evs0.len() implies !self.submissions@.contains_key(
                (#[trigger] evs0[ii]).key,
            ) by {
                let k = evs0[ii].key;
                assert(k < start_seq);
                if self.submissions@.contains_key(k) {
                    assert(evs0[ii].key != k);
                }
            }
            assert(batch_dispatch_upto(s0, r0, evs0, out@, js, evs0.len() as int));
        }
        Ok(out)
    }
}

/// A batch of completion events that the kernel could actually have
/// produced against the given submissions table: every event names a
/// tracked correlation id, no id completes twice, and every reported
/// result is consistent with its record.
pub open spec fn valid_batch<K>(subs: Map<u64, Completion<K>>, evs: Seq<CqEvent>) -> bool {
    &&& forall|i: int, j: int|
        0 <= i < j < evs.len() ==> (#[trigger] evs[i]).key != (#[trigger] evs[j]).key
    &&& forall|i: int| 0 <= i < evs.len() ==> subs.contains_key((#[trigger] evs[i]).key)
    &&& forall|i: int|
        0 <= i < evs.len() ==> !prepare_rejects(
            subs[(#[trigger] evs[i]).key],
            evs[i].result,
            evs[i].data@.len() as int,
        )
}

/// The dispatch queue `cur` extends `ready0` with the prepared results of
/// exactly the completing (non-re-submitted) events among the first
/// `upto` of `evs`, in event order; `js` lists those events' indices in
/// increasing order. Harvest order is dispatch order, and each completed
/// operation appears exactly once, with the kernel result folded in as
/// [`prepare_ok`] demands.
pub open spec fn batch_dispatch_upto<K>(
    subs: Map<u64, Completion<K>>,
    ready0: Seq<Ready<K>>,
    evs: Seq<CqEvent>,
    cur: Seq<Ready<K>>,
    js: Seq<int>,
    upto: int,
) -> bool {
    &&& cur.len() == ready0.len() + js.len()
    &&& cur.subrange(0, ready0.len() as int) == ready0
    &&& forall|m1: int, m2: int|
        0 <= m1 < m2 < js.len() ==> #[trigger] js[m1] < #[trigger] js[m2]
    &&& forall|m: int| 0 <= m < js.len() ==> 0 <= #[trigger] js[m] < upto
    &&& forall|m: int|
        0 <= m < js.len() ==> !prepare_resubmits(
            subs[evs[#[trigger] js[m]].key],
            evs[js[m]].result,
        )
    &&& forall|j: int|
        0 <= j < upto && !prepare_resubmits(subs[(#[trigger] evs[j]).key], evs[j].result)
            ==> exists|m: int| 0 <= m < js.len() && js[m] == j
    &&& forall|m: int|
        0 <= m < js.len() ==> (#[trigger] cur[ready0.len() + m]).key == evs[js[m]].key
    &&& forall|m: int|
        0 <= m < js.len() ==> prepare_ok(
            subs[evs[#[trigger] js[m]].key],
            evs[js[m]].result,
            evs[js[m]].data@,
            (Prepared::Dispatch { op: cur[ready0.len() + m].op }),
        )
}

/// The dispatch list `out` a successful harvest of `evs` hands back:
/// first everything that was already ready, then, in harvest order, each
/// event's operation with its result folded in — each exactly once.
pub open spec fn batch_dispatch_link<K>(
    subs: Map<u64, Completion<K>>,
    ready0: Seq<Ready<K>>,
    evs: Seq<CqEvent>,
    out: Seq<Ready<K>>,
) -> bool {
    exists|js: Seq<int>| batch_dispatch_upto(subs, ready0, evs, out, js, evs.len() as int)
}

/// Correlation ids are issued strictly increasing, so the ids of any
/// sequence of submitted operations are pairwise distinct: no id is ever
/// reused.
pub proof fn lemma_strictly_increasing_keys_distinct(keys: Seq<u64>)
    requires
        forall|i: int, j: int| 0 <= i < j < keys.len() ==> #[trigger] keys[i] < #[trigger] keys[j],
    ensures
        forall|i: int, j: int| 0 <= i < j < keys.len() ==> #[trigger] keys[i] != #[trigger] keys[j],
{
}

/// Copy `src[from..to]` into a fresh buffer.
#[verifier::loop_isolation(false)]
fn copy_range(src: &Vec<u8>, from: usize, to: usize) -> (out: Vec<u8>)
    requires
        from <= to <= src@.len(),
    ensures
        out@ == src@.subrange(from as int, to as int),
{
    let mut out: Vec<u8> = Vec::new();
    let mut i: usize = from;
    while i < to
        invariant
            from <= i <= to,
            out@ == src@.subrange(from as int, i as int),
        decreases to - i,
    {
        let b = src[i];
        out.push(b);
        proof {
            assert(out@ =~= src@.subrange(from as int, i as int + 1));
        }
        i = i + 1;
    }
    out
}

} // verus!
