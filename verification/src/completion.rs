//! Operation records and their completion semantics.
//!
//! A [`Completion`] is everything the reactor keeps about one in-flight
//! kernel operation: the descriptors it works on, any buffer, and the
//! caller-supplied continuation value `K`. The reactor never inspects `K`;
//! it only carries it from submission to dispatch.
//!
//! When the kernel reports a result for a record, [`Completion::prepare`]
//! folds that result into the record. The outcome is either a [`ReadyOp`]
//! for dispatch, an updated record that must be re-submitted (a partial
//! send), or a rejection when the reported result is inconsistent with the
//! record — which callers treat as a fatal invariant violation.

use vstd::prelude::*;

verus! {

/// Outcome of an accept operation, as its continuation sees it.
#[derive(Debug)]
pub enum AcceptResult {
    /// The kernel produced a new connection with descriptor `fd`.
    Conn { fd: i32 },
    /// The kernel reported a failure; `code` is the raw negative result.
    Failed { code: i32 },
}

/// Outcome of a receive operation, as its continuation sees it.
#[derive(Debug)]
pub enum RecvResult {
    /// `bytes` holds exactly the bytes the kernel wrote into the buffer.
    Data { bytes: Vec<u8> },
    /// The kernel reported zero bytes: the peer performed an orderly
    /// shutdown. This is distinct from "no data yet" — an operation with
    /// no data simply has not completed, and never reaches a continuation.
    Closed,
    /// The kernel reported a failure; `code` is the raw negative result.
    Failed { code: i32 },
}

/// Outcome of a send operation, as its continuation sees it.
#[derive(Debug)]
pub enum SendResult {
    /// All `count` originally requested bytes have been written, across
    /// one or more kernel submissions.
    SentAll { count: usize },
    /// The kernel reported a failure; `code` is the raw negative result.
    Failed { code: i32 },
}

/// A harvested operation: the kernel result folded into its record,
/// together with the correlation id it completed under.
#[derive(Debug)]
pub struct Ready<K> {
    pub key: u64,
    pub op: ReadyOp<K>,
}

/// The dispatchable payload of a harvested operation.
#[derive(Debug)]
pub enum ReadyOp<K> {
    Accept { listener_fd: i32, result: AcceptResult, cb: K },
    Recv { fd: i32, result: RecvResult, cb: K },
    Send { fd: i32, result: SendResult, cb: K },
}

/// An in-flight operation record: everything needed to resume one
/// operation once the kernel finishes it.
#[derive(Debug)]
pub enum Completion<K> {
    /// Accept one connection on the listening socket `listener_fd`.
    Accept { listener_fd: i32, cb: K },
    /// Reserved for an explicit kernel-level close request. No such
    /// request is ever submitted yet, so harvesting this record is an
    /// invariant violation.
    Close,
    /// Receive at most `cap` bytes from `fd`.
    Recv { fd: i32, cap: usize, cb: K },
    /// Send `buf[sent..total]` on `fd`; `sent` bytes of the `total`
    /// requested have already been acknowledged by earlier completions.
    Send { fd: i32, buf: Vec<u8>, sent: usize, total: usize, cb: K },
}

/// What harvesting one kernel completion does with its record.
#[derive(Debug)]
pub enum Prepared<K> {
    /// The operation is finished: hand `op` to its continuation.
    Dispatch { op: ReadyOp<K> },
    /// A partial send: `rest` must go back into the submissions table
    /// under a fresh correlation id, with a kernel request for the
    /// remaining bytes.
    Resubmit { rest: Completion<K> },
    /// The kernel result is inconsistent with the record: a fatal
    /// invariant violation for the caller to surface.
    Rejected,
}

impl<K> Completion<K> {
    /// Internal consistency of a record: a send never claims more
    /// acknowledged or requested bytes than its buffer holds.
    pub open spec fn wf(self) -> bool {
        match self {
            Completion::Send { buf, sent, total, .. } => sent <= total <= buf@.len(),
            _ => true,
        }
    }
}

/// True exactly when folding `result` into `c` must be refused: the kernel
/// (or the driver feeding events in) reported something the record cannot
/// have asked for.
pub open spec fn prepare_rejects<K>(c: Completion<K>, result: i32, data_len: int) -> bool {
    match c {
        Completion::Accept { .. } => false,
        Completion::Close => true,
        Completion::Recv { cap, .. } => result > 0 && (result as int > cap as int || result as int
            > data_len),
        Completion::Send { sent, total, .. } => result >= 0 && sent as int + result as int
            > total as int,
    }
}

/// True exactly when folding `result` into `c` yields a record to
/// re-submit: a send the kernel finished only partially.
pub open spec fn prepare_resubmits<K>(c: Completion<K>, result: i32) -> bool {
    match c {
        Completion::Send { sent, total, .. } => 0 <= result && (sent as int + result as int)
            < total as int,
        _ => false,
    }
}

/// The full relation between a record `c`, a kernel result, the bytes the
/// kernel produced, and what `prepare` returns for them.
pub open spec fn prepare_ok<K>(c: Completion<K>, result: i32, data: Seq<u8>, r: Prepared<K>) -> bool {
    match c {
        Completion::Accept { listener_fd, cb } => {
            if result >= 0 {
                r == (Prepared::Dispatch {
                    op: ReadyOp::Accept {
                        listener_fd,
                        result: (AcceptResult::Conn { fd: result }),
                        cb,
                    },
                })
            } else {
                r == (Prepared::Dispatch {
                    op: ReadyOp::Accept {
                        listener_fd,
                        result: (AcceptResult::Failed { code: result }),
                        cb,
                    },
                })
            }
        },
        Completion::Close => r == Prepared::<K>::Rejected,
        Completion::Recv { fd, cap, cb } => {
            if result < 0 {
                r == (Prepared::Dispatch {
                    op: ReadyOp::Recv { fd, result: (RecvResult::Failed { code: result }), cb },
                })
            } else if result == 0 {
                r == (Prepared::Dispatch {
                    op: ReadyOp::Recv { fd, result: RecvResult::Closed, cb },
                })
            } else if (result as int) <= cap as int && (result as int) <= data.len() {
                match r {
                    Prepared::Dispatch { op } => match op {
                        ReadyOp::Recv { fd: rfd, result: rres, cb: rcb } => {
                            &&& rfd == fd
                            &&& rcb == cb
                            &&& match rres {
                                RecvResult::Data { bytes } => bytes@ == data.subrange(
                                    0,
                                    result as int,
                                ),
                                _ => false,
                            }
                        },
                        _ => false,
                    },
                    _ => false,
                }
            } else {
                r == Prepared::<K>::Rejected
            }
        },
        Completion::Send { fd, buf, sent, total, cb } => {
            if result < 0 {
                r == (Prepared::Dispatch {
                    op: ReadyOp::Send { fd, result: (SendResult::Failed { code: result }), cb },
                })
            } else if sent as int + result as int == total as int {
                r == (Prepared::Dispatch {
                    op: ReadyOp::Send { fd, result: (SendResult::SentAll { count: total }), cb },
                })
            } else if (sent as int + result as int) < total as int {
                r == (Prepared::Resubmit {
                    rest: (Completion::Send {
                        fd,
                        buf,
                        sent: (sent + result) as usize,
                        total,
                        cb,
                    }),
                })
            } else {
                r == Prepared::<K>::Rejected
            }
        },
    }
}

impl<K> Completion<K> {
    /// Fold the kernel-reported `result` (and, for a receive, the bytes
    /// the kernel wrote) into this record, deciding whether the operation
    /// dispatches, is re-submitted, or is rejected as inconsistent.
    pub fn prepare(self, result: i32, data: Vec<u8>) -> (r: Prepared<K>)
        requires
            self.wf(),
        ensures
            prepare_ok(self, result, data@, r),
            r is Rejected <==> prepare_rejects(self, result, data@.len() as int),
            r is Resubmit <==> prepare_resubmits(self, result),
            r matches Prepared::Resubmit { rest } ==> rest.wf(),
    {
        match self {
            Completion::Accept { listener_fd, cb } => {
                if result >= 0 {
                    Prepared::Dispatch {
                        op: ReadyOp::Accept {
                            listener_fd,
                            result: AcceptResult::Conn { fd: result },
                            cb,
                        },
                    }
                } else {
                    Prepared::Dispatch {
                        op: ReadyOp::Accept {
                            listener_fd,
                            result: AcceptResult::Failed { code: result },
                            cb,
                        },
                    }
                }
            },
            Completion::Close => Prepared::Rejected,
            Completion::Recv { fd, cap, cb } => {
                if result < 0 {
                    Prepared::Dispatch {
                        op: ReadyOp::Recv { fd, result: RecvResult::Failed { code: result }, cb },
                    }
                } else if result == 0 {
                    Prepared::Dispatch { op: ReadyOp::Recv { fd, result: RecvResult::Closed, cb } }
                } else {
                    let n = result as usize;
                    if n <= cap && n <= data.len() {
                        let mut bytes = data;
                        bytes.truncate(n);
                        Prepared::Dispatch {
                            op: ReadyOp::Recv { fd, result: RecvResult::Data { bytes }, cb },
                        }
                    } else {
                        Prepared::Rejected
                    }
                }
            },
            Completion::Send { fd, buf, sent, total, cb } => {
                if result < 0 {
                    Prepared::Dispatch {
                        op: ReadyOp::Send { fd, result: SendResult::Failed { code: result }, cb },
                    }
                } else {
                    let step = result as usize;
                    if step <= total - sent {
                        let new_sent = sent + step;
                        if new_sent == total {
                            Prepared::Dispatch {
                                op: ReadyOp::Send {
                                    fd,
                                    result: SendResult::SentAll { count: total },
                                    cb,
                                },
                            }
                        } else {
                            Prepared::Resubmit {
                                rest: Completion::Send { fd, buf, sent: new_sent, total, cb },
                            }
                        }
                    } else {
                        Prepared::Rejected
                    }
                }
            },
        }
    }
}

} // verus!
