use uring_reactor::completion::AcceptResult;
use uring_reactor::completion::Ready;
use uring_reactor::completion::ReadyOp;
use uring_reactor::completion::RecvResult;
use uring_reactor::completion::SendResult;
use uring_reactor::reactor::CqEvent;
use uring_reactor::reactor::IOError;
use uring_reactor::reactor::Sqe;
use uring_reactor::reactor::SqeReq;
use uring_reactor::reactor::IO;
use uring_reactor::reactor::RECV_BUFFER_CAPACITY;
use uring_reactor::reactor::RING_SIZE;

fn event(key: u64, result: i32) -> CqEvent {
    CqEvent { key, result, data: Vec::new() }
}

fn event_with(key: u64, result: i32, data: Vec<u8>) -> CqEvent {
    CqEvent { key, result, data }
}

#[test]
fn correlation_ids_strictly_increase() {
    let mut io: IO<(), u64> = IO::new(());
    io.register_socket(3);
    let k0 = io.accept(3, 1).unwrap();
    let k1 = io.recv(3, 2).unwrap();
    let k2 = io.send(3, &vec![1, 2, 3], 3, 4).unwrap();
    let k3 = io.accept(3, 5).unwrap();
    assert_eq!(k0, 0);
    assert_eq!(k1, 1);
    assert_eq!(k2, 2);
    assert_eq!(k3, 3);
    let keys = [k0, k1, k2, k3];
    for a in 0..keys.len() {
        for b in (a + 1)..keys.len() {
            assert_ne!(keys[a], keys[b]);
        }
    }
}

#[test]
fn accept_completion_folds_connection_fd() {
    let mut io: IO<(), u64> = IO::new(());
    io.register_socket(3);
    let key = io.accept(3, 10).unwrap();
    let sqes = io.take_sqes();
    assert_eq!(sqes.len(), 1);
    match &sqes[0] {
        Sqe { key: k, req: SqeReq::Accept { fd } } => {
            assert_eq!(*k, key);
            assert_eq!(*fd, 3);
        }
        _ => panic!("expected an accept request"),
    }
    let out = io.run_once(vec![event(key, 7)]).unwrap();
    assert_eq!(out.len(), 1);
    match out.into_iter().next().unwrap() {
        Ready { key: k, op: ReadyOp::Accept { listener_fd, result, cb } } => {
            assert_eq!(k, key);
            assert_eq!(listener_fd, 3);
            assert_eq!(cb, 10);
            match result {
                AcceptResult::Conn { fd } => assert_eq!(fd, 7),
                _ => panic!("expected a new connection"),
            }
        }
        _ => panic!("expected an accept completion"),
    }
}

#[test]
fn accept_failure_reaches_continuation() {
    let mut io: IO<(), u64> = IO::new(());
    io.register_socket(3);
    let key = io.accept(3, 10).unwrap();
    io.take_sqes();
    let out = io.run_once(vec![event(key, -24)]).unwrap();
    assert_eq!(out.len(), 1);
    match &out[0].op {
        ReadyOp::Accept { result: AcceptResult::Failed { code }, .. } => assert_eq!(*code, -24),
        _ => panic!("expected a failed accept"),
    }
}

#[test]
fn dispatch_follows_harvest_order() {
    let mut io: IO<(), u64> = IO::new(());
    io.register_socket(4);
    let ka = io.recv(4, 100).unwrap();
    let kb = io.recv(4, 200).unwrap();
    io.take_sqes();
    // The kernel may complete out of submission order: harvest B first.
    let out = io
        .run_once(vec![
            event_with(kb, 1, vec![9]),
            event_with(ka, 1, vec![8]),
        ])
        .unwrap();
    assert_eq!(out.len(), 2);
    assert_eq!(out[0].key, kb);
    assert_eq!(out[1].key, ka);
}

#[test]
fn earlier_harvests_dispatch_before_later_ones() {
    let mut io: IO<(), u64> = IO::new(());
    io.register_socket(4);
    let ka = io.recv(4, 100).unwrap();
    let kb = io.recv(4, 200).unwrap();
    io.take_sqes();
    let first = io.run_once(vec![event_with(ka, 1, vec![1])]).unwrap();
    assert_eq!(first.len(), 1);
    assert_eq!(first[0].key, ka);
    let second = io.run_once(vec![event_with(kb, 1, vec![2])]).unwrap();
    assert_eq!(second.len(), 1);
    assert_eq!(second[0].key, kb);
}

#[test]
fn accept_rearm_yields_distinct_invocations() {
    let mut io: IO<(), u64> = IO::new(());
    io.register_socket(3);
    let mut seen_keys = Vec::new();
    let mut seen_fds = Vec::new();
    let mut conn_fd = 50;
    for round in 0..4u64 {
        let key = io.accept(3, round).unwrap();
        io.take_sqes();
        let out = io.run_once(vec![event(key, conn_fd)]).unwrap();
        assert_eq!(out.len(), 1);
        match &out[0].op {
            ReadyOp::Accept { listener_fd, result: AcceptResult::Conn { fd }, cb } => {
                assert_eq!(*listener_fd, 3);
                assert_eq!(*cb, round);
                seen_keys.push(out[0].key);
                seen_fds.push(*fd);
            }
            _ => panic!("expected a new connection"),
        }
        conn_fd += 1;
    }
    for a in 0..seen_keys.len() {
        for b in (a + 1)..seen_keys.len() {
            assert_ne!(seen_keys[a], seen_keys[b]);
            assert_ne!(seen_fds[a], seen_fds[b]);
        }
    }
}

#[test]
fn zero_byte_recv_signals_peer_close() {
    let mut io: IO<(), u64> = IO::new(());
    io.register_socket(6);
    let key = io.recv(6, 1).unwrap();
    io.take_sqes();
    let out = io.run_once(vec![event(key, 0)]).unwrap();
    assert_eq!(out.len(), 1);
    match &out[0].op {
        ReadyOp::Recv { fd, result: RecvResult::Closed, .. } => assert_eq!(*fd, 6),
        _ => panic!("expected an orderly-shutdown result"),
    }
}

#[test]
fn recv_continuation_sees_exactly_the_reported_bytes() {
    let mut io: IO<(), u64> = IO::new(());
    io.register_socket(6);
    let key = io.recv(6, 1).unwrap();
    let sqes = io.take_sqes();
    match &sqes[0].req {
        SqeReq::Recv { fd, cap } => {
            assert_eq!(*fd, 6);
            assert_eq!(*cap, RECV_BUFFER_CAPACITY);
        }
        _ => panic!("expected a receive request"),
    }
    // The kernel wrote 3 bytes; the rest of the buffer is stale scratch.
    let buffer = vec![10, 20, 30, 99, 99, 99];
    let out = io.run_once(vec![event_with(key, 3, buffer)]).unwrap();
    match out.into_iter().next().unwrap().op {
        ReadyOp::Recv { result: RecvResult::Data { bytes }, .. } => {
            assert_eq!(bytes, vec![10, 20, 30]);
        }
        _ => panic!("expected received data"),
    }
}

#[test]
fn recv_error_reaches_continuation() {
    let mut io: IO<(), u64> = IO::new(());
    io.register_socket(6);
    let key = io.recv(6, 1).unwrap();
    io.take_sqes();
    let out = io.run_once(vec![event(key, -104)]).unwrap();
    match &out[0].op {
        ReadyOp::Recv { result: RecvResult::Failed { code }, .. } => assert_eq!(*code, -104),
        _ => panic!("expected a failed receive"),
    }
}

#[test]
fn partial_send_resubmits_the_remainder() {
    let mut io: IO<(), u64> = IO::new(());
    io.register_socket(7);
    let payload = vec![0, 1, 2, 3, 4, 5, 6, 7, 8, 9];
    let key = io.send(7, &payload, 10, 42).unwrap();
    let sqes = io.take_sqes();
    match &sqes[0].req {
        SqeReq::Send { fd, data } => {
            assert_eq!(*fd, 7);
            assert_eq!(*data, payload);
        }
        _ => panic!("expected a send request"),
    }
    // The kernel wrote only 4 bytes: nothing dispatches, the remainder is
    // queued again under a fresh id.
    let out = io.run_once(vec![event(key, 4)]).unwrap();
    assert_eq!(out.len(), 0);
    let resubmitted = io.take_sqes();
    assert_eq!(resubmitted.len(), 1);
    let key2 = resubmitted[0].key;
    assert_ne!(key2, key);
    match &resubmitted[0].req {
        SqeReq::Send { fd, data } => {
            assert_eq!(*fd, 7);
            assert_eq!(*data, vec![4, 5, 6, 7, 8, 9]);
        }
        _ => panic!("expected a re-submitted send"),
    }
    // The rest completes: the continuation sees the full requested count.
    let out = io.run_once(vec![event(key2, 6)]).unwrap();
    assert_eq!(out.len(), 1);
    match &out[0].op {
        ReadyOp::Send { fd, result: SendResult::SentAll { count }, cb } => {
            assert_eq!(*fd, 7);
            assert_eq!(*count, 10);
            assert_eq!(*cb, 42);
        }
        _ => panic!("expected a completed send"),
    }
}

#[test]
fn send_failure_reaches_continuation() {
    let mut io: IO<(), u64> = IO::new(());
    io.register_socket(7);
    let key = io.send(7, &vec![1, 2, 3], 2, 9).unwrap();
    io.take_sqes();
    let out = io.run_once(vec![event(key, -32)]).unwrap();
    match &out[0].op {
        ReadyOp::Send { result: SendResult::Failed { code }, .. } => assert_eq!(*code, -32),
        _ => panic!("expected a failed send"),
    }
}

#[test]
fn close_keeps_descriptor_open_for_other_owners() {
    let mut io: IO<(), u64> = IO::new(());
    io.register_socket(5);
    io.retain_socket(5);
    // Two owners share the descriptor: dropping one share must not
    // release it.
    assert!(!io.close(5));
    // The last owner's close releases it.
    assert!(io.close(5));
}

#[test]
fn submission_share_keeps_listener_open() {
    let mut io: IO<(), u64> = IO::new(());
    io.register_socket(3);
    io.accept(3, 1).unwrap();
    // The in-flight record holds its own share, so the caller closing its
    // handle does not release the descriptor.
    assert!(!io.close(3));
}

#[test]
fn full_submission_queue_is_an_error() {
    let mut io: IO<(), u64> = IO::new(());
    io.register_socket(3);
    for _ in 0..RING_SIZE {
        io.accept(3, 0).unwrap();
    }
    assert_eq!(io.accept(3, 0), Err(IOError::SubmissionQueueFull));
    assert_eq!(io.recv(3, 0), Err(IOError::SubmissionQueueFull));
    assert_eq!(io.send(3, &vec![1], 1, 0), Err(IOError::SubmissionQueueFull));
    // Flushing the queue makes submission possible again.
    let sqes = io.take_sqes();
    assert_eq!(sqes.len(), RING_SIZE);
    io.accept(3, 0).unwrap();
}

#[test]
fn unknown_completion_is_an_error() {
    let mut io: IO<(), u64> = IO::new(());
    let r = io.run_once(vec![event(99, 0)]);
    assert_eq!(r.unwrap_err(), IOError::UnknownCompletion { key: 99 });
}

#[test]
fn duplicate_completion_is_an_error() {
    let mut io: IO<(), u64> = IO::new(());
    io.register_socket(6);
    let key = io.recv(6, 1).unwrap();
    io.take_sqes();
    let r = io.run_once(vec![event_with(key, 1, vec![1]), event_with(key, 1, vec![1])]);
    assert_eq!(r.unwrap_err(), IOError::UnknownCompletion { key });
}

#[test]
fn oversized_recv_result_is_an_error() {
    let mut io: IO<(), u64> = IO::new(());
    io.register_socket(6);
    let key = io.recv(6, 1).unwrap();
    io.take_sqes();
    // The kernel cannot have written more than the buffer capacity.
    let r = io.run_once(vec![event_with(key, 5000, vec![0; 5000])]);
    assert_eq!(r.unwrap_err(), IOError::BadCompletion { key });
}

#[test]
fn oversized_send_result_is_an_error() {
    let mut io: IO<(), u64> = IO::new(());
    io.register_socket(7);
    let key = io.send(7, &vec![1, 2, 3], 3, 0).unwrap();
    io.take_sqes();
    let r = io.run_once(vec![event(key, 4)]);
    assert_eq!(r.unwrap_err(), IOError::BadCompletion { key });
}

#[test]
fn context_is_returned() {
    let io: IO<i32, u64> = IO::new(-5);
    assert_eq!(*io.context(), -5);
}

#[test]
fn take_sqes_returns_requests_in_build_order() {
    let mut io: IO<(), u64> = IO::new(());
    io.register_socket(3);
    let k0 = io.accept(3, 0).unwrap();
    let k1 = io.recv(3, 0).unwrap();
    let sqes = io.take_sqes();
    assert_eq!(sqes.len(), 2);
    assert_eq!(sqes[0].key, k0);
    assert_eq!(sqes[1].key, k1);
    assert!(io.take_sqes().is_empty());
}

#[test]
fn mixed_batch_keeps_harvest_order_and_resubmits() {
    let mut io: IO<(), u64> = IO::new(());
    io.register_socket(3);
    io.register_socket(8);
    let ka = io.accept(3, 1).unwrap();
    let kr = io.recv(8, 2).unwrap();
    let ks = io.send(8, &vec![1, 2, 3, 4], 4, 3).unwrap();
    io.take_sqes();
    let out = io
        .run_once(vec![
            event(ks, 2),
            event_with(kr, 2, vec![5, 6, 7]),
            event(ka, 44),
        ])
        .unwrap();
    // The partial send is re-submitted, not dispatched; the rest
    // dispatches in harvest order.
    assert_eq!(out.len(), 2);
    assert_eq!(out[0].key, kr);
    assert_eq!(out[1].key, ka);
    let re = io.take_sqes();
    assert_eq!(re.len(), 1);
    match &re[0].req {
        SqeReq::Send { fd, data } => {
            assert_eq!(*fd, 8);
            assert_eq!(*data, vec![3, 4]);
        }
        _ => panic!("expected a re-submitted send"),
    }
}
