use uring_reactor::completion::Completion;
use uring_reactor::completion::Prepared;
use uring_reactor::completion::ReadyOp;
use uring_reactor::completion::RecvResult;
use uring_reactor::completion::SendResult;

#[test]
fn prepare_recv_truncates_to_reported_count() {
    let c: Completion<u8> = Completion::Recv { fd: 4, cap: 8, cb: 1 };
    match c.prepare(2, vec![7, 8, 9, 10]) {
        Prepared::Dispatch { op: ReadyOp::Recv { fd, result: RecvResult::Data { bytes }, cb } } => {
            assert_eq!(fd, 4);
            assert_eq!(cb, 1);
            assert_eq!(bytes, vec![7, 8]);
        }
        _ => panic!("expected dispatched data"),
    }
}

#[test]
fn prepare_recv_zero_is_closed() {
    let c: Completion<u8> = Completion::Recv { fd: 4, cap: 8, cb: 1 };
    match c.prepare(0, Vec::new()) {
        Prepared::Dispatch { op: ReadyOp::Recv { result: RecvResult::Closed, .. } } => {}
        _ => panic!("expected an orderly-shutdown result"),
    }
}

#[test]
fn prepare_partial_send_keeps_progress() {
    let c: Completion<u8> = Completion::Send {
        fd: 5,
        buf: vec![1, 2, 3, 4, 5],
        sent: 1,
        total: 5,
        cb: 2,
    };
    match c.prepare(2, Vec::new()) {
        Prepared::Resubmit { rest: Completion::Send { fd, buf, sent, total, cb } } => {
            assert_eq!(fd, 5);
            assert_eq!(buf, vec![1, 2, 3, 4, 5]);
            assert_eq!(sent, 3);
            assert_eq!(total, 5);
            assert_eq!(cb, 2);
        }
        _ => panic!("expected a re-submission"),
    }
}

#[test]
fn prepare_finished_send_reports_full_count() {
    let c: Completion<u8> = Completion::Send {
        fd: 5,
        buf: vec![1, 2, 3, 4, 5],
        sent: 3,
        total: 5,
        cb: 2,
    };
    match c.prepare(2, Vec::new()) {
        Prepared::Dispatch { op: ReadyOp::Send { result: SendResult::SentAll { count }, .. } } => {
            assert_eq!(count, 5);
        }
        _ => panic!("expected a completed send"),
    }
}

#[test]
fn prepare_rejects_close_records() {
    let c: Completion<u8> = Completion::Close;
    match c.prepare(0, Vec::new()) {
        Prepared::Rejected => {}
        _ => panic!("expected a rejection"),
    }
}
