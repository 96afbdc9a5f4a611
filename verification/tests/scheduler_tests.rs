use vault_client::scheduler::{
    ActiveRequest, CancelOutcome, CancellationScheduler, RequestEvent,
};
use vault_client::types::RequestId;

fn id(b: u8) -> RequestId {
    RequestId { bytes: vec![b; 32] }
}

fn due_bytes(s: &CancellationScheduler, height: u32) -> Vec<Vec<u8>> {
    s.due_requests(height).into_iter().map(|r| r.bytes).collect()
}

#[test]
fn cancel_fires_at_deadline_once() {
    // Opened(0x01.., deadline 100); Block(99) does nothing; Block(100)
    // cancels exactly once; later blocks cancel nothing more
    let mut s = CancellationScheduler::new();
    s.process_event(RequestEvent::Opened { id: id(1), deadline: 100 });

    assert_eq!(due_bytes(&s, 99).len(), 0);

    let due = due_bytes(&s, 100);
    assert_eq!(due, vec![vec![1; 32]]);
    s.apply_cancel_outcome(&id(1), CancelOutcome::Submitted);

    assert_eq!(due_bytes(&s, 100).len(), 0);
    assert_eq!(due_bytes(&s, 101).len(), 0);
}

#[test]
fn earlier_deadline_cancelled_first() {
    // Opened(A, 50), Opened(B, 40): Block(45) cancels B only, Block(50)
    // cancels A, and the scheduler is idle again
    let mut s = CancellationScheduler::new();
    s.process_event(RequestEvent::Opened { id: id(0xA), deadline: 50 });
    s.process_event(RequestEvent::Opened { id: id(0xB), deadline: 40 });

    let due = due_bytes(&s, 45);
    assert_eq!(due, vec![vec![0xB; 32]]);
    s.apply_cancel_outcome(&id(0xB), CancelOutcome::Submitted);

    let due = due_bytes(&s, 50);
    assert_eq!(due, vec![vec![0xA; 32]]);
    s.apply_cancel_outcome(&id(0xA), CancelOutcome::Submitted);

    assert_eq!(s.len(), 0);
}

#[test]
fn executed_request_is_never_cancelled() {
    let mut s = CancellationScheduler::new();
    s.process_event(RequestEvent::Opened { id: id(1), deadline: 10 });
    s.process_event(RequestEvent::Executed { id: id(1) });
    assert_eq!(due_bytes(&s, 10).len(), 0);
    assert_eq!(due_bytes(&s, u32::MAX).len(), 0);
}

#[test]
fn transient_failure_retries_next_block() {
    let mut s = CancellationScheduler::new();
    s.process_event(RequestEvent::Opened { id: id(1), deadline: 10 });

    assert_eq!(due_bytes(&s, 10), vec![vec![1; 32]]);
    s.apply_cancel_outcome(&id(1), CancelOutcome::TransientFailure);

    // still scheduled: the next block retries it
    assert_eq!(due_bytes(&s, 11), vec![vec![1; 32]]);
    s.apply_cancel_outcome(&id(1), CancelOutcome::AlreadyCompleted);
    assert_eq!(due_bytes(&s, 12).len(), 0);
}

#[test]
fn equal_deadlines_in_insertion_order() {
    let mut s = CancellationScheduler::new();
    s.process_event(RequestEvent::Opened { id: id(1), deadline: 50 });
    s.process_event(RequestEvent::Opened { id: id(2), deadline: 50 });
    s.process_event(RequestEvent::Opened { id: id(3), deadline: 40 });

    let due = due_bytes(&s, 50);
    assert_eq!(due, vec![vec![3; 32], vec![1; 32], vec![2; 32]]);
}

#[test]
fn next_deadline_is_earliest() {
    let mut s = CancellationScheduler::new();
    assert_eq!(s.next_deadline(), None);
    s.process_event(RequestEvent::Opened { id: id(1), deadline: 70 });
    s.process_event(RequestEvent::Opened { id: id(2), deadline: 30 });
    assert_eq!(s.next_deadline(), Some(30));
    s.process_event(RequestEvent::Executed { id: id(2) });
    assert_eq!(s.next_deadline(), Some(70));
}

#[test]
fn startup_reconciliation_orders_schedule() {
    let reqs = vec![
        ActiveRequest { id: id(1), deadline: 90 },
        ActiveRequest { id: id(2), deadline: 20 },
        ActiveRequest { id: id(3), deadline: 60 },
    ];
    let s = CancellationScheduler::from_open_requests(reqs);
    assert_eq!(s.len(), 3);
    assert_eq!(s.next_deadline(), Some(20));
    assert_eq!(
        due_bytes(&s, 100),
        vec![vec![2; 32], vec![3; 32], vec![1; 32]]
    );
}
