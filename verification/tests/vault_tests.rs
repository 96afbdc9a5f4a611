use vault_client::types::{AccountId, BtcAddress, H256Le};
use vault_client::vaults::{filter_matching_vaults, Vaults, VaultsMonitor};

fn addr(b: u8) -> BtcAddress {
    BtcAddress { bytes: vec![b; 20] }
}

fn account(b: u8) -> AccountId {
    AccountId { bytes: vec![b; 32] }
}

fn txid(b: u8) -> H256Le {
    H256Le { bytes: vec![b; 32] }
}

#[test]
fn test_filter_matching_vaults() {
    let bob = account(7);
    let vaults = Vaults::from(vec![(addr(0), bob)]);

    let matched = filter_matching_vaults(vec![addr(0)], &vaults);
    assert_eq!(matched.len(), 1);
    assert_eq!(matched[0].bytes, vec![7; 32]);

    let unmatched = filter_matching_vaults(vec![addr(1)], &vaults);
    assert_eq!(unmatched.len(), 0);
}

#[test]
fn test_report_valid_transaction() {
    let monitor = VaultsMonitor::new(0, Vaults::default());
    let candidates = vec![account(7)];
    let verdicts = vec![false];
    let reports = monitor.theft_reports(&txid(0), &candidates, &verdicts);
    assert_eq!(reports.len(), 0);
}

#[test]
fn test_report_invalid_transaction() {
    let monitor = VaultsMonitor::new(0, Vaults::default());
    let candidates = vec![account(7)];
    let verdicts = vec![true];
    let reports = monitor.theft_reports(&txid(0), &candidates, &verdicts);
    assert_eq!(reports.len(), 1);
    assert_eq!(reports[0].vault_id.bytes, vec![7; 32]);
}

#[test]
fn registry_write_and_lookup() {
    let mut vaults = Vaults::default();
    vaults.write(addr(1), account(10));
    vaults.write(addr(2), account(11));

    let found = vaults.contains_key(&addr(1)).unwrap();
    assert_eq!(found.bytes, vec![10; 32]);
    let found = vaults.contains_key(&addr(2)).unwrap();
    assert_eq!(found.bytes, vec![11; 32]);
    assert!(vaults.contains_key(&addr(3)).is_none());

    // a vault's wallet grows: a re-registration replaces the identity
    vaults.write(addr(1), account(12));
    let found = vaults.contains_key(&addr(1)).unwrap();
    assert_eq!(found.bytes, vec![12; 32]);
}

#[test]
fn registry_from_latest_entry_wins() {
    let vaults = Vaults::from(vec![(addr(1), account(10)), (addr(1), account(11))]);
    let found = vaults.contains_key(&addr(1)).unwrap();
    assert_eq!(found.bytes, vec![11; 32]);
}

#[test]
fn deregistered_vault_leaves_no_address() {
    let mut vaults = Vaults::default();
    vaults.write(addr(1), account(10));
    vaults.write(addr(2), account(10));
    vaults.write(addr(3), account(11));

    vaults.deregister(&account(10));

    assert!(vaults.contains_key(&addr(1)).is_none());
    assert!(vaults.contains_key(&addr(2)).is_none());
    let kept = vaults.contains_key(&addr(3)).unwrap();
    assert_eq!(kept.bytes, vec![11; 32]);
}

#[test]
fn theft_detector_scans_one_block() {
    // one transaction whose output address belongs to vault V and whose
    // verdict is invalid: exactly one report, and the height advances
    let vault_v = account(5);
    let vaults = Vaults::from(vec![(addr(9), vault_v)]);
    let mut monitor = VaultsMonitor::new(42, vaults);

    let candidates = monitor.check_transaction(&vec![addr(9), addr(8)]);
    assert_eq!(candidates.len(), 1);
    assert_eq!(candidates[0].bytes, vec![5; 32]);

    let reports = monitor.theft_reports(&txid(1), &candidates, &vec![true]);
    assert_eq!(reports.len(), 1);
    assert_eq!(reports[0].vault_id.bytes, vec![5; 32]);
    assert_eq!(reports[0].tx_id.bytes, vec![1; 32]);
    assert_eq!(reports[0].height, 42);

    monitor.advance(true);
    assert_eq!(monitor.btc_height, 43);
}

#[test]
fn theft_reports_one_per_vault() {
    // two addresses of the same vault in one transaction: one candidate
    let vault_v = account(5);
    let second_address_of_v = (addr(4), account(5));
    let vaults = Vaults::from(vec![(addr(9), vault_v), second_address_of_v]);
    let monitor = VaultsMonitor::new(0, vaults);

    let candidates = monitor.check_transaction(&vec![addr(9), addr(4)]);
    assert_eq!(candidates.len(), 1);
}

#[test]
fn failed_scan_keeps_height() {
    let mut monitor = VaultsMonitor::new(7, Vaults::default());
    monitor.advance(false);
    assert_eq!(monitor.btc_height, 7);
}

use vault_client::issue::{handle_issue_event, IssueEvent, IssueRequests};
use vault_client::scheduler::RequestEvent;
use vault_client::types::RequestId;

fn request(b: u8) -> RequestId {
    RequestId { bytes: vec![b; 32] }
}

#[test]
fn issue_set_tracks_each_id_once() {
    let mut set = IssueRequests::new();
    set.insert(request(1));
    set.insert(request(1));
    set.insert(request(2));
    assert_eq!(set.len(), 2);
    assert!(set.contains(&request(1)));
    assert!(set.contains(&request(2)));
    set.remove(&request(1));
    assert!(!set.contains(&request(1)));
    assert!(set.contains(&request(2)));
    assert_eq!(set.len(), 1);
}

#[test]
fn issue_reactor_follows_assignee() {
    let us = account(1);
    let other = account(2);
    let mut set = IssueRequests::new();

    // a request assigned to another vault changes nothing
    let r = handle_issue_event(
        &mut set,
        &us,
        IssueEvent::Requested { id: request(9), vault_id: other, deadline: 50 },
    );
    assert!(r.is_none());
    assert_eq!(set.len(), 0);

    // a request assigned to us is tracked and reaches the scheduler
    let r = handle_issue_event(
        &mut set,
        &us,
        IssueEvent::Requested { id: request(9), vault_id: account(1), deadline: 50 },
    );
    match r {
        Some(RequestEvent::Opened { id, deadline }) => {
            assert_eq!(id.bytes, vec![9; 32]);
            assert_eq!(deadline, 50);
        }
        _ => panic!("an assigned request must open a scheduler entry"),
    }
    assert!(set.contains(&request(9)));

    // its execution leaves the set and tells the scheduler
    let r = handle_issue_event(&mut set, &us, IssueEvent::Executed { id: request(9) });
    assert!(matches!(r, Some(RequestEvent::Executed { .. })));
    assert!(!set.contains(&request(9)));

    // a cancellation only leaves the set
    set.insert(request(3));
    let r = handle_issue_event(&mut set, &us, IssueEvent::Cancelled { id: request(3) });
    assert!(r.is_none());
    assert!(!set.contains(&request(3)));
}
