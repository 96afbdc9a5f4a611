use vault_client::collateral::{below_liquidation_threshold, collateral_increase};
use vault_client::error::Error;
use vault_client::hexcode::parse_btc_address;
use vault_client::network::{BitcoinNetwork, Network};
use vault_client::replace::{request_deadline, PolkaBtcRuntime, RequestReplaceCall};
use vault_client::startup::{
    confirmations, registration_action, wallet_key_missing, StartupAction, VaultLookup,
};
use vault_client::types::{AccountId, BtcAddress, RequestId};

#[test]
fn collateral_tops_up_to_required() {
    // required 500 000, current 300 000, ceiling 1 000 000: one lock of
    // exactly the 200 000 shortfall
    assert_eq!(collateral_increase(300_000, 500_000, 1_000_000), Some(200_000));
}

#[test]
fn collateral_never_passes_ceiling() {
    assert_eq!(collateral_increase(300_000, 1_200_000, 1_000_000), None);
    assert_eq!(collateral_increase(500_000, 500_000, 1_000_000), None);
    assert_eq!(collateral_increase(600_000, 500_000, 1_000_000), None);
    if let Some(delta) = collateral_increase(999_999, 1_000_000, 1_000_000) {
        assert_eq!(delta, 1);
        assert!(999_999 + delta <= 1_000_000);
    } else {
        panic!("a shortfall within the ceiling must be locked");
    }
}

#[test]
fn liquidation_threshold_comparison() {
    // ratio = collateral * rate / issued, compared against the threshold
    assert!(below_liquidation_threshold(100, 2, 100, 3));
    assert!(!below_liquidation_threshold(200, 2, 100, 3));
    assert!(!below_liquidation_threshold(0, 2, 0, 3));
}

#[test]
fn auto_registration_happens_once_when_unregistered() {
    // an unregistered vault with --auto-register-with-collateral 100:
    // exactly one registration with collateral 100 before the event loops
    let action = registration_action(Some(100), VaultLookup::NotFound);
    assert_eq!(action, StartupAction::RegisterVault(100));

    assert_eq!(
        registration_action(Some(100), VaultLookup::Found),
        StartupAction::Proceed
    );
    assert_eq!(
        registration_action(Some(100), VaultLookup::LookupFailure),
        StartupAction::Abort
    );
    assert_eq!(
        registration_action(None, VaultLookup::NotFound),
        StartupAction::Proceed
    );
}

#[test]
fn confirmations_prefer_command_line() {
    assert_eq!(confirmations(Some(3), 6), 3);
    assert_eq!(confirmations(None, 6), 6);
}

#[test]
fn missing_wallet_key_is_fatal() {
    assert!(wallet_key_missing(true, false));
    assert!(!wallet_key_missing(true, true));
    assert!(!wallet_key_missing(false, false));
}

#[test]
fn network_names_parse() {
    assert_eq!(
        BitcoinNetwork::from_str("mainnet").unwrap(),
        BitcoinNetwork(Network::Mainnet)
    );
    assert_eq!(
        BitcoinNetwork::from_str("testnet").unwrap(),
        BitcoinNetwork(Network::Testnet)
    );
    assert_eq!(
        BitcoinNetwork::from_str("regtest").unwrap(),
        BitcoinNetwork(Network::Regtest)
    );
    assert_eq!(
        BitcoinNetwork::from_str("signet").unwrap_err(),
        Error::InvalidBitcoinNetwork
    );
}

#[test]
fn hex_addresses_parse() {
    let parsed = parse_btc_address(b"66c7060feb882664ae62ffad0051fe843e318e85").unwrap();
    assert_eq!(parsed.bytes.len(), 20);
    assert_eq!(parsed.bytes[0], 0x66);
    assert_eq!(parsed.bytes[1], 0xc7);
    assert_eq!(parsed.bytes[19], 0x85);

    let upper = parse_btc_address(b"00FF00FF00FF00FF00FF00FF00FF00FF00FF00FF").unwrap();
    assert_eq!(upper.bytes, vec![0x00, 0xff].repeat(10));
}

#[test]
fn hex_address_errors_are_told_apart() {
    assert_eq!(
        parse_btc_address(b"zz").unwrap_err(),
        Error::InvalidHex
    );
    assert_eq!(
        parse_btc_address(b"abc").unwrap_err(),
        Error::InvalidHex
    );
    assert_eq!(
        parse_btc_address(b"00ff").unwrap_err(),
        Error::InvalidAddressLength
    );
}

#[test]
fn identifier_lengths_are_checked() {
    assert_eq!(RequestId::new(vec![0; 31]).unwrap_err(), Error::InvalidIdLength);
    assert!(RequestId::new(vec![0; 32]).is_ok());
    assert_eq!(AccountId::new(vec![0; 33]).unwrap_err(), Error::InvalidIdLength);
    assert_eq!(
        BtcAddress::new(vec![0; 19]).unwrap_err(),
        Error::InvalidAddressLength
    );
    assert!(H256Le::from_bytes_le(vec![0; 32]).is_ok());
    assert_eq!(
        H256Le::from_bytes_le(vec![0; 30]).unwrap_err(),
        Error::InvalidIdLength
    );
}

#[test]
fn replace_calls_carry_their_fields() {
    let call: RequestReplaceCall<PolkaBtcRuntime> = RequestReplaceCall {
        btc_amount: 1_000,
        griefing_collateral: 50,
    };
    assert_eq!(call.btc_amount, 1_000);
    assert_eq!(call.griefing_collateral, 50);
    assert_eq!(request_deadline(90, 10), 100);
}

use vault_client::collateral::{auction_candidates, VaultStat};
use vault_client::replace::{
    handle_replace_event, AcceptReplaceEvent, ExecuteReplaceEvent, ReplaceEvent,
};
use vault_client::scheduler::RequestEvent;
use vault_client::types::H256Le;

fn account(b: u8) -> AccountId {
    AccountId { bytes: vec![b; 32] }
}

#[test]
fn auction_monitor_picks_undercollateralized_vaults() {
    let stats = vec![
        VaultStat { id: account(1), collateral: 100, issued: 100 }, // ratio 2 < 3
        VaultStat { id: account(2), collateral: 200, issued: 100 }, // ratio 4 >= 3
        VaultStat { id: account(3), collateral: 0, issued: 0 },     // nothing issued
    ];
    let picked = auction_candidates(&stats, 2, 3);
    assert_eq!(picked.len(), 1);
    assert_eq!(picked[0].bytes, vec![1; 32]);
}

#[test]
fn replace_reactor_follows_old_vault() {
    let us = account(1);
    let accepted = ReplaceEvent::Accepted(AcceptReplaceEvent {
        old_vault_id: account(1),
        new_vault_id: account(2),
        replace_id: RequestId { bytes: vec![9; 32] },
        collateral: 5,
        btc_amount: 7,
        btc_address: BtcAddress { bytes: vec![3; 20] },
    });
    match handle_replace_event(&accepted, &us, 90, 10) {
        Some(RequestEvent::Opened { id, deadline }) => {
            assert_eq!(id.bytes, vec![9; 32]);
            assert_eq!(deadline, 100);
        }
        _ => panic!("our accepted replace must open a scheduler entry"),
    }

    let executed = ReplaceEvent::Executed(ExecuteReplaceEvent {
        old_vault_id: account(1),
        new_vault_id: account(2),
        replace_id: RequestId { bytes: vec![9; 32] },
    });
    assert!(matches!(
        handle_replace_event(&executed, &us, 90, 10),
        Some(RequestEvent::Executed { .. })
    ));

    let other = ReplaceEvent::Executed(ExecuteReplaceEvent {
        old_vault_id: account(4),
        new_vault_id: account(2),
        replace_id: RequestId { bytes: vec![9; 32] },
    });
    assert!(handle_replace_event(&other, &us, 90, 10).is_none());

    let tx = H256Le { bytes: vec![0; 32] };
    assert_eq!(tx.bytes.len(), 32);
}

use vault_client::replace::{should_accept_replace, RequestReplaceEvent};

#[test]
fn replace_requests_accepted_only_under_auto_replace() {
    let us = account(1);
    let from_other: RequestReplaceEvent<PolkaBtcRuntime> = RequestReplaceEvent {
        old_vault_id: account(2),
        amount: 10,
        replace_id: RequestId { bytes: vec![6; 32] },
    };
    assert!(should_accept_replace(true, &from_other, &us));
    assert!(!should_accept_replace(false, &from_other, &us));

    let our_own: RequestReplaceEvent<PolkaBtcRuntime> = RequestReplaceEvent {
        old_vault_id: account(1),
        amount: 10,
        replace_id: RequestId { bytes: vec![6; 32] },
    };
    assert!(!should_accept_replace(true, &our_own, &us));
}
