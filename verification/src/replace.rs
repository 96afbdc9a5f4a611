//! The replace pallet's calls, events and storage keys, as the client
//! submits and receives them. They are plain data here: the transport and
//! its encoding stay outside the library.

use core::marker::PhantomData;

use vstd::prelude::*;

use crate::scheduler::RequestEvent;
use crate::types::{AccountId, BtcAddress, H256Le, RequestId};

verus! {

/// The family of types a runtime instantiates the replace pallet with.
pub trait Replace {
    type AccountId;

    type BlockNumber;

    type PolkaBTC;

    type DOT;

    type H256;

    type H256Le;

    type BtcAddress;
}

/// The runtime this client runs against, with its concrete types.
#[derive(Clone, Copy, Debug)]
pub struct PolkaBtcRuntime;

impl Replace for PolkaBtcRuntime {
    type AccountId = AccountId;

    type BlockNumber = u32;

    type PolkaBTC = u128;

    type DOT = u128;

    type H256 = RequestId;

    type H256Le = H256Le;

    type BtcAddress = BtcAddress;
}

/// Ask to be replaced for this much wBTC, griefing collateral attached.
pub struct RequestReplaceCall<T: Replace> {
    pub btc_amount: T::PolkaBTC,
    pub griefing_collateral: T::DOT,
}

/// Withdraw an open replace request.
pub struct WithdrawReplaceCall<T: Replace> {
    pub replace_id: T::H256,
}

/// Accept another vault's replace request.
pub struct AcceptReplaceCall<T: Replace> {
    pub replace_id: T::H256,
    pub collateral: T::DOT,
    pub btc_address: T::BtcAddress,
}

/// Force-replace an undercollateralized vault.
pub struct AuctionReplaceCall<T: Replace> {
    pub old_vault: T::AccountId,
    pub btc_amount: T::PolkaBTC,
    pub collateral: T::DOT,
    pub btc_address: T::BtcAddress,
}

/// Prove the replace payment and close the request.
pub struct ExecuteReplaceCall<T: Replace> {
    pub replace_id: T::H256,
    pub tx_id: T::H256Le,
    pub merkle_proof: Vec<u8>,
    pub raw_tx: Vec<u8>,
}

/// Cancel a replace whose deadline has passed.
pub struct CancelReplaceCall<T: Replace> {
    pub replace_id: T::H256,
}

/// A vault asked to be replaced.
pub struct RequestReplaceEvent<T: Replace> {
    pub old_vault_id: T::AccountId,
    pub amount: T::PolkaBTC,
    pub replace_id: T::H256,
}

/// A vault withdrew its replace request.
pub struct WithdrawReplaceEvent<T: Replace> {
    pub vault_id: T::AccountId,
    pub request_id: T::H256,
}

/// A vault accepted a replace request.
pub struct AcceptReplaceEvent<T: Replace> {
    pub old_vault_id: T::AccountId,
    pub new_vault_id: T::AccountId,
    pub replace_id: T::H256,
    pub collateral: T::DOT,
    pub btc_amount: T::PolkaBTC,
    pub btc_address: T::BtcAddress,
}

/// A replace was executed and proven.
pub struct ExecuteReplaceEvent<T: Replace> {
    pub old_vault_id: T::AccountId,
    pub new_vault_id: T::AccountId,
    pub replace_id: T::H256,
}

/// An undercollateralized vault was auctioned.
pub struct AuctionReplaceEvent<T: Replace> {
    pub old_vault_id: T::AccountId,
    pub new_vault_id: T::AccountId,
    pub replace_id: T::H256,
    pub btc_amount: T::PolkaBTC,
    pub collateral: T::DOT,
    pub current_height: T::BlockNumber,
    pub btc_address: T::BtcAddress,
}

/// A replace was cancelled after its deadline.
pub struct CancelReplaceEvent<T: Replace> {
    pub new_vault_id: T::AccountId,
    pub old_vault_id: T::AccountId,
    pub replace_id: T::H256,
}

/// Storage key of the replace period: the number of blocks a replace may
/// stay open before its counter-party can cancel it.
pub struct ReplacePeriodStore<T: Replace> {
    pub _runtime: PhantomData<T>,
}

/// Storage key of one replace request's record.
pub struct ReplaceRequestsStore<T: Replace> {
    pub _runtime: PhantomData<T>,
    pub replace_id: T::H256,
}

/// Governance call setting the replace period.
pub struct SetReplacePeriodCall<T: Replace> {
    pub period: u32,
    pub _runtime: PhantomData<T>,
}

/// The block height at which an open request becomes cancellable: its
/// opening height plus the flow's period.
pub fn request_deadline(opened_at: u32, period: u32) -> (r: u32)
    requires
        opened_at + period <= u32::MAX,
    ensures
        r == opened_at + period,
{
    opened_at + period
}

/// A replace-flow event of this runtime, as the replace reactor receives
/// it.
pub enum ReplaceEvent {
    /// A vault accepted a replace request.
    Accepted(AcceptReplaceEvent<PolkaBtcRuntime>),
    /// A replace was executed and proven.
    Executed(ExecuteReplaceEvent<PolkaBtcRuntime>),
}

/// One step of the replace reactor: an accepted replace whose old vault is
/// this one opens a scheduler entry with its cancellation deadline; an
/// executed replace of this vault closes it; everything else is another
/// vault's business.
pub fn handle_replace_event(
    event: &ReplaceEvent,
    our_vault: &AccountId,
    current_height: u32,
    replace_period: u32,
) -> (r: Option<RequestEvent>)
    requires
        current_height + replace_period <= u32::MAX,
    ensures
        event matches ReplaceEvent::Accepted(e) ==> {
            &&& (e.old_vault_id@ == our_vault@ ==> (r matches Some(
                RequestEvent::Opened { id, deadline },
            ) && id@ == e.replace_id@ && deadline == current_height + replace_period))
            &&& (e.old_vault_id@ != our_vault@ ==> r is None)
        },
        event matches ReplaceEvent::Executed(e) ==> {
            &&& (e.old_vault_id@ == our_vault@ ==> (r matches Some(
                RequestEvent::Executed { id },
            ) && id@ == e.replace_id@))
            &&& (e.old_vault_id@ != our_vault@ ==> r is None)
        },
{
    match event {
        ReplaceEvent::Accepted(e) => {
            if e.old_vault_id.eq_id(our_vault) {
                Some(
                    RequestEvent::Opened {
                        id: e.replace_id.clone_id(),
                        deadline: request_deadline(current_height, replace_period),
                    },
                )
            } else {
                None
            }
        },
        ReplaceEvent::Executed(e) => {
            if e.old_vault_id.eq_id(our_vault) {
                Some(RequestEvent::Executed { id: e.replace_id.clone_id() })
            } else {
                None
            }
        },
    }
}

/// Whether this vault answers another vault's replace request: only when
/// automatic replace participation is on, and never its own request.
pub fn should_accept_replace(
    auto_replace: bool,
    event: &RequestReplaceEvent<PolkaBtcRuntime>,
    our_vault: &AccountId,
) -> (r: bool)
    ensures
        r == (auto_replace && event.old_vault_id@ != our_vault@),
{
    auto_replace && !event.old_vault_id.eq_id(our_vault)
}

} // verus!
