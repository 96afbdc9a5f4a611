//! Collateral maintenance: decide how much extra collateral to lock.
//!
//! The maintainer periodically reads the vault's required and current
//! collateral from the parachain and locks the difference, but never past
//! the configured ceiling.

use vstd::prelude::*;

use crate::types::AccountId;

verus! {

/// The amount a `lock_additional_collateral` extrinsic should carry, if any.
///
/// An increase is due exactly when the vault is under-collateralized
/// (`current < required`) and topping up to `required` stays within the
/// configured ceiling. When due, the amount is precisely the shortfall,
/// so the post-lock total never exceeds `max_collateral`.
pub fn collateral_increase(current: u128, required: u128, max_collateral: u128) -> (r: Option<
    u128,
>)
    ensures
        r is Some <==> current < required && required <= max_collateral,
        r matches Some(amount) ==> amount == required - current,
        r matches Some(amount) ==> current + amount <= max_collateral,
{
    if current < required && required <= max_collateral {
        Some(required - current)
    } else {
        None
    }
}

/// Whether a vault's position is below the liquidation threshold: its
/// collateral, valued at the current exchange rate, falls short of the
/// threshold times its issued tokens. A vault with nothing issued is
/// never auctionable.
pub fn below_liquidation_threshold(
    collateral: u128,
    rate: u128,
    issued: u128,
    threshold: u128,
) -> (r: bool)
    requires
        collateral * rate <= u128::MAX,
        threshold * issued <= u128::MAX,
    ensures
        r == (issued > 0 && collateral * rate < threshold * issued),
{
    issued > 0 && collateral * rate < threshold * issued
}

/// One registered vault's position, as the auction monitor reads it from
/// the parachain.
#[derive(Debug)]
pub struct VaultStat {
    pub id: AccountId,
    pub collateral: u128,
    pub issued: u128,
}

/// Whether a position is below the liquidation threshold, as
/// `below_liquidation_threshold` computes it.
pub open spec fn undercollateralized(collateral: u128, rate: u128, issued: u128, threshold: u128) -> bool {
    issued > 0 && collateral * rate < threshold * issued
}

/// The identities of the undercollateralized vaults among `stats`, in
/// order: the vaults the monitor auctions.
pub open spec fn auction_list(
    stats: Seq<(Seq<u8>, u128, u128)>,
    rate: u128,
    threshold: u128,
) -> Seq<Seq<u8>>
    decreases stats.len(),
{
    if stats.len() == 0 {
        Seq::empty()
    } else {
        let a0 = auction_list(stats.drop_last(), rate, threshold);
        if undercollateralized(stats.last().1, rate, stats.last().2, threshold) {
            a0.push(stats.last().0)
        } else {
            a0
        }
    }
}

/// The `(identity, collateral, issued)` views of the read positions.
pub open spec fn stat_views(s: Seq<VaultStat>) -> Seq<(Seq<u8>, u128, u128)> {
    s.map_values(|v: VaultStat| (v.id@, v.collateral, v.issued))
}

/// The vaults whose collateralisation ratio has fallen below the
/// liquidation threshold: each gets an auction replace submitted against
/// it.
pub fn auction_candidates(stats: &Vec<VaultStat>, rate: u128, threshold: u128) -> (r: Vec<
    AccountId,
>)
    requires
        forall|j: int|
            0 <= j < stats@.len() ==> (#[trigger] stats@[j]).collateral * rate <= u128::MAX
                && threshold * stats@[j].issued <= u128::MAX,
    ensures
        r@.map_values(|a: AccountId| a@) == auction_list(stat_views(stats@), rate, threshold),
{
    let ghost all = stat_views(stats@);
    let n = stats.len();
    let mut out: Vec<AccountId> = Vec::new();
    let mut i: usize = 0;
    while i < n
        invariant
            n == stats.len(),
            all == stat_views(stats@),
            all.len() == n,
            i <= n,
            forall|j: int|
                0 <= j < stats@.len() ==> (#[trigger] stats@[j]).collateral * rate <= u128::MAX
                    && threshold * stats@[j].issued <= u128::MAX,
            out@.map_values(|a: AccountId| a@) =~= auction_list(all.take(i as int), rate, threshold),
        decreases n - i,
    {
        proof {
            assert(all.take(i as int + 1).drop_last() =~= all.take(i as int));
            assert(all.take(i as int + 1).last() == all[i as int]);
            assert(all[i as int] == (stats@[i as int].id@, stats@[i as int].collateral, stats@[i as int].issued));
        }
        let ghost prev = out@;
        if below_liquidation_threshold(stats[i].collateral, rate, stats[i].issued, threshold) {
            let id = stats[i].id.clone_id();
            out.push(id);
        }
        proof {
            assert(out@.map_values(|a: AccountId| a@) =~= auction_list(
                all.take(i as int + 1),
                rate,
                threshold,
            ));
        }
        i += 1;
    }
    proof {
        assert(all.take(n as int) =~= all);
    }
    out
}

} // verus!
