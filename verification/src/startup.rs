//! Startup decisions the orchestrator takes before the event loops run:
//! how many Bitcoin confirmations to require, whether to auto-register
//! the vault, and whether a registered vault's key is missing from the
//! local wallet.

use vstd::prelude::*;

verus! {

/// What looking the vault up in the registry returned.
#[derive(Clone, Copy, Debug, PartialEq, Eq, Structural)]
pub enum VaultLookup {
    /// The vault is registered.
    Found,
    /// The registry has no such vault.
    NotFound,
    /// The lookup itself failed.
    LookupFailure,
}

/// What startup does about registration.
#[derive(Clone, Copy, Debug, PartialEq, Eq, Structural)]
pub enum StartupAction {
    /// Fetch a fresh public key and register with this much collateral.
    RegisterVault(u128),
    /// Go on to the event loops without registering.
    Proceed,
    /// Abort: the lookup failed and auto-registration was requested.
    Abort,
}

/// The confirmations to require: the command-line value when given, the
/// parachain's setting otherwise.
pub fn confirmations(cli: Option<u32>, parachain_default: u32) -> (r: u32)
    ensures
        r == (if cli is Some {
            cli->0
        } else {
            parachain_default
        }),
{
    match cli {
        Some(x) => x,
        None => parachain_default,
    }
}

/// The registration decision: register exactly when auto-registration was
/// asked for and the vault is not yet registered; an already registered
/// vault proceeds untouched; a failed lookup is fatal.
pub fn registration_action(auto_register_collateral: Option<u128>, lookup: VaultLookup) -> (r:
    StartupAction)
    ensures
        r matches StartupAction::RegisterVault(c) ==> auto_register_collateral == Some(c)
            && lookup is NotFound,
        lookup is NotFound ==> (auto_register_collateral matches Some(c) ==> r
            == StartupAction::RegisterVault(c)),
        r is Abort <==> auto_register_collateral is Some && lookup is LookupFailure,
        r is Proceed <==> auto_register_collateral is None || lookup is Found,
{
    match auto_register_collateral {
        Some(collateral) => match lookup {
            VaultLookup::Found => StartupAction::Proceed,
            VaultLookup::NotFound => StartupAction::RegisterVault(collateral),
            VaultLookup::LookupFailure => StartupAction::Abort,
        },
        None => StartupAction::Proceed,
    }
}

/// Whether startup must stop because the vault is registered on the
/// parachain but its public key is missing from the local wallet.
pub fn wallet_key_missing(vault_found: bool, wallet_has_key: bool) -> (r: bool)
    ensures
        r == (vault_found && !wallet_has_key),
{
    vault_found && !wallet_has_key
}

} // verus!
