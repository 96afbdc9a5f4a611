//! The Bitcoin network a vault encodes its addresses for, as named on the
//! command line.

use vstd::prelude::*;

use crate::error::Error;

verus! {

/// The three networks the client can run against.
#[derive(Clone, Copy, Debug, PartialEq, Eq, Structural)]
pub enum Network {
    Mainnet,
    Testnet,
    Regtest,
}

/// The network chosen for address encoding.
#[derive(Clone, Copy, Debug, PartialEq, Eq, Structural)]
pub struct BitcoinNetwork(pub Network);

impl BitcoinNetwork {
    /// The network a command-line name denotes: `mainnet`, `testnet` or
    /// `regtest`, and nothing else.
    pub fn from_str(s: &str) -> (r: Result<BitcoinNetwork, Error>)
        ensures
            r == Ok::<BitcoinNetwork, Error>(BitcoinNetwork(Network::Mainnet)) <==> s@
                == "mainnet"@,
            r == Ok::<BitcoinNetwork, Error>(BitcoinNetwork(Network::Testnet)) <==> s@
                == "testnet"@,
            r == Ok::<BitcoinNetwork, Error>(BitcoinNetwork(Network::Regtest)) <==> s@
                == "regtest"@,
            r is Err <==> s@ != "mainnet"@ && s@ != "testnet"@ && s@ != "regtest"@,
    {
        proof {
            reveal_strlit("mainnet");
            reveal_strlit("testnet");
            reveal_strlit("regtest");
            assert("mainnet"@[0] == 'm');
            assert("testnet"@[0] == 't');
            assert("regtest"@[0] == 'r');
            assert("mainnet"@ != "testnet"@);
            assert("mainnet"@ != "regtest"@);
            assert("testnet"@ != "regtest"@);
        }
        let owned = s.to_owned();
        if owned == "mainnet".to_owned() {
            Ok(BitcoinNetwork(Network::Mainnet))
        } else if owned == "testnet".to_owned() {
            Ok(BitcoinNetwork(Network::Testnet))
        } else if owned == "regtest".to_owned() {
            Ok(BitcoinNetwork(Network::Regtest))
        } else {
            Err(Error::InvalidBitcoinNetwork)
        }
    }
}

} // verus!
