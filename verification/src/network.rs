use vstd::prelude::*;

use crate::chars::str_eq;
use crate::errors::Error;

verus! {

/// A supported Bitcoin network.
#[derive(Clone, Copy, PartialEq, Eq, Structural, Debug)]
pub enum Network {
    Mainnet,
    Testnet,
    Signet,
    Regtest,
}

/// The canonical, case-sensitive name of a network.
pub open spec fn spec_network_name(n: Network) -> Seq<char> {
    match n {
        Network::Mainnet => seq!['b', 'i', 't', 'c', 'o', 'i', 'n'],
        Network::Testnet => seq!['t', 'e', 's', 't', 'n', 'e', 't'],
        Network::Signet => seq!['s', 'i', 'g', 'n', 'e', 't'],
        Network::Regtest => seq!['r', 'e', 'g', 't', 'e', 's', 't'],
    }
}

impl Network {
    /// Parses a canonical network name; unknown or differently-cased names
    /// are rejected.
    pub fn from_str(network: &str) -> (r: Result<Network, Error>)
        ensures
            match r {
                Ok(n) => network@ == spec_network_name(n),
                Err(e) => e is ConfigSyntax && (forall|n: Network|
                    network@ != spec_network_name(n)),
            },
    {
        proof {
            reveal_strlit("bitcoin");
            reveal_strlit("testnet");
            reveal_strlit("signet");
            reveal_strlit("regtest");
            assert("bitcoin"@ =~= spec_network_name(Network::Mainnet));
            assert("testnet"@ =~= spec_network_name(Network::Testnet));
            assert("signet"@ =~= spec_network_name(Network::Signet));
            assert("regtest"@ =~= spec_network_name(Network::Regtest));
        }
        if str_eq(network, "bitcoin") {
            Ok(Network::Mainnet)
        } else if str_eq(network, "testnet") {
            Ok(Network::Testnet)
        } else if str_eq(network, "signet") {
            Ok(Network::Signet)
        } else if str_eq(network, "regtest") {
            Ok(Network::Regtest)
        } else {
            Err(Error::ConfigSyntax { pos: 0 })
        }
    }

    /// The canonical name of this network.
    pub fn to_string(&self) -> (r: String)
        ensures
            r@ == spec_network_name(*self),
    {
        proof {
            reveal_strlit("bitcoin");
            reveal_strlit("testnet");
            reveal_strlit("signet");
            reveal_strlit("regtest");
            assert("bitcoin"@ =~= spec_network_name(Network::Mainnet));
            assert("testnet"@ =~= spec_network_name(Network::Testnet));
            assert("signet"@ =~= spec_network_name(Network::Signet));
            assert("regtest"@ =~= spec_network_name(Network::Regtest));
        }
        match self {
            Network::Mainnet => String::from_str("bitcoin"),
            Network::Testnet => String::from_str("testnet"),
            Network::Signet => String::from_str("signet"),
            Network::Regtest => String::from_str("regtest"),
        }
    }
}

} // verus!
