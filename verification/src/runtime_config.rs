//! Runtime configuration: the Bitcoin network dBTC keys are derived for.

use vstd::prelude::*;
use crate::bytes::str_eq;

verus! {

/// A Bitcoin network.
#[derive(Debug, Clone, Copy, PartialEq, Eq, Structural)]
pub enum BitcoinNetwork {
    Mainnet,
    Testnet,
    Signet,
}

/// The network a configured name names: `mainnet`, `testnet` or `signet`.
pub open spec fn spec_parse_network(s: Seq<char>) -> Option<BitcoinNetwork> {
    if s == "mainnet"@ {
        Some(BitcoinNetwork::Mainnet)
    } else if s == "testnet"@ {
        Some(BitcoinNetwork::Testnet)
    } else if s == "signet"@ {
        Some(BitcoinNetwork::Signet)
    } else {
        None
    }
}

/// The network a configured name names, if it names one.
pub fn parse_bitcoin_network(s: &str) -> (r: Option<BitcoinNetwork>)
    ensures
        r == spec_parse_network(s@),
{
    if str_eq(s, "mainnet") {
        Some(BitcoinNetwork::Mainnet)
    } else if str_eq(s, "testnet") {
        Some(BitcoinNetwork::Testnet)
    } else if str_eq(s, "signet") {
        Some(BitcoinNetwork::Signet)
    } else {
        None
    }
}

/// The configured name of a network.
pub open spec fn network_name(n: BitcoinNetwork) -> Seq<char> {
    match n {
        BitcoinNetwork::Mainnet => "mainnet"@,
        BitcoinNetwork::Testnet => "testnet"@,
        BitcoinNetwork::Signet => "signet"@,
    }
}

/// Each network's name parses to that network, and only a network's name
/// parses at all: parsing and naming are inverse.
pub proof fn lemma_network_names_round_trip(n: BitcoinNetwork, s: Seq<char>)
    ensures
        spec_parse_network(network_name(n)) == Some(n),
        spec_parse_network(s) == Some(n) ==> s == network_name(n),
{
    reveal_strlit("mainnet");
    reveal_strlit("testnet");
    reveal_strlit("signet");
    assert("testnet"@[0] != "mainnet"@[0]);
    assert("signet"@.len() != "mainnet"@.len());
    assert("signet"@.len() != "testnet"@.len());
}

/// Runtime configuration lookups.
pub struct RuntimeConfig;

impl RuntimeConfig {
    /// The configured Bitcoin network: the environment's value when it names
    /// a network, else the config file's when it names one, else Signet, the
    /// safe fallback. An unknown name falls through to the next source.
    pub fn bitcoin_network_from(env_value: Option<&str>, config_value: Option<&str>) -> (r: BitcoinNetwork)
        ensures
            r == match env_value {
                Some(e) if spec_parse_network(e@) is Some => spec_parse_network(e@)->0,
                _ => match config_value {
                    Some(c) if spec_parse_network(c@) is Some => spec_parse_network(c@)->0,
                    _ => BitcoinNetwork::Signet,
                },
            },
            chosen_network(
                match env_value {
                    Some(e) => Some(e@),
                    None => None,
                },
                match config_value {
                    Some(c) => Some(c@),
                    None => None,
                },
                r,
            ),
    {
        if let Some(e) = env_value {
            if let Some(n) = parse_bitcoin_network(e) {
                return n;
            }
        }
        if let Some(c) = config_value {
            if let Some(n) = parse_bitcoin_network(c) {
                return n;
            }
        }
        BitcoinNetwork::Signet
    }
}

/// Whether `r` is the network chosen from the environment's value and the
/// config file's, as `bitcoin_network_from` states it.
pub open spec fn chosen_network(env_value: Option<Seq<char>>, config_value: Option<Seq<char>>, r: BitcoinNetwork) -> bool {
    r == match env_value {
        Some(e) if spec_parse_network(e) is Some => spec_parse_network(e)->0,
        _ => match config_value {
            Some(c) if spec_parse_network(c) is Some => spec_parse_network(c)->0,
            _ => BitcoinNetwork::Signet,
        },
    }
}

/// The environment wins: when it names a network, that network is chosen
/// whatever the config file says; when it names none, a network the config
/// file names is chosen; with neither, Signet.
pub proof fn lemma_environment_wins(n: BitcoinNetwork, m: BitcoinNetwork, config_value: Option<Seq<char>>, r: BitcoinNetwork)
    ensures
        chosen_network(Some(network_name(n)), config_value, r) ==> r == n,
        chosen_network(None, Some(network_name(m)), r) ==> r == m,
        chosen_network(None, None, r) ==> r == BitcoinNetwork::Signet,
{
    lemma_network_names_round_trip(n, network_name(n));
    lemma_network_names_round_trip(m, network_name(m));
}

} // verus!
