//! Amounts, limits and the network flavours that parameterise every
//! commitment.

use vstd::prelude::*;

verus! {

/// The fee, in satoshis, that every exit leaves to the miners (or to the fee
/// anchor, on a network that has one).
pub const FEE_AMOUNT: u64 = 1000;

/// The smallest output, in satoshis, that the network relays.
pub const DUST_AMOUNT: u64 = 546;

/// The fee rate, in satoshis per 1000 virtual bytes, used when the node has no
/// estimate.
pub const DEFAULT_FEE_RATE: u64 = 5000;

/// What each participant's wallet receives on top of its contribution, to
/// cover its share of the funding transaction's fee.
pub const INIT_WALLET_AMOUNT_FEE: u64 = 2000;

/// The number of participants of the demonstration pool.
pub const POOL_USERS: usize = 10;

/// What each participant contributes, in satoshis. More than the fee and the
/// dust threshold together.
pub const AMOUNT_PER_USER: u64 = 11000;

/// A contribution exceeds the fee and the dust threshold together, so what a
/// participant leaves with, one contribution less the fee, is an output that
/// the network relays.
pub proof fn lemma_contribution_covers_fee_and_dust()
    ensures
        AMOUNT_PER_USER > FEE_AMOUNT + DUST_AMOUNT,
        AMOUNT_PER_USER - FEE_AMOUNT > DUST_AMOUNT,
{
}

/// The fewest participants a pool can have.
pub const MIN_POOL_USERS: usize = 3;

/// The most participants a pool can have: a set of them is keyed by one bit
/// each in a `u64`.
pub const MAX_POOL_USERS: usize = 64;

/// The sequence number of a spending input: replaceable, no relative lock time.
pub const ENABLE_RBF_NO_LOCKTIME: u32 = 0xFFFF_FFFD;

/// The network flavour, which fixes the transaction version and whether exits
/// carry a fee-anchor output.
#[derive(Clone, Copy, Debug, PartialEq, Eq, Structural)]
pub enum Network {
    /// A local test network: version 3 transactions with a fee anchor.
    Regtest,
    /// The public signet: version 2 transactions that pay their fee directly.
    Signet,
}

impl Network {
    /// The transaction format version of this network's exits.
    pub open spec fn spec_tx_version(self) -> i32 {
        match self {
            Network::Regtest => 3,
            Network::Signet => 2,
        }
    }

    /// Whether exits on this network carry a fee-anchor output.
    pub open spec fn spec_has_fee_anchor(self) -> bool {
        self == Network::Regtest
    }

    /// The transaction format version of this network's exits.
    #[verifier::when_used_as_spec(spec_tx_version)]
    pub fn tx_version(self) -> (version: i32)
        ensures
            version == self.spec_tx_version(),
    {
        match self {
            Network::Regtest => 3,
            Network::Signet => 2,
        }
    }

    /// Whether exits on this network carry a fee-anchor output.
    #[verifier::when_used_as_spec(spec_has_fee_anchor)]
    pub fn has_fee_anchor(self) -> (anchored: bool)
        ensures
            anchored == self.spec_has_fee_anchor(),
    {
        match self {
            Network::Regtest => true,
            Network::Signet => false,
        }
    }
}

} // verus!
