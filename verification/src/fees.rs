//! Fees: the child transaction that pays for a parent's confirmation, and the
//! shares of the funding transaction's fee.

use crate::config::{
    Network, AMOUNT_PER_USER, DEFAULT_FEE_RATE, DUST_AMOUNT, ENABLE_RBF_NO_LOCKTIME, FEE_AMOUNT,
    INIT_WALLET_AMOUNT_FEE, MAX_POOL_USERS,
};
use crate::error::PoolError;
use crate::script::{marker_script, spec_marker_script};
use crate::spend::{raw_transaction, spec_raw};
use crate::tx::{
    inputs_view, items_view, outputs_view, Address, OutPoint, Transaction, TransactionView, TxIn,
    TxInView, TxOut, TxOutView,
};
use vstd::prelude::*;

verus! {

/// The estimated size of a segwit input, in virtual bytes.
pub const INPUT_SIZE: u64 = 68;

/// The estimated size of a segwit output, in virtual bytes.
pub const OUTPUT_SIZE: u64 = 34;

/// The estimated size of what a transaction holds besides inputs and
/// outputs: version, lock time and the two counts.
pub const FIXED_OVERHEAD: u64 = 10;

/// The estimated size of a fee-bumping child, in virtual bytes.
pub const CHILD_TX_SIZE: u64 = 112;

/// The position of the fee anchor among the outputs of a withdrawal.
pub const ANCHOR_VOUT: u32 = 2;

/// The tag of the child's marker output.
pub const CHILD_MARKER: [u8; 12] = [
    0xe2, 0x9a, 0x93, 0x20, 0xf0, 0x9f, 0xa5, 0xaa, 0x20, 0xe2, 0x9a, 0x93,
];

/// The fee of a transaction of `size` virtual bytes at `fee_rate` satoshis
/// per 1000 virtual bytes, rounded down.
pub open spec fn spec_fee(fee_rate: u64, size: u64) -> int {
    fee_rate * size / 1000
}

/// The fee rate to go by: the node's estimate, or the default rate where the
/// node has none.
pub fn effective_fee_rate(estimate: Option<u64>) -> (fee_rate: u64)
    ensures
        fee_rate == match estimate {
            Some(rate) => rate,
            None => DEFAULT_FEE_RATE,
        },
{
    match estimate {
        Some(rate) => rate,
        None => DEFAULT_FEE_RATE,
    }
}

/// Computes the fee of a fee-bumping child at `fee_rate` satoshis per 1000
/// virtual bytes.
pub fn child_fee(fee_rate: u64) -> (fee: u64)
    ensures
        fee == spec_fee(fee_rate, CHILD_TX_SIZE),
{
    let product: u128 = (fee_rate as u128) * (CHILD_TX_SIZE as u128);
    (product / 1000) as u64
}

/// A spendable coin of the wallet.
#[derive(Clone, Copy, Debug, PartialEq, Eq)]
pub struct Utxo {
    pub outpoint: OutPoint,
    pub amount: u64,
}

/// Picks the coin that pays for the child: the first one that covers
/// `total_fee` by itself.
pub fn select_fee_coin(unspent: &[Utxo], total_fee: u64) -> (chosen: Option<usize>)
    ensures
        match chosen {
            Some(index) => index < unspent@.len() && unspent@[index as int].amount >= total_fee
                && forall|j: int| 0 <= j < index ==> unspent@[j].amount < total_fee,
            None => forall|j: int| 0 <= j < unspent@.len() ==> unspent@[j].amount < total_fee,
        },
{
    let mut i: usize = 0;
    while i < unspent.len()
        invariant
            i <= unspent.len(),
            forall|j: int| 0 <= j < i ==> unspent@[j].amount < total_fee,
        decreases unspent.len() - i,
    {
        if unspent[i].amount >= total_fee {
            return Some(i);
        }
        i = i + 1;
    }
    None
}

/// An input that spends `vout` of `txid`, replaceable and without witness.
pub open spec fn spec_plain_input(txid: Seq<u8>, vout: u32) -> TxInView {
    TxInView { txid, vout, sequence: ENABLE_RBF_NO_LOCKTIME, witness: Seq::empty() }
}

/// The child that bumps the fee of `parent_txid`: it spends the parent's fee
/// anchor and the coin, marks itself with a tagged output without value, and
/// returns all it spends but the fee to `change`. `InsufficientFunds` where
/// the coin does not cover the fee.
pub open spec fn spec_cpfp_child(
    network: Network,
    parent_txid: Seq<u8>,
    fee_rate: u64,
    coin_txid: Seq<u8>,
    coin_vout: u32,
    coin_amount: u64,
    change: Seq<u8>,
) -> Result<TransactionView, PoolError> {
    if coin_amount < spec_fee(fee_rate, CHILD_TX_SIZE) {
        Err(PoolError::InsufficientFunds)
    } else {
        Ok(
            TransactionView {
                version: network.spec_tx_version(),
                lock_time: 0,
                input: seq![
                    spec_plain_input(parent_txid, ANCHOR_VOUT),
                    spec_plain_input(coin_txid, coin_vout),
                ],
                output: seq![
                    TxOutView { value: 0, script_pubkey: spec_marker_script(CHILD_MARKER@) },
                    TxOutView {
                        value: (coin_amount + FEE_AMOUNT - spec_fee(fee_rate, CHILD_TX_SIZE)) as u64,
                        script_pubkey: change,
                    },
                ],
            },
        )
    }
}

/// Builds the unsigned child that raises the effective fee rate of
/// `parent_txid`: its inputs are the parent's fee anchor and `coin`, its
/// outputs a tagged marker without value and the change, which is all that
/// the inputs hold less the fee at `fee_rate`. The wallet signs it.
pub fn cpfp_child_tx(
    network: Network,
    parent_txid: [u8; 32],
    fee_rate: u64,
    coin: &Utxo,
    change_address: &Address,
) -> (child: Result<Transaction, PoolError>)
    requires
        coin.amount + FEE_AMOUNT <= u64::MAX,
    ensures
        match child {
            Ok(tx) => spec_cpfp_child(
                network,
                parent_txid@,
                fee_rate,
                coin.outpoint.txid@,
                coin.outpoint.vout,
                coin.amount,
                change_address@,
            ) == Ok::<TransactionView, PoolError>(tx@),
            Err(error) => spec_cpfp_child(
                network,
                parent_txid@,
                fee_rate,
                coin.outpoint.txid@,
                coin.outpoint.vout,
                coin.amount,
                change_address@,
            ) == Err::<TransactionView, PoolError>(error),
        },
{
    let total_fee = child_fee(fee_rate);
    if coin.amount < total_fee {
        return Err(PoolError::InsufficientFunds);
    }
    let op_return_script = match marker_script(CHILD_MARKER.as_slice()) {
        Some(op_return_script) => op_return_script,
        None => vstd::pervasive::unreached(),
    };
    let mut input: Vec<TxIn> = Vec::new();
    input.push(
        TxIn {
            previous_output: OutPoint { txid: parent_txid, vout: ANCHOR_VOUT },
            sequence: ENABLE_RBF_NO_LOCKTIME,
            witness: Vec::new(),
        },
    );
    input.push(
        TxIn { previous_output: coin.outpoint, sequence: ENABLE_RBF_NO_LOCKTIME, witness: Vec::new() },
    );
    let mut output: Vec<TxOut> = Vec::new();
    output.push(TxOut { value: 0, script_pubkey: op_return_script });
    output.push(
        TxOut {
            value: coin.amount + FEE_AMOUNT - total_fee,
            script_pubkey: change_address.script_pubkey(),
        },
    );
    proof {
        assert(items_view(Seq::<Vec<u8>>::empty()) =~= Seq::<Seq<u8>>::empty());
        assert(inputs_view(input@) =~= seq![
            spec_plain_input(parent_txid@, ANCHOR_VOUT),
            spec_plain_input(coin.outpoint.txid@, coin.outpoint.vout),
        ]);
        assert(outputs_view(output@) =~= seq![
            TxOutView { value: 0, script_pubkey: spec_marker_script(CHILD_MARKER@) },
            TxOutView {
                value: (coin.amount + FEE_AMOUNT - total_fee) as u64,
                script_pubkey: change_address@,
            },
        ]);
    }
    Ok(Transaction { version: network.tx_version(), lock_time: 0, input, output })
}

/// Builds the child as `cpfp_child_tx` does and serialises it: the text
/// returned is the unsigned raw transaction in hexadecimal.
pub fn cpfp_tx(
    network: Network,
    parent_txid: [u8; 32],
    fee_rate: u64,
    coin: &Utxo,
    change_address: &Address,
) -> (raw: Result<String, PoolError>)
    requires
        coin.amount + FEE_AMOUNT <= u64::MAX,
    ensures
        match raw {
            Ok(hex) => spec_raw(
                spec_cpfp_child(
                    network,
                    parent_txid@,
                    fee_rate,
                    coin.outpoint.txid@,
                    coin.outpoint.vout,
                    coin.amount,
                    change_address@,
                ),
            ) == Ok::<Seq<char>, PoolError>(hex@),
            Err(error) => spec_raw(
                spec_cpfp_child(
                    network,
                    parent_txid@,
                    fee_rate,
                    coin.outpoint.txid@,
                    coin.outpoint.vout,
                    coin.amount,
                    change_address@,
                ),
            ) == Err::<Seq<char>, PoolError>(error),
        },
{
    raw_transaction(cpfp_child_tx(network, parent_txid, fee_rate, coin, change_address))
}

/// The estimated size of the transaction that funds a pool of `num_users`
/// participants: one input and one change output each, and the pool's output.
pub open spec fn spec_funding_tx_size(num_users: nat) -> int {
    num_users * INPUT_SIZE + (num_users + 1) * OUTPUT_SIZE + FIXED_OVERHEAD
}

/// Each participant's share of the funding transaction's fee at `fee_rate`
/// satoshis per 1000 virtual bytes, rounded down.
pub open spec fn spec_fee_per_user(fee_rate: u64, num_users: nat) -> int {
    (fee_rate * spec_funding_tx_size(num_users) / 1000) / (num_users as int)
}

/// Computes each participant's share of the fee of the transaction that
/// funds a pool of `num_users` participants. There is no share where nobody
/// takes part, or more than a pool can hold.
pub fn fee_per_user(fee_rate: u64, num_users: usize) -> (share: Option<u64>)
    ensures
        match share {
            Some(fee) => 1 <= num_users <= MAX_POOL_USERS && fee == spec_fee_per_user(
                fee_rate,
                num_users as nat,
            ),
            None => num_users == 0 || num_users > MAX_POOL_USERS,
        },
{
    if num_users == 0 || num_users > MAX_POOL_USERS {
        return None;
    }
    let users = num_users as u128;
    let num_outputs = users + 1;
    let input_size = INPUT_SIZE as u128;
    let output_size = OUTPUT_SIZE as u128;
    let estimated_tx_size: u128 = users * input_size + num_outputs * output_size + (
    FIXED_OVERHEAD as u128);
    assert((fee_rate as u128) * estimated_tx_size <= 0xFFFF_FFFF_FFFF_FFFF * 6572) by (nonlinear_arith)
        requires
            fee_rate <= 0xFFFF_FFFF_FFFF_FFFF,
            estimated_tx_size <= 6572,
    ;
    let total_fee: u128 = (fee_rate as u128) * estimated_tx_size / 1000;
    let fee: u128 = total_fee / users;
    proof {
        lemma_share_fits(fee_rate, num_users as nat);
    }
    Some(fee as u64)
}

/// A participant's share of the funding fee is less than the fee rate.
proof fn lemma_share_fits(fee_rate: u64, num_users: nat)
    requires
        1 <= num_users <= MAX_POOL_USERS,
    ensures
        0 <= spec_fee_per_user(fee_rate, num_users) <= fee_rate,
{
    let size = spec_funding_tx_size(num_users);
    let total = fee_rate * size / 1000;
    assert(fee_rate * size <= fee_rate * (146 * num_users)) by (nonlinear_arith)
        requires
            size <= 146 * num_users,
            0 <= fee_rate,
    ;
    assert(fee_rate * (146 * num_users) <= 1000 * (fee_rate * num_users)) by (nonlinear_arith)
        requires
            0 <= fee_rate,
            0 <= num_users,
    ;
    assert(total / (num_users as int) <= fee_rate) by (nonlinear_arith)
        requires
            total <= fee_rate * num_users,
            num_users >= 1,
            total >= 0,
    ;
}

/// What a participant gets back from the coin of `amount` satoshis that it
/// brings to the funding transaction: all but its contribution and its share
/// of the fee. `InsufficientFunds` where the coin does not cover these and
/// the dust threshold.
pub fn funding_change(amount: u64, fee_per_user: u64) -> (change: Result<u64, PoolError>)
    ensures
        match change {
            Ok(rest) => amount >= AMOUNT_PER_USER + fee_per_user + DUST_AMOUNT && rest == amount
                - AMOUNT_PER_USER - fee_per_user,
            Err(error) => amount < AMOUNT_PER_USER + fee_per_user + DUST_AMOUNT && error
                == PoolError::InsufficientFunds,
        },
{
    let needed: u128 = (AMOUNT_PER_USER as u128) + (fee_per_user as u128) + (DUST_AMOUNT as u128);
    if (amount as u128) < needed {
        return Err(PoolError::InsufficientFunds);
    }
    Ok(amount - AMOUNT_PER_USER - fee_per_user)
}

/// What each participant's wallet is sent before the pool is funded: its
/// contribution and a reserve for its share of the fee.
pub fn init_wallet_amount() -> (amount: u64)
    ensures
        amount == AMOUNT_PER_USER + INIT_WALLET_AMOUNT_FEE,
{
    AMOUNT_PER_USER + INIT_WALLET_AMOUNT_FEE
}

/// Finds the outputs that fund the participants' wallets: the positions, in
/// order, of all amounts that are exactly `init_wallet_amount()`.
pub fn matching_vouts(amounts: &[u64]) -> (vouts: Vec<usize>)
    ensures
        forall|k: int|
            0 <= k < vouts@.len() ==> (#[trigger] vouts@[k]) < amounts@.len() && amounts@[vouts@[k] as int]
                == AMOUNT_PER_USER + INIT_WALLET_AMOUNT_FEE,
        forall|j: int, k: int| 0 <= j < k < vouts@.len() ==> vouts@[j] < vouts@[k],
        forall|i: int|
            0 <= i < amounts@.len() && #[trigger] amounts@[i] == AMOUNT_PER_USER + INIT_WALLET_AMOUNT_FEE
                ==> vouts@.contains(i as usize),
{
    let wanted = init_wallet_amount();
    let mut vouts: Vec<usize> = Vec::new();
    let mut i: usize = 0;
    while i < amounts.len()
        invariant
            i <= amounts.len(),
            wanted == AMOUNT_PER_USER + INIT_WALLET_AMOUNT_FEE,
            forall|k: int|
                0 <= k < vouts@.len() ==> (#[trigger] vouts@[k]) < i && amounts@[vouts@[k] as int]
                    == wanted,
            forall|j: int, k: int| 0 <= j < k < vouts@.len() ==> vouts@[j] < vouts@[k],
            forall|j: int|
                0 <= j < i && #[trigger] amounts@[j] == wanted ==> vouts@.contains(j as usize),
        decreases amounts.len() - i,
    {
        if amounts[i] == wanted {
            let ghost before = vouts@;
            vouts.push(i);
            proof {
                assert(vouts@[before.len() as int] == i);
                assert forall|j: int| 0 <= j < i + 1 && #[trigger] amounts@[j] == wanted implies vouts@.contains(
                    j as usize,
                ) by {
                    if j < i {
                        let k = choose|k: int| 0 <= k < before.len() && before[k] == j as usize;
                        assert(vouts@[k] == j as usize);
                    }
                }
            }
        }
        i = i + 1;
    }
    vouts
}

/// What the output that funds a pool of `size` participants holds: one
/// contribution each.
pub fn pool_amount(size: usize) -> (amount: u64)
    requires
        size * AMOUNT_PER_USER <= u64::MAX,
    ensures
        amount == size * AMOUNT_PER_USER,
{
    (size as u64) * AMOUNT_PER_USER
}

} // verus!
