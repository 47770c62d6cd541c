//! The spend chain: the transactions that let the participants leave one
//! after the other, each redeeming one leaf of the tree that locks the funds.

use crate::config::{Network, AMOUNT_PER_USER, ENABLE_RBF_NO_LOCKTIME, MAX_POOL_USERS, MIN_POOL_USERS};
use crate::ctv_scripts::{calc_ctv_hash, spec_ctv_hash, spec_withdraw_outputs, withdraw_outputs};
use crate::error::PoolError;
use crate::ladder::{is_ladder, lemma_rung_tree, pools_view, rung_leaf_hashes, PoolView};
use crate::participants::is_participant_set;
use crate::pools::{
    addresses_view, exit_amount, exit_leaf_hashes, pool_leaf_hashes, spec_exit_amount, Pool,
};
use crate::tree::{spec_spend_ctv, spec_tree_script, spend_ctv, LockingTreeView};
use crate::tx::{
    compute_txid, inputs_view, outputs_view, serialize_hex, transaction_hex, transaction_txid,
    Address, OutPoint, Transaction, TransactionView, TxIn, TxInView, TxOut, TxOutView,
};
use vstd::prelude::*;

verus! {

/// The transaction that spends one output into `outputs`, before its witness
/// is filled in: the network's version, no lock time, a replaceable input.
pub open spec fn spec_unsigned_tx(
    network: Network,
    previous_txid: Seq<u8>,
    vout: u32,
    outputs: Seq<TxOutView>,
) -> TransactionView {
    TransactionView {
        version: network.spec_tx_version(),
        lock_time: 0,
        input: seq![
            TxInView {
                txid: previous_txid,
                vout,
                sequence: ENABLE_RBF_NO_LOCKTIME,
                witness: Seq::empty(),
            },
        ],
        output: outputs,
    }
}

/// Builds the transaction that spends output `vout` of `previous_txid` into
/// `outputs`, with an empty witness.
pub fn unsigned_tx(network: Network, previous_txid: [u8; 32], vout: u32, outputs: Vec<TxOut>) -> (tx:
    Transaction)
    ensures
        tx@ == spec_unsigned_tx(network, previous_txid@, vout, outputs_view(outputs@)),
{
    let mut input: Vec<TxIn> = Vec::new();
    input.push(
        TxIn {
            previous_output: OutPoint { txid: previous_txid, vout },
            sequence: ENABLE_RBF_NO_LOCKTIME,
            witness: Vec::new(),
        },
    );
    proof {
        assert(crate::tx::items_view(Seq::<Vec<u8>>::empty()) =~= Seq::<Seq<u8>>::empty());
        assert(inputs_view(input@) =~= spec_unsigned_tx(
            network,
            previous_txid@,
            vout,
            outputs_view(outputs@),
        ).input);
    }
    Transaction { version: network.tx_version(), lock_time: 0, input, output: outputs }
}

/// The transaction that spends the output locked by `tree`, through the leaf
/// that commits to exactly `outputs`; `MissingLeaf` where the tree has no
/// such leaf.
pub open spec fn spec_leaf_spend(
    network: Network,
    tree: LockingTreeView,
    outputs: Seq<TxOutView>,
    previous_txid: Seq<u8>,
    vout: u32,
) -> Result<TransactionView, PoolError> {
    let hash = spec_ctv_hash(network, outputs, None);
    if tree.leaf_hashes.contains(hash) {
        Ok(spec_spend_ctv(spec_unsigned_tx(network, previous_txid, vout, outputs), tree, hash))
    } else {
        Err(PoolError::MissingLeaf)
    }
}

/// Builds the transaction that spends output `vout` of `previous_txid`,
/// locked by `tree`, into `outputs`, and completes its witness with the leaf
/// that commits to these outputs.
pub fn leaf_spend(
    network: Network,
    tree: &crate::tree::LockingTree,
    outputs: Vec<TxOut>,
    previous_txid: [u8; 32],
    vout: u32,
) -> (spend: Result<Transaction, PoolError>)
    ensures
        match spend {
            Ok(tx) => spec_leaf_spend(network, tree@, outputs_view(outputs@), previous_txid@, vout)
                == Ok::<TransactionView, PoolError>(tx@),
            Err(error) => spec_leaf_spend(
                network,
                tree@,
                outputs_view(outputs@),
                previous_txid@,
                vout,
            ) == Err::<TransactionView, PoolError>(error),
        },
{
    let hash = calc_ctv_hash(outputs.as_slice(), None, network);
    let unsigned = unsigned_tx(network, previous_txid, vout, outputs);
    spend_ctv(unsigned, tree, hash)
}

/// The withdrawal that lets one participant leave to `withdraw` while
/// `pool_exit_amount` re-locks into the tree of `pool_combo` on rung
/// `pool_num`; it spends the tree of `previous_pool_combo` on the rung above.
pub open spec fn spec_withdrawal(
    rungs: Seq<PoolView>,
    network: Network,
    pool_num: int,
    pool_combo: Seq<usize>,
    withdraw: Seq<u8>,
    anchor: Seq<u8>,
    pool_exit_amount: u64,
    previous_txid: Seq<u8>,
    previous_pool_combo: Seq<usize>,
    vout: u32,
) -> Result<TransactionView, PoolError> {
    if !(0 <= pool_num < rungs.len() && rungs[pool_num].contains_key(pool_combo)) {
        Err(PoolError::MissingSubpool)
    } else if !(pool_num + 1 < rungs.len() && rungs[pool_num + 1].contains_key(previous_pool_combo)) {
        Err(PoolError::MissingLeaf)
    } else {
        spec_leaf_spend(
            network,
            rungs[pool_num + 1][previous_pool_combo],
            spec_withdraw_outputs(
                network,
                spec_tree_script(rungs[pool_num][pool_combo]),
                withdraw,
                anchor,
                pool_exit_amount,
            ),
            previous_txid,
            vout,
        )
    }
}

/// Builds the withdrawal out of the pool on rung `pool_num + 1`: one input
/// spending output `vout` of `previous_txid`, which the tree of
/// `previous_pool_combo` locks; `pool_exit_amount` paid to the tree of
/// `pool_combo` on rung `pool_num`, and one contribution less the fee paid to
/// `withdraw_address`. The witness redeems the leaf that commits to exactly
/// these outputs.
pub fn withdrawal_tx(
    pools: &[Pool],
    network: Network,
    pool_num: usize,
    pool_combo: &Vec<usize>,
    withdraw_address: &Address,
    anchor_addr: &Address,
    pool_exit_amount: u64,
    previous_txid: [u8; 32],
    previous_pool_combo: &Vec<usize>,
    vout: u32,
) -> (withdrawal: Result<Transaction, PoolError>)
    ensures
        match withdrawal {
            Ok(tx) => spec_withdrawal(
                pools_view(pools@),
                network,
                pool_num as int,
                pool_combo@,
                withdraw_address@,
                anchor_addr@,
                pool_exit_amount,
                previous_txid@,
                previous_pool_combo@,
                vout,
            ) == Ok::<TransactionView, PoolError>(tx@),
            Err(error) => spec_withdrawal(
                pools_view(pools@),
                network,
                pool_num as int,
                pool_combo@,
                withdraw_address@,
                anchor_addr@,
                pool_exit_amount,
                previous_txid@,
                previous_pool_combo@,
                vout,
            ) == Err::<TransactionView, PoolError>(error),
        },
{
    if pool_num >= pools.len() {
        return Err(PoolError::MissingSubpool);
    }
    proof {
        assert(pools_view(pools@)[pool_num as int] == pools@[pool_num as int]@);
    }
    let recipient = match pools[pool_num].get(pool_combo) {
        Some(recipient) => recipient,
        None => {
            return Err(PoolError::MissingSubpool);
        },
    };
    if pool_num + 1 >= pools.len() {
        return Err(PoolError::MissingLeaf);
    }
    proof {
        assert(pools_view(pools@)[pool_num + 1] == pools@[pool_num + 1]@);
    }
    let previous = match pools[pool_num + 1].get(previous_pool_combo) {
        Some(previous) => previous,
        None => {
            return Err(PoolError::MissingLeaf);
        },
    };
    let pool_address = recipient.address();
    let tx_out = withdraw_outputs(
        &pool_address,
        withdraw_address,
        anchor_addr,
        pool_exit_amount,
        network,
    );
    leaf_spend(network, previous, tx_out, previous_txid, vout)
}

/// The raw form of an assembled transaction: its hexadecimal serialisation,
/// or the error that stopped the assembly.
pub open spec fn spec_raw(assembled: Result<TransactionView, PoolError>) -> Result<Seq<char>, PoolError> {
    match assembled {
        Ok(tx) => Ok(transaction_hex(tx)),
        Err(error) => Err(error),
    }
}

/// Serialises an assembled transaction, and hands an error on.
pub fn raw_transaction(assembled: Result<Transaction, PoolError>) -> (raw: Result<String, PoolError>)
    ensures
        match raw {
            Ok(hex) => assembled matches Ok(tx) && hex@ == transaction_hex(tx@),
            Err(error) => assembled == Err::<Transaction, PoolError>(error),
        },
{
    match assembled {
        Ok(tx) => Ok(serialize_hex(&tx)),
        Err(error) => Err(error),
    }
}

/// Builds the withdrawal as `withdrawal_tx` does and serialises it: the text
/// returned is the raw transaction in hexadecimal, ready to be broadcast.
pub fn send_from_pool(
    pools: &[Pool],
    network: Network,
    pool_num: usize,
    pool_combo: Vec<usize>,
    withdraw_address: Address,
    anchor_addr: &Address,
    pool_exit_amount: u64,
    previous_txid: [u8; 32],
    previous_pool_combo: Vec<usize>,
    vout: u32,
) -> (raw: Result<String, PoolError>)
    ensures
        match raw {
            Ok(hex) => spec_raw(
                spec_withdrawal(
                    pools_view(pools@),
                    network,
                    pool_num as int,
                    pool_combo@,
                    withdraw_address@,
                    anchor_addr@,
                    pool_exit_amount,
                    previous_txid@,
                    previous_pool_combo@,
                    vout,
                ),
            ) == Ok::<Seq<char>, PoolError>(hex@),
            Err(error) => spec_raw(
                spec_withdrawal(
                    pools_view(pools@),
                    network,
                    pool_num as int,
                    pool_combo@,
                    withdraw_address@,
                    anchor_addr@,
                    pool_exit_amount,
                    previous_txid@,
                    previous_pool_combo@,
                    vout,
                ),
            ) == Err::<Seq<char>, PoolError>(error),
        },
{
    raw_transaction(
        withdrawal_tx(
            pools,
            network,
            pool_num,
            &pool_combo,
            &withdraw_address,
            anchor_addr,
            pool_exit_amount,
            previous_txid,
            &previous_pool_combo,
            vout,
        ),
    )
}

/// The participants `first..n`, in order: who remains once the participants
/// before `first` have left.
pub open spec fn remaining_from(first: nat, n: nat) -> Seq<usize> {
    Seq::new(
        if first <= n {
            (n - first) as nat
        } else {
            0
        },
        |i: int| (first + i) as usize,
    )
}

/// Lists the participants `first..n`, in order.
pub fn remaining_participants(first: usize, n: usize) -> (members: Vec<usize>)
    ensures
        members@ == remaining_from(first as nat, n as nat),
{
    let mut members: Vec<usize> = Vec::new();
    let mut i: usize = first;
    while i < n
        invariant
            first <= i <= n || (n < first && i == first),
            members@ == remaining_from(first as nat, if i <= n { i as nat } else { first as nat }),
        decreases n - i,
    {
        members.push(i);
        assert(members@ =~= remaining_from(first as nat, (i + 1) as nat));
        i = i + 1;
    }
    proof {
        if n < first {
            assert(remaining_from(first as nat, first as nat) =~= remaining_from(
                first as nat,
                n as nat,
            ));
        }
    }
    members
}

/// The final payout: the last two participants are paid directly, the first
/// of them a whole contribution and the last one less the fee. It spends the
/// exit tree of the pair on the lowest rung.
pub open spec fn spec_final_exit(
    rungs: Seq<PoolView>,
    network: Network,
    pair: Seq<usize>,
    first: Seq<u8>,
    last: Seq<u8>,
    previous_txid: Seq<u8>,
    vout: u32,
    anchor: Seq<u8>,
) -> Result<TransactionView, PoolError> {
    if !(rungs.len() > 0 && rungs[0].contains_key(pair)) {
        Err(PoolError::MissingLeaf)
    } else {
        spec_leaf_spend(
            network,
            rungs[0][pair],
            spec_withdraw_outputs(network, first, last, anchor, AMOUNT_PER_USER),
            previous_txid,
            vout,
        )
    }
}

/// Assembles the final payout of the pair `pair`: a whole contribution to
/// `first`, one less the fee to `last`, spent out of the pair's exit tree on
/// the lowest rung.
pub fn final_exit_tx(
    pools: &[Pool],
    network: Network,
    pair: &Vec<usize>,
    first: &Address,
    last: &Address,
    previous_txid: [u8; 32],
    vout: u32,
    anchor_addr: &Address,
) -> (spend: Result<Transaction, PoolError>)
    ensures
        match spend {
            Ok(tx) => spec_final_exit(
                pools_view(pools@),
                network,
                pair@,
                first@,
                last@,
                previous_txid@,
                vout,
                anchor_addr@,
            ) == Ok::<TransactionView, PoolError>(tx@),
            Err(error) => spec_final_exit(
                pools_view(pools@),
                network,
                pair@,
                first@,
                last@,
                previous_txid@,
                vout,
                anchor_addr@,
            ) == Err::<TransactionView, PoolError>(error),
        },
{
    if pools.len() == 0 {
        return Err(PoolError::MissingLeaf);
    }
    proof {
        assert(pools_view(pools@)[0] == pools@[0]@);
    }
    let exit_tree = match pools[0].get(pair) {
        Some(exit_tree) => exit_tree,
        None => {
            return Err(PoolError::MissingLeaf);
        },
    };
    let last_pool_tx_out = withdraw_outputs(first, last, anchor_addr, AMOUNT_PER_USER, network);
    leaf_spend(network, exit_tree, last_pool_tx_out, previous_txid, vout)
}

/// Step `spender_index` of the walk in which the participants leave in the
/// order of their indices: the withdrawal of participant `spender_index`
/// while more than two remain, and the final payout of the last two.
pub open spec fn spec_pool_spend(
    rungs: Seq<PoolView>,
    network: Network,
    spender_index: nat,
    addresses: Seq<Seq<u8>>,
    previous_txid: Seq<u8>,
    vout: u32,
    anchor: Seq<u8>,
) -> Result<TransactionView, PoolError> {
    let n = addresses.len();
    if n < MIN_POOL_USERS {
        Err(PoolError::TooFewParticipants)
    } else if n > MAX_POOL_USERS {
        Err(PoolError::TooManyParticipants)
    } else if spender_index > n - 2 {
        Err(PoolError::WalkFinished)
    } else if spender_index == n - 2 {
        spec_final_exit(
            rungs,
            network,
            remaining_from((n - 2) as nat, n),
            addresses[n - 2],
            addresses[n - 1],
            previous_txid,
            vout,
            anchor,
        )
    } else if rungs.len() < spender_index + 2 {
        Err(PoolError::MissingSubpool)
    } else {
        spec_withdrawal(
            rungs,
            network,
            rungs.len() - 2 - spender_index,
            remaining_from(spender_index + 1, n),
            addresses[spender_index as int],
            anchor,
            spec_exit_amount((n - spender_index) as nat),
            previous_txid,
            remaining_from(spender_index, n),
            vout,
        )
    }
}

/// Assembles the transaction of step `spender_index` of the walk: while more
/// than two participants remain, the withdrawal of the lowest of them, which
/// re-locks the funds of the others one rung down; at the last step the
/// payout of the two who remain. It spends output `vout` of `previous_txid`.
pub fn pool_spend_tx(
    pools: &[Pool],
    network: Network,
    spender_index: usize,
    addresses: &[Address],
    previous_txid: [u8; 32],
    vout: u32,
    anchor_addr: &Address,
) -> (spend: Result<Transaction, PoolError>)
    ensures
        match spend {
            Ok(tx) => spec_pool_spend(
                pools_view(pools@),
                network,
                spender_index as nat,
                addresses_view(addresses@),
                previous_txid@,
                vout,
                anchor_addr@,
            ) == Ok::<TransactionView, PoolError>(tx@),
            Err(error) => spec_pool_spend(
                pools_view(pools@),
                network,
                spender_index as nat,
                addresses_view(addresses@),
                previous_txid@,
                vout,
                anchor_addr@,
            ) == Err::<TransactionView, PoolError>(error),
        },
{
    let num_users = addresses.len();
    if num_users < MIN_POOL_USERS {
        return Err(PoolError::TooFewParticipants);
    }
    if num_users > MAX_POOL_USERS {
        return Err(PoolError::TooManyParticipants);
    }
    if spender_index > num_users - 2 {
        return Err(PoolError::WalkFinished);
    }
    if spender_index == num_users - 2 {
        let last_index = num_users - 1;
        let second_last_index = last_index - 1;
        let pair = remaining_participants(second_last_index, num_users);
        return final_exit_tx(
            pools,
            network,
            &pair,
            &addresses[second_last_index],
            &addresses[last_index],
            previous_txid,
            vout,
            anchor_addr,
        );
    }
    if pools.len() < spender_index + 2 {
        return Err(PoolError::MissingSubpool);
    }
    let pool_exit_amount = exit_amount(num_users - spender_index);
    let recipient_pool = remaining_participants(spender_index + 1, num_users);
    let previous_pool = remaining_participants(spender_index, num_users);
    let pool_num = pools.len() - 2 - spender_index;
    withdrawal_tx(
        pools,
        network,
        pool_num,
        &recipient_pool,
        &addresses[spender_index],
        anchor_addr,
        pool_exit_amount,
        previous_txid,
        &previous_pool,
        vout,
    )
}

/// Assembles the transaction of step `spender_index` as `pool_spend_tx` does
/// and serialises it: the text returned is the raw transaction in
/// hexadecimal, ready to be broadcast.
pub fn process_pool_spend(
    pools: &[Pool],
    network: Network,
    spender_index: usize,
    addresses: &[Address],
    previous_txid: [u8; 32],
    vout: u32,
    anchor_addr: &Address,
) -> (raw: Result<String, PoolError>)
    ensures
        match raw {
            Ok(hex) => spec_raw(
                spec_pool_spend(
                    pools_view(pools@),
                    network,
                    spender_index as nat,
                    addresses_view(addresses@),
                    previous_txid@,
                    vout,
                    anchor_addr@,
                ),
            ) == Ok::<Seq<char>, PoolError>(hex@),
            Err(error) => spec_raw(
                spec_pool_spend(
                    pools_view(pools@),
                    network,
                    spender_index as nat,
                    addresses_view(addresses@),
                    previous_txid@,
                    vout,
                    anchor_addr@,
                ),
            ) == Err::<Seq<char>, PoolError>(error),
        },
{
    raw_transaction(
        pool_spend_tx(pools, network, spender_index, addresses, previous_txid, vout, anchor_addr),
    )
}

/// Finds the output that holds the funds of a pool: the first one whose
/// amount is `pool_amount`.
pub fn find_funding_vout(outputs: &[TxOut], pool_amount: u64) -> (vout: Option<u32>)
    ensures
        match vout {
            Some(index) => index < outputs@.len() && outputs@[index as int].value == pool_amount
                && forall|j: int| 0 <= j < index ==> outputs@[j].value != pool_amount,
            None => forall|j: int|
                0 <= j < outputs@.len() && j <= u32::MAX ==> outputs@[j].value != pool_amount,
        },
{
    let mut i: usize = 0;
    while i < outputs.len() && i <= u32::MAX as usize
        invariant
            i <= outputs.len(),
            forall|j: int| 0 <= j < i ==> outputs@[j].value != pool_amount,
        decreases outputs.len() - i,
    {
        if outputs[i].value == pool_amount {
            return Some(i as u32);
        }
        i = i + 1;
    }
    None
}

/// The participants `first..n` are a canonical set of `n - first` of the
/// participants `0..n`.
proof fn lemma_remaining_is_set(first: nat, n: nat)
    requires
        first <= n <= usize::MAX,
    ensures
        is_participant_set(remaining_from(first, n), n, (n - first) as nat),
{
}

/// The outputs of step `spender_index` of the walk over a whole ladder: the
/// payout of the last two at the last step; before it, the funds of those
/// who remain, one contribution each, re-locked one rung down, and what the
/// participant `spender_index` leaves with.
pub open spec fn spec_step_outputs(
    rungs: Seq<PoolView>,
    network: Network,
    spender_index: nat,
    addresses: Seq<Seq<u8>>,
    anchor: Seq<u8>,
) -> Seq<TxOutView> {
    let n = addresses.len();
    if spender_index == n - 2 {
        spec_withdraw_outputs(network, addresses[n - 2], addresses[n - 1], anchor, AMOUNT_PER_USER)
    } else {
        spec_withdraw_outputs(
            network,
            spec_tree_script(
                rungs[n - 3 - spender_index][remaining_from(spender_index + 1, n)],
            ),
            addresses[spender_index as int],
            anchor,
            spec_exit_amount((n - spender_index) as nat),
        )
    }
}

/// The tree that locks the funds before step `spender_index` of the walk:
/// the tree of the participants from `spender_index` on.
pub open spec fn spec_step_tree(rungs: Seq<PoolView>, spender_index: nat, n: nat) -> LockingTreeView {
    rungs[n - 2 - spender_index][remaining_from(spender_index, n)]
}

/// On a whole ladder, the hash that a step computes when it spends is the
/// first leaf of the tree that locks the funds.
proof fn lemma_step_leaf(
    rungs: Seq<PoolView>,
    network: Network,
    spender_index: nat,
    addresses: Seq<Seq<u8>>,
    anchor: Seq<u8>,
)
    requires
        is_ladder(rungs, network, addresses, anchor),
        MIN_POOL_USERS <= addresses.len() <= MAX_POOL_USERS,
        spender_index <= addresses.len() - 2,
    ensures
        rungs[addresses.len() - 2 - spender_index].contains_key(
            remaining_from(spender_index, addresses.len()),
        ),
        spender_index < addresses.len() - 2 ==> rungs[addresses.len() - 3
            - spender_index].contains_key(remaining_from(spender_index + 1, addresses.len())),
        spec_step_tree(rungs, spender_index, addresses.len()).leaf_hashes.len() > 0,
        spec_step_tree(rungs, spender_index, addresses.len()).leaf_hashes[0] == spec_ctv_hash(
            network,
            spec_step_outputs(rungs, network, spender_index, addresses, anchor),
            None,
        ),
{
    let n = addresses.len();
    let j = n - 2 - spender_index;
    let previous = remaining_from(spender_index, n);
    lemma_remaining_is_set(spender_index, n);
    lemma_rung_tree(rungs, network, addresses, anchor, j, previous);
    let hashes = rung_leaf_hashes(rungs.take(j), network, addresses, anchor, previous);
    if j == 0 {
        assert(hashes == exit_leaf_hashes(network, addresses, anchor, previous));
    } else {
        let recipient = remaining_from(spender_index + 1, n);
        lemma_remaining_is_set(spender_index + 1, n);
        lemma_rung_tree(rungs, network, addresses, anchor, j - 1, recipient);
        assert(rungs.take(j).last() == rungs[j - 1]);
        assert(previous.remove(0) =~= recipient);
        assert(hashes == pool_leaf_hashes(network, rungs[j - 1], addresses, anchor, previous));
        assert(hashes[0] == crate::pools::pool_leaf_hash(
            network,
            rungs[j - 1],
            addresses,
            anchor,
            previous,
            0,
        ));
    }
}

/// On a whole ladder, every step of the walk can be taken: the hash that a
/// step computes when it spends is a leaf of the tree that was built, so no
/// step fails for want of a pool or of a leaf. The transaction of step
/// `spender_index` spends the given output through that leaf; it re-locks
/// one contribution for each participant after `spender_index` into the tree
/// of exactly these participants, one rung down, and accounts, fee included,
/// for one contribution per participant from `spender_index` on. So the set
/// that is locked shrinks by one participant per step, lowest first.
pub proof fn lemma_walk_step_succeeds(
    rungs: Seq<PoolView>,
    network: Network,
    spender_index: nat,
    addresses: Seq<Seq<u8>>,
    previous_txid: Seq<u8>,
    vout: u32,
    anchor: Seq<u8>,
)
    requires
        is_ladder(rungs, network, addresses, anchor),
        MIN_POOL_USERS <= addresses.len() <= MAX_POOL_USERS,
        spender_index <= addresses.len() - 2,
    ensures
        spec_pool_spend(rungs, network, spender_index, addresses, previous_txid, vout, anchor)
            == Ok::<TransactionView, PoolError>(
            spec_spend_ctv(
                spec_unsigned_tx(
                    network,
                    previous_txid,
                    vout,
                    spec_step_outputs(rungs, network, spender_index, addresses, anchor),
                ),
                spec_step_tree(rungs, spender_index, addresses.len()),
                spec_ctv_hash(
                    network,
                    spec_step_outputs(rungs, network, spender_index, addresses, anchor),
                    None,
                ),
            ),
        ),
        spender_index < addresses.len() - 2 ==> spec_step_outputs(
            rungs,
            network,
            spender_index,
            addresses,
            anchor,
        )[0] == (TxOutView {
            value: ((addresses.len() - spender_index - 1) * AMOUNT_PER_USER) as u64,
            script_pubkey: spec_tree_script(
                rungs[addresses.len() - 3 - spender_index][remaining_from(
                    spender_index + 1,
                    addresses.len(),
                )],
            ),
        }),
        crate::ctv_scripts::committed_total(
            network,
            spec_step_outputs(rungs, network, spender_index, addresses, anchor),
        ) == (addresses.len() - spender_index) * AMOUNT_PER_USER,
{
    let n = addresses.len();
    lemma_step_leaf(rungs, network, spender_index, addresses, anchor);
    lemma_spend_through_leaf(rungs, network, spender_index, addresses, previous_txid, vout, anchor);
    if spender_index == n - 2 {
        crate::ctv_scripts::lemma_withdraw_total(
            network,
            addresses[n - 2],
            addresses[n - 1],
            anchor,
            AMOUNT_PER_USER,
        );
    } else {
        crate::ctv_scripts::lemma_withdraw_total(
            network,
            spec_tree_script(rungs[n - 3 - spender_index][remaining_from(spender_index + 1, n)]),
            addresses[spender_index as int],
            anchor,
            spec_exit_amount((n - spender_index) as nat),
        );
    }
}

/// Where the pools that a step looks up are there and the tree to be spent
/// has the leaf that the step computes, the step gives the transaction that
/// spends through that leaf.
proof fn lemma_spend_through_leaf(
    rungs: Seq<PoolView>,
    network: Network,
    spender_index: nat,
    addresses: Seq<Seq<u8>>,
    previous_txid: Seq<u8>,
    vout: u32,
    anchor: Seq<u8>,
)
    requires
        rungs.len() == addresses.len() - 1,
        MIN_POOL_USERS <= addresses.len() <= MAX_POOL_USERS,
        spender_index <= addresses.len() - 2,
        rungs[addresses.len() - 2 - spender_index].contains_key(
            remaining_from(spender_index, addresses.len()),
        ),
        spender_index < addresses.len() - 2 ==> rungs[addresses.len() - 3
            - spender_index].contains_key(remaining_from(spender_index + 1, addresses.len())),
        spec_step_tree(rungs, spender_index, addresses.len()).leaf_hashes.len() > 0,
        spec_step_tree(rungs, spender_index, addresses.len()).leaf_hashes[0] == spec_ctv_hash(
            network,
            spec_step_outputs(rungs, network, spender_index, addresses, anchor),
            None,
        ),
    ensures
        spec_pool_spend(rungs, network, spender_index, addresses, previous_txid, vout, anchor)
            == Ok::<TransactionView, PoolError>(
            spec_spend_ctv(
                spec_unsigned_tx(
                    network,
                    previous_txid,
                    vout,
                    spec_step_outputs(rungs, network, spender_index, addresses, anchor),
                ),
                spec_step_tree(rungs, spender_index, addresses.len()),
                spec_ctv_hash(
                    network,
                    spec_step_outputs(rungs, network, spender_index, addresses, anchor),
                    None,
                ),
            ),
        ),
        spender_index < addresses.len() - 2 ==> spec_step_outputs(
            rungs,
            network,
            spender_index,
            addresses,
            anchor,
        )[0] == (TxOutView {
            value: ((addresses.len() - spender_index - 1) * AMOUNT_PER_USER) as u64,
            script_pubkey: spec_tree_script(
                rungs[addresses.len() - 3 - spender_index][remaining_from(
                    spender_index + 1,
                    addresses.len(),
                )],
            ),
        }),
{
    let n = addresses.len();
    let outputs = spec_step_outputs(rungs, network, spender_index, addresses, anchor);
    let tree = spec_step_tree(rungs, spender_index, n);
    let hash = spec_ctv_hash(network, outputs, None);
    assert(tree.leaf_hashes.contains(hash)) by {
        assert(tree.leaf_hashes[0] == hash);
    }
    assert(spec_leaf_spend(network, tree, outputs, previous_txid, vout) == Ok::<
        TransactionView,
        PoolError,
    >(spec_spend_ctv(spec_unsigned_tx(network, previous_txid, vout, outputs), tree, hash)));
}

/// One state of the walk: the output that holds the funds of those who are
/// still inside, who they are, and how many have left.
#[derive(Clone, Debug, PartialEq, Eq)]
pub struct SpendStep {
    pub funding: OutPoint,
    pub remaining: Vec<usize>,
    pub step_index: usize,
}

/// A state of the walk, as a mathematical value.
pub ghost struct SpendStepView {
    pub funding_txid: Seq<u8>,
    pub funding_vout: u32,
    pub remaining: Seq<usize>,
    pub step_index: nat,
}

impl View for SpendStep {
    type V = SpendStepView;

    open spec fn view(&self) -> SpendStepView {
        SpendStepView {
            funding_txid: self.funding.txid@,
            funding_vout: self.funding.vout,
            remaining: self.remaining@,
            step_index: self.step_index as nat,
        }
    }
}

/// Who remains after the transaction of a state is broadcast: all but the
/// lowest while more than two remain, and nobody once the last two are paid.
pub open spec fn spec_remaining_after(remaining: Seq<usize>) -> Seq<usize> {
    if remaining.len() > 2 {
        remaining.drop_first()
    } else {
        Seq::empty()
    }
}

impl SpendStep {
    /// The state before anybody has left: all `num_users` participants
    /// remain, and `funding` holds the funds of the whole group.
    pub fn start(funding: OutPoint, num_users: usize) -> (state: SpendStep)
        ensures
            state@.funding_txid == funding.txid@,
            state@.funding_vout == funding.vout,
            state@.remaining == remaining_from(0, num_users as nat),
            state@.step_index == 0,
    {
        SpendStep { funding, remaining: remaining_participants(0, num_users), step_index: 0 }
    }

    /// The participant who leaves next: the lowest of those who remain.
    pub fn exiting_participant(&self) -> (exiting: Option<usize>)
        ensures
            exiting == if self@.remaining.len() > 0 {
                Some(self@.remaining[0])
            } else {
                None
            },
    {
        if self.remaining.len() > 0 {
            Some(self.remaining[0])
        } else {
            None
        }
    }

    /// The state after this state's transaction was broadcast and `funding`
    /// is the output that now holds the funds of those who remain.
    pub fn advance(&self, funding: OutPoint) -> (next: SpendStep)
        requires
            self@.step_index < usize::MAX,
        ensures
            next@.funding_txid == funding.txid@,
            next@.funding_vout == funding.vout,
            next@.remaining == spec_remaining_after(self@.remaining),
            next@.step_index == self@.step_index + 1,
    {
        let remaining = if self.remaining.len() > 2 {
            let rest = crate::participants::remove_member(&self.remaining, 0);
            assert(rest@ =~= self@.remaining.drop_first());
            rest
        } else {
            Vec::new()
        };
        SpendStep { funding, remaining, step_index: self.step_index + 1 }
    }
}

/// The transaction of a state of the walk: while more than two participants
/// remain, the lowest of them leaves and the funds of the others re-lock one
/// rung down; the last two are paid out directly.
pub open spec fn spec_next_spend(
    rungs: Seq<PoolView>,
    network: Network,
    addresses: Seq<Seq<u8>>,
    anchor: Seq<u8>,
    state: SpendStepView,
) -> Result<TransactionView, PoolError> {
    let remaining = state.remaining;
    if addresses.len() < MIN_POOL_USERS {
        Err(PoolError::TooFewParticipants)
    } else if addresses.len() > MAX_POOL_USERS {
        Err(PoolError::TooManyParticipants)
    } else if remaining.len() < 2 {
        Err(PoolError::WalkFinished)
    } else if remaining.len() > MAX_POOL_USERS || remaining[0] >= addresses.len() || remaining[1]
        >= addresses.len() {
        Err(PoolError::MissingLeaf)
    } else if remaining.len() == 2 {
        spec_final_exit(
            rungs,
            network,
            remaining,
            addresses[remaining[0] as int],
            addresses[remaining[1] as int],
            state.funding_txid,
            state.funding_vout,
            anchor,
        )
    } else {
        spec_withdrawal(
            rungs,
            network,
            remaining.len() - 3,
            remaining.remove(0),
            addresses[remaining[0] as int],
            anchor,
            spec_exit_amount(remaining.len()),
            state.funding_txid,
            remaining,
            state.funding_vout,
        )
    }
}

/// Assembles the transaction of one state of the walk, out of the ladder and
/// the state alone.
pub fn next_spend_tx(
    pools: &[Pool],
    network: Network,
    addresses: &[Address],
    anchor_addr: &Address,
    state: &SpendStep,
) -> (spend: Result<Transaction, PoolError>)
    ensures
        match spend {
            Ok(tx) => spec_next_spend(
                pools_view(pools@),
                network,
                addresses_view(addresses@),
                anchor_addr@,
                state@,
            ) == Ok::<TransactionView, PoolError>(tx@),
            Err(error) => spec_next_spend(
                pools_view(pools@),
                network,
                addresses_view(addresses@),
                anchor_addr@,
                state@,
            ) == Err::<TransactionView, PoolError>(error),
        },
{
    let num_users = addresses.len();
    let remaining = &state.remaining;
    if num_users < MIN_POOL_USERS {
        return Err(PoolError::TooFewParticipants);
    }
    if num_users > MAX_POOL_USERS {
        return Err(PoolError::TooManyParticipants);
    }
    if remaining.len() < 2 {
        return Err(PoolError::WalkFinished);
    }
    if remaining.len() > MAX_POOL_USERS || remaining[0] >= num_users || remaining[1] >= num_users {
        return Err(PoolError::MissingLeaf);
    }
    if remaining.len() == 2 {
        return final_exit_tx(
            pools,
            network,
            remaining,
            &addresses[remaining[0]],
            &addresses[remaining[1]],
            state.funding.txid,
            state.funding.vout,
            anchor_addr,
        );
    }
    let recipient_pool = crate::participants::remove_member(remaining, 0);
    withdrawal_tx(
        pools,
        network,
        remaining.len() - 3,
        &recipient_pool,
        &addresses[remaining[0]],
        anchor_addr,
        exit_amount(remaining.len()),
        state.funding.txid,
        remaining,
        state.funding.vout,
    )
}

/// The state that follows `state` once `tx` has spent its funding output:
/// the funds of those who remain sit in the first output of `tx`.
pub open spec fn spec_next_state(state: SpendStepView, tx: TransactionView) -> SpendStepView {
    SpendStepView {
        funding_txid: transaction_txid(tx),
        funding_vout: 0,
        remaining: spec_remaining_after(state.remaining),
        step_index: state.step_index + 1,
    }
}

/// Takes one step of the walk, out of the ladder and the state alone: the
/// raw transaction that lets the lowest remaining participant leave (or pays
/// out the last two), and the state that follows once it is broadcast. The
/// caller does the broadcasting; nothing here waits for it.
pub fn next_spend(
    pools: &[Pool],
    network: Network,
    addresses: &[Address],
    anchor_addr: &Address,
    state: &SpendStep,
) -> (step: Result<(String, SpendStep), PoolError>)
    requires
        state@.step_index < usize::MAX,
    ensures
        match step {
            Ok((hex, next)) => spec_next_spend(
                pools_view(pools@),
                network,
                addresses_view(addresses@),
                anchor_addr@,
                state@,
            ) matches Ok(tx) && hex@ == transaction_hex(tx) && next@ == spec_next_state(state@, tx),
            Err(error) => spec_next_spend(
                pools_view(pools@),
                network,
                addresses_view(addresses@),
                anchor_addr@,
                state@,
            ) == Err::<TransactionView, PoolError>(error),
        },
{
    let tx = match next_spend_tx(pools, network, addresses, anchor_addr, state) {
        Ok(tx) => tx,
        Err(error) => {
            return Err(error);
        },
    };
    let funding = OutPoint { txid: compute_txid(&tx), vout: 0 };
    let next = state.advance(funding);
    Ok((serialize_hex(&tx), next))
}

/// On a ladder of the right height, the state in which the participants
/// before `spender_index` have left gives the transaction of step
/// `spender_index` of the walk, and advancing it gives the state of the next
/// step: the sets shrink by one participant per step, lowest first.
pub proof fn lemma_next_spend_is_walk_step(
    rungs: Seq<PoolView>,
    network: Network,
    addresses: Seq<Seq<u8>>,
    anchor: Seq<u8>,
    state: SpendStepView,
    spender_index: nat,
)
    requires
        rungs.len() == addresses.len() - 1,
        MIN_POOL_USERS <= addresses.len() <= MAX_POOL_USERS,
        spender_index <= addresses.len() - 2,
        state.remaining == remaining_from(spender_index, addresses.len()),
    ensures
        spec_next_spend(rungs, network, addresses, anchor, state) == spec_pool_spend(
            rungs,
            network,
            spender_index,
            addresses,
            state.funding_txid,
            state.funding_vout,
            anchor,
        ),
        state.remaining[0] == spender_index,
        state.remaining.len() == addresses.len() - spender_index,
        spender_index < addresses.len() - 2 ==> spec_remaining_after(state.remaining)
            == remaining_from(spender_index + 1, addresses.len()),
{
    let n = addresses.len();
    let remaining = state.remaining;
    if spender_index < n - 2 {
        assert(remaining.remove(0) =~= remaining_from(spender_index + 1, n));
        assert(remaining.drop_first() =~= remaining_from(spender_index + 1, n));
    }
}

} // verus!
