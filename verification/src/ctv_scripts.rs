//! The commitment hash of a transaction template, and the withdrawal
//! templates that the pools commit to.

use crate::config::{Network, AMOUNT_PER_USER, ENABLE_RBF_NO_LOCKTIME, FEE_AMOUNT};
use crate::encoding::{
    encode_outputs, lemma_concat_split, lemma_outputs_encoding_injective, outputs_encoding, scripts_fit,
};
use crate::sha256::{sha256_digest, sha256_of};
use crate::tx::{outputs_view, Address, TxOut, TxOutView};
use vstd::bytes::{lemma_auto_spec_u32_to_from_le_bytes, spec_u32_to_le_bytes, u32_to_le_bytes};
use vstd::prelude::*;

verus! {

/// The sequence number that a template commits to: the override if there is
/// one, else the replaceable sequence without a lock time.
pub open spec fn spec_sequence(timeout: Option<u32>) -> u32 {
    match timeout {
        Some(sequence) => sequence,
        None => ENABLE_RBF_NO_LOCKTIME,
    }
}

/// The number of outputs as the template's 4-byte count field holds it.
pub open spec fn spec_output_count(outputs: Seq<TxOutView>) -> u32 {
    (outputs.len() % 0x1_0000_0000) as u32
}

/// The bytes whose digest is the commitment hash, given the two digests that
/// go into them: version, zero lock time, one input, the digest of the
/// input's sequence, the output count, the digest of the encoded outputs, and
/// the index 0 of the spending input.
pub open spec fn spec_template_preimage(
    version: i32,
    sequence_hash: Seq<u8>,
    output_count: u32,
    outputs_hash: Seq<u8>,
) -> Seq<u8> {
    spec_u32_to_le_bytes(version as u32) + spec_u32_to_le_bytes(0) + spec_u32_to_le_bytes(1)
        + sequence_hash + spec_u32_to_le_bytes(output_count) + outputs_hash + spec_u32_to_le_bytes(0)
}

/// The bytes whose digest is the commitment hash of the template with the
/// given outputs and sequence.
pub open spec fn ctv_preimage(version: i32, outputs: Seq<TxOutView>, sequence: u32) -> Seq<u8> {
    spec_template_preimage(
        version,
        sha256_digest(spec_u32_to_le_bytes(sequence)),
        spec_output_count(outputs),
        sha256_digest(outputs_encoding(outputs)),
    )
}

/// The commitment hash of the template with the given outputs and sequence.
pub open spec fn spec_ctv_hash(network: Network, outputs: Seq<TxOutView>, timeout: Option<u32>) -> Seq<u8> {
    sha256_digest(ctv_preimage(network.spec_tx_version(), outputs, spec_sequence(timeout)))
}

/// Lays out the bytes whose digest is the commitment hash: the version, a
/// zero lock time and the input count 1, each in 4 little-endian bytes; the
/// digest of the sequence; the output count in 4 bytes; the digest of the
/// outputs; and the input index 0 in 4 bytes.
pub fn template_preimage(
    version: i32,
    sequence_hash: &[u8; 32],
    output_count: u32,
    outputs_hash: &[u8; 32],
) -> (buffer: Vec<u8>)
    ensures
        buffer@ == spec_template_preimage(version, sequence_hash@, output_count, outputs_hash@),
        buffer@.len() == 84,
{
    let mut buffer: Vec<u8> = Vec::new();
    let mut version_bytes = u32_to_le_bytes(#[verifier::truncate] (version as u32));
    buffer.append(&mut version_bytes);
    let mut lock_time_bytes = u32_to_le_bytes(0);
    buffer.append(&mut lock_time_bytes);
    let mut input_count_bytes = u32_to_le_bytes(1);
    buffer.append(&mut input_count_bytes);
    buffer.extend_from_slice(sequence_hash.as_slice());
    let mut output_count_bytes = u32_to_le_bytes(output_count);
    buffer.append(&mut output_count_bytes);
    buffer.extend_from_slice(outputs_hash.as_slice());
    let mut input_index_bytes = u32_to_le_bytes(0);
    buffer.append(&mut input_index_bytes);
    buffer
}

/// Computes the commitment hash of the transaction template that has exactly
/// these outputs, in this order, one input with the given sequence (the
/// replaceable default without an override), zero lock time and the network's
/// version.
pub fn calc_ctv_hash(outputs: &[TxOut], timeout: Option<u32>, network: Network) -> (hash: [u8; 32])
    ensures
        hash@ == spec_ctv_hash(network, outputs_view(outputs@), timeout),
{
    let sequence = match timeout {
        Some(timeout_value) => timeout_value,
        None => ENABLE_RBF_NO_LOCKTIME,
    };
    let sequence_bytes = u32_to_le_bytes(sequence);
    let sequence_hash = sha256_of(sequence_bytes.as_slice());

    let outputs_len = ((outputs.len() as u64) % 0x1_0000_0000u64) as u32;
    let output_bytes = encode_outputs(outputs);
    let outputs_hash = sha256_of(output_bytes.as_slice());

    let buffer = template_preimage(network.tx_version(), &sequence_hash, outputs_len, &outputs_hash);
    sha256_of(buffer.as_slice())
}

/// The same outputs, byte for byte and in the same order, with the same
/// sequence give the same commitment hash, however often it is computed.
pub proof fn lemma_ctv_hash_deterministic(
    network: Network,
    first: Seq<TxOut>,
    second: Seq<TxOut>,
    first_timeout: Option<u32>,
    second_timeout: Option<u32>,
)
    requires
        outputs_view(first) == outputs_view(second),
        spec_sequence(first_timeout) == spec_sequence(second_timeout),
    ensures
        spec_ctv_hash(network, outputs_view(first), first_timeout) == spec_ctv_hash(
            network,
            outputs_view(second),
            second_timeout,
        ),
{
}

/// Numbers with the same little-endian bytes are the same number.
proof fn lemma_le_bytes_tell(x: u32, y: u32)
    requires
        spec_u32_to_le_bytes(x) == spec_u32_to_le_bytes(y),
    ensures
        x == y,
{
    lemma_auto_spec_u32_to_from_le_bytes();
    assert(spec_u32_to_le_bytes(y).len() == 4);
}

/// SHA-256 tells `x` and `y` apart: both digests have 32 bytes, and they are
/// the same digest only if `x` and `y` are the same bytes.
pub open spec fn digests_tell_apart(x: Seq<u8>, y: Seq<u8>) -> bool {
    &&& sha256_digest(x).len() == 32
    &&& sha256_digest(y).len() == 32
    &&& sha256_digest(x) == sha256_digest(y) ==> x == y
}

/// The commitment hash binds the outputs and the sequence: unless SHA-256
/// collides on what the two computations hash, templates with the same hash
/// have the same outputs, amount for amount and script for script in the same
/// order, and the same sequence. So any change of an amount, a script, the
/// order or the sequence changes the hash.
pub proof fn lemma_ctv_hash_binds(
    network: Network,
    first: Seq<TxOutView>,
    second: Seq<TxOutView>,
    first_timeout: Option<u32>,
    second_timeout: Option<u32>,
)
    requires
        scripts_fit(first),
        scripts_fit(second),
        digests_tell_apart(
            spec_u32_to_le_bytes(spec_sequence(first_timeout)),
            spec_u32_to_le_bytes(spec_sequence(second_timeout)),
        ),
        digests_tell_apart(outputs_encoding(first), outputs_encoding(second)),
        digests_tell_apart(
            ctv_preimage(network.spec_tx_version(), first, spec_sequence(first_timeout)),
            ctv_preimage(network.spec_tx_version(), second, spec_sequence(second_timeout)),
        ),
        spec_ctv_hash(network, first, first_timeout) == spec_ctv_hash(
            network,
            second,
            second_timeout,
        ),
    ensures
        first == second,
        spec_sequence(first_timeout) == spec_sequence(second_timeout),
{
    lemma_auto_spec_u32_to_from_le_bytes();
    let version = network.spec_tx_version();
    let seq_a = spec_sequence(first_timeout);
    let seq_b = spec_sequence(second_timeout);
    let head = spec_u32_to_le_bytes(version as u32) + spec_u32_to_le_bytes(0) + spec_u32_to_le_bytes(1);
    let index = spec_u32_to_le_bytes(0);
    let digest_a = sha256_digest(spec_u32_to_le_bytes(seq_a));
    let digest_b = sha256_digest(spec_u32_to_le_bytes(seq_b));
    let count_a = spec_u32_to_le_bytes(spec_output_count(first));
    let count_b = spec_u32_to_le_bytes(spec_output_count(second));
    let outs_a = sha256_digest(outputs_encoding(first));
    let outs_b = sha256_digest(outputs_encoding(second));
    lemma_concat_split(head + digest_a + count_a + outs_a, index, head + digest_b + count_b + outs_b, index);
    lemma_concat_split(head + digest_a + count_a, outs_a, head + digest_b + count_b, outs_b);
    lemma_concat_split(head + digest_a, count_a, head + digest_b, count_b);
    lemma_concat_split(head, digest_a, head, digest_b);
    lemma_le_bytes_tell(seq_a, seq_b);
    lemma_outputs_encoding_injective(first, second);
}

/// The outputs with those at the positions `i` and `j` swapped.
pub open spec fn swapped(outputs: Seq<TxOutView>, i: int, j: int) -> Seq<TxOutView> {
    outputs.update(i, outputs[j]).update(j, outputs[i])
}

/// The commitment hash tells the order of the outputs: unless SHA-256
/// collides on what the two computations hash, swapping two outputs that
/// differ changes the hash.
pub proof fn lemma_swap_changes_hash(
    network: Network,
    outputs: Seq<TxOutView>,
    i: int,
    j: int,
    timeout: Option<u32>,
)
    requires
        0 <= i < j < outputs.len(),
        outputs[i] != outputs[j],
        scripts_fit(outputs),
        digests_tell_apart(
            spec_u32_to_le_bytes(spec_sequence(timeout)),
            spec_u32_to_le_bytes(spec_sequence(timeout)),
        ),
        digests_tell_apart(outputs_encoding(swapped(outputs, i, j)), outputs_encoding(outputs)),
        digests_tell_apart(
            ctv_preimage(network.spec_tx_version(), swapped(outputs, i, j), spec_sequence(timeout)),
            ctv_preimage(network.spec_tx_version(), outputs, spec_sequence(timeout)),
        ),
    ensures
        spec_ctv_hash(network, swapped(outputs, i, j), timeout) != spec_ctv_hash(
            network,
            outputs,
            timeout,
        ),
{
    let other = swapped(outputs, i, j);
    assert(other[i] == outputs[j]);
    assert(scripts_fit(other)) by {
        assert forall|k: int| 0 <= k < other.len() implies (#[trigger] other[k]).script_pubkey.len()
            <= u64::MAX by {
            if k == i {
                assert(other[k] == outputs[j]);
            } else if k == j {
                assert(other[k] == outputs[i]);
            } else {
                assert(other[k] == outputs[k]);
            }
        }
    }
    if spec_ctv_hash(network, other, timeout) == spec_ctv_hash(network, outputs, timeout) {
        lemma_ctv_hash_binds(network, other, outputs, timeout, timeout);
    }
}

/// The outputs of a withdrawal template: the amount that stays locked, paid
/// to `pool_script`; one contribution less the fee, paid to the participant
/// who leaves; and, on a network with fee anchors, the fee to the anchor.
pub open spec fn spec_withdraw_outputs(
    network: Network,
    pool_script: Seq<u8>,
    withdraw_script: Seq<u8>,
    anchor_script: Seq<u8>,
    pool_exit_amount: u64,
) -> Seq<TxOutView> {
    let paid = seq![
        TxOutView { value: pool_exit_amount, script_pubkey: pool_script },
        TxOutView { value: (AMOUNT_PER_USER - FEE_AMOUNT) as u64, script_pubkey: withdraw_script },
    ];
    if network.spec_has_fee_anchor() {
        paid.push(TxOutView { value: FEE_AMOUNT, script_pubkey: anchor_script })
    } else {
        paid
    }
}

/// The commitment hash of a withdrawal template.
pub open spec fn spec_withdraw_ctv_hash(
    network: Network,
    pool_script: Seq<u8>,
    withdraw_script: Seq<u8>,
    anchor_script: Seq<u8>,
    pool_exit_amount: u64,
) -> Seq<u8> {
    spec_ctv_hash(
        network,
        spec_withdraw_outputs(network, pool_script, withdraw_script, anchor_script, pool_exit_amount),
        None,
    )
}

/// Builds the outputs of a withdrawal: `pool_exit_amount` to `pool_addr`, one
/// contribution less the fee to `withdraw_addr`, and the fee to `anchor_addr`
/// where the network has fee anchors.
pub fn withdraw_outputs(
    pool_addr: &Address,
    withdraw_addr: &Address,
    anchor_addr: &Address,
    pool_exit_amount: u64,
    network: Network,
) -> (outputs: Vec<TxOut>)
    ensures
        outputs_view(outputs@) == spec_withdraw_outputs(
            network,
            pool_addr@,
            withdraw_addr@,
            anchor_addr@,
            pool_exit_amount,
        ),
{
    let mut outputs: Vec<TxOut> = Vec::new();
    outputs.push(TxOut { value: pool_exit_amount, script_pubkey: pool_addr.script_pubkey() });
    outputs.push(
        TxOut { value: AMOUNT_PER_USER - FEE_AMOUNT, script_pubkey: withdraw_addr.script_pubkey() },
    );
    if network.has_fee_anchor() {
        outputs.push(TxOut { value: FEE_AMOUNT, script_pubkey: anchor_addr.script_pubkey() });
    }
    outputs
}

/// Computes the commitment hash of the withdrawal that pays
/// `pool_exit_amount` to `pool_addr` and lets one participant leave to
/// `withdraw_addr`.
pub fn create_withdraw_ctv_hash(
    pool_addr: &Address,
    withdraw_addr: &Address,
    anchor_addr: &Address,
    pool_exit_amount: u64,
    network: Network,
) -> (hash: [u8; 32])
    ensures
        hash@ == spec_withdraw_ctv_hash(
            network,
            pool_addr@,
            withdraw_addr@,
            anchor_addr@,
            pool_exit_amount,
        ),
{
    let ctv_tx_out = withdraw_outputs(pool_addr, withdraw_addr, anchor_addr, pool_exit_amount, network);
    calc_ctv_hash(ctv_tx_out.as_slice(), None, network)
}

/// The sum of the amounts of a list of outputs.
pub open spec fn total_value(outputs: Seq<TxOutView>) -> int
    decreases outputs.len(),
{
    if outputs.len() == 0 {
        0
    } else {
        total_value(outputs.drop_last()) + outputs.last().value
    }
}

/// What a template takes out of the output it spends: the amounts of its
/// outputs, and the fee where no anchor output carries it.
pub open spec fn committed_total(network: Network, outputs: Seq<TxOutView>) -> int {
    total_value(outputs) + if network.spec_has_fee_anchor() {
        0
    } else {
        FEE_AMOUNT as int
    }
}

/// A withdrawal that re-locks `pool_exit_amount` commits, fee included, to
/// that amount and one contribution more: the leaf of a set of `k`
/// participants, which re-locks `k - 1` contributions, accounts for exactly
/// the `k` contributions that were locked.
pub proof fn lemma_withdraw_total(
    network: Network,
    pool_script: Seq<u8>,
    withdraw_script: Seq<u8>,
    anchor_script: Seq<u8>,
    pool_exit_amount: u64,
)
    ensures
        committed_total(
            network,
            spec_withdraw_outputs(
                network,
                pool_script,
                withdraw_script,
                anchor_script,
                pool_exit_amount,
            ),
        ) == pool_exit_amount + AMOUNT_PER_USER,
{
    reveal_with_fuel(total_value, 4);
}

} // verus!
