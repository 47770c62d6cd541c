//! The consensus encoding of transaction outputs.

use crate::tx::{TxOut, TxOutView};
use vstd::bytes::{
    lemma_auto_spec_u16_to_from_le_bytes, lemma_auto_spec_u32_to_from_le_bytes,
    lemma_auto_spec_u64_to_from_le_bytes, spec_u16_to_le_bytes, spec_u32_to_le_bytes,
    spec_u64_to_le_bytes,
};
use vstd::prelude::*;

verus! {

/// The variable-length encoding of a count or length: one byte below `0xFD`,
/// else a marker byte and the number in 2, 4 or 8 little-endian bytes.
pub open spec fn compact_size(n: u64) -> Seq<u8> {
    if n <= 0xFC {
        seq![n as u8]
    } else if n <= 0xFFFF {
        seq![0xFDu8] + spec_u16_to_le_bytes(n as u16)
    } else if n <= 0xFFFF_FFFF {
        seq![0xFEu8] + spec_u32_to_le_bytes(n as u32)
    } else {
        seq![0xFFu8] + spec_u64_to_le_bytes(n)
    }
}

/// The consensus encoding of one output: the amount in 8 little-endian bytes,
/// the script's length, the script.
pub open spec fn tx_out_encoding(output: TxOutView) -> Seq<u8> {
    spec_u64_to_le_bytes(output.value) + compact_size(output.script_pubkey.len() as u64)
        + output.script_pubkey
}

/// The encodings of a list of outputs, one after the other.
pub open spec fn outputs_encoding(outputs: Seq<TxOutView>) -> Seq<u8>
    decreases outputs.len(),
{
    if outputs.len() == 0 {
        Seq::empty()
    } else {
        outputs_encoding(outputs.drop_last()) + tx_out_encoding(outputs.last())
    }
}

/// Rebuilds the output as a `bitcoin::TxOut` and calls
/// `bitcoin::consensus::serialize` on it. Trusted: the bytes are the amount in
/// 8 little-endian bytes, then the script's length as a compact size, then the
/// script.
#[verifier::external_body]
pub(crate) fn encode_tx_out(output: &TxOut) -> (bytes: Vec<u8>)
    ensures
        bytes@ == tx_out_encoding(output@),
{
    bitcoin::consensus::serialize(&bitcoin::TxOut {
        value: bitcoin::Amount::from_sat(output.value),
        script_pubkey: bitcoin::ScriptBuf::from_bytes(output.script_pubkey.clone()),
    })
}

/// Encodes a list of outputs, one after the other.
pub fn encode_outputs(outputs: &[TxOut]) -> (bytes: Vec<u8>)
    ensures
        bytes@ == outputs_encoding(crate::tx::outputs_view(outputs@)),
{
    let ghost views = crate::tx::outputs_view(outputs@);
    let mut bytes: Vec<u8> = Vec::new();
    let mut i: usize = 0;
    while i < outputs.len()
        invariant
            i <= outputs.len(),
            views == crate::tx::outputs_view(outputs@),
            bytes@ == outputs_encoding(views.take(i as int)),
        decreases outputs.len() - i,
    {
        let mut encoded = encode_tx_out(&outputs[i]);
        proof {
            assert(views.take(i + 1).drop_last() =~= views.take(i as int));
        }
        bytes.append(&mut encoded);
        i = i + 1;
    }
    proof {
        assert(views.take(outputs.len() as int) =~= views);
    }
    bytes
}

/// Two splits of one sequence at the same position have the same parts.
pub(crate) proof fn lemma_concat_split<T>(head: Seq<T>, tail: Seq<T>, other_head: Seq<T>, other_tail: Seq<T>)
    requires
        head + tail == other_head + other_tail,
        head.len() == other_head.len(),
    ensures
        head == other_head,
        tail == other_tail,
{
    let whole = head + tail;
    let cut = head.len() as int;
    assert(other_head =~= (other_head + other_tail).subrange(0, cut));
    assert(other_tail =~= (other_head + other_tail).subrange(cut, whole.len() as int));
}

/// No compact size is the beginning of another: where two of them, each
/// followed by more bytes, give the same bytes, they encode the same number
/// and the same bytes follow.
pub proof fn lemma_compact_size_prefix_free(a: u64, b: u64, after_a: Seq<u8>, after_b: Seq<u8>)
    requires
        compact_size(a) + after_a == compact_size(b) + after_b,
    ensures
        a == b,
        after_a == after_b,
{
    lemma_auto_spec_u16_to_from_le_bytes();
    lemma_auto_spec_u32_to_from_le_bytes();
    lemma_auto_spec_u64_to_from_le_bytes();
    assert((compact_size(b) + after_b)[0] == compact_size(b)[0]);
    lemma_concat_split(compact_size(a), after_a, compact_size(b), after_b);
    if a <= 0xFC {
    } else if a <= 0xFFFF {
        lemma_concat_split(
            seq![0xFDu8],
            spec_u16_to_le_bytes(a as u16),
            seq![0xFDu8],
            spec_u16_to_le_bytes(b as u16),
        );
    } else if a <= 0xFFFF_FFFF {
        lemma_concat_split(
            seq![0xFEu8],
            spec_u32_to_le_bytes(a as u32),
            seq![0xFEu8],
            spec_u32_to_le_bytes(b as u32),
        );
    } else {
        lemma_concat_split(seq![0xFFu8], spec_u64_to_le_bytes(a), seq![0xFFu8], spec_u64_to_le_bytes(b));
    }
}

/// No output's encoding is the beginning of another's: where two encodings,
/// each followed by more bytes, give the same bytes, the outputs are the same
/// and the same bytes follow.
pub proof fn lemma_tx_out_prefix_free(x: TxOutView, y: TxOutView, after_x: Seq<u8>, after_y: Seq<u8>)
    requires
        x.script_pubkey.len() <= u64::MAX,
        y.script_pubkey.len() <= u64::MAX,
        tx_out_encoding(x) + after_x == tx_out_encoding(y) + after_y,
    ensures
        x == y,
        after_x == after_y,
{
    lemma_auto_spec_u64_to_from_le_bytes();
    let vx = spec_u64_to_le_bytes(x.value);
    let vy = spec_u64_to_le_bytes(y.value);
    let cx = compact_size(x.script_pubkey.len() as u64);
    let cy = compact_size(y.script_pubkey.len() as u64);
    assert(tx_out_encoding(x) + after_x =~= vx + (cx + (x.script_pubkey + after_x)));
    assert(tx_out_encoding(y) + after_y =~= vy + (cy + (y.script_pubkey + after_y)));
    lemma_concat_split(vx, cx + (x.script_pubkey + after_x), vy, cy + (y.script_pubkey + after_y));
    lemma_compact_size_prefix_free(
        x.script_pubkey.len() as u64,
        y.script_pubkey.len() as u64,
        x.script_pubkey + after_x,
        y.script_pubkey + after_y,
    );
    lemma_concat_split(x.script_pubkey, after_x, y.script_pubkey, after_y);
}

/// The encoding of a list of outputs starts with the encoding of the first.
proof fn lemma_outputs_encoding_front(outputs: Seq<TxOutView>)
    requires
        outputs.len() > 0,
    ensures
        outputs_encoding(outputs) == tx_out_encoding(outputs[0]) + outputs_encoding(
            outputs.drop_first(),
        ),
    decreases outputs.len(),
{
    if outputs.len() == 1 {
        assert(outputs.drop_last() =~= Seq::<TxOutView>::empty());
        assert(outputs.drop_first() =~= Seq::<TxOutView>::empty());
    } else {
        lemma_outputs_encoding_front(outputs.drop_last());
        assert(outputs.drop_last().drop_first() =~= outputs.drop_first().drop_last());
    }
}

/// Every output a vector can hold has a script whose length a `u64` holds.
pub open spec fn scripts_fit(outputs: Seq<TxOutView>) -> bool {
    forall|i: int| 0 <= i < outputs.len() ==> (#[trigger] outputs[i]).script_pubkey.len() <= u64::MAX
}

/// The encoding tells the outputs: lists of outputs with the same encoding
/// are the same list, output for output and in the same order.
pub proof fn lemma_outputs_encoding_injective(a: Seq<TxOutView>, b: Seq<TxOutView>)
    requires
        scripts_fit(a),
        scripts_fit(b),
        outputs_encoding(a) == outputs_encoding(b),
    ensures
        a == b,
    decreases a.len() + b.len(),
{
    if a.len() == 0 && b.len() == 0 {
    } else if a.len() == 0 {
    } else if b.len() == 0 {
    } else {
        lemma_outputs_encoding_front(a);
        lemma_outputs_encoding_front(b);
        lemma_tx_out_prefix_free(
            a[0],
            b[0],
            outputs_encoding(a.drop_first()),
            outputs_encoding(b.drop_first()),
        );
        lemma_outputs_encoding_injective(a.drop_first(), b.drop_first());
        assert(b =~= seq![b[0]] + b.drop_first());
    }
}

} // verus!
