//! Transactions as plain values, and their serialisation.

use bitcoin::absolute::LockTime;
use bitcoin::consensus::encode;
use bitcoin::hashes::Hash as _;
use bitcoin::transaction::Version;
use bitcoin::{Amount, ScriptBuf, Sequence, Txid, Witness};
use vstd::prelude::*;

verus! {

/// A transaction output: an amount in satoshis and the script that locks it.
#[derive(Clone, Debug, PartialEq, Eq)]
pub struct TxOut {
    pub value: u64,
    pub script_pubkey: Vec<u8>,
}

/// A transaction output, as a mathematical value.
pub ghost struct TxOutView {
    pub value: u64,
    pub script_pubkey: Seq<u8>,
}

impl View for TxOut {
    type V = TxOutView;

    open spec fn view(&self) -> TxOutView {
        TxOutView { value: self.value, script_pubkey: self.script_pubkey@ }
    }
}

/// Where an output pays to, as the script that locks it.
#[derive(Clone, Debug, PartialEq, Eq)]
pub struct Address {
    pub script_pubkey: Vec<u8>,
}

impl View for Address {
    type V = Seq<u8>;

    open spec fn view(&self) -> Seq<u8> {
        self.script_pubkey@
    }
}

impl Address {
    /// The address that the given locking script stands for.
    pub fn from_script(script_pubkey: Vec<u8>) -> (address: Address)
        ensures
            address@ == script_pubkey@,
    {
        Address { script_pubkey }
    }

    /// The taproot address of an output key that already carries its tweak.
    pub fn p2tr_tweaked(output_key: &[u8; 32]) -> (address: Address)
        ensures
            address@ == crate::script::spec_p2tr_script(output_key@),
    {
        Address { script_pubkey: crate::script::p2tr_script(output_key) }
    }

    /// The script that locks an output paid to this address.
    pub fn script_pubkey(&self) -> (script: Vec<u8>)
        ensures
            script@ == self@,
    {
        self.script_pubkey.clone()
    }
}

/// The output of an earlier transaction that an input spends.
#[derive(Clone, Copy, Debug, PartialEq, Eq)]
pub struct OutPoint {
    pub txid: [u8; 32],
    pub vout: u32,
}

/// Byte strings, each as a sequence of bytes.
pub open spec fn items_view(items: Seq<Vec<u8>>) -> Seq<Seq<u8>> {
    items.map_values(|item: Vec<u8>| item@)
}

/// Copies a list of byte strings.
pub fn clone_items(items: &Vec<Vec<u8>>) -> (copy: Vec<Vec<u8>>)
    ensures
        items_view(copy@) == items_view(items@),
{
    let mut copy: Vec<Vec<u8>> = Vec::new();
    let mut i: usize = 0;
    while i < items.len()
        invariant
            i <= items.len(),
            items_view(copy@) == items_view(items@).take(i as int),
        decreases items.len() - i,
    {
        let item = items[i].clone();
        let ghost before = copy@;
        copy.push(item);
        assert(items_view(copy@) =~= items_view(before).push(item@));
        i = i + 1;
    }
    copy
}

/// A transaction input with an empty signature script.
#[derive(Clone, Debug, PartialEq, Eq)]
pub struct TxIn {
    pub previous_output: OutPoint,
    pub sequence: u32,
    pub witness: Vec<Vec<u8>>,
}

/// A transaction input, as a mathematical value.
pub ghost struct TxInView {
    pub txid: Seq<u8>,
    pub vout: u32,
    pub sequence: u32,
    pub witness: Seq<Seq<u8>>,
}

impl View for TxIn {
    type V = TxInView;

    open spec fn view(&self) -> TxInView {
        TxInView {
            txid: self.previous_output.txid@,
            vout: self.previous_output.vout,
            sequence: self.sequence,
            witness: items_view(self.witness@),
        }
    }
}

/// A transaction.
#[derive(Clone, Debug, PartialEq, Eq)]
pub struct Transaction {
    pub version: i32,
    pub lock_time: u32,
    pub input: Vec<TxIn>,
    pub output: Vec<TxOut>,
}

/// A transaction, as a mathematical value.
pub ghost struct TransactionView {
    pub version: i32,
    pub lock_time: u32,
    pub input: Seq<TxInView>,
    pub output: Seq<TxOutView>,
}

/// The outputs of a list, each as a mathematical value.
pub open spec fn outputs_view(outputs: Seq<TxOut>) -> Seq<TxOutView> {
    outputs.map_values(|output: TxOut| output@)
}

/// The inputs of a list, each as a mathematical value.
pub open spec fn inputs_view(inputs: Seq<TxIn>) -> Seq<TxInView> {
    inputs.map_values(|input: TxIn| input@)
}

impl View for Transaction {
    type V = TransactionView;

    open spec fn view(&self) -> TransactionView {
        TransactionView {
            version: self.version,
            lock_time: self.lock_time,
            input: inputs_view(self.input@),
            output: outputs_view(self.output@),
        }
    }
}

/// The lower-case hexadecimal text of a transaction's consensus
/// serialisation.
pub uninterp spec fn transaction_hex(tx: TransactionView) -> Seq<char>;

/// Rebuilds the transaction as a `bitcoin::Transaction` and calls
/// `bitcoin::consensus::encode::serialize_hex` on it. Trusted: the text
/// returned is the hexadecimal consensus serialisation of the transaction with
/// these fields, which depends on the fields alone.
#[verifier::external_body]
pub(crate) fn serialize_hex(tx: &Transaction) -> (hex: String)
    ensures
        hex@ == transaction_hex(tx@),
{
    let input = tx.input.iter().map(|i| bitcoin::TxIn {
        previous_output: bitcoin::OutPoint::new(Txid::from_byte_array(i.previous_output.txid), i.previous_output.vout),
        script_sig: ScriptBuf::new(),
        sequence: Sequence(i.sequence),
        witness: Witness::from_slice(&i.witness),
    }).collect();
    let output = tx.output.iter().map(|o| bitcoin::TxOut {
        value: Amount::from_sat(o.value),
        script_pubkey: ScriptBuf::from_bytes(o.script_pubkey.clone()),
    }).collect();
    let (version, lock_time) = (Version(tx.version), LockTime::from_consensus(tx.lock_time));
    encode::serialize_hex(&bitcoin::Transaction { version, lock_time, input, output })
}

/// The identifier of a transaction: the double SHA-256 of its serialisation
/// without witnesses, in the byte order in which an input refers to it.
pub uninterp spec fn transaction_txid(tx: TransactionView) -> Seq<u8>;

/// Rebuilds the transaction as a `bitcoin::Transaction` and calls
/// `Transaction::compute_txid` on it. Trusted: the 32 bytes returned are the
/// identifier of the transaction with these fields, which depends on the
/// fields alone.
#[verifier::external_body]
pub(crate) fn compute_txid(tx: &Transaction) -> (txid: [u8; 32])
    ensures
        txid@ == transaction_txid(tx@),
{
    let input = tx.input.iter().map(|i| bitcoin::TxIn {
        previous_output: bitcoin::OutPoint::new(Txid::from_byte_array(i.previous_output.txid), i.previous_output.vout),
        script_sig: ScriptBuf::new(),
        sequence: Sequence(i.sequence),
        witness: Witness::from_slice(&i.witness),
    }).collect();
    let output = tx.output.iter().map(|o| bitcoin::TxOut {
        value: Amount::from_sat(o.value),
        script_pubkey: ScriptBuf::from_bytes(o.script_pubkey.clone()),
    }).collect();
    let (version, lock_time) = (Version(tx.version), LockTime::from_consensus(tx.lock_time));
    bitcoin::Transaction { version, lock_time, input, output }.compute_txid().to_byte_array()
}

} // verus!
