//! Locking scripts, assembled opcode by opcode.

use bitcoin::script::{Builder, PushBytes};
use bitcoin::Opcode;
use vstd::prelude::*;

verus! {

/// `OP_NOP4`, the opcode reserved for checking a template commitment.
pub const OP_SECURETHEBAG: u8 = 0xb3;

/// `OP_RETURN`, which marks an output as unspendable data.
pub const OP_RETURN: u8 = 0x6a;

/// `OP_1`, the witness version of a taproot output.
pub const OP_PUSHNUM_1: u8 = 0x51;

/// The longest data that a single-byte push opcode carries.
pub const MAX_DIRECT_PUSH: usize = 75;

/// The script builder of the `bitcoin` crate.
#[verifier::external_type_specification]
#[verifier::external_body]
pub struct ExBuilder(Builder);

/// The bytes of the script that a builder has assembled so far.
pub uninterp spec fn builder_bytes(builder: Builder) -> Seq<u8>;

/// Calls `Builder::new`. Trusted: the new builder holds the empty script.
#[verifier::external_body]
pub(crate) fn builder_new() -> (builder: Builder)
    ensures
        builder_bytes(builder) == Seq::<u8>::empty(),
{
    Builder::new()
}

/// Calls `Builder::push_opcode` with the opcode of the given byte. Trusted:
/// the script grows by that one byte.
#[verifier::external_body]
pub(crate) fn builder_push_opcode(builder: Builder, opcode: u8) -> (pushed: Builder)
    ensures
        builder_bytes(pushed) == builder_bytes(builder).push(opcode),
{
    builder.push_opcode(Opcode::from(opcode))
}

/// Calls `Builder::push_slice`. Trusted: for data of at most 75 bytes the
/// script grows by one byte holding the data's length, then by the data.
#[verifier::external_body]
pub(crate) fn builder_push_slice(builder: Builder, data: &[u8]) -> (pushed: Builder)
    requires
        data@.len() <= MAX_DIRECT_PUSH,
    ensures
        builder_bytes(pushed) == builder_bytes(builder).push(data@.len() as u8) + data@,
{
    let push: &PushBytes = data.try_into().expect("a direct push is short");
    builder.push_slice(push)
}

/// Calls `Builder::into_bytes`. Trusted: the bytes returned are the script
/// that the builder assembled.
#[verifier::external_body]
pub(crate) fn builder_into_bytes(builder: Builder) -> (bytes: Vec<u8>)
    ensures
        bytes@ == builder_bytes(builder),
{
    builder.into_bytes()
}

/// The leaf script that commits to one template hash: a push of the 32 bytes,
/// then the reserved opcode.
pub open spec fn spec_ctv_script(ctv_hash: Seq<u8>) -> Seq<u8> {
    seq![32u8] + ctv_hash + seq![OP_SECURETHEBAG]
}

/// The locking script of a taproot output with the given 32-byte output key.
pub open spec fn spec_p2tr_script(output_key: Seq<u8>) -> Seq<u8> {
    seq![OP_PUSHNUM_1, 32u8] + output_key
}

/// The script of a data-carrying marker output.
pub open spec fn spec_marker_script(tag: Seq<u8>) -> Seq<u8> {
    seq![OP_RETURN, tag.len() as u8] + tag
}

/// Builds the leaf script that a spending transaction satisfies exactly when
/// its own template hash is `ctv_hash`.
pub fn ctv_script(ctv_hash: [u8; 32]) -> (script: Vec<u8>)
    ensures
        script@ == spec_ctv_script(ctv_hash@),
{
    let builder = builder_new();
    let builder = builder_push_slice(builder, ctv_hash.as_slice());
    let builder = builder_push_opcode(builder, OP_SECURETHEBAG);
    let script = builder_into_bytes(builder);
    script
}

/// Builds the locking script that pays to the taproot output key `output_key`.
pub fn p2tr_script(output_key: &[u8; 32]) -> (script: Vec<u8>)
    ensures
        script@ == spec_p2tr_script(output_key@),
{
    let builder = builder_new();
    let builder = builder_push_opcode(builder, OP_PUSHNUM_1);
    let builder = builder_push_slice(builder, output_key.as_slice());
    let script = builder_into_bytes(builder);
    script
}

/// Builds the script of an unspendable marker output that carries `tag`.
/// There is none for a tag that a single-byte push does not carry.
pub fn marker_script(tag: &[u8]) -> (script: Option<Vec<u8>>)
    ensures
        match script {
            Some(bytes) => tag@.len() <= MAX_DIRECT_PUSH && bytes@ == spec_marker_script(tag@),
            None => tag@.len() > MAX_DIRECT_PUSH,
        },
{
    if tag.len() > MAX_DIRECT_PUSH {
        return None;
    }
    let builder = builder_new();
    let builder = builder_push_opcode(builder, OP_RETURN);
    let builder = builder_push_slice(builder, tag);
    let script = builder_into_bytes(builder);
    Some(script)
}

} // verus!
