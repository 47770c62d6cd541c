//! The taproot tree builder of the `bitcoin` crate, as the pools use it.

use bitcoin::secp256k1::{Secp256k1, XOnlyPublicKey};
use bitcoin::taproot::{LeafVersion, TaprootBuilder, TaprootBuilderError, TaprootSpendInfo};
use bitcoin::ScriptBuf;
use vstd::prelude::*;

verus! {

/// A builder of taproot trees, fed leaf by leaf in depth-first order.
#[verifier::external_type_specification]
#[verifier::external_body]
pub struct ExTaprootBuilder(TaprootBuilder);

/// Why a builder refused a leaf.
#[verifier::external_type_specification]
#[verifier::external_body]
pub struct ExTaprootBuilderError(TaprootBuilderError);

/// A finished taproot tree: its output key and the proofs of its leaves.
#[verifier::external_type_specification]
#[verifier::external_body]
pub struct ExTaprootSpendInfo(TaprootSpendInfo);

/// What a builder holds, level by level from the root: nothing at a level
/// without a finished subtree, else the subtree's node with its hash, its
/// leaves and their paths.
pub uninterp spec fn builder_state(builder: TaprootBuilder) -> Seq<Option<Seq<u8>>>;

/// What adding a tapscript leaf with `script` at `depth` makes of the state of
/// a builder; nothing where the builder refuses the leaf.
pub uninterp spec fn taproot_insert(state: Seq<Option<Seq<u8>>>, depth: u8, script: Seq<u8>) -> Option<
    Seq<Option<Seq<u8>>>,
>;

/// Whether a builder in `state` holds a complete tree that can be finished
/// under the x-only internal key `internal_key`.
pub uninterp spec fn taproot_finalizes(state: Seq<Option<Seq<u8>>>, internal_key: Seq<u8>) -> bool;

/// The x-only output key of the tree that a builder in `state` finishes under
/// `internal_key`.
pub uninterp spec fn taproot_output_key(internal_key: Seq<u8>, state: Seq<Option<Seq<u8>>>) -> Seq<u8>;

/// For each tapscript leaf of the tree that a builder in `state` finishes
/// under `internal_key`, the serialised control block that proves it: a map
/// from script to block.
pub uninterp spec fn taproot_proofs(internal_key: Seq<u8>, state: Seq<Option<Seq<u8>>>) -> Map<
    Seq<u8>,
    Seq<u8>,
>;

/// The x-only output key that a finished tree holds.
pub uninterp spec fn spend_info_output_key(info: TaprootSpendInfo) -> Seq<u8>;

/// What a finished tree holds for its tapscript leaves: a map from script to
/// the serialised control block that proves it.
pub uninterp spec fn spend_info_proofs(info: TaprootSpendInfo) -> Map<Seq<u8>, Seq<u8>>;

/// Calls `TaprootBuilder::new`. Trusted: the new builder holds no level.
#[verifier::external_body]
pub(crate) fn taproot_builder_new() -> (builder: TaprootBuilder)
    ensures
        builder_state(builder) == Seq::<Option<Seq<u8>>>::empty(),
{
    TaprootBuilder::new()
}

/// Calls `TaprootBuilder::add_leaf` with a copy of the script, which adds it
/// as a tapscript leaf. Trusted: whether the leaf is taken, and what the
/// builder then holds, depends only on what the builder held, the depth and
/// the script.
#[verifier::external_body]
pub(crate) fn taproot_add_leaf(builder: TaprootBuilder, depth: u8, script: &Vec<u8>) -> (added: Result<
    TaprootBuilder,
    TaprootBuilderError,
>)
    ensures
        match added {
            Ok(grown) => taproot_insert(builder_state(builder), depth, script@) == Some(
                builder_state(grown),
            ),
            Err(_) => taproot_insert(builder_state(builder), depth, script@) is None,
        },
{
    builder.add_leaf(depth, ScriptBuf::from_bytes(script.clone()))
}

/// Reads the internal key with `XOnlyPublicKey::from_slice` and calls
/// `TaprootBuilder::finalize` with a fresh verification context. Trusted:
/// whether a tree comes back, its output key and its control blocks depend
/// only on what the builder held and on the key bytes. (The crate panics
/// where the tweak hash is no valid scalar, which no known input reaches.)
#[verifier::external_body]
pub(crate) fn taproot_finalize(builder: TaprootBuilder, internal_key: &[u8; 32]) -> (info: Option<
    TaprootSpendInfo,
>)
    ensures
        info is Some <==> taproot_finalizes(builder_state(builder), internal_key@),
        info matches Some(tree) ==> spend_info_output_key(tree) == taproot_output_key(
            internal_key@,
            builder_state(builder),
        ) && spend_info_proofs(tree) == taproot_proofs(internal_key@, builder_state(builder)),
{
    let key = XOnlyPublicKey::from_slice(internal_key).ok()?;
    builder.finalize(&Secp256k1::verification_only(), key).ok()
}

/// Calls `TaprootSpendInfo::output_key` and serialises the key. Trusted: the
/// 32 bytes are the output key that the tree holds.
#[verifier::external_body]
pub(crate) fn taproot_spend_output_key(info: &TaprootSpendInfo) -> (key: [u8; 32])
    ensures
        key@ == spend_info_output_key(*info),
{
    info.output_key().serialize()
}

/// Calls `TaprootSpendInfo::control_block` for the script as a tapscript leaf
/// and serialises the block. Trusted: there is a block exactly where the tree
/// holds one for the script, and it is that block.
#[verifier::external_body]
pub(crate) fn taproot_spend_control_block(info: &TaprootSpendInfo, script: &Vec<u8>) -> (block: Option<
    Vec<u8>,
>)
    ensures
        match block {
            Some(bytes) => spend_info_proofs(*info).contains_key(script@) && spend_info_proofs(
                *info,
            )[script@] == bytes@,
            None => !spend_info_proofs(*info).contains_key(script@),
        },
{
    let leaf = (ScriptBuf::from_bytes(script.clone()), LeafVersion::TapScript);
    info.control_block(&leaf).map(|block| block.serialize())
}

} // verus!
