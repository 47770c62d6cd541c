//! Locking trees: the exit leaves of one pool entry, packed into a balanced
//! taproot tree under an internal key that nobody can sign for.

use crate::depths::{calculate_depths, leaf_depth, lemma_leaf_depth_bounds, spec_depths};
use crate::error::PoolError;
use crate::script::{ctv_script, spec_ctv_script};
use crate::taproot::{
    builder_state, spend_info_proofs, taproot_add_leaf, taproot_builder_new, taproot_finalize,
    taproot_finalizes, taproot_insert, taproot_output_key, taproot_proofs,
    taproot_spend_control_block, taproot_spend_output_key,
};
use crate::tx::{
    clone_items, inputs_view, items_view, Address, Transaction, TransactionView, TxIn, TxInView,
};
use vstd::prelude::*;

verus! {

/// The x coordinate of a curve point with no known discrete logarithm: the
/// internal key of every locking tree, so that only the committed leaves can
/// spend it.
pub const UNSPENDABLE_INTERNAL_KEY: [u8; 32] = [
    0x50, 0x92, 0x9b, 0x74, 0xc1, 0xa0, 0x49, 0x54, 0xb7, 0x8b, 0x4b, 0x60, 0x35, 0xe9, 0x7a, 0x5e,
    0x07, 0x8a, 0x5a, 0x0f, 0x28, 0xec, 0x96, 0xd5, 0x47, 0xbf, 0xee, 0x9a, 0xce, 0x80, 0x3a, 0xc0,
];

/// Commitment hashes, each as a sequence of bytes.
pub open spec fn hashes_view(hashes: Seq<[u8; 32]>) -> Seq<Seq<u8>> {
    hashes.map_values(|hash: [u8; 32]| hash@)
}

/// The leaves of the tree over `hashes`: leaf `i` is the script that commits
/// to hash `i`, at the depth that a balanced tree gives it.
pub open spec fn tree_leaves(hashes: Seq<Seq<u8>>) -> Seq<(u8, Seq<u8>)> {
    Seq::new(
        hashes.len(),
        |i: int| (leaf_depth(hashes.len(), i) as u8, spec_ctv_script(hashes[i])),
    )
}

/// What a builder holds once it has taken `leaves` one after the other,
/// starting empty; nothing where it refuses one of them.
pub open spec fn tree_state(leaves: Seq<(u8, Seq<u8>)>) -> Option<Seq<Option<Seq<u8>>>>
    decreases leaves.len(),
{
    if leaves.len() == 0 {
        Some(Seq::empty())
    } else {
        match tree_state(leaves.drop_last()) {
            Some(state) => taproot_insert(state, leaves.last().0, leaves.last().1),
            None => None,
        }
    }
}

/// What the builder holds once it has taken all leaves of the tree over
/// `hashes`, where it takes them.
pub open spec fn built_state(hashes: Seq<Seq<u8>>) -> Seq<Option<Seq<u8>>> {
    tree_state(tree_leaves(hashes)).unwrap()
}

/// Whether the tree over `hashes` can be built: the builder takes every leaf
/// in leaf order, finishes under the unspendable key, and proves every leaf.
pub open spec fn tree_builds(hashes: Seq<Seq<u8>>) -> bool {
    &&& tree_state(tree_leaves(hashes)) is Some
    &&& taproot_finalizes(built_state(hashes), UNSPENDABLE_INTERNAL_KEY@)
    &&& forall|i: int|
        0 <= i < hashes.len() ==> taproot_proofs(
            UNSPENDABLE_INTERNAL_KEY@,
            built_state(hashes),
        ).contains_key(#[trigger] spec_ctv_script(hashes[i]))
}

/// A locking tree, as a mathematical value.
pub ghost struct LockingTreeView {
    /// The commitment hash of each leaf, in leaf order.
    pub leaf_hashes: Seq<Seq<u8>>,
    /// The x-only output key that locks the tree's funds.
    pub output_key: Seq<u8>,
    /// For each leaf, the control block that redeems it.
    pub control_blocks: Seq<Seq<u8>>,
}

/// The tree over `hashes`, where it can be built.
pub open spec fn spec_locking_tree(hashes: Seq<Seq<u8>>) -> LockingTreeView {
    LockingTreeView {
        leaf_hashes: hashes,
        output_key: taproot_output_key(UNSPENDABLE_INTERNAL_KEY@, built_state(hashes)),
        control_blocks: Seq::new(
            hashes.len(),
            |i: int|
                taproot_proofs(UNSPENDABLE_INTERNAL_KEY@, built_state(hashes))[spec_ctv_script(
                    hashes[i],
                )],
        ),
    }
}

/// The locking script of the output that a tree's funds sit in.
pub open spec fn spec_tree_script(tree: LockingTreeView) -> Seq<u8> {
    crate::script::spec_p2tr_script(tree.output_key)
}

/// The control block that redeems the leaf of `tree` committing to
/// `ctv_hash`, where the tree has such a leaf.
pub open spec fn spec_control_block(tree: LockingTreeView, ctv_hash: Seq<u8>) -> Seq<u8> {
    taproot_proofs(UNSPENDABLE_INTERNAL_KEY@, built_state(tree.leaf_hashes))[spec_ctv_script(
        ctv_hash,
    )]
}

/// An input whose witness has grown by a leaf script and its control block.
pub open spec fn spec_witnessed_input(input: TxInView, script: Seq<u8>, block: Seq<u8>) -> TxInView {
    TxInView {
        txid: input.txid,
        vout: input.vout,
        sequence: input.sequence,
        witness: input.witness.push(script).push(block),
    }
}

/// The transaction `tx` with every input's witness completed to redeem the
/// leaf of `tree` that commits to `ctv_hash`.
pub open spec fn spec_spend_ctv(tx: TransactionView, tree: LockingTreeView, ctv_hash: Seq<u8>) -> TransactionView {
    TransactionView {
        version: tx.version,
        lock_time: tx.lock_time,
        input: tx.input.map_values(
            |input: TxInView|
                spec_witnessed_input(
                    input,
                    spec_ctv_script(ctv_hash),
                    spec_control_block(tree, ctv_hash),
                ),
        ),
        output: tx.output,
    }
}

/// A balanced taproot tree over exit leaves, one per commitment hash, rooted
/// at the unspendable internal key.
#[derive(Debug, PartialEq, Eq)]
pub struct LockingTree {
    leaf_hashes: Vec<[u8; 32]>,
    output_key: [u8; 32],
    control_blocks: Vec<Vec<u8>>,
}

impl View for LockingTree {
    type V = LockingTreeView;

    closed spec fn view(&self) -> LockingTreeView {
        LockingTreeView {
            leaf_hashes: hashes_view(self.leaf_hashes@),
            output_key: self.output_key@,
            control_blocks: items_view(self.control_blocks@),
        }
    }
}

impl LockingTree {
    /// Every locking tree is the tree over its own leaf hashes, under the
    /// unspendable key.
    #[verifier::type_invariant]
    closed spec fn is_built(&self) -> bool {
        self@ == spec_locking_tree(self@.leaf_hashes)
    }

    /// The number of leaves. Every locking tree is the tree over its own leaf
    /// hashes.
    pub fn leaf_count(&self) -> (count: usize)
        ensures
            count == self@.leaf_hashes.len(),
            self@ == spec_locking_tree(self@.leaf_hashes),
    {
        proof {
            use_type_invariant(self);
        }
        self.leaf_hashes.len()
    }

    /// The commitment hash of leaf `index`, if the tree has that many leaves.
    pub fn leaf_hash(&self, index: usize) -> (hash: Option<[u8; 32]>)
        ensures
            match hash {
                Some(bytes) => index < self@.leaf_hashes.len() && bytes@
                    == self@.leaf_hashes[index as int],
                None => index >= self@.leaf_hashes.len(),
            },
    {
        if index < self.leaf_hashes.len() {
            Some(self.leaf_hashes[index])
        } else {
            None
        }
    }

    /// The control block that redeems the leaf committing to `ctv_hash`, if
    /// the tree has such a leaf.
    pub fn control_block(&self, ctv_hash: &[u8; 32]) -> (block: Option<Vec<u8>>)
        ensures
            match block {
                Some(bytes) => self@.leaf_hashes.contains(ctv_hash@) && bytes@
                    == spec_control_block(self@, ctv_hash@),
                None => !self@.leaf_hashes.contains(ctv_hash@),
            },
    {
        proof {
            use_type_invariant(self);
            assert(self@.control_blocks.len() == self.control_blocks@.len());
        }
        let mut i: usize = 0;
        while i < self.leaf_hashes.len()
            invariant
                i <= self.leaf_hashes.len(),
                self@ == spec_locking_tree(self@.leaf_hashes),
                self.control_blocks@.len() == self.leaf_hashes@.len(),
                forall|j: int| 0 <= j < i ==> self@.leaf_hashes[j] != ctv_hash@,
            decreases self.leaf_hashes.len() - i,
        {
            if hash_eq(&self.leaf_hashes[i], ctv_hash) {
                assert(self@.control_blocks[i as int] == spec_control_block(self@, ctv_hash@));
                let block = self.control_blocks[i].clone();
                return Some(block);
            }
            i = i + 1;
        }
        None
    }

    /// The x-only output key of the tree.
    pub fn output_key(&self) -> (key: [u8; 32])
        ensures
            key@ == self@.output_key,
    {
        self.output_key
    }

    /// The address that the tree's funds are locked to.
    pub fn address(&self) -> (address: Address)
        ensures
            address@ == spec_tree_script(self@),
    {
        Address::p2tr_tweaked(&self.output_key)
    }
}

/// Whether two commitment hashes are the same 32 bytes.
pub fn hash_eq(a: &[u8; 32], b: &[u8; 32]) -> (same: bool)
    ensures
        same == (a@ == b@),
{
    let mut i: usize = 0;
    while i < 32
        invariant
            i <= 32,
            forall|j: int| 0 <= j < i ==> a@[j] == b@[j],
        decreases 32 - i,
    {
        if a[i] != b[i] {
            return false;
        }
        i = i + 1;
    }
    assert(a@ =~= b@);
    true
}

/// A builder that takes a list of leaves takes every beginning of it.
proof fn lemma_state_of_prefix(leaves: Seq<(u8, Seq<u8>)>, count: int)
    requires
        0 <= count <= leaves.len(),
        tree_state(leaves) is Some,
    ensures
        tree_state(leaves.take(count)) is Some,
    decreases leaves.len() - count,
{
    if count == leaves.len() {
        assert(leaves.take(count) =~= leaves);
    } else {
        lemma_state_of_prefix(leaves, count + 1);
        assert(leaves.take(count + 1).drop_last() =~= leaves.take(count));
    }
}

/// Packs the commitment hashes into the leaves of a balanced taproot tree
/// under the unspendable internal key: leaf `i` commits to hash `i`, at the
/// depth that `calculate_depths` gives it. Fails where the tree builder
/// refuses a leaf or cannot finish the tree.
pub fn create_pool_address(ctv_hashes: Vec<[u8; 32]>) -> (tree: Result<LockingTree, PoolError>)
    ensures
        match tree {
            Ok(built) => tree_builds(hashes_view(ctv_hashes@)) && built@ == spec_locking_tree(
                hashes_view(ctv_hashes@),
            ),
            Err(error) => !tree_builds(hashes_view(ctv_hashes@)) && error
                == PoolError::TreeConstruction,
        },
{
    let ghost hashes = hashes_view(ctv_hashes@);
    let ghost leaves = tree_leaves(hashes);
    let num_scripts = ctv_hashes.len();
    let depths = calculate_depths(num_scripts);
    let mut builder = taproot_builder_new();
    let mut i: usize = 0;
    proof {
        assert(leaves.take(0) =~= Seq::<(u8, Seq<u8>)>::empty());
    }
    while i < num_scripts
        invariant
            i <= num_scripts,
            num_scripts == ctv_hashes@.len(),
            hashes == hashes_view(ctv_hashes@),
            leaves == tree_leaves(hashes),
            depths@ == spec_depths(num_scripts as nat),
            tree_state(leaves.take(i as int)) == Some(builder_state(builder)),
        decreases num_scripts - i,
    {
        let script = ctv_script(ctv_hashes[i]);
        proof {
            lemma_leaf_depth_bounds(num_scripts as nat, i as int);
        }
        let depth = depths[i] as u8;
        proof {
            assert(hashes[i as int] == ctv_hashes@[i as int]@);
            assert(leaves[i as int] == (depth, script@));
            assert(leaves.take(i + 1).drop_last() =~= leaves.take(i as int));
            assert(leaves.take(i + 1).last() == leaves[i as int]);
        }
        match taproot_add_leaf(builder, depth, &script) {
            Ok(grown) => {
                builder = grown;
            },
            Err(_) => {
                proof {
                    assert(tree_state(leaves.take(i + 1)) is None);
                    if tree_state(leaves) is Some {
                        lemma_state_of_prefix(leaves, i + 1);
                    }
                }
                return Err(PoolError::TreeConstruction);
            },
        }
        i = i + 1;
    }
    proof {
        assert(leaves.take(num_scripts as int) =~= leaves);
    }
    let ghost state = builder_state(builder);
    let info = match taproot_finalize(builder, &UNSPENDABLE_INTERNAL_KEY) {
        Some(info) => info,
        None => {
            return Err(PoolError::TreeConstruction);
        },
    };
    let output_key = taproot_spend_output_key(&info);
    let mut control_blocks: Vec<Vec<u8>> = Vec::new();
    let mut k: usize = 0;
    while k < num_scripts
        invariant
            k <= num_scripts,
            num_scripts == ctv_hashes@.len(),
            hashes == hashes_view(ctv_hashes@),
            leaves == tree_leaves(hashes),
            tree_state(leaves) == Some(state),
            taproot_finalizes(state, UNSPENDABLE_INTERNAL_KEY@),
            spend_info_proofs(info) == taproot_proofs(UNSPENDABLE_INTERNAL_KEY@, state),
            control_blocks@.len() == k,
            forall|j: int|
                0 <= j < k ==> spend_info_proofs(info).contains_key(
                    #[trigger] spec_ctv_script(hashes[j]),
                ),
            forall|j: int|
                0 <= j < k ==> (#[trigger] control_blocks@[j])@ == spend_info_proofs(
                    info,
                )[spec_ctv_script(hashes[j])],
        decreases num_scripts - k,
    {
        let script = ctv_script(ctv_hashes[k]);
        proof {
            assert(hashes[k as int] == ctv_hashes@[k as int]@);
        }
        match taproot_spend_control_block(&info, &script) {
            Some(block) => {
                control_blocks.push(block);
            },
            None => {
                return Err(PoolError::TreeConstruction);
            },
        }
        k = k + 1;
    }
    proof {
        assert forall|i: int| 0 <= i < hashes.len() implies taproot_proofs(
            UNSPENDABLE_INTERNAL_KEY@,
            built_state(hashes),
        ).contains_key(#[trigger] spec_ctv_script(hashes[i])) by {}
        assert(items_view(control_blocks@) =~= spec_locking_tree(hashes).control_blocks);
    }
    Ok(LockingTree { leaf_hashes: ctv_hashes, output_key, control_blocks })
}

/// Completes the proof material of `unsigned_tx`: every input's witness gets
/// the leaf script that commits to `ctv_hash` and the control block that
/// proves it a leaf of `tree`. No key signs: the proof is public tree data.
/// Fails where the tree has no leaf for `ctv_hash`.
pub fn spend_ctv(unsigned_tx: Transaction, tree: &LockingTree, ctv_hash: [u8; 32]) -> (spend: Result<
    Transaction,
    PoolError,
>)
    ensures
        match spend {
            Ok(tx) => tree@.leaf_hashes.contains(ctv_hash@) && tx@ == spec_spend_ctv(
                unsigned_tx@,
                tree@,
                ctv_hash@,
            ),
            Err(error) => !tree@.leaf_hashes.contains(ctv_hash@) && error == PoolError::MissingLeaf,
        },
{
    let block = match tree.control_block(&ctv_hash) {
        Some(block) => block,
        None => {
            return Err(PoolError::MissingLeaf);
        },
    };
    let script = ctv_script(ctv_hash);
    let ghost expected = spec_spend_ctv(unsigned_tx@, tree@, ctv_hash@);
    let mut input: Vec<TxIn> = Vec::new();
    let mut i: usize = 0;
    while i < unsigned_tx.input.len()
        invariant
            i <= unsigned_tx.input.len(),
            expected == spec_spend_ctv(unsigned_tx@, tree@, ctv_hash@),
            script@ == spec_ctv_script(ctv_hash@),
            block@ == spec_control_block(tree@, ctv_hash@),
            inputs_view(input@) == expected.input.take(i as int),
        decreases unsigned_tx.input.len() - i,
    {
        let unsigned = &unsigned_tx.input[i];
        let mut witness = clone_items(&unsigned.witness);
        witness.push(script.clone());
        witness.push(block.clone());
        let signed = TxIn {
            previous_output: unsigned.previous_output,
            sequence: unsigned.sequence,
            witness,
        };
        proof {
            assert(items_view(witness@) =~= items_view(unsigned.witness@).push(script@).push(
                block@,
            ));
        }
        let ghost before = input@;
        input.push(signed);
        proof {
            assert(inputs_view(input@) =~= inputs_view(before).push(signed@));
        }
        i = i + 1;
    }
    proof {
        assert(expected.input.take(unsigned_tx.input.len() as int) =~= expected.input);
    }
    Ok(
        Transaction {
            version: unsigned_tx.version,
            lock_time: unsigned_tx.lock_time,
            input,
            output: unsigned_tx.output,
        },
    )
}

} // verus!
