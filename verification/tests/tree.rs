use bitcoin::hashes::Hash as _;
use bitcoin::secp256k1::{Secp256k1, XOnlyPublicKey};
use bitcoin::taproot::{LeafVersion, TaprootBuilder};
use bitcoin::ScriptBuf;
use ctv_exit_pool::config::Network;
use ctv_exit_pool::error::PoolError;
use ctv_exit_pool::script::{ctv_script, marker_script, p2tr_script};
use ctv_exit_pool::tree::{create_pool_address, spend_ctv, UNSPENDABLE_INTERNAL_KEY};
use ctv_exit_pool::tx::{OutPoint, Transaction, TxIn, TxOut};

fn sample_hash(seed: u8) -> [u8; 32] {
    bitcoin::hashes::sha256::Hash::hash(&[seed]).to_byte_array()
}

fn sample_hashes(count: u8) -> Vec<[u8; 32]> {
    (0..count).map(sample_hash).collect()
}

#[test]
fn ctv_script_pushes_hash_then_opcode() {
    let hash = sample_hash(7);
    let script = ctv_script(hash);
    assert_eq!(script.len(), 34);
    assert_eq!(script[0], 0x20);
    assert_eq!(&script[1..33], &hash[..]);
    assert_eq!(script[33], 0xb3);
    let expected = bitcoin::script::Builder::new()
        .push_slice(hash)
        .push_opcode(bitcoin::opcodes::all::OP_NOP4)
        .into_script();
    assert_eq!(script, expected.into_bytes());
}

#[test]
fn p2tr_script_is_version_one_program() {
    let key = XOnlyPublicKey::from_slice(&UNSPENDABLE_INTERNAL_KEY).unwrap();
    let tweaked = bitcoin::key::TweakedPublicKey::dangerous_assume_tweaked(key);
    let expected = ScriptBuf::new_p2tr_tweaked(tweaked);
    assert_eq!(p2tr_script(&UNSPENDABLE_INTERNAL_KEY), expected.into_bytes());
}

#[test]
fn marker_script_is_op_return_push() {
    assert_eq!(marker_script(b"abc"), Some(vec![0x6a, 3, b'a', b'b', b'c']));
    assert_eq!(marker_script(&[]), Some(vec![0x6a, 0]));
    assert!(marker_script(&[7; 75]).is_some());
    assert_eq!(marker_script(&[7; 76]), None);
}

#[test]
fn unspendable_key_is_a_curve_point() {
    assert!(XOnlyPublicKey::from_slice(&UNSPENDABLE_INTERNAL_KEY).is_ok());
}

#[test]
fn trees_of_every_small_size_build() {
    for count in 0u8..=33 {
        let tree = create_pool_address(sample_hashes(count)).unwrap();
        assert_eq!(tree.leaf_count(), count as usize);
    }
}

#[test]
fn tree_matches_the_taproot_builder() {
    let hashes = sample_hashes(3);
    let tree = create_pool_address(hashes.clone()).unwrap();
    let secp = Secp256k1::verification_only();
    let key = XOnlyPublicKey::from_slice(&UNSPENDABLE_INTERNAL_KEY).unwrap();
    let info = TaprootBuilder::new()
        .add_leaf(2, ScriptBuf::from_bytes(ctv_script(hashes[0])))
        .unwrap()
        .add_leaf(2, ScriptBuf::from_bytes(ctv_script(hashes[1])))
        .unwrap()
        .add_leaf(1, ScriptBuf::from_bytes(ctv_script(hashes[2])))
        .unwrap()
        .finalize(&secp, key)
        .unwrap();
    assert_eq!(tree.output_key(), info.output_key().serialize());
    assert_eq!(tree.address().script_pubkey(), ScriptBuf::new_p2tr_tweaked(info.output_key()).into_bytes());
    for hash in &hashes {
        let leaf = (ScriptBuf::from_bytes(ctv_script(*hash)), LeafVersion::TapScript);
        let block = info.control_block(&leaf).unwrap();
        assert_eq!(tree.control_block(hash).unwrap(), block.serialize());
        assert!(block.verify_taproot_commitment(&secp, info.output_key().to_inner(), &leaf.0));
    }
    assert_eq!(tree.control_block(&sample_hash(99)), None);
}

#[test]
fn leaf_hashes_are_kept_in_order() {
    let hashes = sample_hashes(3);
    let tree = create_pool_address(hashes.clone()).unwrap();
    assert_eq!(tree.leaf_hash(0), Some(hashes[0]));
    assert_eq!(tree.leaf_hash(2), Some(hashes[2]));
    assert_eq!(tree.leaf_hash(3), None);
}

#[test]
fn same_hashes_give_the_same_tree() {
    let first = create_pool_address(sample_hashes(5)).unwrap();
    let second = create_pool_address(sample_hashes(5)).unwrap();
    assert_eq!(first, second);
    let other = create_pool_address(sample_hashes(4)).unwrap();
    assert_ne!(first.output_key(), other.output_key());
}

fn unsigned(inputs: usize) -> Transaction {
    Transaction {
        version: 3,
        lock_time: 0,
        input: (0..inputs)
            .map(|i| TxIn {
                previous_output: OutPoint { txid: [i as u8; 32], vout: i as u32 },
                sequence: 0xFFFF_FFFD,
                witness: Vec::new(),
            })
            .collect(),
        output: vec![TxOut { value: 5, script_pubkey: vec![0x51] }],
    }
}

#[test]
fn spend_ctv_fills_every_witness() {
    let hashes = sample_hashes(4);
    let tree = create_pool_address(hashes.clone()).unwrap();
    let spent = spend_ctv(unsigned(2), &tree, hashes[1]).unwrap();
    assert_eq!(spent.output, unsigned(2).output);
    assert_eq!(spent.input.len(), 2);
    for (i, input) in spent.input.iter().enumerate() {
        assert_eq!(input.previous_output, unsigned(2).input[i].previous_output);
        assert_eq!(input.witness.len(), 2);
        assert_eq!(input.witness[0], ctv_script(hashes[1]));
        assert_eq!(input.witness[1], tree.control_block(&hashes[1]).unwrap());
    }
}

#[test]
fn spend_ctv_without_leaf_is_missing_leaf() {
    let tree = create_pool_address(sample_hashes(4)).unwrap();
    assert_eq!(spend_ctv(unsigned(1), &tree, sample_hash(77)), Err(PoolError::MissingLeaf));
}

#[test]
fn errors_describe_themselves() {
    assert_eq!(PoolError::TreeConstruction.message(), "the commitment tree could not be built");
    assert_eq!(PoolError::MissingSubpool.message(), "the smaller pool lacks a subset");
    assert_eq!(PoolError::MissingLeaf.message(), "the tree has no leaf for this exit");
    assert_eq!(PoolError::TooFewParticipants.message(), "a pool needs at least 3 participants");
    assert_eq!(PoolError::TooManyParticipants.message(), "a pool holds at most 64 participants");
    assert_eq!(PoolError::WalkFinished.message(), "every participant has left");
    assert_eq!(PoolError::InsufficientFunds.message(), "no coin covers the fee");
}

#[test]
fn tree_of_no_leaves_is_key_only() {
    let tree = create_pool_address(Vec::new()).unwrap();
    assert_eq!(tree.leaf_count(), 0);
    let secp = Secp256k1::verification_only();
    let key = XOnlyPublicKey::from_slice(&UNSPENDABLE_INTERNAL_KEY).unwrap();
    let info = TaprootBuilder::new().finalize(&secp, key).unwrap();
    assert_eq!(tree.output_key(), info.output_key().serialize());
    assert_eq!(tree.control_block(&[0; 32]), None);
}

#[test]
fn network_flavours() {
    assert_eq!(Network::Regtest.tx_version(), 3);
    assert_eq!(Network::Signet.tx_version(), 2);
    assert!(Network::Regtest.has_fee_anchor());
    assert!(!Network::Signet.has_fee_anchor());
}
