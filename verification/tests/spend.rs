use bitcoin::hashes::Hash as _;
use bitcoin::secp256k1::{Secp256k1, XOnlyPublicKey};
use ctv_exit_pool::config::{Network, AMOUNT_PER_USER, FEE_AMOUNT};
use ctv_exit_pool::error::PoolError;
use ctv_exit_pool::ladder::build_ladder;
use ctv_exit_pool::pools::Pool;
use ctv_exit_pool::script::ctv_script;
use ctv_exit_pool::spend::{
    find_funding_vout, next_spend, next_spend_tx, pool_spend_tx, process_pool_spend, remaining_participants,
    send_from_pool, withdrawal_tx, SpendStep,
};
use ctv_exit_pool::ctv_scripts::calc_ctv_hash;
use ctv_exit_pool::tx::{Address, OutPoint, Transaction, TxOut};

fn addresses(count: usize) -> Vec<Address> {
    (0..count).map(|i| Address::from_script(vec![0x00, 0x14, i as u8, 0xbb])).collect()
}

fn anchor() -> Address {
    Address::from_script(vec![0x51, 0x02, 0x4e, 0x73])
}

fn check_witness(tx: &Transaction, locked_by: &[u8; 32], network: Network) {
    assert_eq!(tx.input.len(), 1);
    let witness = &tx.input[0].witness;
    assert_eq!(witness.len(), 2);
    let hash = calc_ctv_hash(&tx.output, None, network);
    assert_eq!(witness[0], ctv_script(hash));
    let block = bitcoin::taproot::ControlBlock::decode(&witness[1]).unwrap();
    let key = XOnlyPublicKey::from_slice(locked_by).unwrap();
    let script = bitcoin::ScriptBuf::from_bytes(witness[0].clone());
    assert!(block.verify_taproot_commitment(&Secp256k1::verification_only(), key, &script));
}

#[test]
fn five_participants_walk() {
    let count = 5;
    let users = addresses(count);
    let network = Network::Signet;
    let ladder = build_ladder(&users, &anchor(), network).unwrap();
    let mut state = SpendStep::start(OutPoint { txid: [9; 32], vout: 1 }, count);
    let mut sizes = Vec::new();
    for step in 0..=3usize {
        sizes.push(state.remaining.len());
        assert_eq!(state.step_index, step);
        assert_eq!(state.exiting_participant(), Some(step));
        assert_eq!(state.remaining, (step..count).collect::<Vec<_>>());
        let tx = next_spend_tx(&ladder, network, &users, &anchor(), &state).unwrap();
        assert_eq!(
            tx,
            pool_spend_tx(&ladder, network, step, &users, state.funding.txid, state.funding.vout, &anchor())
                .unwrap()
        );
        assert_eq!(tx.version, 2);
        assert_eq!(tx.lock_time, 0);
        assert_eq!(tx.input[0].previous_output, state.funding);
        assert_eq!(tx.input[0].sequence, 0xFFFF_FFFD);
        assert_eq!(tx.output.len(), 2);
        let locked = ladder[count - 2 - step].get(&state.remaining).unwrap();
        check_witness(&tx, &locked.output_key(), network);
        if step < 3 {
            let rest: Vec<usize> = (step + 1..count).collect();
            let below = ladder[count - 3 - step].get(&rest).unwrap();
            assert_eq!(tx.output[0].value, (count - step - 1) as u64 * AMOUNT_PER_USER);
            assert_eq!(tx.output[0].script_pubkey, below.address().script_pubkey());
            assert_eq!(tx.output[1].value, AMOUNT_PER_USER - FEE_AMOUNT);
            assert_eq!(tx.output[1].script_pubkey, users[step].script_pubkey());
        } else {
            assert_eq!(tx.output[0], TxOut { value: AMOUNT_PER_USER, script_pubkey: users[3].script_pubkey() });
            assert_eq!(
                tx.output[1],
                TxOut { value: AMOUNT_PER_USER - FEE_AMOUNT, script_pubkey: users[4].script_pubkey() }
            );
        }
        state = state.advance(OutPoint { txid: [step as u8; 32], vout: 0 });
    }
    assert_eq!(sizes, vec![5, 4, 3, 2]);
    assert!(state.remaining.is_empty());
    assert_eq!(state.exiting_participant(), None);
    assert_eq!(next_spend_tx(&ladder, network, &users, &anchor(), &state), Err(PoolError::WalkFinished));
    assert_eq!(
        pool_spend_tx(&ladder, network, 4, &users, [0; 32], 0, &anchor()),
        Err(PoolError::WalkFinished)
    );
}

#[test]
fn regtest_spends_carry_the_anchor_and_version_three() {
    let users = addresses(3);
    let network = Network::Regtest;
    let ladder = build_ladder(&users, &anchor(), network).unwrap();
    let first = pool_spend_tx(&ladder, network, 0, &users, [7; 32], 2, &anchor()).unwrap();
    assert_eq!(first.version, 3);
    assert_eq!(first.output.len(), 3);
    assert_eq!(first.output[2], TxOut { value: FEE_AMOUNT, script_pubkey: anchor().script_pubkey() });
    let total: u64 = first.output.iter().map(|o| o.value).sum();
    assert_eq!(total, 3 * AMOUNT_PER_USER);
    let entry = ladder[1].get(&vec![0, 1, 2]).unwrap();
    check_witness(&first, &entry.output_key(), network);
    let last = pool_spend_tx(&ladder, network, 1, &users, [8; 32], 0, &anchor()).unwrap();
    assert_eq!(last.output.len(), 3);
    let total: u64 = last.output.iter().map(|o| o.value).sum();
    assert_eq!(total, 2 * AMOUNT_PER_USER);
    check_witness(&last, &ladder[0].get(&vec![1, 2]).unwrap().output_key(), network);
}

#[test]
fn raw_transaction_deserialises_to_the_assembled_one() {
    let users = addresses(4);
    let network = Network::Regtest;
    let ladder = build_ladder(&users, &anchor(), network).unwrap();
    let txid = [0x42; 32];
    let tx = pool_spend_tx(&ladder, network, 0, &users, txid, 5, &anchor()).unwrap();
    let raw = process_pool_spend(&ladder, network, 0, &users, txid, 5, &anchor()).unwrap();
    let bytes: Vec<u8> = (0..raw.len() / 2).map(|i| u8::from_str_radix(&raw[2 * i..2 * i + 2], 16).unwrap()).collect();
    assert_eq!(raw, raw.to_lowercase());
    let decoded: bitcoin::Transaction = bitcoin::consensus::deserialize(&bytes).unwrap();
    assert_eq!(decoded.version.0, 3);
    assert_eq!(decoded.lock_time.to_consensus_u32(), 0);
    assert_eq!(decoded.input.len(), 1);
    assert_eq!(decoded.input[0].previous_output.txid.to_byte_array(), txid);
    assert_eq!(decoded.input[0].previous_output.vout, 5);
    assert_eq!(decoded.input[0].sequence.0, 0xFFFF_FFFD);
    assert!(decoded.input[0].script_sig.is_empty());
    assert_eq!(decoded.input[0].witness.to_vec(), tx.input[0].witness);
    assert_eq!(decoded.output.len(), tx.output.len());
    for (a, b) in decoded.output.iter().zip(tx.output.iter()) {
        assert_eq!(a.value.to_sat(), b.value);
        assert_eq!(a.script_pubkey.as_bytes(), &b.script_pubkey[..]);
    }
}

#[test]
fn send_from_pool_is_the_serialised_withdrawal() {
    let users = addresses(4);
    let network = Network::Signet;
    let ladder = build_ladder(&users, &anchor(), network).unwrap();
    let raw = send_from_pool(
        &ladder,
        network,
        1,
        vec![1, 2, 3],
        users[0].clone(),
        &anchor(),
        3 * AMOUNT_PER_USER,
        [1; 32],
        vec![0, 1, 2, 3],
        0,
    )
    .unwrap();
    assert_eq!(raw, process_pool_spend(&ladder, network, 0, &users, [1; 32], 0, &anchor()).unwrap());
}

#[test]
fn withdrawal_errors() {
    let users = addresses(4);
    let network = Network::Signet;
    let ladder = build_ladder(&users, &anchor(), network).unwrap();
    let amount = 3 * AMOUNT_PER_USER;
    let full = vec![0, 1, 2, 3];
    let rest = vec![1, 2, 3];
    let go = |pool_num: usize, combo: &Vec<usize>, amount: u64, previous: &Vec<usize>| {
        withdrawal_tx(&ladder, network, pool_num, combo, &users[0], &anchor(), amount, [1; 32], previous, 0)
    };
    assert!(go(1, &rest, amount, &full).is_ok());
    assert_eq!(go(3, &rest, amount, &full), Err(PoolError::MissingSubpool));
    assert_eq!(go(1, &vec![1, 2], amount, &full), Err(PoolError::MissingSubpool));
    assert_eq!(go(2, &full, amount, &full), Err(PoolError::MissingLeaf));
    assert_eq!(go(1, &rest, amount, &rest), Err(PoolError::MissingLeaf));
    assert_eq!(go(1, &rest, amount + 1, &full), Err(PoolError::MissingLeaf));
    assert_eq!(go(1, &vec![0, 1, 2], amount, &full), Err(PoolError::MissingLeaf));
}

#[test]
fn spend_errors() {
    let users = addresses(4);
    let network = Network::Signet;
    let ladder = build_ladder(&users, &anchor(), network).unwrap();
    let none: Vec<Pool> = Vec::new();
    assert_eq!(pool_spend_tx(&none, network, 0, &users, [0; 32], 0, &anchor()), Err(PoolError::MissingSubpool));
    assert_eq!(pool_spend_tx(&none, network, 2, &users, [0; 32], 0, &anchor()), Err(PoolError::MissingLeaf));
    assert_eq!(
        pool_spend_tx(&ladder, network, 0, &addresses(2), [0; 32], 0, &anchor()),
        Err(PoolError::TooFewParticipants)
    );
    assert_eq!(
        pool_spend_tx(&ladder, network, 0, &addresses(65), [0; 32], 0, &anchor()),
        Err(PoolError::TooManyParticipants)
    );
    assert_eq!(pool_spend_tx(&ladder, network, 3, &users, [0; 32], 0, &anchor()), Err(PoolError::WalkFinished));
    let other = addresses(5);
    assert_eq!(
        process_pool_spend(&ladder, network, 0, &other, [0; 32], 0, &anchor()),
        Err(PoolError::MissingSubpool)
    );
    let state = SpendStep { funding: OutPoint { txid: [0; 32], vout: 0 }, remaining: vec![2, 7], step_index: 2 };
    assert_eq!(next_spend_tx(&ladder, network, &users, &anchor(), &state), Err(PoolError::MissingLeaf));
}

#[test]
fn next_spend_follows_the_remaining_set() {
    let users = addresses(4);
    let network = Network::Signet;
    let ladder = build_ladder(&users, &anchor(), network).unwrap();
    let state = SpendStep { funding: OutPoint { txid: [3; 32], vout: 0 }, remaining: vec![0, 2, 3], step_index: 1 };
    let tx = next_spend_tx(&ladder, network, &users, &anchor(), &state).unwrap();
    assert_eq!(tx.output[0].script_pubkey, ladder[0].get(&vec![2, 3]).unwrap().address().script_pubkey());
    assert_eq!(tx.output[0].value, 2 * AMOUNT_PER_USER);
    assert_eq!(tx.output[1].script_pubkey, users[0].script_pubkey());
    check_witness(&tx, &ladder[1].get(&vec![0, 2, 3]).unwrap().output_key(), network);
    let next = state.advance(OutPoint { txid: [4; 32], vout: 0 });
    assert_eq!(next.remaining, vec![2, 3]);
    assert_eq!(next.step_index, 2);
}

#[test]
fn remaining_participants_are_a_range() {
    assert_eq!(remaining_participants(2, 5), vec![2, 3, 4]);
    assert_eq!(remaining_participants(5, 5), Vec::<usize>::new());
    assert_eq!(remaining_participants(6, 5), Vec::<usize>::new());
}

#[test]
fn funding_output_is_found_by_amount() {
    let outputs = vec![
        TxOut { value: 5, script_pubkey: vec![] },
        TxOut { value: 33000, script_pubkey: vec![1] },
        TxOut { value: 33000, script_pubkey: vec![2] },
    ];
    assert_eq!(find_funding_vout(&outputs, 33000), Some(1));
    assert_eq!(find_funding_vout(&outputs, 5), Some(0));
    assert_eq!(find_funding_vout(&outputs, 6), None);
    assert_eq!(find_funding_vout(&[], 6), None);
}

#[test]
fn every_step_of_every_small_walk_succeeds() {
    for network in [Network::Regtest, Network::Signet] {
        for count in 3usize..=7 {
            let users = addresses(count);
            let ladder = build_ladder(&users, &anchor(), network).unwrap();
            let mut state = SpendStep::start(OutPoint { txid: [0xee; 32], vout: 0 }, count);
            for step in 0..=count - 2 {
                assert_eq!(state.exiting_participant(), Some(step));
                assert_eq!(state.remaining.len(), count - step);
                let tx = next_spend_tx(&ladder, network, &users, &anchor(), &state).unwrap();
                let locked = ladder[count - 2 - step].get(&state.remaining).unwrap();
                check_witness(&tx, &locked.output_key(), network);
                let total: u64 = tx.output.iter().map(|o| o.value).sum();
                let fee = if network == Network::Regtest { 0 } else { FEE_AMOUNT };
                assert_eq!(total + fee, (count - step) as u64 * AMOUNT_PER_USER);
                state = state.advance(OutPoint { txid: [step as u8; 32], vout: 0 });
            }
            assert!(state.remaining.is_empty());
        }
    }
}

fn decode(raw: &str) -> bitcoin::Transaction {
    let bytes: Vec<u8> = (0..raw.len() / 2).map(|i| u8::from_str_radix(&raw[2 * i..2 * i + 2], 16).unwrap()).collect();
    bitcoin::consensus::deserialize(&bytes).unwrap()
}

#[test]
fn walk_needs_no_broadcaster() {
    let count = 5;
    let users = addresses(count);
    let network = Network::Regtest;
    let ladder = build_ladder(&users, &anchor(), network).unwrap();
    let mut state = SpendStep::start(OutPoint { txid: [9; 32], vout: 3 }, count);
    let mut sizes = Vec::new();
    for step in 0..=3usize {
        sizes.push(state.remaining.len());
        assert_eq!(state.exiting_participant(), Some(step));
        let expected = next_spend_tx(&ladder, network, &users, &anchor(), &state).unwrap();
        let (raw, next) = next_spend(&ladder, network, &users, &anchor(), &state).unwrap();
        let decoded = decode(&raw);
        assert_eq!(decoded.input[0].previous_output.txid.to_byte_array(), state.funding.txid);
        assert_eq!(decoded.input[0].previous_output.vout, state.funding.vout);
        assert_eq!(decoded.input[0].witness.to_vec(), expected.input[0].witness);
        assert_eq!(decoded.output.len(), 3);
        assert_eq!(next.funding.txid, decoded.compute_txid().to_byte_array());
        assert_ne!(next.funding.txid, state.funding.txid);
        assert_eq!(next.funding.vout, 0);
        assert_eq!(next.step_index, step + 1);
        if step < 3 {
            assert_eq!(next.remaining, (step + 1..count).collect::<Vec<_>>());
            assert_eq!(decoded.output[0].value.to_sat(), (count - step - 1) as u64 * AMOUNT_PER_USER);
        } else {
            assert!(next.remaining.is_empty());
        }
        state = next;
    }
    assert_eq!(sizes, vec![5, 4, 3, 2]);
    assert_eq!(next_spend(&ladder, network, &users, &anchor(), &state).err(), Some(PoolError::WalkFinished));
}
