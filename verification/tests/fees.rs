use ctv_exit_pool::config::{Network, AMOUNT_PER_USER, DEFAULT_FEE_RATE, DUST_AMOUNT, FEE_AMOUNT};
use ctv_exit_pool::error::PoolError;
use ctv_exit_pool::fees::{
    child_fee, cpfp_child_tx, cpfp_tx, effective_fee_rate, fee_per_user, funding_change, init_wallet_amount,
    matching_vouts, pool_amount, select_fee_coin, Utxo, ANCHOR_VOUT, CHILD_MARKER,
};
use ctv_exit_pool::tx::{Address, OutPoint};

fn coin(tag: u8, amount: u64) -> Utxo {
    Utxo { outpoint: OutPoint { txid: [tag; 32], vout: tag as u32 }, amount }
}

#[test]
fn child_fee_is_rate_times_size_per_thousand() {
    assert_eq!(child_fee(0), 0);
    assert_eq!(child_fee(1000), 112);
    assert_eq!(child_fee(5000), 560);
    assert_eq!(child_fee(1234), 138);
    assert_eq!(child_fee(u64::MAX), ((u64::MAX as u128 * 112) / 1000) as u64);
}

#[test]
fn fee_rate_falls_back_to_the_default() {
    assert_eq!(effective_fee_rate(Some(1200)), 1200);
    assert_eq!(effective_fee_rate(None), DEFAULT_FEE_RATE);
    assert_eq!(DEFAULT_FEE_RATE, 5000);
}

#[test]
fn first_covering_coin_is_selected() {
    let coins = vec![coin(1, 100), coin(2, 560), coin(3, 10_000)];
    assert_eq!(select_fee_coin(&coins, 560), Some(1));
    assert_eq!(select_fee_coin(&coins, 561), Some(2));
    assert_eq!(select_fee_coin(&coins, 0), Some(0));
    assert_eq!(select_fee_coin(&coins, 10_001), None);
    assert_eq!(select_fee_coin(&[], 0), None);
}

#[test]
fn child_spends_anchor_and_coin() {
    let change = Address::from_script(vec![0x00, 0x14, 0x77]);
    let child = cpfp_child_tx(Network::Regtest, [0xaa; 32], 5000, &coin(4, 50_000), &change).unwrap();
    assert_eq!(child.version, 3);
    assert_eq!(child.lock_time, 0);
    assert_eq!(child.input.len(), 2);
    assert_eq!(child.input[0].previous_output, OutPoint { txid: [0xaa; 32], vout: ANCHOR_VOUT });
    assert_eq!(child.input[1].previous_output, OutPoint { txid: [4; 32], vout: 4 });
    for input in &child.input {
        assert_eq!(input.sequence, 0xFFFF_FFFD);
        assert!(input.witness.is_empty());
    }
    assert_eq!(child.output.len(), 2);
    assert_eq!(child.output[0].value, 0);
    let mut marker = vec![0x6a, 12];
    marker.extend(CHILD_MARKER);
    assert_eq!(child.output[0].script_pubkey, marker);
    assert_eq!(std::str::from_utf8(&CHILD_MARKER).unwrap(), "\u{2693} \u{1F96A} \u{2693}");
    assert_eq!(child.output[1].value, 50_000 + FEE_AMOUNT - 560);
    assert_eq!(child.output[1].script_pubkey, change.script_pubkey());
}

#[test]
fn child_needs_a_coin_that_covers_the_fee() {
    let change = Address::from_script(vec![0x51]);
    assert_eq!(
        cpfp_child_tx(Network::Regtest, [1; 32], 5000, &coin(1, 559), &change),
        Err(PoolError::InsufficientFunds)
    );
    assert_eq!(cpfp_tx(Network::Regtest, [1; 32], 5000, &coin(1, 559), &change), Err(PoolError::InsufficientFunds));
    let exact = cpfp_child_tx(Network::Signet, [1; 32], 5000, &coin(1, 560), &change).unwrap();
    assert_eq!(exact.version, 2);
    assert_eq!(exact.output[1].value, FEE_AMOUNT);
}

#[test]
fn raw_child_deserialises() {
    let change = Address::from_script(vec![0x00, 0x14, 0x77]);
    let raw = cpfp_tx(Network::Regtest, [0xaa; 32], 5000, &coin(4, 50_000), &change).unwrap();
    let bytes: Vec<u8> = (0..raw.len() / 2).map(|i| u8::from_str_radix(&raw[2 * i..2 * i + 2], 16).unwrap()).collect();
    let decoded: bitcoin::Transaction = bitcoin::consensus::deserialize(&bytes).unwrap();
    assert_eq!(decoded.input.len(), 2);
    assert_eq!(decoded.output.len(), 2);
    assert_eq!(decoded.output[1].value.to_sat(), 50_440);
    assert!(decoded.output[0].script_pubkey.is_op_return());
}

#[test]
fn fee_share_formula() {
    assert_eq!(fee_per_user(5000, 0), None);
    assert_eq!(fee_per_user(5000, 65), None);
    assert_eq!(fee_per_user(5000, 1), Some(730));
    assert_eq!(fee_per_user(5000, 3), Some((5000 * (3 * 68 + 4 * 34 + 10) / 1000) / 3));
    assert_eq!(fee_per_user(5000, 10), Some(532));
    assert_eq!(fee_per_user(0, 10), Some(0));
    let top = fee_per_user(u64::MAX, 64).unwrap();
    assert_eq!(top as u128, (u64::MAX as u128 * 6572 / 1000) / 64);
}

#[test]
fn funding_change_keeps_dust_above_water() {
    let needed = AMOUNT_PER_USER + 532 + DUST_AMOUNT;
    assert_eq!(funding_change(needed, 532), Ok(DUST_AMOUNT));
    assert_eq!(funding_change(needed - 1, 532), Err(PoolError::InsufficientFunds));
    assert_eq!(funding_change(13_000, 532), Ok(13_000 - 11_000 - 532));
    assert_eq!(funding_change(0, u64::MAX), Err(PoolError::InsufficientFunds));
    assert_eq!(funding_change(u64::MAX, 0), Ok(u64::MAX - AMOUNT_PER_USER));
}

#[test]
fn wallet_outputs_are_matched_by_amount() {
    assert_eq!(init_wallet_amount(), 13_000);
    assert_eq!(matching_vouts(&[13_000, 5, 13_000, 12_999, 13_001, 13_000]), vec![0, 2, 5]);
    assert_eq!(matching_vouts(&[1, 2, 3]), Vec::<usize>::new());
    assert_eq!(matching_vouts(&[]), Vec::<usize>::new());
}

#[test]
fn pool_amount_is_one_contribution_each() {
    assert_eq!(pool_amount(0), 0);
    assert_eq!(pool_amount(3), 33_000);
    assert_eq!(pool_amount(10), 110_000);
    assert_eq!(pool_amount(64), 704_000);
}
