use ctv_exit_pool::config::{Network, AMOUNT_PER_USER, FEE_AMOUNT};
use ctv_exit_pool::ctv_scripts::create_withdraw_ctv_hash;
use ctv_exit_pool::error::PoolError;
use ctv_exit_pool::ladder::{build_ladder, create_all_pools};
use ctv_exit_pool::pools::{
    all_participants, create_entry_pool_withdraw_hashes, create_exit_pool, create_pool, exit_amount, Pool,
};
use ctv_exit_pool::tree::create_pool_address;
use ctv_exit_pool::tx::Address;

fn addresses(count: usize) -> Vec<Address> {
    (0..count).map(|i| Address::from_script(vec![0x00, 0x14, i as u8, 0xaa])).collect()
}

fn anchor() -> Address {
    Address::from_script(vec![0x51, 0x02, 0x4e, 0x73])
}

fn binomial(n: usize, k: usize) -> usize {
    (0..k).fold(1, |acc, i| acc * (n - i) / (i + 1))
}

#[test]
fn three_participants_end_to_end() {
    let users = addresses(3);
    let network = Network::Signet;
    let exit_pool = create_exit_pool(&users, &anchor(), network).unwrap();
    assert_eq!(exit_pool.len(), 3);
    for pair in [vec![0, 1], vec![0, 2], vec![1, 2]] {
        let tree = exit_pool.get(&pair).unwrap();
        assert_eq!(tree.leaf_count(), 1);
        assert_eq!(
            tree.leaf_hash(0).unwrap(),
            create_withdraw_ctv_hash(&users[pair[0]], &users[pair[1]], &anchor(), AMOUNT_PER_USER, network)
        );
    }
    let ladder = build_ladder(&users, &anchor(), network).unwrap();
    assert_eq!(ladder.len(), 2);
    assert_eq!(ladder[1].len(), 1);
    let entry = ladder[1].get(&vec![0, 1, 2]).unwrap();
    assert_eq!(entry.leaf_count(), 3);
    for leaver in 0..3usize {
        let rest: Vec<usize> = (0..3).filter(|&x| x != leaver).collect();
        let pool_address = ladder[0].get(&rest).unwrap().address();
        let outputs = ctv_exit_pool::ctv_scripts::withdraw_outputs(
            &pool_address,
            &users[leaver],
            &anchor(),
            2 * 11000,
            network,
        );
        assert_eq!(outputs.len(), 2);
        assert_eq!(outputs[0].value, 22000);
        assert_eq!(outputs[1].value, 10000);
        assert_eq!(outputs[0].value + outputs[1].value, 32000);
        assert_eq!(outputs[0].value + outputs[1].value + FEE_AMOUNT, 3 * AMOUNT_PER_USER);
        assert_eq!(
            entry.leaf_hash(leaver).unwrap(),
            create_withdraw_ctv_hash(&pool_address, &users[leaver], &anchor(), 22000, network)
        );
    }
}

#[test]
fn four_participants_ladder_shape() {
    let users = addresses(4);
    let ladder = build_ladder(&users, &anchor(), Network::Regtest).unwrap();
    assert_eq!(ladder.len(), 3);
    assert_eq!(ladder[0].len(), 6);
    assert_eq!(ladder[1].len(), 4);
    assert_eq!(ladder[2].len(), 1);
    assert_eq!(ladder[2].get(&vec![0, 1, 2, 3]).unwrap().leaf_count(), 4);
    for trio in [vec![0, 1, 2], vec![0, 1, 3], vec![0, 2, 3], vec![1, 2, 3]] {
        assert_eq!(ladder[1].get(&trio).unwrap().leaf_count(), 3);
    }
}

#[test]
fn pool_over_empty_pool_is_missing_subpool() {
    let users = addresses(4);
    let empty = Pool::new();
    assert_eq!(empty.len(), 0);
    let built = create_pool(&empty, 3, &users, &anchor(), Network::Regtest);
    assert_eq!(built.err(), Some(PoolError::MissingSubpool));
}

#[test]
fn pool_needs_every_smaller_subset() {
    let users = addresses(4);
    let network = Network::Regtest;
    let full = create_exit_pool(&users, &anchor(), network).unwrap();
    let mut partial = Pool::new();
    for pair in [vec![0usize, 1], vec![0, 2], vec![0, 3], vec![1, 2], vec![1, 3]] {
        let hash = full.get(&pair).unwrap().leaf_hash(0).unwrap();
        assert!(partial.insert(&pair, create_pool_address(vec![hash]).unwrap()));
    }
    assert_eq!(partial.len(), 5);
    assert!(!partial.contains(&vec![2, 3]));
    let built = create_pool(&partial, 3, &users, &anchor(), network);
    assert_eq!(built.err(), Some(PoolError::MissingSubpool));
    assert!(create_pool(&full, 3, &users, &anchor(), network).is_ok());
}

#[test]
fn every_rung_has_every_subset_with_one_leaf_per_member() {
    let count = 6;
    let users = addresses(count);
    let network = Network::Signet;
    let ladder = build_ladder(&users, &anchor(), network).unwrap();
    assert_eq!(ladder.len(), count - 1);
    for (rung, pool) in ladder.iter().enumerate() {
        let size = rung + 2;
        assert_eq!(pool.len(), binomial(count, size));
        for mask in 0u32..(1 << count) {
            let members: Vec<usize> = (0..count).filter(|i| mask & (1 << i) != 0).collect();
            if members.len() != size {
                assert!(members.len() == size || !pool.contains(&members));
                continue;
            }
            let tree = pool.get(&members).unwrap();
            if size == 2 {
                assert_eq!(tree.leaf_count(), 1);
                continue;
            }
            assert_eq!(tree.leaf_count(), size);
            for (i, member) in members.iter().enumerate() {
                let mut rest = members.clone();
                rest.remove(i);
                let below = ladder[rung - 1].get(&rest).unwrap().address();
                let amount = (size as u64 - 1) * AMOUNT_PER_USER;
                assert_eq!(exit_amount(size), amount);
                assert_eq!(
                    tree.leaf_hash(i).unwrap(),
                    create_withdraw_ctv_hash(&below, &users[*member], &anchor(), amount, network)
                );
                assert_eq!(amount + (AMOUNT_PER_USER - FEE_AMOUNT) + FEE_AMOUNT, size as u64 * AMOUNT_PER_USER);
            }
        }
    }
}

#[test]
fn building_twice_gives_identical_ladders() {
    let users = addresses(5);
    let first = build_ladder(&users, &anchor(), Network::Regtest).unwrap();
    let second = build_ladder(&users, &anchor(), Network::Regtest).unwrap();
    assert_eq!(first.len(), second.len());
    for (a, b) in first.iter().zip(second.iter()) {
        assert_eq!(a.len(), b.len());
    }
    for size in 2..=5usize {
        for mask in 0u32..32 {
            let members: Vec<usize> = (0..5).filter(|i| mask & (1 << i) != 0).collect();
            if members.len() == size {
                let a = first[size - 2].get(&members).unwrap();
                let b = second[size - 2].get(&members).unwrap();
                assert_eq!(a, b);
                assert_eq!(a.output_key(), b.output_key());
            }
        }
    }
}

#[test]
fn pools_are_keyed_by_canonical_sets_only() {
    let users = addresses(3);
    let pool = create_exit_pool(&users, &anchor(), Network::Signet).unwrap();
    assert!(pool.contains(&vec![0, 2]));
    assert!(!pool.contains(&vec![2, 0]));
    assert!(!pool.contains(&vec![0, 0]));
    assert!(!pool.contains(&vec![0, 3]));
    assert!(!pool.contains(&vec![0]));
    assert!(!pool.contains(&vec![0, 64]));
    let mut other = Pool::new();
    let tree = create_pool_address(vec![[1u8; 32]]).unwrap();
    assert!(!other.insert(&vec![3, 1], tree));
    assert_eq!(other.len(), 0);
}

#[test]
fn too_few_and_too_many_participants() {
    assert_eq!(build_ladder(&addresses(2), &anchor(), Network::Signet).err(), Some(PoolError::TooFewParticipants));
    assert_eq!(build_ladder(&addresses(0), &anchor(), Network::Signet).err(), Some(PoolError::TooFewParticipants));
    assert_eq!(build_ladder(&addresses(65), &anchor(), Network::Signet).err(), Some(PoolError::TooManyParticipants));
    assert_eq!(create_exit_pool(&addresses(65), &anchor(), Network::Signet).err(), Some(PoolError::TooManyParticipants));
    let empty = Pool::new();
    assert_eq!(
        create_pool(&empty, 3, &addresses(65), &anchor(), Network::Signet).err(),
        Some(PoolError::TooManyParticipants)
    );
}

#[test]
fn create_all_pools_extends_the_exit_pool() {
    let users = addresses(5);
    let network = Network::Signet;
    let mut pools = vec![create_exit_pool(&users, &anchor(), network).unwrap()];
    assert_eq!(create_all_pools(&users, &anchor(), network, &mut pools), Ok(()));
    assert_eq!(pools.len(), 3);
    assert_eq!(pools[1].len(), 10);
    assert_eq!(pools[2].len(), 5);
    let mut none: Vec<Pool> = Vec::new();
    assert_eq!(create_all_pools(&users, &anchor(), network, &mut none), Err(PoolError::MissingSubpool));
    assert_eq!(none.len(), 0);
    let mut small: Vec<Pool> = Vec::new();
    assert_eq!(create_all_pools(&addresses(3), &anchor(), network, &mut small), Ok(()));
    let mut wrong = vec![Pool::new()];
    assert_eq!(create_all_pools(&users, &anchor(), network, &mut wrong), Err(PoolError::MissingSubpool));
    assert_eq!(wrong.len(), 1);
}

#[test]
fn entry_hashes_are_the_entry_pool_leaves() {
    let users = addresses(4);
    let network = Network::Regtest;
    let ladder = build_ladder(&users, &anchor(), network).unwrap();
    let hashes =
        create_entry_pool_withdraw_hashes(&users, &ladder[1], &anchor(), network, exit_amount(4)).unwrap();
    let entry = ladder[2].get(&all_participants(4)).unwrap();
    assert_eq!(hashes.len(), 4);
    for (i, hash) in hashes.iter().enumerate() {
        assert_eq!(entry.leaf_hash(i), Some(*hash));
    }
    assert_eq!(
        create_entry_pool_withdraw_hashes(&users, &ladder[0], &anchor(), network, exit_amount(4)),
        Err(PoolError::MissingSubpool)
    );
}

#[test]
fn exit_amount_is_one_contribution_per_remaining_member() {
    assert_eq!(exit_amount(0), 0);
    assert_eq!(exit_amount(1), 0);
    assert_eq!(exit_amount(2), 11000);
    assert_eq!(exit_amount(10), 99000);
    assert_eq!(exit_amount(64), 63 * 11000);
}

#[test]
fn pool_larger_than_the_group_is_empty() {
    let users = addresses(4);
    let network = Network::Signet;
    let exit_pool = create_exit_pool(&users, &anchor(), network).unwrap();
    assert_eq!(create_pool(&exit_pool, 5, &users, &anchor(), network).unwrap().len(), 0);
    assert_eq!(create_pool(&exit_pool, usize::MAX, &users, &anchor(), network).unwrap().len(), 0);
    assert_eq!(create_pool(&Pool::new(), usize::MAX, &[], &anchor(), network).unwrap().len(), 0);
    assert_eq!(create_exit_pool(&addresses(1), &anchor(), network).unwrap().len(), 0);
    assert_eq!(create_exit_pool(&[], &anchor(), network).unwrap().len(), 0);
    assert_eq!(create_exit_pool(&addresses(2), &anchor(), network).unwrap().len(), 1);
}

#[test]
fn early_errors_leave_the_pools_as_they_were() {
    let network = Network::Signet;
    let mut pools = vec![create_exit_pool(&addresses(4), &anchor(), network).unwrap()];
    assert_eq!(
        create_all_pools(&addresses(65), &anchor(), network, &mut pools),
        Err(PoolError::TooManyParticipants)
    );
    assert_eq!(pools.len(), 1);
    assert_eq!(pools[0].len(), 6);
    let mut none: Vec<Pool> = Vec::new();
    assert_eq!(create_all_pools(&addresses(4), &anchor(), network, &mut none), Err(PoolError::MissingSubpool));
    assert!(none.is_empty());
}

#[test]
fn any_missing_pair_fails_the_pool_of_three() {
    let users = addresses(5);
    let network = Network::Signet;
    let full = create_exit_pool(&users, &anchor(), network).unwrap();
    let pairs: Vec<Vec<usize>> =
        (0..5usize).flat_map(|a| (a + 1..5).map(move |b| vec![a, b])).collect();
    assert_eq!(pairs.len(), 10);
    for missing in &pairs {
        let mut partial = Pool::new();
        for pair in pairs.iter().filter(|pair| *pair != missing) {
            let hash = full.get(pair).unwrap().leaf_hash(0).unwrap();
            assert!(partial.insert(pair, create_pool_address(vec![hash]).unwrap()));
        }
        assert_eq!(
            create_pool(&partial, 3, &users, &anchor(), network).err(),
            Some(PoolError::MissingSubpool)
        );
    }
    assert_eq!(create_pool(&full, 3, &users, &anchor(), network).unwrap().len(), 10);
}
