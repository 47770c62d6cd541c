use ctv_exit_pool::depths::calculate_depths;

#[test]
fn depths_of_no_leaves_are_empty() {
    assert_eq!(calculate_depths(0), Vec::<usize>::new());
}

#[test]
fn depths_of_one_leaf() {
    assert_eq!(calculate_depths(1), vec![0]);
}

#[test]
fn depths_of_powers_of_two_are_level() {
    assert_eq!(calculate_depths(2), vec![1, 1]);
    assert_eq!(calculate_depths(4), vec![2, 2, 2, 2]);
    assert_eq!(calculate_depths(8), vec![3; 8]);
}

#[test]
fn depths_promote_trailing_leaves() {
    assert_eq!(calculate_depths(3), vec![2, 2, 1]);
    assert_eq!(calculate_depths(5), vec![3, 3, 2, 2, 2]);
    assert_eq!(calculate_depths(6), vec![3, 3, 3, 3, 2, 2]);
    assert_eq!(calculate_depths(7), vec![3, 3, 3, 3, 3, 3, 2]);
}

#[test]
fn depths_have_the_shape_of_a_balanced_tree() {
    for leaves in 1usize..=300 {
        let depths = calculate_depths(leaves);
        assert_eq!(depths.len(), leaves);
        let mut height = 0;
        while (1usize << height) < leaves {
            height += 1;
        }
        let excess = (1usize << height) - leaves;
        let reduced = depths.iter().filter(|&&depth| depth + 1 == height).count();
        assert_eq!(reduced, excess);
        for (i, depth) in depths.iter().enumerate() {
            if i < leaves - excess {
                assert_eq!(*depth, height);
            } else {
                assert_eq!(*depth + 1, height);
            }
        }
        if leaves.is_power_of_two() {
            assert!(depths.iter().all(|&depth| depth == height));
        }
        let slots: usize = depths.iter().map(|&depth| 1usize << (height - depth)).sum();
        assert_eq!(slots, 1 << height);
    }
}

#[test]
fn depths_of_a_large_tree() {
    let depths = calculate_depths(100_000);
    assert_eq!(depths[0], 17);
    assert_eq!(depths[100_000 - 31_072 - 1], 17);
    assert_eq!(depths[100_000 - 31_072], 16);
    assert_eq!(depths[99_999], 16);
}
