use ctv_exit_pool::participants::{canonical_set, check_canonical, participant_key, remove_member};
use ctv_exit_pool::pools::all_participants;

#[test]
fn canonical_form_sorts_and_deduplicates() {
    assert_eq!(canonical_set(&[3, 1, 2]), vec![1, 2, 3]);
    assert_eq!(canonical_set(&[2, 2, 0, 2, 0]), vec![0, 2]);
    assert_eq!(canonical_set(&[]), Vec::<usize>::new());
    assert_eq!(canonical_set(&[5]), vec![5]);
    assert_eq!(canonical_set(&[0, 1, 2, 3]), vec![0, 1, 2, 3]);
    assert_eq!(canonical_set(&[9, 8, 7, 6, 5, 4, 3, 2, 1, 0]), (0..10).collect::<Vec<_>>());
}

#[test]
fn same_content_gives_the_same_set() {
    assert_eq!(canonical_set(&[4, 0, 2]), canonical_set(&[2, 4, 0, 0]));
    assert_ne!(canonical_set(&[4, 0, 2]), canonical_set(&[4, 0, 3]));
}

#[test]
fn canonical_lists_are_recognised() {
    assert!(check_canonical(&vec![]));
    assert!(check_canonical(&vec![0]));
    assert!(check_canonical(&vec![0, 5, 63]));
    assert!(!check_canonical(&vec![0, 5, 64]));
    assert!(!check_canonical(&vec![1, 1]));
    assert!(!check_canonical(&vec![2, 1]));
    assert!(check_canonical(&canonical_set(&[7, 3, 7])));
}

#[test]
fn keys_are_sums_of_powers_of_two() {
    assert_eq!(participant_key(&vec![]), Some(0));
    assert_eq!(participant_key(&vec![0]), Some(1));
    assert_eq!(participant_key(&vec![0, 1, 2]), Some(7));
    assert_eq!(participant_key(&vec![1, 3]), Some(10));
    assert_eq!(participant_key(&vec![63]), Some(1 << 63));
    assert_eq!(participant_key(&all_participants(64)), Some(u64::MAX));
    assert_eq!(participant_key(&vec![64]), None);
    assert_eq!(participant_key(&vec![3, 1]), None);
    assert_eq!(participant_key(&vec![1, 1]), None);
}

#[test]
fn keys_tell_sets_apart() {
    let mut seen = std::collections::HashSet::new();
    for mask in 0u32..64 {
        let members: Vec<usize> = (0..6).filter(|i| mask & (1 << i) != 0).collect();
        assert!(seen.insert(participant_key(&members).unwrap()));
    }
}

#[test]
fn remove_member_drops_one_position() {
    assert_eq!(remove_member(&vec![1, 4, 6], 0), vec![4, 6]);
    assert_eq!(remove_member(&vec![1, 4, 6], 1), vec![1, 6]);
    assert_eq!(remove_member(&vec![1, 4, 6], 2), vec![1, 4]);
    assert_eq!(remove_member(&vec![9], 0), Vec::<usize>::new());
    assert_eq!(remove_member(&vec![1, 4, 6], 3), vec![1, 4, 6]);
}

#[test]
fn all_participants_are_a_range() {
    assert_eq!(all_participants(0), Vec::<usize>::new());
    assert_eq!(all_participants(4), vec![0, 1, 2, 3]);
}
