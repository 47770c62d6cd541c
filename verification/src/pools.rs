//! Pools: for each set of participants of one size, the locking tree that the
//! set re-locks into; and the ladder of pools of every size.

use crate::config::{Network, AMOUNT_PER_USER, MAX_POOL_USERS};
use crate::ctv_scripts::{create_withdraw_ctv_hash, spec_withdraw_ctv_hash};
use crate::error::PoolError;
use crate::participants::{
    combinations, is_canonical, is_combinations, is_participant_set, lemma_lex_less_asymmetric,
    lemma_set_key_bound, lemma_set_key_injective, lemma_set_size_bound, lex_less, participant_key,
    remove_member, set_key, sets_view,
};
use crate::tree::{
    create_pool_address, hashes_view, spec_locking_tree, spec_tree_script, tree_builds, LockingTree,
    LockingTreeView,
};
use crate::tx::Address;
use std::collections::HashMap;
use vstd::prelude::*;

verus! {

broadcast use vstd::std_specs::hash::group_hash_axioms;

/// The locking trees of the sets of participants of one size.
#[derive(Debug)]
pub struct Pool {
    entries: HashMap<u64, LockingTree>,
}

/// Canonical sets whose keys agree as `u64` are the same set.
proof fn lemma_key_identifies_set(a: Seq<usize>, b: Seq<usize>)
    requires
        is_canonical(a),
        is_canonical(b),
        set_key(a) as u64 == set_key(b) as u64,
    ensures
        a == b,
{
    lemma_set_key_bound(a, MAX_POOL_USERS as nat);
    lemma_set_key_bound(b, MAX_POOL_USERS as nat);
    vstd::arithmetic::power2::lemma2_to64_rest();
    lemma_set_key_injective(a, b, MAX_POOL_USERS as nat);
}

impl View for Pool {
    type V = Map<Seq<usize>, LockingTreeView>;

    /// The pool as a map from canonical sets of participants to trees.
    closed spec fn view(&self) -> Map<Seq<usize>, LockingTreeView> {
        Map::new(
            |members: Seq<usize>|
                is_canonical(members) && self.entries@.contains_key(set_key(members) as u64),
            |members: Seq<usize>| self.entries@[set_key(members) as u64]@,
        )
    }
}

impl Pool {
    /// Every key of the table is the key of a canonical set.
    #[verifier::type_invariant]
    closed spec fn keys_are_sets(&self) -> bool {
        forall|key: u64| #[trigger]
            self.entries@.contains_key(key) ==> exists|members: Seq<usize>|
                is_canonical(members) && #[trigger] set_key(members) as u64 == key
    }

    /// A pool without entries.
    pub fn new() -> (pool: Pool)
        ensures
            pool@ == Map::<Seq<usize>, LockingTreeView>::empty(),
    {
        let pool = Pool { entries: HashMap::new() };
        assert(pool@ =~= Map::<Seq<usize>, LockingTreeView>::empty());
        pool
    }

    /// Stores `tree` as the entry of the set `members`, in place of any
    /// earlier one. Sets are keyed by content: only a canonical list of
    /// members names one, and a list that is not canonical changes nothing.
    pub fn insert(&mut self, members: &Vec<usize>, tree: LockingTree) -> (inserted: bool)
        ensures
            inserted == is_canonical(members@),
            inserted ==> final(self)@ == old(self)@.insert(members@, tree@),
            !inserted ==> final(self)@ == old(self)@,
    {
        let key = match participant_key(members) {
            Some(key) => key,
            None => {
                return false;
            },
        };
        let ghost tree_view = tree@;
        let mut taken = Pool::new();
        std::mem::swap(self, &mut taken);
        proof {
            use_type_invariant(&taken);
        }
        let Pool { entries } = taken;
        let mut entries = entries;
        entries.insert(key, tree);
        let mut grown = Pool { entries };
        std::mem::swap(self, &mut grown);
        proof {
            assert forall|other: Seq<usize>| is_canonical(other) && other != members@ implies set_key(
                other,
            ) as u64 != key by {
                if set_key(other) as u64 == key {
                    lemma_key_identifies_set(other, members@);
                }
            }
            assert(self@ =~= old(self)@.insert(members@, tree_view));
        }
        true
    }

    /// The tree of the set `members`, if the pool has one.
    pub fn get(&self, members: &Vec<usize>) -> (tree: Option<&LockingTree>)
        ensures
            match tree {
                Some(found) => self@.contains_key(members@) && self@[members@] == found@,
                None => !self@.contains_key(members@),
            },
    {
        match participant_key(members) {
            Some(key) => self.entries.get(&key),
            None => None,
        }
    }

    /// Whether the pool has an entry for the set `members`.
    pub fn contains(&self, members: &Vec<usize>) -> (present: bool)
        ensures
            present == self@.contains_key(members@),
    {
        self.get(members).is_some()
    }

    /// The number of sets that the pool has a tree for.
    pub fn len(&self) -> (count: usize)
        ensures
            self@.dom().finite(),
            count == self@.dom().len(),
    {
        proof {
            use_type_invariant(self);
            let keys = self.entries@.dom();
            let sets = self@.dom();
            let set_of = |key: u64|
                choose|members: Seq<usize>| is_canonical(members) && set_key(members) as u64 == key;
            let key_of = |members: Seq<usize>| set_key(members) as u64;
            assert(keys.map(set_of) =~= sets) by {
                assert forall|members: Seq<usize>| sets.contains(members) implies keys.map(
                    set_of,
                ).contains(members) by {
                    let key = set_key(members) as u64;
                    assert(keys.contains(key));
                    lemma_key_identifies_set(set_of(key), members);
                }
                assert forall|members: Seq<usize>| keys.map(set_of).contains(members) implies sets.contains(
                    members,
                ) by {
                    let key = choose|key: u64| keys.contains(key) && set_of(key) == members;
                    assert(self.entries@.contains_key(key));
                }
            }
            vstd::set_lib::lemma_map_size_bound(keys, sets, set_of);
            assert(sets.map(key_of) =~= keys) by {
                assert forall|key: u64| keys.contains(key) implies sets.map(key_of).contains(key) by {
                    assert(self.entries@.contains_key(key));
                    assert(sets.contains(set_of(key)));
                }
            }
            assert(vstd::relations::injective_on(key_of, sets)) by {
                assert forall|a: Seq<usize>, b: Seq<usize>|
                    sets.contains(a) && sets.contains(b) && #[trigger] key_of(a) == #[trigger] key_of(
                        b,
                    ) implies a == b by {
                    lemma_key_identifies_set(a, b);
                }
            }
            vstd::set_lib::lemma_map_size(sets, keys, key_of);
        }
        self.entries.len()
    }
}

/// The locking scripts of a list of addresses.
pub open spec fn addresses_view(addresses: Seq<Address>) -> Seq<Seq<u8>> {
    addresses.map_values(|address: Address| address@)
}

/// What building the entry of one set of participants comes to: its tree, or
/// why there is none.
pub type EntryOutcome = Result<LockingTreeView, PoolError>;

/// The pool holds exactly the sets of `k` of the participants `0..n`, each
/// with the tree that `outcome` gives it.
pub open spec fn pool_matches(
    pool: Map<Seq<usize>, LockingTreeView>,
    n: nat,
    k: nat,
    outcome: spec_fn(Seq<usize>) -> EntryOutcome,
) -> bool {
    &&& forall|members: Seq<usize>|
        #![trigger pool.contains_key(members)]
        #![trigger is_participant_set(members, n, k)]
        pool.contains_key(members) <==> is_participant_set(members, n, k)
    &&& forall|members: Seq<usize>| #[trigger]
        is_participant_set(members, n, k) ==> outcome(members) == Ok::<
            LockingTreeView,
            PoolError,
        >(pool[members])
}

/// A pool that holds exactly the sets of `k` of the participants `0..n` has
/// an entry for each of them, with the tree that `outcome` gives it.
pub proof fn lemma_pool_entry(
    pool: Map<Seq<usize>, LockingTreeView>,
    n: nat,
    k: nat,
    outcome: spec_fn(Seq<usize>) -> EntryOutcome,
    members: Seq<usize>,
)
    requires
        pool_matches(pool, n, k, outcome),
        is_participant_set(members, n, k),
    ensures
        pool.contains_key(members),
        outcome(members) == Ok::<LockingTreeView, PoolError>(pool[members]),
{
}

/// Only one pool holds exactly the sets of `k` of the participants `0..n`
/// with the trees that `outcome` gives them.
pub proof fn lemma_pool_unique(
    first: Map<Seq<usize>, LockingTreeView>,
    second: Map<Seq<usize>, LockingTreeView>,
    n: nat,
    k: nat,
    outcome: spec_fn(Seq<usize>) -> EntryOutcome,
)
    requires
        pool_matches(first, n, k, outcome),
        pool_matches(second, n, k, outcome),
    ensures
        first == second,
{
    assert forall|members: Seq<usize>| first.contains_key(members) implies first[members]
        == second[members] by {
        assert(is_participant_set(members, n, k));
        assert(outcome(members) == Ok::<LockingTreeView, PoolError>(first[members]));
        assert(outcome(members) == Ok::<LockingTreeView, PoolError>(second[members]));
    }
    assert(first =~= second);
}

/// The first set of `k` of the participants `0..n`, in lexicographic order,
/// whose entry cannot be built fails with `error`.
pub open spec fn first_failure(
    n: nat,
    k: nat,
    outcome: spec_fn(Seq<usize>) -> EntryOutcome,
    error: PoolError,
) -> bool {
    exists|members: Seq<usize>|
        {
            &&& #[trigger] is_participant_set(members, n, k)
            &&& outcome(members) == Err::<LockingTreeView, PoolError>(error)
            &&& forall|earlier: Seq<usize>|
                #[trigger] is_participant_set(earlier, n, k) && lex_less(earlier, members)
                    ==> outcome(earlier) is Ok
        }
}

/// The single leaf of the exit tree of a pair: the payout that gives the
/// first of the two a whole contribution and the second one less the fee.
pub open spec fn exit_leaf_hashes(
    network: Network,
    addresses: Seq<Seq<u8>>,
    anchor: Seq<u8>,
    members: Seq<usize>,
) -> Seq<Seq<u8>> {
    seq![
        spec_withdraw_ctv_hash(
            network,
            addresses[members[0] as int],
            addresses[members[1] as int],
            anchor,
            AMOUNT_PER_USER,
        ),
    ]
}

/// What building the exit tree of each pair comes to.
pub open spec fn exit_outcomes(network: Network, addresses: Seq<Seq<u8>>, anchor: Seq<u8>) -> spec_fn(
    Seq<usize>,
) -> EntryOutcome {
    |members: Seq<usize>|
        if tree_builds(exit_leaf_hashes(network, addresses, anchor, members)) {
            Ok(spec_locking_tree(exit_leaf_hashes(network, addresses, anchor, members)))
        } else {
            Err(PoolError::TreeConstruction)
        }
}

/// What stays locked when one of `size` participants leaves.
pub open spec fn spec_exit_amount(size: nat) -> u64 {
    if size == 0 {
        0
    } else {
        ((size - 1) * AMOUNT_PER_USER) as u64
    }
}

/// Leaf `i` of the tree of `members`: member `i` leaves with one contribution
/// less the fee, and the rest re-locks into the tree that `target` holds for
/// the members without it.
pub open spec fn pool_leaf_hash(
    network: Network,
    target: Map<Seq<usize>, LockingTreeView>,
    addresses: Seq<Seq<u8>>,
    anchor: Seq<u8>,
    members: Seq<usize>,
    i: int,
) -> Seq<u8> {
    spec_withdraw_ctv_hash(
        network,
        spec_tree_script(target[members.remove(i)]),
        addresses[members[i] as int],
        anchor,
        spec_exit_amount(members.len()),
    )
}

/// The leaves of the tree of `members`, one per member.
pub open spec fn pool_leaf_hashes(
    network: Network,
    target: Map<Seq<usize>, LockingTreeView>,
    addresses: Seq<Seq<u8>>,
    anchor: Seq<u8>,
    members: Seq<usize>,
) -> Seq<Seq<u8>> {
    Seq::new(members.len(), |i: int| pool_leaf_hash(network, target, addresses, anchor, members, i))
}

/// `target` has a tree for `members` without any one of them.
pub open spec fn subpools_present(target: Map<Seq<usize>, LockingTreeView>, members: Seq<usize>) -> bool {
    forall|i: int| 0 <= i < members.len() ==> target.contains_key(#[trigger] members.remove(i))
}

/// What building the tree of each set against `target` comes to.
pub open spec fn pool_outcomes(
    network: Network,
    target: Map<Seq<usize>, LockingTreeView>,
    addresses: Seq<Seq<u8>>,
    anchor: Seq<u8>,
) -> spec_fn(Seq<usize>) -> EntryOutcome {
    |members: Seq<usize>|
        if !subpools_present(target, members) {
            Err(PoolError::MissingSubpool)
        } else if !tree_builds(pool_leaf_hashes(network, target, addresses, anchor, members)) {
            Err(PoolError::TreeConstruction)
        } else {
            Ok(spec_locking_tree(pool_leaf_hashes(network, target, addresses, anchor, members)))
        }
}

/// `target` has a tree for every set of `k` of the participants `0..n`
/// without any one of its members.
pub open spec fn subpools_complete(target: Map<Seq<usize>, LockingTreeView>, n: nat, k: nat) -> bool {
    forall|members: Seq<usize>| #[trigger]
        is_participant_set(members, n, k) ==> subpools_present(target, members)
}

/// One set with one member whose subpool `target` lacks is enough: then
/// `target` does not hold all that a pool of size `k` is built on, and
/// building it fails with `MissingSubpool`.
pub proof fn lemma_missing_subpool_fails(
    network: Network,
    target: Map<Seq<usize>, LockingTreeView>,
    addresses: Seq<Seq<u8>>,
    anchor: Seq<u8>,
    k: nat,
    members: Seq<usize>,
    i: int,
    error: PoolError,
)
    requires
        is_participant_set(members, addresses.len(), k),
        0 <= i < members.len(),
        !target.contains_key(members.remove(i)),
        pool_failure(network, target, addresses, anchor, k, error),
    ensures
        !subpools_complete(target, addresses.len(), k),
        error == PoolError::MissingSubpool,
{
    assert(!subpools_present(target, members));
}

/// Why the pool of size `k` cannot be built on `target`: a subpool is
/// missing, or else the first set, in lexicographic order, whose tree cannot
/// be built fails with `error`.
pub open spec fn pool_failure(
    network: Network,
    target: Map<Seq<usize>, LockingTreeView>,
    addresses: Seq<Seq<u8>>,
    anchor: Seq<u8>,
    k: nat,
    error: PoolError,
) -> bool {
    if !subpools_complete(target, addresses.len(), k) {
        error == PoolError::MissingSubpool
    } else {
        first_failure(addresses.len(), k, pool_outcomes(network, target, addresses, anchor), error)
    }
}

/// In a list of all sets, a set that comes before position `c` in
/// lexicographic order stands before position `c`.
proof fn lemma_earlier_in_list(list: Seq<Seq<usize>>, n: nat, k: nat, c: int, earlier: Seq<usize>)
    requires
        is_combinations(list, n, k),
        0 <= c < list.len(),
        is_participant_set(earlier, n, k),
        lex_less(earlier, list[c]),
    ensures
        exists|j: int| 0 <= j < c && list[j] == earlier,
{
    assert(list.contains(earlier));
    let j = choose|j: int| 0 <= j < list.len() && list[j] == earlier;
    if j > c {
        assert(lex_less(list[c], list[j]));
        lemma_lex_less_asymmetric(list[c], list[j]);
    } else if j == c {
        lemma_lex_less_asymmetric(earlier, list[c]);
    }
}

/// Builds the pool of size 2, the lowest rung of the ladder: for every pair of
/// participants a tree with one leaf, which commits to paying both out
/// directly, the first of the pair a whole contribution and the second one
/// less the fee.
pub fn create_exit_pool(addresses: &[Address], anchor_addr: &Address, network: Network) -> (pool: Result<
    Pool,
    PoolError,
>)
    ensures
        match pool {
            Ok(built) => addresses@.len() <= MAX_POOL_USERS && pool_matches(
                built@,
                addresses@.len(),
                2,
                exit_outcomes(network, addresses_view(addresses@), anchor_addr@),
            ),
            Err(error) => if addresses@.len() > MAX_POOL_USERS {
                error == PoolError::TooManyParticipants
            } else {
                first_failure(
                    addresses@.len(),
                    2,
                    exit_outcomes(network, addresses_view(addresses@), anchor_addr@),
                    error,
                )
            },
        },
{
    let num_users = addresses.len();
    if num_users > MAX_POOL_USERS {
        return Err(PoolError::TooManyParticipants);
    }
    let ghost n = num_users as nat;
    let ghost outcome = exit_outcomes(network, addresses_view(addresses@), anchor_addr@);
    if num_users < 2 {
        proof {
            assert forall|members: Seq<usize>| !is_participant_set(members, n, 2) by {
                if is_participant_set(members, n, 2) {
                    lemma_set_size_bound(members, n);
                }
            }
        }
        return Ok(Pool::new());
    }
    let combos = combinations(num_users, 2);
    let ghost list = sets_view(combos@);
    let mut exit_pool = Pool::new();
    let mut c: usize = 0;
    while c < combos.len()
        invariant
            c <= combos.len(),
            n == addresses@.len(),
            n <= MAX_POOL_USERS,
            list == sets_view(combos@),
            is_combinations(list, n, 2),
            outcome == exit_outcomes(network, addresses_view(addresses@), anchor_addr@),
            forall|members: Seq<usize>| #[trigger]
                exit_pool@.contains_key(members) ==> is_participant_set(members, n, 2),
            forall|j: int|
                0 <= j < c ==> exit_pool@.contains_key(#[trigger] list[j]) && outcome(list[j]) == Ok::<
                    LockingTreeView,
                    PoolError,
                >(exit_pool@[list[j]]),
        decreases combos.len() - c,
    {
        let combo = &combos[c];
        let ghost members = combo@;
        proof {
            assert(members == list[c as int]);
            assert(is_participant_set(members, n, 2));
            assert(members[0] < n && members[1] < n);
        }
        let i = combo[0];
        let j = combo[1];
        let ctv_hash = create_withdraw_ctv_hash(
            &addresses[i],
            &addresses[j],
            anchor_addr,
            AMOUNT_PER_USER,
            network,
        );
        let mut ctv_hashes: Vec<[u8; 32]> = Vec::new();
        ctv_hashes.push(ctv_hash);
        proof {
            assert(hashes_view(ctv_hashes@) =~= exit_leaf_hashes(
                network,
                addresses_view(addresses@),
                anchor_addr@,
                members,
            ));
        }
        let spend_info = match create_pool_address(ctv_hashes) {
            Ok(spend_info) => spend_info,
            Err(error) => {
                proof {
                    assert forall|earlier: Seq<usize>| #[trigger]
                        is_participant_set(earlier, n, 2) && lex_less(
                            earlier,
                            members,
                        ) implies outcome(earlier) is Ok by {
                        lemma_earlier_in_list(list, n, 2, c as int, earlier);
                    }
                    assert(outcome(members) == Err::<LockingTreeView, PoolError>(error));
                }
                return Err(error);
            },
        };
        let ghost before = exit_pool@;
        let ghost tree = spend_info@;
        let inserted = exit_pool.insert(combo, spend_info);
        proof {
            assert(inserted);
            assert(outcome(members) == Ok::<LockingTreeView, PoolError>(tree));
            assert forall|j: int| 0 <= j < c + 1 implies exit_pool@.contains_key(
                #[trigger] list[j],
            ) && outcome(list[j]) == Ok::<LockingTreeView, PoolError>(exit_pool@[list[j]]) by {
                if j < c {
                    assert(lex_less(list[j], list[c as int]));
                    crate::participants::lemma_lex_less_differs(list[j], list[c as int]);
                    assert(before.contains_key(list[j]));
                }
            }
        }
        c = c + 1;
    }
    proof {
        assert forall|members: Seq<usize>| #[trigger]
            is_participant_set(members, n, 2) implies exit_pool@.contains_key(members) && outcome(
            members,
        ) == Ok::<LockingTreeView, PoolError>(exit_pool@[members]) by {
            assert(list.contains(members));
        }
    }
    Ok(exit_pool)
}

/// Computes what stays locked when one of `size` participants leaves:
/// a contribution for each of the others.
pub fn exit_amount(size: usize) -> (amount: u64)
    requires
        (size - 1) * AMOUNT_PER_USER <= u64::MAX,
    ensures
        amount == spec_exit_amount(size as nat),
        size >= 1 ==> amount == (size - 1) * AMOUNT_PER_USER,
{
    if size == 0 {
        0
    } else {
        ((size - 1) as u64) * AMOUNT_PER_USER
    }
}

/// Whether `target_pool` has a tree for each of the sets in `combos` without
/// any one of its members.
fn has_all_subpools(target_pool: &Pool, combos: &Vec<Vec<usize>>, n: usize, k: usize) -> (complete: bool)
    requires
        is_combinations(sets_view(combos@), n as nat, k as nat),
    ensures
        complete == subpools_complete(target_pool@, n as nat, k as nat),
{
    let ghost list = sets_view(combos@);
    let mut c: usize = 0;
    while c < combos.len()
        invariant
            c <= combos.len(),
            list == sets_view(combos@),
            is_combinations(list, n as nat, k as nat),
            forall|j: int| 0 <= j < c ==> subpools_present(target_pool@, #[trigger] list[j]),
        decreases combos.len() - c,
    {
        let users = &combos[c];
        let ghost members = users@;
        proof {
            assert(members == list[c as int]);
            assert(is_participant_set(members, n as nat, k as nat));
        }
        let mut m: usize = 0;
        while m < users.len()
            invariant
                m <= users.len(),
                members == users@,
                is_participant_set(members, n as nat, k as nat),
                forall|i: int| 0 <= i < m ==> target_pool@.contains_key(#[trigger] members.remove(i)),
            decreases users.len() - m,
        {
            let remaining_users = remove_member(users, m);
            if !target_pool.contains(&remaining_users) {
                proof {
                    assert(!target_pool@.contains_key(members.remove(m as int)));
                    assert(!subpools_present(target_pool@, members));
                }
                return false;
            }
            m = m + 1;
        }
        c = c + 1;
    }
    proof {
        assert forall|members: Seq<usize>| #[trigger]
            is_participant_set(members, n as nat, k as nat) implies subpools_present(
            target_pool@,
            members,
        ) by {
            assert(list.contains(members));
            let j = choose|j: int| 0 <= j < list.len() && list[j] == members;
            assert(subpools_present(target_pool@, list[j]));
        }
    }
    true
}

/// Builds the pool of size `pool_size` on top of `target_pool`, the pool one
/// size smaller: for every set of `pool_size` participants a tree with one
/// leaf per member, which commits to that member leaving with one
/// contribution less the fee while the others re-lock into the tree that
/// `target_pool` holds for them. Fails with `MissingSubpool` where
/// `target_pool` lacks such a tree for any of the sets, before any tree is
/// built.
///
/// The work grows with the number of sets: a pool of size `k` over `n`
/// participants takes `k` lookups and `k` hashes for each of the `n` choose
/// `k` sets, which is out of reach well before `n` is 30.
pub fn create_pool(
    target_pool: &Pool,
    pool_size: usize,
    addresses: &[Address],
    anchor_addr: &Address,
    network: Network,
) -> (pool: Result<Pool, PoolError>)
    ensures
        match pool {
            Ok(built) => addresses@.len() <= MAX_POOL_USERS && subpools_complete(
                target_pool@,
                addresses@.len(),
                pool_size as nat,
            ) && pool_matches(
                built@,
                addresses@.len(),
                pool_size as nat,
                pool_outcomes(network, target_pool@, addresses_view(addresses@), anchor_addr@),
            ),
            Err(error) => if addresses@.len() > MAX_POOL_USERS {
                error == PoolError::TooManyParticipants
            } else {
                pool_failure(
                    network,
                    target_pool@,
                    addresses_view(addresses@),
                    anchor_addr@,
                    pool_size as nat,
                    error,
                )
            },
        },
{
    let num_users = addresses.len();
    if num_users > MAX_POOL_USERS {
        return Err(PoolError::TooManyParticipants);
    }
    let ghost n = num_users as nat;
    let ghost k = pool_size as nat;
    let ghost addrs = addresses_view(addresses@);
    let ghost outcome = pool_outcomes(network, target_pool@, addrs, anchor_addr@);
    proof {
        assert(addrs.len() == n);
    }
    if pool_size > num_users {
        proof {
            assert forall|members: Seq<usize>| !is_participant_set(members, n, k) by {
                if is_participant_set(members, n, k) {
                    lemma_set_size_bound(members, n);
                }
            }
        }
        return Ok(Pool::new());
    }
    let combos = combinations(num_users, pool_size);
    let ghost list = sets_view(combos@);
    if !has_all_subpools(target_pool, &combos, num_users, pool_size) {
        return Err(PoolError::MissingSubpool);
    }
    let mut new_pool = Pool::new();
    let mut c: usize = 0;
    while c < combos.len()
        invariant
            c <= combos.len(),
            n == addresses@.len(),
            n <= MAX_POOL_USERS,
            k == pool_size,
            list == sets_view(combos@),
            is_combinations(list, n, k),
            subpools_complete(target_pool@, n, k),
            addrs == addresses_view(addresses@),
            outcome == pool_outcomes(network, target_pool@, addrs, anchor_addr@),
            forall|members: Seq<usize>| #[trigger]
                new_pool@.contains_key(members) ==> is_participant_set(members, n, k),
            forall|j: int|
                0 <= j < c ==> new_pool@.contains_key(#[trigger] list[j]) && outcome(list[j]) == Ok::<
                    LockingTreeView,
                    PoolError,
                >(new_pool@[list[j]]),
        decreases combos.len() - c,
    {
        let users = &combos[c];
        let ghost members = users@;
        proof {
            assert(members == list[c as int]);
            assert(is_participant_set(members, n, k));
            lemma_set_size_bound(members, n);
            assert forall|earlier: Seq<usize>| #[trigger]
                is_participant_set(earlier, n, k) && lex_less(earlier, members) implies outcome(
                earlier,
            ) is Ok by {
                lemma_earlier_in_list(list, n, k, c as int, earlier);
            }
        }
        let pool_exit_amount = exit_amount(users.len());
        let ghost expected = pool_leaf_hashes(network, target_pool@, addrs, anchor_addr@, members);
        let mut ctv_hashes: Vec<[u8; 32]> = Vec::new();
        let mut m: usize = 0;
        while m < users.len()
            invariant
                m <= users.len(),
                members == users@,
                is_participant_set(members, n, k),
                n == addresses@.len(),
                n <= MAX_POOL_USERS,
                k == pool_size,
                addrs == addresses_view(addresses@),
                pool_exit_amount == spec_exit_amount(members.len()),
                expected == pool_leaf_hashes(network, target_pool@, addrs, anchor_addr@, members),
                subpools_present(target_pool@, members),
                hashes_view(ctv_hashes@) == expected.take(m as int),
            decreases users.len() - m,
        {
            let user = users[m];
            let remaining_users = remove_member(users, m);
            proof {
                assert(target_pool@.contains_key(members.remove(m as int)));
            }
            let spend_info = match target_pool.get(&remaining_users) {
                Some(spend_info) => spend_info,
                None => vstd::pervasive::unreached(),
            };
            let withdrawal_address = spend_info.address();
            proof {
                assert(members[m as int] < n);
            }
            let ctv_hash = create_withdraw_ctv_hash(
                &withdrawal_address,
                &addresses[user],
                anchor_addr,
                pool_exit_amount,
                network,
            );
            let ghost before = ctv_hashes@;
            ctv_hashes.push(ctv_hash);
            proof {
                assert(ctv_hash@ == expected[m as int]);
                assert(hashes_view(ctv_hashes@) =~= hashes_view(before).push(ctv_hash@));
                assert(hashes_view(ctv_hashes@) =~= expected.take(m + 1));
            }
            m = m + 1;
        }
        proof {
            assert(expected.take(users.len() as int) =~= expected);
        }
        let spend_info = match create_pool_address(ctv_hashes) {
            Ok(spend_info) => spend_info,
            Err(error) => {
                proof {
                    assert(outcome(members) == Err::<LockingTreeView, PoolError>(error));
                }
                return Err(error);
            },
        };
        let ghost before = new_pool@;
        let ghost tree = spend_info@;
        proof {
            lemma_canonical_among(members, n, k);
        }
        let inserted = new_pool.insert(users, spend_info);
        proof {
            assert(inserted);
            assert(outcome(members) == Ok::<LockingTreeView, PoolError>(tree));
            assert forall|j: int| 0 <= j < c + 1 implies new_pool@.contains_key(
                #[trigger] list[j],
            ) && outcome(list[j]) == Ok::<LockingTreeView, PoolError>(new_pool@[list[j]]) by {
                if j < c {
                    assert(lex_less(list[j], list[c as int]));
                    crate::participants::lemma_lex_less_differs(list[j], list[c as int]);
                    assert(before.contains_key(list[j]));
                }
            }
        }
        c = c + 1;
    }
    proof {
        assert forall|members: Seq<usize>| #[trigger]
            is_participant_set(members, n, k) implies new_pool@.contains_key(members) && outcome(
            members,
        ) == Ok::<LockingTreeView, PoolError>(new_pool@[members]) by {
            assert(list.contains(members));
        }
    }
    Ok(new_pool)
}

/// A set of participants of a pool that is not too large is canonical.
proof fn lemma_canonical_among(members: Seq<usize>, n: nat, k: nat)
    requires
        is_participant_set(members, n, k),
        n <= MAX_POOL_USERS,
    ensures
        is_canonical(members),
{
}

/// All participants `0..n`, in order.
pub open spec fn full_set(n: nat) -> Seq<usize> {
    Seq::new(n, |i: int| i as usize)
}

/// Lists all participants `0..n`, in order.
pub fn all_participants(n: usize) -> (members: Vec<usize>)
    ensures
        members@ == full_set(n as nat),
{
    let mut members: Vec<usize> = Vec::new();
    let mut i: usize = 0;
    while i < n
        invariant
            i <= n,
            members@ == full_set(i as nat),
        decreases n - i,
    {
        members.push(i);
        assert(members@ =~= full_set((i + 1) as nat));
        i = i + 1;
    }
    members
}

/// The leaves of the entry tree, through which the whole group is funded:
/// leaf `i` lets participant `i` leave first, while `pool_exit_amount`
/// re-locks into the tree that `target` holds for all the others.
pub open spec fn entry_leaf_hashes(
    network: Network,
    target: Map<Seq<usize>, LockingTreeView>,
    addresses: Seq<Seq<u8>>,
    anchor: Seq<u8>,
    pool_exit_amount: u64,
) -> Seq<Seq<u8>> {
    Seq::new(
        addresses.len(),
        |i: int|
            spec_withdraw_ctv_hash(
                network,
                spec_tree_script(target[full_set(addresses.len()).remove(i)]),
                addresses[i],
                anchor,
                pool_exit_amount,
            ),
    )
}

/// Computes the commitment hashes of the entry tree's leaves, one per
/// participant: leaf `i` commits to participant `i` leaving first, with
/// `pool_exit_amount` re-locked into the tree that `second_pool_addresses`
/// holds for all the others. Fails where that pool lacks one of these trees.
pub fn create_entry_pool_withdraw_hashes(
    addresses: &[Address],
    second_pool_addresses: &Pool,
    anchor_addr: &Address,
    network: Network,
    pool_exit_amount: u64,
) -> (hashes: Result<Vec<[u8; 32]>, PoolError>)
    ensures
        match hashes {
            Ok(entry) => subpools_present(second_pool_addresses@, full_set(addresses@.len()))
                && hashes_view(entry@) == entry_leaf_hashes(
                network,
                second_pool_addresses@,
                addresses_view(addresses@),
                anchor_addr@,
                pool_exit_amount,
            ),
            Err(error) => error == PoolError::MissingSubpool && !subpools_present(
                second_pool_addresses@,
                full_set(addresses@.len()),
            ),
        },
{
    let num_users = addresses.len();
    let ghost addrs = addresses_view(addresses@);
    let ghost expected = entry_leaf_hashes(
        network,
        second_pool_addresses@,
        addrs,
        anchor_addr@,
        pool_exit_amount,
    );
    let everyone = all_participants(num_users);
    let mut entry_pool_withdraw_hashes: Vec<[u8; 32]> = Vec::new();
    let mut i: usize = 0;
    while i < num_users
        invariant
            i <= num_users,
            num_users == addresses@.len(),
            addrs == addresses_view(addresses@),
            everyone@ == full_set(num_users as nat),
            expected == entry_leaf_hashes(
                network,
                second_pool_addresses@,
                addrs,
                anchor_addr@,
                pool_exit_amount,
            ),
            forall|j: int|
                0 <= j < i ==> second_pool_addresses@.contains_key(
                    #[trigger] full_set(num_users as nat).remove(j),
                ),
            hashes_view(entry_pool_withdraw_hashes@) == expected.take(i as int),
        decreases num_users - i,
    {
        let users = remove_member(&everyone, i);
        let spend_info = match second_pool_addresses.get(&users) {
            Some(spend_info) => spend_info,
            None => {
                proof {
                    assert(!second_pool_addresses@.contains_key(
                        full_set(num_users as nat).remove(i as int),
                    ));
                }
                return Err(PoolError::MissingSubpool);
            },
        };
        let addr = spend_info.address();
        let ctv_hash = create_withdraw_ctv_hash(
            &addr,
            &addresses[i],
            anchor_addr,
            pool_exit_amount,
            network,
        );
        let ghost before = entry_pool_withdraw_hashes@;
        entry_pool_withdraw_hashes.push(ctv_hash);
        proof {
            assert(ctv_hash@ == expected[i as int]);
            assert(hashes_view(entry_pool_withdraw_hashes@) =~= hashes_view(before).push(ctv_hash@));
            assert(hashes_view(entry_pool_withdraw_hashes@) =~= expected.take(i + 1));
        }
        i = i + 1;
    }
    proof {
        assert(expected.take(num_users as int) =~= expected);
    }
    Ok(entry_pool_withdraw_hashes)
}

/// With what stays locked when the first of all participants leaves, the
/// entry tree's leaves are those of the pool of all participants.
pub proof fn lemma_entry_leaves_are_pool_leaves(
    network: Network,
    target: Map<Seq<usize>, LockingTreeView>,
    addresses: Seq<Seq<u8>>,
    anchor: Seq<u8>,
)
    requires
        addresses.len() <= usize::MAX,
    ensures
        entry_leaf_hashes(network, target, addresses, anchor, spec_exit_amount(addresses.len()))
            == pool_leaf_hashes(network, target, addresses, anchor, full_set(addresses.len())),
{
    assert(entry_leaf_hashes(network, target, addresses, anchor, spec_exit_amount(addresses.len()))
        =~= pool_leaf_hashes(network, target, addresses, anchor, full_set(addresses.len())));
}

} // verus!
