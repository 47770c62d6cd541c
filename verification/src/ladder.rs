//! The ladder: the pools of every size from 2 up to the whole group, each
//! built on the one below it.

use crate::config::{Network, AMOUNT_PER_USER, MAX_POOL_USERS, MIN_POOL_USERS};
use crate::ctv_scripts::{committed_total, lemma_withdraw_total, spec_withdraw_outputs};
use crate::error::PoolError;
use crate::participants::is_participant_set;
use crate::pools::{
    addresses_view, create_exit_pool, create_pool, exit_leaf_hashes, exit_outcomes, first_failure,
    lemma_pool_entry, pool_failure, pool_leaf_hashes, pool_matches, pool_outcomes,
    spec_exit_amount, subpools_present, EntryOutcome, Pool,
};
use crate::tree::{spec_locking_tree, spec_tree_script, LockingTreeView};
use crate::tx::Address;
use vstd::prelude::*;

verus! {

/// A pool as a map from sets of participants to trees.
pub type PoolView = Map<Seq<usize>, LockingTreeView>;

/// The pools of a list, each as a map.
pub open spec fn pools_view(pools: Seq<Pool>) -> Seq<PoolView> {
    pools.map_values(|pool: Pool| pool@)
}

/// From position `from` on, each rung is the pool built on the rung before
/// it, and the rung at `from` has sets of `first_size` participants.
pub open spec fn rungs_chain(
    rungs: Seq<PoolView>,
    from: int,
    first_size: nat,
    network: Network,
    addresses: Seq<Seq<u8>>,
    anchor: Seq<u8>,
) -> bool {
    forall|j: int|
        1 <= j && from <= j < rungs.len() ==> pool_matches(
            #[trigger] rungs[j],
            addresses.len(),
            (first_size + (j - from)) as nat,
            pool_outcomes(network, rungs[j - 1], addresses, anchor),
        )
}

/// What building each entry of the rung above `rungs` comes to: an exit tree
/// where there is no rung yet, else a tree on top of the last rung.
pub open spec fn next_rung_outcomes(
    rungs: Seq<PoolView>,
    network: Network,
    addresses: Seq<Seq<u8>>,
    anchor: Seq<u8>,
) -> spec_fn(Seq<usize>) -> EntryOutcome {
    if rungs.len() == 0 {
        exit_outcomes(network, addresses, anchor)
    } else {
        pool_outcomes(network, rungs.last(), addresses, anchor)
    }
}

/// `rungs` are the lowest rungs of the ladder over these participants: rung
/// `j` is the pool of size `j + 2`, the lowest one of exit trees and each
/// other one built on the rung below it.
pub open spec fn is_ladder_prefix(
    rungs: Seq<PoolView>,
    network: Network,
    addresses: Seq<Seq<u8>>,
    anchor: Seq<u8>,
) -> bool {
    forall|j: int|
        0 <= j < rungs.len() ==> pool_matches(
            #[trigger] rungs[j],
            addresses.len(),
            (j + 2) as nat,
            next_rung_outcomes(rungs.take(j), network, addresses, anchor),
        )
}

/// `rungs` is the whole ladder over these participants: the pools of every
/// size from 2 to the number of participants.
pub open spec fn is_ladder(
    rungs: Seq<PoolView>,
    network: Network,
    addresses: Seq<Seq<u8>>,
    anchor: Seq<u8>,
) -> bool {
    &&& rungs.len() == addresses.len() - 1
    &&& is_ladder_prefix(rungs, network, addresses, anchor)
}

/// Why the rung above `rungs` cannot be built: `error` is what building the
/// exit pool fails with where there is no rung yet, and else what building a
/// pool on the last rung fails with.
pub open spec fn next_rung_failure(
    rungs: Seq<PoolView>,
    network: Network,
    addresses: Seq<Seq<u8>>,
    anchor: Seq<u8>,
    error: PoolError,
) -> bool {
    if rungs.len() == 0 {
        first_failure(addresses.len(), 2, exit_outcomes(network, addresses, anchor), error)
    } else {
        pool_failure(network, rungs.last(), addresses, anchor, rungs.len() + 2, error)
    }
}

/// The ladder cannot be built: above some rungs that can, the next rung
/// fails with `error`.
pub open spec fn ladder_fails(
    network: Network,
    addresses: Seq<Seq<u8>>,
    anchor: Seq<u8>,
    error: PoolError,
) -> bool {
    exists|rungs: Seq<PoolView>|
        {
            &&& rungs.len() < addresses.len() - 1
            &&& #[trigger] is_ladder_prefix(rungs, network, addresses, anchor)
            &&& next_rung_failure(rungs, network, addresses, anchor, error)
        }
}

/// What extending the pools `before` by the pools of the sizes from 3 up
/// leaves: `after`, and whether it failed. The pools that were there stay;
/// each new one is built on the one before it; all are there unless one
/// could not be built, and nothing is added where nothing can be built at
/// all.
pub open spec fn all_pools_outcome(
    before: Seq<PoolView>,
    after: Seq<PoolView>,
    failed: bool,
    network: Network,
    addresses: Seq<Seq<u8>>,
    anchor: Seq<u8>,
) -> bool {
    let n = addresses.len();
    &&& after.len() >= before.len()
    &&& after.take(before.len() as int) == before
    &&& rungs_chain(after, before.len() as int, 3, network, addresses, anchor)
    &&& !failed ==> (n <= 3 || (n <= MAX_POOL_USERS && before.len() > 0)) && after.len()
        == before.len() + if n > 3 {
        n - 3
    } else {
        0
    }
    &&& failed ==> n > 3 && after.len() < before.len() + n - 3
    &&& failed && (n > MAX_POOL_USERS || before.len() == 0) ==> after == before
    &&& failed && n <= MAX_POOL_USERS && before.len() > 0 ==> exists|error: PoolError| #[trigger]
        pool_failure(
            network,
            after.last(),
            addresses,
            anchor,
            (3 + after.len() - before.len()) as nat,
            error,
        )
}

/// Extends `pools`, whose last pool is the pool of size 2, by the pools of
/// the sizes from 3 up to one less than the number of participants, in
/// increasing order, each built on the one before it. Stops at the first pool
/// that cannot be built; the pools built until then stay.
pub fn create_all_pools(
    addresses: &[Address],
    anchor_addr: &Address,
    network: Network,
    pools: &mut Vec<Pool>,
) -> (built: Result<(), PoolError>)
    ensures
        final(pools)@.len() >= old(pools)@.len(),
        pools_view(final(pools)@).take(old(pools)@.len() as int) == pools_view(old(pools)@),
        rungs_chain(
            pools_view(final(pools)@),
            old(pools)@.len() as int,
            3,
            network,
            addresses_view(addresses@),
            anchor_addr@,
        ),
        match built {
            Ok(_) => addresses@.len() <= 3 || (addresses@.len() <= MAX_POOL_USERS && old(pools)@.len() > 0),
            Err(error) => addresses@.len() > 3 && if addresses@.len() > MAX_POOL_USERS {
                error == PoolError::TooManyParticipants
            } else if old(pools)@.len() == 0 {
                error == PoolError::MissingSubpool
            } else {
                pool_failure(
                    network,
                    pools_view(final(pools)@).last(),
                    addresses_view(addresses@),
                    anchor_addr@,
                    (3 + final(pools)@.len() - old(pools)@.len()) as nat,
                    error,
                )
            },
        },
        built is Ok ==> final(pools)@.len() == old(pools)@.len() + if addresses@.len() > 3 {
            addresses@.len() - 3
        } else {
            0
        },
        built is Err ==> final(pools)@.len() < old(pools)@.len() + addresses@.len() - 3,
        built is Err && (addresses@.len() > MAX_POOL_USERS || old(pools)@.len() == 0)
            ==> pools_view(final(pools)@) == pools_view(old(pools)@),
        all_pools_outcome(
            pools_view(old(pools)@),
            pools_view(final(pools)@),
            built is Err,
            network,
            addresses_view(addresses@),
            anchor_addr@,
        ),
{
    let num_users = addresses.len();
    let ghost addrs = addresses_view(addresses@);
    let ghost start = pools@.len() as int;
    proof {
        assert(pools_view(pools@).take(start) =~= pools_view(pools@));
    }
    if num_users <= 3 {
        return Ok(());
    }
    if num_users > MAX_POOL_USERS {
        return Err(PoolError::TooManyParticipants);
    }
    if pools.len() == 0 {
        return Err(PoolError::MissingSubpool);
    }
    let mut users_in_pool: usize = 3;
    while users_in_pool < num_users
        invariant
            3 <= users_in_pool <= num_users,
            num_users == addresses@.len(),
            num_users <= MAX_POOL_USERS,
            addrs == addresses_view(addresses@),
            start == old(pools)@.len(),
            start > 0,
            pools@.len() == start + users_in_pool - 3,
            pools_view(pools@).take(start) == pools_view(old(pools)@),
            rungs_chain(pools_view(pools@), start, 3, network, addrs, anchor_addr@),
        decreases num_users - users_in_pool,
    {
        let previous_pool = &pools[pools.len() - 1];
        let new_pool = match create_pool(previous_pool, users_in_pool, addresses, anchor_addr, network) {
            Ok(new_pool) => new_pool,
            Err(error) => {
                proof {
                    assert(pools_view(pools@).last() == pools@[pools@.len() - 1]@);
                    assert(pool_failure(
                        network,
                        pools_view(pools@).last(),
                        addrs,
                        anchor_addr@,
                        (3 + pools@.len() - start) as nat,
                        error,
                    ));
                }
                return Err(error);
            },
        };
        let ghost before = pools@;
        pools.push(new_pool);
        proof {
            let rungs = pools_view(pools@);
            assert(rungs =~= pools_view(before).push(new_pool@));
            assert(rungs.take(start) =~= pools_view(before).take(start));
            assert forall|j: int| 1 <= j && start <= j < rungs.len() implies pool_matches(
                #[trigger] rungs[j],
                addrs.len(),
                (3 + (j - start)) as nat,
                pool_outcomes(network, rungs[j - 1], addrs, anchor_addr@),
            ) by {
                if j < before.len() {
                    assert(rungs[j] == pools_view(before)[j]);
                    assert(rungs[j - 1] == pools_view(before)[j - 1]);
                } else {
                    assert(rungs[j - 1] == before[before.len() - 1]@);
                }
            }
        }
        users_in_pool = users_in_pool + 1;
    }
    Ok(())
}

/// Rungs that start with the exit pool and are each built on the one before
/// are the lowest rungs of the ladder.
proof fn lemma_chain_is_prefix(
    rungs: Seq<PoolView>,
    network: Network,
    addresses: Seq<Seq<u8>>,
    anchor: Seq<u8>,
)
    requires
        rungs.len() >= 1,
        pool_matches(rungs[0], addresses.len(), 2, exit_outcomes(network, addresses, anchor)),
        rungs_chain(rungs, 1, 3, network, addresses, anchor),
    ensures
        is_ladder_prefix(rungs, network, addresses, anchor),
{
    assert forall|j: int| 0 <= j < rungs.len() implies pool_matches(
        #[trigger] rungs[j],
        addresses.len(),
        (j + 2) as nat,
        next_rung_outcomes(rungs.take(j), network, addresses, anchor),
    ) by {
        if j >= 1 {
            assert(rungs.take(j).last() == rungs[j - 1]);
        }
    }
}

/// Builds the whole ladder over the participants who own `addresses`: the
/// exit pool of size 2, then the pools of every size from 3 up, each built on
/// the one before it, and last the entry pool, whose one tree locks the funds
/// of the whole group. Rung `j` of the result is the pool of size `j + 2`.
///
/// A ladder holds a tree for every set of at least two participants, so its
/// cost doubles with each participant: beyond about 20 of them it takes very
/// long to build.
pub fn build_ladder(addresses: &[Address], anchor_addr: &Address, network: Network) -> (ladder: Result<
    Vec<Pool>,
    PoolError,
>)
    ensures
        match ladder {
            Ok(pools) => MIN_POOL_USERS <= addresses@.len() <= MAX_POOL_USERS && is_ladder(
                pools_view(pools@),
                network,
                addresses_view(addresses@),
                anchor_addr@,
            ),
            Err(error) => if addresses@.len() < MIN_POOL_USERS {
                error == PoolError::TooFewParticipants
            } else if addresses@.len() > MAX_POOL_USERS {
                error == PoolError::TooManyParticipants
            } else {
                ladder_fails(network, addresses_view(addresses@), anchor_addr@, error)
            },
        },
{
    let num_users = addresses.len();
    let ghost addrs = addresses_view(addresses@);
    if num_users < MIN_POOL_USERS {
        return Err(PoolError::TooFewParticipants);
    }
    if num_users > MAX_POOL_USERS {
        return Err(PoolError::TooManyParticipants);
    }
    let exit_pool = match create_exit_pool(addresses, anchor_addr, network) {
        Ok(exit_pool) => exit_pool,
        Err(error) => {
            proof {
                let none = Seq::<PoolView>::empty();
                assert(is_ladder_prefix(none, network, addrs, anchor_addr@));
            }
            return Err(error);
        },
    };
    let mut pools: Vec<Pool> = Vec::new();
    pools.push(exit_pool);
    let ghost lowest = pools@;
    proof {
        assert(pools_view(lowest)[0] == exit_pool@);
    }
    match create_all_pools(addresses, anchor_addr, network, &mut pools) {
        Ok(_) => {},
        Err(error) => {
            proof {
                let rungs = pools_view(pools@);
                assert(rungs[0] == rungs.take(1)[0]);
                lemma_chain_is_prefix(rungs, network, addrs, anchor_addr@);
            }
            return Err(error);
        },
    }
    proof {
        let rungs = pools_view(pools@);
        assert(rungs[0] == rungs.take(1)[0]);
        lemma_chain_is_prefix(rungs, network, addrs, anchor_addr@);
    }
    let entry_pool = match create_pool(
        &pools[pools.len() - 1],
        num_users,
        addresses,
        anchor_addr,
        network,
    ) {
        Ok(entry_pool) => entry_pool,
        Err(error) => {
            proof {
                assert(pools_view(pools@).last() == pools@[pools@.len() - 1]@);
            }
            return Err(error);
        },
    };
    let ghost before = pools@;
    pools.push(entry_pool);
    proof {
        let rungs = pools_view(pools@);
        assert(rungs =~= pools_view(before).push(entry_pool@));
        assert forall|j: int| 0 <= j < rungs.len() implies pool_matches(
            #[trigger] rungs[j],
            addrs.len(),
            (j + 2) as nat,
            next_rung_outcomes(rungs.take(j), network, addrs, anchor_addr@),
        ) by {
            if j < before.len() {
                assert(rungs[j] == pools_view(before)[j]);
                assert(rungs.take(j) =~= pools_view(before).take(j));
            } else {
                assert(rungs.take(j) =~= pools_view(before));
                assert(pools_view(before).last() == before[before.len() - 1]@);
            }
        }
    }
    Ok(pools)
}

/// Two ladders over the same participants, fee anchor and network are the
/// same, tree for tree: building a ladder again gives the same locking keys
/// and commitment hashes.
pub proof fn lemma_ladder_unique(
    first: Seq<PoolView>,
    second: Seq<PoolView>,
    network: Network,
    addresses: Seq<Seq<u8>>,
    anchor: Seq<u8>,
)
    requires
        is_ladder(first, network, addresses, anchor),
        is_ladder(second, network, addresses, anchor),
    ensures
        first == second,
{
    lemma_prefix_unique(first, second, network, addresses, anchor, first.len() as int);
    assert(first.take(first.len() as int) =~= first);
    assert(second.take(first.len() as int) =~= second);
}

/// The lowest rungs of two ladders over the same inputs are the same.
proof fn lemma_prefix_unique(
    first: Seq<PoolView>,
    second: Seq<PoolView>,
    network: Network,
    addresses: Seq<Seq<u8>>,
    anchor: Seq<u8>,
    count: int,
)
    requires
        is_ladder_prefix(first, network, addresses, anchor),
        is_ladder_prefix(second, network, addresses, anchor),
        0 <= count <= first.len(),
        count <= second.len(),
    ensures
        first.take(count) == second.take(count),
    decreases count,
{
    if count == 0 {
        assert(first.take(0) =~= second.take(0));
    } else {
        lemma_prefix_unique(first, second, network, addresses, anchor, count - 1);
        let j = count - 1;
        let outcome = next_rung_outcomes(first.take(j), network, addresses, anchor);
        crate::pools::lemma_pool_unique(first[j], second[j], addresses.len(), (j + 2) as nat, outcome);
        assert(first.take(count) =~= first.take(j).push(first[j]));
        assert(second.take(count) =~= second.take(j).push(second[j]));
    }
}

/// The outputs that leaf `i` of the tree of `members` commits to, on a rung
/// whose rung below is `target`.
pub open spec fn rung_leaf_outputs(
    network: Network,
    target: Seq<PoolView>,
    addresses: Seq<Seq<u8>>,
    anchor: Seq<u8>,
    members: Seq<usize>,
    i: int,
) -> Seq<crate::tx::TxOutView> {
    if target.len() == 0 {
        spec_withdraw_outputs(
            network,
            addresses[members[0] as int],
            addresses[members[1] as int],
            anchor,
            AMOUNT_PER_USER,
        )
    } else {
        spec_withdraw_outputs(
            network,
            spec_tree_script(target.last()[members.remove(i)]),
            addresses[members[i] as int],
            anchor,
            spec_exit_amount(members.len()),
        )
    }
}

/// The leaf hashes of the tree of `members` on the rung above the rungs
/// `below`: the one payout of a pair where there is no rung below, else one
/// withdrawal per member into the last rung below.
pub open spec fn rung_leaf_hashes(
    below: Seq<PoolView>,
    network: Network,
    addresses: Seq<Seq<u8>>,
    anchor: Seq<u8>,
    members: Seq<usize>,
) -> Seq<Seq<u8>> {
    if below.len() == 0 {
        exit_leaf_hashes(network, addresses, anchor, members)
    } else {
        pool_leaf_hashes(network, below.last(), addresses, anchor, members)
    }
}

/// On every rung of a ladder, every set of the rung's size has a tree, which
/// is the tree over the leaf hashes of that set; above the lowest rung, the
/// rung below has a tree for the set without any one of its members.
pub proof fn lemma_rung_tree(
    rungs: Seq<PoolView>,
    network: Network,
    addresses: Seq<Seq<u8>>,
    anchor: Seq<u8>,
    j: int,
    members: Seq<usize>,
)
    requires
        is_ladder_prefix(rungs, network, addresses, anchor),
        0 <= j < rungs.len(),
        is_participant_set(members, addresses.len(), (j + 2) as nat),
    ensures
        rungs[j].contains_key(members),
        rungs[j][members] == spec_locking_tree(
            rung_leaf_hashes(rungs.take(j), network, addresses, anchor, members),
        ),
        rungs[j][members].leaf_hashes == rung_leaf_hashes(
            rungs.take(j),
            network,
            addresses,
            anchor,
            members,
        ),
        j >= 1 ==> subpools_present(rungs[j - 1], members),
{
    let outcome = next_rung_outcomes(rungs.take(j), network, addresses, anchor);
    assert(pool_matches(rungs[j], addresses.len(), (j + 2) as nat, outcome));
    lemma_pool_entry(rungs[j], addresses.len(), (j + 2) as nat, outcome, members);
    if j >= 1 {
        assert(rungs.take(j).last() == rungs[j - 1]);
    }
}

/// On every rung of a ladder, every set of the rung's size has a tree. The
/// tree of a pair has the one leaf that pays both out; the tree of a larger
/// set has one leaf per member. Each leaf is the commitment hash of outputs
/// that account, fee included, for one contribution per member of the set.
pub proof fn lemma_rung_entry(
    rungs: Seq<PoolView>,
    network: Network,
    addresses: Seq<Seq<u8>>,
    anchor: Seq<u8>,
    j: int,
    members: Seq<usize>,
)
    requires
        is_ladder_prefix(rungs, network, addresses, anchor),
        0 <= j < rungs.len(),
        is_participant_set(members, addresses.len(), (j + 2) as nat),
        addresses.len() <= MAX_POOL_USERS,
    ensures
        rungs[j].contains_key(members),
        rungs[j][members].leaf_hashes.len() == if j == 0 {
            1
        } else {
            j + 2
        },
        forall|i: int|
            0 <= i < rungs[j][members].leaf_hashes.len() ==> #[trigger] rungs[j][members].leaf_hashes[i]
                == crate::ctv_scripts::spec_ctv_hash(
                network,
                rung_leaf_outputs(network, rungs.take(j), addresses, anchor, members, i),
                None,
            ) && committed_total(
                network,
                rung_leaf_outputs(network, rungs.take(j), addresses, anchor, members, i),
            ) == (j + 2) * AMOUNT_PER_USER,
{
    lemma_rung_tree(rungs, network, addresses, anchor, j, members);
    crate::participants::lemma_set_size_bound(members, addresses.len());
    let below = rungs.take(j);
    let hashes = rung_leaf_hashes(below, network, addresses, anchor, members);
    assert forall|i: int| 0 <= i < hashes.len() implies #[trigger] hashes[i]
        == crate::ctv_scripts::spec_ctv_hash(
        network,
        rung_leaf_outputs(network, below, addresses, anchor, members, i),
        None,
    ) && committed_total(network, rung_leaf_outputs(network, below, addresses, anchor, members, i))
        == (j + 2) * AMOUNT_PER_USER by {
        if j == 0 {
            lemma_withdraw_total(
                network,
                addresses[members[0] as int],
                addresses[members[1] as int],
                anchor,
                AMOUNT_PER_USER,
            );
        } else {
            lemma_withdraw_total(
                network,
                spec_tree_script(below.last()[members.remove(i)]),
                addresses[members[i] as int],
                anchor,
                spec_exit_amount(members.len()),
            );
        }
    }
}

/// Two chains of pools that start alike are alike as far as both go.
proof fn lemma_chain_common(
    first: Seq<PoolView>,
    second: Seq<PoolView>,
    from: int,
    network: Network,
    addresses: Seq<Seq<u8>>,
    anchor: Seq<u8>,
    count: int,
)
    requires
        1 <= from <= count,
        count <= first.len(),
        count <= second.len(),
        first.take(from) == second.take(from),
        rungs_chain(first, from, 3, network, addresses, anchor),
        rungs_chain(second, from, 3, network, addresses, anchor),
    ensures
        first.take(count) == second.take(count),
    decreases count - from,
{
    if count > from {
        lemma_chain_common(first, second, from, network, addresses, anchor, count - 1);
        let j = count - 1;
        assert(first[j - 1] == first.take(j)[j - 1]);
        assert(second[j - 1] == second.take(j)[j - 1]);
        let outcome = pool_outcomes(network, first[j - 1], addresses, anchor);
        assert(pool_matches(first[j], addresses.len(), (3 + (j - from)) as nat, outcome));
        assert(pool_matches(second[j], addresses.len(), (3 + (j - from)) as nat, outcome));
        crate::pools::lemma_pool_unique(
            first[j],
            second[j],
            addresses.len(),
            (3 + (j - from)) as nat,
            outcome,
        );
        assert(first.take(count) =~= first.take(j).push(first[j]));
        assert(second.take(count) =~= second.take(j).push(second[j]));
    }
}

/// A pool that is built on `target` does not fail to be built on it.
proof fn lemma_built_pool_does_not_fail(
    pool: PoolView,
    network: Network,
    target: PoolView,
    addresses: Seq<Seq<u8>>,
    anchor: Seq<u8>,
    k: nat,
    error: PoolError,
)
    requires
        pool_matches(pool, addresses.len(), k, pool_outcomes(network, target, addresses, anchor)),
    ensures
        !pool_failure(network, target, addresses, anchor, k, error),
{
    let outcome = pool_outcomes(network, target, addresses, anchor);
    if !pool_failure(network, target, addresses, anchor, k, error) {
    } else if !crate::pools::subpools_complete(target, addresses.len(), k) {
        let members = choose|members: Seq<usize>|
            #[trigger] is_participant_set(members, addresses.len(), k) && !subpools_present(
                target,
                members,
            );
        lemma_pool_entry(pool, addresses.len(), k, outcome, members);
    } else {
        let members = choose|members: Seq<usize>|
            {
                &&& #[trigger] is_participant_set(members, addresses.len(), k)
                &&& outcome(members) == Err::<LockingTreeView, PoolError>(error)
                &&& forall|earlier: Seq<usize>|
                    #[trigger] is_participant_set(earlier, addresses.len(), k)
                        && crate::participants::lex_less(earlier, members) ==> outcome(
                        earlier,
                    ) is Ok
            };
        lemma_pool_entry(pool, addresses.len(), k, outcome, members);
    }
}

/// Extending the same pools for the same participants, fee anchor and
/// network twice leaves the same pools, tree for tree, and fails both times
/// or neither time.
pub proof fn lemma_all_pools_unique(
    before: Seq<PoolView>,
    first: Seq<PoolView>,
    first_failed: bool,
    second: Seq<PoolView>,
    second_failed: bool,
    network: Network,
    addresses: Seq<Seq<u8>>,
    anchor: Seq<u8>,
)
    requires
        all_pools_outcome(before, first, first_failed, network, addresses, anchor),
        all_pools_outcome(before, second, second_failed, network, addresses, anchor),
    ensures
        first == second,
        first_failed == second_failed,
{
    let n = addresses.len();
    let from = before.len() as int;
    if n <= 3 || n > MAX_POOL_USERS || from == 0 {
        assert(first.take(from) =~= first);
        assert(second.take(from) =~= second);
    } else {
        let shorter = if first.len() <= second.len() {
            first.len() as int
        } else {
            second.len() as int
        };
        lemma_chain_common(first, second, from, network, addresses, anchor, shorter);
        if first.len() <= second.len() {
            lemma_shorter_chain_stops(first, first_failed, second, before, network, addresses, anchor);
        } else {
            lemma_shorter_chain_stops(second, second_failed, first, before, network, addresses, anchor);
        }
        assert(first.take(shorter) =~= first);
        assert(second.take(shorter) =~= second);
    }
}

/// Where one outcome of extending the same pools is shorter than a chain of
/// pools with the same beginning, it failed on a pool that the chain holds.
proof fn lemma_shorter_chain_stops(
    short: Seq<PoolView>,
    short_failed: bool,
    long: Seq<PoolView>,
    before: Seq<PoolView>,
    network: Network,
    addresses: Seq<Seq<u8>>,
    anchor: Seq<u8>,
)
    requires
        3 < addresses.len() <= MAX_POOL_USERS,
        before.len() > 0,
        all_pools_outcome(before, short, short_failed, network, addresses, anchor),
        rungs_chain(long, before.len() as int, 3, network, addresses, anchor),
        long.len() <= before.len() + addresses.len() - 3,
        short.take(short.len() as int) == long.take(short.len() as int),
    ensures
        short.len() >= long.len(),
{
    if short.len() < long.len() {
        let j = short.len() as int;
        let from = before.len() as int;
        assert(short_failed);
        let error = choose|error: PoolError| #[trigger]
            pool_failure(network, short.last(), addresses, anchor, (3 + short.len() - before.len()) as nat, error);
        assert(short.last() == short.take(j)[j - 1]);
        assert(long[j - 1] == long.take(j)[j - 1]);
        assert(pool_matches(
            long[j],
            addresses.len(),
            (3 + (j - from)) as nat,
            pool_outcomes(network, long[j - 1], addresses, anchor),
        ));
        lemma_built_pool_does_not_fail(
            long[j],
            network,
            long[j - 1],
            addresses,
            anchor,
            (3 + (j - from)) as nat,
            error,
        );
    }
}

} // verus!
