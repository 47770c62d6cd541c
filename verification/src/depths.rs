//! Leaf depths of a balanced commitment tree.

use vstd::arithmetic::power2::{lemma_pow2_strictly_increases, lemma_pow2_unfold, pow2};
use vstd::prelude::*;
use vstd::set_lib::{lemma_int_range, set_int_range};

verus! {

/// `h` is the height of a balanced tree over `n` leaves: the least `h` with
/// `n <= 2^h`.
pub open spec fn is_tree_height(n: nat, h: nat) -> bool {
    &&& n <= pow2(h)
    &&& h > 0 ==> pow2((h - 1) as nat) < n
}

/// The height of a balanced tree over `n` leaves, `ceil(log2(n))` for `n >= 1`.
pub open spec fn tree_height(n: nat) -> nat {
    choose|h: nat| is_tree_height(n, h)
}

/// The number of leaf slots of the deepest level that `n` leaves do not fill.
pub open spec fn excess_slots(n: nat) -> int {
    pow2(tree_height(n)) - n
}

/// The depth of leaf `i` among `n`: the tree's height, but one less for the
/// last `excess_slots(n)` leaves.
pub open spec fn leaf_depth(n: nat, i: int) -> int {
    if i < n - excess_slots(n) {
        tree_height(n) as int
    } else {
        tree_height(n) - 1
    }
}

/// The depths of all `n` leaves, in leaf order.
pub open spec fn spec_depths(n: nat) -> Seq<usize> {
    Seq::new(n, |i: int| leaf_depth(n, i) as usize)
}

/// At most one number is the height of a tree over `n` leaves.
pub proof fn lemma_tree_height_unique(n: nat, h1: nat, h2: nat)
    requires
        is_tree_height(n, h1),
        is_tree_height(n, h2),
    ensures
        h1 == h2,
{
    if h1 < h2 {
        if h1 < h2 - 1 {
            lemma_pow2_strictly_increases(h1, (h2 - 1) as nat);
        }
    } else if h2 < h1 {
        if h2 < h1 - 1 {
            lemma_pow2_strictly_increases(h2, (h1 - 1) as nat);
        }
    }
}

/// Every leaf count has a height, and for a positive count fewer than half of
/// the deepest level's slots stay empty.
pub proof fn lemma_tree_height(n: nat)
    ensures
        is_tree_height(n, tree_height(n)),
        0 <= excess_slots(n),
        n > 0 ==> excess_slots(n) < n,
        n > 0 && excess_slots(n) > 0 ==> tree_height(n) > 0,
    decreases n,
{
    if n <= 1 {
        assert(pow2(0) == 1) by {
            vstd::arithmetic::power2::lemma2_to64();
        }
        assert(is_tree_height(n, 0));
    } else {
        let half = ((n + 1) / 2) as nat;
        lemma_tree_height(half);
        let h = tree_height(half);
        lemma_pow2_unfold(h + 1);
        if h > 0 {
            lemma_pow2_unfold(h);
        }
        assert(is_tree_height(n, h + 1));
    }
    let h = tree_height(n);
    if h > 0 {
        lemma_pow2_unfold(h);
    } else {
        assert(pow2(0) == 1) by {
            vstd::arithmetic::power2::lemma2_to64();
        }
    }
}

/// The shape of the depths: one per leaf, each the height or one less, all the
/// height where the count is a power of two, and exactly `excess_slots(n)` of
/// them reduced.
pub proof fn lemma_depths_shape(n: nat)
    requires
        1 <= n <= usize::MAX,
    ensures
        spec_depths(n).len() == n,
        forall|i: int|
            0 <= i < n ==> (#[trigger] spec_depths(n)[i] == tree_height(n) || spec_depths(n)[i]
                == tree_height(n) - 1),
        n == pow2(tree_height(n)) ==> forall|i: int|
            0 <= i < n ==> #[trigger] spec_depths(n)[i] == tree_height(n),
        Set::new(|i: int| 0 <= i < n && spec_depths(n)[i] == tree_height(n) - 1).len()
            == excess_slots(n),
{
    lemma_tree_height(n);
    lemma_height_fits(n);
    let h = tree_height(n);
    let reduced = Set::new(|i: int| 0 <= i < n && spec_depths(n)[i] == h - 1);
    assert(reduced =~= set_int_range(n - excess_slots(n), n as int));
    lemma_int_range(n - excess_slots(n), n as int);
}

/// A tree over as many leaves as a `usize` can count is at most 64 levels high.
pub proof fn lemma_height_fits(n: nat)
    requires
        n <= usize::MAX,
    ensures
        tree_height(n) <= 64,
{
    lemma_tree_height(n);
    let h = tree_height(n);
    if h > 64 {
        vstd::arithmetic::power2::lemma2_to64_rest();
        if h - 1 > 64 {
            lemma_pow2_strictly_increases(64, (h - 1) as nat);
        }
    }
}

/// The depth of each leaf is a level of a tree at most 64 high.
pub proof fn lemma_leaf_depth_bounds(n: nat, i: int)
    requires
        0 <= i < n <= usize::MAX,
    ensures
        0 <= leaf_depth(n, i) <= 64,
        spec_depths(n)[i] == leaf_depth(n, i),
{
    lemma_tree_height(n);
    lemma_height_fits(n);
}

/// Computes the depth of every leaf of a balanced tree over `num_scripts`
/// leaves: the height `ceil(log2(num_scripts))`, and one level less for the
/// trailing leaves that take up the slots the deepest level leaves empty.
pub fn calculate_depths(num_scripts: usize) -> (depths: Vec<usize>)
    ensures
        depths@ == spec_depths(num_scripts as nat),
{
    let mut depths: Vec<usize> = Vec::new();
    if num_scripts == 0 {
        return depths;
    }
    let n: u128 = num_scripts as u128;
    let mut height: usize = 0;
    let mut next_power: u128 = 1;
    proof {
        vstd::arithmetic::power2::lemma2_to64();
        lemma_height_fits(n as nat);
        lemma_tree_height(n as nat);
    }
    while next_power < n
        invariant
            n == num_scripts,
            n >= 1,
            next_power == pow2(height as nat),
            height <= tree_height(n as nat) <= 64,
            height > 0 ==> pow2((height - 1) as nat) < n,
            is_tree_height(n as nat, tree_height(n as nat)),
        decreases tree_height(n as nat) - height,
    {
        proof {
            lemma_pow2_unfold((height + 1) as nat);
        }
        next_power = next_power * 2;
        height = height + 1;
    }
    proof {
        lemma_tree_height_unique(n as nat, height as nat, tree_height(n as nat));
    }
    let excess: u128 = next_power - n;
    let full: usize = (n - excess) as usize;
    let mut i: usize = 0;
    while i < num_scripts
        invariant
            i <= num_scripts,
            n == num_scripts,
            n >= 1,
            height == tree_height(n as nat),
            excess == excess_slots(n as nat),
            0 <= excess < n,
            full == n - excess,
            depths@ == Seq::new(i as nat, |j: int| leaf_depth(n as nat, j) as usize),
        decreases num_scripts - i,
    {
        let depth = if i < full {
            height
        } else {
            proof {
                if height == 0 {
                    vstd::arithmetic::power2::lemma2_to64();
                }
            }
            height - 1
        };
        depths.push(depth);
        i = i + 1;
    }
    depths
}

} // verus!
