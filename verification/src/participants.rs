//! Sets of participants: who of the group that funded a pool is still inside
//! it.

use crate::config::MAX_POOL_USERS;
use itertools::Itertools;
use vstd::arithmetic::power2::{lemma_pow2_pos, lemma_pow2_strictly_increases, lemma_pow2_unfold, pow2};
use vstd::prelude::*;

verus! {

/// `members` lists `k` of the participants `0..n` in strictly increasing
/// order: the canonical form of a set of participants.
pub open spec fn is_participant_set(members: Seq<usize>, n: nat, k: nat) -> bool {
    &&& members.len() == k
    &&& forall|i: int| 0 <= i < members.len() ==> #[trigger] members[i] < n
    &&& forall|i: int, j: int| 0 <= i < j < members.len() ==> members[i] < members[j]
}

/// `a` comes before `b` in lexicographic order: they agree up to a position
/// at which `a` holds the smaller participant.
pub open spec fn lex_less(a: Seq<usize>, b: Seq<usize>) -> bool {
    exists|p: int|
        0 <= p < a.len() && p < b.len() && #[trigger] a[p] < b[p] && a.take(p) == b.take(p)
}

/// Lists of participants, each as a sequence.
pub open spec fn sets_view(sets: Seq<Vec<usize>>) -> Seq<Seq<usize>> {
    sets.map_values(|set: Vec<usize>| set@)
}

/// `list` holds every set of `k` of the participants `0..n`, each once and in
/// canonical form, in lexicographic order.
pub open spec fn is_combinations(list: Seq<Seq<usize>>, n: nat, k: nat) -> bool {
    &&& forall|j: int| 0 <= j < list.len() ==> is_participant_set(#[trigger] list[j], n, k)
    &&& forall|set: Seq<usize>| #[trigger] is_participant_set(set, n, k) ==> list.contains(set)
    &&& forall|i: int, j: int| 0 <= i < j < list.len() ==> lex_less(#[trigger] list[i], #[trigger] list[j])
}

/// Collects `Itertools::combinations` over the range `0..n`. Trusted: for
/// no more than `n` out of a range that a pool can hold, the iterator yields
/// every `k`-element combination of the range once, each in increasing order,
/// in lexicographic order. (It lays out `k` indices before it reads the
/// range, so a `k` beyond the range is left out.)
#[verifier::external_body]
pub(crate) fn combinations(n: usize, k: usize) -> (list: Vec<Vec<usize>>)
    requires
        k <= n <= MAX_POOL_USERS,
    ensures
        is_combinations(sets_view(list@), n as nat, k as nat),
{
    (0..n).combinations(k).collect()
}

/// Sets in lexicographic order differ.
pub(crate) proof fn lemma_lex_less_differs(a: Seq<usize>, b: Seq<usize>)
    requires
        lex_less(a, b),
    ensures
        a != b,
{
}

/// No two sets come before each other.
pub proof fn lemma_lex_less_asymmetric(a: Seq<usize>, b: Seq<usize>)
    requires
        lex_less(a, b),
    ensures
        !lex_less(b, a),
{
    let p = choose|p: int|
        0 <= p < a.len() && p < b.len() && #[trigger] a[p] < b[p] && a.take(p) == b.take(p);
    if lex_less(b, a) {
        let q = choose|q: int|
            0 <= q < b.len() && q < a.len() && #[trigger] b[q] < a[q] && b.take(q) == a.take(q);
        if p < q {
            assert(b.take(q)[p] == a.take(q)[p]);
        } else if q < p {
            assert(a.take(p)[q] == b.take(p)[q]);
        }
    }
}

/// The `i`-th member of a canonical set is at least `i`.
proof fn lemma_member_at_least_index(members: Seq<usize>, n: nat, i: int)
    requires
        is_participant_set(members, n, members.len()),
        0 <= i < members.len(),
    ensures
        members[i] >= i,
    decreases i,
{
    if i > 0 {
        lemma_member_at_least_index(members, n, i - 1);
    }
}

/// A set of participants below `n` has at most `n` members.
pub proof fn lemma_set_size_bound(members: Seq<usize>, n: nat)
    requires
        is_participant_set(members, n, members.len()),
    ensures
        members.len() <= n,
{
    if members.len() > 0 {
        lemma_member_at_least_index(members, n, members.len() - 1);
    }
}

/// The list without the member at position `index`; the whole list where it
/// has no such position.
pub open spec fn spec_remove_member(members: Seq<usize>, index: int) -> Seq<usize> {
    if 0 <= index < members.len() {
        members.remove(index)
    } else {
        members
    }
}

/// Copies a list of participants without the member at position `index`.
pub fn remove_member(members: &Vec<usize>, index: usize) -> (rest: Vec<usize>)
    ensures
        rest@ == spec_remove_member(members@, index as int),
{
    let mut rest: Vec<usize> = Vec::new();
    let mut i: usize = 0;
    while i < members.len()
        invariant
            i <= members.len(),
            rest@ == if i <= index {
                members@.take(i as int)
            } else {
                members@.remove(index as int).take(i - 1)
            },
        decreases members.len() - i,
    {
        if i != index {
            rest.push(members[i]);
        }
        i = i + 1;
    }
    rest
}

/// The number that keys a set of participants: the sum of `2^m` over its
/// members `m`.
pub open spec fn set_key(members: Seq<usize>) -> nat
    decreases members.len(),
{
    if members.len() == 0 {
        0
    } else {
        set_key(members.drop_last()) + pow2(members.last() as nat)
    }
}

/// A canonical set of participants below `n` has a key below `2^n`.
pub proof fn lemma_set_key_bound(members: Seq<usize>, n: nat)
    requires
        is_participant_set(members, n, members.len()),
    ensures
        set_key(members) < pow2(n),
    decreases members.len(),
{
    if members.len() == 0 {
        lemma_pow2_pos(n);
    } else {
        let last = members.last() as nat;
        lemma_set_key_bound(members.drop_last(), last);
        lemma_pow2_unfold(last + 1);
        if last + 1 < n {
            lemma_pow2_strictly_increases(last + 1, n);
        }
    }
}

/// Canonical sets with the same key are the same set.
pub proof fn lemma_set_key_injective(a: Seq<usize>, b: Seq<usize>, n: nat)
    requires
        is_participant_set(a, n, a.len()),
        is_participant_set(b, n, b.len()),
        set_key(a) == set_key(b),
    ensures
        a == b,
    decreases a.len() + b.len(),
{
    if a.len() == 0 && b.len() == 0 {
    } else if a.len() == 0 {
        lemma_pow2_pos(b.last() as nat);
    } else if b.len() == 0 {
        lemma_pow2_pos(a.last() as nat);
    } else {
        let la = a.last() as nat;
        let lb = b.last() as nat;
        lemma_set_key_bound(a.drop_last(), la);
        lemma_set_key_bound(b.drop_last(), lb);
        if la < lb {
            lemma_pow2_unfold(la + 1);
            if la + 1 < lb {
                lemma_pow2_strictly_increases(la + 1, lb);
            }
        } else if lb < la {
            lemma_pow2_unfold(lb + 1);
            if lb + 1 < la {
                lemma_pow2_strictly_increases(lb + 1, la);
            }
        } else {
            lemma_set_key_injective(a.drop_last(), b.drop_last(), n);
            assert(b =~= b.drop_last().push(b.last()));
        }
    }
}

/// Whether `members` lists participants below the most a pool can hold, in
/// strictly increasing order.
pub open spec fn is_canonical(members: Seq<usize>) -> bool {
    is_participant_set(members, MAX_POOL_USERS as nat, members.len())
}

/// Computes the key of a list of participants: the key of the set that it
/// is the canonical form of, and none where it is not canonical.
pub fn participant_key(members: &Vec<usize>) -> (key: Option<u64>)
    ensures
        match key {
            Some(sum) => is_canonical(members@) && sum == set_key(members@),
            None => !is_canonical(members@),
        },
{
    if check_canonical(members) {
        Some(canonical_key(members))
    } else {
        None
    }
}

/// Computes the key of a canonical set of participants.
fn canonical_key(members: &Vec<usize>) -> (key: u64)
    requires
        is_canonical(members@),
    ensures
        key == set_key(members@),
{
    let mut key: u64 = 0;
    let mut i: usize = 0;
    while i < members.len()
        invariant
            i <= members.len(),
            is_canonical(members@),
            key == set_key(members@.take(i as int)),
        decreases members.len() - i,
    {
        let member = members[i];
        proof {
            let prefix = members@.take(i + 1);
            assert(prefix.drop_last() =~= members@.take(i as int));
            lemma_set_key_bound(prefix, MAX_POOL_USERS as nat);
            vstd::arithmetic::power2::lemma2_to64_rest();
            vstd::bits::lemma_u64_shl_is_mul(1, member as u64);
        }
        key = key + (1u64 << (member as u64));
        i = i + 1;
    }
    proof {
        assert(members@.take(members.len() as int) =~= members@);
    }
    key
}

/// Whether `members` is canonical: participants below the most a pool can
/// hold, in strictly increasing order.
pub fn check_canonical(members: &Vec<usize>) -> (canonical: bool)
    ensures
        canonical == is_canonical(members@),
{
    let mut i: usize = 0;
    while i < members.len()
        invariant
            i <= members.len(),
            forall|j: int| 0 <= j < i ==> #[trigger] members@[j] < MAX_POOL_USERS,
            forall|j: int| 0 < j < i ==> members@[j - 1] < #[trigger] members@[j],
        decreases members.len() - i,
    {
        if members[i] >= MAX_POOL_USERS {
            return false;
        }
        if i > 0 && members[i - 1] >= members[i] {
            return false;
        }
        i = i + 1;
    }
    proof {
        lemma_steps_increase(members@);
    }
    true
}

/// A sequence that grows at every step grows between any two positions.
proof fn lemma_steps_increase(members: Seq<usize>)
    requires
        forall|j: int| 0 < j < members.len() ==> members[j - 1] < #[trigger] members[j],
    ensures
        forall|i: int, j: int| 0 <= i < j < members.len() ==> members[i] < members[j],
    decreases members.len(),
{
    if members.len() > 1 {
        lemma_steps_increase(members.drop_last());
        assert forall|i: int, j: int| 0 <= i < j < members.len() implies members[i] < members[j] by {
            if j == members.len() - 1 && i < j - 1 {
                assert(members.drop_last()[i] < members.drop_last()[j - 1]);
                assert(members[j - 1] < members[j]);
            }
        }
    }
}

/// The members of `list` grow from each position to the next.
pub open spec fn strictly_increasing(list: Seq<usize>) -> bool {
    forall|i: int, j: int| 0 <= i < j < list.len() ==> list[i] < list[j]
}

/// `a` and `b` list the same participants, in whatever order and however
/// often.
pub open spec fn same_members(a: Seq<usize>, b: Seq<usize>) -> bool {
    forall|x: usize| a.contains(x) <==> b.contains(x)
}

/// Two increasing lists of the same participants are the same list: a set of
/// participants has one canonical form, whatever the order it was given in.
pub proof fn lemma_canonical_unique(a: Seq<usize>, b: Seq<usize>)
    requires
        strictly_increasing(a),
        strictly_increasing(b),
        same_members(a, b),
    ensures
        a == b,
    decreases a.len(),
{
    if a.len() == 0 {
        if b.len() > 0 {
            assert(b.contains(b[0]));
        }
    } else {
        assert(b.contains(a.last()));
        assert(a.contains(b.last()));
        let a0 = a.drop_last();
        let b0 = b.drop_last();
        assert forall|x: usize| a0.contains(x) <==> b0.contains(x) by {
            if a0.contains(x) {
                assert(a.contains(x));
                let j = choose|j: int| 0 <= j < b.len() && b[j] == x;
                assert(b0[j] == x);
            }
            if b0.contains(x) {
                assert(b.contains(x));
                let j = choose|j: int| 0 <= j < a.len() && a[j] == x;
                assert(a0[j] == x);
            }
        }
        lemma_canonical_unique(a0, b0);
        assert(b =~= b0.push(b.last()));
    }
}

/// Puts `member` at its place in an increasing list, unless it is there.
fn insert_member(sorted: &mut Vec<usize>, member: usize)
    requires
        strictly_increasing(old(sorted)@),
    ensures
        strictly_increasing(final(sorted)@),
        forall|x: usize| final(sorted)@.contains(x) <==> old(sorted)@.contains(x) || x == member,
{
    let mut pos: usize = 0;
    while pos < sorted.len() && sorted[pos] < member
        invariant
            pos <= sorted.len(),
            sorted@ == old(sorted)@,
            forall|j: int| 0 <= j < pos ==> sorted@[j] < member,
        decreases sorted.len() - pos,
    {
        pos = pos + 1;
    }
    let ghost before = sorted@;
    if pos < sorted.len() && sorted[pos] == member {
        return ;
    }
    sorted.insert(pos, member);
    proof {
        let after = sorted@;
        assert forall|x: usize| after.contains(x) <==> before.contains(x) || x == member by {
            if before.contains(x) {
                let i = choose|i: int| 0 <= i < before.len() && before[i] == x;
                if i < pos {
                    assert(after[i] == x);
                } else {
                    assert(after[i + 1] == x);
                }
            }
            if x == member {
                assert(after[pos as int] == x);
            }
        }
    }
}

/// Brings a list of participants into canonical form: each participant once,
/// in increasing order, whatever the order of the list and however often it
/// names one.
pub fn canonical_set(members: &[usize]) -> (set: Vec<usize>)
    ensures
        strictly_increasing(set@),
        same_members(set@, members@),
{
    let mut set: Vec<usize> = Vec::new();
    let mut i: usize = 0;
    while i < members.len()
        invariant
            i <= members.len(),
            strictly_increasing(set@),
            forall|x: usize| set@.contains(x) <==> members@.take(i as int).contains(x),
        decreases members.len() - i,
    {
        insert_member(&mut set, members[i]);
        proof {
            let longer = members@.take(i + 1);
            assert forall|x: usize| set@.contains(x) <==> longer.contains(x) by {
                if x == members@[i as int] {
                    assert(longer[i as int] == x);
                }
            }
        }
        i = i + 1;
    }
    proof {
        assert(members@.take(members.len() as int) =~= members@);
    }
    set
}

} // verus!
