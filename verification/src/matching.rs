use vstd::prelude::*;
use crate::accounts::IAccountMeta;
use crate::keys::{Pubkey, keys_equal};

verus! {

/// The first index at or after `from` whose address is `key` and that is not
/// yet used.
pub open spec fn first_unused_match(keys: Seq<Seq<u8>>, used: Seq<bool>, key: Seq<u8>, from: int) -> Option<int>
    decreases keys.len() - from,
{
    if from >= keys.len() {
        None
    } else if !used[from] && keys[from] == key {
        Some(from)
    } else {
        first_unused_match(keys, used, key, from + 1)
    }
}

/// The matching of requested accounts against the supplied addresses: each
/// request in turn takes the first supplied address equal to its own that no
/// earlier request took, and is skipped when there is none. The result holds
/// which supplied addresses are taken and, in request order, the indices taken.
pub open spec fn greedy_match(requested: Seq<Seq<u8>>, keys: Seq<Seq<u8>>) -> (Seq<bool>, Seq<int>)
    decreases requested.len(),
{
    if requested.len() == 0 {
        (Seq::new(keys.len(), |j: int| false), Seq::<int>::empty())
    } else {
        let prev = greedy_match(requested.drop_last(), keys);
        match first_unused_match(keys, prev.0, requested.last(), 0) {
            Some(j) => (prev.0.update(j, true), prev.1.push(j)),
            None => prev,
        }
    }
}

/// The supplied indices that the requests take, in request order.
pub open spec fn matched_indices(requested: Seq<Seq<u8>>, keys: Seq<Seq<u8>>) -> Seq<int> {
    greedy_match(requested, keys).1
}

/// The bytes of each address.
pub open spec fn key_views(keys: Seq<Pubkey>) -> Seq<Seq<u8>> {
    keys.map_values(|k: Pubkey| k@)
}

/// The bytes of each account's address.
pub open spec fn requested_keys(metas: Seq<IAccountMeta>) -> Seq<Seq<u8>> {
    metas.map_values(|m: IAccountMeta| m.pubkey@)
}

/// The indices of a vector of indices, as integers.
pub open spec fn as_ints(s: Seq<usize>) -> Seq<int> {
    s.map_values(|j: usize| j as int)
}

/// What `first_unused_match` finds: the least unused index at or after
/// `from` whose address is `key`, or nothing when there is none.
pub proof fn lemma_first_unused_match(keys: Seq<Seq<u8>>, used: Seq<bool>, key: Seq<u8>, from: int)
    requires
        0 <= from,
        used.len() == keys.len(),
    ensures
        first_unused_match(keys, used, key, from) matches Some(j) ==> {
            &&& from <= j < keys.len()
            &&& !used[j]
            &&& keys[j] == key
            &&& forall|k: int| from <= k < j ==> used[k] || keys[k] != key
        },
        first_unused_match(keys, used, key, from) is None ==> forall|k: int|
            from <= k < keys.len() ==> used[k] || #[trigger] keys[k] != key,
    decreases keys.len() - from,
{
    if from < keys.len() {
        lemma_first_unused_match(keys, used, key, from + 1);
    }
}

/// Facts that every matching keeps: one flag per supplied address, at most
/// one index per request, every index in range and taken, no index taken
/// twice, and only taken indices flagged.
pub proof fn lemma_matching_well_formed(requested: Seq<Seq<u8>>, keys: Seq<Seq<u8>>)
    ensures
        ({
            let (used, picks) = greedy_match(requested, keys);
            &&& used.len() == keys.len()
            &&& picks.len() <= requested.len()
            &&& forall|k: int| 0 <= k < picks.len() ==> 0 <= #[trigger] picks[k] < keys.len() && used[picks[k]]
            &&& forall|a: int, b: int| 0 <= a < b < picks.len() ==> picks[a] != picks[b]
            &&& forall|j: int| 0 <= j < used.len() && #[trigger] used[j] ==> picks.contains(j)
        }),
    decreases requested.len(),
{
    if requested.len() > 0 {
        let prev = greedy_match(requested.drop_last(), keys);
        lemma_matching_well_formed(requested.drop_last(), keys);
        lemma_first_unused_match(keys, prev.0, requested.last(), 0);
        match first_unused_match(keys, prev.0, requested.last(), 0) {
            Some(j) => {
                let (used, picks) = greedy_match(requested, keys);
                assert(picks == prev.1.push(j));
                assert forall|a: int, b: int| 0 <= a < b < picks.len() implies picks[a] != picks[b] by {
                    if b == picks.len() - 1 {
                        assert(prev.0[picks[a]]);
                    }
                }
                assert forall|i: int| 0 <= i < used.len() && #[trigger] used[i] implies picks.contains(i) by {
                    if i == j {
                        assert(picks[picks.len() - 1] == j);
                    } else {
                        assert(prev.0[i]);
                        let k = choose|k: int| 0 <= k < prev.1.len() && prev.1[k] == i;
                        assert(picks[k] == i);
                    }
                }
            },
            None => {},
        }
    }
}

/// When every request is served, the `k`-th index taken holds the address of
/// the `k`-th request.
pub proof fn lemma_full_matching_aligned(requested: Seq<Seq<u8>>, keys: Seq<Seq<u8>>)
    requires
        matched_indices(requested, keys).len() == requested.len(),
    ensures
        forall|k: int| 0 <= k < requested.len() ==>
            keys[#[trigger] matched_indices(requested, keys)[k]] == requested[k],
    decreases requested.len(),
{
    if requested.len() > 0 {
        let prev = greedy_match(requested.drop_last(), keys);
        lemma_matching_well_formed(requested.drop_last(), keys);
        lemma_first_unused_match(keys, prev.0, requested.last(), 0);
        match first_unused_match(keys, prev.0, requested.last(), 0) {
            Some(j) => {
                let picks = matched_indices(requested, keys);
                assert(picks == prev.1.push(j));
                assert(prev.1.len() == requested.drop_last().len());
                lemma_full_matching_aligned(requested.drop_last(), keys);
                assert forall|k: int| 0 <= k < requested.len() implies keys[#[trigger] picks[k]] == requested[k] by {
                    if k == requested.len() - 1 {
                        assert(picks[k] == j);
                        assert(keys[j] == requested.last());
                    } else {
                        assert(picks[k] == prev.1[k]);
                        assert(keys[matched_indices(requested.drop_last(), keys)[k]] == requested.drop_last()[k]);
                        assert(requested.drop_last()[k] == requested[k]);
                    }
                }
            },
            None => {},
        }
    }
}

/// How many times `x` occurs in `s`.
pub open spec fn occurrences(s: Seq<Seq<u8>>, x: Seq<u8>) -> nat
    decreases s.len(),
{
    if s.len() == 0 {
        0
    } else {
        occurrences(s.drop_last(), x) + if s.last() == x { 1nat } else { 0nat }
    }
}

/// How many of the first `n` supplied addresses equal `x`.
spec fn count_prefix(keys: Seq<Seq<u8>>, x: Seq<u8>, n: nat) -> nat
    decreases n,
{
    if n == 0 {
        0
    } else {
        count_prefix(keys, x, (n - 1) as nat) + if keys[n - 1] == x { 1nat } else { 0nat }
    }
}

/// How many of the first `n` supplied addresses equal `x` and are taken.
spec fn taken_prefix(keys: Seq<Seq<u8>>, used: Seq<bool>, x: Seq<u8>, n: nat) -> nat
    decreases n,
{
    if n == 0 {
        0
    } else {
        taken_prefix(keys, used, x, (n - 1) as nat) + if used[n - 1] && keys[n - 1] == x {
            1nat
        } else {
            0nat
        }
    }
}

proof fn lemma_count_prefix_of_drop_last(s: Seq<Seq<u8>>, x: Seq<u8>, n: nat)
    requires
        n < s.len(),
    ensures
        count_prefix(s.drop_last(), x, n) == count_prefix(s, x, n),
    decreases n,
{
    if n > 0 {
        lemma_count_prefix_of_drop_last(s, x, (n - 1) as nat);
    }
}

proof fn lemma_occurrences_count_prefix(s: Seq<Seq<u8>>, x: Seq<u8>)
    ensures
        occurrences(s, x) == count_prefix(s, x, s.len()),
    decreases s.len(),
{
    if s.len() > 0 {
        lemma_occurrences_count_prefix(s.drop_last(), x);
        lemma_count_prefix_of_drop_last(s, x, (s.len() - 1) as nat);
    }
}

proof fn lemma_taken_bounds(keys: Seq<Seq<u8>>, used: Seq<bool>, x: Seq<u8>, n: nat)
    requires
        n <= keys.len(),
        n <= used.len(),
    ensures
        taken_prefix(keys, used, x, n) <= count_prefix(keys, x, n),
        (exists|j: int| 0 <= j < n && !used[j] && keys[j] == x) ==> taken_prefix(keys, used, x, n)
            < count_prefix(keys, x, n),
        (forall|j: int| 0 <= j < n ==> used[j] || keys[j] != x) ==> taken_prefix(keys, used, x, n)
            == count_prefix(keys, x, n),
    decreases n,
{
    if n > 0 {
        lemma_taken_bounds(keys, used, x, (n - 1) as nat);
        if exists|j: int| 0 <= j < n && !used[j] && keys[j] == x {
            let j = choose|j: int| 0 <= j < n && !used[j] && keys[j] == x;
            if j < n - 1 {
                assert(exists|j: int| 0 <= j < n - 1 && !used[j] && keys[j] == x);
            }
        }
    }
}

proof fn lemma_taken_update(keys: Seq<Seq<u8>>, used: Seq<bool>, x: Seq<u8>, n: nat, j: int)
    requires
        n <= keys.len(),
        used.len() == keys.len(),
        0 <= j < keys.len(),
    ensures
        taken_prefix(keys, used.update(j, true), x, n) == taken_prefix(keys, used, x, n) + if j < n
            && !used[j] && keys[j] == x {
            1nat
        } else {
            0nat
        },
    decreases n,
{
    if n > 0 {
        lemma_taken_update(keys, used, x, (n - 1) as nat, j);
    }
}

proof fn lemma_taken_none(keys: Seq<Seq<u8>>, x: Seq<u8>, n: nat)
    requires
        n <= keys.len(),
    ensures
        taken_prefix(keys, Seq::new(keys.len(), |j: int| false), x, n) == 0,
    decreases n,
{
    if n > 0 {
        lemma_taken_none(keys, x, (n - 1) as nat);
    }
}

spec fn min_nat(a: nat, b: nat) -> nat {
    if a <= b { a } else { b }
}

/// Every request is served iff no address is requested more times than it is
/// supplied; and for each address, the supplied copies taken are as many as
/// it is requested, or all of them when it is requested more often.
proof fn lemma_matching_counts(requested: Seq<Seq<u8>>, keys: Seq<Seq<u8>>)
    ensures
        ({
            let (used, picks) = greedy_match(requested, keys);
            &&& forall|x: Seq<u8>| #[trigger] taken_prefix(keys, used, x, keys.len())
                == min_nat(occurrences(requested, x), count_prefix(keys, x, keys.len()))
            &&& (picks.len() == requested.len() <==> forall|x: Seq<u8>| #[trigger] occurrences(requested, x)
                <= count_prefix(keys, x, keys.len()))
        }),
    decreases requested.len(),
{
    let k = keys.len();
    let (used, picks) = greedy_match(requested, keys);
    lemma_matching_well_formed(requested, keys);
    if requested.len() == 0 {
        assert forall|x: Seq<u8>| #[trigger] taken_prefix(keys, used, x, k)
            == min_nat(occurrences(requested, x), count_prefix(keys, x, k)) by {
            lemma_taken_none(keys, x, k);
        }
    } else {
        let req = requested.drop_last();
        let x0 = requested.last();
        let prev = greedy_match(req, keys);
        lemma_matching_counts(req, keys);
        lemma_matching_well_formed(req, keys);
        lemma_first_unused_match(keys, prev.0, x0, 0);
        lemma_taken_bounds(keys, prev.0, x0, k);
        assert(taken_prefix(keys, prev.0, x0, k) == min_nat(occurrences(req, x0), count_prefix(keys, x0, k)));
        match first_unused_match(keys, prev.0, x0, 0) {
            Some(j) => {
                assert(taken_prefix(keys, prev.0, x0, k) < count_prefix(keys, x0, k));
                assert forall|x: Seq<u8>| #[trigger] taken_prefix(keys, used, x, k)
                    == min_nat(occurrences(requested, x), count_prefix(keys, x, k)) by {
                    lemma_taken_update(keys, prev.0, x, k, j);
                    assert(taken_prefix(keys, prev.0, x, k) == min_nat(occurrences(req, x), count_prefix(keys, x, k)));
                    lemma_taken_bounds(keys, prev.0, x, k);
                }
                if picks.len() == requested.len() {
                    assert forall|x: Seq<u8>| #[trigger] occurrences(requested, x) <= count_prefix(keys, x, k) by {
                        assert(occurrences(req, x) <= count_prefix(keys, x, k));
                        assert(taken_prefix(keys, prev.0, x, k) == min_nat(occurrences(req, x), count_prefix(keys, x, k)));
                    }
                }
                if forall|x: Seq<u8>| #[trigger] occurrences(requested, x) <= count_prefix(keys, x, k) {
                    assert forall|x: Seq<u8>| #[trigger] occurrences(req, x) <= count_prefix(keys, x, k) by {
                        assert(occurrences(requested, x) <= count_prefix(keys, x, k));
                    }
                }
            },
            None => {
                assert(taken_prefix(keys, prev.0, x0, k) == count_prefix(keys, x0, k));
                assert forall|x: Seq<u8>| #[trigger] taken_prefix(keys, used, x, k)
                    == min_nat(occurrences(requested, x), count_prefix(keys, x, k)) by {
                    assert(taken_prefix(keys, prev.0, x, k) == min_nat(occurrences(req, x), count_prefix(keys, x, k)));
                }
                assert(occurrences(requested, x0) > count_prefix(keys, x0, k));
            },
        }
    }
}

/// Every request is served exactly when each address is supplied at least as
/// many times as it is requested.
pub proof fn lemma_full_matching_iff_supplied(requested: Seq<Seq<u8>>, keys: Seq<Seq<u8>>)
    ensures
        matched_indices(requested, keys).len() == requested.len() <==> forall|x: Seq<u8>|
            #[trigger] occurrences(requested, x) <= occurrences(keys, x),
{
    lemma_matching_counts(requested, keys);
    assert forall|x: Seq<u8>| #[trigger] occurrences(keys, x) == count_prefix(keys, x, keys.len()) by {
        lemma_occurrences_count_prefix(keys, x);
    }
    if matched_indices(requested, keys).len() == requested.len() {
        assert forall|x: Seq<u8>| #[trigger] occurrences(requested, x) <= occurrences(keys, x) by {
            assert(occurrences(requested, x) <= count_prefix(keys, x, keys.len()));
        }
    }
    if forall|x: Seq<u8>| #[trigger] occurrences(requested, x) <= occurrences(keys, x) {
        assert forall|x: Seq<u8>| #[trigger] occurrences(requested, x) <= count_prefix(keys, x, keys.len()) by {
            assert(occurrences(requested, x) <= occurrences(keys, x));
        }
    }
}

/// The first supplied address equal to `key` that is not yet used.
fn find_unused_match(keys: &[Pubkey], used: &Vec<bool>, key: &Pubkey) -> (r: Option<usize>)
    requires
        used@.len() == keys@.len(),
    ensures
        r matches Some(j) ==> first_unused_match(key_views(keys@), used@, key@, 0) == Some(j as int),
        r is None ==> first_unused_match(key_views(keys@), used@, key@, 0) is None,
        r matches Some(j) ==> j < keys@.len(),
{
    proof {
        lemma_first_unused_match(key_views(keys@), used@, key@, 0);
    }
    let mut j: usize = 0;
    while j < keys.len()
        invariant
            0 <= j <= keys@.len(),
            used@.len() == keys@.len(),
            first_unused_match(key_views(keys@), used@, key@, 0) == first_unused_match(key_views(keys@), used@, key@, j as int),
        decreases keys@.len() - j,
    {
        if !used[j] && keys_equal(&keys[j], key) {
            return Some(j);
        }
        j = j + 1;
    }
    None
}

/// Matches each requested account to a supplied address, each supplied
/// address serving at most one request, and returns the indices taken in
/// request order.
pub fn match_remaining_accounts(requested: &[IAccountMeta], remaining_keys: &[Pubkey]) -> (picks: Vec<usize>)
    ensures
        as_ints(picks@) == matched_indices(requested_keys(requested@), key_views(remaining_keys@)),
{
    let mut used: Vec<bool> = Vec::new();
    let mut k: usize = 0;
    while k < remaining_keys.len()
        invariant
            0 <= k <= remaining_keys@.len(),
            used@.len() == k,
            forall|j: int| 0 <= j < k ==> !used@[j],
        decreases remaining_keys@.len() - k,
    {
        used.push(false);
        k = k + 1;
    }
    let mut picks: Vec<usize> = Vec::new();
    assert(used@ =~= greedy_match(requested_keys(requested@).take(0), key_views(remaining_keys@)).0);
    assert(as_ints(picks@) =~= greedy_match(requested_keys(requested@).take(0), key_views(remaining_keys@)).1);
    let mut i: usize = 0;
    while i < requested.len()
        invariant
            0 <= i <= requested@.len(),
            used@.len() == remaining_keys@.len(),
            used@ == greedy_match(requested_keys(requested@).take(i as int), key_views(remaining_keys@)).0,
            as_ints(picks@) == greedy_match(requested_keys(requested@).take(i as int), key_views(remaining_keys@)).1,
        decreases requested@.len() - i,
    {
        let ghost prefix = requested_keys(requested@).take(i as int + 1);
        assert(prefix.drop_last() =~= requested_keys(requested@).take(i as int));
        assert(prefix.last() == requested@[i as int].pubkey@);
        match find_unused_match(remaining_keys, &used, &requested[i].pubkey) {
            Some(j) => {
                used.set(j, true);
                picks.push(j);
                assert(as_ints(picks@) =~= greedy_match(prefix, key_views(remaining_keys@)).1);
                assert(used@ =~= greedy_match(prefix, key_views(remaining_keys@)).0);
            },
            None => {},
        }
        i = i + 1;
    }
    assert(requested_keys(requested@).take(requested@.len() as int) =~= requested_keys(requested@));
    picks
}

} // verus!
