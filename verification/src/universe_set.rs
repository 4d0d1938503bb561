//! Sets of universes kept as vectors in strictly ascending order, as the
//! receiver keeps the universes it listens to and the source the universes it
//! sends on.
use vstd::prelude::*;

use crate::packet::strictly_ascending;

verus! {

/// The number of universes of `s` lower than `u`.
pub open spec fn lower_bound(s: Seq<u16>, u: u16) -> nat
    decreases s.len(),
{
    if s.len() == 0 {
        0
    } else if s[0] >= u {
        0
    } else {
        1 + lower_bound(s.drop_first(), u)
    }
}

/// `lower_bound` is the first position holding `u` or a higher universe.
proof fn lemma_lower_bound(s: Seq<u16>, u: u16, n: int)
    requires
        0 <= n <= s.len(),
        forall|j: int| 0 <= j < n ==> s[j] < u,
        n < s.len() ==> s[n] >= u,
    ensures
        lower_bound(s, u) == n,
    decreases s.len(),
{
    if n > 0 {
        lemma_lower_bound(s.drop_first(), u, n - 1);
    }
}

/// Finds where `u` is or belongs in the strictly ascending `v`: `Ok` with its
/// position where `v` holds it, else `Err` with the position that keeps `v`
/// ascending once it is inserted there.
pub fn search_universe(v: &Vec<u16>, u: u16) -> (r: Result<usize, usize>)
    requires
        strictly_ascending(v@),
    ensures
        match r {
            Ok(i) => i < v@.len() && v@[i as int] == u,
            Err(i) => i == lower_bound(v@, u) && !v@.contains(u),
        },
        r is Ok <==> v@.contains(u),
        i_of(r) == lower_bound(v@, u),
        0 <= i_of(r) <= v@.len(),
        forall|j: int| 0 <= j < i_of(r) ==> v@[j] < u,
        forall|j: int| i_of(r) <= j < v@.len() ==> v@[j] >= u,
{
    let mut j: usize = 0;
    while j < v.len() && v[j] < u
        invariant
            0 <= j <= v@.len(),
            forall|k: int| 0 <= k < j ==> v@[k] < u,
        decreases v@.len() - j,
    {
        j = j + 1;
    }
    proof {
        lemma_lower_bound(v@, u, j as int);
    }
    if j < v.len() && v[j] == u {
        Ok(j)
    } else {
        proof {
            assert forall|k: int| 0 <= k < v@.len() implies v@[k] != u by {
                if k >= j {
                    assert(v@[j as int] > u);
                    assert(v@[j as int] <= v@[k]);
                }
            }
        }
        Err(j)
    }
}

/// The position carried by either outcome of a search.
pub open spec fn i_of(r: Result<usize, usize>) -> int {
    match r {
        Ok(i) => i as int,
        Err(i) => i as int,
    }
}

/// Adds `u` to the strictly ascending `v` unless it is there already; tells
/// whether it was added.
pub fn insert_universe(v: &mut Vec<u16>, u: u16) -> (added: bool)
    requires
        strictly_ascending(old(v)@),
    ensures
        strictly_ascending(final(v)@),
        added == !old(v)@.contains(u),
        final(v)@.to_set() == old(v)@.to_set().insert(u),
        added ==> final(v)@ == old(v)@.insert(lower_bound(old(v)@, u) as int, u),
        !added ==> final(v)@ == old(v)@,
{
    match search_universe(v, u) {
        Ok(_) => {
            proof {
                assert(v@.to_set() =~= v@.to_set().insert(u));
            }
            false
        },
        Err(i) => {
            let ghost before = v@;
            v.insert(i, u);
            proof {
                let after = v@;
                assert forall|a: int, b: int| 0 <= a < b < after.len() implies after[a] < after[b] by {
                    if b < i {
                    } else if b == i {
                        assert(after[a] == before[a]);
                    } else if a < i {
                        assert(after[b] == before[b - 1]);
                        assert(before[a] < u);
                        assert(u <= before[b - 1]);
                    } else if a == i {
                        assert(after[b] == before[b - 1]);
                        assert(u <= before[b - 1]);
                        assert(u != before[b - 1]);
                    } else {
                        assert(after[a] == before[a - 1]);
                        assert(after[b] == before[b - 1]);
                    }
                }
                assert(after[i as int] == u);
                assert forall|x: u16| after.to_set().contains(x) <==> before.to_set().insert(u).contains(x) by {
                    broadcast use vstd::seq_lib::group_seq_properties;

                    if before.contains(x) {
                        let k = before.index_of(x);
                        if k < i {
                            assert(after[k] == x);
                        } else {
                            assert(after[k + 1] == x);
                        }
                    }
                    if after.contains(x) {
                        let k = after.index_of(x);
                        if k < i {
                            assert(before[k] == x);
                        } else if k > i {
                            assert(before[k - 1] == x);
                        }
                    }
                }
                assert(after.to_set() =~= before.to_set().insert(u));
            }
            true
        },
    }
}

/// Removes `u` from the strictly ascending `v` where it is there; tells
/// whether it was.
pub fn remove_universe(v: &mut Vec<u16>, u: u16) -> (removed: bool)
    requires
        strictly_ascending(old(v)@),
    ensures
        strictly_ascending(final(v)@),
        removed == old(v)@.contains(u),
        final(v)@.to_set() == old(v)@.to_set().remove(u),
        final(v)@ == old(v)@.filter(|x: u16| x != u),
        !removed ==> final(v)@ == old(v)@,
{
    let ghost before = v@;
    match search_universe(v, u) {
        Ok(i) => {
            v.remove(i);
            proof {
                let after = v@;
                assert(after =~= before.remove(i as int));
                assert forall|k: int| 0 <= k < before.len() && k != i implies before[k] != u by {
                    if k < i {
                        assert(before[k] < before[i as int]);
                    } else {
                        assert(before[i as int] < before[k]);
                    }
                }
                lemma_filter_remove(before, u, i as int);
                assert(after.to_set() =~= before.to_set().remove(u)) by {
                    assert forall|x: u16| after.to_set().contains(x) <==> before.to_set().remove(u).contains(x) by {
                        broadcast use vstd::seq_lib::group_seq_properties;

                        if after.contains(x) {
                            let k = after.index_of(x);
                            if k < i {
                                assert(before[k] == x);
                            } else {
                                assert(before[k + 1] == x);
                            }
                        }
                        if before.contains(x) && x != u {
                            let k = before.index_of(x);
                            if k < i {
                                assert(after[k] == x);
                            } else {
                                assert(k != i);
                                assert(after[k - 1] == x);
                            }
                        }
                    }
                }
            }
            true
        },
        Err(_) => {
            proof {
                lemma_filter_none(before, u);
                assert(before.to_set() =~= before.to_set().remove(u));
            }
            false
        },
    }
}

/// Filtering out a value that occurs once, at `i`, removes position `i`.
proof fn lemma_filter_remove(s: Seq<u16>, u: u16, i: int)
    requires
        0 <= i < s.len(),
        s[i] == u,
        forall|k: int| 0 <= k < s.len() && k != i ==> s[k] != u,
    ensures
        s.filter(|x: u16| x != u) == s.remove(i),
    decreases s.len(),
{
    reveal(Seq::filter);
    if i == s.len() - 1 {
        lemma_filter_none(s.drop_last(), u);
        assert(s.drop_last() =~= s.remove(i));
    } else {
        lemma_filter_remove(s.drop_last(), u, i);
        assert(s.remove(i) =~= s.drop_last().remove(i).push(s.last()));
    }
}

/// Filtering out a value that does not occur changes nothing.
proof fn lemma_filter_none(s: Seq<u16>, u: u16)
    requires
        forall|k: int| 0 <= k < s.len() ==> s[k] != u,
    ensures
        s.filter(|x: u16| x != u) == s,
    decreases s.len(),
{
    reveal(Seq::filter);
    if s.len() > 0 {
        lemma_filter_none(s.drop_last(), u);
        assert(s =~= s.drop_last().push(s.last()));
    }
}

} // verus!
