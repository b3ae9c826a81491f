//! The collision resolver.
//!
//! Destinations inside one sorting batch must be unique.  When a candidate
//! destination is already assigned, the resolver renames it by putting a
//! numeric suffix between the stem and the extension of its file name:
//! `stem_2.ext`, `stem_3.ext`, and so on, taking the first variant that is
//! not assigned yet.

use vstd::prelude::*;
use vstd::string::StrSliceExecFns;
use vstd::string::StringExecFns;

use crate::paths::dec_rep;
use crate::paths::dec_string;
use crate::paths::dir_prefix_of;
use crate::paths::extension_of;
use crate::paths::file_name_of;
use crate::paths::find_last;
use crate::paths::lemma_dec_rep_injective;
use crate::paths::lemma_dec_rep_len;
use crate::paths::lemma_last_index_of;
use crate::paths::lemma_name_split;
use crate::paths::lemma_path_split;
use crate::paths::stem_of;
use crate::structs::File;

verus! {

/// The paths of a sequence of [`File`]s.
pub open spec fn path_views(v: Seq<File>) -> Seq<Seq<char>> {
    v.map_values(|f: File| f@)
}

/// The `num`-suffixed variant of a destination: `_<num>` goes between the
/// stem and the `.` of the destination's file name.
pub open spec fn variant_of(d: Seq<char>, num: nat) -> Seq<char> {
    dir_prefix_of(d) + stem_of(file_name_of(d)) + seq!['_'] + dec_rep(num) + seq!['.']
        + extension_of(file_name_of(d))
}

/// A suffixed variant is strictly longer than the destination it varies.
pub proof fn lemma_variant_longer(d: Seq<char>, num: nat)
    ensures
        variant_of(d, num).len() > d.len(),
{
    lemma_path_split(d);
    let fname = file_name_of(d);
    lemma_last_index_of(fname, '.');
    lemma_name_split(fname);
    lemma_dec_rep_len(num);
    assert(d.len() == dir_prefix_of(d).len() + fname.len());
    if crate::paths::last_index_of(fname, '.') >= 0 {
        assert(fname.len() == stem_of(fname).len() + 1 + extension_of(fname).len());
    }
}

/// Distinct suffix numbers give distinct variants of one destination.
pub proof fn lemma_variant_injective(d: Seq<char>, n1: nat, n2: nat)
    requires
        variant_of(d, n1) == variant_of(d, n2),
    ensures
        n1 == n2,
{
    let p = dir_prefix_of(d) + stem_of(file_name_of(d)) + seq!['_'];
    let s = seq!['.'] + extension_of(file_name_of(d));
    let v1 = variant_of(d, n1);
    let v2 = variant_of(d, n2);
    assert(v1 =~= p + dec_rep(n1) + s);
    assert(v2 =~= p + dec_rep(n2) + s);
    assert(dec_rep(n1).len() == dec_rep(n2).len());
    assert(dec_rep(n1) =~= dec_rep(n2)) by {
        assert forall|i: int| 0 <= i < dec_rep(n1).len() implies dec_rep(n1)[i] == dec_rep(
            n2,
        )[i] by {
            assert((p + dec_rep(n1) + s)[p.len() + i] == dec_rep(n1)[i]);
            assert((p + dec_rep(n2) + s)[p.len() + i] == dec_rep(n2)[i]);
        }
    }
    lemma_dec_rep_injective(n1, n2);
}

/// `num` is the first free suffix for `d` against `assigned`: it is at
/// least 2, its variant is unassigned, and every smaller suffix from 2 up
/// is assigned.
pub open spec fn is_first_free(d: Seq<char>, assigned: Seq<Seq<char>>, num: nat) -> bool {
    &&& num >= 2
    &&& !assigned.contains(variant_of(d, num))
    &&& forall|j: nat| 2 <= j < num ==> assigned.contains(variant_of(d, j))
}

/// At most one suffix is the first free one.
pub proof fn lemma_first_free_unique(d: Seq<char>, assigned: Seq<Seq<char>>, n1: nat, n2: nat)
    requires
        is_first_free(d, assigned, n1),
        is_first_free(d, assigned, n2),
    ensures
        n1 == n2,
{
    if n1 < n2 {
        assert(assigned.contains(variant_of(d, n1)));
    }
    if n2 < n1 {
        assert(assigned.contains(variant_of(d, n2)));
    }
}

/// Among `assigned.len() + 1` successive suffixes starting at `lo`, at
/// least one variant is unassigned: the variants are pairwise distinct and
/// `assigned` is too short to hold them all.
proof fn lemma_some_free(d: Seq<char>, assigned: Seq<Seq<char>>, lo: nat)
    ensures
        exists|k: nat|
            lo <= k < lo + assigned.len() + 1 && !assigned.contains(variant_of(d, k)),
    decreases assigned.len(),
{
    if !assigned.contains(variant_of(d, lo)) {
        assert(lo <= lo < lo + assigned.len() + 1 && !assigned.contains(variant_of(d, lo)));
    } else {
        let i = choose|i: int| 0 <= i < assigned.len() && assigned[i] == variant_of(d, lo);
        let rest = assigned.remove(i);
        lemma_some_free(d, rest, lo + 1);
        let k = choose|k: nat|
            lo + 1 <= k < lo + 1 + rest.len() + 1 && !rest.contains(variant_of(d, k));
        if assigned.contains(variant_of(d, k)) {
            let j = choose|j: int| 0 <= j < assigned.len() && assigned[j] == variant_of(d, k);
            if assigned[j] == assigned[i] {
                lemma_variant_injective(d, k, lo);
                assert(false);
            }
            if j < i {
                assert(rest[j] == assigned[j]);
            } else {
                assert(rest[j - 1] == assigned[j]);
            }
            assert(rest.contains(variant_of(d, k)));
            assert(false);
        }
        assert(lo <= k < lo + assigned.len() + 1 && !assigned.contains(variant_of(d, k)));
    }
}

/// A first free suffix for `d` against `assigned` exists (and is at most
/// `assigned.len() + 2`).
pub proof fn lemma_exists_first_free(d: Seq<char>, assigned: Seq<Seq<char>>)
    ensures
        exists|num: nat| is_first_free(d, assigned, num) && num <= assigned.len() + 2,
{
    lemma_some_free(d, assigned, 2);
    let k = choose|k: nat| 2 <= k < 2 + assigned.len() + 1 && !assigned.contains(variant_of(d, k));
    lemma_least_free_below(d, assigned, k);
}

/// From any free suffix a first free one at or below it follows.
proof fn lemma_least_free_below(d: Seq<char>, assigned: Seq<Seq<char>>, k: nat)
    requires
        k >= 2,
        !assigned.contains(variant_of(d, k)),
    ensures
        exists|num: nat| is_first_free(d, assigned, num) && num <= k,
    decreases k,
{
    if forall|j: nat| 2 <= j < k ==> assigned.contains(variant_of(d, j)) {
        assert(is_first_free(d, assigned, k));
    } else {
        let j = choose|j: nat| 2 <= j < k && !assigned.contains(variant_of(d, j));
        lemma_least_free_below(d, assigned, j);
    }
}

/// The sequentially-suffixed name for `d` against `assigned`: the variant
/// of `d` with the first free suffix.
pub open spec fn sequential_name_of(d: Seq<char>, assigned: Seq<Seq<char>>) -> Seq<char> {
    variant_of(d, choose|num: nat| is_first_free(d, assigned, num))
}

/// The destination assigned to a candidate: the candidate itself when it is
/// not yet assigned, its sequentially-suffixed name otherwise.
pub open spec fn assign_dest(cand: Seq<char>, assigned: Seq<Seq<char>>) -> Seq<char> {
    if assigned.contains(cand) {
        sequential_name_of(cand, assigned)
    } else {
        cand
    }
}

/// What `assign_dest` returns is never already assigned.
pub proof fn lemma_assign_dest_free(cand: Seq<char>, assigned: Seq<Seq<char>>)
    ensures
        !assigned.contains(assign_dest(cand, assigned)),
{
    if assigned.contains(cand) {
        lemma_exists_first_free(cand, assigned);
        let num = choose|num: nat| is_first_free(cand, assigned, num);
        assert(is_first_free(cand, assigned, num));
    }
}

/// The destinations assigned to a sequence of candidates, each resolved in
/// order against the destinations assigned before it.
pub open spec fn assign_all(cands: Seq<Seq<char>>) -> Seq<Seq<char>>
    decreases cands.len(),
{
    if cands.len() == 0 {
        Seq::empty()
    } else {
        let prev = assign_all(cands.drop_last());
        prev.push(assign_dest(cands.last(), prev))
    }
}

/// The destinations assigned to a sequence of candidates, resolved front to
/// back on top of the already-assigned `prev`: the fold the planner runs.
pub open spec fn assign_onto(prev: Seq<Seq<char>>, cands: Seq<Seq<char>>) -> Seq<Seq<char>>
    decreases cands.len(),
{
    if cands.len() == 0 {
        prev
    } else {
        assign_onto(prev.push(assign_dest(cands[0], prev)), cands.drop_first())
    }
}

/// Appending one candidate to the fold resolves it against everything
/// assigned before it.
proof fn lemma_assign_onto_push(prev: Seq<Seq<char>>, cands: Seq<Seq<char>>, c: Seq<char>)
    ensures
        assign_onto(prev, cands.push(c)) == assign_onto(prev, cands).push(
            assign_dest(c, assign_onto(prev, cands)),
        ),
    decreases cands.len(),
{
    if cands.len() == 0 {
        assert(cands.push(c)[0] == c);
        assert(cands.push(c).drop_first() =~= Seq::<Seq<char>>::empty());
        let prev1 = prev.push(assign_dest(c, prev));
        assert(assign_onto(prev, cands.push(c)) == assign_onto(
            prev1,
            Seq::<Seq<char>>::empty(),
        ));
        assert(assign_onto(prev1, Seq::<Seq<char>>::empty()) == prev1);
        assert(assign_onto(prev, cands) == prev);
    } else {
        assert(cands.push(c)[0] == cands[0]);
        assert(cands.push(c).drop_first() =~= cands.drop_first().push(c));
        lemma_assign_onto_push(prev.push(assign_dest(cands[0], prev)), cands.drop_first(), c);
    }
}

/// The two readings of the resolution fold agree: resolving front to back
/// on top of nothing is [`assign_all`].
pub proof fn lemma_assign_all_is_onto(cands: Seq<Seq<char>>)
    ensures
        assign_onto(Seq::empty(), cands) == assign_all(cands),
    decreases cands.len(),
{
    if cands.len() > 0 {
        lemma_assign_all_is_onto(cands.drop_last());
        lemma_assign_onto_push(Seq::empty(), cands.drop_last(), cands.last());
        assert(cands.drop_last().push(cands.last()) =~= cands);
    }
}

/// However the candidates collide, the assigned destinations are as many as
/// the candidates and pairwise distinct: no two files are merged onto one
/// destination.
pub proof fn lemma_assign_all_distinct(cands: Seq<Seq<char>>)
    ensures
        assign_all(cands).len() == cands.len(),
        assign_all(cands).no_duplicates(),
    decreases cands.len(),
{
    if cands.len() > 0 {
        lemma_assign_all_distinct(cands.drop_last());
        let prev = assign_all(cands.drop_last());
        let d = assign_dest(cands.last(), prev);
        lemma_assign_dest_free(cands.last(), prev);
        let all = prev.push(d);
        assert(all.no_duplicates()) by {
            assert forall|i: int, j: int|
                0 <= i < all.len() && 0 <= j < all.len() && i != j implies all[i] != all[j] by {
                if i < prev.len() && j < prev.len() {
                    assert(all[i] == prev[i]);
                    assert(all[j] == prev[j]);
                } else if j == prev.len() {
                    assert(all[i] == prev[i]);
                    assert(all[j] == d);
                    if prev[i] == d {
                        assert(prev.contains(d));
                    }
                } else {
                    assert(all[j] == prev[j]);
                    assert(all[i] == d);
                    if prev[j] == d {
                        assert(prev.contains(d));
                    }
                }
            }
        }
    }
}

/// Files with pairwise distinct candidate destinations all keep their
/// candidates: the resolver renames nothing.
pub proof fn lemma_distinct_candidates_kept(cands: Seq<Seq<char>>)
    requires
        cands.no_duplicates(),
    ensures
        assign_all(cands) == cands,
    decreases cands.len(),
{
    if cands.len() > 0 {
        assert(cands.drop_last().no_duplicates()) by {
            assert forall|i: int, j: int|
                0 <= i < cands.drop_last().len() && 0 <= j < cands.drop_last().len() && i
                    != j implies cands.drop_last()[i] != cands.drop_last()[j] by {
                assert(cands.drop_last()[i] == cands[i]);
                assert(cands.drop_last()[j] == cands[j]);
            }
        }
        lemma_distinct_candidates_kept(cands.drop_last());
        let prev = assign_all(cands.drop_last());
        if prev.contains(cands.last()) {
            let i = choose|i: int| 0 <= i < prev.len() && prev[i] == cands.last();
            assert(cands[i] == cands[cands.len() - 1]);
            assert(false);
        }
        assert(assign_all(cands) =~= cands);
    }
}

/// When several files collide onto one candidate destination, the first in
/// traversal order keeps the unsuffixed name and the file at position `i`
/// gets the suffix `i + 1`: the suffixes run 2, 3, ... in traversal order.
pub proof fn lemma_colliding_candidates_numbered(cands: Seq<Seq<char>>)
    requires
        cands.len() > 0,
        forall|i: int| 0 <= i < cands.len() ==> #[trigger] cands[i] == cands[0],
    ensures
        assign_all(cands).len() == cands.len(),
        assign_all(cands)[0] == cands[0],
        forall|i: int|
            1 <= i < cands.len() ==> assign_all(cands)[i] == variant_of(cands[0], (i + 1) as nat),
    decreases cands.len(),
{
    lemma_assign_all_distinct(cands);
    let c = cands[0];
    let n = cands.len();
    if n == 1 {
        let prev = assign_all(cands.drop_last());
        assert(prev =~= Seq::<Seq<char>>::empty());
        if prev.contains(c) {
            let i = choose|i: int| 0 <= i < prev.len() && prev[i] == c;
            assert(false);
        }
        assert(assign_all(cands)[0] == c);
    } else {
        assert(cands.drop_last().len() > 0);
        assert(cands.drop_last()[0] == cands[0]);
        lemma_colliding_candidates_numbered(cands.drop_last());
        let prev = assign_all(cands.drop_last());
        // `prev` holds the unsuffixed candidate and the variants numbered
        // 2 to n-1, so the first free suffix for the last file is n.
        assert(prev.contains(c)) by {
            assert(prev[0] == c);
        }
        assert(cands.last() == c);
        assert(is_first_free(c, prev, n as nat)) by {
            if prev.contains(variant_of(c, n as nat)) {
                let i = choose|i: int| 0 <= i < prev.len() && prev[i] == variant_of(c, n as nat);
                if i == 0 {
                    lemma_variant_longer(c, n as nat);
                } else {
                    assert(prev[i] == variant_of(c, (i + 1) as nat));
                    lemma_variant_injective(c, n as nat, (i + 1) as nat);
                }
                assert(false);
            }
            assert forall|j: nat| 2 <= j < n as nat implies prev.contains(variant_of(c, j)) by {
                assert(prev[j - 1] == variant_of(c, ((j - 1) + 1) as nat));
                assert(variant_of(c, ((j - 1) + 1) as nat) == variant_of(c, j));
            }
        }
        let ff = choose|num: nat| is_first_free(c, prev, num);
        assert(is_first_free(c, prev, ff));
        lemma_first_free_unique(c, prev, ff, n as nat);
        assert(assign_dest(cands.last(), prev) == variant_of(c, n as nat));
        assert forall|i: int| 1 <= i < n implies assign_all(cands)[i] == variant_of(
            c,
            (i + 1) as nat,
        ) by {
            if i < n - 1 {
                assert(assign_all(cands)[i] == prev[i]);
            }
        }
    }
}

/// A destination assigned to a candidate is the candidate itself or one of
/// its own numeric variants: the resolver never moves a file into another
/// candidate's namespace.
pub proof fn lemma_assign_dest_shape(cand: Seq<char>, assigned: Seq<Seq<char>>)
    ensures
        assign_dest(cand, assigned) == cand || exists|k: nat|
            k >= 2 && assign_dest(cand, assigned) == variant_of(cand, k),
{
    if assigned.contains(cand) {
        lemma_exists_first_free(cand, assigned);
        let w = choose|num: nat| is_first_free(cand, assigned, num) && num <= assigned.len() + 2;
        assert(is_first_free(cand, assigned, w));
        let num = choose|num: nat| is_first_free(cand, assigned, num);
        assert(is_first_free(cand, assigned, num));
        assert(num >= 2 && assign_dest(cand, assigned) == variant_of(cand, num));
    }
}

/// How many of the first `upto` candidates equal `d`.
pub open spec fn hits_before(cands: Seq<Seq<char>>, d: Seq<char>, upto: int) -> nat
    decreases upto,
{
    if upto <= 0 {
        0
    } else {
        hits_before(cands, d, upto - 1) + (if 0 <= upto - 1 < cands.len() && cands[upto - 1]
            == d {
            1nat
        } else {
            0nat
        })
    }
}

/// Counting hits grows with the prefix.
proof fn lemma_hits_monotone(cands: Seq<Seq<char>>, d: Seq<char>, a: int, b: int)
    requires
        a <= b,
    ensures
        hits_before(cands, d, a) <= hits_before(cands, d, b),
    decreases b - a,
{
    if a < b {
        lemma_hits_monotone(cands, d, a, b - 1);
    }
}

/// Hit counts agree on sequences that agree below `upto`.
proof fn lemma_hits_agree(a: Seq<Seq<char>>, b: Seq<Seq<char>>, d: Seq<char>, upto: int)
    requires
        upto <= a.len(),
        upto <= b.len(),
        forall|i: int| 0 <= i < upto ==> a[i] == b[i],
    ensures
        hits_before(a, d, upto) == hits_before(b, d, upto),
    decreases upto,
{
    if upto > 0 {
        lemma_hits_agree(a, b, d, upto - 1);
    }
}

/// For every count below the number of hits in a prefix there is a hit
/// with exactly that many hits before it.
proof fn lemma_hit_with_count(cands: Seq<Seq<char>>, d: Seq<char>, upto: int, c: nat)
    requires
        0 <= upto <= cands.len(),
        c < hits_before(cands, d, upto),
    ensures
        exists|i: int|
            0 <= i < upto && #[trigger] cands[i] == d && hits_before(cands, d, i) == c,
    decreases upto,
{
    if upto > 0 {
        if cands[upto - 1] == d && hits_before(cands, d, upto - 1) == c {
            assert(0 <= upto - 1 < upto && cands[upto - 1] == d && hits_before(cands, d, upto - 1)
                == c);
        } else {
            lemma_hit_with_count(cands, d, upto - 1, c);
            let i = choose|i: int|
                0 <= i < upto - 1 && #[trigger] cands[i] == d && hits_before(cands, d, i) == c;
            assert(0 <= i < upto && cands[i] == d && hits_before(cands, d, i) == c);
        }
    }
}

/// Candidate `c` and all its numeric variants lie outside `d`'s namespace:
/// whatever suffix the resolver hands a file with candidate `c`, its
/// destination is neither `d` nor a numeric variant of `d`.
pub open spec fn separated(c: Seq<char>, d: Seq<char>) -> bool {
    &&& c != d
    &&& forall|k: nat| k >= 2 ==> c != variant_of(d, k)
    &&& forall|j: nat| j >= 2 ==> variant_of(c, j) != d
    &&& forall|j: nat, k: nat| j >= 2 && k >= 2 ==> variant_of(c, j) != variant_of(d, k)
}

/// The general collision law, for a batch that also holds unrelated files:
/// when every candidate other than `d` is [`separated`] from `d`, the files
/// whose candidate is `d` are numbered in traversal order — the first keeps
/// `d` itself, the one with `m` such files before it gets the suffix
/// `m + 1` — and no other file's destination falls into `d`'s namespace.
pub proof fn lemma_colliding_files_numbered(cands: Seq<Seq<char>>, d: Seq<char>)
    requires
        forall|i: int| 0 <= i < cands.len() && #[trigger] cands[i] != d ==> separated(cands[i], d),
    ensures
        assign_all(cands).len() == cands.len(),
        forall|i: int|
            0 <= i < cands.len() && #[trigger] cands[i] == d ==> assign_all(cands)[i] == (
            if hits_before(cands, d, i) == 0 {
                d
            } else {
                variant_of(d, (hits_before(cands, d, i) + 1) as nat)
            }),
        forall|i: int|
            0 <= i < cands.len() && #[trigger] cands[i] != d ==> assign_all(cands)[i] != d && (
            forall|k: nat| k >= 2 ==> assign_all(cands)[i] != variant_of(d, k)),
    decreases cands.len(),
{
    lemma_assign_all_distinct(cands);
    if cands.len() > 0 {
        let n = cands.len() as int;
        let prefix = cands.drop_last();
        assert forall|i: int|
            0 <= i < prefix.len() && #[trigger] prefix[i] != d implies separated(prefix[i], d) by {
            assert(prefix[i] == cands[i]);
        }
        lemma_colliding_files_numbered(prefix, d);
        let prev = assign_all(prefix);
        lemma_assign_all_distinct(prefix);
        assert(forall|i: int| 0 <= i < n - 1 ==> prefix[i] == cands[i]);
        lemma_hits_agree(cands, prefix, d, n - 1);
        let c_last = cands.last();
        let res = assign_dest(c_last, prev);
        assert(assign_all(cands) == prev.push(res));
        if c_last == d {
            let m = hits_before(cands, d, n - 1);
            if m == 0 {
                // no earlier file took `d`, so the candidate itself is free
                if prev.contains(d) {
                    let i = choose|i: int| 0 <= i < prev.len() && prev[i] == d;
                    if prefix[i] == d {
                        assert(hits_before(cands, d, i + 1) == hits_before(cands, d, i) + 1);
                        lemma_hits_monotone(cands, d, i + 1, n - 1);
                        assert(false);
                    } else {
                        assert(prev[i] != d);
                        assert(false);
                    }
                }
                assert(res == d);
            } else {
                // `d` itself is taken by the first hit
                lemma_hit_with_count(cands, d, n - 1, 0);
                let i0 = choose|i: int|
                    0 <= i < n - 1 && #[trigger] cands[i] == d && hits_before(cands, d, i) == 0;
                lemma_hits_agree(cands, prefix, d, i0);
                assert(prev[i0] == d);
                assert(prev.contains(d));
                // every suffix 2..m+1 is taken by the corresponding hit
                assert forall|j: nat| 2 <= j < m + 1 implies prev.contains(variant_of(d, j)) by {
                    lemma_hit_with_count(cands, d, n - 1, (j - 1) as nat);
                    let i = choose|i: int|
                        0 <= i < n - 1 && #[trigger] cands[i] == d && hits_before(cands, d, i) == (
                        j - 1) as nat;
                    lemma_hits_agree(cands, prefix, d, i);
                    assert(prev[i] == variant_of(d, j));
                }
                // the suffix m+1 is free
                if prev.contains(variant_of(d, (m + 1) as nat)) {
                    let i = choose|i: int|
                        0 <= i < prev.len() && prev[i] == variant_of(d, (m + 1) as nat);
                    if prefix[i] == d {
                        lemma_hits_agree(cands, prefix, d, i);
                        let h = hits_before(cands, d, i);
                        assert(hits_before(cands, d, i + 1) == h + 1);
                        lemma_hits_monotone(cands, d, i + 1, n - 1);
                        assert(h < m);
                        if h == 0 {
                            lemma_variant_longer(d, (m + 1) as nat);
                        } else {
                            assert(prev[i] == variant_of(d, (h + 1) as nat));
                            lemma_variant_injective(d, (h + 1) as nat, (m + 1) as nat);
                        }
                        assert(false);
                    } else {
                        assert(prev[i] != variant_of(d, (m + 1) as nat));
                        assert(false);
                    }
                }
                assert(is_first_free(d, prev, (m + 1) as nat));
                assert(exists|num: nat| is_first_free(d, prev, num));
                let c0 = choose|num: nat| is_first_free(d, prev, num);
                assert(is_first_free(d, prev, c0));
                lemma_first_free_unique(d, prev, c0, (m + 1) as nat);
                assert(res == variant_of(d, (m + 1) as nat));
            }
            assert(hits_before(cands, d, n - 1) == m);
        } else {
            // the last file stays out of `d`'s namespace
            lemma_assign_dest_shape(c_last, prev);
            assert(separated(c_last, d));
            assert(res != d && (forall|k: nat| k >= 2 ==> res != variant_of(d, k))) by {
                if res != c_last {
                    let j = choose|j: nat| j >= 2 && res == variant_of(c_last, j);
                    assert(variant_of(c_last, j) != d);
                    assert(forall|k: nat| k >= 2 ==> variant_of(c_last, j) != variant_of(d, k));
                }
            }
        }
        // carry the prefix facts over the push
        assert forall|i: int|
            0 <= i < cands.len() && #[trigger] cands[i] == d implies assign_all(cands)[i] == (
        if hits_before(cands, d, i) == 0 {
            d
        } else {
            variant_of(d, (hits_before(cands, d, i) + 1) as nat)
        }) by {
            if i < n - 1 {
                assert(assign_all(cands)[i] == prev[i]);
                assert(prefix[i] == cands[i]);
                lemma_hits_agree(cands, prefix, d, i);
            }
        }
        assert forall|i: int|
            0 <= i < cands.len() && #[trigger] cands[i] != d implies assign_all(cands)[i] != d && (
        forall|k: nat| k >= 2 ==> assign_all(cands)[i] != variant_of(d, k)) by {
            if i < n - 1 {
                assert(assign_all(cands)[i] == prev[i]);
                assert(prefix[i] == cands[i]);
            }
        }
    }
}

/// Whether some [`File`] in `vec` has the same path as `f`.
pub fn contains_path(vec: &Vec<File>, f: &File) -> (r: bool)
    ensures
        r == path_views(vec@).contains(f@),
{
    let n = vec.len();
    let mut i: usize = 0;
    while i < n
        invariant
            i <= n,
            n == vec@.len(),
            forall|j: int| 0 <= j < i ==> vec@[j]@ != f@,
        decreases n - i,
    {
        if &vec[i] == f {
            proof {
                assert(path_views(vec@)[i as int] == f@);
            }
            return true;
        }
        i = i + 1;
    }
    proof {
        assert forall|j: int| 0 <= j < path_views(vec@).len() implies path_views(vec@)[j]
            != f@ by {
            assert(vec@[j]@ != f@);
        }
    }
    false
}

/// The `num`-suffixed variant of `path`.
fn make_variant(path: &File, num: u128) -> (r: File)
    ensures
        r@ == variant_of(path@, num as nat),
{
    let s = path.path.as_str();
    let n = s.unicode_len();
    proof {
        lemma_last_index_of(path.path@, '/');
    }
    let mut out: String = match find_last(s, '/') {
        Some(i) => String::from_str(s.substring_char(0, i + 1)),
        None => {
            proof {
                assert(dir_prefix_of(path@) =~= Seq::<char>::empty());
            }
            String::new()
        },
    };
    let stem = path.file_stem();
    out.append(stem.as_str());
    out.append("_");
    let digits = dec_string(num);
    out.append(digits.as_str());
    out.append(".");
    let ext = path.extension();
    out.append(ext.as_str());
    proof {
        reveal_strlit("_");
        reveal_strlit(".");
        assert(out@ =~= variant_of(path@, num as nat));
    }
    File { path: out }
}

/// The suffixed rename of `path` against the already-assigned destinations
/// in `vec`: the variant of `path` with the first numeric suffix (starting
/// at 2) whose variant is not in `vec`.
pub fn get_sequential_name(path: &File, vec: &Vec<File>) -> (r: File)
    ensures
        r@ == sequential_name_of(path@, path_views(vec@)),
        !path_views(vec@).contains(r@),
{
    proof {
        lemma_exists_first_free(path@, path_views(vec@));
    }
    let ghost ff = choose|num: nat|
        is_first_free(path@, path_views(vec@), num) && num <= path_views(vec@).len() + 2;
    let mut num: u128 = 2;
    proof {
        assert(vec@.len() == vec.len());
    }
    loop
        invariant
            2 <= num <= ff,
            ff <= path_views(vec@).len() + 2,
            vec@.len() <= usize::MAX,
            is_first_free(path@, path_views(vec@), ff),
            forall|j: nat| 2 <= j < num ==> path_views(vec@).contains(variant_of(path@, j)),
        decreases ff - num,
    {
        let cand = make_variant(path, num);
        if !contains_path(vec, &cand) {
            proof {
                assert(is_first_free(path@, path_views(vec@), num as nat));
                lemma_first_free_unique(path@, path_views(vec@), num as nat, ff);
                let c = choose|k: nat| is_first_free(path@, path_views(vec@), k);
                lemma_first_free_unique(path@, path_views(vec@), c, ff);
            }
            return cand;
        }
        proof {
            assert(num < ff) by {
                if num == ff {
                    assert(!path_views(vec@).contains(variant_of(path@, num as nat)));
                }
            }
        }
        num = num + 1;
    }
}

/// The destination finally assigned to `cand` against the already-assigned
/// destinations in `vec`: `cand` itself when free, its sequentially-suffixed
/// name otherwise.
pub fn resolve_destination(cand: File, vec: &Vec<File>) -> (r: File)
    ensures
        r@ == assign_dest(cand@, path_views(vec@)),
        !path_views(vec@).contains(r@),
{
    if contains_path(vec, &cand) {
        proof {
            lemma_assign_dest_free(cand@, path_views(vec@));
        }
        get_sequential_name(&cand, vec)
    } else {
        cand
    }
}

} // verus!
