//! The display order of slices.
//!
//! Slices are put in descending order of location. A slice without a
//! location is neither before nor after any other: it keeps its place, and
//! no slice is moved past it. So the slices between two such slices form a
//! run that is ordered by itself, and slices of equal location keep the
//! order they came in.

use vstd::prelude::*;
use vstd::set_lib::{lemma_int_range, lemma_len_subset, lemma_subset_equality, set_int_range};
use crate::location::{lemma_order_key_injective, location_key, order_key};
use crate::slice::ImageSlice;

verus! {

/// The locations of a sequence of slices.
pub open spec fn locations(slices: Seq<ImageSlice>) -> Seq<Option<u32>> {
    Seq::new(slices.len(), |j: int| slices[j]@.location)
}

/// The place of a location in the total order; 0 where there is none.
pub open spec fn key_of(location: Option<u32>) -> int {
    match location {
        Some(bits) => order_key(bits),
        None => 0,
    }
}

/// Whether a slice located at `a` has to stand before one located at `b`:
/// both have a location, and that of `a` is the greater.
pub open spec fn goes_before(a: Option<u32>, b: Option<u32>) -> bool {
    a is Some && b is Some && key_of(a) > key_of(b)
}

/// Every slice from place `a` to place `b` has a location.
pub open spec fn same_run(locs: Seq<Option<u32>>, a: int, b: int) -> bool {
    forall|k: int| a <= k <= b ==> (#[trigger] locs[k]) is Some
}

/// `from` names each place of a sequence of length `n` once.
pub open spec fn is_rearrangement(from: Seq<int>, n: int) -> bool {
    &&& from.len() == n
    &&& forall|j: int| 0 <= j < n ==> 0 <= #[trigger] from[j] < n
    &&& forall|a: int, b: int| 0 <= a < b < n ==> #[trigger] from[a] != #[trigger] from[b]
}

/// The slice at place `j` of `out` is the one that stood at `from[j]` in
/// `inp`.
pub open spec fn follows(out: Seq<ImageSlice>, inp: Seq<ImageSlice>, from: Seq<int>) -> bool {
    &&& out.len() == inp.len()
    &&& from.len() == inp.len()
    &&& forall|j: int| 0 <= j < out.len() ==> #[trigger] out[j] == inp[from[j]]
}

/// A slice without a location keeps its place, and every other slice
/// stays on the side of it on which it stood.
pub open spec fn unlocated_fixed(locs_in: Seq<Option<u32>>, from: Seq<int>) -> bool {
    forall|j: int, k: int|
        #![trigger from[j], locs_in[k]]
        0 <= j < from.len() && 0 <= k < locs_in.len() && locs_in[k] is None ==> (from[j] < k
            <==> j < k) && (from[j] > k <==> j > k)
}

/// Below place `upto`, locations never rise within a run.
pub open spec fn descending_runs(locs: Seq<Option<u32>>, upto: int) -> bool {
    forall|a: int, b: int|
        0 <= a < b < upto && #[trigger] same_run(locs, a, b) ==> key_of(locs[a]) >= key_of(locs[b])
}

/// Below place `upto`, slices of one run with the same location stand in
/// the order in which they came.
pub open spec fn stable_runs(locs: Seq<Option<u32>>, from: Seq<int>, upto: int) -> bool {
    forall|a: int, b: int|
        0 <= a < b < upto && #[trigger] same_run(locs, a, b) && locs[a] == locs[b] ==> from[a]
            < from[b]
}

/// `out` is the display order of `inp`, and `from` tells where each of
/// its slices came from.
pub open spec fn ordered_by(out: Seq<ImageSlice>, inp: Seq<ImageSlice>, from: Seq<int>) -> bool {
    &&& follows(out, inp, from)
    &&& is_rearrangement(from, inp.len() as int)
    &&& unlocated_fixed(locations(inp), from)
    &&& descending_runs(locations(out), out.len() as int)
    &&& stable_runs(locations(out), from, out.len() as int)
}

/// `out` is the display order of `inp`.
pub open spec fn is_ordering_of(out: Seq<ImageSlice>, inp: Seq<ImageSlice>) -> bool {
    exists|from: Seq<int>| ordered_by(out, inp, from)
}

/// The state of the ordering when the first `upto` places are in order
/// and the others are untouched.
spec fn in_progress(
    out: Seq<ImageSlice>,
    inp: Seq<ImageSlice>,
    from: Seq<int>,
    upto: int,
) -> bool {
    &&& follows(out, inp, from)
    &&& is_rearrangement(from, inp.len() as int)
    &&& unlocated_fixed(locations(inp), from)
    &&& descending_runs(locations(out), upto)
    &&& stable_runs(locations(out), from, upto)
    &&& forall|j: int| upto <= j < from.len() ==> #[trigger] from[j] == j
}

/// The place in the old arrangement of what stands at place `j` after the
/// slice at place `i` has moved down to place `k`.
spec fn moved(j: int, k: int, i: int) -> int {
    if j < k || j > i {
        j
    } else if j == k {
        i
    } else {
        j - 1
    }
}

/// Moving the slice at place `i` down to place `k`.
spec fn shift<A>(s: Seq<A>, k: int, i: int) -> Seq<A> {
    s.remove(i).insert(k, s[i])
}

proof fn lemma_shift<A>(s: Seq<A>, k: int, i: int)
    requires
        0 <= k <= i < s.len(),
    ensures
        shift(s, k, i).len() == s.len(),
        forall|j: int| 0 <= j < s.len() ==> #[trigger] shift(s, k, i)[j] == s[moved(j, k, i)],
{
}

/// Whether the slice at place `a` has to stand before the one at `b`.
fn must_precede(slices: &Vec<ImageSlice>, a: usize, b: usize) -> (yes: bool)
    requires
        a < slices@.len(),
        b < slices@.len(),
    ensures
        yes == goes_before(locations(slices@)[a as int], locations(slices@)[b as int]),
{
    match (slices[a].location(), slices[b].location()) {
        (Some(x), Some(y)) => location_key(x) > location_key(y),
        _ => false,
    }
}

/// One step of the ordering keeps what has been reached: when the slice
/// at place `i` moves down past the slices that it has to stand before,
/// the first `i + 1` places are in order.
proof fn lemma_step(
    out: Seq<ImageSlice>,
    inp: Seq<ImageSlice>,
    from: Seq<int>,
    k: int,
    i: int,
)
    requires
        0 <= k <= i < out.len(),
        in_progress(out, inp, from, i),
        forall|m: int|
            k <= m < i ==> goes_before(locations(out)[i], #[trigger] locations(out)[m]),
        k == 0 || !goes_before(locations(out)[i], locations(out)[k - 1]),
    ensures
        in_progress(shift(out, k, i), inp, shift(from, k, i), i + 1),
{
    let n = out.len() as int;
    let out1 = shift(out, k, i);
    let from1 = shift(from, k, i);
    let locs = locations(out);
    let locs1 = locations(out1);
    let locs_in = locations(inp);
    lemma_shift(out, k, i);
    lemma_shift(from, k, i);
    assert forall|j: int| 0 <= j < n implies locs1[j] == #[trigger] locs[moved(j, k, i)] by {
        assert(out1[j] == out[moved(j, k, i)]);
    }
    assert forall|j: int| 0 <= j < n implies #[trigger] locs[j] == locs_in[from[j]] by {
        assert(out[j] == inp[from[j]]);
    }
    // the places below `i` hold what stood below `i`
    assert forall|j: int| 0 <= j < i implies #[trigger] from[j] < i by {
        if from[j] >= i {
            assert(from[from[j]] == from[j]);
        }
    }
    // follows
    assert forall|j: int| 0 <= j < n implies #[trigger] out1[j] == inp[from1[j]] by {
        assert(out[moved(j, k, i)] == inp[from[moved(j, k, i)]]);
    }
    // rearrangement
    assert forall|j: int| 0 <= j < n implies 0 <= #[trigger] from1[j] < n by {
        assert(0 <= from[moved(j, k, i)] < n);
    }
    assert forall|a: int, b: int| 0 <= a < b < n implies #[trigger] from1[a]
        != #[trigger] from1[b] by {
        let ma = moved(a, k, i);
        let mb = moved(b, k, i);
        assert(ma != mb);
        if ma < mb {
            assert(from[ma] != from[mb]);
        } else {
            assert(from[mb] != from[ma]);
        }
    }
    // what moves has a location, so no unlocated slice is passed
    assert forall|j: int, u: int|
        #![trigger from1[j], locs_in[u]]
        0 <= j < n && 0 <= u < n && locs_in[u] is None implies (from1[j] < u <==> j < u)
            && (from1[j] > u <==> j > u) by {
        let mj = moved(j, k, i);
        assert((from[mj] < u <==> mj < u) && (from[mj] > u <==> mj > u));
        assert((from[u] < u <==> u < u) && (from[u] > u <==> u > u));
        assert(locs[u] == locs_in[from[u]]);
        if k < i && k <= u <= i {
            if u < i {
                assert(goes_before(locs[i], locs[u]));
            } else {
                assert(goes_before(locs[i], locs[k]));
            }
        }
    }
    // descending
    assert forall|a: int, b: int|
        0 <= a < b < i + 1 && #[trigger] same_run(locs1, a, b) implies key_of(locs1[a])
            >= key_of(locs1[b]) by {
        lemma_pair(locs, locs1, from, k, i, a, b);
    }
    // stable
    assert forall|a: int, b: int|
        0 <= a < b < i + 1 && #[trigger] same_run(locs1, a, b) && locs1[a]
            == locs1[b] implies from1[a] < from1[b] by {
        lemma_pair(locs, locs1, from, k, i, a, b);
    }
    assert forall|j: int| i + 1 <= j < from1.len() implies #[trigger] from1[j] == j by {
        assert(from[j] == j);
    }
}

/// The two places `a < b` of one run after a move, seen before the move.
proof fn lemma_pair(
    locs: Seq<Option<u32>>,
    locs1: Seq<Option<u32>>,
    from: Seq<int>,
    k: int,
    i: int,
    a: int,
    b: int,
)
    requires
        0 <= k <= i < locs.len(),
        locs1.len() == locs.len(),
        from.len() == locs.len(),
        forall|j: int| 0 <= j < locs.len() ==> locs1[j] == #[trigger] locs[moved(j, k, i)],
        forall|j: int| 0 <= j < i ==> #[trigger] from[j] < i,
        from[i] == i,
        descending_runs(locs, i),
        stable_runs(locs, from, i),
        forall|m: int| k <= m < i ==> goes_before(locs[i], #[trigger] locs[m]),
        k == 0 || !goes_before(locs[i], locs[k - 1]),
        0 <= a < b < i + 1,
        same_run(locs1, a, b),
    ensures
        key_of(locs1[a]) >= key_of(locs1[b]),
        locs1[a] == locs1[b] ==> shift(from, k, i)[a] < shift(from, k, i)[b],
{
    lemma_shift(from, k, i);
    let ma = moved(a, k, i);
    let mb = moved(b, k, i);
    assert(locs1[a] == locs[ma]);
    assert(locs1[b] == locs[mb]);
    assert(locs1[a] is Some && locs1[b] is Some);
    if b < k || a > k {
        // neither is the slice that moved
        assert(same_run(locs, ma, mb)) by {
            assert forall|u: int| ma <= u <= mb implies (#[trigger] locs[u]) is Some by {
                let v = if b < k { u } else { u + 1 };
                assert(moved(v, k, i) == u);
                assert(locs1[v] is Some);
            }
        }
    } else if a == k {
        // the slice that moved stands first: it passed the other
        assert(goes_before(locs[i], locs[mb]));
    } else {
        // the slice that moved, or one that it passed, stands second
        assert(a < k);
        assert(locs1[k - 1] is Some);
        assert(locs1[k] is Some);
        assert(moved(k - 1, k, i) == k - 1);
        assert(locs[k - 1] is Some);
        assert(locs[i] is Some);
        assert(key_of(locs[i]) <= key_of(locs[k - 1]));
        if a < k - 1 {
            assert(same_run(locs, a, k - 1)) by {
                assert forall|u: int| a <= u <= k - 1 implies (#[trigger] locs[u]) is Some by {
                    assert(moved(u, k, i) == u);
                    assert(locs1[u] is Some);
                }
            }
        }
        assert(key_of(locs[a]) >= key_of(locs[k - 1]));
        if b > k {
            assert(goes_before(locs[i], locs[mb]));
        }
    }
}

/// Puts slices in display order: descending by location within each run
/// of located slices, slices of equal location in the order they came
/// in, and every slice without a location where it was.
pub fn order_slices(slices: &mut Vec<ImageSlice>)
    ensures
        is_ordering_of(final(slices)@, old(slices)@),
{
    let n: usize = slices.len();
    let ghost inp = slices@;
    let ghost mut from: Seq<int> = Seq::new(n as nat, |j: int| j);
    let mut i: usize = 0;
    while i < n
        invariant
            i <= n,
            n == inp.len(),
            slices@.len() == n,
            in_progress(slices@, inp, from, i as int),
        decreases n - i,
    {
        let mut k: usize = i;
        while k > 0 && must_precede(slices, i, k - 1)
            invariant
                k <= i < n,
                slices@.len() == n,
                forall|m: int|
                    k <= m < i ==> goes_before(
                        locations(slices@)[i as int],
                        #[trigger] locations(slices@)[m],
                    ),
            decreases k,
        {
            k = k - 1;
        }
        proof {
            lemma_step(slices@, inp, from, k as int, i as int);
            from = shift(from, k as int, i as int);
        }
        let ghost before = slices@;
        let slice = slices.remove(i);
        slices.insert(k, slice);
        assert(slices@ == shift(before, k as int, i as int));
        i = i + 1;
    }
    assert(ordered_by(slices@, inp, from));
}

/// A slice without a location stands in the display order where it stood
/// before.
pub proof fn lemma_unlocated_stay(out: Seq<ImageSlice>, inp: Seq<ImageSlice>, j: int)
    requires
        is_ordering_of(out, inp),
        0 <= j < inp.len(),
        inp[j]@.location is None,
    ensures
        out[j] == inp[j],
{
    let from = choose|from: Seq<int>| ordered_by(out, inp, from);
    assert(locations(inp)[j] is None);
    assert((from[j] < j <==> j < j) && (from[j] > j <==> j > j));
    assert(out[j] == inp[from[j]]);
}

/// Slices that all have a location stand in descending order of location
/// throughout.
pub proof fn lemma_located_descend(out: Seq<ImageSlice>, inp: Seq<ImageSlice>)
    requires
        is_ordering_of(out, inp),
        forall|j: int| 0 <= j < inp.len() ==> (#[trigger] inp[j])@.location is Some,
    ensures
        forall|a: int, b: int|
            0 <= a < b < out.len() ==> key_of(#[trigger] locations(out)[a]) >= key_of(
                #[trigger] locations(out)[b],
            ),
{
    let from = choose|from: Seq<int>| ordered_by(out, inp, from);
    let locs = locations(out);
    assert forall|k: int| 0 <= k < out.len() implies (#[trigger] locs[k]) is Some by {
        assert(out[k] == inp[from[k]]);
        assert(inp[from[k]]@.location is Some);
    }
    assert forall|a: int, b: int| 0 <= a < b < out.len() implies key_of(#[trigger] locs[a])
        >= key_of(#[trigger] locs[b]) by {
        assert(same_run(locs, a, b));
    }
}

/// A rearrangement names every place.
proof fn lemma_rearrangement_onto(from: Seq<int>, n: int, i: int)
    requires
        is_rearrangement(from, n),
        0 <= i < n,
    ensures
        exists|j: int| 0 <= j < n && from[j] == i,
{
    assert(from.no_duplicates()) by {
        assert forall|a: int, b: int|
            0 <= a < from.len() && 0 <= b < from.len() && a != b implies from[a] != from[b] by {
            if a < b {
                assert(from[a] != from[b]);
            } else {
                assert(from[b] != from[a]);
            }
        }
    }
    from.unique_seq_to_set();
    lemma_int_range(0, n);
    let range = set_int_range(0, n);
    assert(from.to_set().subset_of(range)) by {
        assert forall|x: int| from.to_set().contains(x) implies range.contains(x) by {
            let j = choose|j: int| 0 <= j < from.len() && from[j] == x;
            assert(0 <= from[j] < n);
        }
    }
    lemma_len_subset(from.to_set(), range);
    lemma_subset_equality(from.to_set(), range);
    assert(range.contains(i));
    assert(from.to_set().contains(i));
    assert(from.contains(i));
}

/// In a display order, a place holds a slice without a location exactly
/// if it did before, and that slice came from the same place.
proof fn lemma_unlocated_places(out: Seq<ImageSlice>, inp: Seq<ImageSlice>, from: Seq<int>, k: int)
    requires
        ordered_by(out, inp, from),
        0 <= k < inp.len(),
    ensures
        locations(out)[k] is None <==> locations(inp)[k] is None,
        locations(out)[k] is None ==> from[k] == k,
{
    let locs_in = locations(inp);
    assert(out[k] == inp[from[k]]);
    assert(0 <= from[k] < inp.len());
    if locs_in[k] is None {
        assert((from[k] < k <==> k < k) && (from[k] > k <==> k > k));
    }
    if locations(out)[k] is None {
        let u = from[k];
        assert(locs_in[u] is None);
        assert((from[k] < u <==> k < u) && (from[k] > u <==> k > u));
    }
}

/// Where two display orders of the same slices take the slice of a place
/// from different places, both slices stand in one run, in each of the
/// two orders.
proof fn lemma_run_between(
    a: Seq<ImageSlice>,
    b: Seq<ImageSlice>,
    inp: Seq<ImageSlice>,
    fa: Seq<int>,
    fb: Seq<int>,
    j: int,
    later: int,
)
    requires
        ordered_by(a, inp, fa),
        ordered_by(b, inp, fb),
        0 <= j < later < inp.len(),
        fa[later] == fb[j],
        fa[j] != fb[j],
    ensures
        same_run(locations(a), j, later),
{
    let locs_in = locations(inp);
    assert forall|k: int| j <= k <= later implies (#[trigger] locations(a)[k]) is Some by {
        lemma_unlocated_places(a, inp, fa, k);
        lemma_unlocated_places(b, inp, fb, k);
        if locs_in[k] is None {
            assert((fa[j] < k <==> j < k) && (fa[j] > k <==> j > k));
            assert((fa[later] < k <==> later < k) && (fa[later] > k <==> later > k));
            assert((fb[j] < k <==> j < k) && (fb[j] > k <==> j > k));
            if k == later {
                assert(fb[k] == k);
                assert(fb[j] != fb[k]);
            }
        }
    }
}

/// Two display orders of the same slices that agree below a place agree
/// at that place.
proof fn lemma_next_source(
    a: Seq<ImageSlice>,
    b: Seq<ImageSlice>,
    inp: Seq<ImageSlice>,
    fa: Seq<int>,
    fb: Seq<int>,
    j: int,
)
    requires
        ordered_by(a, inp, fa),
        ordered_by(b, inp, fb),
        0 <= j < inp.len(),
        forall|m: int| 0 <= m < j ==> fa[m] == fb[m],
    ensures
        fa[j] == fb[j],
{
    let n = inp.len() as int;
    let x = fa[j];
    let y = fb[j];
    if x != y {
        assert(0 <= x < n && 0 <= y < n);
        lemma_rearrangement_onto(fb, n, x);
        lemma_rearrangement_onto(fa, n, y);
        let in_b = choose|m: int| 0 <= m < n && fb[m] == x;
        let in_a = choose|m: int| 0 <= m < n && fa[m] == y;
        // both lie above `j`: below it the two orders agree
        if in_b < j {
            assert(fa[in_b] == fb[in_b]);
            assert(fa[in_b] != fa[j]);
        }
        if in_a < j {
            assert(fa[in_a] == fb[in_a]);
            assert(fb[in_a] != fb[j]);
        }
        assert(j < in_b && j < in_a);
        lemma_run_between(a, b, inp, fa, fb, j, in_a);
        lemma_run_between(b, a, inp, fb, fa, j, in_b);
        let la = locations(a);
        let lb = locations(b);
        assert(a[j] == inp[x] && a[in_a] == inp[y]);
        assert(b[j] == inp[y] && b[in_b] == inp[x]);
        assert(la[j] == lb[in_b] && la[in_a] == lb[j]);
        assert(la[j] is Some && la[in_a] is Some);
        assert(key_of(la[j]) >= key_of(la[in_a]));
        assert(key_of(lb[j]) >= key_of(lb[in_b]));
        lemma_order_key_injective(la[j].unwrap(), la[in_a].unwrap());
        assert(la[j] == la[in_a]);
        assert(fa[j] < fa[in_a]);
        assert(fb[j] < fb[in_b]);
    }
}

proof fn lemma_sources_agree(
    a: Seq<ImageSlice>,
    b: Seq<ImageSlice>,
    inp: Seq<ImageSlice>,
    fa: Seq<int>,
    fb: Seq<int>,
    upto: int,
)
    requires
        ordered_by(a, inp, fa),
        ordered_by(b, inp, fb),
        0 <= upto <= inp.len(),
    ensures
        forall|m: int| 0 <= m < upto ==> fa[m] == fb[m],
    decreases upto,
{
    if upto > 0 {
        lemma_sources_agree(a, b, inp, fa, fb, upto - 1);
        lemma_next_source(a, b, inp, fa, fb, upto - 1);
    }
}

/// Slices have one display order only.
pub proof fn lemma_ordering_is_unique(a: Seq<ImageSlice>, b: Seq<ImageSlice>, inp: Seq<ImageSlice>)
    requires
        is_ordering_of(a, inp),
        is_ordering_of(b, inp),
    ensures
        a == b,
{
    let fa = choose|from: Seq<int>| ordered_by(a, inp, from);
    let fb = choose|from: Seq<int>| ordered_by(b, inp, from);
    lemma_sources_agree(a, b, inp, fa, fb, inp.len() as int);
    assert forall|j: int| 0 <= j < a.len() implies a[j] == b[j] by {
        assert(a[j] == inp[fa[j]]);
        assert(b[j] == inp[fb[j]]);
    }
    assert(a =~= b);
}

/// Slices that stand in display order are left as they are.
pub proof fn lemma_ordering_settles(
    out: Seq<ImageSlice>,
    inp: Seq<ImageSlice>,
    again: Seq<ImageSlice>,
)
    requires
        is_ordering_of(out, inp),
        is_ordering_of(again, out),
    ensures
        again == out,
{
    let from = choose|from: Seq<int>| ordered_by(out, inp, from);
    assert(ordered_by(out, inp, from));
    let n = out.len() as int;
    let same = Seq::new(n as nat, |j: int| j);
    let locs = locations(out);
    assert(follows(out, out, same));
    assert(is_rearrangement(same, n));
    assert(unlocated_fixed(locs, same));
    assert(descending_runs(locs, n));
    assert forall|x: int, y: int|
        0 <= x < y < n && #[trigger] same_run(locs, x, y) && locs[x] == locs[y] implies same[x]
            < same[y] by {}
    assert(ordered_by(out, out, same));
    lemma_ordering_is_unique(again, out, out);
}

} // verus!
