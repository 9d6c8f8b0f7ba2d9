use vstd::prelude::*;
use vstd::seq_lib::{to_multiset_insert, to_multiset_remove, to_multiset_contains};
use crate::imagehash::ImageHashAV;

verus! {

/// Whether this fingerprint must never be presented as its cluster's best
/// version: it came from the comparison set and the caller asked for
/// comparison-set images to be marked duplicates irrespective of quality.
pub open spec fn compare_override(h: ImageHashAV) -> bool {
    h.image_path.is_compare_dir && h.image_path.always_mark_dupe_compare
}

/// The total preorder the result list is sorted by: ascending by
/// `dupe_group` so clusters are contiguous; within a cluster, fingerprints
/// under the comparison-set override sort after all their peers; then
/// descending by `num_pixels` so the highest-resolution version comes
/// first; then descending by `file_size` as a tie-break. Fingerprints
/// equal under all four keys are mutually unordered.
pub open spec fn order_le(a: ImageHashAV, b: ImageHashAV) -> bool {
    if a.dupe_group != b.dupe_group {
        a.dupe_group < b.dupe_group
    } else if compare_override(a) != compare_override(b) {
        !compare_override(a)
    } else if a.num_pixels != b.num_pixels {
        a.num_pixels > b.num_pixels
    } else {
        a.file_size >= b.file_size
    }
}

/// The order is total: of any two fingerprints, one sorts no later than
/// the other.
pub proof fn lemma_order_total(a: ImageHashAV, b: ImageHashAV)
    ensures
        order_le(a, b) || order_le(b, a),
{
}

/// The order is transitive, so it is a valid total preorder and sorting
/// by it is well defined.
pub proof fn lemma_order_trans(a: ImageHashAV, b: ImageHashAV, c: ImageHashAV)
    requires
        order_le(a, b),
        order_le(b, c),
    ensures
        order_le(a, c),
{
}

/// In a sequence sorted by this order, members of one cluster stand
/// together: whatever lies between two fingerprints with equal
/// `dupe_group` carries that same `dupe_group`.
pub proof fn lemma_clusters_contiguous(s: Seq<ImageHashAV>, i: int, j: int, k: int)
    requires
        sorted_by_order(s),
        0 <= i <= k <= j < s.len(),
        s[i].dupe_group == s[j].dupe_group,
    ensures
        s[k].dupe_group == s[i].dupe_group,
{
    if i < k {
        assert(order_le(s[i], s[k]));
    }
    if k < j {
        assert(order_le(s[k], s[j]));
    }
}

/// The comparison-set guarantee: a fingerprint under the comparison-set
/// override never precedes a peer of its cluster that is not under it,
/// however high its resolution; the peer strictly precedes it.
pub proof fn lemma_compare_set_sorts_last(a: ImageHashAV, b: ImageHashAV)
    requires
        a.dupe_group == b.dupe_group,
        !compare_override(a),
        compare_override(b),
    ensures
        order_le(a, b),
        !order_le(b, a),
{
}

/// The sequence is sorted by `order_le`.
pub open spec fn sorted_by_order(s: Seq<ImageHashAV>) -> bool {
    forall|i: int, j: int| 0 <= i < j < s.len() ==> order_le(s[i], s[j])
}

/// The sequence is sorted by `num_pixels`, largest first.
pub open spec fn sorted_by_pixels_desc(s: Seq<ImageHashAV>) -> bool {
    forall|i: int, j: int|
        0 <= i < j < s.len() ==> s[i].num_pixels >= s[j].num_pixels
}

/// Exec comparison realizing `order_le`.
fn order_le_exec(a: &ImageHashAV, b: &ImageHashAV) -> (r: bool)
    ensures
        r == order_le(*a, *b),
{
    let fa = a.image_path.is_compare_dir && a.image_path.always_mark_dupe_compare;
    let fb = b.image_path.is_compare_dir && b.image_path.always_mark_dupe_compare;
    if a.dupe_group != b.dupe_group {
        a.dupe_group < b.dupe_group
    } else if fa != fb {
        !fa
    } else if a.num_pixels != b.num_pixels {
        a.num_pixels > b.num_pixels
    } else {
        a.file_size >= b.file_size
    }
}

/// The decision the presentation layer makes for each entry of the
/// sorted list: an entry is a duplicate of the cluster representative
/// seen immediately before it exactly when the two share a cluster key
/// and the duplicate predicate re-validates the pair. A key of 0 alone
/// proves nothing (it also means "matched with nothing"), which is why
/// the predicate is re-checked.
pub fn is_duplicate_of_prev(
    prev: &ImageHashAV,
    cur: &ImageHashAV,
    config: &crate::imagehash::ConfigOptions,
) -> (r: bool)
    requires
        prev.well_formed(),
        cur.well_formed(),
    ensures
        r == (prev.dupe_group == cur.dupe_group && crate::imagehash::is_dupe_spec(
            *prev,
            *cur,
            *config,
        )),
{
    prev.dupe_group == cur.dupe_group && prev.is_dupe(cur, config)
}

/// Sort the fingerprints by the presentation order: ascending by cluster
/// key, comparison-set overrides last within their cluster, then by
/// resolution and file size, best first. The result holds exactly the
/// fingerprints given, rearranged.
pub fn sort_results(v: &mut Vec<ImageHashAV>)
    ensures
        final(v)@.len() == old(v)@.len(),
        final(v)@.to_multiset() == old(v)@.to_multiset(),
        sorted_by_order(final(v)@),
{
    if v.len() <= 1 {
        return ;
    }
    let mut i: usize = 1;
    while i < v.len()
        invariant
            1 <= i <= v@.len(),
            v@.len() == old(v)@.len(),
            v@.to_multiset() == old(v)@.to_multiset(),
            forall|a: int, b: int| 0 <= a < b < i ==> order_le(v@[a], v@[b]),
        decreases v@.len() - i,
    {
        let ghost u = v@;
        let mut j: usize = i;
        while j > 0 && !order_le_exec(&v[j - 1], &v[i])
            invariant
                0 <= j <= i < v@.len(),
                v@ == u,
                forall|t: int| j <= t < i ==> !order_le(u[t], u[i as int]),
            decreases j,
        {
            j = j - 1;
        }
        if j < i {
            let x = v.remove(i);
            v.insert(j, x);
            proof {
                let w = v@;
                let ghost xg = u[i as int];
                assert(u.remove(i as int).insert(j as int, xg) =~= w);
                assert(u.contains(xg)) by {
                    assert(u[i as int] == xg);
                }
                to_multiset_contains(u, xg);
                to_multiset_remove(u, i as int);
                to_multiset_insert(u.remove(i as int), j as int, xg);
                assert(u.to_multiset().count(xg) > 0);
                assert(u.remove(i as int).insert(j as int, xg).to_multiset() =~= u.to_multiset());
                assert forall|a: int, b: int| 0 <= a < b < i + 1 implies order_le(w[a], w[b]) by {
                    if b < j {
                        assert(w[a] == u[a] && w[b] == u[b]);
                    } else if b == j {
                        assert(w[b] == xg && a < j);
                        lemma_order_total(u[(j - 1) as int], xg);
                        if a < j - 1 {
                            lemma_order_trans(u[a], u[(j - 1) as int], xg);
                        }
                    } else if a == j {
                        assert(w[a] == xg && w[b] == u[b - 1] && j <= b - 1 < i);
                        lemma_order_total(u[b - 1], xg);
                    } else if a < j {
                        assert(w[a] == u[a] && w[b] == u[b - 1] && a < j <= b - 1 < i);
                    } else {
                        assert(w[a] == u[a - 1] && w[b] == u[b - 1] && j <= a - 1 < b - 1 < i);
                    }
                }
            }
        } else {
            proof {
                assert forall|a: int| 0 <= a < i implies order_le(u[a], u[i as int]) by {
                    if a < i - 1 {
                        lemma_order_trans(u[a], u[(i - 1) as int], u[i as int]);
                    }
                }
            }
        }
        i = i + 1;
    }
}

/// Sort the fingerprints by `num_pixels`, largest first, so that within
/// any eventual cluster the highest-resolution member is seen first and
/// becomes its representative. The result holds exactly the fingerprints
/// given, rearranged.
pub fn sort_by_pixels_desc(v: &mut Vec<ImageHashAV>)
    ensures
        final(v)@.len() == old(v)@.len(),
        final(v)@.to_multiset() == old(v)@.to_multiset(),
        sorted_by_pixels_desc(final(v)@),
{
    if v.len() <= 1 {
        return ;
    }
    let mut i: usize = 1;
    while i < v.len()
        invariant
            1 <= i <= v@.len(),
            v@.len() == old(v)@.len(),
            v@.to_multiset() == old(v)@.to_multiset(),
            forall|a: int, b: int| 0 <= a < b < i ==> v@[a].num_pixels >= v@[b].num_pixels,
        decreases v@.len() - i,
    {
        let ghost u = v@;
        let mut j: usize = i;
        while j > 0 && v[j - 1].num_pixels < v[i].num_pixels
            invariant
                0 <= j <= i < v@.len(),
                v@ == u,
                forall|t: int| j <= t < i ==> u[t].num_pixels < u[i as int].num_pixels,
            decreases j,
        {
            j = j - 1;
        }
        if j < i {
            let x = v.remove(i);
            v.insert(j, x);
            proof {
                let w = v@;
                let ghost xg = u[i as int];
                assert(u.remove(i as int).insert(j as int, xg) =~= w);
                assert(u.contains(xg)) by {
                    assert(u[i as int] == xg);
                }
                to_multiset_contains(u, xg);
                to_multiset_remove(u, i as int);
                to_multiset_insert(u.remove(i as int), j as int, xg);
                assert(u.to_multiset().count(xg) > 0);
                assert(u.remove(i as int).insert(j as int, xg).to_multiset() =~= u.to_multiset());
                assert forall|a: int, b: int|
                    0 <= a < b < i + 1 implies w[a].num_pixels >= w[b].num_pixels by {
                    if b < j {
                        assert(w[a] == u[a] && w[b] == u[b]);
                    } else if b == j {
                        assert(w[b] == xg && a < j);
                    } else if a == j {
                        assert(w[a] == xg && w[b] == u[b - 1] && j <= b - 1 < i);
                    } else if a < j {
                        assert(w[a] == u[a] && w[b] == u[b - 1] && a < j <= b - 1 < i);
                    } else {
                        assert(w[a] == u[a - 1] && w[b] == u[b - 1] && j <= a - 1 < b - 1 < i);
                    }
                }
            }
        } else {
            proof {
                assert forall|a: int|
                    0 <= a < i implies u[a].num_pixels >= u[i as int].num_pixels by {
                    if a < i - 1 {
                        assert(u[a].num_pixels >= u[(i - 1) as int].num_pixels);
                    }
                }
            }
        }
        i = i + 1;
    }
}

} // verus!
