use vstd::prelude::*;
use vstd::seq_lib::to_multiset_contains;
use std::collections::HashMap;
use crate::imagehash::{ImageHashAV, ConfigOptions, is_dupe_spec};
use crate::ordering::{sort_by_pixels_desc, sorted_by_pixels_desc};

verus! {

/// The two fingerprints agree on every field except the cluster key: what
/// the grouping strategies leave untouched.
pub open spec fn same_but_group(a: ImageHashAV, b: ImageHashAV) -> bool {
    &&& a.grey_hash == b.grey_hash
    &&& a.low_res == b.low_res
    &&& a.width == b.width
    &&& a.height == b.height
    &&& a.file_size == b.file_size
    &&& a.num_pixels == b.num_pixels
    &&& a.std_dev == b.std_dev
    &&& a.image_path == b.image_path
}

/// The cluster keys of a sequence of fingerprints.
pub open spec fn groups_of(s: Seq<ImageHashAV>) -> Seq<u64> {
    s.map_values(|h: ImageHashAV| h.dupe_group)
}

/// The duplicate predicate reads nothing but fields the grouping
/// strategies leave alone, so it is indifferent to cluster-key updates.
pub proof fn lemma_is_dupe_same(
    a: ImageHashAV,
    b: ImageHashAV,
    a2: ImageHashAV,
    b2: ImageHashAV,
    c: ConfigOptions,
)
    requires
        same_but_group(a, a2),
        same_but_group(b, b2),
    ensures
        is_dupe_spec(a, b, c) == is_dupe_spec(a2, b2, c),
{
}

/// The running state of the exhaustive pass: the cluster key so far of
/// every fingerprint, the side table from fingerprint index to its
/// assigned cluster identifier (0 for "none assigned"), and the counter
/// the next identifier is minted from. Identifiers start at 1, so 0 never
/// collides with a minted one.
pub ghost struct NsState {
    pub groups: Seq<u64>,
    pub tbl: Seq<u64>,
    pub dg: int,
}

/// The state every exhaustive pass starts from: no cluster keys, no table
/// entries, the counter at 1.
pub open spec fn ns_init(n: nat) -> NsState {
    NsState { groups: Seq::new(n, |k: int| 0u64), tbl: Seq::new(n, |k: int| 0u64), dg: 1 }
}

/// One evaluated pair (i, j) of the exhaustive pass. On a match, an
/// existing identifier of either side is propagated to the other;
/// otherwise a fresh identifier is minted for both, registered in the
/// table under `i` alone. The counter advances once per evaluated pair,
/// match or not, so identifiers are unique per merge event.
pub open spec fn ns_pair(
    s: Seq<ImageHashAV>,
    c: ConfigOptions,
    st: NsState,
    i: int,
    j: int,
) -> NsState {
    let st2 = if is_dupe_spec(s[i], s[j], c) {
        if st.tbl[i] != 0 {
            NsState {
                groups: st.groups.update(j, st.tbl[i]),
                tbl: st.tbl.update(j, st.tbl[i]),
                dg: st.dg,
            }
        } else if st.tbl[j] != 0 {
            NsState {
                groups: st.groups.update(i, st.tbl[j]),
                tbl: st.tbl.update(i, st.tbl[j]),
                dg: st.dg,
            }
        } else {
            NsState {
                groups: st.groups.update(i, st.dg as u64).update(j, st.dg as u64),
                tbl: st.tbl.update(i, st.dg as u64),
                dg: st.dg,
            }
        }
    } else {
        st
    };
    NsState { groups: st2.groups, tbl: st2.tbl, dg: st2.dg + 1 }
}

/// The state after row `i` has evaluated its pairs (i, i+1) up to
/// (i, j-1), in ascending order of the second index.
pub open spec fn ns_inner(
    s: Seq<ImageHashAV>,
    c: ConfigOptions,
    st: NsState,
    i: int,
    j: int,
) -> NsState
    decreases j - i,
{
    if j <= i + 1 {
        st
    } else {
        ns_pair(s, c, ns_inner(s, c, st, i, j - 1), i, j - 1)
    }
}

/// The state after the rows 0 up to i-1 have each evaluated all their
/// pairs.
pub open spec fn ns_outer(s: Seq<ImageHashAV>, c: ConfigOptions, i: int) -> NsState
    decreases i,
{
    if i <= 0 {
        ns_init(s.len())
    } else {
        ns_inner(s, c, ns_outer(s, c, i - 1), i - 1, s.len() as int)
    }
}

/// The cluster keys the exhaustive strategy assigns to these fingerprints
/// under this configuration.
pub open spec fn ns_groups(s: Seq<ImageHashAV>, c: ConfigOptions) -> Seq<u64> {
    ns_outer(s, c, s.len() as int).groups
}

/// Number of pairs evaluated by the first `i` rows over `n` fingerprints.
pub open spec fn pairs_upto(n: int, i: int) -> int
    decreases i,
{
    if i <= 0 {
        0
    } else {
        pairs_upto(n, i - 1) + (n - i)
    }
}

/// A pair evaluation keeps the state's lengths.
proof fn lemma_ns_pair_wf(s: Seq<ImageHashAV>, c: ConfigOptions, st: NsState, i: int, j: int)
    requires
        st.groups.len() == s.len(),
        st.tbl.len() == s.len(),
        0 <= i < s.len(),
        0 <= j < s.len(),
    ensures
        ns_pair(s, c, st, i, j).groups.len() == s.len(),
        ns_pair(s, c, st, i, j).tbl.len() == s.len(),
        ns_pair(s, c, st, i, j).dg == st.dg + 1,
{
}

/// A row's pass keeps the state's lengths and advances the counter once
/// per evaluated pair.
proof fn lemma_ns_inner_wf(s: Seq<ImageHashAV>, c: ConfigOptions, st: NsState, i: int, j: int)
    requires
        st.groups.len() == s.len(),
        st.tbl.len() == s.len(),
        0 <= i < s.len(),
        j <= s.len(),
    ensures
        ns_inner(s, c, st, i, j).groups.len() == s.len(),
        ns_inner(s, c, st, i, j).tbl.len() == s.len(),
        ns_inner(s, c, st, i, j).dg == st.dg + if j <= i + 1 {
            0
        } else {
            j - i - 1
        },
    decreases j - i,
{
    if j <= i + 1 {
    } else {
        lemma_ns_inner_wf(s, c, st, i, j - 1);
        lemma_ns_pair_wf(s, c, ns_inner(s, c, st, i, j - 1), i, j - 1);
    }
}

/// The whole pass keeps the state's lengths, and after `i` rows the
/// counter stands at 1 plus the number of evaluated pairs.
proof fn lemma_ns_outer_wf(s: Seq<ImageHashAV>, c: ConfigOptions, i: int)
    requires
        0 <= i <= s.len(),
    ensures
        ns_outer(s, c, i).groups.len() == s.len(),
        ns_outer(s, c, i).tbl.len() == s.len(),
        ns_outer(s, c, i).dg == 1 + pairs_upto(s.len() as int, i),
    decreases i,
{
    if i <= 0 {
    } else {
        lemma_ns_outer_wf(s, c, i - 1);
        lemma_ns_inner_wf(s, c, ns_outer(s, c, i - 1), i - 1, s.len() as int);
    }
}

/// The pair counter stays below the square of the collection size.
proof fn lemma_pairs_upto_bound(n: int, i: int)
    requires
        0 <= i <= n,
    ensures
        0 <= pairs_upto(n, i) <= i * n,
    decreases i,
{
    if i <= 0 {
        assert(0 * n == 0) by (nonlinear_arith);
    } else {
        lemma_pairs_upto_bound(n, i - 1);
        assert((i - 1) * n + (n - i) <= i * n) by (nonlinear_arith)
            requires
                0 < i <= n,
        ;
    }
}

/// The exhaustive strategy: every unordered pair of fingerprints is
/// evaluated with the duplicate predicate, in ascending index order, and
/// cluster identifiers are propagated exactly as `ns_pair` describes.
/// Fingerprints matched with nothing keep cluster key 0. Only the cluster
/// keys change, and they end up exactly at `ns_groups` of the input.
#[verifier::loop_isolation(false)]
pub fn colour_n_square_check(image_hash_results: &mut Vec<ImageHashAV>, config: &ConfigOptions)
    requires
        forall|k: int|
            0 <= k < old(image_hash_results)@.len() ==> old(
                image_hash_results,
            )@[k].well_formed(),
        old(image_hash_results)@.len() < 0x1_0000_0000,
    ensures
        final(image_hash_results)@.len() == old(image_hash_results)@.len(),
        forall|k: int|
            0 <= k < old(image_hash_results)@.len() ==> same_but_group(
                old(image_hash_results)@[k],
                #[trigger] final(image_hash_results)@[k],
            ),
        groups_of(final(image_hash_results)@) == ns_groups(old(image_hash_results)@, *config),
{
    let ghost s0 = old(image_hash_results)@;
    let ghost c = *config;
    let n = image_hash_results.len();
    let mut k: usize = 0;
    while k < n
        invariant
            k <= n,
            image_hash_results@.len() == n,
            forall|t: int|
                0 <= t < n ==> same_but_group(s0[t], #[trigger] image_hash_results@[t]),
            forall|t: int| 0 <= t < k ==> image_hash_results@[t].dupe_group == 0,
            forall|t: int|
                k <= t < n ==> image_hash_results@[t].dupe_group == s0[t].dupe_group,
        decreases n - k,
    {
        image_hash_results[k].dupe_group = 0;
        k = k + 1;
    }
    let mut dupes_groups: Vec<u64> = vec![0u64; n];
    let mut dgroup: u64 = 1;
    proof {
        assert(groups_of(image_hash_results@) =~= ns_init(n as nat).groups);
        assert(dupes_groups@ =~= ns_init(n as nat).tbl);
    }
    let mut i: usize = 0;
    while i < n
        invariant
            i <= n,
            image_hash_results@.len() == n,
            dupes_groups@.len() == n,
            forall|t: int|
                0 <= t < n ==> same_but_group(s0[t], #[trigger] image_hash_results@[t]),
            groups_of(image_hash_results@) == ns_outer(s0, c, i as int).groups,
            dupes_groups@ == ns_outer(s0, c, i as int).tbl,
            dgroup == ns_outer(s0, c, i as int).dg,
        decreases n - i,
    {
        let mut j: usize = i + 1;
        proof {
            lemma_ns_outer_wf(s0, c, i as int);
        }
        while j < n
            invariant
                i < j <= n || (j == i + 1),
                image_hash_results@.len() == n,
                dupes_groups@.len() == n,
                forall|t: int|
                    0 <= t < n ==> same_but_group(s0[t], #[trigger] image_hash_results@[t]),
                groups_of(image_hash_results@) == ns_inner(
                    s0,
                    c,
                    ns_outer(s0, c, i as int),
                    i as int,
                    j as int,
                ).groups,
                dupes_groups@ == ns_inner(
                    s0,
                    c,
                    ns_outer(s0, c, i as int),
                    i as int,
                    j as int,
                ).tbl,
                dgroup == ns_inner(s0, c, ns_outer(s0, c, i as int), i as int, j as int).dg,
            decreases n - j,
        {
            let ghost st = ns_inner(s0, c, ns_outer(s0, c, i as int), i as int, j as int);
            proof {
                lemma_ns_outer_wf(s0, c, i as int);
                lemma_ns_inner_wf(s0, c, ns_outer(s0, c, i as int), i as int, j as int);
                lemma_pairs_upto_bound(n as int, i as int);
                assert((i as int) * (n as int) <= (n as int) * (n as int)) by (nonlinear_arith)
                    requires
                        0 <= i <= n,
                ;
                assert((n as int) * (n as int) <= 0xFFFF_FFFF * 0xFFFF_FFFFint)
                    by (nonlinear_arith)
                    requires
                        0 <= n < 0x1_0000_0000,
                ;
                lemma_is_dupe_same(
                    image_hash_results@[i as int],
                    image_hash_results@[j as int],
                    s0[i as int],
                    s0[j as int],
                    c,
                );
            }
            let matched = {
                let a = &image_hash_results[i];
                let b = &image_hash_results[j];
                a.is_dupe(b, config)
            };
            if matched {
                if dupes_groups[i] != 0 {
                    let d: u64 = dupes_groups[i];
                    image_hash_results[j].dupe_group = d;
                    dupes_groups[j] = d;
                } else if dupes_groups[j] != 0 {
                    let d: u64 = dupes_groups[j];
                    image_hash_results[i].dupe_group = d;
                    dupes_groups[i] = d;
                } else {
                    dupes_groups[i] = dgroup;
                    image_hash_results[i].dupe_group = dgroup;
                    image_hash_results[j].dupe_group = dgroup;
                }
            }
            dgroup = dgroup + 1;
            proof {
                let st2 = ns_inner(s0, c, ns_outer(s0, c, i as int), i as int, j + 1);
                assert(st2 == ns_pair(s0, c, st, i as int, j as int));
                assert(groups_of(image_hash_results@) =~= st2.groups);
                assert(dupes_groups@ =~= st2.tbl);
            }
            j = j + 1;
        }
        proof {
            assert(ns_inner(s0, c, ns_outer(s0, c, i as int), i as int, n as int) == ns_outer(
                s0,
                c,
                i + 1,
            ));
        }
        i = i + 1;
    }
}

/// The best validated match a probe of the 64 single-bit-flip variants of
/// a hash has found so far: whether one was found at all, its key, and
/// the pixel count of its registered representative.
pub ghost struct ProbeState {
    pub found: bool,
    pub best_key: u64,
    pub best_size: u64,
}

/// The probe of element `i` after the flip variants of bits 0 up to n-1
/// have been tried against the table of registered representatives. A
/// variant counts only when it is registered and the full duplicate
/// predicate re-validates the pair; among validated matches the one whose
/// representative has the largest pixel count is kept, earliest bit
/// winning ties.
pub open spec fn ham_probe(
    s: Seq<ImageHashAV>,
    c: ConfigOptions,
    tbl: Map<u64, usize>,
    i: int,
    n: int,
) -> ProbeState
    decreases n,
{
    if n <= 0 {
        ProbeState { found: false, best_key: 0, best_size: 0 }
    } else {
        let p = ham_probe(s, c, tbl, i, n - 1);
        let fk = (1u64 << ((n - 1) as u64)) ^ s[i].dupe_group;
        if tbl.contains_key(fk) && is_dupe_spec(s[i], s[tbl[fk] as int], c) && (!p.found
            || s[tbl[fk] as int].num_pixels > p.best_size) {
            ProbeState { found: true, best_key: fk, best_size: s[tbl[fk] as int].num_pixels }
        } else {
            p
        }
    }
}

/// The running state of the approximate pass: the table from hash key to
/// the index of the representative registered under it, and the cluster
/// keys assigned so far.
pub ghost struct HamState {
    pub tbl: Map<u64, usize>,
    pub groups: Seq<u64>,
}

/// One element of the approximate pass. A fingerprint whose key is
/// already registered keeps it (it converged to a representative, or is
/// one). Otherwise its 64 one-bit flip variants are probed: a validated
/// match merges it into that representative's cluster; failing that it is
/// registered as a new representative under its own key.
pub open spec fn ham_elem(s: Seq<ImageHashAV>, c: ConfigOptions, st: HamState, i: int) -> HamState {
    let k = s[i].dupe_group;
    if st.tbl.contains_key(k) {
        HamState { tbl: st.tbl, groups: st.groups.push(k) }
    } else {
        let p = ham_probe(s, c, st.tbl, i, 64);
        if p.found {
            HamState { tbl: st.tbl, groups: st.groups.push(p.best_key) }
        } else {
            HamState { tbl: st.tbl.insert(k, i as usize), groups: st.groups.push(k) }
        }
    }
}

/// The state after the first `i` fingerprints have been passed over, in
/// order.
pub open spec fn ham_fold(s: Seq<ImageHashAV>, c: ConfigOptions, i: int) -> HamState
    decreases i,
{
    if i <= 0 {
        HamState { tbl: Map::empty(), groups: Seq::empty() }
    } else {
        ham_elem(s, c, ham_fold(s, c, i - 1), i - 1)
    }
}

/// The cluster keys the approximate strategy assigns to these fingerprints
/// (already sorted by pixel count) under this configuration.
pub open spec fn ham_groups(s: Seq<ImageHashAV>, c: ConfigOptions) -> Seq<u64> {
    ham_fold(s, c, s.len() as int).groups
}

/// The approximate pass assigns one key per fingerprint seen, and its
/// table registers only indices of fingerprints already seen.
proof fn lemma_ham_fold_wf(s: Seq<ImageHashAV>, c: ConfigOptions, i: int)
    requires
        0 <= i <= s.len(),
    ensures
        ham_fold(s, c, i).groups.len() == i,
        forall|k: u64|
            #[trigger] ham_fold(s, c, i).tbl.contains_key(k) ==> ham_fold(s, c, i).tbl[k] < i,
    decreases i,
{
    if i <= 0 {
    } else {
        lemma_ham_fold_wf(s, c, i - 1);
    }
}

/// A permutation preserves element well-formedness.
proof fn lemma_perm_preserves_wf(a: Seq<ImageHashAV>, b: Seq<ImageHashAV>)
    requires
        a.to_multiset() == b.to_multiset(),
        forall|k: int| 0 <= k < a.len() ==> a[k].well_formed(),
    ensures
        forall|k: int| 0 <= k < b.len() ==> b[k].well_formed(),
{
    assert forall|k: int| 0 <= k < b.len() implies b[k].well_formed() by {
        let x = b[k];
        assert(b.contains(x)) by {
            assert(b[k] == x);
        }
        to_multiset_contains(b, x);
        to_multiset_contains(a, x);
        assert(a.contains(x));
        let t = choose|t: int| 0 <= t < a.len() && a[t] == x;
        assert(a[t].well_formed());
    }
}

/// The approximate ("hamming-flip") strategy, for large collections. The
/// fingerprints are first sorted by pixel count, largest first, so the
/// highest-resolution member of a cluster is registered first and becomes
/// its representative; then each fingerprint in turn either keeps its
/// registered key, merges into the best validated one-bit-flip match, or
/// registers itself, exactly as `ham_elem` describes. Only cluster keys
/// change beyond the reordering: some sorted arrangement of the input
/// exists whose keys end up exactly at `ham_groups` of it. Duplicates
/// whose hashes differ by more than one bit are missed by design.
#[verifier::loop_isolation(false)]
pub fn hamming_check(image_hash_results: &mut Vec<ImageHashAV>, config: &ConfigOptions)
    requires
        forall|k: int|
            0 <= k < old(image_hash_results)@.len() ==> old(
                image_hash_results,
            )@[k].well_formed(),
    ensures
        final(image_hash_results)@.len() == old(image_hash_results)@.len(),
        sorted_by_pixels_desc(final(image_hash_results)@),
        exists|mid: Seq<ImageHashAV>|
            {
                &&& mid.to_multiset() == old(image_hash_results)@.to_multiset()
                &&& sorted_by_pixels_desc(mid)
                &&& #[trigger] mid.len() == final(image_hash_results)@.len()
                &&& (forall|k: int|
                    0 <= k < mid.len() ==> same_but_group(
                        mid[k],
                        #[trigger] final(image_hash_results)@[k],
                    ))
                &&& groups_of(final(image_hash_results)@) == ham_groups(mid, *config)
            },
{
    let ghost s0 = old(image_hash_results)@;
    let ghost c = *config;
    sort_by_pixels_desc(image_hash_results);
    let ghost mid = image_hash_results@;
    proof {
        lemma_perm_preserves_wf(s0, mid);
    }
    let n = image_hash_results.len();
    let mut all_hash_codes: HashMap<u64, usize> = HashMap::new();
    proof {
        assert(all_hash_codes@ =~= ham_fold(mid, c, 0).tbl);
    }
    let mut i: usize = 0;
    while i < n
        invariant
            i <= n,
            image_hash_results@.len() == n,
            forall|t: int|
                0 <= t < n ==> same_but_group(mid[t], #[trigger] image_hash_results@[t]),
            forall|t: int|
                i <= t < n ==> image_hash_results@[t].dupe_group == mid[t].dupe_group,
            all_hash_codes@ == ham_fold(mid, c, i as int).tbl,
            forall|t: int|
                0 <= t < i ==> image_hash_results@[t].dupe_group == ham_fold(
                    mid,
                    c,
                    i as int,
                ).groups[t],
        decreases n - i,
    {
        let ghost st = ham_fold(mid, c, i as int);
        proof {
            lemma_ham_fold_wf(mid, c, i as int);
        }
        let key: u64 = image_hash_results[i].dupe_group;
        if !all_hash_codes.contains_key(&key) {
            let ghost tbl = st.tbl;
            let mut putative_match_hash: u64 = 0;
            let mut last_putative_size: u64 = 0;
            let mut found: bool = false;
            let mut b: usize = 0;
            while b < 64
                invariant
                    b <= 64,
                    ham_probe(mid, c, tbl, i as int, b as int) == (ProbeState {
                        found,
                        best_key: putative_match_hash,
                        best_size: last_putative_size,
                    }),
                decreases 64 - b,
            {
                let flipped: u64 = (1u64 << (b as u64)) ^ key;
                let mut rep: usize = 0;
                let mut registered: bool = false;
                match all_hash_codes.get(&flipped) {
                    Some(r) => {
                        rep = *r;
                        registered = true;
                    },
                    None => {
                    },
                }
                if registered {
                    proof {
                        lemma_is_dupe_same(
                            image_hash_results@[i as int],
                            image_hash_results@[rep as int],
                            mid[i as int],
                            mid[rep as int],
                            c,
                        );
                    }
                    let matched = {
                        let a = &image_hash_results[i];
                        let bb = &image_hash_results[rep];
                        a.is_dupe(bb, config)
                    };
                    if matched && (!found || image_hash_results[rep].num_pixels
                        > last_putative_size) {
                        found = true;
                        putative_match_hash = flipped;
                        last_putative_size = image_hash_results[rep].num_pixels;
                    }
                }
                b = b + 1;
            }
            if found {
                image_hash_results[i].dupe_group = putative_match_hash;
            } else {
                all_hash_codes.insert(key, i);
            }
        }
        proof {
            let st2 = ham_fold(mid, c, i + 1);
            assert(st2 == ham_elem(mid, c, st, i as int));
        }
        i = i + 1;
    }
    proof {
        lemma_ham_fold_wf(mid, c, n as int);
        assert forall|t: int|
            0 <= t < n implies groups_of(image_hash_results@)[t] == ham_groups(mid, c)[t] by {
            assert(image_hash_results@[t].dupe_group == ham_fold(mid, c, n as int).groups[t]);
        }
        assert(groups_of(image_hash_results@) =~= ham_groups(mid, c));
        assert({
            &&& mid.to_multiset() == s0.to_multiset()
            &&& sorted_by_pixels_desc(mid)
            &&& mid.len() == image_hash_results@.len()
            &&& (forall|k: int|
                0 <= k < mid.len() ==> same_but_group(mid[k], #[trigger] image_hash_results@[k]))
            &&& groups_of(image_hash_results@) == ham_groups(mid, c)
        });
    }
}

/// The strategy policy: the approximate algorithm is used when the number
/// of successfully fingerprinted files exceeds the flip threshold and the
/// caller has not forced the exhaustive colour-difference check.
pub fn should_use_approximate(n: u64, flip_threshold: u64, force_colour_diff_only: bool) -> (r:
    bool)
    ensures
        r == (n > flip_threshold && !force_colour_diff_only),
{
    n > flip_threshold && !force_colour_diff_only
}

/// Group the fingerprints into clusters of suspected duplicates by
/// mutating their cluster keys in place: the exhaustive strategy when the
/// collection is small enough (or the caller forces it), the approximate
/// strategy otherwise. The caller is told, by the policy function, when
/// the approximate strategy will be used, so it can warn that recall is
/// reduced.
#[verifier::loop_isolation(false)]
pub fn group(image_hash_results: &mut Vec<ImageHashAV>, config: &ConfigOptions)
    requires
        forall|k: int|
            0 <= k < old(image_hash_results)@.len() ==> old(
                image_hash_results,
            )@[k].well_formed(),
        old(image_hash_results)@.len() < 0x1_0000_0000,
    ensures
        final(image_hash_results)@.len() == old(image_hash_results)@.len(),
        !(old(image_hash_results)@.len() > config.alg_flip_threshold
            && !config.alg_colour_diff_only) ==> groups_of(final(image_hash_results)@)
            == ns_groups(old(image_hash_results)@, *config) && (forall|k: int|
            0 <= k < old(image_hash_results)@.len() ==> same_but_group(
                old(image_hash_results)@[k],
                #[trigger] final(image_hash_results)@[k],
            )),
        (old(image_hash_results)@.len() > config.alg_flip_threshold
            && !config.alg_colour_diff_only) ==> exists|mid: Seq<ImageHashAV>|
            {
                &&& mid.to_multiset() == old(image_hash_results)@.to_multiset()
                &&& sorted_by_pixels_desc(mid)
                &&& #[trigger] mid.len() == final(image_hash_results)@.len()
                &&& (forall|k: int|
                    0 <= k < mid.len() ==> same_but_group(
                        mid[k],
                        #[trigger] final(image_hash_results)@[k],
                    ))
                &&& groups_of(final(image_hash_results)@) == ham_groups(mid, *config)
            },
{
    let n: u64 = image_hash_results.len() as u64;
    if !should_use_approximate(n, config.alg_flip_threshold, config.alg_colour_diff_only) {
        colour_n_square_check(image_hash_results, config);
    } else {
        hamming_check(image_hash_results, config);
    }
}

} // verus!
