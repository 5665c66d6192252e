//! P108 Connected Buildings — merge neighboring building pads that have no
//! real reason to stand apart into one continuous party-wall footprint.
//!
//! The operator's own description and source citation stand here; what it
//! decides without measuring geometry stands beside them.

use vstd::prelude::*;

use crate::citation::{cite, CitationView, SourceCitation};
use crate::operator::PatternOperator;

verus! {

/// The operator.
pub struct P108ConnectedBuildings;

/// The operator's one-line description.
pub const DESCRIPTION: &'static str = "Merge neighboring building pads separated by nothing but a construction joint into one continuous party-wall building footprint.";

/// The id of the source the operator cites.
pub const SOURCE_ID: &'static str = "alexander_apl_p108";

/// The display text of the source the operator cites.
pub const SOURCE_DISPLAY: &'static str = "Alexander et al., A Pattern Language, Pattern 108 (Connected Buildings)";

/// The link to the source the operator cites.
pub const SOURCE_URL: &'static str = "https://patternlanguage.com/apl/aplsample/apl108/apl108.htm";

impl PatternOperator for P108ConnectedBuildings {
    fn name(&self) -> (r: &'static str)
        ensures
            r@ == crate::language_graph::P108_CONNECTED_BUILDINGS@,
    {
        crate::language_graph::P108_CONNECTED_BUILDINGS
    }

    fn description(&self) -> (r: &'static str)
        ensures
            r@ == DESCRIPTION@,
    {
        DESCRIPTION
    }

    fn source(&self) -> (r: SourceCitation)
        ensures
            r@ == (CitationView { id: SOURCE_ID@, display: SOURCE_DISPLAY@, url: Some(SOURCE_URL@) }),
    {
        cite(SOURCE_ID, SOURCE_DISPLAY, SOURCE_URL)
    }
}

/// Pad `j` can join the cluster through its member at position `t`: `j`
/// is still free and lies within the connection gap of that member.
pub open spec fn joinable(near: Seq<Seq<Option<u64>>>, cluster: Seq<usize>, taken: Seq<bool>, t: int, j: int) -> bool {
    &&& 0 <= t < cluster.len()
    &&& 0 <= j < taken.len()
    &&& !taken[j]
    &&& near[cluster[t] as int][j] is Some
}

/// The gap key of pad `j` from the cluster member at position `t`.
pub open spec fn gap_key(near: Seq<Seq<Option<u64>>>, cluster: Seq<usize>, t: int, j: int) -> u64 {
    near[cluster[t] as int][j]->0
}

/// The pair `(t, j)` comes strictly before `(u, k)`: a smaller gap, or an
/// equal gap met earlier in the scan (earlier member, then lower pad).
pub open spec fn scans_before(near: Seq<Seq<Option<u64>>>, cluster: Seq<usize>, t: int, j: int, u: int, k: int) -> bool {
    ||| gap_key(near, cluster, t, j) < gap_key(near, cluster, u, k)
    ||| gap_key(near, cluster, t, j) == gap_key(near, cluster, u, k) && t < u
    ||| gap_key(near, cluster, t, j) == gap_key(near, cluster, u, k) && t == u && j < k
}

/// `(t, j)` is the closest joinable pair: the pad the cluster grows by.
pub open spec fn closest_pair(near: Seq<Seq<Option<u64>>>, cluster: Seq<usize>, taken: Seq<bool>, t: int, j: int) -> bool {
    &&& joinable(near, cluster, taken, t, j)
    &&& forall|u: int, k: int|
        #[trigger] joinable(near, cluster, taken, u, k) && (u != t || k != j) ==> scans_before(
            near,
            cluster,
            t,
            j,
            u,
            k,
        )
}

/// The pad the cluster grows by next, if any pad can join it.
pub open spec fn next_pad(near: Seq<Seq<Option<u64>>>, cluster: Seq<usize>, taken: Seq<bool>) -> Option<int> {
    if exists|p: (int, int)| closest_pair(near, cluster, taken, p.0, p.1) {
        Some((choose|p: (int, int)| closest_pair(near, cluster, taken, p.0, p.1)).1)
    } else {
        None
    }
}

/// How many pads are still free.
pub open spec fn free_count(taken: Seq<bool>) -> nat
    decreases taken.len(),
{
    if taken.len() == 0 {
        0
    } else {
        free_count(taken.drop_last()) + if taken.last() {
            0nat
        } else {
            1nat
        }
    }
}

/// A cluster grown from `cluster` by repeatedly taking the next pad, until
/// it holds `max_cluster` pads or no free pad can join; `fuel` bounds the
/// number of steps (it is started at the number of free pads, which never
/// runs out first). Returns the pads taken afterwards and the cluster.
pub open spec fn grown(
    near: Seq<Seq<Option<u64>>>,
    taken: Seq<bool>,
    cluster: Seq<usize>,
    max_cluster: nat,
    fuel: nat,
) -> (Seq<bool>, Seq<usize>)
    decreases fuel,
{
    if fuel == 0 || cluster.len() >= max_cluster {
        (taken, cluster)
    } else {
        match next_pad(near, cluster, taken) {
            Some(j) => grown(near, taken.update(j, true), cluster.push(j as usize), max_cluster, (fuel - 1) as nat),
            None => (taken, cluster),
        }
    }
}

/// The clusters started from pads `0..start`, in order: each free pad
/// starts a cluster of its own and grows it.
pub open spec fn clusters_upto(near: Seq<Seq<Option<u64>>>, max_cluster: nat, start: nat) -> (Seq<bool>, Seq<Seq<usize>>)
    decreases start,
{
    if start == 0 {
        (Seq::new(near.len(), |i: int| false), Seq::empty())
    } else {
        let (taken, clusters) = clusters_upto(near, max_cluster, (start - 1) as nat);
        let s = (start - 1) as int;
        if taken[s] {
            (taken, clusters)
        } else {
            let seeded = taken.update(s, true);
            let (after, cluster) = grown(near, seeded, seq![s as usize], max_cluster, free_count(seeded));
            (after, clusters.push(cluster))
        }
    }
}

/// The views of nested vectors of pads.
pub open spec fn clusters_view(v: Seq<Vec<usize>>) -> Seq<Seq<usize>> {
    v.map_values(|c: Vec<usize>| c@)
}

/// `near` is a square table over the pads.
pub open spec fn square(near: Seq<Seq<Option<u64>>>) -> bool {
    forall|i: int| 0 <= i < near.len() ==> (#[trigger] near[i]).len() == near.len()
}

proof fn lemma_closest_pair_unique(
    near: Seq<Seq<Option<u64>>>,
    cluster: Seq<usize>,
    taken: Seq<bool>,
    t: int,
    j: int,
    u: int,
    k: int,
)
    requires
        closest_pair(near, cluster, taken, t, j),
        closest_pair(near, cluster, taken, u, k),
    ensures
        t == u && j == k,
{
    if t != u || j != k {
        assert(joinable(near, cluster, taken, u, k));
        assert(joinable(near, cluster, taken, t, j));
        assert(scans_before(near, cluster, t, j, u, k));
        assert(scans_before(near, cluster, u, k, t, j));
    }
}

proof fn lemma_free_count_take(taken: Seq<bool>, j: int)
    requires
        0 <= j < taken.len(),
        !taken[j],
    ensures
        free_count(taken.update(j, true)) + 1 == free_count(taken),
    decreases taken.len(),
{
    let up = taken.update(j, true);
    if j == taken.len() - 1 {
        assert(up.drop_last() =~= taken.drop_last());
    } else {
        lemma_free_count_take(taken.drop_last(), j);
        assert(up.drop_last() =~= taken.drop_last().update(j, true));
    }
}

proof fn lemma_free_count_zero(taken: Seq<bool>, j: int)
    requires
        free_count(taken) == 0,
        0 <= j < taken.len(),
    ensures
        taken[j],
    decreases taken.len(),
{
    if j < taken.len() - 1 {
        lemma_free_count_zero(taken.drop_last(), j);
        assert(taken.drop_last()[j] == taken[j]);
    }
}

/// The next pad to join the cluster: the free pad within the connection
/// gap of some member with the smallest gap key, earliest in scan order.
fn closest_free_pad(near: &Vec<Vec<Option<u64>>>, cluster: &Vec<usize>, taken: &Vec<bool>) -> (r: Option<usize>)
    requires
        near@.len() == taken@.len(),
        forall|i: int| 0 <= i < near@.len() ==> (#[trigger] near@[i])@.len() == near@.len(),
        forall|t: int| 0 <= t < cluster@.len() ==> #[trigger] cluster@[t] < near@.len(),
    ensures
        match r {
            Some(j) => next_pad(near@.map_values(|row: Vec<Option<u64>>| row@), cluster@, taken@) == Some(j as int),
            None => next_pad(near@.map_values(|row: Vec<Option<u64>>| row@), cluster@, taken@) is None,
        },
{
    let ghost nv = near@.map_values(|row: Vec<Option<u64>>| row@);
    let n = taken.len();
    let m = cluster.len();
    let mut best: Option<(usize, usize, u64)> = None;
    let mut t: usize = 0;
    while t < m
        invariant
            n == taken@.len(),
            n == near@.len(),
            m == cluster@.len(),
            nv == near@.map_values(|row: Vec<Option<u64>>| row@),
            forall|i: int| 0 <= i < near@.len() ==> (#[trigger] near@[i])@.len() == near@.len(),
            forall|x: int| 0 <= x < cluster@.len() ==> #[trigger] cluster@[x] < near@.len(),
            t <= m,
            match best {
                Some((bt, bj, bd)) => {
                    &&& joinable(nv, cluster@, taken@, bt as int, bj as int)
                    &&& bt < t
                    &&& gap_key(nv, cluster@, bt as int, bj as int) == bd
                    &&& forall|u: int, k: int|
                        #[trigger] joinable(nv, cluster@, taken@, u, k) && u < t && (u != bt || k != bj)
                            ==> scans_before(nv, cluster@, bt as int, bj as int, u, k)
                },
                None => forall|u: int, k: int| #[trigger] joinable(nv, cluster@, taken@, u, k) ==> u >= t,
            },
        decreases m - t,
    {
        let ci = cluster[t];
        let row = &near[ci];
        assert(row@ == nv[ci as int]);
        let mut j: usize = 0;
        while j < n
            invariant
                n == taken@.len(),
                n == near@.len(),
                m == cluster@.len(),
                nv == near@.map_values(|row: Vec<Option<u64>>| row@),
                t < m,
                ci == cluster@[t as int],
                ci < near@.len(),
                row@ == nv[ci as int],
                row@.len() == n,
                j <= n,
                match best {
                    Some((bt, bj, bd)) => {
                        &&& joinable(nv, cluster@, taken@, bt as int, bj as int)
                        &&& (bt < t || (bt == t && bj < j))
                        &&& gap_key(nv, cluster@, bt as int, bj as int) == bd
                        &&& forall|u: int, k: int|
                            #[trigger] joinable(nv, cluster@, taken@, u, k) && (u < t || (u == t && k < j)) && (u
                                != bt || k != bj) ==> scans_before(nv, cluster@, bt as int, bj as int, u, k)
                    },
                    None => forall|u: int, k: int|
                        #[trigger] joinable(nv, cluster@, taken@, u, k) ==> (u > t || (u == t && k >= j)),
                },
            decreases n - j,
        {
            if !taken[j] {
                match row[j] {
                    Some(d) => {
                        let better = match best {
                            None => true,
                            Some((_, _, bd)) => d < bd,
                        };
                        if better {
                            best = Some((t, j, d));
                        }
                    },
                    None => {},
                }
            }
            j = j + 1;
        }
        t = t + 1;
    }
    match best {
        Some((bt, bj, bd)) => {
            proof {
                assert(closest_pair(nv, cluster@, taken@, bt as int, bj as int));
                assert(exists|p: (int, int)| closest_pair(nv, cluster@, taken@, p.0, p.1)) by {
                    let w = (bt as int, bj as int);
                    assert(closest_pair(nv, cluster@, taken@, w.0, w.1));
                }
                let c = choose|p: (int, int)| closest_pair(nv, cluster@, taken@, p.0, p.1);
                lemma_closest_pair_unique(nv, cluster@, taken@, c.0, c.1, bt as int, bj as int);
            }
            Some(bj)
        },
        None => {
            proof {
                assert(!exists|p: (int, int)| closest_pair(nv, cluster@, taken@, p.0, p.1)) by {
                    if exists|p: (int, int)| closest_pair(nv, cluster@, taken@, p.0, p.1) {
                        let c = choose|p: (int, int)| closest_pair(nv, cluster@, taken@, p.0, p.1);
                        assert(joinable(nv, cluster@, taken@, c.0, c.1));
                    }
                }
            }
            None
        },
    }
}

/// Groups the building pads into clusters to merge. `near[i][j]` is
/// `Some(key)` when pad `j` lies within the connection gap of pad `i`,
/// keys ordering the gaps (smaller is closer, equal gaps equal keys), and
/// `None` otherwise. Each pad not yet in a cluster, in index order, starts
/// one and grows it: the free pad closest to any member joins next, until
/// the cluster holds `max_cluster` pads or no free pad is close enough.
/// Returns the clusters in the order they were started.
pub fn connect_pads(near: &Vec<Vec<Option<u64>>>, max_cluster: usize) -> (clusters: Vec<Vec<usize>>)
    requires
        square(near@.map_values(|row: Vec<Option<u64>>| row@)),
    ensures
        clusters_view(clusters@) == clusters_upto(
            near@.map_values(|row: Vec<Option<u64>>| row@),
            max_cluster as nat,
            near@.len(),
        ).1,
        forall|c: int, t: int|
            0 <= c < clusters@.len() && 0 <= t < clusters@[c]@.len() ==> #[trigger] clusters@[c]@[t] < near@.len(),
        forall|c: int, t: int, j: int|
            0 <= c < clusters@.len() && clusters@[c]@.len() < max_cluster && 0 <= t < clusters@[c]@.len() && 0 <= j
                < near@.len() && (#[trigger] near@[clusters@[c]@[t] as int]@[j]) is Some ==> exists|q: int|
                0 <= q <= c && (#[trigger] clusters@[q]@).contains(j as usize),
{
    let ghost nv = near@.map_values(|row: Vec<Option<u64>>| row@);
    let n = near.len();
    let mut taken: Vec<bool> = Vec::new();
    let mut i: usize = 0;
    while i < n
        invariant
            i <= n,
            taken@.len() == i,
            forall|x: int| 0 <= x < i ==> !#[trigger] taken@[x],
        decreases n - i,
    {
        taken.push(false);
        i = i + 1;
    }
    assert(taken@ =~= Seq::new(nv.len(), |x: int| false));
    let mut clusters: Vec<Vec<usize>> = Vec::new();
    let mut start: usize = 0;
    while start < n
        invariant
            n == near@.len(),
            nv == near@.map_values(|row: Vec<Option<u64>>| row@),
            square(nv),
            start <= n,
            taken@.len() == n,
            taken@ == clusters_upto(nv, max_cluster as nat, start as nat).0,
            clusters_view(clusters@) == clusters_upto(nv, max_cluster as nat, start as nat).1,
        decreases n - start,
    {
        if !taken[start] {
            let ghost seeded = taken@.update(start as int, true);
            let ghost target = grown(nv, seeded, seq![start], max_cluster as nat, free_count(seeded));
            let mut cluster: Vec<usize> = Vec::new();
            cluster.push(start);
            taken.set(start, true);
            assert(cluster@ =~= seq![start]);
            loop
                invariant
                    n == near@.len(),
                    nv == near@.map_values(|row: Vec<Option<u64>>| row@),
                    square(nv),
                    taken@.len() == n,
                    forall|x: int| 0 <= x < cluster@.len() ==> #[trigger] cluster@[x] < n,
                    grown(nv, taken@, cluster@, max_cluster as nat, free_count(taken@)) == target,
                ensures
                    target == (taken@, cluster@),
                decreases free_count(taken@),
            {
                if cluster.len() >= max_cluster {
                    break;
                }
                assert forall|r: int| 0 <= r < near@.len() implies (#[trigger] near@[r])@.len() == near@.len() by {
                    assert(nv[r] == near@[r]@);
                }
                match closest_free_pad(near, &cluster, &taken) {
                    Some(j) => {
                        proof {
                            let c = choose|p: (int, int)| closest_pair(nv, cluster@, taken@, p.0, p.1);
                            assert(closest_pair(nv, cluster@, taken@, c.0, c.1));
                            assert(!taken@[j as int]);
                            lemma_free_count_take(taken@, j as int);
                        }
                        cluster.push(j);
                        taken.set(j, true);
                    },
                    None => {
                        break;
                    },
                }
            }
            clusters.push(cluster);
            proof {
                assert(clusters_view(clusters@) =~= clusters_upto(nv, max_cluster as nat, start as nat).1.push(
                    target.1,
                ));
            }
        }
        start = start + 1;
    }
    proof {
        let cl = clusters_upto(nv, max_cluster as nat, n as nat).1;
        assert(clusters_view(clusters@) == cl);
        law_short_cluster_holds_every_pad_within_reach(nv, max_cluster as nat);
        lemma_clusters_upto_tracks(nv, max_cluster as nat, n as nat);
        assert forall|c: int, t: int| 0 <= c < clusters@.len() && 0 <= t < clusters@[c]@.len() implies #[trigger] clusters@[c]@[t]
            < near@.len() by {
            assert(clusters@[c]@ == cl[c]);
            let x = cl[c][t];
            assert(cl[c].contains(x));
            lemma_pads_in_contains(cl, x);
            let w = choose|w: int| 0 <= w < pads_in(cl).len() && pads_in(cl)[w] == x;
        }
        assert forall|c: int, t: int, j: int|
            0 <= c < clusters@.len() && clusters@[c]@.len() < max_cluster && 0 <= t < clusters@[c]@.len() && 0 <= j
                < near@.len() && (#[trigger] near@[clusters@[c]@[t] as int]@[j]) is Some implies exists|q: int|
            0 <= q <= c && (#[trigger] clusters@[q]@).contains(j as usize) by {
            assert(clusters@[c]@ == cl[c]);
            let x = cl[c][t];
            assert(cl[c].contains(x));
            lemma_pads_in_contains(cl, x);
            assert(nv[x as int] == near@[x as int]@);
            assert(nv[cl[c][t] as int][j] is Some);
            let q = choose|q: int| 0 <= q <= c && (#[trigger] cl[q]).contains(j as usize);
            assert(clusters@[q]@ == cl[q]);
        }
    }
    clusters
}

/// Every pad of the clusters, cluster after cluster.
pub open spec fn pads_in(clusters: Seq<Seq<usize>>) -> Seq<usize>
    decreases clusters.len(),
{
    if clusters.len() == 0 {
        Seq::empty()
    } else {
        pads_in(clusters.drop_last()) + clusters.last()
    }
}

/// The largest size a cluster can reach: `max_cluster`, but never below
/// the single pad that starts it.
pub open spec fn cluster_cap(max_cluster: nat) -> nat {
    if max_cluster >= 1 {
        max_cluster
    } else {
        1
    }
}

/// The pads taken are exactly the pads listed, each listed once, every
/// listed pad a real pad.
pub open spec fn tracks(taken: Seq<bool>, listed: Seq<usize>) -> bool {
    &&& listed.no_duplicates()
    &&& forall|t: int| 0 <= t < listed.len() ==> #[trigger] listed[t] < taken.len()
    &&& forall|i: int| 0 <= i < taken.len() ==> (#[trigger] taken[i] <==> listed.contains(i as usize))
}

proof fn lemma_grown_tracks(
    near: Seq<Seq<Option<u64>>>,
    taken: Seq<bool>,
    cluster: Seq<usize>,
    max_cluster: nat,
    fuel: nat,
    others: Seq<usize>,
)
    requires
        taken.len() == near.len(),
        near.len() <= usize::MAX,
        tracks(taken, others + cluster),
        1 <= cluster.len() <= cluster_cap(max_cluster),
    ensures
        tracks(grown(near, taken, cluster, max_cluster, fuel).0, others + grown(near, taken, cluster, max_cluster, fuel).1),
        1 <= grown(near, taken, cluster, max_cluster, fuel).1.len() <= cluster_cap(max_cluster),
        grown(near, taken, cluster, max_cluster, fuel).0.len() == taken.len(),
        grown(near, taken, cluster, max_cluster, fuel).1[0] == cluster[0],
        forall|i: int| 0 <= i < taken.len() && taken[i] ==> #[trigger] grown(near, taken, cluster, max_cluster, fuel).0[i],
    decreases fuel,
{
    if fuel > 0 && cluster.len() < max_cluster {
        match next_pad(near, cluster, taken) {
            Some(j) => {
                let c = choose|p: (int, int)| closest_pair(near, cluster, taken, p.0, p.1);
                assert(closest_pair(near, cluster, taken, c.0, c.1));
                assert(j == c.1);
                assert(0 <= j < taken.len() && !taken[j]);
                let listed = others + cluster;
                let next = taken.update(j, true);
                let longer = cluster.push(j as usize);
                assert(others + longer =~= listed.push(j as usize));
                assert(!listed.contains(j as usize));
                assert(tracks(next, others + longer)) by {
                    let l2 = listed.push(j as usize);
                    assert forall|a: int, b: int| 0 <= a < l2.len() && 0 <= b < l2.len() && a != b implies l2[a]
                        != l2[b] by {
                        if a == listed.len() {
                            assert(listed.contains(l2[b]));
                        } else if b == listed.len() {
                            assert(listed.contains(l2[a]));
                        }
                    }
                    assert forall|i: int| 0 <= i < next.len() implies (#[trigger] next[i] <==> l2.contains(i as usize)) by {
                        if i == j {
                            assert(l2[listed.len() as int] == j as usize);
                        } else {
                            if listed.contains(i as usize) {
                                let w = choose|w: int| 0 <= w < listed.len() && listed[w] == i as usize;
                                assert(l2[w] == i as usize);
                            }
                            if l2.contains(i as usize) {
                                let w = choose|w: int| 0 <= w < l2.len() && l2[w] == i as usize;
                                assert(w < listed.len());
                                assert(listed[w] == i as usize);
                            }
                        }
                    }
                }
                lemma_grown_tracks(near, next, longer, max_cluster, (fuel - 1) as nat, others);
            },
            None => {},
        }
    }
}

proof fn lemma_clusters_upto_tracks(near: Seq<Seq<Option<u64>>>, max_cluster: nat, start: nat)
    requires
        start <= near.len(),
        near.len() <= usize::MAX,
    ensures
        clusters_upto(near, max_cluster, start).0.len() == near.len(),
        tracks(clusters_upto(near, max_cluster, start).0, pads_in(clusters_upto(near, max_cluster, start).1)),
        forall|i: int| 0 <= i < start ==> #[trigger] clusters_upto(near, max_cluster, start).0[i],
        forall|c: int|
            0 <= c < clusters_upto(near, max_cluster, start).1.len() ==> 1 <= (
            #[trigger] clusters_upto(near, max_cluster, start).1[c]).len() <= cluster_cap(max_cluster),
    decreases start,
{
    if start == 0 {
        assert(pads_in(Seq::<Seq<usize>>::empty()) =~= Seq::<usize>::empty());
    } else {
        lemma_clusters_upto_tracks(near, max_cluster, (start - 1) as nat);
        let (taken, clusters) = clusters_upto(near, max_cluster, (start - 1) as nat);
        let s = (start - 1) as int;
        if !taken[s] {
            let seeded = taken.update(s, true);
            let members = pads_in(clusters);
            assert(!members.contains(s as usize));
            assert(members + seq![s as usize] =~= members.push(s as usize));
            assert(tracks(seeded, members + seq![s as usize])) by {
                let l2 = members.push(s as usize);
                assert forall|a: int, b: int| 0 <= a < l2.len() && 0 <= b < l2.len() && a != b implies l2[a]
                    != l2[b] by {
                    if a == members.len() {
                        assert(members.contains(l2[b]));
                    } else if b == members.len() {
                        assert(members.contains(l2[a]));
                    }
                }
                assert forall|i: int| 0 <= i < seeded.len() implies (#[trigger] seeded[i] <==> l2.contains(i as usize)) by {
                    if i == s {
                        assert(l2[members.len() as int] == s as usize);
                    } else {
                        if members.contains(i as usize) {
                            let w = choose|w: int| 0 <= w < members.len() && members[w] == i as usize;
                            assert(l2[w] == i as usize);
                        }
                        if l2.contains(i as usize) {
                            let w = choose|w: int| 0 <= w < l2.len() && l2[w] == i as usize;
                            assert(w < members.len());
                        }
                    }
                }
            }
            let fuel = free_count(seeded);
            lemma_grown_tracks(near, seeded, seq![s as usize], max_cluster, fuel, members);
            let (after, cluster) = grown(near, seeded, seq![s as usize], max_cluster, fuel);
            assert(clusters.push(cluster).drop_last() =~= clusters);
            assert(pads_in(clusters.push(cluster)) == members + cluster);
            assert(after[s]);
        }
    }
}

/// Every pad ends up in exactly one cluster: the clusters list every pad
/// once and nothing else, and no cluster is empty or larger than
/// `max_cluster` (a single pad always forms a cluster of its own).
pub proof fn law_each_pad_joins_exactly_one_cluster(near: Seq<Seq<Option<u64>>>, max_cluster: nat)
    requires
        near.len() <= usize::MAX,
    ensures
        pads_in(clusters_upto(near, max_cluster, near.len()).1).no_duplicates(),
        forall|t: int|
            0 <= t < pads_in(clusters_upto(near, max_cluster, near.len()).1).len() ==> #[trigger] pads_in(
                clusters_upto(near, max_cluster, near.len()).1,
            )[t] < near.len(),
        forall|i: int| 0 <= i < near.len() ==> #[trigger] pads_in(clusters_upto(near, max_cluster, near.len()).1).contains(i as usize),
        forall|c: int|
            0 <= c < clusters_upto(near, max_cluster, near.len()).1.len() ==> 1 <= (
            #[trigger] clusters_upto(near, max_cluster, near.len()).1[c]).len() <= cluster_cap(max_cluster),
{
    lemma_clusters_upto_tracks(near, max_cluster, near.len());
    let (taken, clusters) = clusters_upto(near, max_cluster, near.len());
    assert forall|i: int| 0 <= i < near.len() implies #[trigger] pads_in(clusters).contains(i as usize) by {
        assert(taken[i]);
    }
}

proof fn lemma_closest_exists(near: Seq<Seq<Option<u64>>>, cluster: Seq<usize>, taken: Seq<bool>, t: int, j: int)
    requires
        joinable(near, cluster, taken, t, j),
    ensures
        exists|p: (int, int)| closest_pair(near, cluster, taken, p.0, p.1),
    decreases gap_key(near, cluster, t, j), t, j,
{
    if closest_pair(near, cluster, taken, t, j) {
        let w = (t, j);
        assert(closest_pair(near, cluster, taken, w.0, w.1));
    } else {
        let (u, k) = choose|u: int, k: int|
            #[trigger] joinable(near, cluster, taken, u, k) && (u != t || k != j) && !scans_before(
                near,
                cluster,
                t,
                j,
                u,
                k,
            );
        assert(scans_before(near, cluster, u, k, t, j));
        lemma_closest_exists(near, cluster, taken, u, k);
    }
}

/// A cluster grows whenever it can: when some member has a gap key (any
/// key, zero included) toward a free pad, a next pad exists. The pad that
/// joins is free, within reach of some member, and its gap key is no
/// larger than that of any free pad within reach of any member.
pub proof fn law_a_free_pad_within_reach_always_joins(
    near: Seq<Seq<Option<u64>>>,
    cluster: Seq<usize>,
    taken: Seq<bool>,
    t: int,
    j: int,
)
    requires
        0 <= t < cluster.len(),
        0 <= j < taken.len(),
        !taken[j],
        near[cluster[t] as int][j] is Some,
    ensures
        next_pad(near, cluster, taken) is Some,
        next_pad(near, cluster, taken) matches Some(k) ==> {
            &&& 0 <= k < taken.len()
            &&& !taken[k]
            &&& exists|u: int|
                0 <= u < cluster.len() && (#[trigger] near[cluster[u] as int][k]) is Some && near[cluster[u] as int][k]->0
                    <= near[cluster[t] as int][j]->0
        },
{
    lemma_closest_exists(near, cluster, taken, t, j);
    let c = choose|p: (int, int)| closest_pair(near, cluster, taken, p.0, p.1);
    assert(closest_pair(near, cluster, taken, c.0, c.1));
    if c.0 != t || c.1 != j {
        assert(joinable(near, cluster, taken, t, j));
        assert(scans_before(near, cluster, c.0, c.1, t, j));
    }
    assert(0 <= c.0 < cluster.len() && near[cluster[c.0] as int][c.1] is Some);
}

proof fn lemma_grown_maximal(near: Seq<Seq<Option<u64>>>, taken: Seq<bool>, cluster: Seq<usize>, max_cluster: nat, fuel: nat)
    requires
        fuel == free_count(taken),
    ensures
        grown(near, taken, cluster, max_cluster, fuel).1.len() < max_cluster ==> forall|t: int, j: int|
            0 <= t < grown(near, taken, cluster, max_cluster, fuel).1.len() && 0 <= j < grown(
                near,
                taken,
                cluster,
                max_cluster,
                fuel,
            ).0.len() && (#[trigger] near[grown(near, taken, cluster, max_cluster, fuel).1[t] as int][j]) is Some
                ==> grown(near, taken, cluster, max_cluster, fuel).0[j],
    decreases fuel,
{
    let (t2, c2) = grown(near, taken, cluster, max_cluster, fuel);
    if fuel == 0 {
        assert forall|t: int, j: int|
            0 <= t < c2.len() && 0 <= j < t2.len() && (#[trigger] near[c2[t] as int][j]) is Some implies t2[j] by {
            lemma_free_count_zero(taken, j);
        }
    } else if cluster.len() < max_cluster {
        match next_pad(near, cluster, taken) {
            Some(j) => {
                let c = choose|p: (int, int)| closest_pair(near, cluster, taken, p.0, p.1);
                assert(closest_pair(near, cluster, taken, c.0, c.1));
                lemma_free_count_take(taken, j);
                lemma_grown_maximal(near, taken.update(j, true), cluster.push(j as usize), max_cluster, (fuel - 1) as nat);
            },
            None => {
                assert forall|t: int, j: int|
                    0 <= t < c2.len() && 0 <= j < t2.len() && (#[trigger] near[c2[t] as int][j]) is Some implies t2[j] by {
                    if !t2[j] {
                        law_a_free_pad_within_reach_always_joins(near, cluster, taken, t, j);
                    }
                }
            },
        }
    }
}

proof fn lemma_pads_in_contains(clusters: Seq<Seq<usize>>, x: usize)
    ensures
        pads_in(clusters).contains(x) <==> exists|q: int| 0 <= q < clusters.len() && #[trigger] clusters[q].contains(x),
    decreases clusters.len(),
{
    if clusters.len() > 0 {
        let init = clusters.drop_last();
        lemma_pads_in_contains(init, x);
        let all = pads_in(init) + clusters.last();
        if all.contains(x) {
            let w = choose|w: int| 0 <= w < all.len() && all[w] == x;
            if w < pads_in(init).len() {
                assert(pads_in(init)[w] == x);
                let q = choose|q: int| 0 <= q < init.len() && #[trigger] init[q].contains(x);
                assert(clusters[q] == init[q]);
            } else {
                assert(clusters.last()[w - pads_in(init).len()] == x);
                assert(clusters[clusters.len() - 1].contains(x));
            }
        }
        if exists|q: int| 0 <= q < clusters.len() && #[trigger] clusters[q].contains(x) {
            let q = choose|q: int| 0 <= q < clusters.len() && #[trigger] clusters[q].contains(x);
            if q < clusters.len() - 1 {
                assert(init[q] == clusters[q]);
                assert(pads_in(init).contains(x));
                let w = choose|w: int| 0 <= w < pads_in(init).len() && pads_in(init)[w] == x;
                assert(all[w] == x);
            } else {
                let w = choose|w: int| 0 <= w < clusters.last().len() && clusters.last()[w] == x;
                assert(all[pads_in(init).len() + w] == x);
            }
        }
    }
}

proof fn lemma_clusters_maximal(near: Seq<Seq<Option<u64>>>, max_cluster: nat, start: nat)
    requires
        start <= near.len(),
        near.len() <= usize::MAX,
    ensures
        forall|c: int, t: int, j: int|
            0 <= c < clusters_upto(near, max_cluster, start).1.len() && clusters_upto(near, max_cluster, start).1[c].len()
                < max_cluster && 0 <= t < clusters_upto(near, max_cluster, start).1[c].len() && 0 <= j < near.len() && (
            #[trigger] near[clusters_upto(near, max_cluster, start).1[c][t] as int][j]) is Some ==> pads_in(
                clusters_upto(near, max_cluster, start).1.take(c + 1),
            ).contains(j as usize),
    decreases start,
{
    if start > 0 {
        lemma_clusters_maximal(near, max_cluster, (start - 1) as nat);
        lemma_clusters_upto_tracks(near, max_cluster, (start - 1) as nat);
        lemma_clusters_upto_tracks(near, max_cluster, start);
        let (taken, old) = clusters_upto(near, max_cluster, (start - 1) as nat);
        let s = (start - 1) as int;
        if !taken[s] {
            let seeded = taken.update(s, true);
            let fuel = free_count(seeded);
            lemma_grown_maximal(near, seeded, seq![s as usize], max_cluster, fuel);
            let (after, cluster) = grown(near, seeded, seq![s as usize], max_cluster, fuel);
            let new = old.push(cluster);
            assert(clusters_upto(near, max_cluster, start).1 == new);
            assert forall|c: int, t: int, j: int|
                0 <= c < new.len() && new[c].len() < max_cluster && 0 <= t < new[c].len() && 0 <= j < near.len() && (
                #[trigger] near[new[c][t] as int][j]) is Some implies pads_in(new.take(c + 1)).contains(j as usize) by {
                if c < old.len() {
                    assert(new[c] == old[c]);
                    assert(new.take(c + 1) =~= old.take(c + 1));
                } else {
                    assert(new.take(c + 1) =~= new);
                    assert(new[c] == cluster);
                    assert(after[j]);
                }
            }
        }
    }
}

/// A cluster stops short of `max_cluster` only when no free pad is left
/// within reach: every pad that a member of a short cluster has a gap key
/// toward (any key, zero included) belongs to that cluster or to one
/// started before it.
pub proof fn law_short_cluster_holds_every_pad_within_reach(near: Seq<Seq<Option<u64>>>, max_cluster: nat)
    requires
        near.len() <= usize::MAX,
    ensures
        forall|c: int, t: int, j: int|
            0 <= c < clusters_upto(near, max_cluster, near.len()).1.len() && clusters_upto(near, max_cluster, near.len()).1[c].len()
                < max_cluster && 0 <= t < clusters_upto(near, max_cluster, near.len()).1[c].len() && 0 <= j < near.len() && (
            #[trigger] near[clusters_upto(near, max_cluster, near.len()).1[c][t] as int][j]) is Some ==> exists|q: int|
                0 <= q <= c && (#[trigger] clusters_upto(near, max_cluster, near.len()).1[q]).contains(j as usize),
{
    lemma_clusters_maximal(near, max_cluster, near.len());
    let cl = clusters_upto(near, max_cluster, near.len()).1;
    assert forall|c: int, t: int, j: int|
        0 <= c < cl.len() && cl[c].len() < max_cluster && 0 <= t < cl[c].len() && 0 <= j < near.len() && (
        #[trigger] near[cl[c][t] as int][j]) is Some implies exists|q: int|
        0 <= q <= c && (#[trigger] cl[q]).contains(j as usize) by {
        let pre = cl.take(c + 1);
        lemma_pads_in_contains(pre, j as usize);
        let q = choose|q: int| 0 <= q < pre.len() && #[trigger] pre[q].contains(j as usize);
        assert(pre[q] == cl[q]);
    }
}

} // verus!
