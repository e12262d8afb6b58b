use vstd::prelude::*;
use crate::matrix::{square, DistanceMatrix};

verus! {

/// A live cluster: its identifier and the original-object indices it holds.
///
/// The engine starts from one singleton cluster per object, with identifiers
/// `0 .. n-1` in input order; each merge retires two clusters and appends a
/// new one under the next unused identifier `n, n+1, ...`.
pub struct Cluster {
    pub id: usize,
    pub members: Vec<usize>,
}

/// The mathematical image of a [`Cluster`].
#[verifier::ext_equal]
pub ghost struct ClusterV {
    pub id: int,
    pub members: Seq<int>,
}

/// A sequence of object indices as mathematical integers.
pub open spec fn to_ints(s: Seq<usize>) -> Seq<int> {
    s.map_values(|x: usize| x as int)
}

impl View for Cluster {
    type V = ClusterV;

    open spec fn view(&self) -> ClusterV {
        ClusterV { id: self.id as int, members: to_ints(self.members@) }
    }
}

/// One emitted merge row: the identifiers the two clusters had immediately
/// before this merge, their single-linkage distance key at that moment, and
/// the member count of the cluster the merge created.
pub struct LinkageRecord {
    pub id1: usize,
    pub id2: usize,
    pub dist: u64,
    pub size: usize,
}

/// The mathematical image of a [`LinkageRecord`].
pub ghost struct RecV {
    pub id1: int,
    pub id2: int,
    pub dist: u64,
    pub size: int,
}

impl View for LinkageRecord {
    type V = RecV;

    open spec fn view(&self) -> RecV {
        RecV {
            id1: self.id1 as int,
            id2: self.id2 as int,
            dist: self.dist,
            size: self.size as int,
        }
    }
}

/// The images of a sequence of live clusters.
pub open spec fn cls_view(cs: Seq<Cluster>) -> Seq<ClusterV> {
    cs.map_values(|c: Cluster| c@)
}

/// The images of a sequence of emitted records.
pub open spec fn recs_view(rs: Seq<LinkageRecord>) -> Seq<RecV> {
    rs.map_values(|r: LinkageRecord| r@)
}

/// `c` (the challenger) beats `p` (the incumbent) only when strictly
/// smaller, so on ties the earlier candidate is kept.
pub open spec fn min2(p: u64, c: u64) -> u64 {
    if c < p {
        c
    } else {
        p
    }
}

/// Minimum matrix entry between object `x` and the first `k` members of `b`
/// (`u64::MAX` when no member has been considered).
pub open spec fn row_min_upto(m: Seq<Seq<u64>>, x: int, b: Seq<int>, k: int) -> u64
    decreases k,
{
    if k <= 0 {
        u64::MAX
    } else {
        min2(row_min_upto(m, x, b, k - 1), m[x][b[k - 1]])
    }
}

/// Minimum matrix entry between object `x` and any member of `b`.
pub open spec fn row_min(m: Seq<Seq<u64>>, x: int, b: Seq<int>) -> u64 {
    row_min_upto(m, x, b, b.len() as int)
}

/// Single-linkage distance restricted to the first `k` members of `a`.
pub open spec fn slink_upto(m: Seq<Seq<u64>>, a: Seq<int>, b: Seq<int>, k: int) -> u64
    decreases k,
{
    if k <= 0 {
        u64::MAX
    } else {
        min2(slink_upto(m, a, b, k - 1), row_min(m, a[k - 1], b))
    }
}

/// Single-linkage distance between member lists `a` and `b`: the minimum
/// matrix entry over all pairs with one object from each list.
pub open spec fn slink(m: Seq<Seq<u64>>, a: Seq<int>, b: Seq<int>) -> u64 {
    slink_upto(m, a, b, a.len() as int)
}

/// Single-linkage distance between live clusters `i` and `j`.
pub open spec fn cdist(m: Seq<Seq<u64>>, cs: Seq<ClusterV>, i: int, j: int) -> u64 {
    slink(m, cs[i].members, cs[j].members)
}

/// The single-linkage distance is the least entry over member pairs, and is
/// attained by one of them.
pub proof fn lemma_row_min_is_min(m: Seq<Seq<u64>>, x: int, b: Seq<int>, k: int)
    requires
        1 <= k <= b.len(),
    ensures
        forall|y: int| 0 <= y < k ==> row_min_upto(m, x, b, k) <= m[x][#[trigger] b[y]],
        exists|y: int| 0 <= y < k && row_min_upto(m, x, b, k) == m[x][#[trigger] b[y]],
    decreases k,
{
    if k == 1 {
        assert(row_min_upto(m, x, b, 1) == m[x][b[0]]);
    } else {
        lemma_row_min_is_min(m, x, b, k - 1);
        let prev = row_min_upto(m, x, b, k - 1);
        if m[x][b[k - 1]] < prev {
            assert(row_min_upto(m, x, b, k) == m[x][b[k - 1]]);
        } else {
            let y0 = choose|y: int| 0 <= y < k - 1 && prev == m[x][#[trigger] b[y]];
            assert(row_min_upto(m, x, b, k) == m[x][b[y0]]);
        }
    }
}

/// See [`lemma_row_min_is_min`]: the same, over both member lists.
pub proof fn lemma_slink_is_min(m: Seq<Seq<u64>>, a: Seq<int>, b: Seq<int>)
    requires
        a.len() >= 1,
        b.len() >= 1,
    ensures
        forall|x: int, y: int|
            0 <= x < a.len() && 0 <= y < b.len()
                ==> slink(m, a, b) <= m[#[trigger] a[x]][#[trigger] b[y]],
        exists|x: int, y: int|
            0 <= x < a.len() && 0 <= y < b.len()
                && slink(m, a, b) == m[#[trigger] a[x]][#[trigger] b[y]],
{
    lemma_slink_upto_is_min(m, a, b, a.len() as int);
}

proof fn lemma_slink_upto_is_min(m: Seq<Seq<u64>>, a: Seq<int>, b: Seq<int>, k: int)
    requires
        1 <= k <= a.len(),
        b.len() >= 1,
    ensures
        forall|x: int, y: int|
            0 <= x < k && 0 <= y < b.len()
                ==> slink_upto(m, a, b, k) <= m[#[trigger] a[x]][#[trigger] b[y]],
        exists|x: int, y: int|
            0 <= x < k && 0 <= y < b.len()
                && slink_upto(m, a, b, k) == m[#[trigger] a[x]][#[trigger] b[y]],
    decreases k,
{
    lemma_row_min_is_min(m, a[k - 1], b, b.len() as int);
    let cur = row_min(m, a[k - 1], b);
    if k == 1 {
        assert(slink_upto(m, a, b, 1) == cur);
        let y0 = choose|y: int| 0 <= y < b.len() && cur == m[a[0]][#[trigger] b[y]];
        assert(slink_upto(m, a, b, k) == m[a[0]][b[y0]]);
    } else {
        lemma_slink_upto_is_min(m, a, b, k - 1);
        let prev = slink_upto(m, a, b, k - 1);
        assert forall|x: int, y: int| 0 <= x < k && 0 <= y < b.len()
            implies slink_upto(m, a, b, k) <= m[#[trigger] a[x]][#[trigger] b[y]] by {
            if x < k - 1 {
                assert(prev <= m[a[x]][b[y]]);
            } else {
                assert(cur <= m[a[x]][b[y]]);
            }
        }
        if cur < prev {
            let y0 = choose|y: int| 0 <= y < b.len() && cur == m[a[k - 1]][#[trigger] b[y]];
            assert(slink_upto(m, a, b, k) == m[a[k - 1]][b[y0]]);
        } else {
            let (x0, y0) = choose|x: int, y: int|
                0 <= x < k - 1 && 0 <= y < b.len() && prev == m[#[trigger] a[x]][#[trigger] b[y]];
            assert(slink_upto(m, a, b, k) == m[a[x0]][b[y0]]);
        }
    }
}

/// The pair scan over live positions: pairs `(x, y)` with `x < y` are
/// enumerated with ascending outer `x` and ascending inner `y`, starting at
/// `(i, j)`; the incumbent `(bi, bj)` is replaced only by a strictly smaller
/// single-linkage distance, so among equal minima the earliest pair wins.
pub open spec fn scan(m: Seq<Seq<u64>>, cs: Seq<ClusterV>, i: int, j: int, bi: int, bj: int) -> (
    int,
    int,
)
    decreases cs.len() - i, cs.len() - j,
{
    if i >= cs.len() - 1 {
        (bi, bj)
    } else if j >= cs.len() {
        scan(m, cs, i + 1, i + 2, bi, bj)
    } else if cdist(m, cs, i, j) < cdist(m, cs, bi, bj) {
        scan(m, cs, i, j + 1, i, j)
    } else {
        scan(m, cs, i, j + 1, bi, bj)
    }
}

/// The first pair of live positions attaining the minimal single-linkage
/// distance, under the deterministic enumeration of [`scan`].
pub open spec fn best_pair(m: Seq<Seq<u64>>, cs: Seq<ClusterV>) -> (int, int) {
    scan(m, cs, 0, 1, 0, 1)
}

/// The scan hands back a well-formed position pair.
pub proof fn lemma_scan_valid(m: Seq<Seq<u64>>, cs: Seq<ClusterV>, i: int, j: int, bi: int, bj: int)
    requires
        cs.len() >= 2,
        0 <= bi < bj < cs.len(),
        0 <= i,
        i + 1 <= j,
    ensures
        ({
            let p = scan(m, cs, i, j, bi, bj);
            0 <= p.0 < p.1 < cs.len()
        }),
    decreases cs.len() - i, cs.len() - j,
{
    if i >= cs.len() - 1 {
    } else if j >= cs.len() {
        lemma_scan_valid(m, cs, i + 1, i + 2, bi, bj);
    } else if cdist(m, cs, i, j) < cdist(m, cs, bi, bj) {
        lemma_scan_valid(m, cs, i, j + 1, i, j);
    } else {
        lemma_scan_valid(m, cs, i, j + 1, bi, bj);
    }
}

/// The pair the scan selects is at least as close as the incumbent and as
/// every pair enumerated from `(i, j)` on.
proof fn lemma_scan_min(m: Seq<Seq<u64>>, cs: Seq<ClusterV>, i: int, j: int, bi: int, bj: int)
    requires
        cs.len() >= 2,
        0 <= bi < bj < cs.len(),
        0 <= i,
        i + 1 <= j,
    ensures
        ({
            let p = scan(m, cs, i, j, bi, bj);
            cdist(m, cs, p.0, p.1) <= cdist(m, cs, bi, bj) && forall|x: int, y: int|
                0 <= x < y < cs.len() && (x > i || (x == i && y >= j))
                    ==> cdist(m, cs, p.0, p.1) <= #[trigger] cdist(m, cs, x, y)
        }),
    decreases cs.len() - i, cs.len() - j,
{
    if i >= cs.len() - 1 {
    } else if j >= cs.len() {
        lemma_scan_min(m, cs, i + 1, i + 2, bi, bj);
    } else if cdist(m, cs, i, j) < cdist(m, cs, bi, bj) {
        lemma_scan_min(m, cs, i, j + 1, i, j);
    } else {
        lemma_scan_min(m, cs, i, j + 1, bi, bj);
    }
}

/// The engine merges the two closest live clusters: the pair it selects
/// minimizes the single-linkage distance over all live pairs.
pub proof fn lemma_best_pair_min(m: Seq<Seq<u64>>, cs: Seq<ClusterV>)
    requires
        cs.len() >= 2,
    ensures
        ({
            let p = best_pair(m, cs);
            forall|x: int, y: int|
                0 <= x < y < cs.len() ==> cdist(m, cs, p.0, p.1) <= #[trigger] cdist(m, cs, x, y)
        }),
{
    lemma_scan_min(m, cs, 0, 1, 0, 1);
}

/// The live collection after merging positions `bi < bj`: both are removed,
/// higher position first, and the merged cluster is appended under the next
/// unused identifier with the two member lists concatenated in order.
pub open spec fn after_merge(cs: Seq<ClusterV>, bi: int, bj: int, next: int) -> Seq<ClusterV> {
    cs.remove(bj).remove(bi).push(
        ClusterV { id: next, members: cs[bi].members + cs[bj].members },
    )
}

/// The record one merge emits.
pub open spec fn step_record(m: Seq<Seq<u64>>, cs: Seq<ClusterV>) -> RecV {
    let p = best_pair(m, cs);
    RecV {
        id1: cs[p.0].id,
        id2: cs[p.1].id,
        dist: cdist(m, cs, p.0, p.1),
        size: (cs[p.0].members.len() + cs[p.1].members.len()) as int,
    }
}

/// The merge log from live clusters `cs` onward, `next` being the next
/// unused identifier: one record per merge until one cluster remains.
pub open spec fn merge_log(m: Seq<Seq<u64>>, cs: Seq<ClusterV>, next: int) -> Seq<RecV>
    decreases cs.len(),
{
    if cs.len() <= 1 {
        Seq::empty()
    } else {
        let p = best_pair(m, cs);
        if 0 <= p.0 < p.1 < cs.len() {
            seq![step_record(m, cs)] + merge_log(m, after_merge(cs, p.0, p.1, next), next + 1)
        } else {
            Seq::empty()
        }
    }
}

/// The `n` singleton clusters, one per object, in input order.
pub open spec fn initial_clusters(n: int) -> Seq<ClusterV> {
    Seq::new(n as nat, |i: int| ClusterV { id: i, members: seq![i] })
}

/// The full merge log of the engine for dissimilarity table `m`.
pub open spec fn linkage_log(m: Seq<Seq<u64>>) -> Seq<RecV> {
    merge_log(m, initial_clusters(m.len() as int), m.len() as int)
}

/// Well-formed live clusters for `n` objects: every cluster is non-empty,
/// holds object indices below `n`, and carries an identifier below `next`.
pub open spec fn cs_wf(cs: Seq<ClusterV>, n: int, next: int) -> bool {
    &&& forall|k: int| 0 <= k < cs.len() ==> (#[trigger] cs[k]).members.len() >= 1
    &&& forall|k: int| 0 <= k < cs.len() ==> 0 <= (#[trigger] cs[k]).id < next
    &&& forall|k: int, t: int|
        0 <= k < cs.len() && 0 <= t < cs[k].members.len() ==> 0 <= #[trigger] cs[k].members[t] < n
}

/// Total number of object indices held across the live clusters.
pub open spec fn total_members(cs: Seq<ClusterV>) -> int
    decreases cs.len(),
{
    if cs.len() == 0 {
        0
    } else {
        total_members(cs.drop_last()) + cs.last().members.len()
    }
}

pub proof fn lemma_total_nonneg(cs: Seq<ClusterV>)
    ensures
        total_members(cs) >= 0,
    decreases cs.len(),
{
    if cs.len() > 0 {
        lemma_total_nonneg(cs.drop_last());
    }
}

pub proof fn lemma_total_elem_le(cs: Seq<ClusterV>, k: int)
    requires
        0 <= k < cs.len(),
    ensures
        cs[k].members.len() <= total_members(cs),
    decreases cs.len(),
{
    if k == cs.len() - 1 {
        lemma_total_nonneg(cs.drop_last());
    } else {
        lemma_total_elem_le(cs.drop_last(), k);
    }
}

pub proof fn lemma_total_remove(cs: Seq<ClusterV>, k: int)
    requires
        0 <= k < cs.len(),
    ensures
        total_members(cs.remove(k)) == total_members(cs) - cs[k].members.len(),
    decreases cs.len(),
{
    if k == cs.len() - 1 {
        assert(cs.remove(k) =~= cs.drop_last());
    } else {
        assert(cs.remove(k).drop_last() =~= cs.drop_last().remove(k));
        assert(cs.remove(k).last() == cs.last());
        lemma_total_remove(cs.drop_last(), k);
        assert(total_members(cs.remove(k)) == total_members(cs.remove(k).drop_last())
            + cs.remove(k).last().members.len());
    }
}

/// Copy the single-linkage distance between member lists off the table.
fn pair_dist(m: &DistanceMatrix, a: &Vec<usize>, b: &Vec<usize>) -> (d: u64)
    requires
        square(m@),
        forall|t: int| 0 <= t < a@.len() ==> (#[trigger] a@[t]) < m@.len(),
        forall|t: int| 0 <= t < b@.len() ==> (#[trigger] b@[t]) < m@.len(),
    ensures
        d == slink(m@, to_ints(a@), to_ints(b@)),
{
    let ghost av = to_ints(a@);
    let ghost bv = to_ints(b@);
    let mut d: u64 = u64::MAX;
    let mut x: usize = 0;
    while x < a.len()
        invariant
            square(m@),
            forall|t: int| 0 <= t < a@.len() ==> (#[trigger] a@[t]) < m@.len(),
            forall|t: int| 0 <= t < b@.len() ==> (#[trigger] b@[t]) < m@.len(),
            av == to_ints(a@),
            bv == to_ints(b@),
            x <= a@.len(),
            d == slink_upto(m@, av, bv, x as int),
        decreases a@.len() - x,
    {
        let mut y: usize = 0;
        while y < b.len()
            invariant
                square(m@),
                forall|t: int| 0 <= t < a@.len() ==> (#[trigger] a@[t]) < m@.len(),
                forall|t: int| 0 <= t < b@.len() ==> (#[trigger] b@[t]) < m@.len(),
                av == to_ints(a@),
                bv == to_ints(b@),
                x < a@.len(),
                y <= b@.len(),
                d == min2(slink_upto(m@, av, bv, x as int), row_min_upto(m@, av[x as int], bv, y as int)),
            decreases b@.len() - y,
        {
            let e = m.get(a[x], b[y]);
            proof {
                assert(e == m@[av[x as int]][bv[y as int]]);
                assert(row_min_upto(m@, av[x as int], bv, y as int + 1)
                    == min2(row_min_upto(m@, av[x as int], bv, y as int), e));
            }
            if e < d {
                d = e;
            }
            y += 1;
        }
        proof {
            assert(bv.len() == b@.len());
            assert(row_min(m@, av[x as int], bv) == row_min_upto(m@, av[x as int], bv, b@.len() as int));
            assert(slink_upto(m@, av, bv, x as int + 1)
                == min2(slink_upto(m@, av, bv, x as int), row_min(m@, av[x as int], bv)));
        }
        x += 1;
    }
    proof {
        assert(av.len() == a@.len());
    }
    d
}

/// Append a copy of `src` to `dst`.
fn copy_members(dst: &mut Vec<usize>, src: &Vec<usize>)
    ensures
        final(dst)@ == old(dst)@ + src@,
{
    assert(dst@ =~= old(dst)@ + src@.take(0));
    let mut t: usize = 0;
    while t < src.len()
        invariant
            t <= src@.len(),
            dst@ == old(dst)@ + src@.take(t as int),
        decreases src@.len() - t,
    {
        dst.push(src[t]);
        assert(old(dst)@ + src@.take(t as int) + seq![src@[t as int]]
            =~= old(dst)@ + src@.take(t as int + 1));
        t += 1;
    }
    assert(src@.take(src@.len() as int) =~= src@);
}

/// The agglomerative merge engine (single linkage).
///
/// Starting from one singleton cluster per object it repeatedly merges the
/// two closest live clusters — ties resolved by the deterministic
/// enumeration order of [`scan`] — and emits one [`LinkageRecord`] per
/// merge, until a single cluster holding every object remains.
pub struct MergeEngine;

impl MergeEngine {
    /// Run the merge process to completion on dissimilarity table `m` and
    /// hand back the merge log: a pure function of the table, so repeated
    /// runs on the same input give identical logs.
    pub fn run(m: &DistanceMatrix) -> (records: Vec<LinkageRecord>)
        requires
            m.wf(),
            m@.len() >= 1,
            2 * m@.len() <= usize::MAX,
        ensures
            recs_view(records@) == linkage_log(m@),
            records@.len() == m@.len() - 1,
    {
        let n = m.dim();
        let ghost nn = n as int;
        let mut clusters: Vec<Cluster> = Vec::new();
        let mut i: usize = 0;
        while i < n
            invariant
                nn == n as int,
                i <= n,
                clusters@.len() == i,
                forall|k: int|
                    0 <= k < i ==> (#[trigger] clusters@[k])@ == initial_clusters(nn)[k],
            decreases n - i,
        {
            let mut mem: Vec<usize> = Vec::new();
            mem.push(i);
            clusters.push(Cluster { id: i, members: mem });
            proof {
                assert(to_ints(clusters@[i as int].members@) =~= seq![i as int]);
                assert(clusters@[i as int]@ =~= initial_clusters(nn)[i as int]);
            }
            i += 1;
        }
        proof {
            assert(cls_view(clusters@) =~= initial_clusters(nn));
            lemma_initial_total(nn);
        }
        let mut records: Vec<LinkageRecord> = Vec::new();
        let mut next_id: usize = n;
        proof {
            assert(recs_view(records@).len() == 0);
            assert(recs_view(records@) + linkage_log(m@) =~= linkage_log(m@));
        }
        while clusters.len() > 1
            invariant
                m.wf(),
                square(m@),
                m@.len() == nn,
                nn >= 1,
                2 * nn <= usize::MAX,
                clusters@.len() >= 1,
                cs_wf(cls_view(clusters@), nn, next_id as int),
                total_members(cls_view(clusters@)) == nn,
                next_id as int == 2 * nn - clusters@.len(),
                records@.len() == nn - clusters@.len(),
                recs_view(records@) + merge_log(m@, cls_view(clusters@), next_id as int)
                    == linkage_log(m@),
            decreases clusters@.len(),
        {
            let len = clusters.len();
            let ghost cs = cls_view(clusters@);
            proof {
                assert forall|k: int, t: int|
                    0 <= k < len && 0 <= t < clusters@[k].members@.len()
                        implies (#[trigger] clusters@[k].members@[t]) < nn by {
                    assert(cs[k].members[t] == clusters@[k].members@[t] as int);
                }
                assert forall|k: int| 0 <= k < len
                    implies (#[trigger] clusters@[k]).members@.len() >= 1 by {
                    assert(cs[k].members.len() == clusters@[k].members@.len());
                }
            }
            let mut bi: usize = 0;
            let mut bj: usize = 1;
            let mut bd: u64 = pair_dist(m, &clusters[0].members, &clusters[1].members);
            proof {
                assert(to_ints(clusters@[0].members@) == cs[0].members);
                assert(to_ints(clusters@[1].members@) == cs[1].members);
                assert(bd == cdist(m@, cs, 0, 1));
            }
            let mut i: usize = 0;
            while i < len - 1
                invariant
                    m.wf(),
                    square(m@),
                    m@.len() == nn,
                    len == clusters@.len(),
                    2 <= len,
                    cs == cls_view(clusters@),
                    forall|k: int, t: int|
                        0 <= k < len && 0 <= t < clusters@[k].members@.len()
                            ==> (#[trigger] clusters@[k].members@[t]) < nn,
                    forall|k: int| 0 <= k < len ==> (#[trigger] clusters@[k]).members@.len() >= 1,
                    i <= len - 1,
                    bi < bj < len,
                    bd == cdist(m@, cs, bi as int, bj as int),
                    scan(m@, cs, i as int, i as int + 1, bi as int, bj as int) == best_pair(m@, cs),
                decreases len - i,
            {
                let mut j: usize = i + 1;
                while j < len
                    invariant
                        m.wf(),
                        square(m@),
                        m@.len() == nn,
                        len == clusters@.len(),
                        2 <= len,
                        cs == cls_view(clusters@),
                        forall|k: int, t: int|
                            0 <= k < len && 0 <= t < clusters@[k].members@.len()
                                ==> (#[trigger] clusters@[k].members@[t]) < nn,
                        forall|k: int| 0 <= k < len ==> (#[trigger] clusters@[k]).members@.len() >= 1,
                        i < len - 1,
                        i + 1 <= j <= len,
                        bi < bj < len,
                        bd == cdist(m@, cs, bi as int, bj as int),
                        scan(m@, cs, i as int, j as int, bi as int, bj as int) == best_pair(m@, cs),
                    decreases len - j,
                {
                    let d = pair_dist(m, &clusters[i].members, &clusters[j].members);
                    proof {
                        assert(to_ints(clusters@[i as int].members@) == cs[i as int].members);
                        assert(to_ints(clusters@[j as int].members@) == cs[j as int].members);
                        assert(d == cdist(m@, cs, i as int, j as int));
                    }
                    if d < bd {
                        bi = i;
                        bj = j;
                        bd = d;
                    }
                    j += 1;
                }
                i += 1;
            }
            proof {
                assert(best_pair(m@, cs) == (bi as int, bj as int));
            }
            let ghost ni = next_id as int;
            let id1 = clusters[bi].id;
            let id2 = clusters[bj].id;
            let s1 = clusters[bi].members.len();
            let s2 = clusters[bj].members.len();
            proof {
                lemma_total_remove(cs, bj as int);
                assert(cs.remove(bj as int)[bi as int] == cs[bi as int]);
                lemma_total_elem_le(cs.remove(bj as int), bi as int);
                assert(s1 + s2 <= nn);
            }
            let size = s1 + s2;
            records.push(LinkageRecord { id1, id2, dist: bd, size });
            let mut nm: Vec<usize> = Vec::new();
            copy_members(&mut nm, &clusters[bi].members);
            copy_members(&mut nm, &clusters[bj].members);
            let ghost old_clusters = clusters@;
            let ghost old_records_view = recs_view(records@.drop_last());
            clusters.remove(bj);
            clusters.remove(bi);
            clusters.push(Cluster { id: next_id, members: nm });
            proof {
                let cs2 = after_merge(cs, bi as int, bj as int, ni);
                old_clusters.remove_ensures(bj as int);
                old_clusters.remove(bj as int).remove_ensures(bi as int);
                cs.remove_ensures(bj as int);
                cs.remove(bj as int).remove_ensures(bi as int);
                assert(to_ints(nm@) =~= cs[bi as int].members + cs[bj as int].members);
                assert forall|k: int| 0 <= k < clusters@.len()
                    implies cls_view(clusters@)[k] == cs2[k] by {
                    if k < clusters@.len() - 1 {
                        assert(clusters@[k] == old_clusters.remove(bj as int).remove(bi as int)[k]);
                    } else {
                        assert(clusters@[k] == Cluster { id: next_id, members: nm });
                        assert(cls_view(clusters@)[k] =~= cs2[k]);
                    }
                }
                assert(cls_view(clusters@) =~= cs2);
                // the merge log of the old state unfolds into this record
                // followed by the log of the new state
                let rec = step_record(m@, cs);
                assert(records@.last()@ == rec);
                assert(merge_log(m@, cs, ni) == seq![rec] + merge_log(m@, cs2, ni + 1));
                assert(recs_view(records@) =~= old_records_view + seq![rec]);
                assert(old_records_view + seq![rec] + merge_log(m@, cs2, ni + 1)
                    =~= old_records_view + (seq![rec] + merge_log(m@, cs2, ni + 1)));
                // total member count is conserved by a merge
                lemma_total_remove(cs, bj as int);
                lemma_total_remove(cs.remove(bj as int), bi as int);
                assert(cs2.drop_last() =~= cs.remove(bj as int).remove(bi as int));
                assert(total_members(cs2) == total_members(cs2.drop_last()) + cs2.last().members.len());
            }
            next_id += 1;
        }
        proof {
            assert(merge_log(m@, cls_view(clusters@), next_id as int) == Seq::<RecV>::empty());
            assert(recs_view(records@) + Seq::<RecV>::empty() =~= recs_view(records@));
        }
        records
    }
}

/// The singletons hold the `n` objects once each.
pub proof fn lemma_initial_total(n: int)
    requires
        n >= 0,
    ensures
        total_members(initial_clusters(n)) == n,
    decreases n,
{
    if n > 0 {
        assert(initial_clusters(n).drop_last() =~= initial_clusters(n - 1));
        lemma_initial_total(n - 1);
    }
}

} // verus!
