use vstd::prelude::*;
use vstd::seq_lib::lemma_multiset_commutative;
use crate::engine::{
    after_merge, best_pair, cdist, cs_wf, initial_clusters, lemma_initial_total, lemma_scan_valid,
    lemma_total_elem_le, lemma_total_remove, linkage_log, merge_log, slink, step_record,
    total_members, ClusterV, RecV,
};

verus! {

/// The object indices `0 .. n-1`, in order.
pub open spec fn object_indices(n: int) -> Seq<int> {
    Seq::new(n as nat, |i: int| i)
}

/// Concatenation of all live member lists.
pub open spec fn all_members(cs: Seq<ClusterV>) -> Seq<int>
    decreases cs.len(),
{
    if cs.len() == 0 {
        Seq::empty()
    } else {
        all_members(cs.drop_last()) + cs.last().members
    }
}

/// Removing one cluster takes exactly its members out of the pool.
proof fn lemma_all_members_remove(cs: Seq<ClusterV>, k: int)
    requires
        0 <= k < cs.len(),
    ensures
        all_members(cs).to_multiset() =~= all_members(cs.remove(k)).to_multiset().add(
            cs[k].members.to_multiset(),
        ),
    decreases cs.len(),
{
    broadcast use vstd::multiset::group_multiset_axioms;

    lemma_multiset_commutative(all_members(cs.drop_last()), cs.last().members);
    if k == cs.len() - 1 {
        assert(cs.remove(k) =~= cs.drop_last());
    } else {
        assert(cs.remove(k).drop_last() =~= cs.drop_last().remove(k));
        assert(cs.remove(k).last() == cs.last());
        assert(cs.drop_last()[k] == cs[k]);
        lemma_all_members_remove(cs.drop_last(), k);
        lemma_multiset_commutative(
            all_members(cs.remove(k).drop_last()),
            cs.remove(k).last().members,
        );
        assert(all_members(cs.remove(k)) == all_members(cs.remove(k).drop_last())
            + cs.remove(k).last().members);
    }
}

/// The singletons hold exactly the object indices, in order.
proof fn lemma_initial_all_members(n: int)
    requires
        n >= 0,
    ensures
        all_members(initial_clusters(n)) =~= object_indices(n),
    decreases n,
{
    if n > 0 {
        assert(initial_clusters(n).drop_last() =~= initial_clusters(n - 1));
        lemma_initial_all_members(n - 1);
        assert(all_members(initial_clusters(n)) == all_members(initial_clusters(n).drop_last())
            + initial_clusters(n).last().members);
    }
}

/// Identifiers are in range: record `k` names only clusters that exist
/// before merge `k`, that is identifiers below `n + k`.
pub open spec fn recs_wf(recs: Seq<RecV>, n: int) -> bool {
    forall|k: int|
        0 <= k < recs.len() ==> 0 <= (#[trigger] recs[k]).id1 < n + k && 0 <= recs[k].id2 < n + k
}

/// The member list of cluster `id`, read off a merge log for `n` objects:
/// identifiers below `n` are the singleton objects in input order, and
/// identifier `n + k` — the cluster created by merge `k`, so the newly
/// created identifiers are `n, n + 1, ...` strictly increasing in merge
/// order — holds the members of the two clusters record `k` merged, in
/// order.
pub open spec fn members_of(recs: Seq<RecV>, n: int, id: int) -> Seq<int>
    decreases id,
{
    if id < n {
        seq![id]
    } else if n >= 1 && id - n < recs.len() && 0 <= recs[id - n].id1 < id && 0 <= recs[id - n].id2
        < id {
        members_of(recs, n, recs[id - n].id1) + members_of(recs, n, recs[id - n].id2)
    } else {
        Seq::empty()
    }
}

/// A cluster's member list only depends on the records up to the merge that
/// created it, so extending the log does not change it.
proof fn lemma_members_of_prefix(recs: Seq<RecV>, ext: Seq<RecV>, n: int, id: int)
    requires
        recs.len() <= ext.len(),
        forall|k: int| 0 <= k < recs.len() ==> #[trigger] ext[k] == recs[k],
        id < n + recs.len(),
    ensures
        members_of(ext, n, id) == members_of(recs, n, id),
    decreases id,
{
    if id < n {
    } else {
        assert(ext[id - n] == recs[id - n]);
        if n >= 1 && id - n < recs.len() && 0 <= recs[id - n].id1 < id && 0 <= recs[id - n].id2
            < id {
            lemma_members_of_prefix(recs, ext, n, recs[id - n].id1);
            lemma_members_of_prefix(recs, ext, n, recs[id - n].id2);
        }
    }
}

/// The inductive heart of the merge-log theorems: starting from any
/// well-formed live state whose clusters' member lists match the already
/// emitted log `done`, the completed log keeps identifiers in range, emits
/// one record per merge, each record carries the true single-linkage
/// distance and the true member count of the merged cluster, and the
/// cluster left at the end holds every object exactly once.
proof fn lemma_merge_log_props(m: Seq<Seq<u64>>, cs: Seq<ClusterV>, done: Seq<RecV>, n: int)
    requires
        n >= 1,
        cs.len() >= 1,
        cs_wf(cs, n, n + done.len()),
        total_members(cs) == n,
        recs_wf(done, n),
        forall|k: int|
            0 <= k < cs.len() ==> (#[trigger] cs[k]).members == members_of(done, n, cs[k].id),
        cs.last().id == n + done.len() - 1,
        all_members(cs).to_multiset() == object_indices(n).to_multiset(),
    ensures
        ({
            let full = done + merge_log(m, cs, n + done.len());
            &&& full.len() == done.len() + cs.len() - 1
            &&& recs_wf(full, n)
            &&& forall|k: int|
                done.len() <= k < full.len() ==> (#[trigger] full[k]).dist == slink(
                    m,
                    members_of(full, n, full[k].id1),
                    members_of(full, n, full[k].id2),
                )
            &&& forall|k: int|
                done.len() <= k < full.len() ==> (#[trigger] full[k]).size == members_of(
                    full,
                    n,
                    full[k].id1,
                ).len() + members_of(full, n, full[k].id2).len()
            &&& forall|k: int|
                done.len() <= k < full.len() ==> 2 <= (#[trigger] full[k]).size <= n
            &&& cs.len() >= 2 ==> full[full.len() - 1].size == n
            &&& members_of(full, n, n + full.len() - 1).to_multiset() == object_indices(
                n,
            ).to_multiset()
        }),
    decreases cs.len(),
{
    broadcast use vstd::multiset::group_multiset_axioms;

    let next = n + done.len();
    if cs.len() == 1 {
        assert(merge_log(m, cs, next) == Seq::<RecV>::empty());
        assert(done + merge_log(m, cs, next) =~= done);
        assert(all_members(cs) == all_members(cs.drop_last()) + cs.last().members);
        assert(all_members(cs.drop_last()) + cs.last().members =~= cs[0].members);
        assert(members_of(done, n, cs[0].id) == cs[0].members);
    } else {
        lemma_scan_valid(m, cs, 0, 1, 0, 1);
        let p = best_pair(m, cs);
        let bi = p.0;
        let bj = p.1;
        let rec = step_record(m, cs);
        let cs2 = after_merge(cs, bi, bj, next);
        let done2 = done.push(rec);
        cs.remove_ensures(bj);
        cs.remove(bj).remove_ensures(bi);
        lemma_total_remove(cs, bj);
        lemma_total_elem_le(cs.remove(bj), bi);
        lemma_total_remove(cs.remove(bj), bi);
        assert(cs2.drop_last() =~= cs.remove(bj).remove(bi));
        assert(total_members(cs2) == total_members(cs2.drop_last()) + cs2.last().members.len());
        assert(total_members(cs2) == n);
        assert(recs_wf(done2, n));
        // the new state is well formed and its member lists match `done2`
        assert(cs2.len() == cs.len() - 1);
        assert forall|k: int| 0 <= k < cs2.len() implies (#[trigger] cs2[k]).members.len() >= 1
            && 0 <= cs2[k].id < n + done2.len() && (forall|t: int|
            0 <= t < cs2[k].members.len() ==> 0 <= #[trigger] cs2[k].members[t] < n) by {
            if k < cs2.len() - 1 {
                if k < bi {
                    assert(cs2[k] == cs[k]);
                } else if k < bj - 1 {
                    assert(cs2[k] == cs[k + 1]);
                } else {
                    assert(cs2[k] == cs[k + 2]);
                }
            } else {
                assert(cs2[k].members == cs[bi].members + cs[bj].members);
            }
        }
        assert forall|k: int| 0 <= k < cs2.len() implies (#[trigger] cs2[k]).members == members_of(
            done2,
            n,
            cs2[k].id,
        ) by {
            if k < cs2.len() - 1 {
                let old_k: int = if k < bi {
                    k
                } else if k < bj - 1 {
                    k + 1
                } else {
                    k + 2
                };
                assert(cs2[k] == cs[old_k]);
                lemma_members_of_prefix(done, done2, n, cs[old_k].id);
            } else {
                assert(done2[next - n] == rec);
                assert(0 <= rec.id1 < next && 0 <= rec.id2 < next);
                lemma_members_of_prefix(done, done2, n, rec.id1);
                lemma_members_of_prefix(done, done2, n, rec.id2);
                assert(members_of(done2, n, next) == members_of(done2, n, rec.id1) + members_of(
                    done2,
                    n,
                    rec.id2,
                ));
                assert(members_of(done, n, rec.id1) == cs[bi].members);
                assert(members_of(done, n, rec.id2) == cs[bj].members);
            }
        }
        // one merge keeps the pool of object indices intact
        lemma_all_members_remove(cs, bj);
        lemma_all_members_remove(cs.remove(bj), bi);
        assert(all_members(cs2) == all_members(cs2.drop_last()) + cs2.last().members);
        lemma_multiset_commutative(all_members(cs2.drop_last()), cs2.last().members);
        lemma_multiset_commutative(cs[bi].members, cs[bj].members);
        assert(cs2.last().members == cs[bi].members + cs[bj].members);
        assert(all_members(cs2).to_multiset() =~= object_indices(n).to_multiset());
        lemma_merge_log_props(m, cs2, done2, n);
        let full = done + merge_log(m, cs, next);
        let full2 = done2 + merge_log(m, cs2, next + 1);
        assert(merge_log(m, cs, next) == seq![rec] + merge_log(m, cs2, next + 1));
        assert(full =~= full2);
        // the record emitted by this merge carries the true distance and size
        assert(full[done.len() as int] == rec);
        lemma_members_of_prefix(done, full, n, rec.id1);
        lemma_members_of_prefix(done, full, n, rec.id2);
        assert(rec.dist == cdist(m, cs, bi, bj));
        assert(rec.dist == slink(m, members_of(full, n, rec.id1), members_of(full, n, rec.id2)));
        assert(rec.size == cs[bi].members.len() + cs[bj].members.len());
        assert(2 <= rec.size <= n);
        if cs.len() == 2 {
            assert(full[full.len() - 1] == rec);
            assert(total_members(cs) == total_members(cs.drop_last()) + cs[1].members.len());
            assert(total_members(cs.drop_last()) == total_members(cs.drop_last().drop_last())
                + cs[0].members.len());
            assert(bi == 0 && bj == 1);
            assert(rec.size == n);
        } else {
            assert(full2[full2.len() - 1].size == n);
        }
    }
}

/// Package of the initial state: the singletons are a well-formed live
/// collection whose member lists match the empty log.
proof fn lemma_linkage_setup(m: Seq<Seq<u64>>)
    requires
        m.len() >= 1,
    ensures
        ({
            let n = m.len() as int;
            let recs = linkage_log(m);
            &&& recs.len() == n - 1
            &&& recs_wf(recs, n)
            &&& forall|k: int|
                0 <= k < recs.len() ==> (#[trigger] recs[k]).dist == slink(
                    m,
                    members_of(recs, n, recs[k].id1),
                    members_of(recs, n, recs[k].id2),
                )
            &&& forall|k: int|
                0 <= k < recs.len() ==> (#[trigger] recs[k]).size == members_of(
                    recs,
                    n,
                    recs[k].id1,
                ).len() + members_of(recs, n, recs[k].id2).len()
            &&& forall|k: int| 0 <= k < recs.len() ==> 2 <= (#[trigger] recs[k]).size <= n
            &&& n >= 2 ==> recs[n - 2].size == n
            &&& members_of(recs, n, 2 * n - 2).to_multiset() == object_indices(n).to_multiset()
        }),
{
    let n = m.len() as int;
    let cs = initial_clusters(n);
    let done = Seq::<RecV>::empty();
    lemma_initial_total(n);
    assert forall|k: int| 0 <= k < cs.len() implies (#[trigger] cs[k]).members == members_of(
        done,
        n,
        cs[k].id,
    ) by {
        assert(cs[k].members =~= seq![k]);
        assert(members_of(done, n, k) == seq![k]);
    }
    assert(cs_wf(cs, n, n));
    lemma_initial_all_members(n);
    assert(cs.last().id == n - 1);
    lemma_merge_log_props(m, cs, done, n);
    assert(done + merge_log(m, cs, n) =~= linkage_log(m));
}

/// For `n` objects the engine emits exactly `n - 1` records (none when
/// `n == 1`).
pub proof fn lemma_linkage_count(m: Seq<Seq<u64>>)
    requires
        m.len() >= 1,
    ensures
        linkage_log(m).len() == m.len() - 1,
{
    lemma_linkage_setup(m);
}

/// Identifiers in emitted records: record `k` names identifiers below
/// `n + k`; in particular every identifier lies in `[0, 2n - 2]`.
pub proof fn lemma_linkage_ids(m: Seq<Seq<u64>>)
    requires
        m.len() >= 1,
    ensures
        recs_wf(linkage_log(m), m.len() as int),
        forall|k: int|
            0 <= k < linkage_log(m).len() ==> 0 <= (#[trigger] linkage_log(m)[k]).id1 <= 2 * m.len()
                - 2 && 0 <= linkage_log(m)[k].id2 <= 2 * m.len() - 2,
{
    lemma_linkage_setup(m);
}

/// Every record's size field is the member count of the cluster the merge
/// created — the counts of the two merged clusters added — and the final
/// record's size is `n`: the last cluster holds every object.
pub proof fn lemma_linkage_sizes(m: Seq<Seq<u64>>)
    requires
        m.len() >= 1,
    ensures
        forall|k: int|
            0 <= k < linkage_log(m).len() ==> (#[trigger] linkage_log(m)[k]).size == members_of(
                linkage_log(m),
                m.len() as int,
                linkage_log(m)[k].id1,
            ).len() + members_of(linkage_log(m), m.len() as int, linkage_log(m)[k].id2).len(),
        forall|k: int|
            0 <= k < linkage_log(m).len() ==> 2 <= (#[trigger] linkage_log(m)[k]).size <= m.len(),
        m.len() >= 2 ==> linkage_log(m)[m.len() - 2].size == m.len(),
{
    lemma_linkage_setup(m);
}

/// The cluster left after all merges — identifier `2n - 2`, created by the
/// last merge — holds every object exactly once: its member list is a
/// permutation of `0 .. n-1`.
pub proof fn lemma_linkage_final_members(m: Seq<Seq<u64>>)
    requires
        m.len() >= 1,
    ensures
        members_of(linkage_log(m), m.len() as int, 2 * m.len() - 2).to_multiset()
            == object_indices(m.len() as int).to_multiset(),
{
    lemma_linkage_setup(m);
}

/// Every emitted distance is the true minimum pairwise distance between the
/// member lists of the two merged clusters, recomputed from the table: see
/// [`crate::engine::lemma_slink_is_min`] for the minimum reading of
/// [`slink`].
pub proof fn lemma_linkage_distances(m: Seq<Seq<u64>>)
    requires
        m.len() >= 1,
    ensures
        forall|k: int|
            0 <= k < linkage_log(m).len() ==> (#[trigger] linkage_log(m)[k]).dist == slink(
                m,
                members_of(linkage_log(m), m.len() as int, linkage_log(m)[k].id1),
                members_of(linkage_log(m), m.len() as int, linkage_log(m)[k].id2),
            ),
{
    lemma_linkage_setup(m);
}

} // verus!
