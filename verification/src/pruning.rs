//! What pruning the store removes: contents no snapshot refers to, and
//! snapshots beyond the newest ones to keep.
use vstd::prelude::*;
use crate::paths::{join_path, string_views};
use crate::snapshot_walker::{item_view, snapshot_items, walk_all_files_in_snapshot, SnapshotWalkerItem};
use crate::snapshots::snapshot::Snapshot;
use crate::store_cache::hash_db::HashDB;
use crate::text::{sort_texts, text_order};

verus! {

/// The hashes the entries of a snapshot refer to.
pub open spec fn snapshot_hashes(s: Snapshot) -> Set<Seq<char>> {
    Set::new(|h: Seq<char>| exists|i: int| 0 <= i < snapshot_items(s).len() && #[trigger] snapshot_items(s)[i].2 == h)
}

/// The hashes some snapshot of `snapshots` refers to.
pub open spec fn referenced_hashes(snapshots: Seq<Snapshot>) -> Set<Seq<char>> {
    Set::new(|h: Seq<char>| exists|k: int| 0 <= k < snapshots.len() && #[trigger] snapshot_hashes(snapshots[k]).contains(h))
}

/// The hashes of the first `n` items.
pub open spec fn item_hashes(items: Seq<(Seq<char>, Seq<char>, Seq<char>)>, n: int) -> Set<Seq<char>> {
    Set::new(|h: Seq<char>| exists|i: int| 0 <= i < n && #[trigger] items[i].2 == h)
}

/// Adds the hashes of all items of `items` to `used`.
fn add_item_hashes(used: &mut HashDB, items: &Vec<SnapshotWalkerItem>)
    ensures
        final(used).contents() == old(used).contents().union(
            item_hashes(items@.map_values(|x: SnapshotWalkerItem| item_view(x)), items@.len() as int),
        ),
{
    let ghost views = items@.map_values(|x: SnapshotWalkerItem| item_view(x));
    let ghost start = used.contents();
    let mut j: usize = 0;
    proof {
        assert(start.union(item_hashes(views, 0)) =~= start);
    }
    while j < items.len()
        invariant
            j <= items@.len(),
            views == items@.map_values(|x: SnapshotWalkerItem| item_view(x)),
            used.contents() == start.union(item_hashes(views, j as int)),
        decreases items@.len() - j,
    {
        let h = items[j].hash_str.clone();
        used.insert(h);
        proof {
            assert(views[j as int].2 == items@[j as int].hash_str@);
            assert forall|x: Seq<char>| #[trigger] item_hashes(views, j + 1).contains(x) <==> (
            item_hashes(views, j as int).contains(x) || x == views[j as int].2) by {
                if item_hashes(views, j + 1).contains(x) {
                    let i = choose|i: int| 0 <= i < j + 1 && #[trigger] views[i].2 == x;
                    if i < j {
                        assert(item_hashes(views, j as int).contains(x));
                    }
                }
            }
            assert(used.contents() =~= start.union(item_hashes(views, j + 1)));
        }
        j = j + 1;
    }
}

/// A hash recorded in an entry of any snapshot is referenced by the snapshots,
/// so pruning never takes it for unused.
pub proof fn lemma_entry_hash_referenced(snapshots: Seq<Snapshot>, k: int, root_id: Seq<char>, file_id: Seq<char>)
    requires
        0 <= k < snapshots.len(),
        snapshots[k].wf(),
        snapshots[k].spec_entry(root_id, file_id) is Some,
    ensures
        referenced_hashes(snapshots).contains(snapshots[k].spec_entry(root_id, file_id)->Some_0.spec_hash()),
{
    let s = snapshots[k];
    let h = s.spec_entry(root_id, file_id)->Some_0.spec_hash();
    crate::snapshot_walker::lemma_walk_covers_every_entry(s, root_id, file_id);
    let idx = choose|idx: int|
        0 <= idx < snapshot_items(s).len() && #[trigger] snapshot_items(s)[idx] == (
            s.spec_root_definition(root_id)->Some_0.spec_name(),
            join_path(s.spec_root_definition(root_id)->Some_0.spec_path(), file_id),
            h,
        );
    assert(snapshot_items(s)[idx].2 == h);
    assert(snapshot_hashes(s).contains(h));
    assert(snapshot_hashes(snapshots[k]).contains(h));
}

/// The stored hashes that no snapshot refers to, each once. A hash some
/// snapshot refers to is never among them.
pub fn get_unused_hashes_to_prune(stored_hashes: HashDB, snapshots: &Vec<Snapshot>) -> (r: Vec<String>)
    requires
        forall|k: int| 0 <= k < snapshots@.len() ==> (#[trigger] snapshots@[k]).wf(),
    ensures
        forall|i: int, j: int| 0 <= i < j < r@.len() ==> r@[i]@ != r@[j]@,
        forall|h: Seq<char>| (exists|i: int| 0 <= i < r@.len() && #[trigger] r@[i]@ == h) <==> (
        stored_hashes.contents().contains(h) && !referenced_hashes(snapshots@).contains(h)),
        forall|k: int, root_id: Seq<char>, file_id: Seq<char>, i: int|
            0 <= k < snapshots@.len() && (#[trigger] snapshots@[k].spec_entry(root_id, file_id)) is Some
                && 0 <= i < r@.len() ==> #[trigger] r@[i]@ != snapshots@[k].spec_entry(
                root_id,
                file_id,
            )->Some_0.spec_hash(),
{
    let mut used = HashDB::empty();
    let mut k: usize = 0;
    proof {
        assert(used.contents() =~= referenced_hashes(snapshots@.take(0)));
    }
    while k < snapshots.len()
        invariant
            k <= snapshots@.len(),
            forall|q: int| 0 <= q < snapshots@.len() ==> (#[trigger] snapshots@[q]).wf(),
            used.contents() == referenced_hashes(snapshots@.take(k as int)),
        decreases snapshots@.len() - k,
    {
        let items = walk_all_files_in_snapshot(&snapshots[k]);
        let ghost before = used.contents();
        add_item_hashes(&mut used, &items);
        proof {
            let views = items@.map_values(|x: SnapshotWalkerItem| item_view(x));
            assert(item_hashes(views, views.len() as int) =~= snapshot_hashes(snapshots@[k as int]));
            let next = snapshots@.take(k + 1);
            assert forall|h: Seq<char>| #[trigger] referenced_hashes(next).contains(h) <==> (before.contains(h)
                || snapshot_hashes(snapshots@[k as int]).contains(h)) by {
                if referenced_hashes(next).contains(h) {
                    let q = choose|q: int| 0 <= q < next.len() && #[trigger] snapshot_hashes(next[q]).contains(h);
                    if q < k {
                        assert(snapshot_hashes(snapshots@.take(k as int)[q]).contains(h));
                    }
                }
                if before.contains(h) {
                    let q = choose|q: int| 0 <= q < k && #[trigger] snapshot_hashes(snapshots@.take(k as int)[q]).contains(h);
                    assert(snapshot_hashes(next[q]).contains(h));
                }
                if snapshot_hashes(snapshots@[k as int]).contains(h) {
                    assert(snapshot_hashes(next[k as int]).contains(h));
                }
            }
            assert(used.contents() =~= referenced_hashes(next));
        }
        k = k + 1;
    }
    proof {
        assert(snapshots@.take(snapshots@.len() as int) =~= snapshots@);
    }
    let ghost stored = stored_hashes.contents();
    let all = stored_hashes.into_hashset();
    let mut out: Vec<String> = Vec::new();
    let mut i: usize = 0;
    while i < all.len()
        invariant
            i <= all@.len(),
            used.contents() == referenced_hashes(snapshots@),
            forall|a: int, b: int| 0 <= a < b < all@.len() ==> all@[a]@ != all@[b]@,
            forall|x: Seq<char>| stored.contains(x) <==> exists|a: int| 0 <= a < all@.len() && #[trigger] all@[a]@ == x,
            forall|a: int| #![trigger out@[a]] 0 <= a < out@.len() ==> exists|b: int| 0 <= b < i && #[trigger] all@[b]@ == out@[a]@,
            forall|a: int, b: int| 0 <= a < b < out@.len() ==> out@[a]@ != out@[b]@,
            forall|b: int| 0 <= b < i ==> (!used.contents().contains(#[trigger] all@[b]@) <==> exists|a: int| 0 <= a < out@.len() && out@[a]@ == all@[b]@),
            forall|a: int| 0 <= a < out@.len() ==> !used.contents().contains(#[trigger] out@[a]@),
        decreases all@.len() - i,
    {
        let h = &all[i];
        if !used.contains(h.as_str()) {
            let ghost before = out@;
            out.push(h.clone());
            proof {
                assert forall|a: int| 0 <= a < before.len() implies out@[a]@ != h@ by {
                    let b = choose|b: int| 0 <= b < i && #[trigger] all@[b]@ == before[a]@;
                    assert(out@[a] == before[a]);
                }
                assert(out@[before.len() as int] == *h);
                assert forall|a: int| #![trigger out@[a]] 0 <= a < out@.len() implies exists|b: int| 0 <= b < i + 1 && #[trigger] all@[b]@ == out@[a]@ by {
                    if a < before.len() {
                        assert(out@[a] == before[a]);
                        let b = choose|b: int| 0 <= b < i && #[trigger] all@[b]@ == before[a]@;
                        assert(all@[b]@ == out@[a]@);
                    } else {
                        assert(all@[i as int]@ == out@[a]@);
                    }
                }
                assert forall|b: int| 0 <= b < i + 1 implies (!used.contents().contains(#[trigger] all@[b]@) <==> exists|a: int| 0 <= a < out@.len() && out@[a]@ == all@[b]@) by {
                    if b < i {
                        if exists|a: int| 0 <= a < before.len() && before[a]@ == all@[b]@ {
                            let a = choose|a: int| 0 <= a < before.len() && before[a]@ == all@[b]@;
                            assert(out@[a] == before[a]);
                        }
                        if exists|a: int| 0 <= a < out@.len() && out@[a]@ == all@[b]@ {
                            let a = choose|a: int| 0 <= a < out@.len() && out@[a]@ == all@[b]@;
                            if a < before.len() {
                                assert(out@[a] == before[a]);
                            }
                        }
                    } else {
                        assert(out@[before.len() as int]@ == all@[b]@);
                    }
                }
            }
        } else {
            proof {
                assert forall|a: int| 0 <= a < out@.len() implies out@[a]@ != all@[i as int]@ by {
                    assert(!used.contents().contains(out@[a]@));
                }
            }
        }
        i = i + 1;
    }
    proof {
        assert forall|k: int, root_id: Seq<char>, file_id: Seq<char>, a: int|
            0 <= k < snapshots@.len() && (#[trigger] snapshots@[k].spec_entry(root_id, file_id)) is Some
                && 0 <= a < out@.len() implies #[trigger] out@[a]@ != snapshots@[k].spec_entry(
                root_id,
                file_id,
            )->Some_0.spec_hash() by {
            lemma_entry_hash_referenced(snapshots@, k, root_id, file_id);
            assert(!used.contents().contains(out@[a]@));
        }
        assert forall|x: Seq<char>| (exists|a: int| 0 <= a < out@.len() && #[trigger] out@[a]@ == x) <==> (
        stored.contains(x) && !referenced_hashes(snapshots@).contains(x)) by {
            if exists|a: int| 0 <= a < out@.len() && #[trigger] out@[a]@ == x {
                let a = choose|a: int| 0 <= a < out@.len() && #[trigger] out@[a]@ == x;
                let b = choose|b: int| 0 <= b < all@.len() && #[trigger] all@[b]@ == out@[a]@;
                assert(stored.contains(x));
            }
            if stored.contains(x) && !referenced_hashes(snapshots@).contains(x) {
                let b = choose|b: int| 0 <= b < all@.len() && #[trigger] all@[b]@ == x;
                assert(!used.contents().contains(all@[b]@));
            }
        }
    }
    out
}

/// The ids of the snapshots to prune so that the `n` newest are kept: snapshot
/// ids name their time, so in the order of texts the newest come last. The ids
/// to prune come out in that order.
pub fn get_snapshots_to_prune_and_leave_n_newest(all_snapshot_ids: &Vec<String>, n: usize) -> (r: Vec<String>)
    ensures
        string_views(r@) == string_views(all_snapshot_ids@).sort_by(text_order()).take(
            if n < all_snapshot_ids@.len() { all_snapshot_ids@.len() - n } else { 0 },
        ),
{
    let sorted = sort_texts(all_snapshot_ids);
    let ghost sv = string_views(sorted@);
    proof {
        crate::text::lemma_text_order_total();
        string_views(all_snapshot_ids@).lemma_sort_by_ensures(text_order());
        vstd::seq_lib::to_multiset_len(string_views(all_snapshot_ids@));
        vstd::seq_lib::to_multiset_len(sv);
    }
    let keep_from = if n < sorted.len() {
        sorted.len() - n
    } else {
        0
    };
    let mut out: Vec<String> = Vec::new();
    let mut i: usize = 0;
    while i < keep_from
        invariant
            i <= keep_from <= sorted@.len(),
            sv == string_views(sorted@),
            string_views(out@) == sv.take(i as int),
        decreases keep_from - i,
    {
        let ghost before = out@;
        out.push(sorted[i].clone());
        proof {
            assert(sv[i as int] == sorted@[i as int]@);
            assert(string_views(out@) =~= string_views(before).push(sorted@[i as int]@));
            assert(string_views(out@) =~= sv.take(i + 1));
        }
        i = i + 1;
    }
    out
}

} // verus!
