//! Building a snapshot out of the deltas a backup produces.
use vstd::prelude::*;
use crate::root_definition::RootDefinition;
use crate::snapshots::shapshot_delta::SnapshotDelta;
use crate::snapshots::shapshot_entry::SnapshotEntry;
use crate::snapshots::snapshot::Snapshot;

verus! {

/// The entry of the last delta that names file `file_id` of root `root_id`.
pub open spec fn last_entry(deltas: Seq<SnapshotDelta>, root_id: Seq<char>, file_id: Seq<char>) -> Option<SnapshotEntry>
    decreases deltas.len(),
{
    if deltas.len() == 0 {
        None
    } else if deltas.last().root.spec_name() == root_id && deltas.last().file_id@ == file_id {
        Some(deltas.last().entry)
    } else {
        last_entry(deltas.drop_last(), root_id, file_id)
    }
}

/// The root definition of the first delta that names root `root_id`.
pub open spec fn first_root(deltas: Seq<SnapshotDelta>, root_id: Seq<char>) -> Option<RootDefinition>
    decreases deltas.len(),
{
    if deltas.len() == 0 {
        None
    } else {
        let prev = first_root(deltas.drop_last(), root_id);
        if prev is None && deltas.last().root.spec_name() == root_id {
            Some(deltas.last().root)
        } else {
            prev
        }
    }
}

/// The snapshot made of `deltas`, recorded in order: each file has the entry of
/// the last delta naming it, and each root the definition of the first delta
/// naming it.
pub fn snapshot_builder_task(deltas: Vec<SnapshotDelta>) -> (r: Snapshot)
    ensures
        r.wf(),
        forall|root_id: Seq<char>, file_id: Seq<char>| #[trigger] r.spec_entry(root_id, file_id)
            == last_entry(deltas@, root_id, file_id),
        forall|root_id: Seq<char>| #[trigger] r.spec_root_definition(root_id) == first_root(deltas@, root_id),
{
    let ghost ds = deltas@;
    let mut snapshot = Snapshot::empty();
    proof {
        assert(ds.take(0) =~= Seq::<SnapshotDelta>::empty());
        assert forall|root_id: Seq<char>| #[trigger] snapshot.spec_root_definition(root_id) == first_root(ds.take(0), root_id) by {
            assert(!snapshot.spec_roots().contains_key(root_id));
        }
        assert forall|root_id: Seq<char>, file_id: Seq<char>| #[trigger] snapshot.spec_entry(root_id, file_id) == last_entry(ds.take(0), root_id, file_id) by {
            assert(!snapshot.spec_roots().contains_key(root_id));
        }
    }
    for d in it: deltas.into_iter()
        invariant
            it.seq() == ds,
            snapshot.wf(),
            forall|root_id: Seq<char>, file_id: Seq<char>| #[trigger] snapshot.spec_entry(root_id, file_id)
                == last_entry(ds.take(it.index() as int), root_id, file_id),
            forall|root_id: Seq<char>| #[trigger] snapshot.spec_root_definition(root_id) == first_root(
                ds.take(it.index() as int),
                root_id,
            ),
    {
        let ghost k = it.index() as int;
        proof {
            assert(ds.take(k + 1).drop_last() =~= ds.take(k));
            assert(ds.take(k + 1).last() == d);
        }
        snapshot.record_delta(d);
    }
    proof {
        assert(ds.take(ds.len() as int) =~= ds);
    }
    snapshot
}

} // verus!
