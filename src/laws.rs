//! What every serialization pass guarantees, stated over the model of the
//! world's storage.
use crate::scene::{
    archetype_records, archetype_sound, archetypes_records, chunk_records, chunk_sound,
    chunkset_records, chunkset_sound,
    plan_meets, record_views, slot_record, world_records, world_sound, EntityRecord,
    EntityRecordView, SceneError,
};
use crate::storage::{world_layout, ArchetypeLayout};
use legion::prelude::World;
use legion::storage::ComponentTypeId;
use vstd::prelude::*;

verus! {

/// The entities held by the first `n` occupied chunks of a chunkset.
pub open spec fn chunkset_entity_count(l: Seq<ArchetypeLayout>, a: int, s: int, n: int) -> nat
    decreases n,
{
    if n <= 0 {
        0
    } else {
        chunkset_entity_count(l, a, s, n - 1) + l[a].chunksets[s][n - 1].entities.len()
    }
}

/// The entities held by the first `n` chunksets of an archetype.
pub open spec fn archetype_entity_count(l: Seq<ArchetypeLayout>, a: int, n: int) -> nat
    decreases n,
{
    if n <= 0 {
        0
    } else {
        archetype_entity_count(l, a, n - 1) + chunkset_entity_count(
            l,
            a,
            n - 1,
            l[a].chunksets[n - 1].len() as int,
        )
    }
}

/// The entities held by the first `n` archetypes.
pub open spec fn archetypes_entity_count(l: Seq<ArchetypeLayout>, n: int) -> nat
    decreases n,
{
    if n <= 0 {
        0
    } else {
        archetypes_entity_count(l, n - 1) + archetype_entity_count(
            l,
            n - 1,
            l[n - 1].chunksets.len() as int,
        )
    }
}

/// The number of live entities of the world.
pub open spec fn entity_count(l: Seq<ArchetypeLayout>) -> nat {
    archetypes_entity_count(l, l.len() as int)
}

/// A slot position that exists in the world.
pub open spec fn valid_slot(l: Seq<ArchetypeLayout>, a: int, s: int, c: int, k: int) -> bool {
    &&& 0 <= a < l.len()
    &&& 0 <= s < l[a].chunksets.len()
    &&& 0 <= c < l[a].chunksets[s].len()
    &&& 0 <= k < l[a].chunksets[s][c].entities.len()
}

/// A record is the one written for the slot it names, and that slot exists.
pub open spec fn at_slot(l: Seq<ArchetypeLayout>, r: EntityRecordView) -> bool {
    &&& valid_slot(l, r.archetype as int, r.chunkset as int, r.chunk as int, r.slot as int)
    &&& r == slot_record(l, r.archetype as int, r.chunkset as int, r.chunk as int, r.slot as int)
}

/// `x` names a slot that the traversal visits before the one `y` names.
pub open spec fn visited_before(x: EntityRecordView, y: EntityRecordView) -> bool {
    ||| x.archetype < y.archetype
    ||| x.archetype == y.archetype && x.chunkset < y.chunkset
    ||| x.archetype == y.archetype && x.chunkset == y.chunkset && x.chunk < y.chunk
    ||| x.archetype == y.archetype && x.chunkset == y.chunkset && x.chunk == y.chunk && x.slot
        < y.slot
}

pub open spec fn in_traversal_order(v: Seq<EntityRecordView>) -> bool {
    forall|i: int, j: int| 0 <= i < j < v.len() ==> visited_before(#[trigger] v[i], #[trigger] v[j])
}

proof fn lemma_order_concat(x: Seq<EntityRecordView>, y: Seq<EntityRecordView>)
    requires
        in_traversal_order(x),
        in_traversal_order(y),
        forall|i: int, j: int|
            0 <= i < x.len() && 0 <= j < y.len() ==> visited_before(#[trigger] x[i], #[trigger] y[j]),
    ensures
        in_traversal_order(x + y),
{
    assert forall|i: int, j: int| 0 <= i < j < (x + y).len() implies visited_before(
        #[trigger] (x + y)[i],
        #[trigger] (x + y)[j],
    ) by {
        if j < x.len() {
        } else if i < x.len() {
            assert(visited_before(x[i], y[j - x.len()]));
        } else {
            assert(visited_before(y[i - x.len()], y[j - x.len()]));
        }
    }
}

proof fn lemma_chunk_records(l: Seq<ArchetypeLayout>, a: int, s: int, c: int, n: int)
    requires
        0 <= a < l.len(),
        0 <= s < l[a].chunksets.len(),
        0 <= c < l[a].chunksets[s].len(),
        0 <= n <= l[a].chunksets[s][c].entities.len(),
    ensures
        chunk_records(l, a, s, c, n).len() == n,
        forall|i: int|
            0 <= i < n ==> #[trigger] chunk_records(l, a, s, c, n)[i] == slot_record(l, a, s, c, i),
        in_traversal_order(chunk_records(l, a, s, c, n)),
    decreases n,
{
    if n > 0 {
        lemma_chunk_records(l, a, s, c, n - 1);
        let v = chunk_records(l, a, s, c, n);
        assert forall|i: int, j: int| 0 <= i < j < v.len() implies visited_before(
            #[trigger] v[i],
            #[trigger] v[j],
        ) by {
            assert(v[i] == slot_record(l, a, s, c, i));
            assert(v[j] == slot_record(l, a, s, c, j));
        }
    }
}

proof fn lemma_chunkset_records(l: Seq<ArchetypeLayout>, a: int, s: int, n: int)
    requires
        0 <= a < l.len(),
        0 <= s < l[a].chunksets.len(),
        0 <= n <= l[a].chunksets[s].len(),
    ensures
        chunkset_records(l, a, s, n).len() == chunkset_entity_count(l, a, s, n),
        forall|i: int|
            0 <= i < chunkset_records(l, a, s, n).len() ==> {
                let r = #[trigger] chunkset_records(l, a, s, n)[i];
                at_slot(l, r) && r.archetype == a && r.chunkset == s && r.chunk < n
            },
        in_traversal_order(chunkset_records(l, a, s, n)),
        forall|c: int, k: int|
            0 <= c < n && 0 <= k < l[a].chunksets[s][c].entities.len() ==> chunkset_records(
                l,
                a,
                s,
                n,
            ).contains(#[trigger] slot_record(l, a, s, c, k)),
    decreases n,
{
    if n > 0 {
        let m = l[a].chunksets[s][n - 1].entities.len() as int;
        lemma_chunkset_records(l, a, s, n - 1);
        lemma_chunk_records(l, a, s, n - 1, m);
        let p = chunkset_records(l, a, s, n - 1);
        let q = chunk_records(l, a, s, n - 1, m);
        let v = chunkset_records(l, a, s, n);
        assert(v == p + q);
        assert forall|i: int, j: int| 0 <= i < p.len() && 0 <= j < q.len() implies visited_before(
            #[trigger] p[i],
            #[trigger] q[j],
        ) by {
            assert(q[j] == slot_record(l, a, s, n - 1, j));
        }
        lemma_order_concat(p, q);
        assert forall|i: int| 0 <= i < v.len() implies {
            let r = #[trigger] v[i];
            at_slot(l, r) && r.archetype == a && r.chunkset == s && r.chunk < n
        } by {
            if i < p.len() {
                assert(v[i] == p[i]);
            } else {
                assert(v[i] == q[i - p.len()]);
                assert(q[i - p.len()] == slot_record(l, a, s, n - 1, i - p.len()));
            }
        }
        assert forall|c: int, k: int|
            0 <= c < n && 0 <= k < l[a].chunksets[s][c].entities.len() implies v.contains(
            #[trigger] slot_record(l, a, s, c, k),
        ) by {
            if c < n - 1 {
                assert(p.contains(slot_record(l, a, s, c, k)));
                let x = choose|x: int| 0 <= x < p.len() && p[x] == slot_record(l, a, s, c, k);
                assert(v[x] == p[x]);
            } else {
                assert(q[k] == slot_record(l, a, s, c, k));
                assert(v[p.len() + k] == q[k]);
            }
        }
    }
}

proof fn lemma_archetype_records(l: Seq<ArchetypeLayout>, a: int, n: int)
    requires
        0 <= a < l.len(),
        0 <= n <= l[a].chunksets.len(),
    ensures
        archetype_records(l, a, n).len() == archetype_entity_count(l, a, n),
        forall|i: int|
            0 <= i < archetype_records(l, a, n).len() ==> {
                let r = #[trigger] archetype_records(l, a, n)[i];
                at_slot(l, r) && r.archetype == a && r.chunkset < n
            },
        in_traversal_order(archetype_records(l, a, n)),
        forall|s: int, c: int, k: int|
            0 <= s < n && 0 <= c < l[a].chunksets[s].len() && 0 <= k
                < l[a].chunksets[s][c].entities.len() ==> archetype_records(l, a, n).contains(
                #[trigger] slot_record(l, a, s, c, k),
            ),
    decreases n,
{
    if n > 0 {
        let m = l[a].chunksets[n - 1].len() as int;
        lemma_archetype_records(l, a, n - 1);
        lemma_chunkset_records(l, a, n - 1, m);
        let p = archetype_records(l, a, n - 1);
        let q = chunkset_records(l, a, n - 1, m);
        let v = archetype_records(l, a, n);
        assert(v == p + q);
        assert forall|i: int, j: int| 0 <= i < p.len() && 0 <= j < q.len() implies visited_before(
            #[trigger] p[i],
            #[trigger] q[j],
        ) by {
            assert(p[i].chunkset < n - 1);
            assert(q[j].chunkset == n - 1);
        }
        lemma_order_concat(p, q);
        assert forall|i: int| 0 <= i < v.len() implies {
            let r = #[trigger] v[i];
            at_slot(l, r) && r.archetype == a && r.chunkset < n
        } by {
            if i < p.len() {
                assert(v[i] == p[i]);
            } else {
                assert(v[i] == q[i - p.len()]);
            }
        }
        assert forall|s: int, c: int, k: int|
            0 <= s < n && 0 <= c < l[a].chunksets[s].len() && 0 <= k
                < l[a].chunksets[s][c].entities.len() implies v.contains(
            #[trigger] slot_record(l, a, s, c, k),
        ) by {
            if s < n - 1 {
                assert(p.contains(slot_record(l, a, s, c, k)));
                let x = choose|x: int| 0 <= x < p.len() && p[x] == slot_record(l, a, s, c, k);
                assert(v[x] == p[x]);
            } else {
                assert(q.contains(slot_record(l, a, s, c, k)));
                let x = choose|x: int| 0 <= x < q.len() && q[x] == slot_record(l, a, s, c, k);
                assert(v[p.len() + x] == q[x]);
            }
        }
    }
}

proof fn lemma_archetypes_records(l: Seq<ArchetypeLayout>, n: int)
    requires
        0 <= n <= l.len(),
    ensures
        archetypes_records(l, n).len() == archetypes_entity_count(l, n),
        forall|i: int|
            0 <= i < archetypes_records(l, n).len() ==> {
                let r = #[trigger] archetypes_records(l, n)[i];
                at_slot(l, r) && r.archetype < n
            },
        in_traversal_order(archetypes_records(l, n)),
        forall|a: int, s: int, c: int, k: int|
            0 <= a < n && valid_slot(l, a, s, c, k) ==> archetypes_records(l, n).contains(
                #[trigger] slot_record(l, a, s, c, k),
            ),
    decreases n,
{
    if n > 0 {
        let m = l[n - 1].chunksets.len() as int;
        lemma_archetypes_records(l, n - 1);
        lemma_archetype_records(l, n - 1, m);
        let p = archetypes_records(l, n - 1);
        let q = archetype_records(l, n - 1, m);
        let v = archetypes_records(l, n);
        assert(v == p + q);
        assert forall|i: int, j: int| 0 <= i < p.len() && 0 <= j < q.len() implies visited_before(
            #[trigger] p[i],
            #[trigger] q[j],
        ) by {
            assert(p[i].archetype < n - 1);
            assert(q[j].archetype == n - 1);
        }
        lemma_order_concat(p, q);
        assert forall|i: int| 0 <= i < v.len() implies {
            let r = #[trigger] v[i];
            at_slot(l, r) && r.archetype < n
        } by {
            if i < p.len() {
                assert(v[i] == p[i]);
            } else {
                assert(v[i] == q[i - p.len()]);
            }
        }
        assert forall|a: int, s: int, c: int, k: int|
            0 <= a < n && valid_slot(l, a, s, c, k) implies v.contains(
            #[trigger] slot_record(l, a, s, c, k),
        ) by {
            if a < n - 1 {
                assert(p.contains(slot_record(l, a, s, c, k)));
                let x = choose|x: int| 0 <= x < p.len() && p[x] == slot_record(l, a, s, c, k);
                assert(v[x] == p[x]);
            } else {
                assert(q.contains(slot_record(l, a, s, c, k)));
                let x = choose|x: int| 0 <= x < q.len() && q[x] == slot_record(l, a, s, c, k);
                assert(v[p.len() + x] == q[x]);
            }
        }
    }
}

/// A pass that succeeds writes each live entity exactly once: as many records
/// as the world holds entities, one for every occupied slot, and no slot
/// twice.
pub proof fn lemma_every_entity_once(
    w: World,
    registered: Set<ComponentTypeId>,
    r: Result<Vec<EntityRecord>, SceneError>,
)
    requires
        plan_meets(r, world_layout(w), registered),
        r is Ok,
    ensures
        record_views(r->Ok_0@).len() == entity_count(world_layout(w)),
        forall|a: int, s: int, c: int, k: int|
            valid_slot(world_layout(w), a, s, c, k) ==> record_views(r->Ok_0@).contains(
                #[trigger] slot_record(world_layout(w), a, s, c, k),
            ),
        forall|i: int, j: int|
            0 <= i < j < record_views(r->Ok_0@).len() ==> {
                let x = #[trigger] record_views(r->Ok_0@)[i];
                let y = #[trigger] record_views(r->Ok_0@)[j];
                (x.archetype, x.chunkset, x.chunk, x.slot) != (y.archetype, y.chunkset, y.chunk, y.slot)
            },
{
    let l = world_layout(w);
    lemma_archetypes_records(l, l.len() as int);
    let v = record_views(r->Ok_0@);
    assert(v == world_records(l));
    assert forall|i: int, j: int| 0 <= i < j < v.len() implies {
        let x = #[trigger] v[i];
        let y = #[trigger] v[j];
        (x.archetype, x.chunkset, x.chunk, x.slot) != (y.archetype, y.chunkset, y.chunk, y.slot)
    } by {
        assert(visited_before(v[i], v[j]));
    }
}

/// Each record of a successful pass lists the component types of its
/// entity's archetype, in the archetype's declared order.
pub proof fn lemma_record_shape(
    w: World,
    registered: Set<ComponentTypeId>,
    r: Result<Vec<EntityRecord>, SceneError>,
)
    requires
        plan_meets(r, world_layout(w), registered),
        r is Ok,
    ensures
        forall|i: int|
            0 <= i < r->Ok_0@.len() ==> {
                let x = #[trigger] r->Ok_0@[i];
                &&& x.archetype < world_layout(w).len()
                &&& x.components@ == world_layout(w)[x.archetype as int].types
            },
{
    let l = world_layout(w);
    lemma_archetypes_records(l, l.len() as int);
    let v = record_views(r->Ok_0@);
    assert forall|i: int| 0 <= i < r->Ok_0@.len() implies {
        let x = #[trigger] r->Ok_0@[i];
        &&& x.archetype < l.len()
        &&& x.components@ == l[x.archetype as int].types
    } by {
        assert(v[i] == r->Ok_0@[i]@);
        assert(at_slot(l, v[i]));
    }
}

/// Each record of a successful pass carries the public index of the entity
/// that storage holds in the slot the record names.
pub proof fn lemma_record_identity(
    w: World,
    registered: Set<ComponentTypeId>,
    r: Result<Vec<EntityRecord>, SceneError>,
)
    requires
        plan_meets(r, world_layout(w), registered),
        r is Ok,
    ensures
        forall|i: int|
            0 <= i < r->Ok_0@.len() ==> {
                let x = #[trigger] r->Ok_0@[i];
                &&& valid_slot(
                    world_layout(w),
                    x.archetype as int,
                    x.chunkset as int,
                    x.chunk as int,
                    x.slot as int,
                )
                &&& x.id == world_layout(
                    w,
                )[x.archetype as int].chunksets[x.chunkset as int][x.chunk as int].entities[x.slot as int]
            },
{
    let l = world_layout(w);
    lemma_archetypes_records(l, l.len() as int);
    let v = record_views(r->Ok_0@);
    assert forall|i: int| 0 <= i < r->Ok_0@.len() implies {
        let x = #[trigger] r->Ok_0@[i];
        &&& valid_slot(l, x.archetype as int, x.chunkset as int, x.chunk as int, x.slot as int)
        &&& x.id == l[x.archetype as int].chunksets[x.chunkset as int][x.chunk as int].entities[x.slot as int]
    } by {
        assert(v[i] == r->Ok_0@[i]@);
        assert(at_slot(l, v[i]));
    }
}

/// Two passes over the same world and registry agree: both fail, or both
/// succeed with the same records.
pub proof fn lemma_passes_agree(
    w: World,
    registered: Set<ComponentTypeId>,
    r1: Result<Vec<EntityRecord>, SceneError>,
    r2: Result<Vec<EntityRecord>, SceneError>,
)
    requires
        plan_meets(r1, world_layout(w), registered),
        plan_meets(r2, world_layout(w), registered),
    ensures
        r1 is Ok <==> r2 is Ok,
        r1 is Ok ==> record_views(r1->Ok_0@) == record_views(r2->Ok_0@),
{
}

/// A world with an entity whose archetype declares a type that the registry
/// does not know cannot be written: the pass fails, so nothing is written.
pub proof fn lemma_unregistered_fails(
    w: World,
    registered: Set<ComponentTypeId>,
    r: Result<Vec<EntityRecord>, SceneError>,
    a: int,
    s: int,
    c: int,
    t: ComponentTypeId,
)
    requires
        plan_meets(r, world_layout(w), registered),
        valid_slot(world_layout(w), a, s, c, 0),
        world_layout(w)[a].types.contains(t),
        !registered.contains(t),
    ensures
        r is Err,
{
    let l = world_layout(w);
    if r is Ok {
        assert(world_sound(l, registered));
        let i = choose|i: int| 0 <= i < l[a].types.len() && l[a].types[i] == t;
        assert(archetype_sound(l[a], registered));
        assert(chunkset_sound(l[a], l[a].chunksets[s], registered));
        assert(chunk_sound(l[a], l[a].chunksets[s][c], registered));
        assert(registered.contains(l[a].types[i]));
    }
}

} // verus!
