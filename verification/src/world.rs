use vstd::prelude::*;

use std::collections::HashMap;

use hecs::{Entity, World};

use crate::field::{Field, FieldEvent};
use crate::input::Inputs;
use crate::net::Remote;

verus! {

#[verifier::external_type_specification]
#[verifier::external_body]
pub struct ExWorld(World);

#[verifier::external_type_specification]
#[verifier::external_body]
pub struct ExEntity(Entity);

/// The `Field` components of a world, keyed by the bits of their entity.
pub uninterp spec fn world_fields(world: World) -> Map<u64, Field>;

/// The bits of the live entities of a world.
pub uninterp spec fn world_alive(world: World) -> Set<u64>;

/// The bits of the entities of a world that carry the `Remote` marker.
pub uninterp spec fn world_remote(world: World) -> Set<u64>;

/// The key by which the contents of a world below tell entities apart: the
/// bits of the entity, as `Entity::to_bits` gives them.
pub uninterp spec fn entity_bits(entity: Entity) -> u64;

/// `World::spawn` with a single `Field` component: the entity it returns is
/// live only from now on, and carries exactly this field.
#[verifier::external_body]
fn spawn_with_field(world: &mut World, field: Field) -> (e: Entity)
    ensures
        !world_alive(*old(world)).contains(entity_bits(e)),
        world_alive(*final(world)) == world_alive(*old(world)).insert(entity_bits(e)),
        world_fields(*final(world)) == world_fields(*old(world)).insert(entity_bits(e), field),
        world_remote(*final(world)) == world_remote(*old(world)),
{
    world.spawn((field,))
}

/// `World::spawn` with a `Field` and the `Remote` marker: the entity it
/// returns is live only from now on, carries exactly this field, and is
/// marked remote.
#[verifier::external_body]
fn spawn_remote_field(world: &mut World, field: Field) -> (e: Entity)
    ensures
        !world_alive(*old(world)).contains(entity_bits(e)),
        world_alive(*final(world)) == world_alive(*old(world)).insert(entity_bits(e)),
        world_fields(*final(world)) == world_fields(*old(world)).insert(entity_bits(e), field),
        world_remote(*final(world)) == world_remote(*old(world)).insert(entity_bits(e)),
{
    world.spawn((field, Remote))
}

/// `World::query::<(Entity, &Field)>` iterated for its entities: each entity
/// that has a `Field` comes out once, in an order the source leaves open.
#[verifier::external_body]
fn field_entities(world: &World) -> (v: Vec<Entity>)
    ensures
        forall|i: int| 0 <= i < v@.len() ==> world_fields(*world).dom().contains(#[trigger] entity_bits(v@[i])),
        forall|k: u64| #[trigger] world_fields(*world).dom().contains(k) ==> exists|i: int| 0 <= i < v@.len() && entity_bits(v@[i]) == k,
        forall|i: int, j: int| 0 <= i < j < v@.len() ==> entity_bits(#[trigger] v@[i]) != entity_bits(#[trigger] v@[j]),
{
    world.query::<(Entity, &Field)>().iter().map(|(e, _)| e).collect()
}

/// `World::remove_one::<Field>`: takes the entity's field out of the world
/// when it has one; the entity stays live.
#[verifier::external_body]
fn take_field(world: &mut World, e: Entity) -> (r: Option<Field>)
    ensures
        world_alive(*final(world)) == world_alive(*old(world)),
        world_remote(*final(world)) == world_remote(*old(world)),
        world_fields(*old(world)).dom().contains(entity_bits(e)) ==> {
            &&& r == Some(world_fields(*old(world))[entity_bits(e)])
            &&& world_fields(*final(world)) == world_fields(*old(world)).remove(entity_bits(e))
            &&& world_alive(*old(world)).contains(entity_bits(e))
        },
        !world_fields(*old(world)).dom().contains(entity_bits(e)) ==> {
            &&& r is None
            &&& world_fields(*final(world)) == world_fields(*old(world))
        },
{
    world.remove_one::<Field>(e).ok()
}

/// `World::insert_one` of a `Field`: succeeds exactly on a live entity, whose
/// field it sets.
#[verifier::external_body]
fn put_field(world: &mut World, e: Entity, field: Field) -> (ok: bool)
    ensures
        ok == world_alive(*old(world)).contains(entity_bits(e)),
        world_alive(*final(world)) == world_alive(*old(world)),
        world_remote(*final(world)) == world_remote(*old(world)),
        ok ==> world_fields(*final(world)) == world_fields(*old(world)).insert(entity_bits(e), field),
        !ok ==> world_fields(*final(world)) == world_fields(*old(world)),
{
    world.insert_one(e, field).is_ok()
}

/// Adds a fresh field to the world as a new entity and returns that entity.
pub fn spawn_field(world: &mut World) -> (e: Entity)
    ensures
        !world_alive(*old(world)).contains(entity_bits(e)),
        world_alive(*final(world)) == world_alive(*old(world)).insert(entity_bits(e)),
        world_fields(*final(world)).dom() == world_fields(*old(world)).dom().insert(entity_bits(e)),
        world_fields(*final(world))[entity_bits(e)].is_fresh(),
        world_fields(*final(world))[entity_bits(e)].wf(),
        forall|k: u64| k != entity_bits(e) && #[trigger] world_fields(*old(world)).dom().contains(k)
            ==> world_fields(*final(world))[k] == world_fields(*old(world))[k],
{
    spawn_with_field(world, Field::new())
}

/// Stores a field that the server sent for its entity `suid`: under the
/// client entity already mapped to `suid`, or under a new entity marked
/// remote, which `suid` is then mapped to. Returns `false`, and changes
/// nothing, when the mapped entity is no longer live.
pub fn place_remote_field(ids: &mut HashMap<u32, Entity>, world: &mut World, suid: u32, field: Field) -> (ok: bool)
    ensures
        old(ids)@.contains_key(suid) ==> {
            let b = entity_bits(old(ids)@[suid]);
            &&& ok == world_alive(*old(world)).contains(b)
            &&& final(ids)@ == old(ids)@
            &&& world_alive(*final(world)) == world_alive(*old(world))
            &&& world_remote(*final(world)) == world_remote(*old(world))
            &&& ok ==> world_fields(*final(world)) == world_fields(*old(world)).insert(b, field)
            &&& !ok ==> world_fields(*final(world)) == world_fields(*old(world))
        },
        !old(ids)@.contains_key(suid) ==> {
            let b = entity_bits(final(ids)@[suid]);
            &&& ok
            &&& final(ids)@ == old(ids)@.insert(suid, final(ids)@[suid])
            &&& !world_alive(*old(world)).contains(b)
            &&& world_alive(*final(world)) == world_alive(*old(world)).insert(b)
            &&& world_fields(*final(world)) == world_fields(*old(world)).insert(b, field)
            &&& world_remote(*final(world)) == world_remote(*old(world)).insert(b)
        },
{
    broadcast use vstd::std_specs::hash::group_hash_axioms;

    let mapped: Option<Entity> = match ids.get(&suid) {
        Some(e) => Some(*e),
        None => None,
    };
    match mapped {
        Some(e) => put_field(world, e, field),
        None => {
            let e = spawn_remote_field(world, field);
            ids.insert(suid, e);
            true
        },
    }
}

/// What happened to one field in a tick of the world: its events, with the
/// field advanced by one tick (a well-formed field staying well-formed), or
/// `None` when the tick would overflow or index out of bounds, in which case
/// the field was left as it was.
pub open spec fn field_outcome(before: Field, after: Field, inputs: Inputs, events: Option<Vec<FieldEvent>>) -> bool {
    match events {
        Some(ev) => {
            &&& before.tick_safe(inputs)
            &&& before.ticked(after, inputs, ev@)
            &&& before.wf() ==> after.wf()
        },
        None => {
            &&& !before.tick_safe(inputs)
            &&& after == before
        },
    }
}

/// Ticks every field of the world once, and reports, per entity, what the
/// front end should play or show.
pub fn field_system(world: &mut World, inputs: &Inputs) -> (out: Vec<(Entity, Option<Vec<FieldEvent>>)>)
    ensures
        world_alive(*final(world)) == world_alive(*old(world)),
        world_remote(*final(world)) == world_remote(*old(world)),
        world_fields(*final(world)).dom() == world_fields(*old(world)).dom(),
        forall|i: int| 0 <= i < out@.len() ==> world_fields(*old(world)).dom().contains(#[trigger] entity_bits(out@[i].0)),
        forall|k: u64| #[trigger] world_fields(*old(world)).dom().contains(k) ==> exists|i: int| 0 <= i < out@.len() && entity_bits(out@[i].0) == k,
        forall|i: int, j: int| 0 <= i < j < out@.len() ==> entity_bits(#[trigger] out@[i].0) != entity_bits(#[trigger] out@[j].0),
        forall|i: int|
            0 <= i < out@.len() ==> field_outcome(
                world_fields(*old(world))[entity_bits(#[trigger] out@[i].0)],
                world_fields(*final(world))[entity_bits(out@[i].0)],
                *inputs,
                out@[i].1,
            ),
{
    let ghost start = world_fields(*world);
    let ghost alive = world_alive(*world);
    let ghost remote = world_remote(*world);
    let entities = field_entities(world);
    let mut out: Vec<(Entity, Option<Vec<FieldEvent>>)> = Vec::new();
    let mut i: usize = 0;
    while i < entities.len()
        invariant
            i <= entities@.len(),
            out@.len() == i,
            world_alive(*world) == alive,
            world_remote(*world) == remote,
            world_fields(*world).dom() == start.dom(),
            forall|j: int| 0 <= j < entities@.len() ==> start.dom().contains(#[trigger] entity_bits(entities@[j])),
            forall|k: u64| #[trigger] start.dom().contains(k) ==> exists|j: int| 0 <= j < entities@.len() && entity_bits(entities@[j]) == k,
            forall|j: int, l: int| 0 <= j < l < entities@.len() ==> entity_bits(#[trigger] entities@[j]) != entity_bits(#[trigger] entities@[l]),
            forall|j: int| 0 <= j < i ==> #[trigger] out@[j].0 == entities@[j],
            forall|j: int|
                0 <= j < i ==> field_outcome(
                    start[entity_bits(#[trigger] entities@[j])],
                    world_fields(*world)[entity_bits(entities@[j])],
                    *inputs,
                    out@[j].1,
                ),
            forall|k: u64|
                #[trigger] start.dom().contains(k) && (forall|j: int| 0 <= j < i ==> entity_bits(entities@[j]) != k)
                    ==> world_fields(*world)[k] == start[k],
        decreases entities@.len() - i,
    {
        let e = entities[i];
        let ghost key = entity_bits(e);
        let ghost before = *world;
        match take_field(world, e) {
            Some(field) => {
                let mut field = field;
                let events = if field.tick_is_safe(inputs) {
                    Some(field.tick(inputs))
                } else {
                    None
                };
                let ghost after = field;
                let ok = put_field(world, e, field);
                proof {
                    assert(ok);
                    assert(world_fields(*world) == world_fields(before).insert(key, after));
                }
                out.push((e, events));
            },
            None => {
                proof {
                    assert(false);
                }
                out.push((e, None));
            },
        }
        proof {
            assert forall|j: int| 0 <= j < i implies entity_bits(#[trigger] entities@[j]) != key by {
                assert(entity_bits(entities@[j]) != entity_bits(entities@[i as int]));
            }
            assert(world_fields(*world).dom() =~= start.dom());
        }
        i += 1;
    }
    proof {
        assert forall|k: u64| #[trigger] start.dom().contains(k) implies exists|j: int| 0 <= j < out@.len() && entity_bits(out@[j].0) == k by {
            let j = choose|j: int| 0 <= j < entities@.len() && entity_bits(entities@[j]) == k;
            assert(out@[j].0 == entities@[j]);
        }
    }
    out
}

} // verus!
