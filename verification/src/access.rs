//! Access and disguise rules.
//!
//! Access never blocks movement: the simulation lets you walk anywhere you
//! physically can. These rules define *legitimacy*: whether an actor's
//! presence on a tile is lawful given their worn disguise and carried
//! items.
use vstd::prelude::*;

use crate::data::{DisguiseSpec, GameData, ItemSpec, Zone};
use crate::geom::Pos;
use crate::map::DoorId;
use crate::text::{holds, str_eq, views};
use crate::world::{ActorId, ItemLocation, Room, World, spec_room_index};

verus! {

/// Why standing on a tile is (il)legal for an actor.
#[derive(Clone, Copy, Debug, PartialEq, Eq, Structural)]
pub enum AccessVerdict {
    /// Circulation space or a zone the disguise permits.
    Allowed,
    /// Permitted only because a carried invitation covers a secure zone.
    AllowedByInvitation,
    /// Permitted despite the zone because the disguise grants this room.
    AllowedByRoomGrant,
    /// Permitted because a carried staff pass covers staff space.
    AllowedByPass,
    /// The disguise does not cover this room's zone.
    Illegal(Zone),
}

impl AccessVerdict {
    pub fn is_allowed(self) -> (r: bool)
        ensures
            r == !(self is Illegal),
    {
        match self {
            AccessVerdict::Illegal(_) => false,
            _ => true,
        }
    }
}

/// Whether `actor` carries an item whose spec is known and satisfies `f`.
pub open spec fn carries_where(world: &World, data: &GameData, actor: ActorId, f: spec_fn(ItemSpec) -> bool) -> bool {
    exists|i: int|
        0 <= i < world.items@.len() && (#[trigger] world.items@[i]).location == ItemLocation::CarriedBy(actor)
            && match data.spec_item(world.items@[i].spec@) {
            Some(s) => f(s),
            None => false,
        }
}

/// The verdict for `actor` standing at `pos`.
pub open spec fn spec_verdict(world: &World, data: &GameData, actor: ActorId, pos: Pos) -> AccessVerdict {
    match spec_room_index(world.rooms@, pos) {
        None => AccessVerdict::Allowed,
        Some(ri) => {
            let room = world.rooms@[ri];
            match data.spec_disguise(world.actors@[actor.0 as int].worn_disguise@) {
                None => AccessVerdict::Illegal(room.zone),
                Some(d) => if d.zones@.contains(room.zone) {
                    AccessVerdict::Allowed
                } else if views(d.extra_rooms@).contains(room.template@) {
                    AccessVerdict::AllowedByRoomGrant
                } else if room.zone == Zone::Secure && d.secure_with_invitation && carries_where(
                    world,
                    data,
                    actor,
                    |s: ItemSpec| s.invitation,
                ) {
                    AccessVerdict::AllowedByInvitation
                } else if room.zone == Zone::Staff && carries_where(
                    world,
                    data,
                    actor,
                    |s: ItemSpec| s.staff_pass,
                ) {
                    AccessVerdict::AllowedByPass
                } else {
                    AccessVerdict::Illegal(room.zone)
                },
            }
        },
    }
}

/// The zone of the room holding `pos`, if a room holds it.
pub open spec fn zone_at(world: &World, pos: Pos) -> Option<Zone> {
    match spec_room_index(world.rooms@, pos) {
        Some(ri) => Some(world.rooms@[ri].zone),
        None => None,
    }
}

/// Whether the disguise `actor` wears is known and admits to the room
/// holding `pos`, by its zones or by a grant of that room.
pub open spec fn disguise_admits(world: &World, data: &GameData, actor: ActorId, pos: Pos, by_grant: bool) -> bool {
    match (spec_room_index(world.rooms@, pos), data.spec_disguise(world.actors@[actor.0 as int].worn_disguise@)) {
        (Some(ri), Some(d)) => d.zones@.contains(world.rooms@[ri].zone) || (by_grant && views(d.extra_rooms@).contains(
            world.rooms@[ri].template@,
        )),
        _ => false,
    }
}

/// A staff pass admits only to staff rooms and an invitation only to
/// secure ones; plain admission comes from the disguise's own zones, or
/// outside any room. In a room whose zone the disguise does not cover and
/// that it grants no entry to, anything but a staff room reached with a
/// pass or a secure room with an invitation is illegal in that zone.
pub proof fn law_each_grant_needs_its_zone(world: &World, data: &GameData, actor: ActorId, pos: Pos)
    ensures
        spec_verdict(world, data, actor, pos) == AccessVerdict::AllowedByPass ==> zone_at(world, pos) == Some(
            Zone::Staff,
        ),
        spec_verdict(world, data, actor, pos) == AccessVerdict::AllowedByInvitation ==> zone_at(world, pos) == Some(
            Zone::Secure,
        ),
        spec_verdict(world, data, actor, pos) == AccessVerdict::Allowed ==> zone_at(world, pos) is None
            || disguise_admits(world, data, actor, pos, false),
        forall|z: Zone|
            zone_at(world, pos) == Some(z) && z != Zone::Staff && z != Zone::Secure && !disguise_admits(
                world,
                data,
                actor,
                pos,
                true,
            ) ==> spec_verdict(world, data, actor, pos) == AccessVerdict::Illegal(z),
{
}

/// Whether `zone` is in `zones`.
pub fn zone_in(zones: &Vec<Zone>, zone: Zone) -> (r: bool)
    ensures
        r == zones@.contains(zone),
{
    let mut i: usize = 0;
    while i < zones.len()
        invariant
            0 <= i <= zones@.len(),
            forall|j: int| 0 <= j < i ==> zones@[j] != zone,
        decreases zones@.len() - i,
    {
        if zones[i] == zone {
            assert(zones@[i as int] == zone);
            return true;
        }
        i = i + 1;
    }
    false
}

fn carries_invitation(world: &World, data: &GameData, actor: ActorId) -> (r: bool)
    ensures
        r == carries_where(world, data, actor, |s: ItemSpec| s.invitation),
{
    let pred = |s: &ItemSpec| -> (b: bool)
        ensures
            b == s.invitation,
    {
        s.invitation
    };
    let r = world.carries(actor, data, pred);
    proof {
        if !r {
            assert forall|i: int|
                0 <= i < world.items@.len() && (#[trigger] world.items@[i]).location
                    == ItemLocation::CarriedBy(actor) implies !match data.spec_item(
                world.items@[i].spec@,
            ) {
                Some(s) => s.invitation,
                None => false,
            } by {}
        }
    }
    r
}

fn carries_staff_pass(world: &World, data: &GameData, actor: ActorId) -> (r: bool)
    ensures
        r == carries_where(world, data, actor, |s: ItemSpec| s.staff_pass),
{
    let pred = |s: &ItemSpec| -> (b: bool)
        ensures
            b == s.staff_pass,
    {
        s.staff_pass
    };
    let r = world.carries(actor, data, pred);
    proof {
        if !r {
            assert forall|i: int|
                0 <= i < world.items@.len() && (#[trigger] world.items@[i]).location
                    == ItemLocation::CarriedBy(actor) implies !match data.spec_item(
                world.items@[i].spec@,
            ) {
                Some(s) => s.staff_pass,
                None => false,
            } by {}
        }
    }
    r
}

/// Evaluates the legitimacy of `actor` standing at `pos`.
pub fn verdict_for_pos(world: &World, data: &GameData, actor: ActorId, pos: Pos) -> (r: AccessVerdict)
    requires
        actor.0 < world.actors@.len(),
    ensures
        r == spec_verdict(world, data, actor, pos),
{
    let room = match world.room_at(pos) {
        None => {
            // Corridors, stairs, and doorways are public circulation space.
            return AccessVerdict::Allowed;
        },
        Some(room) => room,
    };
    let actor_ref = world.actor(actor);
    let disguise = match data.disguise(actor_ref.worn_disguise.as_str()) {
        None => {
            return AccessVerdict::Illegal(room.zone);
        },
        Some(d) => d,
    };
    if zone_in(&disguise.zones, room.zone) {
        return AccessVerdict::Allowed;
    }
    if holds(&disguise.extra_rooms, room.template.as_str()) {
        return AccessVerdict::AllowedByRoomGrant;
    }
    if room.zone == Zone::Secure && disguise.secure_with_invitation && carries_invitation(
        world,
        data,
        actor,
    ) {
        return AccessVerdict::AllowedByInvitation;
    }
    if room.zone == Zone::Staff && carries_staff_pass(world, data, actor) {
        return AccessVerdict::AllowedByPass;
    }
    AccessVerdict::Illegal(room.zone)
}

/// Evaluates the legitimacy of `actor` standing at its current position.
pub fn verdict_at(world: &World, data: &GameData, actor: ActorId) -> (r: AccessVerdict)
    requires
        actor.0 < world.actors@.len(),
    ensures
        r == spec_verdict(world, data, actor, world.actors@[actor.0 as int].pos),
{
    verdict_for_pos(world, data, actor, world.actor(actor).pos)
}

/// The first room whose doors include `door`.
pub open spec fn spec_room_with_door(rooms: Seq<Room>, door: DoorId) -> Option<int> {
    if exists|i: int| 0 <= i < rooms.len() && (#[trigger] rooms[i]).doors@.contains(door) {
        Some(
            choose|i: int|
                0 <= i < rooms.len() && rooms[i].doors@.contains(door) && forall|j: int|
                    0 <= j < i ==> !(#[trigger] rooms[j]).doors@.contains(door),
        )
    } else {
        None
    }
}

/// Whether `actor` may pass `door`.
pub open spec fn spec_can_pass_door(world: &World, data: &GameData, actor: ActorId, door: DoorId) -> bool {
    match world.doors@[door.0 as int].locked_by {
        None => true,
        Some(key) => {
            ||| carries_where(world, data, actor, |s: ItemSpec| s.id@ == key@)
            ||| {
                &&& world.actors@[actor.0 as int].role.is_some()
                &&& match spec_room_with_door(world.rooms@, door) {
                    None => false,
                    Some(ri) => match data.spec_disguise(world.actors@[actor.0 as int].worn_disguise@) {
                        None => false,
                        Some(d) => d.zones@.contains(world.rooms@[ri].zone) || views(
                            d.extra_rooms@,
                        ).contains(world.rooms@[ri].template@),
                    },
                }
            }
        },
    }
}

fn carries_key(world: &World, data: &GameData, actor: ActorId, key: &String) -> (r: bool)
    ensures
        r == carries_where(world, data, actor, |s: ItemSpec| s.id@ == key@),
{
    let pred = |s: &ItemSpec| -> (b: bool)
        ensures
            b == (s.id@ == key@),
    {
        str_eq(s.id.as_str(), key.as_str())
    };
    let r = world.carries(actor, data, pred);
    proof {
        if !r {
            assert forall|i: int|
                0 <= i < world.items@.len() && (#[trigger] world.items@[i]).location
                    == ItemLocation::CarriedBy(actor) implies !match data.spec_item(
                world.items@[i].spec@,
            ) {
                Some(s) => s.id@ == key@,
                None => false,
            } by {}
        }
    }
    r
}

/// Whether `list` holds `door`.
fn door_in(list: &Vec<DoorId>, door: DoorId) -> (r: bool)
    ensures
        r == list@.contains(door),
{
    let mut i: usize = 0;
    while i < list.len()
        invariant
            0 <= i <= list@.len(),
            forall|j: int| 0 <= j < i ==> list@[j] != door,
        decreases list@.len() - i,
    {
        if list[i] == door {
            assert(list@[i as int] == door);
            return true;
        }
        i = i + 1;
    }
    false
}

/// Whether `actor` can pass a locked door. Unlocked doors are open to
/// everyone. The player must carry the key; NPCs whose legitimate access
/// covers the room behind the door are presumed to hold its key.
pub fn can_pass_door(world: &World, data: &GameData, actor: ActorId, door: DoorId) -> (r: bool)
    requires
        actor.0 < world.actors@.len(),
        door.0 < world.doors@.len(),
    ensures
        r == spec_can_pass_door(world, data, actor, door),
{
    let key = match &world.door(door).locked_by {
        None => {
            return true;
        },
        Some(key) => key,
    };
    if carries_key(world, data, actor, key) {
        return true;
    }
    let actor_ref = world.actor(actor);
    if actor_ref.is_player() {
        return false;
    }
    let mut i: usize = 0;
    while i < world.rooms.len()
        invariant
            0 <= i <= world.rooms@.len(),
            actor.0 < world.actors@.len(),
            door.0 < world.doors@.len(),
            world.doors@[door.0 as int].locked_by == Some(*key),
            !carries_where(world, data, actor, |s: ItemSpec| s.id@ == key@),
            *actor_ref == world.actors@[actor.0 as int],
            actor_ref.role.is_some(),
            forall|j: int| 0 <= j < i ==> !(#[trigger] world.rooms@[j]).doors@.contains(door),
        decreases world.rooms@.len() - i,
    {
        if door_in(&world.rooms[i].doors, door) {
            proof {
                let rooms = world.rooms@;
                let k = choose|k: int|
                    0 <= k < rooms.len() && rooms[k].doors@.contains(door) && forall|j: int|
                        0 <= j < k ==> !(#[trigger] rooms[j]).doors@.contains(door);
                if k > i {
                    assert(!rooms[i as int].doors@.contains(door));
                }
                assert(spec_room_with_door(rooms, door) == Some(i as int));
            }
            let room = &world.rooms[i];
            return match data.disguise(actor_ref.worn_disguise.as_str()) {
                None => false,
                Some(spec) => zone_in(&spec.zones, room.zone) || holds(
                    &spec.extra_rooms,
                    room.template.as_str(),
                ),
            };
        }
        i = i + 1;
    }
    false
}

} // verus!
