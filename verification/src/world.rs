//! The authoritative world state.
//!
//! Rooms, access, actors, objects, containers, items, mission facts,
//! alertness, routines, and knowledge all live here. Everything is owned by
//! plain vectors indexed by stable domain identifiers, and iteration order
//! is always the vector order, which is deterministic by construction.
use vstd::prelude::*;

use crate::contract::Constraint;
use crate::data::{DisguiseId, GameData, ItemSpec, ItemSpecId, Lighting, Role, RoomTemplateId, WaypointKind, Zone};
use crate::geom::{Dir4, FloorId, Pos};
use crate::map::{DoorId, DoorState, GameMap, TileKind};
use crate::text::str_eq;

verus! {

/// Stable domain identifier of an actor for the whole mission.
#[derive(Clone, Copy, Debug, PartialEq, Eq, Structural, Hash, PartialOrd, Ord)]
pub struct ActorId(pub u32);

/// Stable domain identifier of an item instance.
#[derive(Clone, Copy, Debug, PartialEq, Eq, Structural, Hash, PartialOrd, Ord)]
pub struct ItemId(pub u32);

/// Stable domain identifier of a furniture piece.
#[derive(Clone, Copy, Debug, PartialEq, Eq, Structural, Hash, PartialOrd, Ord)]
pub struct FurnitureId(pub u32);

/// Stable domain identifier of a generated room.
#[derive(Clone, Copy, Debug, PartialEq, Eq, Structural, Hash, PartialOrd, Ord)]
pub struct RoomId(pub u16);

/// Axis-aligned interior rectangle of a room (walls excluded).
#[derive(Clone, Copy, Debug, PartialEq, Eq, Structural)]
pub struct Rect {
    pub x: i16,
    pub y: i16,
    pub w: i16,
    pub h: i16,
}

/// Half of `v`, rounded towards zero as integer division does.
pub open spec fn half(v: int) -> int {
    if v >= 0 {
        v / 2
    } else {
        -((-v) / 2)
    }
}

impl Rect {
    pub open spec fn spec_contains(&self, x: int, y: int) -> bool {
        x >= self.x && y >= self.y && x < self.x + self.w && y < self.y + self.h
    }

    pub fn contains(&self, x: i16, y: i16) -> (r: bool)
        ensures
            r == self.spec_contains(x as int, y as int),
    {
        x >= self.x && y >= self.y && (x as i32) < (self.x as i32) + (self.w as i32) && (y as i32)
            < (self.y as i32) + (self.h as i32)
    }

    pub fn center(&self) -> (r: (i16, i16))
        requires
            i16::MIN <= self.x + half(self.w as int) <= i16::MAX,
            i16::MIN <= self.y + half(self.h as int) <= i16::MAX,
        ensures
            r.0 == self.x + half(self.w as int),
            r.1 == self.y + half(self.h as int),
    {
        (self.x + self.w / 2, self.y + self.h / 2)
    }
}

/// A routine waypoint inside a room.
#[derive(Clone, Copy, Debug, PartialEq, Eq, Structural)]
pub struct Waypoint {
    pub kind: WaypointKind,
    pub pos: Pos,
}

/// One generated room with its metadata, recorded before tiles were laid.
#[derive(Clone, Debug)]
pub struct Room {
    pub id: RoomId,
    pub template: RoomTemplateId,
    pub name: String,
    pub zone: Zone,
    pub floor: FloorId,
    pub bounds: Rect,
    pub lighting: Lighting,
    pub waypoints: Vec<Waypoint>,
    pub doors: Vec<DoorId>,
    pub external_exit: bool,
}

#[derive(Clone, Copy, Debug, PartialEq, Eq, Structural)]
pub enum FurnitureKind {
    /// Desks, tables: block movement; block sight only against crouched
    /// endpoints.
    LowCover,
    /// Crates, freezers: block movement and sight; hold at most one body.
    Container,
    /// Wardrobes: like containers but hold a disguise instead of a body.
    Wardrobe,
    /// An opportunity machine: a fuse box, a rigging winch, a fire alarm.
    Machine,
}

#[derive(Clone, Debug)]
pub struct Furniture {
    pub id: FurnitureId,
    pub kind: FurnitureKind,
    pub pos: Pos,
    /// Body hidden inside (containers only).
    pub body: Option<ActorId>,
    /// Disguise available inside (wardrobes only).
    pub disguise: Option<DisguiseId>,
    /// The opportunity machine this piece is, if any.
    pub machine: Option<String>,
    /// Whether a one-shot machine has been used.
    pub used: bool,
    /// Where a machine's load lands, for machines that drop one.
    pub drop_tile: Option<Pos>,
}

/// Where an item currently is.
#[derive(Clone, Copy, Debug, PartialEq, Eq, Structural)]
pub enum ItemLocation {
    Ground(Pos),
    CarriedBy(ActorId),
}

#[derive(Clone, Debug)]
pub struct ItemInstance {
    pub id: ItemId,
    pub spec: ItemSpecId,
    pub location: ItemLocation,
    /// Remaining uses: pistol rounds for weapons, zero elsewhere.
    pub charges: u16,
}

/// Physical condition of an actor's body.
#[derive(Clone, Copy, Debug, PartialEq, Eq, Structural)]
pub enum BodyCondition {
    Healthy,
    Unconscious,
    Dead,
}

/// What an actor's hands are doing. Carrying a body occupies both hands;
/// a drawn weapon occupies them for garrote purposes.
#[derive(Clone, Copy, Debug, PartialEq, Eq, Structural)]
pub enum Hands {
    Free,
    CarryingBody(ActorId),
    Drawn(ItemId),
}

/// NPC behaviour states. Relaxed actors follow routines on a staggered
/// cadence; every other state acts each turn.
#[derive(Clone, Copy, Debug, PartialEq, Eq, Structural)]
pub enum Mood {
    Relaxed,
    /// Something looked wrong; watching, suspicion accumulating.
    Suspicious,
    /// Moving to a specific spot to check an incident or sighting.
    Investigating,
    /// Knows the player is hostile; pursuing to arrest.
    Alerted,
    /// Escorting the arrested player off the premises.
    Escorting,
    /// Civilians and unarmed staff running for an exit.
    Fleeing,
    /// Lethal combat.
    Combat,
}

impl Mood {
    /// Whether this mood prepares an action every turn rather than on the
    /// relaxed cadence.
    pub fn acts_every_turn(self) -> (r: bool)
        ensures
            r == (self != Mood::Relaxed),
    {
        match self {
            Mood::Relaxed => false,
            _ => true,
        }
    }
}

/// One step of a generated routine: go somewhere, then linger.
#[derive(Clone, Copy, Debug, PartialEq, Eq, Structural)]
pub struct RoutineStep {
    pub pos: Pos,
    pub wait: u16,
}

/// Whether the target is surrounded by its detail or alone at a beat.
#[derive(Clone, Copy, Debug, PartialEq, Eq, Structural)]
pub enum Protection {
    Escorted,
    Alone,
}

/// What moves the schedule onto a beat.
#[derive(Clone, Copy, Debug, PartialEq, Eq, Structural)]
pub enum BeatTrigger {
    /// Visited in order, every cycle.
    Sequential,
}

/// One beat of the target's day: where it stands, for how long, and
/// whether its detail stays with it.
#[derive(Clone, Debug)]
pub struct Beat {
    pub pos: Pos,
    pub dwell: u16,
    pub protection: Protection,
    /// The detail waits outside instead of following.
    pub no_follow: bool,
    pub trigger: BeatTrigger,
    pub tag: String,
}

/// The target's cyclic day.
#[derive(Clone, Debug)]
pub struct Schedule {
    pub beats: Vec<Beat>,
    pub index: usize,
    pub dwell_remaining: u16,
    pub resume_index: Option<usize>,
}

/// Mutable NPC mind: routine progress, mood, memory, and knowledge.
#[derive(Clone, Debug)]
pub struct AiState {
    pub routine: Vec<RoutineStep>,
    pub routine_index: usize,
    /// Turns left lingering at the current routine step.
    pub wait_remaining: u16,
    pub mood: Mood,
    /// Suspicion meter.
    pub suspicion: u16,
    /// Where trouble was last perceived.
    pub focus: Option<Pos>,
    /// Whether this NPC has concluded the player is hostile.
    pub knows_player_hostile: bool,
}

#[derive(Clone, Debug)]
pub struct Actor {
    pub id: ActorId,
    pub name: String,
    /// `None` for the player, who has no role.
    pub role: Option<Role>,
    pub pos: Pos,
    /// NPCs always face somewhere; the player has no facing.
    pub facing: Option<Dir4>,
    pub condition: BodyCondition,
    pub hp: u16,
    pub worn_disguise: DisguiseId,
    pub hands: Hands,
    pub crouched: bool,
    pub is_target: bool,
    /// Tagged VIP civilians carry invitations and favour the VIP lounge.
    pub is_vip: bool,
    /// Present on NPCs, absent on the player.
    pub ai: Option<AiState>,
    /// Set when this body has been stowed in a container (it is off-map).
    pub hidden_in: Option<FurnitureId>,
    /// Set when a fleeing NPC left the premises for good.
    pub departed: bool,
    /// Set when the player dealt this actor's death.
    pub killed_by_player: bool,
}

impl Actor {
    pub open spec fn spec_alive(&self) -> bool {
        self.condition == BodyCondition::Healthy
    }

    pub open spec fn spec_is_visible_body(&self) -> bool {
        self.condition != BodyCondition::Healthy && self.hidden_in.is_none()
    }

    pub fn is_player(&self) -> (r: bool)
        ensures
            r == self.role.is_none(),
    {
        self.role.is_none()
    }

    pub fn alive(&self) -> (r: bool)
        ensures
            r == self.spec_alive(),
    {
        self.condition == BodyCondition::Healthy
    }

    /// A body that can be seen lying on its tile (not hidden, not carried).
    pub fn is_visible_body(&self) -> (r: bool)
        ensures
            r == self.spec_is_visible_body(),
    {
        self.condition != BodyCondition::Healthy && self.hidden_in.is_none()
    }
}

/// What kind of transient event an incident is.
#[derive(Clone, Copy, Debug, PartialEq, Eq, Structural)]
pub enum IncidentKind {
    /// Heard within `radius` regardless of line of sight.
    Gunshot,
    /// A kill in the open; perceived by sight.
    Violence,
    /// A distraction: a thrown noisemaker or a machine's crash.
    Noise,
}

/// A transient world event others can perceive during the same turn.
#[derive(Clone, Copy, Debug, PartialEq, Eq, Structural)]
pub struct Incident {
    pub kind: IncidentKind,
    pub pos: Pos,
    pub radius: i16,
    pub turn: u32,
}

/// Why the mission ended.
#[derive(Clone, Copy, Debug, PartialEq, Eq, Structural)]
pub enum MissionOutcome {
    /// Target dead and the player left through an extraction exit.
    Extracted,
    /// The target fled the venue alive.
    TargetEscaped,
    PlayerKilled,
    Arrested,
}

/// Raw facts derived from the generated world for the briefing.
#[derive(Clone, Debug)]
pub struct MissionFacts {
    pub target_name: String,
    pub target_reason: String,
    /// Room names the target's schedule visits.
    pub target_locations: Vec<String>,
    pub guard_count: usize,
    pub staff_count: usize,
    pub civilian_count: usize,
    /// Disguise names present in the mission.
    pub available_disguises: Vec<String>,
    /// Names of rooms a civilian cannot enter.
    pub restricted_rooms: Vec<String>,
    pub container_count: usize,
    /// Room names offering extraction exits.
    pub extraction_exits: Vec<String>,
}

/// What the generated reachability proof established.
#[derive(Clone, Debug, Default)]
pub struct ProofReport {
    pub obtainable_disguises: Vec<String>,
    pub obtainable_keys: Vec<String>,
    /// (room name, disguise) pairs for wardrobes the proof added.
    pub wardrobes_added: Vec<(String, String)>,
}

/// The complete authoritative simulation state. The tie-breaker random
/// stream for simultaneous resolution is held by the driver beside it.
#[derive(Clone, Debug)]
pub struct World {
    pub seed: u64,
    pub turn: u32,
    pub map: GameMap,
    pub doors: Vec<DoorState>,
    pub rooms: Vec<Room>,
    pub furniture: Vec<Furniture>,
    pub items: Vec<ItemInstance>,
    pub actors: Vec<Actor>,
    pub player: ActorId,
    pub target: ActorId,
    /// Tiles that count as extraction exits when stepped on.
    pub extraction_tiles: Vec<Pos>,
    /// Incidents from the current turn's resolution.
    pub incidents: Vec<Incident>,
    /// Set once any NPC has witnessed the player committing violence.
    pub player_violence_witnessed: bool,
    pub facts: MissionFacts,
    pub proof: ProofReport,
    /// The contract's condition, if the mission runs under one.
    pub constraint: Option<Constraint>,
    /// Why the contract's condition was broken, once it has been.
    pub constraint_breach: Option<String>,
    pub outcome: Option<MissionOutcome>,
}

/// Index of the first room on `pos`'s storey whose interior contains it.
pub open spec fn spec_room_index(rooms: Seq<Room>, pos: Pos) -> Option<int> {
    if exists|i: int| 0 <= i < rooms.len() && room_holds(#[trigger] rooms[i], pos) {
        Some(
            choose|i: int|
                0 <= i < rooms.len() && room_holds(rooms[i], pos) && forall|j: int|
                    0 <= j < i ==> !room_holds(#[trigger] rooms[j], pos),
        )
    } else {
        None
    }
}

/// Whether `room`'s interior contains `pos`.
pub open spec fn room_holds(room: Room, pos: Pos) -> bool {
    room.floor == pos.floor && room.bounds.spec_contains(pos.x as int, pos.y as int)
}

/// The first room whose interior contains `pos`, if any.
pub fn room_containing(rooms: &Vec<Room>, pos: Pos) -> (r: Option<&Room>)
    ensures
        match spec_room_index(rooms@, pos) {
            Some(i) => r == Some(&rooms@[i]),
            None => r.is_none(),
        },
{
    let mut i: usize = 0;
    while i < rooms.len()
        invariant
            0 <= i <= rooms@.len(),
            forall|j: int| 0 <= j < i ==> !room_holds(#[trigger] rooms@[j], pos),
        decreases rooms@.len() - i,
    {
        if rooms[i].floor == pos.floor && rooms[i].bounds.contains(pos.x, pos.y) {
            proof {
                let k = choose|k: int|
                    0 <= k < rooms@.len() && room_holds(rooms@[k], pos) && forall|j: int|
                        0 <= j < k ==> !room_holds(#[trigger] rooms@[j], pos);
                assert(room_holds(rooms@[i as int], pos));
                if k < i {
                } else if k > i {
                    assert(!room_holds(rooms@[i as int], pos));
                }
            }
            return Some(&rooms[i]);
        }
        i = i + 1;
    }
    None
}

/// Whether some actor among `actors` carries the body of `id`.
pub open spec fn carried_among(actors: Seq<Actor>, id: ActorId) -> bool {
    exists|i: int| 0 <= i < actors.len() && (#[trigger] actors[i]).hands == Hands::CarryingBody(id)
}

/// Whether `a` stands on `pos` among `actors`: conscious, present, not
/// hidden, not carried.
pub open spec fn stands_among(actors: Seq<Actor>, a: Actor, pos: Pos) -> bool {
    a.spec_alive() && !a.departed && a.hidden_in.is_none() && !carried_among(actors, a.id) && a.pos == pos
}

/// Index of the first of `actors` standing on `pos`.
pub open spec fn standing_among(actors: Seq<Actor>, pos: Pos) -> Option<int> {
    if exists|i: int| 0 <= i < actors.len() && stands_among(actors, #[trigger] actors[i], pos) {
        Some(
            choose|i: int|
                0 <= i < actors.len() && stands_among(actors, actors[i], pos) && forall|j: int|
                    0 <= j < i ==> !stands_among(actors, #[trigger] actors[j], pos),
        )
    } else {
        None
    }
}

impl World {
    /// Internal consistency the queries rely on: the map is well formed,
    /// every door tile names an existing door, and the player and target
    /// ids name existing actors.
    pub open spec fn wf(&self) -> bool {
        &&& self.map.wf()
        &&& forall|p: Pos|
            (#[trigger] self.map.spec_tile(p)) matches TileKind::Door(id) ==> id.0 < self.doors@.len()
        &&& self.player.0 < self.actors@.len()
        &&& self.target.0 < self.actors@.len()
        &&& forall|i: int| 0 <= i < self.actors@.len() ==> (#[trigger] self.actors@[i]).id.0 == i
    }

    /// Whether `pos` blocks a sight line: terrain, full-height furniture,
    /// and low cover when either endpoint crouches behind it.
    pub open spec fn spec_blocks_sight(&self, either_endpoint_crouched: bool, pos: Pos) -> bool {
        let terrain = match self.map.spec_tile(pos) {
            TileKind::Floor | TileKind::Stairs(_) => false,
            TileKind::Door(id) => !self.door_open(id),
            TileKind::Wall | TileKind::Void => true,
        };
        let furniture = match self.spec_furniture_index(pos) {
            Some(i) => match self.furniture@[i].kind {
                FurnitureKind::LowCover => either_endpoint_crouched,
                _ => true,
            },
            None => false,
        };
        terrain || furniture
    }

    /// Index of the first actor standing on `pos`.
    pub open spec fn spec_standing_index(&self, pos: Pos) -> Option<int> {
        standing_among(self.actors@, pos)
    }

    /// Whether some actor carries the body of `id`.
    pub open spec fn spec_is_carried(&self, id: ActorId) -> bool {
        carried_among(self.actors@, id)
    }

    /// Whether `a` stands on `pos`: conscious, present, not hidden, not
    /// carried.
    pub open spec fn stands_at(&self, a: Actor, pos: Pos) -> bool {
        stands_among(self.actors@, a, pos)
    }

    /// Whether `a` is a visible body lying on `pos`.
    pub open spec fn lies_at(&self, a: Actor, pos: Pos) -> bool {
        a.spec_is_visible_body() && !self.spec_is_carried(a.id) && a.pos == pos
    }

    /// The zone governing a tile: the containing room's, else public.
    pub open spec fn spec_zone_at(&self, pos: Pos) -> Zone {
        match spec_room_index(self.rooms@, pos) {
            Some(i) => self.rooms@[i].zone,
            None => Zone::Public,
        }
    }

    /// Whether a piece of furniture stands on `pos`.
    pub open spec fn furniture_on(&self, pos: Pos) -> bool {
        exists|i: int| 0 <= i < self.furniture@.len() && (#[trigger] self.furniture@[i]).pos == pos
    }

    /// Index of the first piece of furniture on `pos`.
    pub open spec fn spec_furniture_index(&self, pos: Pos) -> Option<int> {
        if self.furniture_on(pos) {
            Some(
                choose|i: int|
                    0 <= i < self.furniture@.len() && self.furniture@[i].pos == pos && forall|j: int|
                        0 <= j < i ==> (#[trigger] self.furniture@[j]).pos != pos,
            )
        } else {
            None
        }
    }

    /// Whether door `id` stands open (unknown doors read as closed).
    pub open spec fn door_open(&self, id: DoorId) -> bool {
        id.0 < self.doors@.len() && self.doors@[id.0 as int].open
    }

    pub fn actor(&self, id: ActorId) -> (r: &Actor)
        requires
            id.0 < self.actors@.len(),
        ensures
            *r == self.actors@[id.0 as int],
    {
        &self.actors[id.0 as usize]
    }

    pub fn player_actor(&self) -> (r: &Actor)
        requires
            self.wf(),
        ensures
            *r == self.actors@[self.player.0 as int],
    {
        self.actor(self.player)
    }

    pub fn door(&self, id: DoorId) -> (r: &DoorState)
        requires
            id.0 < self.doors@.len(),
        ensures
            *r == self.doors@[id.0 as int],
    {
        &self.doors[id.0 as usize]
    }

    /// Whether door `id` exists and stands open.
    pub fn door_is_open(&self, id: DoorId) -> (r: bool)
        ensures
            r == self.door_open(id),
    {
        (id.0 as usize) < self.doors.len() && self.doors[id.0 as usize].open
    }

    pub fn furniture_at(&self, pos: Pos) -> (r: Option<&Furniture>)
        ensures
            match self.spec_furniture_index(pos) {
                Some(i) => r == Some(&self.furniture@[i]),
                None => r.is_none(),
            },
    {
        let mut i: usize = 0;
        while i < self.furniture.len()
            invariant
                0 <= i <= self.furniture@.len(),
                forall|j: int| 0 <= j < i ==> (#[trigger] self.furniture@[j]).pos != pos,
            decreases self.furniture@.len() - i,
        {
            if self.furniture[i].pos == pos {
                proof {
                    assert(self.furniture@[i as int].pos == pos);
                    let k = choose|k: int|
                        0 <= k < self.furniture@.len() && self.furniture@[k].pos == pos && forall|
                            j: int,
                        | 0 <= j < k ==> (#[trigger] self.furniture@[j]).pos != pos;
                    if k > i {
                        assert(self.furniture@[i as int].pos != pos);
                    }
                }
                return Some(&self.furniture[i]);
            }
            i = i + 1;
        }
        None
    }

    pub fn is_carried(&self, id: ActorId) -> (r: bool)
        ensures
            r == self.spec_is_carried(id),
    {
        let mut i: usize = 0;
        while i < self.actors.len()
            invariant
                0 <= i <= self.actors@.len(),
                forall|j: int|
                    0 <= j < i ==> (#[trigger] self.actors@[j]).hands != Hands::CarryingBody(id),
            decreases self.actors@.len() - i,
        {
            if self.actors[i].hands == Hands::CarryingBody(id) {
                return true;
            }
            i = i + 1;
        }
        false
    }

    /// The standing (conscious, unhidden, undeparted) actor on a tile.
    /// Bodies lying on the ground do not occupy their tile for movement.
    pub fn standing_actor_at(&self, pos: Pos) -> (r: Option<&Actor>)
        ensures
            match self.spec_standing_index(pos) {
                Some(i) => r == Some(&self.actors@[i]),
                None => r.is_none(),
            },
            match r {
                Some(a) => exists|i: int|
                    0 <= i < self.actors@.len() && *a == self.actors@[i] && self.stands_at(*a, pos)
                        && forall|j: int| 0 <= j < i ==> !self.stands_at(#[trigger] self.actors@[j], pos),
                None => forall|i: int|
                    0 <= i < self.actors@.len() ==> !self.stands_at(#[trigger] self.actors@[i], pos),
            },
    {
        let mut i: usize = 0;
        while i < self.actors.len()
            invariant
                0 <= i <= self.actors@.len(),
                forall|j: int| 0 <= j < i ==> !self.stands_at(#[trigger] self.actors@[j], pos),
            decreases self.actors@.len() - i,
        {
            let a = &self.actors[i];
            if a.alive() && !a.departed && a.hidden_in.is_none() && !self.is_carried(a.id) && a.pos
                == pos {
                proof {
                    let k = choose|k: int|
                        0 <= k < self.actors@.len() && self.stands_at(self.actors@[k], pos) && forall|j: int|
                            0 <= j < k ==> !self.stands_at(#[trigger] self.actors@[j], pos);
                    assert(self.stands_at(self.actors@[i as int], pos));
                    if k > i {
                        assert(!self.stands_at(self.actors@[i as int], pos));
                    }
                }
                return Some(a);
            }
            i = i + 1;
        }
        None
    }

    /// A visible body lying on a tile (for looting, carrying, and evidence).
    pub fn body_at(&self, pos: Pos) -> (r: Option<&Actor>)
        ensures
            match r {
                Some(a) => exists|i: int|
                    0 <= i < self.actors@.len() && *a == self.actors@[i] && self.lies_at(*a, pos)
                        && forall|j: int| 0 <= j < i ==> !self.lies_at(#[trigger] self.actors@[j], pos),
                None => forall|i: int|
                    0 <= i < self.actors@.len() ==> !self.lies_at(#[trigger] self.actors@[i], pos),
            },
    {
        let mut i: usize = 0;
        while i < self.actors.len()
            invariant
                0 <= i <= self.actors@.len(),
                forall|j: int| 0 <= j < i ==> !self.lies_at(#[trigger] self.actors@[j], pos),
            decreases self.actors@.len() - i,
        {
            let a = &self.actors[i];
            if a.is_visible_body() && !self.is_carried(a.id) && a.pos == pos {
                return Some(a);
            }
            i = i + 1;
        }
        None
    }

    /// Whether a mover may swap places with this actor instead of being
    /// blocked. Civilians and staff step aside for anyone; guards and the
    /// player hold their ground.
    pub fn is_displaceable(&self, id: ActorId) -> (r: bool)
        requires
            id.0 < self.actors@.len(),
        ensures
            r == ({
                let a = self.actors@[id.0 as int];
                a.role.is_some() && a.spec_alive() && !a.departed && a.role != Some(Role::Guard)
            }),
    {
        let actor = self.actor(id);
        !actor.is_player() && actor.alive() && !actor.departed && actor.role != Some(Role::Guard)
    }

    pub fn room_at(&self, pos: Pos) -> (r: Option<&Room>)
        ensures
            match spec_room_index(self.rooms@, pos) {
                Some(i) => r == Some(&self.rooms@[i]),
                None => r.is_none(),
            },
    {
        room_containing(&self.rooms, pos)
    }

    /// The access zone governing a tile. Room interiors carry their room's
    /// zone; corridors, stairs, and doorways are public circulation space.
    pub fn zone_at(&self, pos: Pos) -> (r: Zone)
        ensures
            r == self.spec_zone_at(pos),
    {
        match self.room_at(pos) {
            Some(room) => room.zone,
            None => Zone::Public,
        }
    }

    /// True when terrain or furniture blocks movement onto `pos` (actors
    /// are checked separately by resolution). Closed doors are not hard
    /// blockers: resolution opens unlocked doors on approach.
    pub fn blocks_move(&self, pos: Pos) -> (r: bool)
        requires
            self.wf(),
        ensures
            r == (match self.map.spec_tile(pos) {
                TileKind::Wall | TileKind::Void => true,
                _ => self.furniture_on(pos),
            }),
    {
        let open_door = |id: DoorId| -> (b: bool)
            ensures
                b == self.door_open(id),
        {
            self.door_is_open(id)
        };
        let walkable = self.map.walkable(pos, open_door);
        if !walkable {
            match self.map.tile(pos) {
                TileKind::Door(_) => {},
                _ => {
                    return true;
                },
            }
        }
        let f = self.furniture_at(pos);
        f.is_some()
    }

    /// Whether `pos` blocks a sight line: terrain, high furniture, and low
    /// cover when either endpoint crouches behind it.
    pub fn sight_blocker(&self, either_endpoint_crouched: bool, pos: Pos) -> (r: bool)
        requires
            self.wf(),
        ensures
            r == self.spec_blocks_sight(either_endpoint_crouched, pos),
    {
        let open_door = |id: DoorId| -> (b: bool)
            ensures
                b == self.door_open(id),
        {
            self.door_is_open(id)
        };
        if self.map.terrain_blocks_sight(pos, open_door) {
            return true;
        }
        match self.furniture_at(pos) {
            Some(f) => match f.kind {
                FurnitureKind::LowCover => either_endpoint_crouched,
                _ => true,
            },
            None => false,
        }
    }

    /// Ids of the items lying on a tile, in item order.
    pub fn items_at(&self, pos: Pos) -> (r: Vec<ItemId>)
        ensures
            r@ == self.items@.filter(|i: ItemInstance| i.location == ItemLocation::Ground(pos)).map_values(
                |i: ItemInstance| i.id,
            ),
    {
        items_where(&self.items, ItemLocation::Ground(pos))
    }

    /// Ids of the items carried by an actor, in item order.
    pub fn carried_items(&self, actor: ActorId) -> (r: Vec<ItemId>)
        ensures
            r@ == self.items@.filter(|i: ItemInstance| i.location == ItemLocation::CarriedBy(actor)).map_values(
                |i: ItemInstance| i.id,
            ),
    {
        items_where(&self.items, ItemLocation::CarriedBy(actor))
    }

    /// Whether an actor carries an item whose spec is known and satisfies
    /// `predicate`.
    pub fn carries(&self, actor: ActorId, data: &GameData, predicate: impl Fn(&ItemSpec) -> bool) -> (r:
        bool)
        requires
            forall|s: &ItemSpec| predicate.requires((s,)),
        ensures
            r ==> exists|i: int|
                0 <= i < self.items@.len() && (#[trigger] self.items@[i]).location
                    == ItemLocation::CarriedBy(actor) && spec_satisfied(
                    data,
                    self.items@[i].spec@,
                    predicate,
                    true,
                ),
            !r ==> forall|i: int|
                0 <= i < self.items@.len() && (#[trigger] self.items@[i]).location
                    == ItemLocation::CarriedBy(actor) ==> spec_satisfied(
                    data,
                    self.items@[i].spec@,
                    predicate,
                    false,
                ),
    {
        let mut i: usize = 0;
        while i < self.items.len()
            invariant
                0 <= i <= self.items@.len(),
                forall|s: &ItemSpec| predicate.requires((s,)),
                forall|j: int|
                    0 <= j < i && (#[trigger] self.items@[j]).location == ItemLocation::CarriedBy(actor)
                        ==> spec_satisfied(data, self.items@[j].spec@, predicate, false),
            decreases self.items@.len() - i,
        {
            if self.items[i].location == ItemLocation::CarriedBy(actor) {
                let found = data.item(self.items[i].spec.as_str());
                match found {
                    Some(spec) => {
                        if predicate(spec) {
                            return true;
                        }
                    },
                    None => {},
                }
            }
            i = i + 1;
        }
        false
    }
}

/// Whether the item spec `id` resolves in `data` and `predicate` answers
/// `answer` for it; an unknown spec counts as answering `false`.
pub open spec fn spec_satisfied<F: Fn(&ItemSpec) -> bool>(data: &GameData, id: Seq<char>, predicate: F, answer: bool) -> bool {
    match data.spec_item(id) {
        Some(spec) => predicate.ensures((&spec,), answer),
        None => !answer,
    }
}

/// Ids of the items at `location`, in item order.
fn items_where(items: &Vec<ItemInstance>, location: ItemLocation) -> (r: Vec<ItemId>)
    ensures
        r@ == items@.filter(|i: ItemInstance| i.location == location).map_values(|i: ItemInstance| i.id),
{
    let ghost pred = |i: ItemInstance| i.location == location;
    let mut r: Vec<ItemId> = Vec::new();
    let mut k: usize = 0;
    while k < items.len()
        invariant
            0 <= k <= items@.len(),
            pred == (|i: ItemInstance| i.location == location),
            r@ == items@.subrange(0, k as int).filter(pred).map_values(|i: ItemInstance| i.id),
        decreases items@.len() - k,
    {
        let ghost before = r@;
        proof {
            let s = items@.subrange(0, k as int + 1);
            assert(s.drop_last() == items@.subrange(0, k as int));
            reveal_with_fuel(Seq::filter, 1);
        }
        if items[k].location == location {
            r.push(items[k].id);
        }
        proof {
            let s = items@.subrange(0, k as int + 1);
            assert(s.last() == items@[k as int]);
            if pred(s.last()) {
                assert(s.filter(pred) == s.drop_last().filter(pred).push(s.last()));
            } else {
                assert(s.filter(pred) == s.drop_last().filter(pred));
            }
            assert(r@ == s.filter(pred).map_values(|i: ItemInstance| i.id));
        }
        k = k + 1;
    }
    assert(items@.subrange(0, items@.len() as int) == items@);
    r
}

} // verus!
