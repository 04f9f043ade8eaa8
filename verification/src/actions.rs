//! Primitive actions: commands, intents, rejection, and durations.
//!
//! * [`Command`]: a queued player intention. Never prevalidated; carries
//!   stable domain IDs for targets, resolved only at execution time.
//! * [`ActionIntent`]: a controller-neutral primitive action for one
//!   specific turn. Human, AI, replay, and test controllers all submit the
//!   same intents.
//! * Rejection ([`RejectReason`]) is pure and happens before a turn: no
//!   time passes and nothing changes.
use vstd::prelude::*;

use crate::access::{can_pass_door, spec_can_pass_door};
use crate::data::{GameData, ItemSpec, Role};
use crate::geom::{spec_supercover, Dir4, Pos};
use crate::loc::Catalogue;
use crate::map::{line_of_sight, DoorId, TileKind};
use crate::text::str_eq;
use crate::world::{
    Actor, ActorId, FurnitureId, FurnitureKind, Hands, ItemId, ItemLocation, World,
};

verus! {

/// A queued player intention. Targets are stable domain IDs captured when
/// the command was written, validated against the live world only when
/// the command reaches the queue head.
#[derive(Clone, Copy, Debug, PartialEq, Eq, Structural)]
pub enum Command {
    Move(Dir4),
    Wait,
    ToggleCrouch,
    OpenDoor(DoorId),
    CloseDoor(DoorId),
    Garrote(ActorId),
    Shoot(ActorId),
    /// Steals from the living; loots the dead and unconscious.
    Pickpocket(ActorId),
    TakeDisguiseFromBody(ActorId),
    TakeDisguiseFromWardrobe(FurnitureId),
    CarryBody(ActorId),
    /// `None` drops on the carrier's tile; `Some(dir)` drops adjacent.
    DropBody(Option<Dir4>),
    HideBody(FurnitureId),
    DrawOrHolster,
    /// Pick a locked door open with lockpicks.
    PickLock(DoorId),
    /// Throw a noisemaker charge at a visible tile.
    ThrowNoisemaker(Pos),
    /// Use an adjacent opportunity machine.
    Interact(FurnitureId),
}

/// Where a disguise change sources its clothes.
#[derive(Clone, Copy, Debug, PartialEq, Eq, Structural)]
pub enum DisguiseSource {
    Body(ActorId),
    Wardrobe(FurnitureId),
}

/// A controller-neutral primitive action prepared for one specific turn.
#[derive(Clone, Copy, Debug, PartialEq, Eq, Structural)]
pub enum ActionIntent {
    Wait,
    Step(Dir4),
    ToggleCrouch,
    OpenDoor(DoorId),
    CloseDoor(DoorId),
    Garrote(ActorId),
    Shoot(ActorId),
    Pickpocket(ActorId),
    TakeDisguise(DisguiseSource),
    CarryBody(ActorId),
    /// `None` drops on the carrier's tile; `Some(dir)` drops adjacent.
    DropBody(Option<Dir4>),
    HideBody(FurnitureId),
    DrawOrHolster,
    PickLock(DoorId),
    Throw(Pos),
    Interact(FurnitureId),
    /// Turn on the spot to face a direction.
    TurnFacing(Dir4),
    /// Adjacent lethal melee.
    MeleeAttack(ActorId),
    /// Adjacent arrest ending the mission.
    Arrest(ActorId),
}

/// What stopped a move or a throw.
#[derive(Clone, Copy, Debug, PartialEq, Eq, Structural)]
pub enum Blockage {
    Wall,
    Terrain,
    Furniture,
    Body,
    /// A noisemaker throw with no landing tile.
    NoThrowTarget,
}

/// Why a command could not be submitted from the pre-turn state.
/// Rejection is pure: no turn passes, no state mutates, no randomness is
/// consumed, and prepared AI actions stay fixed.
#[derive(Clone, Copy, Debug, PartialEq, Eq, Structural)]
pub enum RejectReason {
    PathBlocked(Blockage),
    OccupiedByActor,
    DoorIsLocked,
    DoorAlreadyOpen,
    DoorAlreadyClosed,
    DoorNotAdjacent,
    DoorBlocked,
    NotAdjacent,
    TargetGone,
    NotBehindTarget,
    HandsNotFree,
    NotCarryingBody,
    NotAContainer,
    ContainerOccupied,
    NoDisguiseThere,
    TargetNotIncapacitated,
    InventoryFull,
    NothingToSteal,
    NoWeaponCarried,
    NoAmmo,
    WeaponNotDrawn,
    TargetNotVisible,
    OutOfRange,
    NoGarrote,
    NoLockpicks,
    DoorNotLocked,
    NoNoisemaker,
    NothingToUse,
    MachineSpent,
    MissionOver,
}

impl Blockage {
    /// The catalogue id of the blockage's message.
    pub open spec fn message_id(self) -> Seq<char> {
        match self {
            Blockage::Wall => "reject.blocked_wall"@,
            Blockage::Terrain => "reject.blocked_terrain"@,
            Blockage::Furniture => "reject.blocked_furniture"@,
            Blockage::Body => "reject.blocked_body"@,
            Blockage::NoThrowTarget => "reject.no_throw_target"@,
        }
    }

    pub fn message(self, catalogue: &Catalogue) -> (r: String)
        ensures
            r@ == catalogue.spec_text(self.message_id()),
    {
        match self {
            Blockage::Wall => catalogue.text("reject.blocked_wall"),
            Blockage::Terrain => catalogue.text("reject.blocked_terrain"),
            Blockage::Furniture => catalogue.text("reject.blocked_furniture"),
            Blockage::Body => catalogue.text("reject.blocked_body"),
            Blockage::NoThrowTarget => catalogue.text("reject.no_throw_target"),
        }
    }
}

impl RejectReason {
    /// The catalogue id of the rejection's message.
    pub open spec fn message_id(self) -> Seq<char> {
        match self {
            RejectReason::PathBlocked(what) => what.message_id(),
            RejectReason::OccupiedByActor => "reject.occupied"@,
            RejectReason::DoorIsLocked => "reject.door_locked"@,
            RejectReason::DoorAlreadyOpen => "reject.door_open"@,
            RejectReason::DoorAlreadyClosed => "reject.door_closed"@,
            RejectReason::DoorNotAdjacent => "reject.door_far"@,
            RejectReason::DoorBlocked => "reject.door_blocked"@,
            RejectReason::NotAdjacent => "reject.not_adjacent"@,
            RejectReason::TargetGone => "reject.target_gone"@,
            RejectReason::NotBehindTarget => "reject.not_behind"@,
            RejectReason::HandsNotFree => "reject.hands_busy"@,
            RejectReason::NotCarryingBody => "reject.not_carrying_body"@,
            RejectReason::NotAContainer => "reject.not_container"@,
            RejectReason::ContainerOccupied => "reject.container_full"@,
            RejectReason::NoDisguiseThere => "reject.no_disguise"@,
            RejectReason::TargetNotIncapacitated => "reject.target_conscious"@,
            RejectReason::InventoryFull => "reject.inventory_full"@,
            RejectReason::NothingToSteal => "reject.nothing_to_steal"@,
            RejectReason::NoWeaponCarried => "reject.no_weapon"@,
            RejectReason::NoAmmo => "reject.no_ammo"@,
            RejectReason::WeaponNotDrawn => "reject.weapon_holstered"@,
            RejectReason::TargetNotVisible => "reject.not_visible"@,
            RejectReason::OutOfRange => "reject.out_of_range"@,
            RejectReason::NoGarrote => "reject.no_garrote"@,
            RejectReason::NoLockpicks => "reject.no_lockpicks"@,
            RejectReason::DoorNotLocked => "reject.door_not_locked"@,
            RejectReason::NoNoisemaker => "reject.no_noisemaker"@,
            RejectReason::NothingToUse => "reject.nothing_to_use"@,
            RejectReason::MachineSpent => "reject.machine_spent"@,
            RejectReason::MissionOver => "reject.mission_over"@,
        }
    }

    pub fn message(&self, catalogue: &Catalogue) -> (r: String)
        ensures
            r@ == catalogue.spec_text(self.message_id()),
    {
        match self {
            RejectReason::PathBlocked(what) => what.message(catalogue),
            RejectReason::OccupiedByActor => catalogue.text("reject.occupied"),
            RejectReason::DoorIsLocked => catalogue.text("reject.door_locked"),
            RejectReason::DoorAlreadyOpen => catalogue.text("reject.door_open"),
            RejectReason::DoorAlreadyClosed => catalogue.text("reject.door_closed"),
            RejectReason::DoorNotAdjacent => catalogue.text("reject.door_far"),
            RejectReason::DoorBlocked => catalogue.text("reject.door_blocked"),
            RejectReason::NotAdjacent => catalogue.text("reject.not_adjacent"),
            RejectReason::TargetGone => catalogue.text("reject.target_gone"),
            RejectReason::NotBehindTarget => catalogue.text("reject.not_behind"),
            RejectReason::HandsNotFree => catalogue.text("reject.hands_busy"),
            RejectReason::NotCarryingBody => catalogue.text("reject.not_carrying_body"),
            RejectReason::NotAContainer => catalogue.text("reject.not_container"),
            RejectReason::ContainerOccupied => catalogue.text("reject.container_full"),
            RejectReason::NoDisguiseThere => catalogue.text("reject.no_disguise"),
            RejectReason::TargetNotIncapacitated => catalogue.text("reject.target_conscious"),
            RejectReason::InventoryFull => catalogue.text("reject.inventory_full"),
            RejectReason::NothingToSteal => catalogue.text("reject.nothing_to_steal"),
            RejectReason::NoWeaponCarried => catalogue.text("reject.no_weapon"),
            RejectReason::NoAmmo => catalogue.text("reject.no_ammo"),
            RejectReason::WeaponNotDrawn => catalogue.text("reject.weapon_holstered"),
            RejectReason::TargetNotVisible => catalogue.text("reject.not_visible"),
            RejectReason::OutOfRange => catalogue.text("reject.out_of_range"),
            RejectReason::NoGarrote => catalogue.text("reject.no_garrote"),
            RejectReason::NoLockpicks => catalogue.text("reject.no_lockpicks"),
            RejectReason::DoorNotLocked => catalogue.text("reject.door_not_locked"),
            RejectReason::NoNoisemaker => catalogue.text("reject.no_noisemaker"),
            RejectReason::NothingToUse => catalogue.text("reject.nothing_to_use"),
            RejectReason::MachineSpent => catalogue.text("reject.machine_spent"),
            RejectReason::MissionOver => catalogue.text("reject.mission_over"),
        }
    }
}

/// One prepared, frozen action for the upcoming turn.
#[derive(Clone, Copy, Debug, PartialEq, Eq, Structural)]
pub struct PreparedAction {
    pub actor: ActorId,
    pub intent: ActionIntent,
    /// Turns until the effect applies. 1 means "this turn".
    pub remaining: u16,
}

/// How one actor's action ended this turn.
#[derive(Clone, Debug, PartialEq, Eq)]
pub enum ActionResult {
    Completed,
    InProgress,
    Failed(String),
}

/// Everything presentation needs to narrate one resolved turn.
#[derive(Clone, Debug, Default)]
pub struct TurnEvents {
    pub messages: Vec<String>,
    /// The line announcing a contract breach, if one happened this turn.
    pub breach: Option<String>,
    /// The player's action outcome this turn, if the player acted.
    pub player_result: Option<ActionResult>,
}

/// The player's six general inventory slots.
pub const INVENTORY_SLOTS: usize = 6;

// ---------------------------------------------------------------------
// What a command needs from the world.
// ---------------------------------------------------------------------
/// What the player looks for among the items an actor carries.
#[derive(Clone, Copy, Debug, PartialEq, Eq, Structural)]
pub enum Wanted {
    /// A melee weapon that is not a firearm.
    Garrote,
    Firearm,
    Lockpick,
    Noisemaker,
    /// Anything pickpocketable; anything at all on a body.
    Loot { dead: bool },
}

/// Whether item spec `s` is what `k` looks for.
pub open spec fn wanted(k: Wanted, s: ItemSpec) -> bool {
    match k {
        Wanted::Garrote => s.weapon && !s.firearm,
        Wanted::Firearm => s.firearm,
        Wanted::Lockpick => s.lockpick,
        Wanted::Noisemaker => s.noisemaker,
        Wanted::Loot { dead } => s.pickpocketable || dead,
    }
}

/// The item spec an item instance names, if the data knows it.
#[verifier::opaque]
pub open spec fn spec_of(d: &GameData, id: Seq<char>) -> Option<ItemSpec> {
    d.spec_item(id)
}

/// Whether item `i` is carried by `actor` and has a known spec that is
/// what `k` looks for.
pub open spec fn carried_match(w: &World, d: &GameData, actor: ActorId, k: Wanted, i: int) -> bool {
    &&& 0 <= i < w.items@.len()
    &&& w.items@[i].location == ItemLocation::CarriedBy(actor)
    &&& match spec_of(d, w.items@[i].spec@) {
        Some(s) => wanted(k, s),
        None => false,
    }
}

/// The first item `actor` carries that is what `k` looks for.
pub open spec fn first_carried(w: &World, d: &GameData, actor: ActorId, k: Wanted) -> Option<int> {
    if exists|i: int| #[trigger] carried_match(w, d, actor, k, i) {
        Some(
            choose|i: int|
                carried_match(w, d, actor, k, i) && forall|j: int|
                    0 <= j < i ==> !#[trigger] carried_match(w, d, actor, k, j),
        )
    } else {
        None
    }
}

/// How many items `actor` carries.
pub open spec fn carried_count(w: &World, actor: ActorId) -> nat {
    w.items@.filter(|i: crate::world::ItemInstance| i.location == ItemLocation::CarriedBy(actor)).len()
}

/// Whether an unobstructed sight line joins `from` and `to`.
pub open spec fn spec_sees(w: &World, from: Pos, to: Pos, crouched: bool) -> bool {
    &&& from.floor == to.floor
    &&& forall|i: int|
        0 <= i < spec_supercover(from, to).len() ==> !w.spec_blocks_sight(
            crouched,
            #[trigger] spec_supercover(from, to)[i],
        )
}

/// Whether civilians and staff step aside for a mover: guards and the
/// player hold their ground.
pub open spec fn spec_displaceable(a: Actor) -> bool {
    a.role.is_some() && a.spec_alive() && !a.departed && a.role != Some(Role::Guard)
}

/// Why stepping onto `dest` fails, if it does.
pub open spec fn step_problem(w: &World, dest: Pos) -> Option<RejectReason> {
    let landing = w.map.spec_step_destination(dest);
    if w.furniture_on(dest) {
        Some(RejectReason::PathBlocked(Blockage::Furniture))
    } else {
        match w.spec_standing_index(landing) {
            Some(i) => if landing != dest || !spec_displaceable(w.actors@[i]) {
                Some(RejectReason::OccupiedByActor)
            } else {
                None
            },
            None => None,
        }
    }
}

/// Why dropping a body onto `dest` fails, if it does.
pub open spec fn drop_problem(w: &World, dest: Pos, carrier: ActorId) -> Option<RejectReason> {
    let walkable = match w.map.spec_tile(dest) {
        TileKind::Floor | TileKind::Stairs(_) => true,
        TileKind::Door(id) => w.door_open(id),
        TileKind::Wall | TileKind::Void => false,
    };
    if !walkable {
        Some(RejectReason::PathBlocked(Blockage::Terrain))
    } else if w.furniture_on(dest) {
        Some(RejectReason::PathBlocked(Blockage::Furniture))
    } else if w.spec_standing_index(dest) matches Some(i) && w.actors@[i].id != carrier {
        Some(RejectReason::OccupiedByActor)
    } else if exists|i: int| 0 <= i < w.actors@.len() && w.lies_at(#[trigger] w.actors@[i], dest) {
        Some(RejectReason::PathBlocked(Blockage::Body))
    } else {
        None
    }
}

/// The tile next to `from` (checking north, east, south, west) that is
/// door `id`.
pub open spec fn spec_adjacent_door(w: &World, from: Pos, id: DoorId) -> Option<Pos> {
    if w.map.spec_tile(from.spec_step(Dir4::North)) == TileKind::Door(id) {
        Some(from.spec_step(Dir4::North))
    } else if w.map.spec_tile(from.spec_step(Dir4::East)) == TileKind::Door(id) {
        Some(from.spec_step(Dir4::East))
    } else if w.map.spec_tile(from.spec_step(Dir4::South)) == TileKind::Door(id) {
        Some(from.spec_step(Dir4::South))
    } else if w.map.spec_tile(from.spec_step(Dir4::West)) == TileKind::Door(id) {
        Some(from.spec_step(Dir4::West))
    } else {
        None
    }
}

/// The first machine whose id is `id`.
pub open spec fn spec_machine_index(w: &World, id: FurnitureId) -> Option<int> {
    if exists|i: int|
        0 <= i < w.furniture@.len() && (#[trigger] w.furniture@[i]).id == id && w.furniture@[i].kind
            == FurnitureKind::Machine {
        Some(
            choose|i: int|
                0 <= i < w.furniture@.len() && w.furniture@[i].id == id && w.furniture@[i].kind
                    == FurnitureKind::Machine && forall|j: int|
                    0 <= j < i ==> !((#[trigger] w.furniture@[j]).id == id && w.furniture@[j].kind
                        == FurnitureKind::Machine),
        )
    } else {
        None
    }
}

/// What the world must satisfy for a command to be judged at all: the
/// world is well formed, the player and any target stand away from the
/// edge of the coordinate range, and every target id names an actor.
pub open spec fn translatable(w: &World, c: Command) -> bool {
    let p = w.actors@[w.player.0 as int];
    &&& w.wf()
    &&& forall|d: Dir4| #[trigger] p.pos.can_step(d)
    &&& match c {
        Command::Garrote(t) => t.0 < w.actors@.len() && forall|d: Dir4|
            #[trigger] w.actors@[t.0 as int].pos.can_step(d),
        Command::Shoot(t) => t.0 < w.actors@.len() && p.pos.spec_chebyshev(w.actors@[t.0 as int].pos)
            <= i16::MAX,
        Command::Pickpocket(t) | Command::TakeDisguiseFromBody(t) | Command::CarryBody(t) => t.0
            < w.actors@.len(),
        Command::ThrowNoisemaker(q) => p.pos.spec_chebyshev(q) <= i16::MAX,
        _ => true,
    }
}

/// The verdict on moving one step in `dir`.
pub open spec fn judge_move(w: &World, d: &GameData, dir: Dir4) -> Result<ActionIntent, RejectReason> {
    let p = w.actors@[w.player.0 as int];
    let dest = p.pos.spec_step(dir);
    match w.map.spec_tile(dest) {
        TileKind::Wall | TileKind::Void => Err(RejectReason::PathBlocked(Blockage::Wall)),
        TileKind::Door(id) => if !w.doors@[id.0 as int].open && !spec_can_pass_door(w, d, w.player, id) {
            Err(RejectReason::DoorIsLocked)
        } else if w.doors@[id.0 as int].open && step_problem(w, dest) is Some {
            Err(step_problem(w, dest).unwrap())
        } else {
            Ok(ActionIntent::Step(dir))
        },
        TileKind::Floor | TileKind::Stairs(_) => match step_problem(w, dest) {
            Some(e) => Err(e),
            None => Ok(ActionIntent::Step(dir)),
        },
    }
}

/// The verdict on opening door `id`.
pub open spec fn judge_open(w: &World, d: &GameData, id: DoorId) -> Result<ActionIntent, RejectReason> {
    let p = w.actors@[w.player.0 as int];
    if spec_adjacent_door(w, p.pos, id) is None {
        Err(RejectReason::DoorNotAdjacent)
    } else if w.doors@[id.0 as int].open {
        Err(RejectReason::DoorAlreadyOpen)
    } else if !spec_can_pass_door(w, d, w.player, id) {
        Err(RejectReason::DoorIsLocked)
    } else {
        Ok(ActionIntent::OpenDoor(id))
    }
}

/// The verdict on closing door `id`.
pub open spec fn judge_close(w: &World, id: DoorId) -> Result<ActionIntent, RejectReason> {
    let p = w.actors@[w.player.0 as int];
    match spec_adjacent_door(w, p.pos, id) {
        None => Err(RejectReason::DoorNotAdjacent),
        Some(door_pos) => if !w.doors@[id.0 as int].open {
            Err(RejectReason::DoorAlreadyClosed)
        } else if w.spec_standing_index(door_pos) is Some {
            Err(RejectReason::DoorBlocked)
        } else {
            Ok(ActionIntent::CloseDoor(id))
        },
    }
}

/// The verdict on garrotting `t`.
pub open spec fn judge_garrote(w: &World, d: &GameData, t: ActorId) -> Result<ActionIntent, RejectReason> {
    let p = w.actors@[w.player.0 as int];
    let tr = w.actors@[t.0 as int];
    if first_carried(w, d, w.player, Wanted::Garrote) is None {
        Err(RejectReason::NoGarrote)
    } else if !tr.spec_alive() || tr.hidden_in is Some {
        Err(RejectReason::TargetGone)
    } else if p.hands != Hands::Free {
        Err(RejectReason::HandsNotFree)
    } else {
        match tr.facing {
            None => Err(RejectReason::TargetGone),
            Some(f) => if tr.pos.spec_step(f.spec_opposite()) != p.pos {
                Err(RejectReason::NotBehindTarget)
            } else {
                Ok(ActionIntent::Garrote(t))
            },
        }
    }
}

/// The verdict on shooting `t`.
pub open spec fn judge_shoot(w: &World, d: &GameData, t: ActorId) -> Result<ActionIntent, RejectReason> {
    let p = w.actors@[w.player.0 as int];
    let tr = w.actors@[t.0 as int];
    match first_carried(w, d, w.player, Wanted::Firearm) {
        None => Err(RejectReason::NoWeaponCarried),
        Some(k) => {
            let pistol = w.items@[k];
            if p.hands is CarryingBody {
                Err(RejectReason::HandsNotFree)
            } else if p.hands != Hands::Drawn(pistol.id) {
                Err(RejectReason::WeaponNotDrawn)
            } else if pistol.charges == 0 {
                Err(RejectReason::NoAmmo)
            } else if !tr.spec_alive() || tr.hidden_in is Some {
                Err(RejectReason::TargetGone)
            } else if p.pos.floor != tr.pos.floor || p.pos.spec_chebyshev(tr.pos)
                > d.tuning.pistol_range {
                Err(RejectReason::OutOfRange)
            } else if !spec_sees(w, p.pos, tr.pos, p.crouched || tr.crouched) {
                Err(RejectReason::TargetNotVisible)
            } else {
                Ok(ActionIntent::Shoot(t))
            }
        },
    }
}

/// The verdict on picking `t`'s pockets.
pub open spec fn judge_pickpocket(w: &World, d: &GameData, t: ActorId) -> Result<ActionIntent, RejectReason> {
    let p = w.actors@[w.player.0 as int];
    let tr = w.actors@[t.0 as int];
    if tr.hidden_in is Some || w.spec_is_carried(t) {
        Err(RejectReason::TargetGone)
    } else if !p.pos.spec_adjacent(tr.pos) && p.pos != tr.pos {
        Err(RejectReason::NotAdjacent)
    } else if first_carried(w, d, t, Wanted::Loot { dead: !tr.spec_alive() }) is None {
        Err(RejectReason::NothingToSteal)
    } else if carried_count(w, w.player) >= INVENTORY_SLOTS {
        Err(RejectReason::InventoryFull)
    } else {
        Ok(ActionIntent::Pickpocket(t))
    }
}

/// The verdict on taking the clothes off `t`'s body.
pub open spec fn judge_take_from_body(w: &World, t: ActorId) -> Result<ActionIntent, RejectReason> {
    let p = w.actors@[w.player.0 as int];
    let tr = w.actors@[t.0 as int];
    if tr.spec_alive() {
        Err(RejectReason::TargetNotIncapacitated)
    } else if tr.hidden_in is Some || w.spec_is_carried(t) {
        Err(RejectReason::TargetGone)
    } else if !p.pos.spec_adjacent(tr.pos) && p.pos != tr.pos {
        Err(RejectReason::NotAdjacent)
    } else if p.hands != Hands::Free {
        Err(RejectReason::HandsNotFree)
    } else if tr.worn_disguise@ == p.worn_disguise@ {
        Err(RejectReason::NoDisguiseThere)
    } else {
        Ok(ActionIntent::TakeDisguise(DisguiseSource::Body(t)))
    }
}

/// The verdict on changing into the disguise in wardrobe `id`.
pub open spec fn judge_take_from_wardrobe(w: &World, id: FurnitureId) -> Result<ActionIntent, RejectReason> {
    let p = w.actors@[w.player.0 as int];
    if id.0 >= w.furniture@.len() {
        Err(RejectReason::TargetGone)
    } else {
        let f = w.furniture@[id.0 as int];
        if f.kind != FurnitureKind::Wardrobe {
            Err(RejectReason::NoDisguiseThere)
        } else if !p.pos.spec_adjacent(f.pos) {
            Err(RejectReason::NotAdjacent)
        } else if p.hands != Hands::Free {
            Err(RejectReason::HandsNotFree)
        } else if f.disguise matches Some(g) && g@ != p.worn_disguise@ {
            Ok(ActionIntent::TakeDisguise(DisguiseSource::Wardrobe(id)))
        } else {
            Err(RejectReason::NoDisguiseThere)
        }
    }
}

/// The verdict on picking up `t`'s body.
pub open spec fn judge_carry(w: &World, t: ActorId) -> Result<ActionIntent, RejectReason> {
    let p = w.actors@[w.player.0 as int];
    let tr = w.actors@[t.0 as int];
    if !tr.spec_is_visible_body() || w.spec_is_carried(t) {
        Err(RejectReason::TargetGone)
    } else if !p.pos.spec_adjacent(tr.pos) && p.pos != tr.pos {
        Err(RejectReason::NotAdjacent)
    } else if p.hands != Hands::Free {
        Err(RejectReason::HandsNotFree)
    } else {
        Ok(ActionIntent::CarryBody(t))
    }
}

/// The verdict on putting a carried body down.
pub open spec fn judge_drop(w: &World, dir: Option<Dir4>) -> Result<ActionIntent, RejectReason> {
    let p = w.actors@[w.player.0 as int];
    if !(p.hands is CarryingBody) {
        Err(RejectReason::NotCarryingBody)
    } else {
        let dest = match dir {
            Some(d) => p.pos.spec_step(d),
            None => p.pos,
        };
        match drop_problem(w, dest, p.id) {
            Some(e) => Err(e),
            None => Ok(ActionIntent::DropBody(dir)),
        }
    }
}

/// The verdict on stowing a carried body in container `id`.
pub open spec fn judge_hide(w: &World, id: FurnitureId) -> Result<ActionIntent, RejectReason> {
    let p = w.actors@[w.player.0 as int];
    if !(p.hands is CarryingBody) {
        Err(RejectReason::NotCarryingBody)
    } else if id.0 >= w.furniture@.len() {
        Err(RejectReason::NotAContainer)
    } else {
        let f = w.furniture@[id.0 as int];
        if f.kind != FurnitureKind::Container {
            Err(RejectReason::NotAContainer)
        } else if !p.pos.spec_adjacent(f.pos) {
            Err(RejectReason::NotAdjacent)
        } else if f.body is Some {
            Err(RejectReason::ContainerOccupied)
        } else {
            Ok(ActionIntent::HideBody(id))
        }
    }
}

/// The verdict on drawing or holstering the pistol.
pub open spec fn judge_draw(w: &World, d: &GameData) -> Result<ActionIntent, RejectReason> {
    let p = w.actors@[w.player.0 as int];
    match first_carried(w, d, w.player, Wanted::Firearm) {
        None => Err(RejectReason::NoWeaponCarried),
        Some(k) => if p.hands == Hands::Free || p.hands == Hands::Drawn(w.items@[k].id) {
            Ok(ActionIntent::DrawOrHolster)
        } else {
            Err(RejectReason::HandsNotFree)
        },
    }
}

/// The verdict on picking the lock of `door`.
pub open spec fn judge_pick_lock(w: &World, d: &GameData, door: DoorId) -> Result<ActionIntent, RejectReason> {
    let p = w.actors@[w.player.0 as int];
    if first_carried(w, d, w.player, Wanted::Lockpick) is None {
        Err(RejectReason::NoLockpicks)
    } else if spec_adjacent_door(w, p.pos, door) is None {
        Err(RejectReason::DoorNotAdjacent)
    } else if w.doors@[door.0 as int].locked_by is None {
        Err(RejectReason::DoorNotLocked)
    } else if p.hands != Hands::Free {
        Err(RejectReason::HandsNotFree)
    } else {
        Ok(ActionIntent::PickLock(door))
    }
}

/// The verdict on throwing a noisemaker at `pos`.
pub open spec fn judge_throw(w: &World, d: &GameData, pos: Pos) -> Result<ActionIntent, RejectReason> {
    let p = w.actors@[w.player.0 as int];
    if !(first_carried(w, d, w.player, Wanted::Noisemaker) matches Some(k) && w.items@[k].charges
        > 0) {
        Err(RejectReason::NoNoisemaker)
    } else if p.pos.floor != pos.floor || p.pos.spec_chebyshev(pos) > d.tuning.noisemaker_range {
        Err(RejectReason::OutOfRange)
    } else if w.map.spec_tile(pos) is Wall || w.map.spec_tile(pos) is Void {
        Err(RejectReason::PathBlocked(Blockage::NoThrowTarget))
    } else if !spec_sees(w, p.pos, pos, p.crouched) {
        Err(RejectReason::TargetNotVisible)
    } else {
        Ok(ActionIntent::Throw(pos))
    }
}

/// The verdict on using machine `id`.
pub open spec fn judge_interact(w: &World, id: FurnitureId) -> Result<ActionIntent, RejectReason> {
    let p = w.actors@[w.player.0 as int];
    match spec_machine_index(w, id) {
        None => Err(RejectReason::NothingToUse),
        Some(i) => {
            let f = w.furniture@[i];
            if f.machine is None {
                Err(RejectReason::NothingToUse)
            } else if f.used {
                Err(RejectReason::MachineSpent)
            } else if !p.pos.spec_adjacent(f.pos) {
                Err(RejectReason::NotAdjacent)
            } else if p.hands != Hands::Free {
                Err(RejectReason::HandsNotFree)
            } else {
                Ok(ActionIntent::Interact(id))
            }
        },
    }
}

/// The verdict on a player command against the current world.
pub open spec fn spec_translate(w: &World, d: &GameData, c: Command) -> Result<ActionIntent, RejectReason> {
    if w.outcome is Some {
        Err(RejectReason::MissionOver)
    } else {
        match c {
            Command::Wait => Ok(ActionIntent::Wait),
            Command::ToggleCrouch => Ok(ActionIntent::ToggleCrouch),
            Command::Move(dir) => judge_move(w, d, dir),
            Command::OpenDoor(id) => judge_open(w, d, id),
            Command::CloseDoor(id) => judge_close(w, id),
            Command::Garrote(t) => judge_garrote(w, d, t),
            Command::Shoot(t) => judge_shoot(w, d, t),
            Command::Pickpocket(t) => judge_pickpocket(w, d, t),
            Command::TakeDisguiseFromBody(t) => judge_take_from_body(w, t),
            Command::TakeDisguiseFromWardrobe(id) => judge_take_from_wardrobe(w, id),
            Command::CarryBody(t) => judge_carry(w, t),
            Command::DropBody(dir) => judge_drop(w, dir),
            Command::HideBody(id) => judge_hide(w, id),
            Command::DrawOrHolster => judge_draw(w, d),
            Command::PickLock(door) => judge_pick_lock(w, d, door),
            Command::ThrowNoisemaker(pos) => judge_throw(w, d, pos),
            Command::Interact(id) => judge_interact(w, id),
        }
    }
}

/// How long an opportunity interaction on furniture `id` takes: the
/// machine's authored turns, or one turn when there is no such machine.
pub open spec fn spec_interact_turns(data: &GameData, world: &World, id: FurnitureId) -> u16 {
    if exists|i: int| 0 <= i < world.furniture@.len() && (#[trigger] world.furniture@[i]).id == id {
        let i = choose|i: int|
            0 <= i < world.furniture@.len() && world.furniture@[i].id == id && forall|j: int|
                0 <= j < i ==> (#[trigger] world.furniture@[j]).id != id;
        match world.furniture@[i].machine {
            Some(m) => match data.spec_opportunity(m@) {
                Some(o) => o.interact_turns,
                None => 1,
            },
            None => 1,
        }
    } else {
        1
    }
}

/// How long an intent takes, in turns.
pub open spec fn spec_intent_duration(data: &GameData, world: &World, actor: ActorId, intent: ActionIntent) -> u16 {
    let d = data.tuning.durations;
    match intent {
        ActionIntent::Step(_) => if world.actors@[actor.0 as int].hands is CarryingBody {
            d.carry_step
        } else {
            d.step
        },
        ActionIntent::Wait | ActionIntent::ToggleCrouch | ActionIntent::TurnFacing(_) => 1,
        ActionIntent::OpenDoor(_) | ActionIntent::CloseDoor(_) => d.door,
        ActionIntent::Garrote(_) => d.garrote,
        ActionIntent::Shoot(_) => d.shoot,
        ActionIntent::Pickpocket(_) => d.pickpocket,
        ActionIntent::TakeDisguise(_) => d.change_disguise,
        ActionIntent::CarryBody(_) => d.carry_body,
        ActionIntent::DropBody(_) => d.drop_body,
        ActionIntent::HideBody(_) => d.hide_body,
        ActionIntent::DrawOrHolster => d.draw_holster,
        ActionIntent::PickLock(_) => d.pick_lock,
        ActionIntent::Throw(_) => d.throw,
        ActionIntent::Interact(id) => spec_interact_turns(data, world, id),
        ActionIntent::MeleeAttack(_) | ActionIntent::Arrest(_) => 1,
    }
}

fn interact_turns(data: &GameData, world: &World, id: FurnitureId) -> (r: u16)
    ensures
        r == spec_interact_turns(data, world, id),
{
    let mut i: usize = 0;
    while i < world.furniture.len()
        invariant
            0 <= i <= world.furniture@.len(),
            forall|j: int| 0 <= j < i ==> (#[trigger] world.furniture@[j]).id != id,
        decreases world.furniture@.len() - i,
    {
        if world.furniture[i].id == id {
            proof {
                let f = world.furniture@;
                let k = choose|k: int|
                    0 <= k < f.len() && f[k].id == id && forall|j: int|
                        0 <= j < k ==> (#[trigger] f[j]).id != id;
                assert(f[i as int].id == id);
                if k > i {
                    assert(f[i as int].id != id);
                }
            }
            return match &world.furniture[i].machine {
                Some(m) => match data.opportunity(m.as_str()) {
                    Some(o) => o.interact_turns,
                    None => 1,
                },
                None => 1,
            };
        }
        i = i + 1;
    }
    1
}

/// How long an intent takes, in turns, from authored data.
pub fn intent_duration(data: &GameData, world: &World, actor: ActorId, intent: &ActionIntent) -> (r: u16)
    requires
        actor.0 < world.actors@.len(),
    ensures
        r == spec_intent_duration(data, world, actor, *intent),
{
    let durations = &data.tuning.durations;
    match intent {
        ActionIntent::Step(_) => {
            match world.actor(actor).hands {
                Hands::CarryingBody(_) => durations.carry_step,
                _ => durations.step,
            }
        },
        ActionIntent::Wait | ActionIntent::ToggleCrouch | ActionIntent::TurnFacing(_) => 1,
        ActionIntent::OpenDoor(_) | ActionIntent::CloseDoor(_) => durations.door,
        ActionIntent::Garrote(_) => durations.garrote,
        ActionIntent::Shoot(_) => durations.shoot,
        ActionIntent::Pickpocket(_) => durations.pickpocket,
        ActionIntent::TakeDisguise(_) => durations.change_disguise,
        ActionIntent::CarryBody(_) => durations.carry_body,
        ActionIntent::DropBody(_) => durations.drop_body,
        ActionIntent::HideBody(_) => durations.hide_body,
        ActionIntent::DrawOrHolster => durations.draw_holster,
        ActionIntent::PickLock(_) => durations.pick_lock,
        ActionIntent::Throw(_) => durations.throw,
        ActionIntent::Interact(id) => interact_turns(data, world, *id),
        ActionIntent::MeleeAttack(_) | ActionIntent::Arrest(_) => 1,
    }
}

// ---------------------------------------------------------------------
// Judging a command.
// ---------------------------------------------------------------------
pub(crate) fn spec_for<'a>(data: &'a GameData, id: &str) -> (r: Option<&'a ItemSpec>)
    ensures
        match r {
            Some(s) => spec_of(data, id@) == Some(*s),
            None => spec_of(data, id@) is None,
        },
{
    proof {
        reveal(spec_of);
    }
    data.item(id)
}

pub(crate) fn matches_wanted(k: Wanted, s: &ItemSpec) -> (r: bool)
    ensures
        r == wanted(k, *s),
{
    match k {
        Wanted::Garrote => s.weapon && !s.firearm,
        Wanted::Firearm => s.firearm,
        Wanted::Lockpick => s.lockpick,
        Wanted::Noisemaker => s.noisemaker,
        Wanted::Loot { dead } => s.pickpocketable || dead,
    }
}

/// Index of the first item `actor` carries that is what `k` looks for.
pub(crate) fn first_carried_item(world: &World, data: &GameData, actor: ActorId, k: Wanted) -> (r: Option<usize>)
    ensures
        match r {
            Some(i) => first_carried(world, data, actor, k) == Some(i as int) && i < world.items@.len(),
            None => first_carried(world, data, actor, k) is None,
        },
{
    let mut i: usize = 0;
    while i < world.items.len()
        invariant
            0 <= i <= world.items@.len(),
            forall|j: int| 0 <= j < i ==> !#[trigger] carried_match(world, data, actor, k, j),
        decreases world.items@.len() - i,
    {
        if world.items[i].location == ItemLocation::CarriedBy(actor) {
            match spec_for(data, world.items[i].spec.as_str()) {
                Some(spec) => {
                    if matches_wanted(k, spec) {
                        proof {
                            assert(carried_match(world, data, actor, k, i as int));
                            let c = choose|c: int|
                                carried_match(world, data, actor, k, c) && forall|j: int|
                                    0 <= j < c ==> !#[trigger] carried_match(world, data, actor, k, j);
                            if c > i {
                                assert(!carried_match(world, data, actor, k, i as int));
                            }
                        }
                        return Some(i);
                    }
                },
                None => {},
            }
        }
        assert(!carried_match(world, data, actor, k, i as int));
        i = i + 1;
    }
    proof {
        if exists|c: int| #[trigger] carried_match(world, data, actor, k, c) {
            let c = choose|c: int| #[trigger] carried_match(world, data, actor, k, c);
            assert(0 <= c < world.items@.len());
        }
    }
    None
}

/// How many items `actor` carries.
pub(crate) fn count_carried(world: &World, actor: ActorId) -> (r: usize)
    ensures
        r == carried_count(world, actor),
{
    let items = world.carried_items(actor);
    items.len()
}

/// Whether an unobstructed sight line joins `from` and `to`.
pub(crate) fn sees(world: &World, from: Pos, to: Pos, crouched: bool) -> (r: bool)
    requires
        world.wf(),
    ensures
        r == spec_sees(world, from, to, crouched),
{
    let blocks = |p: Pos| -> (b: bool)
        requires
            world.wf(),
        ensures
            b == world.spec_blocks_sight(crouched, p),
        { world.sight_blocker(crouched, p) };
    let r = line_of_sight(from, to, blocks);
    proof {
        if from.floor == to.floor && !r {
            let i = choose|i: int|
                0 <= i < spec_supercover(from, to).len() && blocks.ensures(
                    (#[trigger] spec_supercover(from, to)[i],),
                    true,
                );
            assert(world.spec_blocks_sight(crouched, spec_supercover(from, to)[i]));
        }
    }
    r
}

/// Whether stepping onto `dest` can proceed: furniture blocks; a standing
/// occupant blocks unless it steps aside, which nobody does across a
/// stairs transition.
fn validate_step_destination(world: &World, dest: Pos) -> (r: Result<(), RejectReason>)
    requires
        world.wf(),
    ensures
        match step_problem(world, dest) {
            Some(e) => r == Err::<(), RejectReason>(e),
            None => r is Ok,
        },
{
    let landing = world.map.resolve_step_destination(dest);
    if world.furniture_at(dest).is_some() {
        return Err(RejectReason::PathBlocked(Blockage::Furniture));
    }
    match world.standing_actor_at(landing) {
        Some(occupant) => {
            proof {
                let i = world.spec_standing_index(landing).unwrap();
                assert(world.actors@[i].id.0 == i);
            }
            if landing != dest || !world.is_displaceable(occupant.id) {
                return Err(RejectReason::OccupiedByActor);
            }
        },
        None => {},
    }
    Ok(())
}

/// Whether a carried body can be put down on `dest`.
fn validate_drop_destination(world: &World, dest: Pos, carrier: ActorId) -> (r: Result<(), RejectReason>)
    requires
        world.wf(),
    ensures
        match drop_problem(world, dest, carrier) {
            Some(e) => r == Err::<(), RejectReason>(e),
            None => r is Ok,
        },
{
    let open_door = |id: DoorId| -> (b: bool)
        ensures
            b == world.door_open(id),
        { world.door_is_open(id) };
    if !world.map.walkable(dest, open_door) {
        return Err(RejectReason::PathBlocked(Blockage::Terrain));
    }
    if world.furniture_at(dest).is_some() {
        return Err(RejectReason::PathBlocked(Blockage::Furniture));
    }
    match world.standing_actor_at(dest) {
        Some(a) => {
            if a.id != carrier {
                return Err(RejectReason::OccupiedByActor);
            }
        },
        None => {},
    }
    if world.body_at(dest).is_some() {
        return Err(RejectReason::PathBlocked(Blockage::Body));
    }
    Ok(())
}

/// The tile next to `from` that is door `id`, checking north, east,
/// south, then west.
fn adjacent_door_pos(world: &World, from: Pos, id: DoorId) -> (r: Option<Pos>)
    requires
        world.wf(),
        forall|d: Dir4| #[trigger] from.can_step(d),
    ensures
        r == spec_adjacent_door(world, from, id),
{
    assert(from.can_step(Dir4::North) && from.can_step(Dir4::East));
    assert(from.can_step(Dir4::South) && from.can_step(Dir4::West));
    let all = Dir4::ALL;
    let n = from.step(all[0]);
    if world.map.tile(n) == TileKind::Door(id) {
        return Some(n);
    }
    let e = from.step(all[1]);
    if world.map.tile(e) == TileKind::Door(id) {
        return Some(e);
    }
    let s = from.step(all[2]);
    if world.map.tile(s) == TileKind::Door(id) {
        return Some(s);
    }
    let w = from.step(all[3]);
    if world.map.tile(w) == TileKind::Door(id) {
        return Some(w);
    }
    None
}

/// Index of the first machine whose id is `id`.
fn machine_index(world: &World, id: FurnitureId) -> (r: Option<usize>)
    ensures
        match r {
            Some(i) => spec_machine_index(world, id) == Some(i as int) && i < world.furniture@.len(),
            None => spec_machine_index(world, id) is None,
        },
{
    let mut i: usize = 0;
    while i < world.furniture.len()
        invariant
            0 <= i <= world.furniture@.len(),
            forall|j: int|
                0 <= j < i ==> !((#[trigger] world.furniture@[j]).id == id && world.furniture@[j].kind
                    == FurnitureKind::Machine),
        decreases world.furniture@.len() - i,
    {
        if world.furniture[i].id == id && world.furniture[i].kind == FurnitureKind::Machine {
            proof {
                let f = world.furniture@;
                let c = choose|c: int|
                    0 <= c < f.len() && f[c].id == id && f[c].kind == FurnitureKind::Machine && forall|j: int|
                        0 <= j < c ==> !((#[trigger] f[j]).id == id && f[j].kind == FurnitureKind::Machine);
                assert(f[i as int].id == id);
                if c > i {
                    assert(!(f[i as int].id == id && f[i as int].kind == FurnitureKind::Machine));
                }
            }
            return Some(i);
        }
        i = i + 1;
    }
    None
}

fn validate_move(world: &World, data: &GameData, dir: Dir4) -> (r: Result<ActionIntent, RejectReason>)
    requires
        translatable(world, Command::Move(dir)),
    ensures
        r == judge_move(world, data, dir),
{
    let player = world.player_actor();
    assert(player.pos.can_step(dir));
    let dest = player.pos.step(dir);
    match world.map.tile(dest) {
        TileKind::Wall | TileKind::Void => Err(RejectReason::PathBlocked(Blockage::Wall)),
        TileKind::Door(id) => {
            // Bump-open: stepping into a closed door opens it when it is
            // unlocked or the player holds the key; the step lands next
            // turn.
            if !world.door(id).open && !can_pass_door(world, data, world.player, id) {
                return Err(RejectReason::DoorIsLocked);
            }
            if world.door(id).open {
                match validate_step_destination(world, dest) {
                    Err(e) => {
                        return Err(e);
                    },
                    Ok(()) => {},
                }
            }
            Ok(ActionIntent::Step(dir))
        },
        TileKind::Floor | TileKind::Stairs(_) => match validate_step_destination(world, dest) {
            Err(e) => Err(e),
            Ok(()) => Ok(ActionIntent::Step(dir)),
        },
    }
}

fn validate_open(world: &World, data: &GameData, id: DoorId) -> (r: Result<ActionIntent, RejectReason>)
    requires
        translatable(world, Command::OpenDoor(id)),
    ensures
        r == judge_open(world, data, id),
{
    let player = world.player_actor();
    if adjacent_door_pos(world, player.pos, id).is_none() {
        return Err(RejectReason::DoorNotAdjacent);
    }
    if world.door(id).open {
        return Err(RejectReason::DoorAlreadyOpen);
    }
    if !can_pass_door(world, data, world.player, id) {
        return Err(RejectReason::DoorIsLocked);
    }
    Ok(ActionIntent::OpenDoor(id))
}

fn validate_close(world: &World, id: DoorId) -> (r: Result<ActionIntent, RejectReason>)
    requires
        translatable(world, Command::CloseDoor(id)),
    ensures
        r == judge_close(world, id),
{
    let player = world.player_actor();
    let door_pos = match adjacent_door_pos(world, player.pos, id) {
        None => {
            return Err(RejectReason::DoorNotAdjacent);
        },
        Some(p) => p,
    };
    if !world.door(id).open {
        return Err(RejectReason::DoorAlreadyClosed);
    }
    if world.standing_actor_at(door_pos).is_some() {
        return Err(RejectReason::DoorBlocked);
    }
    Ok(ActionIntent::CloseDoor(id))
}

fn validate_garrote(world: &World, data: &GameData, target: ActorId) -> (r: Result<ActionIntent, RejectReason>)
    requires
        translatable(world, Command::Garrote(target)),
    ensures
        r == judge_garrote(world, data, target),
{
    if first_carried_item(world, data, world.player, Wanted::Garrote).is_none() {
        return Err(RejectReason::NoGarrote);
    }
    let player = world.player_actor();
    let target_ref = world.actor(target);
    if !target_ref.alive() || target_ref.hidden_in.is_some() {
        return Err(RejectReason::TargetGone);
    }
    if player.hands != Hands::Free {
        return Err(RejectReason::HandsNotFree);
    }
    let facing = match target_ref.facing {
        None => {
            return Err(RejectReason::TargetGone);
        },
        Some(f) => f,
    };
    let behind = facing.opposite();
    assert(target_ref.pos.can_step(behind));
    if target_ref.pos.step(behind) != player.pos {
        return Err(RejectReason::NotBehindTarget);
    }
    Ok(ActionIntent::Garrote(target))
}

fn validate_shoot(world: &World, data: &GameData, target: ActorId) -> (r: Result<ActionIntent, RejectReason>)
    requires
        translatable(world, Command::Shoot(target)),
    ensures
        r == judge_shoot(world, data, target),
{
    let k = match first_carried_item(world, data, world.player, Wanted::Firearm) {
        None => {
            return Err(RejectReason::NoWeaponCarried);
        },
        Some(k) => k,
    };
    let pistol = &world.items[k];
    let player = world.player_actor();
    match player.hands {
        Hands::CarryingBody(_) => {
            return Err(RejectReason::HandsNotFree);
        },
        Hands::Drawn(id) => {
            if id != pistol.id {
                return Err(RejectReason::WeaponNotDrawn);
            }
        },
        Hands::Free => {
            return Err(RejectReason::WeaponNotDrawn);
        },
    }
    if pistol.charges == 0 {
        return Err(RejectReason::NoAmmo);
    }
    let target_ref = world.actor(target);
    if !target_ref.alive() || target_ref.hidden_in.is_some() {
        return Err(RejectReason::TargetGone);
    }
    match player.pos.chebyshev(target_ref.pos) {
        Some(d) => {
            if d > data.tuning.pistol_range {
                return Err(RejectReason::OutOfRange);
            }
        },
        None => {
            return Err(RejectReason::OutOfRange);
        },
    }
    if !sees(world, player.pos, target_ref.pos, player.crouched || target_ref.crouched) {
        return Err(RejectReason::TargetNotVisible);
    }
    Ok(ActionIntent::Shoot(target))
}

fn validate_pickpocket(world: &World, data: &GameData, target: ActorId) -> (r: Result<ActionIntent, RejectReason>)
    requires
        translatable(world, Command::Pickpocket(target)),
    ensures
        r == judge_pickpocket(world, data, target),
{
    let player = world.player_actor();
    let target_ref = world.actor(target);
    if target_ref.hidden_in.is_some() || world.is_carried(target) {
        return Err(RejectReason::TargetGone);
    }
    if !player.pos.is_adjacent(target_ref.pos) && player.pos != target_ref.pos {
        return Err(RejectReason::NotAdjacent);
    }
    let loot = Wanted::Loot { dead: !target_ref.alive() };
    if first_carried_item(world, data, target, loot).is_none() {
        return Err(RejectReason::NothingToSteal);
    }
    if count_carried(world, world.player) >= INVENTORY_SLOTS {
        return Err(RejectReason::InventoryFull);
    }
    Ok(ActionIntent::Pickpocket(target))
}

fn validate_take_from_body(world: &World, target: ActorId) -> (r: Result<ActionIntent, RejectReason>)
    requires
        translatable(world, Command::TakeDisguiseFromBody(target)),
    ensures
        r == judge_take_from_body(world, target),
{
    let player = world.player_actor();
    let target_ref = world.actor(target);
    if target_ref.alive() {
        return Err(RejectReason::TargetNotIncapacitated);
    }
    if target_ref.hidden_in.is_some() || world.is_carried(target) {
        return Err(RejectReason::TargetGone);
    }
    if !player.pos.is_adjacent(target_ref.pos) && player.pos != target_ref.pos {
        return Err(RejectReason::NotAdjacent);
    }
    if player.hands != Hands::Free {
        return Err(RejectReason::HandsNotFree);
    }
    if str_eq(target_ref.worn_disguise.as_str(), player.worn_disguise.as_str()) {
        return Err(RejectReason::NoDisguiseThere);
    }
    Ok(ActionIntent::TakeDisguise(DisguiseSource::Body(target)))
}

fn validate_take_from_wardrobe(world: &World, id: FurnitureId) -> (r: Result<ActionIntent, RejectReason>)
    requires
        translatable(world, Command::TakeDisguiseFromWardrobe(id)),
    ensures
        r == judge_take_from_wardrobe(world, id),
{
    let player = world.player_actor();
    if id.0 as usize >= world.furniture.len() {
        return Err(RejectReason::TargetGone);
    }
    let furniture = &world.furniture[id.0 as usize];
    if furniture.kind != FurnitureKind::Wardrobe {
        return Err(RejectReason::NoDisguiseThere);
    }
    if !player.pos.is_adjacent(furniture.pos) {
        return Err(RejectReason::NotAdjacent);
    }
    if player.hands != Hands::Free {
        return Err(RejectReason::HandsNotFree);
    }
    match &furniture.disguise {
        Some(d) => {
            if !str_eq(d.as_str(), player.worn_disguise.as_str()) {
                Ok(ActionIntent::TakeDisguise(DisguiseSource::Wardrobe(id)))
            } else {
                Err(RejectReason::NoDisguiseThere)
            }
        },
        None => Err(RejectReason::NoDisguiseThere),
    }
}

fn validate_carry(world: &World, target: ActorId) -> (r: Result<ActionIntent, RejectReason>)
    requires
        translatable(world, Command::CarryBody(target)),
    ensures
        r == judge_carry(world, target),
{
    let player = world.player_actor();
    let target_ref = world.actor(target);
    if !target_ref.is_visible_body() || world.is_carried(target) {
        return Err(RejectReason::TargetGone);
    }
    if !player.pos.is_adjacent(target_ref.pos) && player.pos != target_ref.pos {
        return Err(RejectReason::NotAdjacent);
    }
    if player.hands != Hands::Free {
        return Err(RejectReason::HandsNotFree);
    }
    Ok(ActionIntent::CarryBody(target))
}

fn validate_drop(world: &World, dir: Option<Dir4>) -> (r: Result<ActionIntent, RejectReason>)
    requires
        translatable(world, Command::DropBody(dir)),
    ensures
        r == judge_drop(world, dir),
{
    let player = world.player_actor();
    match player.hands {
        Hands::CarryingBody(_) => {
            let dest = match dir {
                Some(d) => {
                    assert(player.pos.can_step(d));
                    player.pos.step(d)
                },
                None => player.pos,
            };
            match validate_drop_destination(world, dest, player.id) {
                Err(e) => Err(e),
                Ok(()) => Ok(ActionIntent::DropBody(dir)),
            }
        },
        _ => Err(RejectReason::NotCarryingBody),
    }
}

fn validate_hide(world: &World, id: FurnitureId) -> (r: Result<ActionIntent, RejectReason>)
    requires
        translatable(world, Command::HideBody(id)),
    ensures
        r == judge_hide(world, id),
{
    let player = world.player_actor();
    match player.hands {
        Hands::CarryingBody(_) => {},
        _ => {
            return Err(RejectReason::NotCarryingBody);
        },
    }
    if id.0 as usize >= world.furniture.len() {
        return Err(RejectReason::NotAContainer);
    }
    let furniture = &world.furniture[id.0 as usize];
    if furniture.kind != FurnitureKind::Container {
        return Err(RejectReason::NotAContainer);
    }
    if !player.pos.is_adjacent(furniture.pos) {
        return Err(RejectReason::NotAdjacent);
    }
    if furniture.body.is_some() {
        return Err(RejectReason::ContainerOccupied);
    }
    Ok(ActionIntent::HideBody(id))
}

fn validate_draw_or_holster(world: &World, data: &GameData) -> (r: Result<ActionIntent, RejectReason>)
    requires
        translatable(world, Command::DrawOrHolster),
    ensures
        r == judge_draw(world, data),
{
    let k = match first_carried_item(world, data, world.player, Wanted::Firearm) {
        None => {
            return Err(RejectReason::NoWeaponCarried);
        },
        Some(k) => k,
    };
    let pistol_id = world.items[k].id;
    let player = world.player_actor();
    match player.hands {
        Hands::Free => Ok(ActionIntent::DrawOrHolster),
        Hands::Drawn(id) => {
            if id == pistol_id {
                Ok(ActionIntent::DrawOrHolster)
            } else {
                Err(RejectReason::HandsNotFree)
            }
        },
        Hands::CarryingBody(_) => Err(RejectReason::HandsNotFree),
    }
}

fn validate_pick_lock(world: &World, data: &GameData, door: DoorId) -> (r: Result<ActionIntent, RejectReason>)
    requires
        translatable(world, Command::PickLock(door)),
    ensures
        r == judge_pick_lock(world, data, door),
{
    if first_carried_item(world, data, world.player, Wanted::Lockpick).is_none() {
        return Err(RejectReason::NoLockpicks);
    }
    let player = world.player_actor();
    if adjacent_door_pos(world, player.pos, door).is_none() {
        return Err(RejectReason::DoorNotAdjacent);
    }
    if world.door(door).locked_by.is_none() {
        return Err(RejectReason::DoorNotLocked);
    }
    if player.hands != Hands::Free {
        return Err(RejectReason::HandsNotFree);
    }
    Ok(ActionIntent::PickLock(door))
}

fn validate_throw(world: &World, data: &GameData, pos: Pos) -> (r: Result<ActionIntent, RejectReason>)
    requires
        translatable(world, Command::ThrowNoisemaker(pos)),
    ensures
        r == judge_throw(world, data, pos),
{
    match first_carried_item(world, data, world.player, Wanted::Noisemaker) {
        Some(k) => {
            if world.items[k].charges == 0 {
                return Err(RejectReason::NoNoisemaker);
            }
        },
        None => {
            return Err(RejectReason::NoNoisemaker);
        },
    }
    let player = world.player_actor();
    match player.pos.chebyshev(pos) {
        Some(d) => {
            if d > data.tuning.noisemaker_range {
                return Err(RejectReason::OutOfRange);
            }
        },
        None => {
            return Err(RejectReason::OutOfRange);
        },
    }
    match world.map.tile(pos) {
        TileKind::Wall | TileKind::Void => {
            return Err(RejectReason::PathBlocked(Blockage::NoThrowTarget));
        },
        _ => {},
    }
    if !sees(world, player.pos, pos, player.crouched) {
        return Err(RejectReason::TargetNotVisible);
    }
    Ok(ActionIntent::Throw(pos))
}

fn validate_interact(world: &World, id: FurnitureId) -> (r: Result<ActionIntent, RejectReason>)
    requires
        translatable(world, Command::Interact(id)),
    ensures
        r == judge_interact(world, id),
{
    let i = match machine_index(world, id) {
        None => {
            return Err(RejectReason::NothingToUse);
        },
        Some(i) => i,
    };
    let furniture = &world.furniture[i];
    if furniture.machine.is_none() {
        return Err(RejectReason::NothingToUse);
    }
    if furniture.used {
        return Err(RejectReason::MachineSpent);
    }
    let player = world.player_actor();
    if !player.pos.is_adjacent(furniture.pos) {
        return Err(RejectReason::NotAdjacent);
    }
    if player.hands != Hands::Free {
        return Err(RejectReason::HandsNotFree);
    }
    Ok(ActionIntent::Interact(id))
}

/// Pure, execution-time validation and translation of one player command
/// against the current world. On `Err`, nothing has changed anywhere.
pub fn translate(world: &World, data: &GameData, command: &Command) -> (r: Result<
    ActionIntent,
    RejectReason,
>)
    requires
        translatable(world, *command),
    ensures
        r == spec_translate(world, data, *command),
{
    if world.outcome.is_some() {
        return Err(RejectReason::MissionOver);
    }
    match *command {
        Command::Wait => Ok(ActionIntent::Wait),
        Command::ToggleCrouch => Ok(ActionIntent::ToggleCrouch),
        Command::Move(dir) => validate_move(world, data, dir),
        Command::OpenDoor(id) => validate_open(world, data, id),
        Command::CloseDoor(id) => validate_close(world, id),
        Command::Garrote(target) => validate_garrote(world, data, target),
        Command::Shoot(target) => validate_shoot(world, data, target),
        Command::Pickpocket(target) => validate_pickpocket(world, data, target),
        Command::TakeDisguiseFromBody(target) => validate_take_from_body(world, target),
        Command::TakeDisguiseFromWardrobe(id) => validate_take_from_wardrobe(world, id),
        Command::CarryBody(target) => validate_carry(world, target),
        Command::DropBody(dir) => validate_drop(world, dir),
        Command::HideBody(id) => validate_hide(world, id),
        Command::DrawOrHolster => validate_draw_or_holster(world, data),
        Command::PickLock(door) => validate_pick_lock(world, data, door),
        Command::ThrowNoisemaker(pos) => validate_throw(world, data, pos),
        Command::Interact(id) => validate_interact(world, id),
    }
}

} // verus!
