//! Turn resolution: one frozen batch of prepared actions applied to the
//! world at once.
//!
//! Order inside a turn is: instant state changes, doors, attacks, then
//! object and body interactions, then movement. Contested destinations
//! go to the first claimant in a tie-break order that the caller draws
//! from the resolution random stream; that is why a turn is resolved in
//! two calls, [`start_turn`] and [`resolve_turn`], with the draw between
//! them. Failures inside a phase are in-turn failures, never rejections:
//! the turn passes either way.
//!
//! The contracts describe the world through [`Scene`]: the parts of the
//! world and of the turn's narration that resolution can change, as plain
//! values. Everything else (the map, the cast's identities, the contract)
//! stays as it was, which [`frame`] states.
use vstd::prelude::*;

use crate::actions::{
    ActionIntent, ActionResult, DisguiseSource, PreparedAction, TurnEvents, Wanted, INVENTORY_SLOTS,
    carried_count, carried_match, count_carried, spec_displaceable, first_carried, first_carried_item, matches_wanted, sees,
    spec_for, spec_sees,
};
use crate::access::{can_pass_door, spec_can_pass_door};
use crate::contract::{spec_on_exit, spec_on_kill, Constraint};
use crate::data::{GameData, Lighting, OpportunityEffect, Role, Zone};
use crate::geom::{Dir4, Pos};
use crate::loc::{filled, Catalogue};
use crate::map::{DoorId, GameMap, TileKind};
use crate::perception::{mind_of, minded, set_mind, Mind};
use crate::text::{push_msg, views};
use crate::world::{
    carried_among, standing_among, Actor, ActorId, BodyCondition, FurnitureId, FurnitureKind, Hands,
    Incident, IncidentKind, ItemId, ItemInstance, ItemLocation, MissionOutcome, Mood, World,
};

verus! {

// ---------------------------------------------------------------------
// What a turn can change.
// ---------------------------------------------------------------------
/// How an action ended, as plain values.
pub enum Said {
    Completed,
    InProgress,
    Failed(Seq<char>),
}

/// The parts of the world and of the turn's narration that resolution can
/// change, as plain values.
#[verifier::ext_equal]
pub struct Scene {
    pub actors: Seq<Actor>,
    pub doors: Seq<crate::map::DoorState>,
    pub rooms: Seq<crate::world::Room>,
    pub furniture: Seq<crate::world::Furniture>,
    pub items: Seq<ItemInstance>,
    pub incidents: Seq<Incident>,
    pub outcome: Option<MissionOutcome>,
    /// Why the contract's condition broke, once it has.
    pub breach: Option<Seq<char>>,
    pub turn: u32,
    /// The turn's message log.
    pub lines: Seq<Seq<char>>,
    /// The line announcing this turn's breach, if one happened.
    pub breach_line: Option<Seq<char>>,
    /// How the player's action ended, if the player acted.
    pub said: Option<Said>,
}

/// The plain value of an action result.
pub open spec fn said_of(r: ActionResult) -> Said {
    match r {
        ActionResult::Completed => Said::Completed,
        ActionResult::InProgress => Said::InProgress,
        ActionResult::Failed(why) => Said::Failed(why@),
    }
}

/// The view of an optional string.
pub open spec fn opt_view(s: Option<String>) -> Option<Seq<char>> {
    match s {
        Some(t) => Some(t@),
        None => None,
    }
}

/// The changeable parts of world `w` and narration `e`.
pub open spec fn scene(w: World, e: TurnEvents) -> Scene {
    Scene {
        actors: w.actors@,
        doors: w.doors@,
        rooms: w.rooms@,
        furniture: w.furniture@,
        items: w.items@,
        incidents: w.incidents@,
        outcome: w.outcome,
        breach: opt_view(w.constraint_breach),
        turn: w.turn,
        lines: views(e.messages@),
        breach_line: opt_view(e.breach),
        said: match e.player_result {
            Some(r) => Some(said_of(r)),
            None => None,
        },
    }
}

/// Whether `b` keeps everything of `a` that resolution never changes.
pub open spec fn frame(a: World, b: World) -> bool {
    &&& b.seed == a.seed
    &&& b.map == a.map
    &&& b.player == a.player
    &&& b.target == a.target
    &&& b.extraction_tiles == a.extraction_tiles
    &&& b.player_violence_witnessed == a.player_violence_witnessed
    &&& b.facts == a.facts
    &&& b.proof == a.proof
    &&& b.constraint == a.constraint
}

/// What resolution relies on in a world: it is well formed; every actor
/// and every piece of furniture stands on the map; furniture and items are
/// numbered by their position, with room to number the items; and every
/// carried body names an actor.
pub open spec fn sound(w: World) -> bool {
    &&& w.wf()
    &&& forall|i: int| 0 <= i < w.actors@.len() ==> w.map.spec_in_bounds(#[trigger] w.actors@[i].pos)
    &&& forall|i: int|
        0 <= i < w.actors@.len() ==> match (#[trigger] w.actors@[i]).hands {
            Hands::CarryingBody(b) => b.0 < w.actors@.len(),
            _ => true,
        }
    &&& forall|i: int|
        0 <= i < w.furniture@.len() ==> (#[trigger] w.furniture@[i]).id.0 == i && w.map.spec_in_bounds(
            w.furniture@[i].pos,
        )
    &&& forall|i: int| 0 <= i < w.items@.len() ==> (#[trigger] w.items@[i]).id.0 == i
    &&& w.items@.len() <= u32::MAX
}

/// A world whose cast keeps its size and numbering, whose actors stay on
/// the map, and whose carried bodies name actors, stays sound when nothing
/// else changed.
proof fn lemma_cast_sound(a: World, b: World)
    requires
        sound(a),
        b == (World { actors: b.actors, ..a }),
        b.actors@.len() == a.actors@.len(),
        forall|i: int|
            0 <= i < b.actors@.len() ==> (#[trigger] b.actors@[i]).id == a.actors@[i].id && (b.actors@[i].pos
                == a.actors@[i].pos || (exists|j: int| 0 <= j < a.actors@.len() && b.actors@[i].pos == a.actors@[j].pos)),
        forall|i: int|
            0 <= i < b.actors@.len() ==> match (#[trigger] b.actors@[i]).hands {
                Hands::CarryingBody(x) => x.0 < b.actors@.len(),
                _ => true,
            },
    ensures
        sound(b),
{
    assert forall|i: int| 0 <= i < b.actors@.len() implies b.map.spec_in_bounds(#[trigger] b.actors@[i].pos) by {
        if b.actors@[i].pos != a.actors@[i].pos {
            let j = choose|j: int| 0 <= j < a.actors@.len() && b.actors@[i].pos == a.actors@[j].pos;
            assert(a.map.spec_in_bounds(a.actors@[j].pos));
        } else {
            assert(a.map.spec_in_bounds(a.actors@[i].pos));
        }
    }
}

/// Whether `b` keeps what no turn undoes in `a`: a recorded breach of the
/// contract, a decided mission outcome, and every death.
pub open spec fn lasting(a: World, b: World) -> bool {
    &&& b.actors@.len() == a.actors@.len()
    &&& (a.constraint_breach is Some ==> b.constraint_breach == a.constraint_breach)
    &&& (a.outcome is Some ==> b.outcome is Some)
    &&& forall|i: int|
        0 <= i < a.actors@.len() && (#[trigger] a.actors@[i]).condition == BodyCondition::Dead
            ==> b.actors@[i].condition == BodyCondition::Dead
}

/// Whether the step from `(a, e)` to `(b, f)` lands on scene `s`.
pub open spec fn lands(a: World, b: World, f: TurnEvents, s: Scene) -> bool {
    scene(b, f) == s && frame(a, b)
}

/// Whether `b` keeps the cast and the doors of `a` and holds at most one
/// more item.
pub open spec fn sized(a: World, b: World) -> bool {
    &&& b.actors@.len() == a.actors@.len()
    &&& b.doors@.len() == a.doors@.len()
    &&& a.items@.len() <= b.items@.len() <= a.items@.len() + 1
}

// ---------------------------------------------------------------------
// Narration.
// ---------------------------------------------------------------------
/// Records the player's action result; other actors' results are silent.
pub open spec fn said(w: World, s: Scene, actor: ActorId, r: Said) -> Scene {
    if actor == w.player {
        Scene { said: Some(r), ..s }
    } else {
        s
    }
}

/// An action completed.
pub open spec fn done(w: World, s: Scene, actor: ActorId) -> Scene {
    said(w, s, actor, Said::Completed)
}

/// An in-turn failure: a failed player action also narrates its reason.
pub open spec fn flop(w: World, s: Scene, cat: &Catalogue, actor: ActorId, why: Seq<char>) -> Scene {
    if actor == w.player {
        Scene {
            said: Some(Said::Failed(cat.spec_text(why))),
            lines: s.lines.push(filled(cat.spec_text("log.failed"@), seq![("reason"@, cat.spec_text(why))])),
            ..s
        }
    } else {
        s
    }
}

/// One more line on the log.
pub open spec fn told(s: Scene, line: Seq<char>) -> Scene {
    Scene { lines: s.lines.push(line), ..s }
}

/// A catalogue line with one slot filled.
pub open spec fn line1(cat: &Catalogue, id: Seq<char>, slot: Seq<char>, value: Seq<char>) -> Seq<char> {
    filled(cat.spec_text(id), seq![(slot, value)])
}

/// The contract's condition breaks for `reason`, unless it already broke.
pub open spec fn broke(s: Scene, cat: &Catalogue, reason: Seq<char>) -> Scene {
    if s.breach is Some {
        s
    } else {
        Scene {
            breach: Some(reason),
            breach_line: Some(line1(cat, "log.breached"@, "reason"@, reason)),
            ..s
        }
    }
}

fn record(world: &World, events: &mut TurnEvents, actor: ActorId, result: ActionResult)
    ensures
        scene(*world, *final(events)) == said(*world, scene(*world, *old(events)), actor, said_of(result)),
{
    if actor == world.player {
        events.player_result = Some(result);
    }
}

fn complete(world: &World, events: &mut TurnEvents, actor: ActorId)
    ensures
        scene(*world, *final(events)) == done(*world, scene(*world, *old(events)), actor),
{
    record(world, events, actor, ActionResult::Completed);
}

fn fail(world: &World, events: &mut TurnEvents, cat: &Catalogue, actor: ActorId, why: &str)
    ensures
        scene(*world, *final(events)) == flop(*world, scene(*world, *old(events)), cat, actor, why@),
{
    if actor == world.player {
        let reason = cat.text(why);
        let line = cat.fmt_one("log.failed", "reason", reason.as_str());
        events.player_result = Some(ActionResult::Failed(reason));
        push_msg(&mut events.messages, line);
    }
}

fn say(world: &World, events: &mut TurnEvents, line: String)
    ensures
        scene(*world, *final(events)) == told(scene(*world, *old(events)), line@),
{
    push_msg(&mut events.messages, line);
}

/// Marks the contract's condition broken (once), with the reason on the
/// turn's log. The mission continues; the contract resolves unclean.
fn breach_constraint(world: &mut World, events: &mut TurnEvents, cat: &Catalogue, reason: &str)
    ensures
        lands(*old(world), *final(world), *final(events), broke(scene(*old(world), *old(events)), cat, reason@)),
        final(world).actors == old(world).actors,
        final(world).doors == old(world).doors,
        final(world).rooms == old(world).rooms,
        final(world).furniture == old(world).furniture,
        final(world).items == old(world).items,
        final(world).incidents == old(world).incidents,
        lasting(*old(world), *final(world)),
{
    if world.constraint_breach.is_some() {
        return;
    }
    world.constraint_breach = Some(crate::text::owned(reason));
    events.breach = Some(cat.fmt_one("log.breached", "reason", reason));
}

// ---------------------------------------------------------------------
// Violence.
// ---------------------------------------------------------------------
/// A position on the map can step in every direction without leaving the
/// coordinate range.
proof fn lemma_steps(w: World, p: Pos)
    requires
        w.map.spec_in_bounds(p),
    ensures
        forall|d: Dir4| #[trigger] p.can_step(d),
        p.spec_chebyshev(p) == 0,
{
}

/// Two positions on the map are within the coordinate range of each other.
proof fn lemma_near(w: World, p: Pos, q: Pos)
    requires
        w.map.spec_in_bounds(p),
        w.map.spec_in_bounds(q),
    ensures
        p.spec_chebyshev(q) <= i16::MAX,
{
}

/// The cast after `target` falls: a body it carried drops at its feet,
/// and it lies dead.
pub open spec fn fallen(actors: Seq<Actor>, target: ActorId, by_player: bool) -> Seq<Actor> {
    let t = actors[target.0 as int];
    let dropped = match t.hands {
        Hands::CarryingBody(b) => actors.update(b.0 as int, Actor { pos: t.pos, ..actors[b.0 as int] }),
        _ => actors,
    };
    dropped.update(
        target.0 as int,
        Actor {
            condition: BodyCondition::Dead,
            hp: 0,
            hands: Hands::Free,
            killed_by_player: by_player,
            ..dropped[target.0 as int]
        },
    )
}

/// The death of `target` at the hand of `killer`: a carried body drops
/// where the victim stood, the victim falls, a kill by the player may
/// break the contract, and the kill is witnessable evidence this turn.
pub open spec fn slain(w: World, s: Scene, cat: &Catalogue, killer: ActorId, target: ActorId) -> Scene {
    let v = s.actors[target.0 as int];
    let by_player = killer == w.player;
    let s1 = Scene { actors: fallen(s.actors, target, by_player), ..s };
    let s2 = match w.constraint {
        Some(c) if by_player => match spec_on_kill(c, s.rooms, v.pos, v.is_target, v.role, cat) {
            Some(reason) => broke(s1, cat, reason),
            None => s1,
        },
        _ => s1,
    };
    Scene {
        incidents: s2.incidents.push(Incident { kind: IncidentKind::Violence, pos: v.pos, radius: 0, turn: s.turn }),
        ..s2
    }
}

proof fn lemma_fallen_sound(a: World, b: World, target: ActorId, by_player: bool)
    requires
        sound(a),
        target.0 < a.actors@.len(),
        b == (World { actors: b.actors, ..a }),
        b.actors@ == fallen(a.actors@, target, by_player),
    ensures
        sound(b),
{
    let fa = b.actors@;
    assert forall|i: int| 0 <= i < fa.len() implies (#[trigger] fa[i]).id == a.actors@[i].id && (fa[i].pos
        == a.actors@[i].pos || (exists|j: int| 0 <= j < a.actors@.len() && fa[i].pos == a.actors@[j].pos)) by {
        if fa[i].pos != a.actors@[i].pos {
            assert(fa[i].pos == a.actors@[target.0 as int].pos);
        }
    }
    assert forall|i: int| 0 <= i < fa.len() implies match (#[trigger] fa[i]).hands {
        Hands::CarryingBody(x) => x.0 < fa.len(),
        _ => true,
    } by {
        assert(match a.actors@[i].hands {
            Hands::CarryingBody(x) => x.0 < a.actors@.len(),
            _ => true,
        });
    }
    lemma_cast_sound(a, b);
}

fn fall(world: &mut World, target: ActorId, by_player: bool)
    requires
        target.0 < old(world).actors@.len(),
        match old(world).actors@[target.0 as int].hands {
            Hands::CarryingBody(b) => b.0 < old(world).actors@.len(),
            _ => true,
        },
    ensures
        final(world).actors@ == fallen(old(world).actors@, target, by_player),
        *final(world) == (World { actors: final(world).actors, ..*old(world) }),
        lasting(*old(world), *final(world)),
{
    let ghost w0 = *world;
    let hands = world.actor(target).hands;
    let at = world.actor(target).pos;
    match hands {
        Hands::CarryingBody(body) => {
            world.actors[body.0 as usize].pos = at;
        },
        _ => {},
    }
    let t = target.0 as usize;
    world.actors[t].condition = BodyCondition::Dead;
    world.actors[t].hp = 0;
    world.actors[t].hands = Hands::Free;
    world.actors[t].killed_by_player = by_player;
    assert(world.actors@ =~= fallen(w0.actors@, target, by_player));
    assert forall|i: int|
        0 <= i < w0.actors@.len() && (#[trigger] w0.actors@[i]).condition == BodyCondition::Dead implies world.actors@[i].condition
            == BodyCondition::Dead by {
        if i == target.0 {
        }
    }
}

/// Kills `target` at the hand of `killer`.
#[verifier::spinoff_prover]
#[verifier::rlimit(40)]
fn kill(world: &mut World, events: &mut TurnEvents, cat: &Catalogue, killer: ActorId, target: ActorId)
    requires
        sound(*old(world)),
        killer.0 < old(world).actors@.len(),
        target.0 < old(world).actors@.len(),
    ensures
        lands(*old(world), *final(world), *final(events), slain(*old(world), scene(*old(world), *old(events)), cat, killer, target)),
        sound(*final(world)),
        lasting(*old(world), *final(world)),
        sized(*old(world), *final(world)),
{
    let ghost w0 = *world;
    let ghost s0 = scene(*world, *events);
    let pos = world.actor(target).pos;
    let is_target = world.actor(target).is_target;
    let role = world.actor(target).role;
    let by_player = killer == world.player;
    assert(match world.actors@[target.0 as int].hands {
        Hands::CarryingBody(b) => b.0 < world.actors@.len(),
        _ => true,
    });
    fall(world, target, by_player);
    proof {
        lemma_fallen_sound(w0, *world, target, by_player);
    }
    let reason = if by_player {
        match &world.constraint {
            Some(c) => c.on_kill(world, pos, is_target, role, cat),
            None => None,
        }
    } else {
        None
    };
    match reason {
        Some(r) => {
            breach_constraint(world, events, cat, r.as_str());
        },
        None => {},
    }
    let turn = world.turn;
    world.incidents.push(Incident { kind: IncidentKind::Violence, pos, radius: 0, turn });
    proof {
        let spec = slain(w0, s0, cat, killer, target);
        assert(scene(*world, *events) =~= spec);
    }
}

/// A garrotte from behind.
pub open spec fn after_garrote(w: World, s: Scene, cat: &Catalogue, actor: ActorId, target: ActorId) -> Scene {
    let t = s.actors[target.0 as int];
    let me = s.actors[actor.0 as int];
    let behind = match t.facing {
        Some(f) => t.pos.spec_step(f.spec_opposite()) == me.pos,
        None => false,
    };
    if !(t.spec_alive() && t.hidden_in is None && behind && me.hands == Hands::Free) {
        flop(w, s, cat, actor, "fail.garrote_missed"@)
    } else {
        done(w, told(slain(w, s, cat, actor, target), line1(cat, "log.garrotted"@, "name"@, t.name@)), actor)
    }
}

#[verifier::spinoff_prover]
#[verifier::rlimit(40)]
fn resolve_garrote(world: &mut World, events: &mut TurnEvents, cat: &Catalogue, actor: ActorId, target: ActorId)
    requires
        sound(*old(world)),
        actor.0 < old(world).actors@.len(),
        target.0 < old(world).actors@.len(),
    ensures
        lands(*old(world), *final(world), *final(events), after_garrote(*old(world), scene(*old(world), *old(events)), cat, actor, target)),
        sound(*final(world)),
        lasting(*old(world), *final(world)),
        sized(*old(world), *final(world)),
{
    let attacker_pos = world.actor(actor).pos;
    let t = world.actor(target);
    proof {
        lemma_steps(*world, t.pos);
    }
    let behind = match t.facing {
        Some(f) => t.pos.step(f.opposite()) == attacker_pos,
        None => false,
    };
    if !(t.alive() && t.hidden_in.is_none() && behind && world.actor(actor).hands == Hands::Free) {
        fail(world, events, cat, actor, "fail.garrote_missed");
        return;
    }
    kill(world, events, cat, actor, target);
    let name = world.actor(target).name.clone();
    let line = cat.fmt_one("log.garrotted", "name", name.as_str());
    say(world, events, line);
    complete(world, events, actor);
}

/// A sound world stays sound under changes that keep the map, the cast's
/// size, numbering and footing, the doors' count, the furniture's
/// numbering and places, and the items' numbering.
proof fn lemma_sound(a: World, b: World)
    requires
        sound(a),
        b.map == a.map,
        b.player == a.player,
        b.target == a.target,
        b.doors@.len() == a.doors@.len(),
        b.actors@.len() == a.actors@.len(),
        forall|i: int|
            0 <= i < b.actors@.len() ==> (#[trigger] b.actors@[i]).id == a.actors@[i].id && b.map.spec_in_bounds(
                b.actors@[i].pos,
            ) && match b.actors@[i].hands {
                Hands::CarryingBody(x) => x.0 < b.actors@.len(),
                _ => true,
            },
        b.furniture@.len() == a.furniture@.len(),
        forall|i: int|
            0 <= i < b.furniture@.len() ==> (#[trigger] b.furniture@[i]).id == a.furniture@[i].id
                && b.furniture@[i].pos == a.furniture@[i].pos,
        forall|i: int| 0 <= i < b.items@.len() ==> (#[trigger] b.items@[i]).id.0 == i,
        b.items@.len() <= u32::MAX,
    ensures
        sound(b),
{
    assert forall|i: int| 0 <= i < b.furniture@.len() implies (#[trigger] b.furniture@[i]).id.0 == i
        && b.map.spec_in_bounds(b.furniture@[i].pos) by {
        assert(a.furniture@[i].id.0 == i && a.map.spec_in_bounds(a.furniture@[i].pos));
    }
    assert forall|i: int| 0 <= i < b.actors@.len() implies (#[trigger] b.actors@[i]).id.0 == i by {
        assert(a.actors@[i].id.0 == i);
    }
}

/// A shot from a drawn, loaded firearm at a target in range and in sight.
pub open spec fn after_shoot(w: World, s: Scene, d: &GameData, cat: &Catalogue, actor: ActorId, target: ActorId) -> Scene {
    let me = s.actors[actor.0 as int];
    let t = s.actors[target.0 as int];
    let crouched = me.crouched || t.crouched;
    let visible = t.spec_alive() && t.hidden_in is None && me.pos.floor == t.pos.floor && me.pos.spec_chebyshev(
        t.pos,
    ) <= d.tuning.pistol_range && spec_sees(&w, me.pos, t.pos, crouched);
    match first_carried(&w, d, actor, Wanted::Firearm) {
        None => flop(w, s, cat, actor, "fail.no_weapon"@),
        Some(k) => {
            let gun = s.items[k];
            if gun.charges == 0 || me.hands != Hands::Drawn(gun.id) {
                flop(w, s, cat, actor, "fail.cannot_fire"@)
            } else if !visible {
                flop(w, s, cat, actor, "fail.no_line"@)
            } else {
                let s1 = Scene { items: s.items.update(k, ItemInstance { charges: (gun.charges - 1) as u16, ..gun }), ..s };
                let s2 = if actor == w.player && (w.constraint matches Some(Constraint::NoFirearms)) {
                    broke(s1, cat, cat.spec_text("contract.no_firearms.breach"@))
                } else {
                    s1
                };
                let s3 = slain(w, s2, cat, actor, target);
                let s4 = Scene {
                    incidents: s3.incidents.push(
                        Incident { kind: IncidentKind::Gunshot, pos: me.pos, radius: d.tuning.gunshot_sound_radius, turn: s.turn },
                    ),
                    ..s3
                };
                done(w, told(s4, line1(cat, "log.shot"@, "name"@, t.name@)), actor)
            }
        },
    }
}

#[verifier::spinoff_prover]
#[verifier::rlimit(40)]
fn resolve_shoot(
    world: &mut World,
    events: &mut TurnEvents,
    data: &GameData,
    cat: &Catalogue,
    actor: ActorId,
    target: ActorId,
)
    requires
        sound(*old(world)),
        actor.0 < old(world).actors@.len(),
        target.0 < old(world).actors@.len(),
    ensures
        lands(*old(world), *final(world), *final(events), after_shoot(*old(world), scene(*old(world), *old(events)), data, cat, actor, target)),
        sound(*final(world)),
        lasting(*old(world), *final(world)),
        sized(*old(world), *final(world)),
{
    let ghost w0 = *world;
    let ghost s0 = scene(*world, *events);
    let shooter_pos = world.actor(actor).pos;
    let target_pos = world.actor(target).pos;
    let crouched = world.actor(actor).crouched || world.actor(target).crouched;
    let weapon = first_carried_item(world, data, actor, Wanted::Firearm);
    proof {
        lemma_near(*world, shooter_pos, target_pos);
    }
    let t = world.actor(target);
    let in_range = match shooter_pos.chebyshev(target_pos) {
        Some(dist) => dist <= data.tuning.pistol_range,
        None => false,
    };
    let visible = t.alive() && t.hidden_in.is_none() && in_range && sees(world, shooter_pos, target_pos, crouched);
    let k = match weapon {
        None => {
            fail(world, events, cat, actor, "fail.no_weapon");
            return;
        },
        Some(k) => k,
    };
    let weapon_id = world.items[k].id;
    let charges = world.items[k].charges;
    if charges == 0 || world.actor(actor).hands != Hands::Drawn(weapon_id) {
        fail(world, events, cat, actor, "fail.cannot_fire");
        return;
    }
    if !visible {
        fail(world, events, cat, actor, "fail.no_line");
        return;
    }
    world.items[k].charges = charges - 1;
    proof {
        lemma_sound(w0, *world);
    }
    let reason = if actor == world.player {
        match &world.constraint {
            Some(c) => c.on_shot(cat),
            None => None,
        }
    } else {
        None
    };
    match reason {
        Some(r) => {
            breach_constraint(world, events, cat, r.as_str());
        },
        None => {},
    }
    proof {
        lemma_sound(w0, *world);
    }
    kill(world, events, cat, actor, target);
    let radius = data.tuning.gunshot_sound_radius;
    let turn = world.turn;
    world.incidents.push(Incident { kind: IncidentKind::Gunshot, pos: shooter_pos, radius, turn });
    let name = world.actor(target).name.clone();
    let line = cat.fmt_one("log.shot", "name", name.as_str());
    say(world, events, line);
    complete(world, events, actor);
    proof {
        let s1 = Scene { items: s0.items.update(k as int, ItemInstance { charges: (charges - 1) as u16, ..s0.items[k as int] }), ..s0 };
        assert(w0.items@.update(k as int, ItemInstance { charges: (charges - 1) as u16, ..s0.items[k as int] }) =~= s1.items);
    }
}

/// An adjacent blow; the victim falls when its health runs out.
pub open spec fn after_melee(w: World, s: Scene, d: &GameData, cat: &Catalogue, actor: ActorId, target: ActorId) -> Scene {
    let t = s.actors[target.0 as int];
    if !t.spec_alive() || !s.actors[actor.0 as int].pos.spec_adjacent(t.pos) {
        flop(w, s, cat, actor, "fail.blow_missed"@)
    } else {
        let hp = if t.hp > d.tuning.guard_attack_damage {
            (t.hp - d.tuning.guard_attack_damage) as u16
        } else {
            0u16
        };
        let s1 = Scene { actors: s.actors.update(target.0 as int, Actor { hp, ..t }), ..s };
        let s2 = if hp == 0 {
            told(slain(w, s1, cat, actor, target), line1(cat, "log.struck_down"@, "name"@, t.name@))
        } else {
            told(s1, line1(cat, "log.struck"@, "name"@, t.name@))
        };
        done(w, s2, actor)
    }
}

#[verifier::spinoff_prover]
#[verifier::rlimit(40)]
fn resolve_melee(
    world: &mut World,
    events: &mut TurnEvents,
    data: &GameData,
    cat: &Catalogue,
    actor: ActorId,
    target: ActorId,
)
    requires
        sound(*old(world)),
        actor.0 < old(world).actors@.len(),
        target.0 < old(world).actors@.len(),
    ensures
        lands(*old(world), *final(world), *final(events), after_melee(*old(world), scene(*old(world), *old(events)), data, cat, actor, target)),
        sound(*final(world)),
        lasting(*old(world), *final(world)),
        sized(*old(world), *final(world)),
{
    let ghost w0 = *world;
    let attacker_pos = world.actor(actor).pos;
    let t = world.actor(target);
    if !t.alive() || !attacker_pos.is_adjacent(t.pos) {
        fail(world, events, cat, actor, "fail.blow_missed");
        return;
    }
    let damage = data.tuning.guard_attack_damage;
    let hp = if t.hp > damage {
        t.hp - damage
    } else {
        0
    };
    world.actors[target.0 as usize].hp = hp;
    proof {
        lemma_sound(w0, *world);
    }
    if hp == 0 {
        kill(world, events, cat, actor, target);
        let name = world.actor(target).name.clone();
        let line = cat.fmt_one("log.struck_down", "name", name.as_str());
        say(world, events, line);
    } else {
        let name = world.actor(target).name.clone();
        let line = cat.fmt_one("log.struck", "name", name.as_str());
        say(world, events, line);
    }
    complete(world, events, actor);
}

/// An arrest of the player by an adjacent captor ends the mission.
pub open spec fn after_arrest(w: World, s: Scene, cat: &Catalogue, actor: ActorId, target: ActorId) -> Scene {
    let t = s.actors[target.0 as int];
    if target == w.player && t.spec_alive() && s.actors[actor.0 as int].pos.spec_adjacent(t.pos) {
        done(w, told(Scene { outcome: Some(MissionOutcome::Arrested), ..s }, cat.spec_text("log.arrest"@)), actor)
    } else {
        flop(w, s, cat, actor, "fail.arrest_failed"@)
    }
}

#[verifier::spinoff_prover]
#[verifier::rlimit(40)]
fn resolve_arrest(world: &mut World, events: &mut TurnEvents, cat: &Catalogue, actor: ActorId, target: ActorId)
    requires
        sound(*old(world)),
        actor.0 < old(world).actors@.len(),
        target.0 < old(world).actors@.len(),
    ensures
        lands(*old(world), *final(world), *final(events), after_arrest(*old(world), scene(*old(world), *old(events)), cat, actor, target)),
        sound(*final(world)),
        lasting(*old(world), *final(world)),
        sized(*old(world), *final(world)),
{
    let arrester_pos = world.actor(actor).pos;
    let t = world.actor(target);
    if target == world.player && t.alive() && arrester_pos.is_adjacent(t.pos) {
        world.outcome = Some(MissionOutcome::Arrested);
        let line = cat.text("log.arrest");
        say(world, events, line);
        complete(world, events, actor);
    } else {
        fail(world, events, cat, actor, "fail.arrest_failed");
    }
}

// ---------------------------------------------------------------------
// Theft, disguises and bodies.
// ---------------------------------------------------------------------
/// A lift from an adjacent mark: anything pickpocketable from the living,
/// anything at all from the dead and the unconscious.
pub open spec fn after_pickpocket(w: World, s: Scene, d: &GameData, cat: &Catalogue, actor: ActorId, target: ActorId) -> Scene {
    let me = s.actors[actor.0 as int];
    let t = s.actors[target.0 as int];
    let near = me.pos.spec_adjacent(t.pos) || me.pos == t.pos;
    if t.hidden_in is Some || carried_among(s.actors, target) || !near {
        flop(w, s, cat, actor, "fail.mark_slipped"@)
    } else if carried_count(&w, actor) >= INVENTORY_SLOTS {
        flop(w, s, cat, actor, "fail.pockets_full"@)
    } else {
        match first_carried(&w, d, target, Wanted::Loot { dead: !t.spec_alive() }) {
            Some(k) => {
                let it = s.items[k];
                let name = match d.spec_item(it.spec@) {
                    Some(spec) => spec.name@,
                    None => it.spec@,
                };
                let s1 = Scene { items: s.items.update(k, ItemInstance { location: ItemLocation::CarriedBy(actor), ..it }), ..s };
                done(w, told(s1, line1(cat, "log.pickpocket"@, "item"@, name)), actor)
            },
            None => flop(w, s, cat, actor, "fail.nothing_to_steal"@),
        }
    }
}

#[verifier::spinoff_prover]
#[verifier::rlimit(40)]
fn resolve_pickpocket(
    world: &mut World,
    events: &mut TurnEvents,
    data: &GameData,
    cat: &Catalogue,
    actor: ActorId,
    target: ActorId,
)
    requires
        sound(*old(world)),
        actor.0 < old(world).actors@.len(),
        target.0 < old(world).actors@.len(),
    ensures
        lands(*old(world), *final(world), *final(events), after_pickpocket(*old(world), scene(*old(world), *old(events)), data, cat, actor, target)),
        sound(*final(world)),
        lasting(*old(world), *final(world)),
        sized(*old(world), *final(world)),
{
    let ghost w0 = *world;
    let actor_pos = world.actor(actor).pos;
    let t = world.actor(target);
    let near = actor_pos.is_adjacent(t.pos) || actor_pos == t.pos;
    if t.hidden_in.is_some() || world.is_carried(target) || !near {
        fail(world, events, cat, actor, "fail.mark_slipped");
        return;
    }
    if count_carried(world, actor) >= INVENTORY_SLOTS {
        fail(world, events, cat, actor, "fail.pockets_full");
        return;
    }
    let dead = !world.actor(target).alive();
    match first_carried_item(world, data, target, Wanted::Loot { dead }) {
        Some(k) => {
            let name = match data.item(world.items[k].spec.as_str()) {
                Some(spec) => spec.name.clone(),
                None => world.items[k].spec.clone(),
            };
            world.items[k].location = ItemLocation::CarriedBy(actor);
            proof {
                lemma_sound(w0, *world);
            }
            let line = cat.fmt_one("log.pickpocket", "item", name.as_str());
            say(world, events, line);
            complete(world, events, actor);
        },
        None => {
            fail(world, events, cat, actor, "fail.nothing_to_steal");
        },
    }
}

/// A change of clothes, from a body lying close by or from an adjacent
/// wardrobe; the clothes taken off stay behind in their place.
pub open spec fn after_take_disguise(w: World, s: Scene, cat: &Catalogue, actor: ActorId, source: DisguiseSource) -> Scene {
    let me = s.actors[actor.0 as int];
    if me.hands != Hands::Free {
        flop(w, s, cat, actor, "fail.hands_busy"@)
    } else {
        match source {
            DisguiseSource::Body(target) => {
                let t = s.actors[target.0 as int];
                let near = me.pos.spec_adjacent(t.pos) || me.pos == t.pos;
                if t.spec_alive() || t.hidden_in is Some || !near {
                    flop(w, s, cat, actor, "fail.clothes_far"@)
                } else {
                    let swapped = s.actors.update(target.0 as int, Actor { worn_disguise: me.worn_disguise, ..t });
                    let dressed = swapped.update(
                        actor.0 as int,
                        Actor { worn_disguise: t.worn_disguise, ..swapped[actor.0 as int] },
                    );
                    done(
                        w,
                        told(Scene { actors: dressed, ..s }, line1(cat, "log.disguise_taken"@, "disguise"@, t.worn_disguise@)),
                        actor,
                    )
                }
            },
            DisguiseSource::Wardrobe(id) => if id.0 >= s.furniture.len() {
                flop(w, s, cat, actor, "fail.wardrobe_gone"@)
            } else {
                let f = s.furniture[id.0 as int];
                if f.kind != FurnitureKind::Wardrobe || !me.pos.spec_adjacent(f.pos) {
                    flop(w, s, cat, actor, "fail.wardrobe_far"@)
                } else {
                    match f.disguise {
                        None => flop(w, s, cat, actor, "fail.wardrobe_empty"@),
                        Some(taken) => {
                            let s1 = Scene {
                                furniture: s.furniture.update(id.0 as int, crate::world::Furniture { disguise: Some(me.worn_disguise), ..f }),
                                actors: s.actors.update(actor.0 as int, Actor { worn_disguise: taken, ..me }),
                                ..s
                            };
                            done(w, told(s1, line1(cat, "log.disguise_taken"@, "disguise"@, taken@)), actor)
                        },
                    }
                }
            },
        }
    }
}

#[verifier::spinoff_prover]
#[verifier::rlimit(40)]
fn resolve_take_disguise(
    world: &mut World,
    events: &mut TurnEvents,
    cat: &Catalogue,
    actor: ActorId,
    source: DisguiseSource,
)
    requires
        sound(*old(world)),
        actor.0 < old(world).actors@.len(),
        source matches DisguiseSource::Body(t) ==> t.0 < old(world).actors@.len(),
    ensures
        lands(*old(world), *final(world), *final(events), after_take_disguise(*old(world), scene(*old(world), *old(events)), cat, actor, source)),
        sound(*final(world)),
        lasting(*old(world), *final(world)),
        sized(*old(world), *final(world)),
{
    let ghost w0 = *world;
    let actor_pos = world.actor(actor).pos;
    if world.actor(actor).hands != Hands::Free {
        fail(world, events, cat, actor, "fail.hands_busy");
        return;
    }
    match source {
        DisguiseSource::Body(target) => {
            let t = world.actor(target);
            let near = actor_pos.is_adjacent(t.pos) || actor_pos == t.pos;
            if t.alive() || t.hidden_in.is_some() || !near {
                fail(world, events, cat, actor, "fail.clothes_far");
                return;
            }
            let taken = world.actor(target).worn_disguise.clone();
            let own = world.actor(actor).worn_disguise.clone();
            world.actors[target.0 as usize].worn_disguise = own;
            let shown = taken.clone();
            world.actors[actor.0 as usize].worn_disguise = taken;
            proof {
                lemma_sound(w0, *world);
            }
            let line = cat.fmt_one("log.disguise_taken", "disguise", shown.as_str());
            say(world, events, line);
            complete(world, events, actor);
        },
        DisguiseSource::Wardrobe(id) => {
            let i = id.0 as usize;
            if i >= world.furniture.len() {
                fail(world, events, cat, actor, "fail.wardrobe_gone");
                return;
            }
            let f = &world.furniture[i];
            if f.kind != FurnitureKind::Wardrobe || !actor_pos.is_adjacent(f.pos) {
                fail(world, events, cat, actor, "fail.wardrobe_far");
                return;
            }
            let taken = match &f.disguise {
                None => {
                    fail(world, events, cat, actor, "fail.wardrobe_empty");
                    return;
                },
                Some(t) => t.clone(),
            };
            let own = world.actor(actor).worn_disguise.clone();
            world.furniture[i].disguise = Some(own);
            let shown = taken.clone();
            world.actors[actor.0 as usize].worn_disguise = taken;
            proof {
                lemma_sound(w0, *world);
            }
            let line = cat.fmt_one("log.disguise_taken", "disguise", shown.as_str());
            say(world, events, line);
            complete(world, events, actor);
        },
    }
}

/// Lifting a visible body that nobody carries, with both hands free.
pub open spec fn after_carry(w: World, s: Scene, cat: &Catalogue, actor: ActorId, target: ActorId) -> Scene {
    let me = s.actors[actor.0 as int];
    let t = s.actors[target.0 as int];
    let near = me.pos.spec_adjacent(t.pos) || me.pos == t.pos;
    if !t.spec_is_visible_body() || carried_among(s.actors, target) || !near || me.hands != Hands::Free {
        flop(w, s, cat, actor, "fail.cannot_lift"@)
    } else {
        let lifted = s.actors.update(actor.0 as int, Actor { hands: Hands::CarryingBody(target), ..me });
        let moved = lifted.update(target.0 as int, Actor { pos: me.pos, ..lifted[target.0 as int] });
        done(w, told(Scene { actors: moved, ..s }, cat.spec_text("log.body_lifted"@)), actor)
    }
}

#[verifier::spinoff_prover]
#[verifier::rlimit(40)]
fn resolve_carry(world: &mut World, events: &mut TurnEvents, cat: &Catalogue, actor: ActorId, target: ActorId)
    requires
        sound(*old(world)),
        actor.0 < old(world).actors@.len(),
        target.0 < old(world).actors@.len(),
    ensures
        lands(*old(world), *final(world), *final(events), after_carry(*old(world), scene(*old(world), *old(events)), cat, actor, target)),
        sound(*final(world)),
        lasting(*old(world), *final(world)),
        sized(*old(world), *final(world)),
{
    let ghost w0 = *world;
    let actor_pos = world.actor(actor).pos;
    let t = world.actor(target);
    let near = actor_pos.is_adjacent(t.pos) || actor_pos == t.pos;
    if !t.is_visible_body() || world.is_carried(target) || !near || world.actor(actor).hands != Hands::Free {
        fail(world, events, cat, actor, "fail.cannot_lift");
        return;
    }
    world.actors[actor.0 as usize].hands = Hands::CarryingBody(target);
    world.actors[target.0 as usize].pos = actor_pos;
    proof {
        assert(w0.map.spec_in_bounds(w0.actors@[actor.0 as int].pos));
        lemma_sound(w0, *world);
    }
    let line = cat.text("log.body_lifted");
    say(world, events, line);
    complete(world, events, actor);
}

/// Putting a carried body down on the carrier's tile or the next one,
/// which must be walkable, bare of furniture and of other bodies.
pub open spec fn after_drop(w: World, s: Scene, cat: &Catalogue, actor: ActorId, dir: Option<Dir4>) -> Scene {
    let me = s.actors[actor.0 as int];
    match me.hands {
        Hands::CarryingBody(body) => {
            let dest = match dir {
                Some(d) => me.pos.spec_step(d),
                None => me.pos,
            };
            let walkable = match w.map.spec_tile(dest) {
                TileKind::Floor | TileKind::Stairs(_) => true,
                TileKind::Door(id) => w.door_open(id),
                TileKind::Wall | TileKind::Void => false,
            };
            if !walkable || w.furniture_on(dest) || (exists|i: int|
                0 <= i < s.actors.len() && w.lies_at(#[trigger] s.actors[i], dest)) {
                flop(w, s, cat, actor, "fail.no_room_to_drop"@)
            } else {
                let freed = s.actors.update(actor.0 as int, Actor { hands: Hands::Free, ..me });
                let put = freed.update(body.0 as int, Actor { pos: dest, ..freed[body.0 as int] });
                done(w, told(Scene { actors: put, ..s }, cat.spec_text("log.body_dropped"@)), actor)
            }
        },
        _ => flop(w, s, cat, actor, "fail.nothing_to_drop"@),
    }
}

#[verifier::spinoff_prover]
#[verifier::rlimit(90)]
fn resolve_drop(world: &mut World, events: &mut TurnEvents, cat: &Catalogue, actor: ActorId, dir: Option<Dir4>)
    requires
        sound(*old(world)),
        actor.0 < old(world).actors@.len(),
    ensures
        lands(*old(world), *final(world), *final(events), after_drop(*old(world), scene(*old(world), *old(events)), cat, actor, dir)),
        sound(*final(world)),
        lasting(*old(world), *final(world)),
        sized(*old(world), *final(world)),
{
    let ghost w0 = *world;
    let body = match world.actor(actor).hands {
        Hands::CarryingBody(body) => body,
        _ => {
            fail(world, events, cat, actor, "fail.nothing_to_drop");
            return;
        },
    };
    let pos = world.actor(actor).pos;
    proof {
        lemma_steps(*world, pos);
    }
    let dest = match dir {
        Some(d) => pos.step(d),
        None => pos,
    };
    let open_door = |id: DoorId| -> (b: bool)
        ensures
            b == world.door_open(id),
        { world.door_is_open(id) };
    let walkable = world.map.walkable(dest, open_door);
    if !walkable || world.furniture_at(dest).is_some() || world.body_at(dest).is_some() {
        fail(world, events, cat, actor, "fail.no_room_to_drop");
        return;
    }
    proof {
        crate::map::lemma_tile_on_map(world.map, dest);
    }
    world.actors[actor.0 as usize].hands = Hands::Free;
    world.actors[body.0 as usize].pos = dest;
    proof {
        lemma_sound(w0, *world);
    }
    let line = cat.text("log.body_dropped");
    say(world, events, line);
    complete(world, events, actor);
}

/// Stowing a carried body in an adjacent empty container.
pub open spec fn after_hide(w: World, s: Scene, cat: &Catalogue, actor: ActorId, id: FurnitureId) -> Scene {
    let me = s.actors[actor.0 as int];
    match me.hands {
        Hands::CarryingBody(body) => if id.0 >= s.furniture.len() {
            flop(w, s, cat, actor, "fail.container_gone"@)
        } else {
            let f = s.furniture[id.0 as int];
            if f.kind != FurnitureKind::Container || f.body is Some || !me.pos.spec_adjacent(f.pos) {
                flop(w, s, cat, actor, "fail.container_refused"@)
            } else {
                let freed = s.actors.update(actor.0 as int, Actor { hands: Hands::Free, ..me });
                let stowed = freed.update(body.0 as int, Actor { hidden_in: Some(id), pos: f.pos, ..freed[body.0 as int] });
                let s1 = Scene {
                    actors: stowed,
                    furniture: s.furniture.update(id.0 as int, crate::world::Furniture { body: Some(body), ..f }),
                    ..s
                };
                done(w, told(s1, cat.spec_text("log.body_hidden"@)), actor)
            }
        },
        _ => flop(w, s, cat, actor, "fail.nothing_to_hide"@),
    }
}

#[verifier::spinoff_prover]
#[verifier::rlimit(90)]
fn resolve_hide(world: &mut World, events: &mut TurnEvents, cat: &Catalogue, actor: ActorId, id: FurnitureId)
    requires
        sound(*old(world)),
        actor.0 < old(world).actors@.len(),
    ensures
        lands(*old(world), *final(world), *final(events), after_hide(*old(world), scene(*old(world), *old(events)), cat, actor, id)),
        sound(*final(world)),
        lasting(*old(world), *final(world)),
        sized(*old(world), *final(world)),
{
    let ghost w0 = *world;
    let body = match world.actor(actor).hands {
        Hands::CarryingBody(body) => body,
        _ => {
            fail(world, events, cat, actor, "fail.nothing_to_hide");
            return;
        },
    };
    let actor_pos = world.actor(actor).pos;
    let i = id.0 as usize;
    if i >= world.furniture.len() {
        fail(world, events, cat, actor, "fail.container_gone");
        return;
    }
    let f = &world.furniture[i];
    if f.kind != FurnitureKind::Container || f.body.is_some() || !actor_pos.is_adjacent(f.pos) {
        fail(world, events, cat, actor, "fail.container_refused");
        return;
    }
    let furniture_pos = f.pos;
    world.actors[actor.0 as usize].hands = Hands::Free;
    world.actors[body.0 as usize].hidden_in = Some(id);
    world.actors[body.0 as usize].pos = furniture_pos;
    world.furniture[i].body = Some(body);
    proof {
        assert(w0.map.spec_in_bounds(w0.furniture@[i as int].pos));
        lemma_sound(w0, *world);
    }
    let ghost s1 = scene(*world, *events);
    let line = cat.text("log.body_hidden");
    say(world, events, line);
    complete(world, events, actor);
    proof {
        let me = w0.actors@[actor.0 as int];
        let freed = w0.actors@.update(actor.0 as int, Actor { hands: Hands::Free, ..me });
        let f = w0.furniture@[i as int];
        assert(s1.actors =~= freed.update(body.0 as int, Actor { hidden_in: Some(id), pos: f.pos, ..freed[body.0 as int] }));
        assert(s1.furniture =~= w0.furniture@.update(id.0 as int, crate::world::Furniture { body: Some(body), ..f }));
    }
}

// ---------------------------------------------------------------------
// Instant actions.
// ---------------------------------------------------------------------
/// Whether item `i` is a charged noisemaker that `actor` carries.
pub open spec fn charged_match(w: &World, d: &GameData, actor: ActorId, i: int) -> bool {
    carried_match(w, d, actor, Wanted::Noisemaker, i) && w.items@[i].charges > 0
}

/// The first charged noisemaker `actor` carries.
pub open spec fn first_charged(w: &World, d: &GameData, actor: ActorId) -> Option<int> {
    if exists|i: int| #[trigger] charged_match(w, d, actor, i) {
        Some(
            choose|i: int|
                charged_match(w, d, actor, i) && forall|j: int| 0 <= j < i ==> !#[trigger] charged_match(w, d, actor, j),
        )
    } else {
        None
    }
}

fn first_charged_item(world: &World, data: &GameData, actor: ActorId) -> (r: Option<usize>)
    ensures
        match r {
            Some(i) => first_charged(world, data, actor) == Some(i as int) && i < world.items@.len()
                && charged_match(world, data, actor, i as int),
            None => first_charged(world, data, actor) is None,
        },
{
    let mut i: usize = 0;
    while i < world.items.len()
        invariant
            0 <= i <= world.items@.len(),
            forall|j: int| 0 <= j < i ==> !#[trigger] charged_match(world, data, actor, j),
        decreases world.items@.len() - i,
    {
        if world.items[i].location == ItemLocation::CarriedBy(actor) && world.items[i].charges > 0 {
            match spec_for(data, world.items[i].spec.as_str()) {
                Some(spec) => {
                    if matches_wanted(Wanted::Noisemaker, spec) {
                        proof {
                            assert(charged_match(world, data, actor, i as int));
                            let c = choose|c: int|
                                charged_match(world, data, actor, c) && forall|j: int|
                                    0 <= j < c ==> !#[trigger] charged_match(world, data, actor, j);
                            if c > i {
                                assert(!charged_match(world, data, actor, i as int));
                            }
                        }
                        return Some(i);
                    }
                },
                None => {},
            }
        }
        assert(!charged_match(world, data, actor, i as int));
        i = i + 1;
    }
    proof {
        if exists|c: int| #[trigger] charged_match(world, data, actor, c) {
            let c = choose|c: int| #[trigger] charged_match(world, data, actor, c);
            assert(0 <= c < world.items@.len());
        }
    }
    None
}

/// A line for the player's own log only.
pub open spec fn aside(w: World, s: Scene, actor: ActorId, line: Seq<char>) -> Scene {
    if actor == w.player {
        told(s, line)
    } else {
        s
    }
}

/// Drawing the carried firearm with free hands, or holstering a drawn one.
pub open spec fn after_draw(w: World, s: Scene, d: &GameData, cat: &Catalogue, actor: ActorId) -> Scene {
    let me = s.actors[actor.0 as int];
    match me.hands {
        Hands::Drawn(_) => aside(
            w,
            done(w, Scene { actors: s.actors.update(actor.0 as int, Actor { hands: Hands::Free, ..me }), ..s }, actor),
            actor,
            cat.spec_text("log.holster"@),
        ),
        Hands::Free if first_carried(&w, d, actor, Wanted::Firearm) is Some => {
            let gun = s.items[first_carried(&w, d, actor, Wanted::Firearm).unwrap()];
            aside(
                w,
                done(
                    w,
                    Scene { actors: s.actors.update(actor.0 as int, Actor { hands: Hands::Drawn(gun.id), ..me }), ..s },
                    actor,
                ),
                actor,
                cat.spec_text("log.draw"@),
            )
        },
        _ => said(w, s, actor, Said::Failed(cat.spec_text("fail.hands_busy"@))),
    }
}

/// Throwing one charge of a carried noisemaker: a noise where it lands.
pub open spec fn after_throw(w: World, s: Scene, d: &GameData, cat: &Catalogue, actor: ActorId, at: Pos) -> Scene {
    match first_charged(&w, d, actor) {
        Some(k) => {
            let it = s.items[k];
            let s1 = Scene {
                items: s.items.update(k, ItemInstance { charges: (it.charges - 1) as u16, ..it }),
                incidents: s.incidents.push(
                    Incident { kind: IncidentKind::Noise, pos: at, radius: d.tuning.noise_radius, turn: s.turn },
                ),
                ..s
            };
            aside(w, done(w, s1, actor), actor, cat.spec_text("log.noisemaker"@))
        },
        None => said(w, s, actor, Said::Failed(cat.spec_text("fail.no_charges"@))),
    }
}

/// Phase one: waiting, crouching, turning, drawing and holstering, and
/// throwing a noisemaker, which land before anything else.
pub open spec fn after_instant(w: World, s: Scene, d: &GameData, cat: &Catalogue, p: PreparedAction) -> Scene {
    let actor = p.actor;
    let me = s.actors[actor.0 as int];
    match p.intent {
        ActionIntent::Wait => done(w, s, actor),
        ActionIntent::ToggleCrouch => done(
            w,
            Scene { actors: s.actors.update(actor.0 as int, Actor { crouched: !me.crouched, ..me }), ..s },
            actor,
        ),
        ActionIntent::TurnFacing(dir) => done(
            w,
            Scene { actors: s.actors.update(actor.0 as int, Actor { facing: Some(dir), ..me }), ..s },
            actor,
        ),
        ActionIntent::DrawOrHolster => after_draw(w, s, d, cat, actor),
        ActionIntent::Throw(at) => after_throw(w, s, d, cat, actor, at),
        _ => s,
    }
}

fn aside_line(world: &World, events: &mut TurnEvents, actor: ActorId, line: String)
    ensures
        scene(*world, *final(events)) == aside(*world, scene(*world, *old(events)), actor, line@),
{
    if actor == world.player {
        say(world, events, line);
    }
}

#[verifier::spinoff_prover]
#[verifier::rlimit(40)]
fn resolve_draw_or_holster(world: &mut World, events: &mut TurnEvents, data: &GameData, cat: &Catalogue, actor: ActorId)
    requires
        sound(*old(world)),
        actor.0 < old(world).actors@.len(),
    ensures
        lands(*old(world), *final(world), *final(events), after_draw(*old(world), scene(*old(world), *old(events)), data, cat, actor)),
        sound(*final(world)),
        lasting(*old(world), *final(world)),
        sized(*old(world), *final(world)),
{
    let ghost w0 = *world;
    let a = actor.0 as usize;
    let weapon = first_carried_item(world, data, actor, Wanted::Firearm);
    match (world.actors[a].hands, weapon) {
        (Hands::Free, Some(k)) => {
            let id = world.items[k].id;
            world.actors[a].hands = Hands::Drawn(id);
            proof {
                lemma_sound(w0, *world);
            }
            complete(world, events, actor);
            let line = cat.text("log.draw");
            aside_line(world, events, actor, line);
        },
        (Hands::Drawn(_), _) => {
            world.actors[a].hands = Hands::Free;
            proof {
                lemma_sound(w0, *world);
            }
            complete(world, events, actor);
            let line = cat.text("log.holster");
            aside_line(world, events, actor, line);
        },
        _ => {
            let why = cat.text("fail.hands_busy");
            record(world, events, actor, ActionResult::Failed(why));
        },
    }
}

#[verifier::spinoff_prover]
#[verifier::rlimit(40)]
fn resolve_throw(world: &mut World, events: &mut TurnEvents, data: &GameData, cat: &Catalogue, actor: ActorId, at: Pos)
    requires
        sound(*old(world)),
        actor.0 < old(world).actors@.len(),
    ensures
        lands(*old(world), *final(world), *final(events), after_throw(*old(world), scene(*old(world), *old(events)), data, cat, actor, at)),
        sound(*final(world)),
        lasting(*old(world), *final(world)),
        sized(*old(world), *final(world)),
{
    let ghost w0 = *world;
    match first_charged_item(world, data, actor) {
        Some(k) => {
            let charges = world.items[k].charges;
            world.items[k].charges = charges - 1;
            let radius = data.tuning.noise_radius;
            let turn = world.turn;
            world.incidents.push(Incident { kind: IncidentKind::Noise, pos: at, radius, turn });
            proof {
                lemma_sound(w0, *world);
            }
            complete(world, events, actor);
            let line = cat.text("log.noisemaker");
            aside_line(world, events, actor, line);
        },
        None => {
            let why = cat.text("fail.no_charges");
            record(world, events, actor, ActionResult::Failed(why));
        },
    }
}

#[verifier::spinoff_prover]
#[verifier::rlimit(40)]
fn resolve_instant(world: &mut World, events: &mut TurnEvents, data: &GameData, cat: &Catalogue, p: PreparedAction)
    requires
        sound(*old(world)),
        p.actor.0 < old(world).actors@.len(),
    ensures
        lands(*old(world), *final(world), *final(events), after_instant(*old(world), scene(*old(world), *old(events)), data, cat, p)),
        sound(*final(world)),
        lasting(*old(world), *final(world)),
        sized(*old(world), *final(world)),
{
    let ghost w0 = *world;
    let actor = p.actor;
    let a = actor.0 as usize;
    match p.intent {
        ActionIntent::Wait => {
            complete(world, events, actor);
        },
        ActionIntent::ToggleCrouch => {
            let crouched = world.actors[a].crouched;
            world.actors[a].crouched = !crouched;
            proof {
                lemma_sound(w0, *world);
            }
            complete(world, events, actor);
        },
        ActionIntent::TurnFacing(dir) => {
            world.actors[a].facing = Some(dir);
            proof {
                lemma_sound(w0, *world);
            }
            complete(world, events, actor);
        },
        ActionIntent::DrawOrHolster => {
            resolve_draw_or_holster(world, events, data, cat, actor);
        },
        ActionIntent::Throw(at) => {
            resolve_throw(world, events, data, cat, actor, at);
        },
        _ => {},
    }
}

// ---------------------------------------------------------------------
// Doors and machines.
// ---------------------------------------------------------------------
/// Scan order over the whole map: storey, then row, then column.
pub open spec fn scan_before(p: Pos, q: Pos) -> bool {
    p.floor < q.floor || (p.floor == q.floor && (p.y < q.y || (p.y == q.y && p.x < q.x)))
}

/// Whether `p` is a tile of door `id`.
pub open spec fn door_tile(m: GameMap, id: DoorId, p: Pos) -> bool {
    m.spec_tile(p) == TileKind::Door(id)
}

/// Whether `p` is the first tile of door `id` in scan order.
pub open spec fn first_door_tile(m: GameMap, id: DoorId, p: Pos) -> bool {
    door_tile(m, id, p) && forall|q: Pos| scan_before(q, p) ==> !#[trigger] door_tile(m, id, q)
}

/// The tile holding door `id`, wherever it is: the first in scan order.
pub open spec fn door_spot(m: GameMap, id: DoorId) -> Option<Pos> {
    if exists|p: Pos| first_door_tile(m, id, p) {
        Some(choose|p: Pos| first_door_tile(m, id, p))
    } else {
        None
    }
}

proof fn lemma_first_door_unique(m: GameMap, id: DoorId, p: Pos, q: Pos)
    requires
        first_door_tile(m, id, p),
        first_door_tile(m, id, q),
    ensures
        p == q,
{
    if p != q {
        if scan_before(p, q) {
            assert(!door_tile(m, id, p));
        } else {
            assert(scan_before(q, p));
            assert(!door_tile(m, id, q));
        }
    }
}

fn door_position(map: &GameMap, id: DoorId) -> (r: Option<Pos>)
    requires
        map.wf(),
    ensures
        r == door_spot(*map, id),
{
    let floors = map.floor_count();
    let width = map.width();
    let height = map.height();
    if width > 32767 || height > 32767 {
        proof {
            assert forall|q: Pos| !#[trigger] door_tile(*map, id, q) by {
                if door_tile(*map, id, q) {
                    crate::map::lemma_tile_on_map(*map, q);
                }
            }
        }
        return None;
    }
    let wi = width as i16;
    let hi = height as i16;
    let mut f: u8 = 0;
    while f < floors
        invariant
            map.wf(),
            floors == map.spec_floor_count(),
            wi == map.spec_width(),
            hi == map.spec_height(),
            width <= 32767,
            height <= 32767,
            f <= floors,
            forall|q: Pos| #[trigger] door_tile(*map, id, q) ==> q.floor >= f,
        decreases floors - f,
    {
        proof {
            assert forall|q: Pos| #[trigger] door_tile(*map, id, q) implies q.floor > f || (q.floor == f && q.y
                >= 0) by {
                crate::map::lemma_tile_on_map(*map, q);
            }
        }
        let mut y: i16 = 0;
        while y < hi
            invariant
                map.wf(),
                floors == map.spec_floor_count(),
                wi == map.spec_width(),
                hi == map.spec_height(),
                width <= 32767,
                height <= 32767,
                f < floors,
                0 <= y <= hi,
                forall|q: Pos| #[trigger] door_tile(*map, id, q) ==> q.floor > f || (q.floor == f && q.y >= y),
            decreases hi - y,
        {
            proof {
                assert forall|q: Pos| #[trigger] door_tile(*map, id, q) implies q.floor > f || (q.floor == f && (q.y
                    > y || (q.y == y && q.x >= 0))) by {
                    crate::map::lemma_tile_on_map(*map, q);
                }
            }
            let mut x: i16 = 0;
            while x < wi
                invariant
                    map.wf(),
                    floors == map.spec_floor_count(),
                    wi == map.spec_width(),
                    hi == map.spec_height(),
                    width <= 32767,
                    height <= 32767,
                    f < floors,
                    0 <= y < hi,
                    0 <= x <= wi,
                    forall|q: Pos|
                        #[trigger] door_tile(*map, id, q) ==> q.floor > f || (q.floor == f && (q.y > y || (q.y == y
                            && q.x >= x))),
                decreases wi - x,
            {
                let p = Pos { floor: f, x, y };
                if map.tile(p) == TileKind::Door(id) {
                    proof {
                        assert(first_door_tile(*map, id, p));
                        lemma_first_door_unique(*map, id, p, choose|q: Pos| first_door_tile(*map, id, q));
                    }
                    return Some(p);
                }
                x = x + 1;
            }
            proof {
                assert forall|q: Pos| #[trigger] door_tile(*map, id, q) implies q.floor > f || (q.floor == f
                    && q.y >= y + 1) by {
                    crate::map::lemma_tile_on_map(*map, q);
                }
            }
            y = y + 1;
        }
        proof {
            assert forall|q: Pos| #[trigger] door_tile(*map, id, q) implies q.floor >= f + 1 by {
                crate::map::lemma_tile_on_map(*map, q);
            }
        }
        f = f + 1;
    }
    proof {
        assert forall|q: Pos| !#[trigger] door_tile(*map, id, q) by {
            if door_tile(*map, id, q) {
                crate::map::lemma_tile_on_map(*map, q);
            }
        }
    }
    None
}

/// Opening a door: an open door needs nothing; a locked one needs the key.
pub open spec fn after_open(w: World, s: Scene, d: &GameData, cat: &Catalogue, actor: ActorId, id: DoorId) -> Scene {
    let door = s.doors[id.0 as int];
    if door.open {
        done(w, s, actor)
    } else if spec_can_pass_door(&w, d, actor, id) {
        done(w, Scene { doors: s.doors.update(id.0 as int, crate::map::DoorState { open: true, ..door }), ..s }, actor)
    } else {
        said(w, s, actor, Said::Failed(cat.spec_text("fail.door_locked"@)))
    }
}

/// Closing an open door whose doorway nobody stands in.
pub open spec fn after_close(w: World, s: Scene, cat: &Catalogue, actor: ActorId, id: DoorId) -> Scene {
    let door = s.doors[id.0 as int];
    let blocked = match door_spot(w.map, id) {
        Some(q) => standing_among(s.actors, q) is Some,
        None => false,
    };
    if door.open && !blocked {
        done(w, Scene { doors: s.doors.update(id.0 as int, crate::map::DoorState { open: false, ..door }), ..s }, actor)
    } else {
        said(w, s, actor, Said::Failed(cat.spec_text("fail.doorway_blocked"@)))
    }
}

/// Picking a locked door's lock, which leaves it unlocked and open.
pub open spec fn after_pick(w: World, s: Scene, cat: &Catalogue, actor: ActorId, id: DoorId) -> Scene {
    if s.doors[id.0 as int].locked_by is Some {
        let picked = Scene {
            doors: s.doors.update(id.0 as int, crate::map::DoorState { open: true, locked_by: None }),
            ..s
        };
        aside(w, done(w, picked, actor), actor, cat.spec_text("log.lock_picked"@))
    } else {
        said(w, s, actor, Said::Failed(cat.spec_text("fail.door_not_locked"@)))
    }
}

#[verifier::spinoff_prover]
fn resolve_open(world: &mut World, events: &mut TurnEvents, data: &GameData, cat: &Catalogue, actor: ActorId, id: DoorId)
    requires
        sound(*old(world)),
        actor.0 < old(world).actors@.len(),
        id.0 < old(world).doors@.len(),
    ensures
        lands(*old(world), *final(world), *final(events), after_open(*old(world), scene(*old(world), *old(events)), data, cat, actor, id)),
        sound(*final(world)),
        lasting(*old(world), *final(world)),
        sized(*old(world), *final(world)),
{
    let ghost w0 = *world;
    let i = id.0 as usize;
    if world.doors[i].open {
        complete(world, events, actor);
    } else if can_pass_door(world, data, actor, id) {
        world.doors[i].open = true;
        proof {
            lemma_sound(w0, *world);
        }
        complete(world, events, actor);
    } else {
        let why = cat.text("fail.door_locked");
        record(world, events, actor, ActionResult::Failed(why));
    }
}

#[verifier::spinoff_prover]
fn resolve_close(world: &mut World, events: &mut TurnEvents, cat: &Catalogue, actor: ActorId, id: DoorId)
    requires
        sound(*old(world)),
        actor.0 < old(world).actors@.len(),
        id.0 < old(world).doors@.len(),
    ensures
        lands(*old(world), *final(world), *final(events), after_close(*old(world), scene(*old(world), *old(events)), cat, actor, id)),
        sound(*final(world)),
        lasting(*old(world), *final(world)),
        sized(*old(world), *final(world)),
{
    let ghost w0 = *world;
    let i = id.0 as usize;
    let spot = door_position(&world.map, id);
    let blocked = match spot {
        Some(q) => world.standing_actor_at(q).is_some(),
        None => false,
    };
    if world.doors[i].open && !blocked {
        world.doors[i].open = false;
        proof {
            lemma_sound(w0, *world);
        }
        complete(world, events, actor);
    } else {
        let why = cat.text("fail.doorway_blocked");
        record(world, events, actor, ActionResult::Failed(why));
    }
}

#[verifier::spinoff_prover]
fn resolve_pick_lock(world: &mut World, events: &mut TurnEvents, cat: &Catalogue, actor: ActorId, id: DoorId)
    requires
        sound(*old(world)),
        actor.0 < old(world).actors@.len(),
        id.0 < old(world).doors@.len(),
    ensures
        lands(*old(world), *final(world), *final(events), after_pick(*old(world), scene(*old(world), *old(events)), cat, actor, id)),
        sound(*final(world)),
        lasting(*old(world), *final(world)),
        sized(*old(world), *final(world)),
{
    let ghost w0 = *world;
    let i = id.0 as usize;
    if world.doors[i].locked_by.is_some() {
        world.doors[i].locked_by = None;
        world.doors[i].open = true;
        proof {
            lemma_sound(w0, *world);
            assert(world.doors@ =~= w0.doors@.update(i as int, crate::map::DoorState { open: true, locked_by: None }));
        }
        complete(world, events, actor);
        let line = cat.text("log.lock_picked");
        aside_line(world, events, actor, line);
    } else {
        let why = cat.text("fail.door_not_locked");
        record(world, events, actor, ActionResult::Failed(why));
    }
}

/// The rooms with every room on storey `floor` dimmed.
pub open spec fn dimmed(rooms: Seq<crate::world::Room>, floor: u8) -> Seq<crate::world::Room> {
    rooms.map_values(
        |r: crate::world::Room|
            if r.floor == floor {
                crate::world::Room { lighting: Lighting::Dim, ..r }
            } else {
                r
            },
    )
}

fn dim_floor(world: &mut World, floor: u8)
    ensures
        final(world).rooms@ == dimmed(old(world).rooms@, floor),
        *final(world) == (World { rooms: final(world).rooms, ..*old(world) }),
{
    let ghost before = world.rooms@;
    let mut i: usize = 0;
    while i < world.rooms.len()
        invariant
            0 <= i <= world.rooms@.len(),
            world.rooms@.len() == before.len(),
            *world == (World { rooms: world.rooms, ..*old(world) }),
            before == old(world).rooms@,
            forall|j: int| 0 <= j < i ==> #[trigger] world.rooms@[j] == dimmed(before, floor)[j],
            forall|j: int| i <= j < world.rooms@.len() ==> #[trigger] world.rooms@[j] == before[j],
        decreases world.rooms@.len() - i,
    {
        if world.rooms[i].floor == floor {
            world.rooms[i].lighting = Lighting::Dim;
        }
        i = i + 1;
    }
    assert(world.rooms@ =~= dimmed(before, floor));
}

/// Whether the evacuation reaches actor `a`: a present, conscious NPC.
pub open spec fn evacuee(a: Actor) -> bool {
    a.role.is_some() && a.spec_alive() && !a.departed && a.ai is Some
}

/// Actor `a` after a fire alarm at `at`: guards who were relaxed or merely
/// suspicious go to investigate; everyone else in the crowd flees.
pub open spec fn alarmed(a: Actor, at: Pos) -> Actor {
    let m = mind_of(a);
    if !evacuee(a) {
        a
    } else if a.role == Some(Role::Guard) {
        if m.mood == Mood::Relaxed || m.mood == Mood::Suspicious {
            minded(a, Mind { mood: Mood::Investigating, focus: Some(at), ..m })
        } else {
            a
        }
    } else {
        minded(a, Mind { mood: Mood::Fleeing, focus: Some(at), ..m })
    }
}

fn evacuate(world: &mut World, at: Pos)
    ensures
        final(world).actors@ == old(world).actors@.map_values(|a: Actor| alarmed(a, at)),
        *final(world) == (World { actors: final(world).actors, ..*old(world) }),
{
    let ghost before = world.actors@;
    let mut i: usize = 0;
    while i < world.actors.len()
        invariant
            0 <= i <= world.actors@.len(),
            world.actors@.len() == before.len(),
            *world == (World { actors: world.actors, ..*old(world) }),
            before == old(world).actors@,
            forall|j: int| 0 <= j < i ==> #[trigger] world.actors@[j] == alarmed(before[j], at),
            forall|j: int| i <= j < world.actors@.len() ==> #[trigger] world.actors@[j] == before[j],
        decreases world.actors@.len() - i,
    {
        let a = &world.actors[i];
        if a.role.is_some() && a.alive() && !a.departed && a.ai.is_some() {
            let is_guard = a.role == Some(Role::Guard);
            let (mood, suspicion, focus, knows) = match &a.ai {
                Some(ai) => (ai.mood, ai.suspicion, ai.focus, ai.knows_player_hostile),
                None => (Mood::Relaxed, 0, None, false),
            };
            if is_guard {
                if mood == Mood::Relaxed || mood == Mood::Suspicious {
                    set_mind(
                        world,
                        i,
                        Mind { mood: Mood::Investigating, suspicion, focus: Some(at), knows_player_hostile: knows },
                    );
                }
            } else {
                set_mind(world, i, Mind { mood: Mood::Fleeing, suspicion, focus: Some(at), knows_player_hostile: knows });
            }
        }
        i = i + 1;
    }
    assert(world.actors@ =~= before.map_values(|a: Actor| alarmed(a, at)));
}

/// A machine's load falling on `tile`: whoever stands there dies in a
/// deniable accident, dropping any body they carried; the crash is noise.
pub open spec fn after_accident(s: Scene, cat: &Catalogue, drop_tile: Option<Pos>) -> Scene {
    let victim = match drop_tile {
        Some(t) => standing_among(s.actors, t),
        None => None,
    };
    match victim {
        Some(v) => {
            let vic = s.actors[v];
            let dropped = match vic.hands {
                Hands::CarryingBody(b) => s.actors.update(b.0 as int, Actor { pos: vic.pos, ..s.actors[b.0 as int] }),
                _ => s.actors,
            };
            let crushed = dropped.update(
                v,
                Actor { condition: BodyCondition::Dead, hp: 0, hands: Hands::Free, ..dropped[v] },
            );
            let s1 = Scene {
                actors: crushed,
                incidents: s.incidents.push(
                    Incident { kind: IncidentKind::Noise, pos: drop_tile.unwrap(), radius: 8, turn: s.turn },
                ),
                ..s
            };
            told(s1, line1(cat, "log.hoist_hit"@, "name"@, vic.name@))
        },
        None => told(s, cat.spec_text("log.hoist_miss"@)),
    }
}

#[verifier::spinoff_prover]
#[verifier::rlimit(60)]
fn accident(world: &mut World, events: &mut TurnEvents, cat: &Catalogue, drop_tile: Option<Pos>)
    requires
        sound(*old(world)),
    ensures
        lands(*old(world), *final(world), *final(events), after_accident(scene(*old(world), *old(events)), cat, drop_tile)),
        sound(*final(world)),
        lasting(*old(world), *final(world)),
        sized(*old(world), *final(world)),
{
    let ghost w0 = *world;
    let victim = match drop_tile {
        Some(t) => match world.standing_actor_at(t) {
            Some(a) => Some(a.id),
            None => None,
        },
        None => None,
    };
    match victim {
        Some(v) => {
            let vi = v.0 as usize;
            assert(w0.actors@[vi as int].id.0 == vi);
            let hands = world.actors[vi].hands;
            let at = world.actors[vi].pos;
            match hands {
                Hands::CarryingBody(b) => {
                    world.actors[b.0 as usize].pos = at;
                },
                _ => {},
            }
            let name = world.actors[vi].name.clone();
            world.actors[vi].condition = BodyCondition::Dead;
            world.actors[vi].hp = 0;
            world.actors[vi].hands = Hands::Free;
            let turn = world.turn;
            let tile = match drop_tile {
                Some(t) => t,
                None => at,
            };
            world.incidents.push(Incident { kind: IncidentKind::Noise, pos: tile, radius: 8, turn });
            proof {
                lemma_sound(w0, *world);
                let s0 = scene(w0, *old(events));
                let vic = s0.actors[vi as int];
                let dropped = match vic.hands {
                    Hands::CarryingBody(b) => s0.actors.update(b.0 as int, Actor { pos: vic.pos, ..s0.actors[b.0 as int] }),
                    _ => s0.actors,
                };
                assert(world.actors@ =~= dropped.update(
                    vi as int,
                    Actor { condition: BodyCondition::Dead, hp: 0, hands: Hands::Free, ..dropped[vi as int] },
                ));
            }
            let line = cat.fmt_one("log.hoist_hit", "name", name.as_str());
            say(world, events, line);
        },
        None => {
            let line = cat.text("log.hoist_miss");
            say(world, events, line);
        },
    }
}

/// Whether the data knows item `id`.
#[verifier::opaque]
pub open spec fn knows_item(d: &GameData, id: Seq<char>) -> bool {
    d.spec_item(id) is Some
}

/// Whether every key an opportunity places is an item the data knows.
pub open spec fn keys_known(d: &GameData) -> bool {
    forall|id: Seq<char>|
        match #[trigger] d.spec_opportunity(id) {
            Some(op) => match op.effect {
                OpportunityEffect::PlaceKey { item } => knows_item(d, item@),
                _ => true,
            },
            None => true,
        }
}

/// A machine once used: marked spent, and the action completes.
pub open spec fn spent(w: World, x: Scene, actor: ActorId, id: FurnitureId) -> Scene {
    let f = x.furniture[id.0 as int];
    done(w, Scene { furniture: x.furniture.update(id.0 as int, crate::world::Furniture { used: true, ..f }), ..x }, actor)
}

/// What opportunity effect `e` of machine `f` does when `actor` uses it.
pub open spec fn machine_effect(
    w: World,
    s: Scene,
    d: &GameData,
    cat: &Catalogue,
    actor: ActorId,
    f: crate::world::Furniture,
    e: OpportunityEffect,
) -> Option<Scene> {
    match e {
        OpportunityEffect::CutLights => Some(
            told(Scene { rooms: dimmed(s.rooms, f.pos.floor), ..s }, cat.spec_text("log.lights_cut"@)),
        ),
        OpportunityEffect::AccidentDrop => Some(after_accident(s, cat, f.drop_tile)),
        OpportunityEffect::Evacuate => Some(
            told(Scene { actors: s.actors.map_values(|a: Actor| alarmed(a, f.pos)), ..s }, cat.spec_text("log.fire_alarm"@)),
        ),
        OpportunityEffect::PlaceKey { item } => if carried_count(&w, actor) >= INVENTORY_SLOTS {
            None
        } else {
            let si = d.spec_item(item@).unwrap();
            let key = ItemInstance {
                id: ItemId(s.items.len() as u32),
                spec: si.id,
                location: ItemLocation::CarriedBy(actor),
                charges: si.charges,
            };
            Some(told(Scene { items: s.items.push(key), ..s }, line1(cat, "log.key_taken"@, "item"@, si.name@)))
        },
        OpportunityEffect::StockWardrobe { .. } => None,
    }
}

/// Using the opportunity machine `id`: its effect lands, and a one-shot
/// machine is spent. A key needs a free pocket; a wardrobe stocker is no
/// machine to use.
#[verifier::opaque]
pub open spec fn after_interact(w: World, s: Scene, d: &GameData, cat: &Catalogue, actor: ActorId, id: FurnitureId) -> Scene {
    let nothing = flop(w, s, cat, actor, "fail.nothing_to_use"@);
    if id.0 >= s.furniture.len() {
        nothing
    } else {
        let f = s.furniture[id.0 as int];
        match f.machine {
            None => nothing,
            Some(m) => match d.spec_opportunity(m@) {
                None => nothing,
                Some(op) => if f.used {
                    flop(w, s, cat, actor, "fail.machine_spent"@)
                } else {
                    match machine_effect(w, s, d, cat, actor, f, op.effect) {
                        Some(x) => spent(w, x, actor, id),
                        None => match op.effect {
                            OpportunityEffect::PlaceKey { .. } => flop(w, s, cat, actor, "fail.pockets_full_item"@),
                            _ => nothing,
                        },
                    }
                },
            },
        }
    }
}

#[verifier::spinoff_prover]
#[verifier::rlimit(60)]
fn place_key(world: &mut World, events: &mut TurnEvents, data: &GameData, cat: &Catalogue, actor: ActorId, item: &String)
    requires
        sound(*old(world)),
        old(world).items@.len() < u32::MAX,
        knows_item(data, item@),
    ensures
        lands(*old(world), *final(world), *final(events), ({
            let s = scene(*old(world), *old(events));
            let si = data.spec_item(item@).unwrap();
            let key = ItemInstance {
                id: ItemId(s.items.len() as u32),
                spec: si.id,
                location: ItemLocation::CarriedBy(actor),
                charges: si.charges,
            };
            told(Scene { items: s.items.push(key), ..s }, line1(cat, "log.key_taken"@, "item"@, si.name@))
        })),
        sound(*final(world)),
        lasting(*old(world), *final(world)),
        sized(*old(world), *final(world)),
{
    let ghost w0 = *world;
    proof {
        reveal(knows_item);
    }
    let spec_item = data.item(item.as_str()).unwrap();
    let new_id = ItemId(world.items.len() as u32);
    let key = ItemInstance {
        id: new_id,
        spec: spec_item.id.clone(),
        location: ItemLocation::CarriedBy(actor),
        charges: spec_item.charges,
    };
    world.items.push(key);
    proof {
        lemma_sound(w0, *world);
    }
    let line = cat.fmt_one("log.key_taken", "item", spec_item.name.as_str());
    say(world, events, line);
}

#[verifier::spinoff_prover]
#[verifier::rlimit(60)]
fn raise_alarm(world: &mut World, events: &mut TurnEvents, cat: &Catalogue, at: Pos)
    requires
        sound(*old(world)),
    ensures
        lands(*old(world), *final(world), *final(events), ({
            let s = scene(*old(world), *old(events));
            told(Scene { actors: s.actors.map_values(|a: Actor| alarmed(a, at)), ..s }, cat.spec_text("log.fire_alarm"@))
        })),
        sound(*final(world)),
        lasting(*old(world), *final(world)),
        sized(*old(world), *final(world)),
{
    let ghost w0 = *world;
    evacuate(world, at);
    proof {
        assert forall|j: int| 0 <= j < world.actors@.len() implies (#[trigger] world.actors@[j]).id == w0.actors@[j].id
            && world.map.spec_in_bounds(world.actors@[j].pos) && match world.actors@[j].hands {
            Hands::CarryingBody(x) => x.0 < world.actors@.len(),
            _ => true,
        } by {
            assert(w0.map.spec_in_bounds(w0.actors@[j].pos));
            assert(match w0.actors@[j].hands {
                Hands::CarryingBody(x) => x.0 < w0.actors@.len(),
                _ => true,
            });
        }
        lemma_sound(w0, *world);
    }
    let line = cat.text("log.fire_alarm");
    say(world, events, line);
}

#[verifier::spinoff_prover]
#[verifier::rlimit(60)]
fn cut_lights(world: &mut World, events: &mut TurnEvents, cat: &Catalogue, floor: u8)
    requires
        sound(*old(world)),
    ensures
        lands(*old(world), *final(world), *final(events), ({
            let s = scene(*old(world), *old(events));
            told(Scene { rooms: dimmed(s.rooms, floor), ..s }, cat.spec_text("log.lights_cut"@))
        })),
        sound(*final(world)),
        lasting(*old(world), *final(world)),
        sized(*old(world), *final(world)),
{
    let ghost w0 = *world;
    dim_floor(world, floor);
    proof {
        lemma_sound(w0, *world);
    }
    let line = cat.text("log.lights_cut");
    say(world, events, line);
}

#[verifier::spinoff_prover]
#[verifier::rlimit(60)]
fn spend(world: &mut World, events: &mut TurnEvents, actor: ActorId, id: FurnitureId)
    requires
        sound(*old(world)),
        id.0 < old(world).furniture@.len(),
    ensures
        lands(*old(world), *final(world), *final(events), spent(*old(world), scene(*old(world), *old(events)), actor, id)),
        sound(*final(world)),
        lasting(*old(world), *final(world)),
        sized(*old(world), *final(world)),
{
    let ghost w0 = *world;
    world.furniture[id.0 as usize].used = true;
    proof {
        lemma_sound(w0, *world);
    }
    complete(world, events, actor);
}

#[verifier::spinoff_prover]
#[verifier::rlimit(60)]
fn resolve_interact(
    world: &mut World,
    events: &mut TurnEvents,
    data: &GameData,
    cat: &Catalogue,
    actor: ActorId,
    id: FurnitureId,
)
    requires
        sound(*old(world)),
        actor.0 < old(world).actors@.len(),
        old(world).items@.len() < u32::MAX,
        keys_known(data),
    ensures
        lands(*old(world), *final(world), *final(events), after_interact(*old(world), scene(*old(world), *old(events)), data, cat, actor, id)),
        sound(*final(world)),
        lasting(*old(world), *final(world)),
        sized(*old(world), *final(world)),
{
    reveal(after_interact);
    let ghost w0 = *world;
    let ghost e0 = *events;
    let i = id.0 as usize;
    if i >= world.furniture.len() {
        fail(world, events, cat, actor, "fail.nothing_to_use");
        return;
    }
    let machine_pos = world.furniture[i].pos;
    let drop_tile = world.furniture[i].drop_tile;
    let used = world.furniture[i].used;
    let op = match &world.furniture[i].machine {
        None => {
            fail(world, events, cat, actor, "fail.nothing_to_use");
            return;
        },
        Some(m) => match data.opportunity(m.as_str()) {
            None => {
                fail(world, events, cat, actor, "fail.nothing_to_use");
                return;
            },
            Some(op) => op,
        },
    };
    assert(match data.spec_opportunity(w0.furniture@[i as int].machine.unwrap()@) {
        Some(op) => match op.effect {
            OpportunityEffect::PlaceKey { item } => knows_item(data, item@),
            _ => true,
        },
        None => true,
    });
    if used {
        fail(world, events, cat, actor, "fail.machine_spent");
        return;
    }
    match &op.effect {
        OpportunityEffect::CutLights => {
            cut_lights(world, events, cat, machine_pos.floor);
        },
        OpportunityEffect::AccidentDrop => {
            accident(world, events, cat, drop_tile);
        },
        OpportunityEffect::Evacuate => {
            raise_alarm(world, events, cat, machine_pos);
        },
        OpportunityEffect::PlaceKey { item } => {
            if count_carried(world, actor) >= INVENTORY_SLOTS {
                fail(world, events, cat, actor, "fail.pockets_full_item");
                return;
            }
            place_key(world, events, data, cat, actor, item);
        },
        OpportunityEffect::StockWardrobe { .. } => {
            fail(world, events, cat, actor, "fail.nothing_to_use");
            return;
        },
    }
    assert(world.furniture@[i as int] == w0.furniture@[i as int]);
    spend(world, events, actor, id);
}

// ---------------------------------------------------------------------
// Phases.
// ---------------------------------------------------------------------
/// The phases before movement, in the order they land.
#[derive(Clone, Copy, Debug, PartialEq, Eq, Structural)]
pub enum Phase {
    /// Waiting, crouching, turning, drawing, throwing.
    Instant,
    /// Doors and machines.
    Doors,
    /// Garrottes, shots, blows and arrests.
    Attacks,
    /// Theft, disguises and bodies.
    Bodies,
}

/// Phase two: doors and machines.
pub open spec fn after_door(w: World, s: Scene, d: &GameData, cat: &Catalogue, p: PreparedAction) -> Scene {
    match p.intent {
        ActionIntent::OpenDoor(id) => after_open(w, s, d, cat, p.actor, id),
        ActionIntent::CloseDoor(id) => after_close(w, s, cat, p.actor, id),
        ActionIntent::Interact(id) => after_interact(w, s, d, cat, p.actor, id),
        ActionIntent::PickLock(id) => after_pick(w, s, cat, p.actor, id),
        _ => s,
    }
}

/// Phase three: attacks.
pub open spec fn after_attack(w: World, s: Scene, d: &GameData, cat: &Catalogue, p: PreparedAction) -> Scene {
    match p.intent {
        ActionIntent::Garrote(t) => after_garrote(w, s, cat, p.actor, t),
        ActionIntent::Shoot(t) => after_shoot(w, s, d, cat, p.actor, t),
        ActionIntent::MeleeAttack(t) => after_melee(w, s, d, cat, p.actor, t),
        ActionIntent::Arrest(t) => after_arrest(w, s, cat, p.actor, t),
        _ => s,
    }
}

/// Phase four: theft, disguises and bodies.
pub open spec fn after_body(w: World, s: Scene, d: &GameData, cat: &Catalogue, p: PreparedAction) -> Scene {
    match p.intent {
        ActionIntent::Pickpocket(t) => after_pickpocket(w, s, d, cat, p.actor, t),
        ActionIntent::TakeDisguise(src) => after_take_disguise(w, s, cat, p.actor, src),
        ActionIntent::CarryBody(t) => after_carry(w, s, cat, p.actor, t),
        ActionIntent::DropBody(dir) => after_drop(w, s, cat, p.actor, dir),
        ActionIntent::HideBody(id) => after_hide(w, s, cat, p.actor, id),
        _ => s,
    }
}

/// What prepared action `p` does in phase `ph`, starting from world `w`
/// with scene `s`.
pub open spec fn effect(ph: Phase, w: World, s: Scene, d: &GameData, cat: &Catalogue, p: PreparedAction) -> Scene {
    match ph {
        Phase::Instant => after_instant(w, s, d, cat, p),
        Phase::Doors => after_door(w, s, d, cat, p),
        Phase::Attacks => after_attack(w, s, d, cat, p),
        Phase::Bodies => after_body(w, s, d, cat, p),
    }
}

/// Whether the actor and every actor or door that `p` aims at exist in a
/// world of `actors` actors and `doors` doors.
pub open spec fn aimed(actors: nat, doors: nat, p: PreparedAction) -> bool {
    &&& p.actor.0 < actors
    &&& match p.intent {
        ActionIntent::Garrote(t) | ActionIntent::Shoot(t) | ActionIntent::Pickpocket(t)
        | ActionIntent::CarryBody(t) | ActionIntent::MeleeAttack(t) | ActionIntent::Arrest(t) => t.0 < actors,
        ActionIntent::TakeDisguise(DisguiseSource::Body(t)) => t.0 < actors,
        ActionIntent::OpenDoor(id) | ActionIntent::CloseDoor(id) | ActionIntent::PickLock(id) => id.0 < doors,
        _ => true,
    }
}

/// Whether `tr` traces phase `ph` over `acts`: each action, in order,
/// takes the world and narration from one entry to the next.
pub open spec fn ran(ph: Phase, tr: Seq<(World, TurnEvents)>, acts: Seq<PreparedAction>, d: &GameData, cat: &Catalogue) -> bool {
    &&& tr.len() == acts.len() + 1
    &&& forall|k: int|
        0 <= k < acts.len() ==> lands(
            tr[k].0,
            tr[k + 1].0,
            tr[k + 1].1,
            effect(ph, tr[k].0, scene(tr[k].0, tr[k].1), d, cat, #[trigger] acts[k]),
        )
}

#[verifier::spinoff_prover]
#[verifier::rlimit(40)]
fn resolve_in_phase(world: &mut World, events: &mut TurnEvents, data: &GameData, cat: &Catalogue, ph: Phase, p: PreparedAction)
    requires
        sound(*old(world)),
        aimed(old(world).actors@.len(), old(world).doors@.len(), p),
        old(world).items@.len() < u32::MAX,
        keys_known(data),
    ensures
        lands(*old(world), *final(world), *final(events), effect(ph, *old(world), scene(*old(world), *old(events)), data, cat, p)),
        sound(*final(world)),
        lasting(*old(world), *final(world)),
        sized(*old(world), *final(world)),
{
    let actor = p.actor;
    match ph {
        Phase::Instant => resolve_instant(world, events, data, cat, p),
        Phase::Doors => match p.intent {
            ActionIntent::OpenDoor(id) => resolve_open(world, events, data, cat, actor, id),
            ActionIntent::CloseDoor(id) => resolve_close(world, events, cat, actor, id),
            ActionIntent::Interact(id) => resolve_interact(world, events, data, cat, actor, id),
            ActionIntent::PickLock(id) => resolve_pick_lock(world, events, cat, actor, id),
            _ => {},
        },
        Phase::Attacks => match p.intent {
            ActionIntent::Garrote(t) => resolve_garrote(world, events, cat, actor, t),
            ActionIntent::Shoot(t) => resolve_shoot(world, events, data, cat, actor, t),
            ActionIntent::MeleeAttack(t) => resolve_melee(world, events, data, cat, actor, t),
            ActionIntent::Arrest(t) => resolve_arrest(world, events, cat, actor, t),
            _ => {},
        },
        Phase::Bodies => match p.intent {
            ActionIntent::Pickpocket(t) => resolve_pickpocket(world, events, data, cat, actor, t),
            ActionIntent::TakeDisguise(src) => resolve_take_disguise(world, events, cat, actor, src),
            ActionIntent::CarryBody(t) => resolve_carry(world, events, cat, actor, t),
            ActionIntent::DropBody(dir) => resolve_drop(world, events, cat, actor, dir),
            ActionIntent::HideBody(id) => resolve_hide(world, events, cat, actor, id),
            _ => {},
        },
    }
}

/// Runs phase `ph` for every action in `acts`, in order.
#[verifier::rlimit(40)]
fn run_phase(world: &mut World, events: &mut TurnEvents, data: &GameData, cat: &Catalogue, ph: Phase, acts: &Vec<PreparedAction>)
    requires
        sound(*old(world)),
        forall|k: int| 0 <= k < acts@.len() ==> aimed(old(world).actors@.len(), old(world).doors@.len(), #[trigger] acts@[k]),
        old(world).items@.len() + acts@.len() <= u32::MAX,
        keys_known(data),
    ensures
        exists|tr: Seq<(World, TurnEvents)>|
            ran(ph, tr, acts@, data, cat) && tr[0] == (*old(world), *old(events)) && tr.last() == (
            *final(world),
            *final(events),
        ),
        sound(*final(world)),
        lasting(*old(world), *final(world)),
        final(world).actors@.len() == old(world).actors@.len(),
        final(world).doors@.len() == old(world).doors@.len(),
        final(world).items@.len() <= old(world).items@.len() + acts@.len(),
{
    let ghost mut tr: Seq<(World, TurnEvents)> = seq![(*world, *events)];
    let mut k: usize = 0;
    while k < acts.len()
        invariant
            0 <= k <= acts@.len(),
            sound(*world),
            lasting(*old(world), *world),
            world.actors@.len() == old(world).actors@.len(),
            world.doors@.len() == old(world).doors@.len(),
            world.items@.len() <= old(world).items@.len() + k,
            old(world).items@.len() + acts@.len() <= u32::MAX,
            keys_known(data),
            forall|j: int| 0 <= j < acts@.len() ==> aimed(old(world).actors@.len(), old(world).doors@.len(), #[trigger] acts@[j]),
            tr.len() == k + 1,
            tr[0] == (*old(world), *old(events)),
            tr[k as int] == (*world, *events),
            forall|j: int|
                0 <= j < k ==> lands(
                    tr[j].0,
                    tr[j + 1].0,
                    tr[j + 1].1,
                    effect(ph, tr[j].0, scene(tr[j].0, tr[j].1), data, cat, #[trigger] acts@[j]),
                ),
        decreases acts@.len() - k,
    {
        let p = acts[k];
        assert(aimed(old(world).actors@.len(), old(world).doors@.len(), acts@[k as int]));
        resolve_in_phase(world, events, data, cat, ph, p);
        proof {
            tr = tr.push((*world, *events));
        }
        k = k + 1;
    }
    assert(ran(ph, tr, acts@, data, cat) && tr[0] == (*old(world), *old(events)) && tr.last() == (*world, *events));
}

// ---------------------------------------------------------------------
// Movement: gathering the steps.
// ---------------------------------------------------------------------
/// A step that survived to the contest for its destination.
#[derive(Clone, Copy, Debug, PartialEq, Eq, Structural)]
pub struct Move {
    pub actor: ActorId,
    pub dir: Dir4,
    pub dest: Pos,
}

/// Whether every move names an actor of a cast of `actors` and lands on
/// the map.
pub open spec fn moves_fit(w: World, moves: Seq<Move>) -> bool {
    forall|k: int|
        0 <= k < moves.len() ==> (#[trigger] moves[k]).actor.0 < w.actors@.len() && w.map.spec_in_bounds(
            moves[k].dest,
        )
}

/// What a prepared step does before the contest: a step into a closed
/// door opens it instead (with the key if locked) and completes as a door
/// action; a step into a wall or furniture fails; any other step joins
/// the contest for where it lands.
pub open spec fn gathered(w: World, s: Scene, d: &GameData, cat: &Catalogue, moves: Seq<Move>, p: PreparedAction) -> (Scene, Seq<Move>) {
    match p.intent {
        ActionIntent::Step(dir) => {
            let me = s.actors[p.actor.0 as int];
            if !me.spec_alive() {
                (s, moves)
            } else {
                let ahead = me.pos.spec_step(dir);
                let open_ground = match w.map.spec_tile(ahead) {
                    TileKind::Floor | TileKind::Stairs(_) | TileKind::Door(_) => !w.furniture_on(ahead),
                    _ => false,
                };
                match w.map.spec_tile(ahead) {
                    TileKind::Door(id) if !s.doors[id.0 as int].open => if spec_can_pass_door(&w, d, p.actor, id) {
                        let opened = Scene {
                            doors: s.doors.update(id.0 as int, crate::map::DoorState { open: true, ..s.doors[id.0 as int] }),
                            actors: s.actors.update(p.actor.0 as int, Actor { facing: Some(dir), ..me }),
                            ..s
                        };
                        (done(w, opened, p.actor), moves)
                    } else {
                        (flop(w, s, cat, p.actor, "fail.door_locked"@), moves)
                    },
                    _ => if open_ground {
                        (s, moves.push(Move { actor: p.actor, dir, dest: w.map.spec_step_destination(ahead) }))
                    } else {
                        (flop(w, s, cat, p.actor, "fail.blocked_furniture"@), moves)
                    },
                }
            }
        },
        _ => (s, moves),
    }
}

/// Whether `tr` and `ms` trace the gathering of steps over `acts`.
pub open spec fn gathering(
    tr: Seq<(World, TurnEvents)>,
    ms: Seq<Seq<Move>>,
    acts: Seq<PreparedAction>,
    d: &GameData,
    cat: &Catalogue,
) -> bool {
    &&& tr.len() == acts.len() + 1
    &&& ms.len() == acts.len() + 1
    &&& ms[0] == Seq::<Move>::empty()
    &&& forall|k: int|
        0 <= k < acts.len() ==> {
            let g = gathered(tr[k].0, scene(tr[k].0, tr[k].1), d, cat, ms[k], #[trigger] acts[k]);
            lands(tr[k].0, tr[k + 1].0, tr[k + 1].1, g.0) && ms[k + 1] == g.1
        }
}

#[verifier::spinoff_prover]
#[verifier::rlimit(60)]
fn gather_step(
    world: &mut World,
    events: &mut TurnEvents,
    data: &GameData,
    cat: &Catalogue,
    moves: &mut Vec<Move>,
    p: PreparedAction,
)
    requires
        sound(*old(world)),
        p.actor.0 < old(world).actors@.len(),
        moves_fit(*old(world), old(moves)@),
    ensures
        lands(*old(world), *final(world), *final(events), gathered(*old(world), scene(*old(world), *old(events)), data, cat, old(moves)@, p).0),
        final(moves)@ == gathered(*old(world), scene(*old(world), *old(events)), data, cat, old(moves)@, p).1,
        sound(*final(world)),
        lasting(*old(world), *final(world)),
        sized(*old(world), *final(world)),
        moves_fit(*final(world), final(moves)@),
{
    let ghost w0 = *world;
    let dir = match p.intent {
        ActionIntent::Step(dir) => dir,
        _ => {
            return;
        },
    };
    let actor = p.actor;
    let a = actor.0 as usize;
    if !world.actors[a].alive() {
        return;
    }
    let here = world.actors[a].pos;
    proof {
        lemma_steps(*world, here);
    }
    let ahead = here.step(dir);
    let tile = world.map.tile(ahead);
    match tile {
        TileKind::Door(id) => {
            if !world.doors[id.0 as usize].open {
                if can_pass_door(world, data, actor, id) {
                    world.doors[id.0 as usize].open = true;
                    world.actors[a].facing = Some(dir);
                    proof {
                        lemma_sound(w0, *world);
                    }
                    complete(world, events, actor);
                } else {
                    fail(world, events, cat, actor, "fail.door_locked");
                }
                return;
            }
        },
        _ => {},
    }
    let terrain_open = match tile {
        TileKind::Floor | TileKind::Stairs(_) | TileKind::Door(_) => world.furniture_at(ahead).is_none(),
        _ => false,
    };
    if !terrain_open {
        fail(world, events, cat, actor, "fail.blocked_furniture");
        return;
    }
    let dest = world.map.resolve_step_destination(ahead);
    proof {
        crate::map::lemma_tile_on_map(world.map, ahead);
        if dest != ahead {
            crate::map::lemma_tile_on_map(world.map, dest);
        }
    }
    moves.push(Move { actor, dir, dest });
}

/// Gathers the steps of `acts`, in order.
#[verifier::rlimit(40)]
fn gather(world: &mut World, events: &mut TurnEvents, data: &GameData, cat: &Catalogue, acts: &Vec<PreparedAction>) -> (moves: Vec<Move>)
    requires
        sound(*old(world)),
        forall|k: int| 0 <= k < acts@.len() ==> (#[trigger] acts@[k]).actor.0 < old(world).actors@.len(),
    ensures
        exists|tr: Seq<(World, TurnEvents)>, ms: Seq<Seq<Move>>|
            #![trigger gathering(tr, ms, acts@, data, cat)]
            gathering(tr, ms, acts@, data, cat) && tr[0] == (*old(world), *old(events)) && tr.last() == (
            *final(world),
            *final(events),
        ) && ms.last() == moves@,
        sound(*final(world)),
        lasting(*old(world), *final(world)),
        sized(*old(world), *final(world)),
        moves_fit(*final(world), moves@),
{
    let mut moves: Vec<Move> = Vec::new();
    let ghost mut tr: Seq<(World, TurnEvents)> = seq![(*world, *events)];
    let ghost mut ms: Seq<Seq<Move>> = seq![moves@];
    let mut k: usize = 0;
    while k < acts.len()
        invariant
            0 <= k <= acts@.len(),
            sound(*world),
            lasting(*old(world), *world),
            sized(*old(world), *world),
            world.items@.len() == old(world).items@.len(),
            moves_fit(*world, moves@),
            forall|j: int| 0 <= j < acts@.len() ==> (#[trigger] acts@[j]).actor.0 < old(world).actors@.len(),
            tr.len() == k + 1,
            ms.len() == k + 1,
            ms[0] == Seq::<Move>::empty(),
            tr[0] == (*old(world), *old(events)),
            tr[k as int] == (*world, *events),
            ms[k as int] == moves@,
            forall|j: int|
                0 <= j < k ==> {
                    let g = gathered(tr[j].0, scene(tr[j].0, tr[j].1), data, cat, ms[j], #[trigger] acts@[j]);
                    lands(tr[j].0, tr[j + 1].0, tr[j + 1].1, g.0) && ms[j + 1] == g.1
                },
        decreases acts@.len() - k,
    {
        let p = acts[k];
        assert(acts@[k as int].actor.0 < old(world).actors@.len());
        gather_step(world, events, data, cat, &mut moves, p);
        proof {
            tr = tr.push((*world, *events));
            ms = ms.push(moves@);
        }
        k = k + 1;
    }
    assert(gathering(tr, ms, acts@, data, cat) && tr[0] == (*old(world), *old(events)) && tr.last() == (*world, *events)
        && ms.last() == moves@);
    moves
}

// ---------------------------------------------------------------------
// Starting a turn.
// ---------------------------------------------------------------------
/// `p` one turn nearer to landing.
pub open spec fn ticked(p: PreparedAction) -> PreparedAction {
    PreparedAction { remaining: (p.remaining - 1) as u16, ..p }
}

/// The actions of `batch` that land this turn, in batch order.
pub open spec fn due(batch: Seq<PreparedAction>) -> Seq<PreparedAction>
    decreases batch.len(),
{
    if batch.len() == 0 {
        Seq::empty()
    } else {
        let rest = due(batch.drop_last());
        let p = ticked(batch.last());
        if p.remaining == 0 {
            rest.push(p)
        } else {
            rest
        }
    }
}

/// The actions of `batch` still under way after this turn, one turn
/// nearer to landing, in batch order.
pub open spec fn kept(batch: Seq<PreparedAction>) -> Seq<PreparedAction>
    decreases batch.len(),
{
    if batch.len() == 0 {
        Seq::empty()
    } else {
        let rest = kept(batch.drop_last());
        let p = ticked(batch.last());
        if p.remaining > 0 {
            rest.push(p)
        } else {
            rest
        }
    }
}

/// Whether the player has an action in `batch` that does not land this
/// turn.
pub open spec fn busy(player: ActorId, batch: Seq<PreparedAction>) -> bool {
    exists|k: int| 0 <= k < batch.len() && (#[trigger] batch[k]).remaining > 1 && batch[k].actor == player
}

/// Whether `(w, e)` is how a turn over `batch` opens on `w0`: this turn's
/// incidents not yet happened, an empty log, and the player's result
/// "in progress" exactly when an action of the player's is still under
/// way.
pub open spec fn opened(w0: World, batch: Seq<PreparedAction>, w: World, e: TurnEvents) -> bool {
    &&& scene(w, e) == Scene {
        incidents: Seq::empty(),
        lines: Seq::empty(),
        breach_line: None,
        said: if busy(w0.player, batch) {
            Some(Said::InProgress)
        } else {
            None
        },
        ..scene(w0, e)
    }
    &&& frame(w0, w)
}

fn count_down(world: &mut World, batch: &mut Vec<PreparedAction>) -> (r: (TurnEvents, Vec<PreparedAction>))
    requires
        sound(*old(world)),
        forall|k: int| 0 <= k < old(batch)@.len() ==> (#[trigger] old(batch)@[k]).remaining >= 1,
    ensures
        opened(*old(world), old(batch)@, *final(world), r.0),
        r.1@ == due(old(batch)@),
        final(batch)@ == kept(old(batch)@),
        *final(world) == (World { incidents: final(world).incidents, ..*old(world) }),
        sound(*final(world)),
        lasting(*old(world), *final(world)),
{
    let ghost b = batch@;
    let mut events = TurnEvents { messages: Vec::new(), breach: None, player_result: None };
    world.incidents.clear();
    let mut applying: Vec<PreparedAction> = Vec::new();
    let mut keep: Vec<PreparedAction> = Vec::new();
    let mut k: usize = 0;
    while k < batch.len()
        invariant
            0 <= k <= b.len(),
            batch@ == b,
            forall|j: int| 0 <= j < b.len() ==> (#[trigger] b[j]).remaining >= 1,
            applying@ == due(b.subrange(0, k as int)),
            keep@ == kept(b.subrange(0, k as int)),
            events.messages@.len() == 0,
            events.breach is None,
            match events.player_result {
                Some(r) => r == ActionResult::InProgress && busy(world.player, b.subrange(0, k as int)),
                None => !busy(world.player, b.subrange(0, k as int)),
            },
        decreases b.len() - k,
    {
        let ghost sub = b.subrange(0, k as int + 1);
        assert(sub.drop_last() == b.subrange(0, k as int));
        let mut p = batch[k];
        assert(p.remaining >= 1);
        p.remaining = p.remaining - 1;
        if p.remaining == 0 {
            applying.push(p);
        } else {
            if p.actor == world.player {
                events.player_result = Some(ActionResult::InProgress);
            }
            keep.push(p);
        }
        proof {
            assert(sub.last() == b[k as int]);
            assert(busy(world.player, sub) == (busy(world.player, b.subrange(0, k as int)) || (b[k as int].remaining > 1
                && b[k as int].actor == world.player))) by {
                if busy(world.player, sub) {
                    let j = choose|j: int| 0 <= j < sub.len() && (#[trigger] sub[j]).remaining > 1 && sub[j].actor
                        == world.player;
                    if j < k {
                        assert(b.subrange(0, k as int)[j] == sub[j]);
                    }
                }
                if busy(world.player, b.subrange(0, k as int)) {
                    let j = choose|j: int|
                        0 <= j < k && (#[trigger] b.subrange(0, k as int)[j]).remaining > 1 && b.subrange(0, k as int)[j].actor
                            == world.player;
                    assert(sub[j] == b.subrange(0, k as int)[j]);
                }
                if b[k as int].remaining > 1 && b[k as int].actor == world.player {
                    assert(sub[k as int] == b[k as int]);
                }
            }
        }
        k = k + 1;
    }
    assert(b.subrange(0, b.len() as int) == b);
    *batch = keep;
    let ghost w1 = *world;
    proof {
        assert(scene(w1, events) =~= Scene {
            incidents: Seq::empty(),
            lines: Seq::empty(),
            breach_line: None,
            said: if busy(w1.player, b) {
                Some(Said::InProgress)
            } else {
                None
            },
            ..scene(*old(world), events)
        });
    }
    (events, applying)
}

/// A turn under way: its narration so far, and the steps that contest
/// their destinations and wait for a tie-break order.
pub struct OpenTurn {
    pub events: TurnEvents,
    pub moves: Vec<Move>,
}

/// What a world needs for a turn over `batch` to be resolved: it is
/// sound; every action names an actor and aims at existing actors and
/// doors, and lands in at least one more turn; every key a machine places
/// is a known item; and the items can still be numbered after every action
/// of the turn has added one.
pub open spec fn resolvable(w: World, d: &GameData, batch: Seq<PreparedAction>) -> bool {
    &&& sound(w)
    &&& forall|k: int|
        0 <= k < batch.len() ==> (#[trigger] batch[k]).remaining >= 1 && aimed(w.actors@.len(), w.doors@.len(), batch[k])
    &&& keys_known(d)
    &&& w.items@.len() + 4 * batch.len() <= u32::MAX
}

/// Whether `(w1, r)` is how the turn over `b0` starting on `w0` stands
/// once every action but the contested steps has landed: the turn opened,
/// each phase ran over the landing actions in batch order, and the steps
/// were gathered.
pub open spec fn begun(w0: World, b0: Seq<PreparedAction>, d: &GameData, cat: &Catalogue, w1: World, r: OpenTurn) -> bool {
    let acts = due(b0);
    exists|
        t1: Seq<(World, TurnEvents)>,
        t2: Seq<(World, TurnEvents)>,
        t3: Seq<(World, TurnEvents)>,
        t4: Seq<(World, TurnEvents)>,
        tg: Seq<(World, TurnEvents)>,
        ms: Seq<Seq<Move>>,
    |
        #![trigger ran(Phase::Instant, t1, acts, d, cat), ran(Phase::Doors, t2, acts, d, cat), ran(Phase::Attacks, t3, acts, d, cat), ran(Phase::Bodies, t4, acts, d, cat), gathering(tg, ms, acts, d, cat)]
        {
            &&& opened(w0, b0, t1[0].0, t1[0].1)
            &&& ran(Phase::Instant, t1, acts, d, cat)
            &&& t2[0] == t1.last()
            &&& ran(Phase::Doors, t2, acts, d, cat)
            &&& t3[0] == t2.last()
            &&& ran(Phase::Attacks, t3, acts, d, cat)
            &&& t4[0] == t3.last()
            &&& ran(Phase::Bodies, t4, acts, d, cat)
            &&& tg[0] == t4.last()
            &&& gathering(tg, ms, acts, d, cat)
            &&& tg.last() == (w1, r.events)
            &&& r.moves@ == ms.last()
        }
}

/// Every landing action, in the batch order, `k` at a time.
proof fn lemma_due_from(b: Seq<PreparedAction>, actors: nat, doors: nat)
    requires
        forall|k: int| 0 <= k < b.len() ==> aimed(actors, doors, #[trigger] b[k]),
    ensures
        forall|k: int| 0 <= k < due(b).len() ==> aimed(actors, doors, #[trigger] due(b)[k]),
        due(b).len() <= b.len(),
    decreases b.len(),
{
    if b.len() > 0 {
        lemma_due_from(b.drop_last(), actors, doors);
        assert(aimed(actors, doors, b[b.len() - 1]));
    }
}

/// Starts a turn over `batch`: actions still under way tick down and stay
/// in the batch; those that land apply phase by phase (instant changes,
/// doors and machines, attacks, theft and bodies); steps that survive go
/// to the contest for their destinations, which [`resolve_turn`] settles.
#[verifier::rlimit(40)]
#[verifier::spinoff_prover]
pub fn start_turn(world: &mut World, data: &GameData, cat: &Catalogue, batch: &mut Vec<PreparedAction>) -> (r: OpenTurn)
    requires
        resolvable(*old(world), data, old(batch)@),
    ensures
        begun(*old(world), old(batch)@, data, cat, *final(world), r),
        final(batch)@ == kept(old(batch)@),
        sound(*final(world)),
        lasting(*old(world), *final(world)),
        moves_fit(*final(world), r.moves@),
        final(world).actors@.len() == old(world).actors@.len(),
        final(world).doors@.len() == old(world).doors@.len(),
{
    let ghost w0 = *world;
    let ghost b0 = batch@;
    let (mut events, applying) = count_down(world, batch);
    proof {
        lemma_due_from(b0, w0.actors@.len(), w0.doors@.len());
    }
    let ghost s1 = (*world, events);
    run_phase(world, &mut events, data, cat, Phase::Instant, &applying);
    let ghost t1 = choose|tr: Seq<(World, TurnEvents)>|
        ran(Phase::Instant, tr, applying@, data, cat) && tr[0] == s1 && tr.last() == (*world, events);
    let ghost s2 = (*world, events);
    run_phase(world, &mut events, data, cat, Phase::Doors, &applying);
    let ghost t2 = choose|tr: Seq<(World, TurnEvents)>|
        ran(Phase::Doors, tr, applying@, data, cat) && tr[0] == s2 && tr.last() == (*world, events);
    let ghost s3 = (*world, events);
    run_phase(world, &mut events, data, cat, Phase::Attacks, &applying);
    let ghost t3 = choose|tr: Seq<(World, TurnEvents)>|
        ran(Phase::Attacks, tr, applying@, data, cat) && tr[0] == s3 && tr.last() == (*world, events);
    let ghost s4 = (*world, events);
    run_phase(world, &mut events, data, cat, Phase::Bodies, &applying);
    let ghost t4 = choose|tr: Seq<(World, TurnEvents)>|
        ran(Phase::Bodies, tr, applying@, data, cat) && tr[0] == s4 && tr.last() == (*world, events);
    let ghost s5 = (*world, events);
    let moves = gather(world, &mut events, data, cat, &applying);
    let ghost (tg, ms) = choose|tr: Seq<(World, TurnEvents)>, ms: Seq<Seq<Move>>|
        gathering(tr, ms, applying@, data, cat) && tr[0] == s5 && tr.last() == (*world, events) && ms.last() == moves@;
    let r = OpenTurn { events, moves };
    assert(opened(w0, b0, t1[0].0, t1[0].1));
    r
}

// ---------------------------------------------------------------------
// Movement: the contest.
// ---------------------------------------------------------------------
/// Whether the move at position `k` of `order` is the first to claim its
/// destination.
pub open spec fn wins(moves: Seq<Move>, order: Seq<usize>, k: int) -> bool {
    forall|q: int| 0 <= q < k ==> moves[(#[trigger] order[q]) as int].dest != moves[order[k] as int].dest
}

/// The narration after the first `k` claims in `order`: a claim on a
/// destination already claimed fails.
pub open spec fn claims(w: World, s: Scene, cat: &Catalogue, moves: Seq<Move>, order: Seq<usize>, k: int) -> Scene
    decreases k,
{
    if k <= 0 {
        s
    } else {
        let s1 = claims(w, s, cat, moves, order, k - 1);
        if wins(moves, order, k - 1) {
            s1
        } else {
            flop(w, s1, cat, moves[order[k - 1] as int].actor, "fail.someone_first"@)
        }
    }
}

/// Whether move `i` won the contest for its destination.
pub open spec fn won(moves: Seq<Move>, order: Seq<usize>, i: int) -> bool {
    exists|q: int| 0 <= q < order.len() && order[q] == i && #[trigger] wins(moves, order, q)
}

/// The winning moves among the first `n`, in move order.
pub open spec fn winners(moves: Seq<Move>, order: Seq<usize>, n: int) -> Seq<usize>
    decreases n,
{
    if n <= 0 {
        Seq::empty()
    } else {
        let r = winners(moves, order, n - 1);
        if won(moves, order, n - 1) {
            r.push((n - 1) as usize)
        } else {
            r
        }
    }
}

fn has_pos(list: &Vec<Pos>, p: Pos) -> (r: bool)
    ensures
        r == list@.contains(p),
{
    let mut i: usize = 0;
    while i < list.len()
        invariant
            0 <= i <= list@.len(),
            forall|j: int| 0 <= j < i ==> list@[j] != p,
        decreases list@.len() - i,
    {
        if list[i] == p {
            assert(list@[i as int] == p);
            return true;
        }
        i = i + 1;
    }
    false
}

fn has_index(list: &Vec<usize>, x: usize) -> (r: bool)
    ensures
        r == list@.contains(x),
{
    let mut i: usize = 0;
    while i < list.len()
        invariant
            0 <= i <= list@.len(),
            forall|j: int| 0 <= j < i ==> list@[j] != x,
        decreases list@.len() - i,
    {
        if list[i] == x {
            assert(list@[i as int] == x);
            return true;
        }
        i = i + 1;
    }
    false
}

/// Settles who claims which destination, in `order`; returns, for each
/// move, whether it won.
#[verifier::rlimit(40)]
fn claim(world: &World, events: &mut TurnEvents, cat: &Catalogue, moves: &Vec<Move>, order: &Vec<usize>, Ghost(w0): Ghost<World>) -> (marks: Vec<bool>)
    requires
        world.player == w0.player,
        forall|q: int| 0 <= q < order@.len() ==> (#[trigger] order@[q]) < moves@.len(),
    ensures
        scene(*world, *final(events)) == claims(w0, scene(*world, *old(events)), cat, moves@, order@, order@.len() as int),
        marks@.len() == moves@.len(),
        forall|i: int| 0 <= i < moves@.len() ==> #[trigger] marks@[i] == won(moves@, order@, i),
{
    let ghost s0 = scene(*world, *events);
    let mut marks: Vec<bool> = Vec::new();
    let mut i: usize = 0;
    while i < moves.len()
        invariant
            0 <= i <= moves@.len(),
            marks@.len() == i,
            forall|j: int| 0 <= j < i ==> !#[trigger] marks@[j],
        decreases moves@.len() - i,
    {
        marks.push(false);
        i = i + 1;
    }
    let mut claimed: Vec<Pos> = Vec::new();
    let mut k: usize = 0;
    while k < order.len()
        invariant
            0 <= k <= order@.len(),
            forall|q: int| 0 <= q < order@.len() ==> (#[trigger] order@[q]) < moves@.len(),
            marks@.len() == moves@.len(),
            world.player == w0.player,
            scene(*world, *events) == claims(w0, s0, cat, moves@, order@, k as int),
            forall|x: Pos| claimed@.contains(x) <==> exists|q: int| 0 <= q < k && moves@[(#[trigger] order@[q]) as int].dest == x,
            forall|j: int|
                0 <= j < moves@.len() ==> (#[trigger] marks@[j] <==> exists|q: int|
                    0 <= q < k && order@[q] == j && #[trigger] wins(moves@, order@, q)),
        decreases order@.len() - k,
    {
        let idx = order[k];
        let dest = moves[idx].dest;
        let taken = has_pos(&claimed, dest);
        proof {
            if taken {
                let q = choose|q: int| 0 <= q < k && moves@[(#[trigger] order@[q]) as int].dest == dest;
                assert(!wins(moves@, order@, k as int));
            } else {
                assert forall|q: int| 0 <= q < k implies moves@[(#[trigger] order@[q]) as int].dest != moves@[order@[k as int] as int].dest by {
                    if moves@[order@[q] as int].dest == dest {
                        assert(claimed@.contains(dest));
                    }
                }
                assert(wins(moves@, order@, k as int));
            }
        }
        let ghost before = claimed@;
        if taken {
            fail(world, events, cat, moves[idx].actor, "fail.someone_first");
        } else {
            claimed.push(dest);
            marks.set(idx, true);
        }
        proof {
            assert(moves@[order@[k as int] as int].dest == dest);
            assert forall|x: Pos| claimed@.contains(x) <==> exists|q: int|
                0 <= q < k + 1 && moves@[(#[trigger] order@[q]) as int].dest == x by {
                if !taken {
                    assert(claimed@ == before.push(dest));
                    if claimed@.contains(x) {
                        let j = choose|j: int| 0 <= j < claimed@.len() && claimed@[j] == x;
                        if j < before.len() {
                            assert(before.contains(x));
                        }
                    }
                    if before.contains(x) {
                        let j = choose|j: int| 0 <= j < before.len() && before[j] == x;
                        assert(claimed@[j] == x);
                    }
                    assert(claimed@[before.len() as int] == dest);
                }
                if exists|q: int| 0 <= q < k + 1 && moves@[(#[trigger] order@[q]) as int].dest == x {
                    let q = choose|q: int| 0 <= q < k + 1 && moves@[(#[trigger] order@[q]) as int].dest == x;
                    if q < k {
                        assert(before.contains(x));
                    }
                }
            }
            assert forall|j: int| 0 <= j < moves@.len() implies (#[trigger] marks@[j] <==> exists|q: int|
                0 <= q < k + 1 && order@[q] == j && #[trigger] wins(moves@, order@, q)) by {
                if j == idx && !taken {
                    assert(order@[k as int] == j && wins(moves@, order@, k as int));
                }
            }
        }
        k = k + 1;
    }
    proof {
        assert forall|i: int| 0 <= i < moves@.len() implies #[trigger] marks@[i] == won(moves@, order@, i) by {
            if marks@[i] {
                let q = choose|q: int| 0 <= q < order@.len() && order@[q] == i && #[trigger] wins(moves@, order@, q);
                assert(won(moves@, order@, i));
            }
        }
    }
    marks
}

/// The winners among `marks`, in move order.
fn winners_of(marks: &Vec<bool>, Ghost(moves): Ghost<Seq<Move>>, Ghost(order): Ghost<Seq<usize>>) -> (r: Vec<usize>)
    requires
        marks@.len() == moves.len(),
        forall|i: int| 0 <= i < moves.len() ==> #[trigger] marks@[i] == won(moves, order, i),
    ensures
        r@ == winners(moves, order, moves.len() as int),
        forall|q: int| 0 <= q < r@.len() ==> (#[trigger] r@[q]) < moves.len(),
{
    let mut r: Vec<usize> = Vec::new();
    let mut i: usize = 0;
    while i < marks.len()
        invariant
            0 <= i <= marks@.len(),
            marks@.len() == moves.len(),
            forall|j: int| 0 <= j < moves.len() ==> #[trigger] marks@[j] == won(moves, order, j),
            r@ == winners(moves, order, i as int),
            forall|q: int| 0 <= q < r@.len() ==> (#[trigger] r@[q]) < i,
        decreases marks@.len() - i,
    {
        if marks[i] {
            r.push(i);
        }
        i = i + 1;
    }
    r
}

// ---------------------------------------------------------------------
// Movement: settling.
// ---------------------------------------------------------------------
/// A move applied: the mover lands, turning the way it stepped if it
/// faces anywhere, and a body it carries comes along.
pub open spec fn shift(w: World, s: Scene, m: Move) -> Scene {
    done(w, Scene { actors: shifted(s.actors, m), ..s }, m.actor)
}

/// The cast after move `m` lands.
pub open spec fn shifted(actors: Seq<Actor>, m: Move) -> Seq<Actor> {
    let a = actors[m.actor.0 as int];
    let facing = match a.facing {
        Some(_) => Some(m.dir),
        None => None,
    };
    let moved = actors.update(m.actor.0 as int, Actor { pos: m.dest, facing, ..a });
    match a.hands {
        Hands::CarryingBody(b) => moved.update(b.0 as int, Actor { pos: m.dest, ..moved[b.0 as int] }),
        _ => moved,
    }
}

/// Whether `occ` is the mover of another pending move than `idx`.
pub open spec fn moving_among(moves: Seq<Move>, pending: Seq<usize>, idx: usize, occ: ActorId) -> bool {
    exists|q: int| 0 <= q < pending.len() && pending[q] != idx && moves[(#[trigger] pending[q]) as int].actor == occ
}

/// One pass over the first `k` pending moves: a move onto a free tile
/// lands; a move onto a bystander who is not moving this turn swaps the
/// two; any other move waits. Returns the scene, the waiting moves and
/// whether anything landed.
pub open spec fn pass(w: World, s: Scene, moves: Seq<Move>, pending: Seq<usize>, k: int) -> (Scene, Seq<usize>, bool)
    decreases k,
{
    if k <= 0 {
        (s, Seq::empty(), false)
    } else {
        let (s1, still, progressed) = pass(w, s, moves, pending, k - 1);
        let idx = pending[k - 1];
        let m = moves[idx as int];
        match standing_among(s1.actors, m.dest) {
            Some(o) => {
                let occ = s1.actors[o].id;
                if !moving_among(moves, pending, idx, occ) && spec_displaceable(s1.actors[occ.0 as int]) {
                    let origin = s1.actors[m.actor.0 as int].pos;
                    let s2 = shift(w, s1, m);
                    (
                        Scene { actors: s2.actors.update(occ.0 as int, Actor { pos: origin, ..s2.actors[occ.0 as int] }), ..s2 },
                        still,
                        true,
                    )
                } else {
                    (s1, still.push(idx), progressed)
                }
            },
            None => (shift(w, s1, m), still, true),
        }
    }
}

/// Whether moves `i` and `j` would swap the two movers' tiles.
pub open spec fn swappable(actors: Seq<Actor>, moves: Seq<Move>, i: usize, j: usize) -> bool {
    &&& moves[i as int].dest == actors[moves[j as int].actor.0 as int].pos
    &&& moves[j as int].dest == actors[moves[i as int].actor.0 as int].pos
}

/// The first position from `t` on in `still` whose move, not yet
/// consumed, swaps with the move at position `slot`.
pub open spec fn partner(actors: Seq<Actor>, moves: Seq<Move>, still: Seq<usize>, consumed: Seq<usize>, slot: int, t: int) -> Option<int>
    decreases still.len() - t,
{
    if t >= still.len() || t < 0 {
        None
    } else if !consumed.contains(still[t]) && swappable(actors, moves, still[slot], still[t]) {
        Some(t)
    } else {
        partner(actors, moves, still, consumed, slot, t + 1)
    }
}

/// The mutual swaps among the first `k` waiting moves: each move not yet
/// consumed swaps with its first partner after it, both landing at once.
/// Returns the scene, the consumed moves and whether any swap happened.
pub open spec fn swaps(w: World, s: Scene, moves: Seq<Move>, still: Seq<usize>, k: int) -> (Scene, Seq<usize>, bool)
    decreases k,
{
    if k <= 0 {
        (s, Seq::empty(), false)
    } else {
        let (s1, consumed, progressed) = swaps(w, s, moves, still, k - 1);
        let i = still[k - 1];
        if consumed.contains(i) {
            (s1, consumed, progressed)
        } else {
            match partner(s1.actors, moves, still, consumed, k - 1, k) {
                Some(t) => {
                    let j = still[t];
                    (shift(w, shift(w, s1, moves[i as int]), moves[j as int]), consumed.push(i).push(j), true)
                },
                None => (s1, consumed, progressed),
            }
        }
    }
}

/// The first `k` waiting moves that were not consumed, in order.
pub open spec fn unconsumed(still: Seq<usize>, consumed: Seq<usize>, k: int) -> Seq<usize>
    decreases k,
{
    if k <= 0 {
        Seq::empty()
    } else {
        let r = unconsumed(still, consumed, k - 1);
        if consumed.contains(still[k - 1]) {
            r
        } else {
            r.push(still[k - 1])
        }
    }
}

/// Every one of the first `k` stuck moves fails, blocked by a person.
pub open spec fn blocked_all(w: World, s: Scene, cat: &Catalogue, moves: Seq<Move>, stuck: Seq<usize>, k: int) -> Scene
    decreases k,
{
    if k <= 0 {
        s
    } else {
        flop(w, blocked_all(w, s, cat, moves, stuck, k - 1), cat, moves[stuck[k - 1] as int].actor, "fail.blocked_person"@)
    }
}

/// The contest's winners settle: passes repeat while moves land, so that
/// chains resolve; when a pass lands nothing, mutual swaps apply; moves
/// that still cannot land fail.
pub open spec fn settle(w: World, s: Scene, cat: &Catalogue, moves: Seq<Move>, pending: Seq<usize>) -> Scene
    decreases pending.len(),
{
    let (s1, still, progressed) = pass(w, s, moves, pending, pending.len() as int);
    if still.len() == 0 {
        s1
    } else {
        let (s2, consumed, swapped) = if progressed {
            (s1, Seq::empty(), false)
        } else {
            swaps(w, s1, moves, still, still.len() as int)
        };
        let rest = unconsumed(still, consumed, still.len() as int);
        if !progressed && !swapped {
            blocked_all(w, s2, cat, moves, rest, rest.len() as int)
        } else if rest.len() < pending.len() {
            settle(w, s2, cat, moves, rest)
        } else {
            s2
        }
    }
}

proof fn lemma_pass_len(w: World, s: Scene, moves: Seq<Move>, pending: Seq<usize>, k: int)
    requires
        0 <= k <= pending.len(),
    ensures
        pass(w, s, moves, pending, k).1.len() <= k,
        pass(w, s, moves, pending, k).2 ==> pass(w, s, moves, pending, k).1.len() < k,
        forall|q: int|
            0 <= q < pass(w, s, moves, pending, k).1.len() ==> exists|r: int|
                0 <= r < k && pending[r] == #[trigger] pass(w, s, moves, pending, k).1[q],
    decreases k,
{
    if k > 0 {
        lemma_pass_len(w, s, moves, pending, k - 1);
        let prev = pass(w, s, moves, pending, k - 1).1;
        let now = pass(w, s, moves, pending, k).1;
        assert forall|q: int| 0 <= q < now.len() implies exists|r: int| 0 <= r < k && pending[r] == #[trigger] now[q] by {
            if q < prev.len() {
                assert(now[q] == prev[q]);
                let r = choose|r: int| 0 <= r < k - 1 && pending[r] == #[trigger] prev[q];
                assert(pending[r] == now[q]);
            } else {
                assert(now[q] == pending[k - 1]);
            }
        }
    }
}

proof fn lemma_swaps_consume(w: World, s: Scene, moves: Seq<Move>, still: Seq<usize>, k: int)
    requires
        0 <= k <= still.len(),
    ensures
        swaps(w, s, moves, still, k).2 ==> exists|t: int| 0 <= t < still.len() && swaps(w, s, moves, still, k).1.contains(#[trigger] still[t]),
    decreases k,
{
    if k > 0 {
        lemma_swaps_consume(w, s, moves, still, k - 1);
        let (s1, consumed, progressed) = swaps(w, s, moves, still, k - 1);
        let i = still[k - 1];
        if !consumed.contains(i) {
            match partner(s1.actors, moves, still, consumed, k - 1, k) {
                Some(t) => {
                    let c = consumed.push(i).push(still[t]);
                    assert(c[consumed.len() as int] == i);
                    assert(c.contains(still[k - 1]));
                },
                None => {},
            }
        }
        let c2 = swaps(w, s, moves, still, k).1;
        if progressed && swaps(w, s, moves, still, k).2 && !consumed.contains(i) {
            let t = choose|t: int| 0 <= t < still.len() && consumed.contains(#[trigger] still[t]);
            match partner(s1.actors, moves, still, consumed, k - 1, k) {
                Some(t2) => {
                    let j = choose|j: int| 0 <= j < consumed.len() && consumed[j] == still[t];
                    assert(c2[j] == still[t]);
                },
                None => {},
            }
        }
    }
}

proof fn lemma_unconsumed_len(still: Seq<usize>, consumed: Seq<usize>, k: int)
    requires
        0 <= k <= still.len(),
    ensures
        unconsumed(still, consumed, k).len() <= k,
        (exists|t: int| 0 <= t < k && consumed.contains(#[trigger] still[t])) ==> unconsumed(still, consumed, k).len() < k,
        consumed.len() == 0 ==> unconsumed(still, consumed, k) == still.subrange(0, k),
        forall|q: int|
            0 <= q < unconsumed(still, consumed, k).len() ==> exists|r: int|
                0 <= r < k && still[r] == #[trigger] unconsumed(still, consumed, k)[q],
    decreases k,
{
    if k > 0 {
        lemma_unconsumed_len(still, consumed, k - 1);
        let prev = unconsumed(still, consumed, k - 1);
        let now = unconsumed(still, consumed, k);
        if exists|t: int| 0 <= t < k && consumed.contains(#[trigger] still[t]) {
            let t = choose|t: int| 0 <= t < k && consumed.contains(#[trigger] still[t]);
            if t < k - 1 {
            }
        }
        if consumed.len() == 0 {
            assert(!consumed.contains(still[k - 1]));
            assert(still.subrange(0, k) == still.subrange(0, k - 1).push(still[k - 1]));
        }
        assert forall|q: int| 0 <= q < now.len() implies exists|r: int| 0 <= r < k && still[r] == #[trigger] now[q] by {
            if q < prev.len() {
                assert(now[q] == prev[q]);
                let r = choose|r: int| 0 <= r < k - 1 && still[r] == #[trigger] prev[q];
                assert(still[r] == now[q]);
            } else {
                assert(now[q] == still[k - 1]);
            }
        }
    }
}

fn step_actor(world: &mut World, m: Move)
    requires
        m.actor.0 < old(world).actors@.len(),
        match old(world).actors@[m.actor.0 as int].hands {
            Hands::CarryingBody(b) => b.0 < old(world).actors@.len(),
            _ => true,
        },
    ensures
        final(world).actors@ == shifted(old(world).actors@, m),
        *final(world) == (World { actors: final(world).actors, ..*old(world) }),
{
    let ghost before = world.actors@;
    let a = m.actor.0 as usize;
    world.actors[a].pos = m.dest;
    if world.actors[a].facing.is_some() {
        world.actors[a].facing = Some(m.dir);
    }
    match world.actors[a].hands {
        Hands::CarryingBody(b) => {
            world.actors[b.0 as usize].pos = m.dest;
        },
        _ => {},
    }
    assert(world.actors@ =~= shifted(before, m));
}

proof fn lemma_shifted_sound(a: World, b: World, m: Move)
    requires
        sound(a),
        m.actor.0 < a.actors@.len(),
        a.map.spec_in_bounds(m.dest),
        b == (World { actors: b.actors, ..a }),
        b.actors@ == shifted(a.actors@, m),
    ensures
        sound(b),
{
    assert forall|i: int| 0 <= i < b.actors@.len() implies (#[trigger] b.actors@[i]).id == a.actors@[i].id
        && b.map.spec_in_bounds(b.actors@[i].pos) && match b.actors@[i].hands {
        Hands::CarryingBody(x) => x.0 < b.actors@.len(),
        _ => true,
    } by {
        assert(a.map.spec_in_bounds(a.actors@[i].pos));
        assert(match a.actors@[i].hands {
            Hands::CarryingBody(x) => x.0 < a.actors@.len(),
            _ => true,
        });
    }
    lemma_sound(a, b);
}

fn apply_move(world: &mut World, events: &mut TurnEvents, m: Move, Ghost(w0): Ghost<World>)
    requires
        sound(*old(world)),
        old(world).player == w0.player,
        m.actor.0 < old(world).actors@.len(),
        old(world).map.spec_in_bounds(m.dest),
    ensures
        lands(*old(world), *final(world), *final(events), shift(w0, scene(*old(world), *old(events)), m)),
        sound(*final(world)),
        lasting(*old(world), *final(world)),
        final(world).turn == old(world).turn,
        final(world).actors@.len() == old(world).actors@.len(),
{
    let ghost before = *world;
    assert(match world.actors@[m.actor.0 as int].hands {
        Hands::CarryingBody(b) => b.0 < world.actors@.len(),
        _ => true,
    });
    step_actor(world, m);
    proof {
        lemma_shifted_sound(before, *world, m);
    }
    complete(world, events, m.actor);
}

/// Whether `occ` moves in another pending move than `idx`.
fn occupant_moving(moves: &Vec<Move>, pending: &Vec<usize>, idx: usize, occ: ActorId) -> (r: bool)
    requires
        forall|q: int| 0 <= q < pending@.len() ==> (#[trigger] pending@[q]) < moves@.len(),
    ensures
        r == moving_among(moves@, pending@, idx, occ),
{
    let mut q: usize = 0;
    while q < pending.len()
        invariant
            0 <= q <= pending@.len(),
            forall|r: int| 0 <= r < pending@.len() ==> (#[trigger] pending@[r]) < moves@.len(),
            forall|r: int| 0 <= r < q ==> !(pending@[r] != idx && moves@[(#[trigger] pending@[r]) as int].actor == occ),
        decreases pending@.len() - q,
    {
        let other = pending[q];
        if other != idx && moves[other].actor == occ {
            return true;
        }
        q = q + 1;
    }
    false
}

/// One pass over the pending moves.
#[verifier::rlimit(60)]
fn pass_once(world: &mut World, events: &mut TurnEvents, moves: &Vec<Move>, pending: &Vec<usize>, Ghost(w0): Ghost<World>) -> (r: (Vec<usize>, bool))
    requires
        sound(*old(world)),
        old(world).player == w0.player,
        moves_fit(*old(world), moves@),
        forall|q: int| 0 <= q < pending@.len() ==> (#[trigger] pending@[q]) < moves@.len(),
    ensures
        ({
            let p = pass(w0, scene(*old(world), *old(events)), moves@, pending@, pending@.len() as int);
            lands(*old(world), *final(world), *final(events), p.0) && r.0@ == p.1 && r.1 == p.2
        }),
        sound(*final(world)),
        lasting(*old(world), *final(world)),
        final(world).turn == old(world).turn,
        final(world).actors@.len() == old(world).actors@.len(),
{
    let ghost s0 = scene(*world, *events);
    let mut still: Vec<usize> = Vec::new();
    let mut progressed = false;
    let mut k: usize = 0;
    while k < pending.len()
        invariant
            0 <= k <= pending@.len(),
            sound(*world),
            lasting(*old(world), *world),
            frame(*old(world), *world),
            world.player == w0.player,
            world.actors@.len() == old(world).actors@.len(),
            moves_fit(*world, moves@),
            forall|q: int| 0 <= q < pending@.len() ==> (#[trigger] pending@[q]) < moves@.len(),
            world.turn == old(world).turn,
            (scene(*world, *events), still@, progressed) == pass(w0, s0, moves@, pending@, k as int),
        decreases pending@.len() - k,
    {
        let idx = pending[k];
        let m = moves[idx];
        assert(moves@[idx as int].actor.0 < world.actors@.len() && world.map.spec_in_bounds(moves@[idx as int].dest));
        let occupant = match world.standing_actor_at(m.dest) {
            Some(a) => Some(a.id),
            None => None,
        };
        match occupant {
            Some(occ) => {
                assert(occ.0 < world.actors@.len());
                let moving = occupant_moving(moves, pending, idx, occ);
                if !moving && world.is_displaceable(occ) {
                    let origin = world.actor(m.actor).pos;
                    apply_move(world, events, m, Ghost(w0));
                    let ghost before = *world;
                    world.actors[occ.0 as usize].pos = origin;
                    proof {
                        assert(before.map.spec_in_bounds(origin));
                        lemma_sound(before, *world);
                    }
                    progressed = true;
                } else {
                    still.push(idx);
                }
            },
            None => {
                apply_move(world, events, m, Ghost(w0));
                progressed = true;
            },
        }
        k = k + 1;
    }
    (still, progressed)
}

/// The first partner after position `slot` for the move there.
fn find_partner(world: &World, moves: &Vec<Move>, still: &Vec<usize>, consumed: &Vec<usize>, slot: usize) -> (r: Option<usize>)
    requires
        world.wf(),
        slot < still@.len(),
        moves_fit(*world, moves@),
        forall|q: int| 0 <= q < still@.len() ==> (#[trigger] still@[q]) < moves@.len(),
    ensures
        match r {
            Some(t) => partner(world.actors@, moves@, still@, consumed@, slot as int, slot as int + 1) == Some(t as int)
                && slot < t < still@.len(),
            None => partner(world.actors@, moves@, still@, consumed@, slot as int, slot as int + 1) is None,
        },
{
    let n = still.len();
    let i = still[slot];
    let mut t: usize = slot + 1;
    while t < n
        invariant
            n == still@.len(),
            slot < t <= still@.len(),
            i == still@[slot as int],
            moves_fit(*world, moves@),
            forall|q: int| 0 <= q < still@.len() ==> (#[trigger] still@[q]) < moves@.len(),
            partner(world.actors@, moves@, still@, consumed@, slot as int, slot as int + 1) == partner(
                world.actors@,
                moves@,
                still@,
                consumed@,
                slot as int,
                t as int,
            ),
        decreases still@.len() - t,
    {
        let j = still[t];
        assert(moves@[i as int].actor.0 < world.actors@.len() && moves@[j as int].actor.0 < world.actors@.len());
        if !has_index(consumed, j) && moves[i].dest == world.actor(moves[j].actor).pos && moves[j].dest == world.actor(
            moves[i].actor,
        ).pos {
            return Some(t);
        }
        t = t + 1;
    }
    None
}

/// The mutual swaps among the waiting moves.
#[verifier::rlimit(60)]
fn swap_pass(world: &mut World, events: &mut TurnEvents, moves: &Vec<Move>, still: &Vec<usize>, Ghost(w0): Ghost<World>) -> (r: (Vec<usize>, bool))
    requires
        sound(*old(world)),
        old(world).player == w0.player,
        moves_fit(*old(world), moves@),
        forall|q: int| 0 <= q < still@.len() ==> (#[trigger] still@[q]) < moves@.len(),
    ensures
        ({
            let p = swaps(w0, scene(*old(world), *old(events)), moves@, still@, still@.len() as int);
            lands(*old(world), *final(world), *final(events), p.0) && r.0@ == p.1 && r.1 == p.2
        }),
        sound(*final(world)),
        lasting(*old(world), *final(world)),
        final(world).turn == old(world).turn,
        final(world).actors@.len() == old(world).actors@.len(),
{
    let ghost s0 = scene(*world, *events);
    let mut consumed: Vec<usize> = Vec::new();
    let mut progressed = false;
    let mut slot: usize = 0;
    while slot < still.len()
        invariant
            0 <= slot <= still@.len(),
            sound(*world),
            lasting(*old(world), *world),
            frame(*old(world), *world),
            world.player == w0.player,
            world.actors@.len() == old(world).actors@.len(),
            moves_fit(*world, moves@),
            forall|q: int| 0 <= q < still@.len() ==> (#[trigger] still@[q]) < moves@.len(),
            world.turn == old(world).turn,
            (scene(*world, *events), consumed@, progressed) == swaps(w0, s0, moves@, still@, slot as int),
        decreases still@.len() - slot,
    {
        let i = still[slot];
        if !has_index(&consumed, i) {
            match find_partner(world, moves, still, &consumed, slot) {
                Some(t) => {
                    let j = still[t];
                    assert(moves@[i as int].actor.0 < world.actors@.len() && world.map.spec_in_bounds(moves@[i as int].dest));
                    assert(moves@[j as int].actor.0 < world.actors@.len() && world.map.spec_in_bounds(moves@[j as int].dest));
                    apply_move(world, events, moves[i], Ghost(w0));
                    apply_move(world, events, moves[j], Ghost(w0));
                    consumed.push(i);
                    consumed.push(j);
                    progressed = true;
                },
                None => {},
            }
        }
        slot = slot + 1;
    }
    (consumed, progressed)
}

/// The waiting moves that were not consumed, in order.
fn keep_unconsumed(still: &Vec<usize>, consumed: &Vec<usize>) -> (r: Vec<usize>)
    ensures
        r@ == unconsumed(still@, consumed@, still@.len() as int),
{
    let mut r: Vec<usize> = Vec::new();
    let mut k: usize = 0;
    while k < still.len()
        invariant
            0 <= k <= still@.len(),
            r@ == unconsumed(still@, consumed@, k as int),
        decreases still@.len() - k,
    {
        if !has_index(consumed, still[k]) {
            r.push(still[k]);
        }
        k = k + 1;
    }
    r
}

/// Every stuck move fails.
fn block_all(world: &World, events: &mut TurnEvents, cat: &Catalogue, moves: &Vec<Move>, stuck: &Vec<usize>, Ghost(w0): Ghost<World>)
    requires
        world.player == w0.player,
        forall|q: int| 0 <= q < stuck@.len() ==> (#[trigger] stuck@[q]) < moves@.len(),
    ensures
        scene(*world, *final(events)) == blocked_all(w0, scene(*world, *old(events)), cat, moves@, stuck@, stuck@.len() as int),
{
    let ghost s0 = scene(*world, *events);
    let mut k: usize = 0;
    while k < stuck.len()
        invariant
            0 <= k <= stuck@.len(),
            world.player == w0.player,
            forall|q: int| 0 <= q < stuck@.len() ==> (#[trigger] stuck@[q]) < moves@.len(),
            scene(*world, *events) == blocked_all(w0, s0, cat, moves@, stuck@, k as int),
        decreases stuck@.len() - k,
    {
        let idx = stuck[k];
        fail(world, events, cat, moves[idx].actor, "fail.blocked_person");
        k = k + 1;
    }
}

/// Settles the contest's winners.
#[verifier::spinoff_prover]
#[verifier::rlimit(80)]
fn settle_moves(
    world: &mut World,
    events: &mut TurnEvents,
    cat: &Catalogue,
    moves: &Vec<Move>,
    pending0: Vec<usize>,
    Ghost(w0): Ghost<World>,
)
    requires
        sound(*old(world)),
        old(world).player == w0.player,
        moves_fit(*old(world), moves@),
        forall|q: int| 0 <= q < pending0@.len() ==> (#[trigger] pending0@[q]) < moves@.len(),
    ensures
        lands(*old(world), *final(world), *final(events), settle(w0, scene(*old(world), *old(events)), cat, moves@, pending0@)),
        sound(*final(world)),
        lasting(*old(world), *final(world)),
        final(world).turn == old(world).turn,
        final(world).actors@.len() == old(world).actors@.len(),
{
    let ghost target = settle(w0, scene(*world, *events), cat, moves@, pending0@);
    let mut pending = pending0;
    loop
        invariant_except_break
            settle(w0, scene(*world, *events), cat, moves@, pending@) == target,
        invariant
            sound(*world),
            lasting(*old(world), *world),
            frame(*old(world), *world),
            world.player == w0.player,
            world.turn == old(world).turn,
            world.actors@.len() == old(world).actors@.len(),
            moves_fit(*world, moves@),
            forall|q: int| 0 <= q < pending@.len() ==> (#[trigger] pending@[q]) < moves@.len(),
        ensures
            scene(*world, *events) == target,
        decreases pending@.len(),
    {
        let ghost s_cur = scene(*world, *events);
        let (still, progressed) = pass_once(world, events, moves, &pending, Ghost(w0));
        proof {
            lemma_pass_len(w0, s_cur, moves@, pending@, pending@.len() as int);
        }
        if still.len() == 0 {
            break;
        }
        let (consumed, swapped) = if progressed {
            (Vec::new(), false)
        } else {
            swap_pass(world, events, moves, &still, Ghost(w0))
        };
        let rest = keep_unconsumed(&still, &consumed);
        proof {
            let s1 = pass(w0, s_cur, moves@, pending@, pending@.len() as int).0;
            lemma_swaps_consume(w0, s1, moves@, still@, still@.len() as int);
            lemma_unconsumed_len(still@, consumed@, still@.len() as int);
            assert(still@.subrange(0, still@.len() as int) == still@);
            assert forall|q: int| 0 <= q < rest@.len() implies (#[trigger] rest@[q]) < moves@.len() by {
                let r = choose|r: int| 0 <= r < still@.len() && still@[r] == #[trigger] rest@[q];
                let r2 = choose|r2: int| 0 <= r2 < pending@.len() && pending@[r2] == #[trigger] still@[r];
            }
        }
        if !progressed && !swapped {
            block_all(world, events, cat, moves, &rest, Ghost(w0));
            break;
        }
        pending = rest;
    }
}

// ---------------------------------------------------------------------
// Finishing a turn.
// ---------------------------------------------------------------------
/// Whether `a` is a fleeing NPC standing on an extraction exit of `w`:
/// it leaves the venue for good.
pub open spec fn departs(w: World, a: Actor) -> bool {
    &&& a.role.is_some()
    &&& a.spec_alive()
    &&& !a.departed
    &&& (a.ai matches Some(ai) && ai.mood == Mood::Fleeing)
    &&& w.extraction_tiles@.contains(a.pos)
}

/// `a` after the departures.
pub open spec fn gone(w: World, a: Actor) -> Actor {
    if departs(w, a) {
        Actor { departed: true, ..a }
    } else {
        a
    }
}

/// The lines announcing the departures among `actors`, in cast order.
pub open spec fn bolts(w: World, cat: &Catalogue, actors: Seq<Actor>) -> Seq<Seq<char>>
    decreases actors.len(),
{
    if actors.len() == 0 {
        Seq::empty()
    } else {
        let r = bolts(w, cat, actors.drop_last());
        if departs(w, actors.last()) {
            r.push(line1(cat, "log.target_bolts"@, "name"@, actors.last().name@))
        } else {
            r
        }
    }
}

/// Fleeing NPCs who reach an extraction exit leave the venue for good.
pub open spec fn after_departures(w: World, s: Scene, cat: &Catalogue) -> Scene {
    Scene { actors: s.actors.map_values(|a: Actor| gone(w, a)), lines: s.lines + bolts(w, cat, s.actors), ..s }
}

#[verifier::rlimit(60)]
fn depart(world: &mut World, events: &mut TurnEvents, cat: &Catalogue, Ghost(w): Ghost<World>)
    requires
        sound(*old(world)),
        old(world).extraction_tiles == w.extraction_tiles,
    ensures
        lands(*old(world), *final(world), *final(events), after_departures(w, scene(*old(world), *old(events)), cat)),
        sound(*final(world)),
        lasting(*old(world), *final(world)),
        final(world).turn == old(world).turn,
        final(world).actors@.len() == old(world).actors@.len(),
{
    let ghost w0 = *world;
    let ghost s0 = scene(*world, *events);
    let ghost before = world.actors@;
    let mut i: usize = 0;
    while i < world.actors.len()
        invariant
            0 <= i <= world.actors@.len(),
            world.actors@.len() == before.len(),
            before == w0.actors@,
            w0.extraction_tiles == w.extraction_tiles,
            *world == (World { actors: world.actors, ..w0 }),
            forall|j: int| 0 <= j < i ==> #[trigger] world.actors@[j] == gone(w, before[j]),
            forall|j: int| i <= j < world.actors@.len() ==> #[trigger] world.actors@[j] == before[j],
            scene(*world, *events) == (Scene {
                actors: world.actors@,
                lines: s0.lines + bolts(w, cat, before.subrange(0, i as int)),
                ..s0
            }),
        decreases world.actors@.len() - i,
    {
        let ghost sub = before.subrange(0, i as int + 1);
        assert(sub.drop_last() == before.subrange(0, i as int));
        assert(sub.last() == before[i as int]);
        let a = &world.actors[i];
        let fleeing = match &a.ai {
            Some(ai) => ai.mood == Mood::Fleeing,
            None => false,
        };
        if a.role.is_some() && a.alive() && !a.departed && fleeing && has_pos(&world.extraction_tiles, a.pos) {
            let name = a.name.clone();
            world.actors[i].departed = true;
            let line = cat.fmt_one("log.target_bolts", "name", name.as_str());
            say(world, events, line);
            proof {
                assert(s0.lines + bolts(w, cat, sub) =~= (s0.lines + bolts(w, cat, before.subrange(0, i as int))).push(line@));
            }
        }
        i = i + 1;
    }
    proof {
        assert(before.subrange(0, before.len() as int) == before);
        assert(world.actors@ =~= before.map_values(|a: Actor| gone(w, a)));
        lemma_sound(w0, *world);
    }
}

/// The mission's end, checked once the turn has resolved: the player's
/// death, the target's escape, or extraction with the target dead, where
/// leaving by the wrong exit breaks a specific-exit contract.
pub open spec fn outcomes(w: World, s: Scene, cat: &Catalogue) -> Scene {
    let pl = s.actors[w.player.0 as int];
    let t = s.actors[w.target.0 as int];
    if s.outcome is Some {
        s
    } else if pl.condition == BodyCondition::Dead {
        told(Scene { outcome: Some(MissionOutcome::PlayerKilled), ..s }, cat.spec_text("log.player_killed"@))
    } else if t.spec_alive() && t.departed {
        told(Scene { outcome: Some(MissionOutcome::TargetEscaped), ..s }, cat.spec_text("log.target_escaped"@))
    } else if t.condition == BodyCondition::Dead && w.extraction_tiles@.contains(pl.pos) {
        let s1 = match w.constraint {
            Some(c) => match spec_on_exit(c, s.rooms, pl.pos, cat) {
                Some(reason) => broke(s, cat, reason),
                None => s,
            },
            None => s,
        };
        told(Scene { outcome: Some(MissionOutcome::Extracted), ..s1 }, cat.spec_text("log.extracted"@))
    } else {
        s
    }
}

/// A mission ends in extraction only with the target dead and the player
/// standing on an extraction tile; while the target lives, has not fled
/// and the player is alive, the mission goes on wherever the player
/// stands. An outcome once reached is kept, and the check moves no one.
pub proof fn law_extraction_needs_the_target_dead(w: World, s: Scene, cat: &Catalogue)
    ensures
        outcomes(w, s, cat).actors == s.actors,
        s.outcome is Some ==> outcomes(w, s, cat).outcome == s.outcome,
        s.outcome is None && outcomes(w, s, cat).outcome == Some(MissionOutcome::Extracted) ==> {
            &&& s.actors[w.target.0 as int].condition == BodyCondition::Dead
            &&& w.extraction_tiles@.contains(s.actors[w.player.0 as int].pos)
            &&& s.actors[w.player.0 as int].condition != BodyCondition::Dead
        },
        s.outcome is None && outcomes(w, s, cat).outcome == Some(MissionOutcome::PlayerKilled) ==> s.actors[w.player.0 as int].condition
            == BodyCondition::Dead,
        s.outcome is None && outcomes(w, s, cat).outcome == Some(MissionOutcome::TargetEscaped) ==> {
            &&& s.actors[w.target.0 as int].spec_alive()
            &&& s.actors[w.target.0 as int].departed
            &&& s.actors[w.player.0 as int].condition != BodyCondition::Dead
        },
        s.outcome is None && s.actors[w.player.0 as int].condition == BodyCondition::Dead ==> outcomes(w, s, cat).outcome
            == Some(MissionOutcome::PlayerKilled),
        s.outcome is None && s.actors[w.target.0 as int].condition != BodyCondition::Dead
            && s.actors[w.player.0 as int].condition != BodyCondition::Dead && !s.actors[w.target.0 as int].departed
            ==> outcomes(w, s, cat).outcome is None,
{
}

#[verifier::rlimit(40)]
fn check_outcomes(world: &mut World, events: &mut TurnEvents, cat: &Catalogue, Ghost(w): Ghost<World>)
    requires
        sound(*old(world)),
        frame(w, *old(world)),
    ensures
        lands(*old(world), *final(world), *final(events), outcomes(w, scene(*old(world), *old(events)), cat)),
        sound(*final(world)),
        lasting(*old(world), *final(world)),
        final(world).turn == old(world).turn,
        final(world).actors == old(world).actors,
{
    let ghost w0 = *world;
    if world.outcome.is_some() {
        return;
    }
    let player = world.player_actor();
    if player.condition == BodyCondition::Dead {
        world.outcome = Some(MissionOutcome::PlayerKilled);
        let line = cat.text("log.player_killed");
        say(world, events, line);
        return;
    }
    let target = world.actor(world.target);
    if target.alive() && target.departed {
        world.outcome = Some(MissionOutcome::TargetEscaped);
        let line = cat.text("log.target_escaped");
        say(world, events, line);
        return;
    }
    let target_dead = target.condition == BodyCondition::Dead;
    let player_pos = player.pos;
    if target_dead && has_pos(&world.extraction_tiles, player_pos) {
        let reason = match &world.constraint {
            Some(c) => c.on_exit(world, player_pos, cat),
            None => None,
        };
        match reason {
            Some(r) => {
                breach_constraint(world, events, cat, r.as_str());
            },
            None => {},
        }
        world.outcome = Some(MissionOutcome::Extracted);
        let line = cat.text("log.extracted");
        say(world, events, line);
    }
}

/// How the turn ends once its contested steps are settled in `order`: the
/// claims, the settling of the winners, the departures, the mission's end,
/// and the turn counter.
pub open spec fn finished(w: World, s: Scene, cat: &Catalogue, moves: Seq<Move>, order: Seq<usize>) -> Scene {
    let s1 = claims(w, s, cat, moves, order, order.len() as int);
    let s2 = settle(w, s1, cat, moves, winners(moves, order, moves.len() as int));
    let s3 = after_departures(w, s2, cat);
    let s4 = outcomes(w, s3, cat);
    Scene { turn: (s4.turn + 1) as u32, ..s4 }
}

/// Finishes the turn that [`start_turn`] opened, given the tie-break
/// `order` of its contested steps (drawn from the resolution random
/// stream): each destination goes to its first claimant in that order;
/// the winners settle, chains and swaps included; fleeing NPCs on an exit
/// leave; the mission's end is checked; and the turn counter advances.
pub fn resolve_turn(world: &mut World, cat: &Catalogue, open: OpenTurn, order: &Vec<usize>) -> (r: TurnEvents)
    requires
        sound(*old(world)),
        moves_fit(*old(world), open.moves@),
        forall|q: int| 0 <= q < order@.len() ==> (#[trigger] order@[q]) < open.moves@.len(),
        old(world).turn < u32::MAX,
    ensures
        lands(*old(world), *final(world), r, finished(*old(world), scene(*old(world), open.events), cat, open.moves@, order@)),
        final(world).turn == old(world).turn + 1,
        sound(*final(world)),
        lasting(*old(world), *final(world)),
        final(world).actors@.len() == old(world).actors@.len(),
{
    let ghost w0 = *world;
    let mut events = open.events;
    let moves = open.moves;
    let marks = claim(world, &mut events, cat, &moves, order, Ghost(w0));
    let pending = winners_of(&marks, Ghost(moves@), Ghost(order@));
    settle_moves(world, &mut events, cat, &moves, pending, Ghost(w0));
    assert(world.turn == w0.turn);
    depart(world, &mut events, cat, Ghost(w0));
    assert(world.turn == w0.turn);
    check_outcomes(world, &mut events, cat, Ghost(w0));
    assert(world.turn == w0.turn);
    world.turn = world.turn + 1;
    events
}

// ---------------------------------------------------------------------
// Laws.
// ---------------------------------------------------------------------
/// What no turn undoes stays undone over several: a breach of the
/// contract, a decided outcome, and every death.
pub proof fn law_what_turns_keep(a: World, b: World, c: World)
    requires
        lasting(a, b),
        lasting(b, c),
    ensures
        lasting(a, c),
{
}

/// Every action of a batch either lands this turn or stays prepared, one
/// turn nearer to landing: none is lost and none appears twice.
pub proof fn law_actions_land_or_wait(b: Seq<PreparedAction>)
    requires
        forall|k: int| 0 <= k < b.len() ==> (#[trigger] b[k]).remaining >= 1,
    ensures
        due(b).len() + kept(b).len() == b.len(),
        forall|k: int| 0 <= k < due(b).len() ==> (#[trigger] due(b)[k]).remaining == 0,
        forall|k: int| 0 <= k < kept(b).len() ==> (#[trigger] kept(b)[k]).remaining >= 1,
    decreases b.len(),
{
    if b.len() > 0 {
        law_actions_land_or_wait(b.drop_last());
        assert(b.last() == b[b.len() - 1]);
    }
}

/// Two winning moves never share a destination: a contested tile goes to
/// one claimant only.
pub proof fn law_one_winner_per_destination(moves: Seq<Move>, order: Seq<usize>, i: int, j: int)
    requires
        won(moves, order, i),
        won(moves, order, j),
        moves[i].dest == moves[j].dest,
    ensures
        i == j,
{
    let qi = choose|q: int| 0 <= q < order.len() && order[q] == i && #[trigger] wins(moves, order, q);
    let qj = choose|q: int| 0 <= q < order.len() && order[q] == j && #[trigger] wins(moves, order, q);
    if qi < qj {
        assert(moves[order[qi] as int].dest != moves[order[qj] as int].dest);
    } else if qj < qi {
        assert(moves[order[qj] as int].dest != moves[order[qi] as int].dest);
    }
}

/// Some move that claims a destination at or before position `q` of the
/// order wins it.
proof fn lemma_claim_taken(moves: Seq<Move>, order: Seq<usize>, q: int)
    requires
        0 <= q < order.len(),
    ensures
        exists|p: int| 0 <= p <= q && wins(moves, order, p) && moves[order[p] as int].dest == moves[order[q] as int].dest,
    decreases q,
{
    if wins(moves, order, q) {
        assert(wins(moves, order, q) && moves[order[q] as int].dest == moves[order[q] as int].dest);
    } else {
        let r = choose|r: int| 0 <= r < q && moves[(#[trigger] order[r]) as int].dest == moves[order[q] as int].dest;
        lemma_claim_taken(moves, order, r);
    }
}

/// Every destination claimed in the order is won by some move: a contest
/// always has a winner.
pub proof fn law_every_claim_has_a_winner(moves: Seq<Move>, order: Seq<usize>, q: int)
    requires
        0 <= q < order.len(),
    ensures
        exists|i: int| #[trigger] won(moves, order, i) && moves[i].dest == moves[order[q] as int].dest,
{
    lemma_claim_taken(moves, order, q);
    let p = choose|p: int| 0 <= p <= q && wins(moves, order, p) && moves[order[p] as int].dest == moves[order[q] as int].dest;
    assert(won(moves, order, order[p] as int));
}

} // verus!
