//! The NPC path graph.
//!
//! NPCs path over terrain and furniture; closed doors count as passable
//! when unlocked (they bump them open) or when the walker carries the key.
//! Other actors are mostly ignored here, since simultaneous resolution
//! arbitrates collisions, so paths stay stable while crowds shuffle. The
//! one exception is the player, who is never displaced: NPCs route around
//! the player's tile, except when the player is the destination, which is
//! how a pursuing guard reaches an arrest.
//!
//! The graph has one node per tile. A node's edges are the four
//! directions in their fixed order, which is what breaks equal-cost ties;
//! a stair transition costs several plain steps, so that up-and-straight-
//! back-down is strictly worse than any flat alternative and re-planning
//! walkers do not oscillate between storeys. The shortest-path search over
//! this graph is the grid search's business.
use vstd::prelude::*;

use crate::access::{can_pass_door, spec_can_pass_door};
use crate::data::GameData;
use crate::geom::{Dir4, Pos};
use crate::map::{GameMap, TileKind};
use crate::world::{ActorId, World};

verus! {

/// The cost of a plain step.
pub const STEP_COST: u32 = 1;

/// The cost of a step that carries the walker up or down a stair.
pub const STAIR_COST: u32 = 4;

/// One edge of the path graph: the node it leads to, the index of the
/// direction taken in `Dir4::ALL`, and its cost.
#[derive(Clone, Copy, Debug, PartialEq, Eq, Structural)]
pub struct PathStep {
    pub node: usize,
    pub move_index: u8,
    pub cost: u32,
}

/// Whether the map is small enough for its path graph: one storey's tiles
/// fit a signed 16-bit count.
pub open spec fn graph_fits(m: &GameMap) -> bool {
    &&& m.wf()
    &&& m.spec_width() <= 32767
    &&& m.spec_height() <= 32767
    &&& m.spec_width() * m.spec_height() <= 32767
}

/// The number of nodes of the path graph.
pub open spec fn spec_graph_size(m: &GameMap) -> nat {
    (m.spec_width() * m.spec_height() * m.spec_floor_count()) as nat
}

/// The node of tile `p`, when it is on the map.
pub open spec fn node_of(m: &GameMap, p: Pos) -> Option<usize> {
    if p.x >= 0 && p.y >= 0 && p.x < m.spec_width() && p.y < m.spec_height() && p.floor
        < m.spec_floor_count() {
        Some(((p.floor * m.spec_height() + p.y) * m.spec_width() + p.x) as usize)
    } else {
        None
    }
}

/// The tile of node `n`.
pub open spec fn tile_of(m: &GameMap, n: int) -> Pos {
    let plane = m.spec_width() * m.spec_height();
    let rest = n % plane;
    Pos { floor: (n / plane) as u8, x: (rest % m.spec_width() as int) as i16, y: (rest / m.spec_width() as int) as i16 }
}

/// The direction at index `k` of `Dir4::ALL`.
pub open spec fn dir_at(k: int) -> Dir4 {
    if k == 0 {
        Dir4::North
    } else if k == 1 {
        Dir4::East
    } else if k == 2 {
        Dir4::South
    } else {
        Dir4::West
    }
}

/// The tile an NPC routes around: the player's, unless the walker is the
/// player or the player is where it is going.
pub open spec fn player_block(w: &World, actor: ActorId, goal: Pos) -> Option<Pos> {
    let me = w.actors@[actor.0 as int];
    let player = w.actors@[w.player.0 as int];
    if me.role is Some && player.pos != goal {
        Some(player.pos)
    } else {
        None
    }
}

/// Whether `actor`, heading for `goal`, may path over `pos`: terrain that
/// is not wall or void, bare of furniture, a door only when it stands open
/// or the walker may pass it, and never the tile it routes around.
pub open spec fn path_passable(w: &World, d: &GameData, actor: ActorId, goal: Pos, pos: Pos) -> bool {
    if player_block(w, actor, goal) == Some(pos) {
        false
    } else {
        match w.map.spec_tile(pos) {
            TileKind::Wall | TileKind::Void => false,
            TileKind::Door(id) => w.spec_furniture_index(pos) is None && (w.doors@[id.0 as int].open
                || spec_can_pass_door(w, d, actor, id)),
            TileKind::Floor | TileKind::Stairs(_) => w.spec_furniture_index(pos) is None,
        }
    }
}

/// The edge out of `pos` in direction `k`, if that step is passable and
/// lands on the map.
pub open spec fn edge(w: &World, d: &GameData, actor: ActorId, goal: Pos, pos: Pos, k: int) -> Option<
    PathStep,
> {
    let ahead = pos.spec_step(dir_at(k));
    let landing = w.map.spec_step_destination(ahead);
    if path_passable(w, d, actor, goal, ahead) && node_of(&w.map, landing) is Some {
        Some(
            PathStep {
                node: node_of(&w.map, landing).unwrap(),
                move_index: k as u8,
                cost: if landing == ahead {
                    STEP_COST
                } else {
                    STAIR_COST
                },
            },
        )
    } else {
        None
    }
}

/// The edges out of `pos` in the first `k` directions, in order.
pub open spec fn edges_upto(w: &World, d: &GameData, actor: ActorId, goal: Pos, pos: Pos, k: nat) -> Seq<
    PathStep,
>
    decreases k,
{
    if k == 0 {
        Seq::empty()
    } else {
        let prev = edges_upto(w, d, actor, goal, pos, (k - 1) as nat);
        match edge(w, d, actor, goal, pos, k - 1) {
            Some(e) => prev.push(e),
            None => prev,
        }
    }
}

/// The number of nodes of the map's path graph.
pub fn graph_size(map: &GameMap) -> (r: usize)
    requires
        graph_fits(map),
    ensures
        r == spec_graph_size(map),
{
    let plane: usize = map.width() as usize * map.height() as usize;
    let floors: usize = map.floor_count() as usize;
    assert(plane * floors <= 32767 * 255) by (nonlinear_arith)
        requires
            plane <= 32767,
            floors <= 255,
    ;
    plane * floors
}

/// The node of tile `pos`, when it is on the map.
pub fn path_node(map: &GameMap, pos: Pos) -> (r: Option<usize>)
    requires
        graph_fits(map),
    ensures
        r == node_of(map, pos),
{
    let width: u16 = map.width();
    let height: u16 = map.height();
    let floors: u8 = map.floor_count();
    if pos.x >= 0 && pos.y >= 0 && (pos.x as i32) < (width as i32) && (pos.y as i32) < (height as i32)
        && pos.floor < floors {
        let f: usize = pos.floor as usize;
        let y: usize = pos.y as usize;
        let x: usize = pos.x as usize;
        let w: usize = width as usize;
        let h: usize = height as usize;
        assert(f * h + y < 255 * h) by (nonlinear_arith)
            requires
                f < 255,
                y < h,
        ;
        assert(255 * h * w <= 255 * 32767) by (nonlinear_arith)
            requires
                w * h <= 32767,
        ;
        assert((f * h + y) * w <= 255 * h * w) by (nonlinear_arith)
            requires
                f * h + y < 255 * h,
        ;
        assert((f * h + y) * w + x < 255 * h * w) by (nonlinear_arith)
            requires
                f * h + y < 255 * h,
                x < w,
        ;
        Some((f * h + y) * w + x)
    } else {
        None
    }
}

/// The tile of node `node`.
fn node_tile(map: &GameMap, node: usize) -> (r: Pos)
    requires
        graph_fits(map),
        node < spec_graph_size(map),
    ensures
        r == tile_of(map, node as int),
        node_of(map, r) == Some(node),
{
    let w: usize = map.width() as usize;
    let h: usize = map.height() as usize;
    let plane: usize = w * h;
    let floors: usize = map.floor_count() as usize;
    assert(plane > 0) by (nonlinear_arith)
        requires
            node < plane * floors,
    ;
    assert(w > 0 && h > 0) by (nonlinear_arith)
        requires
            plane == w * h,
            plane > 0,
    ;
    let floor: usize = node / plane;
    let rest: usize = node % plane;
    let x: usize = rest % w;
    let y: usize = rest / w;
    proof {
        assert(floor < floors) by (nonlinear_arith)
            requires
                node < plane * floors,
                floor == node / plane,
                plane > 0,
        ;
        assert(y < h && x < w) by (nonlinear_arith)
            requires
                rest < plane,
                plane == w * h,
                x == rest % w,
                y == rest / w,
                w > 0,
        ;
        assert(node == (floor * h + y) * w + x) by (nonlinear_arith)
            requires
                floor == node / plane,
                rest == node % plane,
                x == rest % w,
                y == rest / w,
                plane == w * h,
                w > 0,
                plane > 0,
        ;
    }
    Pos { floor: floor as u8, x: x as i16, y: y as i16 }
}

/// Whether `actor`, heading for `goal`, may path over `pos`.
fn passable_for(world: &World, data: &GameData, actor: ActorId, goal: Pos, pos: Pos) -> (r: bool)
    requires
        world.wf(),
        actor.0 < world.actors@.len(),
    ensures
        r == path_passable(world, data, actor, goal, pos),
{
    let player_pos = world.actor(world.player).pos;
    if !world.actor(actor).is_player() && player_pos != goal && pos == player_pos {
        return false;
    }
    match world.map.tile(pos) {
        TileKind::Wall | TileKind::Void => false,
        TileKind::Door(id) => world.furniture_at(pos).is_none() && (world.door(id).open
            || can_pass_door(world, data, actor, id)),
        TileKind::Floor | TileKind::Stairs(_) => world.furniture_at(pos).is_none(),
    }
}

/// The edges out of node `node` for `actor` heading to `goal`: for each
/// direction in `Dir4::ALL` order whose step is passable and lands on the
/// map, the landing's node, the direction's index, and the step's cost.
pub fn path_steps(world: &World, data: &GameData, actor: ActorId, goal: Pos, node: usize) -> (r: Vec<
    PathStep,
>)
    requires
        world.wf(),
        graph_fits(&world.map),
        actor.0 < world.actors@.len(),
        node < spec_graph_size(&world.map),
    ensures
        r@ == edges_upto(world, data, actor, goal, tile_of(&world.map, node as int), 4),
{
    let pos = node_tile(&world.map, node);
    let mut out: Vec<PathStep> = Vec::new();
    let mut k: usize = 0;
    while k < 4
        invariant
            0 <= k <= 4,
            world.wf(),
            graph_fits(&world.map),
            actor.0 < world.actors@.len(),
            node_of(&world.map, pos) is Some,
            pos == tile_of(&world.map, node as int),
            out@ == edges_upto(world, data, actor, goal, pos, k as nat),
        decreases 4 - k,
    {
        let dir = if k == 0 {
            Dir4::North
        } else if k == 1 {
            Dir4::East
        } else if k == 2 {
            Dir4::South
        } else {
            Dir4::West
        };
        assert(dir == dir_at(k as int));
        assert(pos.can_step(dir));
        let ahead = pos.step(dir);
        if passable_for(world, data, actor, goal, ahead) {
            let landing = world.map.resolve_step_destination(ahead);
            match path_node(&world.map, landing) {
                Some(to) => {
                    let cost: u32 = if landing == ahead {
                        STEP_COST
                    } else {
                        STAIR_COST
                    };
                    out.push(PathStep { node: to, move_index: k as u8, cost });
                },
                None => {},
            }
        }
        k = k + 1;
    }
    out
}

} // verus!
