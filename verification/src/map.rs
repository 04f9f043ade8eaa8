//! The static tile map: storeys of walls, floors, doors, and stairs.
//!
//! The map records what generation decided about terrain. Dynamic state
//! that changes during play (door open/closed, locks) lives in
//! [`DoorState`] records owned by the world alongside the map. Sight and
//! movement queries accept closures so callers decide how entities block.
//!
//! Stairs are *linked pairs* rather than matching coordinates, so a
//! stairwell can serve any number of storeys: the tile carries a
//! [`StairId`] and the map owns the [`StairLink`] naming both ends.
use vstd::prelude::*;

use crate::geom::{FloorId, Pos, supercover_between, spec_supercover, abs, max};

verus! {

/// Stable identifier of one door on the map.
#[derive(Clone, Copy, Debug, PartialEq, Eq, Structural, Hash, PartialOrd, Ord)]
pub struct DoorId(pub u16);

/// Stable identifier of one stair link on the map.
#[derive(Clone, Copy, Debug, PartialEq, Eq, Structural, Hash, PartialOrd, Ord)]
pub struct StairId(pub u16);

/// The two tiles one stairwell step connects. Stepping onto either end
/// carries the mover to the other.
#[derive(Clone, Copy, Debug, PartialEq, Eq, Structural)]
pub struct StairLink {
    pub a: Pos,
    pub b: Pos,
}

#[derive(Clone, Copy, Debug, PartialEq, Eq, Structural)]
pub enum TileKind {
    /// Outside the building or otherwise nonexistent.
    Void,
    Wall,
    Floor,
    Door(DoorId),
    /// One end of a stair link: stepping onto it carries the mover to the
    /// link's other end.
    Stairs(StairId),
}

/// The current state of one door.
#[derive(Clone, Debug)]
pub struct DoorState {
    pub open: bool,
    /// Item id of the key required while the door is locked, if any.
    pub locked_by: Option<String>,
}

/// One storey of tiles.
#[derive(Clone, Debug)]
pub struct FloorGrid {
    tiles: Vec<TileKind>,
}

/// The full static map.
#[derive(Clone, Debug)]
pub struct GameMap {
    width: u16,
    height: u16,
    floors: Vec<FloorGrid>,
    /// Indexed by [`StairId`]; generation order, so deterministic.
    stair_links: Vec<StairLink>,
}

/// The value of a dimension reinterpreted as a signed 16-bit coordinate.
pub open spec fn dim_i16(w: u16) -> int {
    if w <= 32767 {
        w as int
    } else {
        w - 65536
    }
}

pub proof fn lemma_dim_i16(w: u16)
    ensures
        (w as i16) as int == dim_i16(w),
{
    assert(w <= 32767 ==> (w as i16) as int == w as int) by (bit_vector);
    assert(w > 32767 ==> (w as i16) as int == w as int - 65536) by (bit_vector);
}

proof fn lemma_index_in_grid(x: int, y: int, w: int, h: int)
    requires
        0 <= x < w,
        0 <= y < h,
    ensures
        0 <= y * w + x < w * h,
{
    assert(y * w + x < w * h) by (nonlinear_arith)
        requires
            0 <= x < w,
            0 <= y < h,
    ;
    assert(0 <= y * w) by (nonlinear_arith)
        requires
            0 <= y,
            0 <= w,
    ;
}

impl GameMap {
    /// Internal consistency: every storey holds `width * height` tiles,
    /// and there are at most 255 storeys.
    pub closed spec fn wf(&self) -> bool {
        &&& self.floors.len() <= 255
        &&& forall|f: int|
            0 <= f < self.floors@.len() ==> (#[trigger] self.floors@[f]).tiles@.len() == self.width
                * self.height
    }

    pub closed spec fn spec_width(&self) -> u16 {
        self.width
    }

    pub closed spec fn spec_height(&self) -> u16 {
        self.height
    }

    pub closed spec fn spec_floor_count(&self) -> nat {
        self.floors@.len()
    }

    pub closed spec fn spec_links(&self) -> Seq<StairLink> {
        self.stair_links@
    }

    /// Whether `pos` addresses a tile of this map.
    pub open spec fn spec_in_bounds(&self, pos: Pos) -> bool {
        &&& pos.floor < self.spec_floor_count()
        &&& pos.x >= 0
        &&& pos.y >= 0
        &&& pos.x < dim_i16(self.spec_width())
        &&& pos.y < dim_i16(self.spec_height())
    }

    /// The tile at `pos`; out-of-bounds positions read as void.
    pub closed spec fn spec_tile(&self, pos: Pos) -> TileKind {
        if !self.spec_in_bounds(pos) {
            TileKind::Void
        } else {
            self.floors@[pos.floor as int].tiles@[pos.y * self.width + pos.x]
        }
    }

    /// Where stepping onto `pos` takes a mover.
    pub open spec fn spec_step_destination(&self, pos: Pos) -> Pos {
        match self.spec_tile(pos) {
            TileKind::Stairs(id) => {
                if id.0 >= self.spec_links().len() {
                    pos
                } else {
                    let link = self.spec_links()[id.0 as int];
                    let other = if link.a == pos {
                        Some(link.b)
                    } else if link.b == pos {
                        Some(link.a)
                    } else {
                        None
                    };
                    match other {
                        None => pos,
                        Some(o) => if self.spec_tile(o) == TileKind::Stairs(id) {
                            o
                        } else {
                            pos
                        },
                    }
                }
            },
            _ => pos,
        }
    }

    /// Creates a map of `floor_count` storeys filled with void.
    pub fn filled_void(width: u16, height: u16, floor_count: u8) -> (r: Self)
        ensures
            r.wf(),
            r.spec_width() == width,
            r.spec_height() == height,
            r.spec_floor_count() == floor_count,
            r.spec_links() == Seq::<StairLink>::empty(),
            forall|p: Pos| #[trigger] r.spec_tile(p) == TileKind::Void,
    {
        assert((width as int) * (height as int) <= 65535 * 65535) by (nonlinear_arith)
            requires
                width <= 65535,
                height <= 65535,
        ;
        let n: usize = (width as usize) * (height as usize);
        let mut tiles: Vec<TileKind> = Vec::new();
        let mut i: usize = 0;
        while i < n
            invariant
                0 <= i <= n,
                tiles@.len() == i,
                forall|j: int| 0 <= j < i ==> tiles@[j] == TileKind::Void,
            decreases n - i,
        {
            tiles.push(TileKind::Void);
            i = i + 1;
        }
        let mut floors: Vec<FloorGrid> = Vec::new();
        let mut f: u8 = 0;
        while f < floor_count
            invariant
                0 <= f <= floor_count,
                floors@.len() == f,
                tiles@.len() == n,
                n == width * height,
                forall|j: int| 0 <= j < n ==> tiles@[j] == TileKind::Void,
                forall|k: int|
                    0 <= k < f ==> (#[trigger] floors@[k]).tiles@ == tiles@,
            decreases floor_count - f,
        {
            let copy = clone_tiles(&tiles);
            floors.push(FloorGrid { tiles: copy });
            f = f + 1;
        }
        let r = Self { width, height, floors, stair_links: Vec::new() };
        assert forall|p: Pos| #[trigger] r.spec_tile(p) == TileKind::Void by {
            if r.spec_in_bounds(p) {
                lemma_dim_i16(width);
                lemma_dim_i16(height);
                lemma_index_in_grid(p.x as int, p.y as int, width as int, height as int);
                assert(r.floors@[p.floor as int].tiles@ == tiles@);
            }
        }
        r
    }

    /// Links two tiles into one stairwell step and marks both as stairs.
    /// Returns the new link's id.
    pub fn link_stairs(&mut self, a: Pos, b: Pos) -> (id: StairId)
        requires
            old(self).wf(),
            old(self).spec_in_bounds(a),
            old(self).spec_in_bounds(b),
            old(self).spec_links().len() <= u16::MAX,
        ensures
            final(self).wf(),
            id.0 == old(self).spec_links().len(),
            final(self).spec_links() == old(self).spec_links().push(StairLink { a, b }),
            final(self).spec_width() == old(self).spec_width(),
            final(self).spec_height() == old(self).spec_height(),
            final(self).spec_floor_count() == old(self).spec_floor_count(),
            forall|p: Pos| #[trigger]
                final(self).spec_tile(p) == if p == a || p == b {
                    TileKind::Stairs(id)
                } else {
                    old(self).spec_tile(p)
                },
    {
        let id = StairId(self.stair_links.len() as u16);
        self.stair_links.push(StairLink { a, b });
        self.set_tile(a, TileKind::Stairs(id));
        self.set_tile(b, TileKind::Stairs(id));
        id
    }

    pub fn stair_links(&self) -> (r: &[StairLink])
        ensures
            r@ == self.spec_links(),
    {
        self.stair_links.as_slice()
    }

    pub fn width(&self) -> (r: u16)
        ensures
            r == self.spec_width(),
    {
        self.width
    }

    pub fn height(&self) -> (r: u16)
        ensures
            r == self.spec_height(),
    {
        self.height
    }

    pub fn floor_count(&self) -> (r: u8)
        requires
            self.wf(),
        ensures
            r == self.spec_floor_count(),
    {
        self.floors.len() as u8
    }

    pub fn in_bounds(&self, pos: Pos) -> (r: bool)
        ensures
            r == self.spec_in_bounds(pos),
    {
        proof {
            lemma_dim_i16(self.width);
            lemma_dim_i16(self.height);
        }
        (pos.floor as usize) < self.floors.len() && pos.x >= 0 && pos.y >= 0 && pos.x < self.width as i16
            && pos.y < self.height as i16
    }

    fn index(&self, pos: Pos) -> (r: usize)
        requires
            self.wf(),
            self.spec_in_bounds(pos),
        ensures
            r == pos.y * self.width + pos.x,
            r < self.floors[pos.floor as int].tiles.len(),
    {
        proof {
            lemma_dim_i16(self.width);
            lemma_dim_i16(self.height);
            lemma_index_in_grid(pos.x as int, pos.y as int, self.width as int, self.height as int);
            assert(self.floors[pos.floor as int].tiles.len() == self.width * self.height);
        }
        (pos.y as usize) * (self.width as usize) + (pos.x as usize)
    }

    /// The tile at `pos`; out-of-bounds positions read as void.
    pub fn tile(&self, pos: Pos) -> (r: TileKind)
        requires
            self.wf(),
        ensures
            r == self.spec_tile(pos),
    {
        if !self.in_bounds(pos) {
            return TileKind::Void;
        }
        let i = self.index(pos);
        self.floors[pos.floor as usize].tiles[i]
    }

    pub fn set_tile(&mut self, pos: Pos, tile: TileKind)
        requires
            old(self).wf(),
            old(self).spec_in_bounds(pos),
        ensures
            final(self).wf(),
            final(self).spec_width() == old(self).spec_width(),
            final(self).spec_height() == old(self).spec_height(),
            final(self).spec_floor_count() == old(self).spec_floor_count(),
            final(self).spec_links() == old(self).spec_links(),
            forall|p: Pos| #[trigger]
                final(self).spec_tile(p) == if p == pos {
                    tile
                } else {
                    old(self).spec_tile(p)
                },
    {
        let index = self.index(pos);
        let f = pos.floor as usize;
        let ghost old_map = *self;
        let mut grid = FloorGrid { tiles: Vec::new() };
        std::mem::swap(&mut grid, &mut self.floors[f]);
        grid.tiles.set(index, tile);
        std::mem::swap(&mut grid, &mut self.floors[f]);
        proof {
            assert(self.floors@[f as int].tiles@ == old_map.floors@[f as int].tiles@.update(
                index as int,
                tile,
            ));
            assert forall|k: int| 0 <= k < self.floors.len() && k != f implies #[trigger] self.floors@[k]
                == old_map.floors@[k] by {}
            lemma_dim_i16(self.width);
            lemma_dim_i16(self.height);
            assert forall|p: Pos| #[trigger]
                self.spec_tile(p) == if p == pos {
                    tile
                } else {
                    old_map.spec_tile(p)
                } by {
                if self.spec_in_bounds(p) && p != pos && p.floor == pos.floor {
                    lemma_index_in_grid(p.x as int, p.y as int, self.width as int, self.height as int);
                    lemma_distinct_index(p, pos, self.width as int);
                }
            }
        }
    }
}

impl GameMap {
    /// True when terrain alone permits standing on `pos`. Door passability
    /// depends on dynamic state, so callers supply the door lookup.
    pub fn walkable(&self, pos: Pos, door_open: impl Fn(DoorId) -> bool) -> (r: bool)
        requires
            self.wf(),
            forall|id: DoorId| door_open.requires((id,)),
        ensures
            match self.spec_tile(pos) {
                TileKind::Floor | TileKind::Stairs(_) => r,
                TileKind::Door(id) => door_open.ensures((id,), r),
                TileKind::Wall | TileKind::Void => !r,
            },
    {
        match self.tile(pos) {
            TileKind::Floor | TileKind::Stairs(_) => true,
            TileKind::Door(id) => door_open(id),
            TileKind::Wall | TileKind::Void => false,
        }
    }

    /// True when terrain at `pos` blocks sight (walls, closed doors, void).
    pub fn terrain_blocks_sight(&self, pos: Pos, door_open: impl Fn(DoorId) -> bool) -> (r: bool)
        requires
            self.wf(),
            forall|id: DoorId| door_open.requires((id,)),
        ensures
            match self.spec_tile(pos) {
                TileKind::Floor | TileKind::Stairs(_) => !r,
                TileKind::Door(id) => door_open.ensures((id,), !r),
                TileKind::Wall | TileKind::Void => r,
            },
    {
        match self.tile(pos) {
            TileKind::Floor | TileKind::Stairs(_) => false,
            TileKind::Door(id) => !door_open(id),
            TileKind::Wall | TileKind::Void => true,
        }
    }

    /// Where a mover ends up after stepping onto `pos`: a stair tile
    /// carries the mover to its link's other end. A stair whose link is
    /// missing or malformed leaves the mover where they stand.
    pub fn resolve_step_destination(&self, pos: Pos) -> (r: Pos)
        requires
            self.wf(),
        ensures
            r == self.spec_step_destination(pos),
    {
        let id = match self.tile(pos) {
            TileKind::Stairs(id) => id,
            _ => {
                return pos;
            },
        };
        if id.0 as usize >= self.stair_links.len() {
            return pos;
        }
        let link = self.stair_links[id.0 as usize];
        let other = if link.a == pos {
            link.b
        } else if link.b == pos {
            link.a
        } else {
            return pos;
        };
        match self.tile(other) {
            TileKind::Stairs(other_id) => {
                if other_id == id {
                    other
                } else {
                    pos
                }
            },
            _ => pos,
        }
    }

    /// All in-bounds positions of one floor in row-major (deterministic)
    /// order.
    pub fn floor_positions(&self, floor: FloorId) -> (r: Vec<Pos>)
        ensures
            r@.len() == row_count(self.spec_width(), self.spec_height()),
            forall|i: int|
                0 <= i < r@.len() ==> #[trigger] r@[i] == row_major_pos(
                    floor,
                    i,
                    dim_i16(self.spec_width()),
                ),
    {
        proof {
            lemma_dim_i16(self.width);
            lemma_dim_i16(self.height);
        }
        let width = self.width as i16;
        let height = self.height as i16;
        let mut r: Vec<Pos> = Vec::new();
        if width <= 0 || height <= 0 {
            return r;
        }
        let ghost w = width as int;
        let ghost h = height as int;
        let mut y: i16 = 0;
        while y < height
            invariant
                0 <= y <= height,
                w == width,
                h == height,
                width > 0,
                r@.len() == y * w,
                forall|i: int|
                    0 <= i < r@.len() ==> #[trigger] r@[i] == row_major_pos(floor, i, w),
            decreases height - y,
        {
            let mut x: i16 = 0;
            while x < width
                invariant
                    0 <= x <= width,
                    0 <= y < height,
                    w == width,
                    width > 0,
                    r@.len() == y * w + x,
                    forall|i: int|
                        0 <= i < r@.len() ==> #[trigger] r@[i] == row_major_pos(floor, i, w),
                decreases width - x,
            {
                proof {
                    lemma_row_major(floor, y as int, x as int, w);
                }
                r.push(Pos { floor, x, y });
                x = x + 1;
            }
            assert(r@.len() == (y + 1) * w) by (nonlinear_arith)
                requires
                    r@.len() == y * w + w,
            ;
            y = y + 1;
        }
        assert(r@.len() == h * w);
        assert(h * w == w * h) by (nonlinear_arith);
        assert(r@.len() == row_count(self.width, self.height));
        r
    }
}

/// Number of positions `floor_positions` yields for a map of this size.
pub open spec fn row_count(width: u16, height: u16) -> int {
    if dim_i16(width) <= 0 || dim_i16(height) <= 0 {
        0
    } else {
        dim_i16(width) * dim_i16(height)
    }
}

/// The `i`-th position in row-major order on a storey `w` tiles wide.
pub open spec fn row_major_pos(floor: FloorId, i: int, w: int) -> Pos {
    Pos { floor, x: (i % w) as i16, y: (i / w) as i16 }
}

proof fn lemma_row_major(floor: FloorId, y: int, x: int, w: int)
    requires
        0 <= x < w,
        0 <= y,
        w > 0,
        x <= i16::MAX,
        y <= i16::MAX,
    ensures
        row_major_pos(floor, y * w + x, w) == (Pos { floor, x: x as i16, y: y as i16 }),
{
    assert((y * w + x) % w == x && (y * w + x) / w == y) by (nonlinear_arith)
        requires
            0 <= x < w,
            0 <= y,
            w > 0,
    ;
}

/// Every tile of the sight line from `from` to `to` was reported clear by
/// `blocks`.
pub open spec fn sight_clear<F: Fn(Pos) -> bool>(from: Pos, to: Pos, blocks: F) -> bool {
    forall|i: int|
        0 <= i < spec_supercover(from, to).len() ==> blocks.ensures(
            (#[trigger] spec_supercover(from, to)[i],),
            false,
        )
}

/// Some tile of the sight line from `from` to `to` was reported blocking
/// by `blocks`.
pub open spec fn sight_blocked<F: Fn(Pos) -> bool>(from: Pos, to: Pos, blocks: F) -> bool {
    exists|i: int|
        0 <= i < spec_supercover(from, to).len() && blocks.ensures(
            (#[trigger] spec_supercover(from, to)[i],),
            true,
        )
}

/// True when an unobstructed sight line exists between `from` and `to`.
///
/// Endpoints never block themselves; `blocks` is consulted for every tile
/// the ray passes through. Sight never crosses storeys.
pub fn line_of_sight(from: Pos, to: Pos, blocks: impl Fn(Pos) -> bool) -> (r: bool)
    requires
        forall|p: Pos| blocks.requires((p,)),
    ensures
        from.floor != to.floor ==> !r,
        from.floor == to.floor && r ==> sight_clear(from, to, blocks),
        from.floor == to.floor && !r ==> sight_blocked(from, to, blocks),
{
    if from.floor != to.floor {
        return false;
    }
    let cover = supercover_between(from, to);
    let mut i: usize = 0;
    while i < cover.len()
        invariant
            0 <= i <= cover@.len(),
            cover@ == spec_supercover(from, to),
            forall|p: Pos| blocks.requires((p,)),
            forall|j: int| 0 <= j < i ==> blocks.ensures((#[trigger] cover@[j],), false),
        decreases cover@.len() - i,
    {
        let b = blocks(cover[i]);
        if b {
            assert(blocks.ensures((cover@[i as int],), true));
            return false;
        }
        i = i + 1;
    }
    true
}

/// Row-major order of positions on one storey.
pub open spec fn row_major_lt(p: Pos, q: Pos) -> bool {
    p.y < q.y || (p.y == q.y && p.x < q.x)
}

/// Whether `p` lies in the square of half-width `range` around `origin`
/// on its storey.
pub open spec fn in_square(origin: Pos, range: int, p: Pos) -> bool {
    p.floor == origin.floor && origin.y - range <= p.y <= origin.y + range && origin.x - range
        <= p.x <= origin.x + range
}

/// Every tile within `range` (Chebyshev) of `origin` that has line of
/// sight from it, in deterministic row-major order.
pub fn tiles_visible_from(origin: Pos, range: i16, map: &GameMap, blocks: impl Fn(Pos) -> bool) -> (r:
    Vec<Pos>)
    requires
        map.wf(),
        forall|p: Pos| blocks.requires((p,)),
    ensures
        forall|i: int|
            0 <= i < r@.len() ==> {
                &&& in_square(origin, range as int, #[trigger] r@[i])
                &&& map.spec_in_bounds(r@[i])
                &&& sight_clear(origin, r@[i], blocks)
            },
        forall|i: int, j: int| 0 <= i < j < r@.len() ==> row_major_lt(r@[i], r@[j]),
        forall|p: Pos|
            in_square(origin, range as int, p) && map.spec_in_bounds(p) && !r@.contains(p)
                ==> sight_blocked(origin, p, blocks),
{
    let mut visible: Vec<Pos> = Vec::new();
    let lo_y: i32 = origin.y as i32 - range as i32;
    let hi_y: i32 = origin.y as i32 + range as i32;
    let lo_x: i32 = origin.x as i32 - range as i32;
    let hi_x: i32 = origin.x as i32 + range as i32;
    let mut y: i32 = lo_y;
    while y <= hi_y
        invariant
            lo_y == origin.y - range,
            hi_y == origin.y + range,
            lo_x == origin.x - range,
            hi_x == origin.x + range,
            lo_y <= y,
            y <= hi_y + 1 || hi_y < lo_y,
            map.wf(),
            forall|p: Pos| blocks.requires((p,)),
            forall|i: int|
                0 <= i < visible@.len() ==> {
                    &&& in_square(origin, range as int, #[trigger] visible@[i])
                    &&& map.spec_in_bounds(visible@[i])
                    &&& sight_clear(origin, visible@[i], blocks)
                    &&& visible@[i].y < y
                },
            forall|i: int, j: int| 0 <= i < j < visible@.len() ==> row_major_lt(visible@[i], visible@[j]),
            forall|p: Pos|
                in_square(origin, range as int, p) && map.spec_in_bounds(p) && p.y < y && !visible@.contains(p)
                    ==> sight_blocked(origin, p, blocks),
        decreases hi_y + 1 - y,
    {
        let mut x: i32 = lo_x;
        while x <= hi_x
            invariant
                lo_y == origin.y - range,
                hi_y == origin.y + range,
                lo_x == origin.x - range,
                hi_x == origin.x + range,
                lo_y <= y <= hi_y,
                lo_x <= x,
                x <= hi_x + 1,
                map.wf(),
                forall|p: Pos| blocks.requires((p,)),
                forall|i: int|
                    0 <= i < visible@.len() ==> {
                        &&& in_square(origin, range as int, #[trigger] visible@[i])
                        &&& map.spec_in_bounds(visible@[i])
                        &&& sight_clear(origin, visible@[i], blocks)
                        &&& (visible@[i].y < y || (visible@[i].y == y && visible@[i].x < x))
                    },
                forall|i: int, j: int| 0 <= i < j < visible@.len() ==> row_major_lt(visible@[i], visible@[j]),
                forall|p: Pos|
                    in_square(origin, range as int, p) && map.spec_in_bounds(p) && (p.y < y || (p.y == y
                        && p.x < x)) && !visible@.contains(p) ==> sight_blocked(origin, p, blocks),
            decreases hi_x + 1 - x,
        {
            let ghost before = visible@;
            if x >= 0 && y >= 0 && x <= 32767 && y <= 32767 {
                let target = Pos { floor: origin.floor, x: x as i16, y: y as i16 };
                if map.in_bounds(target) {
                    if line_of_sight(origin, target, &blocks) {
                        visible.push(target);
                        assert forall|p: Pos|
                            in_square(origin, range as int, p) && map.spec_in_bounds(p) && (p.y < y
                                || (p.y == y && p.x < x + 1)) && !visible@.contains(p) implies sight_blocked(
                            origin,
                            p,
                            blocks,
                        ) by {
                            assert(visible@[visible@.len() - 1] == target);
                            assert(p != target);
                            if before.contains(p) {
                                let k = choose|k: int| 0 <= k < before.len() && before[k] == p;
                                assert(visible@[k] == p);
                            }
                        }
                    } else {
                        assert forall|p: Pos|
                            in_square(origin, range as int, p) && map.spec_in_bounds(p) && (p.y < y
                                || (p.y == y && p.x < x + 1)) && !visible@.contains(p) implies sight_blocked(
                            origin,
                            p,
                            blocks,
                        ) by {
                            if p == target {
                            }
                        }
                    }
                }
            }
            x = x + 1;
        }
        y = y + 1;
    }
    visible
}

/// Only positions on the map hold anything but void.
pub proof fn lemma_tile_on_map(m: GameMap, p: Pos)
    requires
        m.spec_tile(p) != TileKind::Void,
    ensures
        m.spec_in_bounds(p),
{
}

/// A stairwell step is two-way: once both ends of a link carry its stair
/// tile, stepping onto either end lands on the other, and stepping again
/// comes back.
pub proof fn law_linked_stairs_round_trip(m: GameMap, id: StairId)
    requires
        id.0 < m.spec_links().len(),
        m.spec_links()[id.0 as int].a != m.spec_links()[id.0 as int].b,
        m.spec_tile(m.spec_links()[id.0 as int].a) == TileKind::Stairs(id),
        m.spec_tile(m.spec_links()[id.0 as int].b) == TileKind::Stairs(id),
    ensures
        m.spec_step_destination(m.spec_links()[id.0 as int].a) == m.spec_links()[id.0 as int].b,
        m.spec_step_destination(m.spec_links()[id.0 as int].b) == m.spec_links()[id.0 as int].a,
        m.spec_step_destination(m.spec_step_destination(m.spec_links()[id.0 as int].a))
            == m.spec_links()[id.0 as int].a,
{
}

/// Linking stairs makes both ends walkable stair tiles that carry a mover
/// to each other.
pub proof fn law_link_stairs_connects(before: GameMap, after: GameMap, a: Pos, b: Pos, id: StairId)
    requires
        a != b,
        id.0 == before.spec_links().len(),
        after.spec_links() == before.spec_links().push(StairLink { a, b }),
        forall|p: Pos| #[trigger]
            after.spec_tile(p) == if p == a || p == b {
                TileKind::Stairs(id)
            } else {
                before.spec_tile(p)
            },
    ensures
        after.spec_step_destination(a) == b,
        after.spec_step_destination(b) == a,
{
    assert(after.spec_tile(a) == TileKind::Stairs(id));
    assert(after.spec_tile(b) == TileKind::Stairs(id));
    assert(after.spec_links()[id.0 as int] == StairLink { a, b });
}

/// A fresh copy of a tile row.
fn clone_tiles(v: &Vec<TileKind>) -> (r: Vec<TileKind>)
    ensures
        r@ == v@,
{
    let mut r: Vec<TileKind> = Vec::new();
    let mut i: usize = 0;
    while i < v.len()
        invariant
            0 <= i <= v.len(),
            r@ == v@.subrange(0, i as int),
        decreases v.len() - i,
    {
        r.push(v[i]);
        i = i + 1;
    }
    assert(v@.subrange(0, v.len() as int) == v@);
    r
}

/// Distinct in-bounds positions on one storey have distinct indices.
proof fn lemma_distinct_index(p: Pos, q: Pos, w: int)
    requires
        0 <= p.x < w,
        0 <= q.x < w,
        0 <= p.y,
        0 <= q.y,
        p.floor == q.floor,
        p != q,
    ensures
        p.y * w + p.x != q.y * w + q.x,
{
    if p.y == q.y {
        assert(p.x != q.x);
    } else if p.y < q.y {
        assert(p.y * w + p.x < q.y * w + q.x) by (nonlinear_arith)
            requires
                0 <= p.x < w,
                0 <= q.x,
                p.y < q.y,
        ;
    } else {
        assert(q.y * w + q.x < p.y * w + p.x) by (nonlinear_arith)
            requires
                0 <= q.x < w,
                0 <= p.x,
                q.y < p.y,
        ;
    }
}

/// Terrain blocks sight exactly where it cannot be stood on: given a door
/// lookup that answers each door one way, whatever `walkable` and
/// `terrain_blocks_sight` return for the same tile are opposites.
pub proof fn law_sight_is_blocked_where_not_walkable<F: Fn(DoorId) -> bool>(
    m: GameMap,
    pos: Pos,
    door_open: F,
    walkable: bool,
    blocks: bool,
)
    requires
        forall|id: DoorId, r1: bool, r2: bool|
            door_open.ensures((id,), r1) && door_open.ensures((id,), r2) ==> r1 == r2,
        match m.spec_tile(pos) {
            TileKind::Floor | TileKind::Stairs(_) => walkable,
            TileKind::Door(id) => door_open.ensures((id,), walkable),
            TileKind::Wall | TileKind::Void => !walkable,
        },
        match m.spec_tile(pos) {
            TileKind::Floor | TileKind::Stairs(_) => !blocks,
            TileKind::Door(id) => door_open.ensures((id,), !blocks),
            TileKind::Wall | TileKind::Void => blocks,
        },
    ensures
        blocks == !walkable,
{
}

} // verus!
