//! Positions, directions, and integer geometry.
//!
//! Movement and facing are four-way. All geometry is integer-only so that
//! every target computes bit-identical results.
use vstd::prelude::*;

verus! {

/// Which storey of the building a position is on.
pub type FloorId = u8;

/// Absolute value on mathematical integers.
pub open spec fn abs(v: int) -> int {
    if v < 0 {
        -v
    } else {
        v
    }
}

/// Larger of two mathematical integers.
pub open spec fn max(a: int, b: int) -> int {
    if a >= b {
        a
    } else {
        b
    }
}

/// A tile position: storey plus grid coordinates. `y` grows downward
/// (screen order), so north is `-y`.
#[derive(Clone, Copy, Debug, PartialEq, Eq, Structural, Hash, PartialOrd, Ord)]
pub struct Pos {
    pub floor: FloorId,
    pub x: i16,
    pub y: i16,
}

/// One of the four cardinal directions.
#[derive(Clone, Copy, Debug, PartialEq, Eq, Structural, Hash, PartialOrd, Ord)]
pub enum Dir4 {
    North,
    East,
    South,
    West,
}

impl Dir4 {
    /// Stable iteration order used everywhere a direction set is scanned.
    pub const ALL: [Dir4; 4] = [Dir4::North, Dir4::East, Dir4::South, Dir4::West];

    /// Horizontal component of one step in this direction.
    pub open spec fn dx(self) -> int {
        match self {
            Dir4::North => 0,
            Dir4::East => 1,
            Dir4::South => 0,
            Dir4::West => -1,
        }
    }

    /// Vertical component of one step in this direction.
    pub open spec fn dy(self) -> int {
        match self {
            Dir4::North => -1,
            Dir4::East => 0,
            Dir4::South => 1,
            Dir4::West => 0,
        }
    }

    pub open spec fn spec_opposite(self) -> Dir4 {
        match self {
            Dir4::North => Dir4::South,
            Dir4::East => Dir4::West,
            Dir4::South => Dir4::North,
            Dir4::West => Dir4::East,
        }
    }

    pub fn delta(self) -> (r: (i16, i16))
        ensures
            r.0 == self.dx(),
            r.1 == self.dy(),
    {
        match self {
            Dir4::North => (0, -1),
            Dir4::East => (1, 0),
            Dir4::South => (0, 1),
            Dir4::West => (-1, 0),
        }
    }

    pub fn opposite(self) -> (r: Dir4)
        ensures
            r == self.spec_opposite(),
            r.dx() == -self.dx(),
            r.dy() == -self.dy(),
    {
        match self {
            Dir4::North => Dir4::South,
            Dir4::East => Dir4::West,
            Dir4::South => Dir4::North,
            Dir4::West => Dir4::East,
        }
    }

    /// ASCII facing marker as shown next to NPC glyphs.
    pub fn marker(self) -> (r: char)
        ensures
            r == (match self {
                Dir4::North => '^',
                Dir4::East => '>',
                Dir4::South => 'v',
                Dir4::West => '<',
            }),
    {
        match self {
            Dir4::North => '^',
            Dir4::East => '>',
            Dir4::South => 'v',
            Dir4::West => '<',
        }
    }

    /// Direction that best approximates the vector from `from` to `to`
    /// (same floor). Ties prefer the horizontal axis, deterministically.
    pub fn towards(from: Pos, to: Pos) -> (r: Option<Dir4>)
        ensures
            r == spec_towards(from, to),
    {
        if from.floor != to.floor || from == to {
            return None;
        }
        let dx: i32 = to.x as i32 - from.x as i32;
        let dy: i32 = to.y as i32 - from.y as i32;
        let adx: i32 = if dx < 0 {
            -dx
        } else {
            dx
        };
        let ady: i32 = if dy < 0 {
            -dy
        } else {
            dy
        };
        if adx >= ady {
            Some(
                if dx > 0 {
                    Dir4::East
                } else {
                    Dir4::West
                },
            )
        } else {
            Some(
                if dy > 0 {
                    Dir4::South
                } else {
                    Dir4::North
                },
            )
        }
    }
}

/// The direction [`Dir4::towards`] picks.
pub open spec fn spec_towards(from: Pos, to: Pos) -> Option<Dir4> {
    if from.floor != to.floor || from == to {
        None
    } else {
        let dx = to.x - from.x;
        let dy = to.y - from.y;
        if abs(dx) >= abs(dy) {
            Some(
                if dx > 0 {
                    Dir4::East
                } else {
                    Dir4::West
                },
            )
        } else {
            Some(
                if dy > 0 {
                    Dir4::South
                } else {
                    Dir4::North
                },
            )
        }
    }
}

impl Pos {
    /// True when the step in `dir` stays inside the coordinate range.
    pub open spec fn can_step(self, dir: Dir4) -> bool {
        i16::MIN <= self.x + dir.dx() <= i16::MAX && i16::MIN <= self.y + dir.dy() <= i16::MAX
    }

    /// The neighbour one step in `dir`, as mathematical coordinates.
    pub open spec fn spec_step(self, dir: Dir4) -> Pos
        recommends
            self.can_step(dir),
    {
        Pos { floor: self.floor, x: (self.x + dir.dx()) as i16, y: (self.y + dir.dy()) as i16 }
    }

    /// Exactly one orthogonal step apart on one floor.
    pub open spec fn spec_adjacent(self, other: Pos) -> bool {
        self.floor == other.floor && abs(self.x - other.x) + abs(self.y - other.y) == 1
    }

    /// Chebyshev distance ignoring the floor.
    pub open spec fn spec_chebyshev(self, other: Pos) -> int {
        max(abs(self.x - other.x), abs(self.y - other.y))
    }

    pub fn new(floor: FloorId, x: i16, y: i16) -> (r: Self)
        ensures
            r == (Pos { floor, x, y }),
    {
        Self { floor, x, y }
    }

    /// The neighbouring position one step in `dir` on the same floor.
    pub fn step(self, dir: Dir4) -> (r: Self)
        requires
            self.can_step(dir),
        ensures
            r == self.spec_step(dir),
            r.floor == self.floor,
            r.x == self.x + dir.dx(),
            r.y == self.y + dir.dy(),
    {
        let (dx, dy) = dir.delta();
        Self { floor: self.floor, x: self.x + dx, y: self.y + dy }
    }

    /// Chebyshev distance on the same floor; `None` across floors.
    pub fn chebyshev(self, other: Pos) -> (r: Option<i16>)
        requires
            self.spec_chebyshev(other) <= i16::MAX,
        ensures
            self.floor != other.floor ==> r.is_none(),
            self.floor == other.floor ==> r == Some(self.spec_chebyshev(other) as i16),
    {
        if self.floor != other.floor {
            return None;
        }
        let dx: i32 = self.x as i32 - other.x as i32;
        let dy: i32 = self.y as i32 - other.y as i32;
        let adx: i32 = if dx < 0 {
            -dx
        } else {
            dx
        };
        let ady: i32 = if dy < 0 {
            -dy
        } else {
            dy
        };
        let m: i32 = if adx >= ady {
            adx
        } else {
            ady
        };
        Some(m as i16)
    }

    /// True when `other` is exactly one orthogonal step away on this floor.
    pub fn is_adjacent(self, other: Pos) -> (r: bool)
        ensures
            r == self.spec_adjacent(other),
    {
        let dx: i32 = self.x as i32 - other.x as i32;
        let dy: i32 = self.y as i32 - other.y as i32;
        let adx: i32 = if dx < 0 {
            -dx
        } else {
            dx
        };
        let ady: i32 = if dy < 0 {
            -dy
        } else {
            dy
        };
        self.floor == other.floor && adx + ady == 1
    }

    /// The direction from `self` towards an orthogonally adjacent `other`.
    pub fn dir_towards_adjacent(self, other: Pos) -> (r: Option<Dir4>)
        ensures
            r.is_none() <==> !self.spec_adjacent(other),
            r matches Some(d) ==> self.can_step(d) && self.spec_step(d) == other,
    {
        if !self.is_adjacent(other) {
            return None;
        }
        let all = Dir4::ALL;
        let mut i: usize = 0;
        while i < 4
            invariant
                0 <= i <= 4,
                all@ == seq![Dir4::North, Dir4::East, Dir4::South, Dir4::West],
                self.spec_adjacent(other),
                forall|j: int|
                    0 <= j < i ==> !(other.x == self.x + (#[trigger] all@[j]).dx() && other.y
                        == self.y + all@[j].dy()),
            decreases 4 - i,
        {
            let dir = all[i];
            let dx: i32 = other.x as i32 - self.x as i32;
            let dy: i32 = other.y as i32 - self.y as i32;
            let (sx, sy) = dir.delta();
            if dx == sx as i32 && dy == sy as i32 {
                return Some(dir);
            }
            i = i + 1;
        }
        assert(!(other.x == self.x + all@[0].dx() && other.y == self.y + all@[0].dy()));
        assert(!(other.x == self.x + all@[1].dx() && other.y == self.y + all@[1].dy()));
        assert(!(other.x == self.x + all@[2].dx() && other.y == self.y + all@[2].dy()));
        assert(!(other.x == self.x + all@[3].dx() && other.y == self.y + all@[3].dy()));
        None
    }
}

/// Whether `target` lies in the cone of an observer at `origin` facing
/// `facing`, for the cone ratio `cone_num / cone_den`.
pub open spec fn spec_in_cone(origin: Pos, facing: Dir4, target: Pos, cone_num: int, cone_den: int) -> bool {
    if origin.floor != target.floor {
        false
    } else if origin == target {
        true
    } else {
        let dx = target.x - origin.x;
        let dy = target.y - origin.y;
        let along = dx * facing.dx() + dy * facing.dy();
        let perp = abs(dx * facing.dy() - dy * facing.dx());
        along > 0 && perp * cone_den <= along * cone_num
    }
}

/// True when `target` lies inside the vision cone of an observer at
/// `origin` facing `facing`.
///
/// With `along` the component of the offset in the facing direction and
/// `perp` the sideways component, a tile is inside the cone when
/// `along > 0` and `perp * cone_den <= along * cone_num`. The observer's
/// own tile is always inside.
pub fn in_cone(origin: Pos, facing: Dir4, target: Pos, cone_num: i32, cone_den: i32) -> (r: bool)
    ensures
        r == spec_in_cone(origin, facing, target, cone_num as int, cone_den as int),
{
    if origin.floor != target.floor {
        return false;
    }
    if origin == target {
        return true;
    }
    let dx: i64 = target.x as i64 - origin.x as i64;
    let dy: i64 = target.y as i64 - origin.y as i64;
    let (fx, fy) = facing.delta();
    let fx: i64 = fx as i64;
    let fy: i64 = fy as i64;
    assert(-1 <= fx <= 1 && -1 <= fy <= 1);
    assert(-65536 <= dx * fx <= 65536) by (nonlinear_arith)
        requires
            -65536 <= dx <= 65536,
            -1 <= fx <= 1,
    ;
    assert(-65536 <= dy * fy <= 65536) by (nonlinear_arith)
        requires
            -65536 <= dy <= 65536,
            -1 <= fy <= 1,
    ;
    assert(-65536 <= dx * fy <= 65536) by (nonlinear_arith)
        requires
            -65536 <= dx <= 65536,
            -1 <= fy <= 1,
    ;
    assert(-65536 <= dy * fx <= 65536) by (nonlinear_arith)
        requires
            -65536 <= dy <= 65536,
            -1 <= fx <= 1,
    ;
    let along: i64 = dx * fx + dy * fy;
    let cross: i64 = dx * fy - dy * fx;
    let perp: i64 = if cross < 0 {
        -cross
    } else {
        cross
    };
    let num: i64 = cone_num as i64;
    let den: i64 = cone_den as i64;
    assert(-0x1_0000_0000_0000 <= perp * den <= 0x1_0000_0000_0000) by (nonlinear_arith)
        requires
            0 <= perp <= 131072,
            -0x8000_0000 <= den <= 0x8000_0000,
    ;
    assert(-0x1_0000_0000_0000 <= along * num <= 0x1_0000_0000_0000) by (nonlinear_arith)
        requires
            -131072 <= along <= 131072,
            -0x8000_0000 <= num <= 0x8000_0000,
    ;
    along > 0 && perp * den <= along * num
}

/// Sign of a coordinate delta as the walk uses it: positive steps `+1`,
/// everything else `-1`.
pub open spec fn walk_sign(d: int) -> int {
    if d > 0 {
        1
    } else {
        -1
    }
}

/// The walk's tie-break value at progress `(ix, iy)`: it compares
/// `(0.5 + ix) / nx` with `(0.5 + iy) / ny` without fractions.
pub open spec fn walk_decision(ix: int, iy: int, nx: int, ny: int) -> int {
    (1 + 2 * ix) * ny - (1 + 2 * iy) * nx
}

/// The position reached after `ix` horizontal and `iy` vertical steps
/// of the walk from `a` towards `b`.
pub open spec fn walk_at(a: Pos, b: Pos, ix: int, iy: int) -> Pos {
    Pos {
        floor: a.floor,
        x: (a.x + walk_sign(b.x - a.x) * ix) as i16,
        y: (a.y + walk_sign(b.y - a.y) * iy) as i16,
    }
}

/// `p` as a one-element sequence unless it is the far endpoint `b`.
pub open spec fn unless_end(p: Pos, b: Pos) -> Seq<Pos> {
    if p == b {
        Seq::empty()
    } else {
        seq![p]
    }
}

/// The supercover points still to be emitted from progress `(ix, iy)`.
///
/// At each step the ray crosses either a vertical grid line (horizontal
/// step), a horizontal one (vertical step), or exactly a grid corner; at a
/// corner both flanking tiles are included before the diagonal step. The
/// far endpoint itself is never included.
pub open spec fn walk_from(a: Pos, b: Pos, ix: int, iy: int) -> Seq<Pos>
    decreases (abs(b.x - a.x) - ix) + (abs(b.y - a.y) - iy),
{
    let nx = abs(b.x - a.x);
    let ny = abs(b.y - a.y);
    if ix < 0 || iy < 0 || ix > nx || iy > ny || (ix == nx && iy == ny) {
        Seq::empty()
    } else {
        let p = walk_at(a, b, ix, iy);
        let sx = walk_sign(b.x - a.x);
        let sy = walk_sign(b.y - a.y);
        let d = walk_decision(ix, iy, nx, ny);
        if d == 0 {
            if ix < nx && iy < ny {
                seq![
                    Pos { floor: a.floor, x: (p.x + sx) as i16, y: p.y },
                    Pos { floor: a.floor, x: p.x, y: (p.y + sy) as i16 },
                ] + unless_end(walk_at(a, b, ix + 1, iy + 1), b) + walk_from(a, b, ix + 1, iy + 1)
            } else {
                Seq::empty()
            }
        } else if d < 0 {
            if ix < nx {
                unless_end(walk_at(a, b, ix + 1, iy), b) + walk_from(a, b, ix + 1, iy)
            } else {
                Seq::empty()
            }
        } else {
            if iy < ny {
                unless_end(walk_at(a, b, ix, iy + 1), b) + walk_from(a, b, ix, iy + 1)
            } else {
                Seq::empty()
            }
        }
    }
}

/// Every tile the straight segment from `a` to `b` passes through,
/// endpoints excluded, in walking order.
pub open spec fn spec_supercover(a: Pos, b: Pos) -> Seq<Pos> {
    walk_from(a, b, 0, 0)
}

/// In the walk, the decision is never zero with one axis exhausted, and
/// an exhausted axis always yields the step along the other axis.
proof fn lemma_walk_decision(ix: int, iy: int, nx: int, ny: int)
    requires
        0 <= ix <= nx,
        0 <= iy <= ny,
        !(ix == nx && iy == ny),
    ensures
        walk_decision(ix, iy, nx, ny) == 0 ==> ix < nx && iy < ny,
        walk_decision(ix, iy, nx, ny) < 0 ==> ix < nx,
        walk_decision(ix, iy, nx, ny) > 0 ==> iy < ny,
{
    if ix == nx {
        assert((1 + 2 * ix) * ny - (1 + 2 * iy) * nx > 0) by (nonlinear_arith)
            requires
                ix == nx,
                0 <= iy < ny,
                0 <= nx,
        ;
    }
    if iy == ny {
        assert((1 + 2 * ix) * ny - (1 + 2 * iy) * nx < 0) by (nonlinear_arith)
            requires
                iy == ny,
                0 <= ix < nx,
                0 <= ny,
        ;
    }
}

/// All integer points on the open segment between `a` and `b` (exclusive of
/// both endpoints), in order from `a` to `b`, using a deterministic
/// supercover walk: every tile the ray passes through is included, so
/// diagonal rays cannot slip between two blocking corners.
pub fn supercover_between(a: Pos, b: Pos) -> (points: Vec<Pos>)
    requires
        a.floor == b.floor,
    ensures
        points@ == spec_supercover(a, b),
{
    let mut points: Vec<Pos> = Vec::new();
    let dx: i32 = b.x as i32 - a.x as i32;
    let dy: i32 = b.y as i32 - a.y as i32;
    let nx: i32 = if dx < 0 {
        -dx
    } else {
        dx
    };
    let ny: i32 = if dy < 0 {
        -dy
    } else {
        dy
    };
    let sign_x: i16 = if dx > 0 {
        1
    } else {
        -1
    };
    let sign_y: i16 = if dy > 0 {
        1
    } else {
        -1
    };
    let ghost gnx = abs(b.x - a.x);
    let ghost gny = abs(b.y - a.y);
    let mut p = a;
    let mut ix: i32 = 0;
    let mut iy: i32 = 0;
    assert(walk_at(a, b, 0, 0) == a);
    while ix < nx || iy < ny
        invariant
            nx == gnx,
            ny == gny,
            gnx == abs(b.x - a.x),
            gny == abs(b.y - a.y),
            0 <= ix <= nx,
            0 <= iy <= ny,
            nx <= 65535,
            ny <= 65535,
            sign_x == walk_sign(b.x - a.x),
            sign_y == walk_sign(b.y - a.y),
            a.floor == b.floor,
            p == walk_at(a, b, ix as int, iy as int),
            points@ + walk_from(a, b, ix as int, iy as int) == spec_supercover(a, b),
        decreases (nx - ix) + (ny - iy),
    {
        let ghost old_points = points@;
        let ghost gix = ix as int;
        let ghost giy = iy as int;
        proof {
            lemma_walk_decision(gix, giy, gnx, gny);
        }
        let wide_ix: i64 = ix as i64;
        let wide_iy: i64 = iy as i64;
        let wide_nx: i64 = nx as i64;
        let wide_ny: i64 = ny as i64;
        assert(0 <= (1 + 2 * wide_ix) * wide_ny <= 0x3_0000_0000) by (nonlinear_arith)
            requires
                0 <= wide_ix <= 65535,
                0 <= wide_ny <= 65535,
        ;
        assert(0 <= (1 + 2 * wide_iy) * wide_nx <= 0x3_0000_0000) by (nonlinear_arith)
            requires
                0 <= wide_iy <= 65535,
                0 <= wide_nx <= 65535,
        ;
        let decision: i64 = (1 + 2 * wide_ix) * wide_ny - (1 + 2 * wide_iy) * wide_nx;
        assert(decision == walk_decision(gix, giy, gnx, gny));
        // Coordinates stay between the endpoints, so every step fits.
        assert(sign_x == 1 ==> a.x + gix <= b.x);
        assert(sign_x == -1 ==> a.x - gix >= b.x);
        assert(sign_y == 1 ==> a.y + giy <= b.y);
        assert(sign_y == -1 ==> a.y - giy >= b.y);
        if decision == 0 {
            let f1 = Pos { floor: p.floor, x: p.x + sign_x, y: p.y };
            let f2 = Pos { floor: p.floor, x: p.x, y: p.y + sign_y };
            points.push(f1);
            points.push(f2);
            p = Pos { floor: p.floor, x: p.x + sign_x, y: p.y + sign_y };
            ix = ix + 1;
            iy = iy + 1;
            assert(p == walk_at(a, b, ix as int, iy as int));
            if p != b {
                points.push(p);
            }
            assert(walk_from(a, b, gix, giy) == seq![f1, f2] + unless_end(p, b) + walk_from(
                a,
                b,
                ix as int,
                iy as int,
            ));
            assert(points@ == old_points + seq![f1, f2] + unless_end(p, b));
        } else if decision < 0 {
            p = Pos { floor: p.floor, x: p.x + sign_x, y: p.y };
            ix = ix + 1;
            assert(p == walk_at(a, b, ix as int, iy as int));
            if p != b {
                points.push(p);
            }
            assert(walk_from(a, b, gix, giy) == unless_end(p, b) + walk_from(
                a,
                b,
                ix as int,
                iy as int,
            ));
            assert(points@ == old_points + unless_end(p, b));
        } else {
            p = Pos { floor: p.floor, x: p.x, y: p.y + sign_y };
            iy = iy + 1;
            assert(p == walk_at(a, b, ix as int, iy as int));
            if p != b {
                points.push(p);
            }
            assert(walk_from(a, b, gix, giy) == unless_end(p, b) + walk_from(
                a,
                b,
                ix as int,
                iy as int,
            ));
            assert(points@ == old_points + unless_end(p, b));
        }
    }
    assert(walk_from(a, b, ix as int, iy as int) == Seq::<Pos>::empty());
    assert(points@ + Seq::<Pos>::empty() == points@);
    points
}

// ---------------------------------------------------------------------
// Laws
// ---------------------------------------------------------------------

/// Turning around twice faces the way it started.
pub proof fn law_opposite_is_an_involution(d: Dir4)
    ensures
        d.spec_opposite().spec_opposite() == d,
        d.spec_opposite() != d,
{
}

/// Stepping one way and then the opposite way returns to the start.
pub proof fn law_step_then_opposite_returns(p: Pos, d: Dir4)
    requires
        p.can_step(d),
    ensures
        p.spec_step(d).can_step(d.spec_opposite()),
        p.spec_step(d).spec_step(d.spec_opposite()) == p,
{
}

/// A single step always lands on an adjacent tile, and adjacency is
/// exactly one step in some direction.
pub proof fn law_step_is_adjacent(p: Pos, d: Dir4)
    requires
        p.can_step(d),
    ensures
        p.spec_adjacent(p.spec_step(d)),
        p.spec_step(d).spec_adjacent(p),
{
}

/// The observer's own tile is in its cone, and no tile level with or
/// behind the observer ever is (for a positive cone ratio).
pub proof fn law_cone_excludes_behind(origin: Pos, facing: Dir4, target: Pos, num: int, den: int)
    requires
        origin != target,
        origin.floor == target.floor,
        (target.x - origin.x) * facing.dx() + (target.y - origin.y) * facing.dy() <= 0,
    ensures
        !spec_in_cone(origin, facing, target, num, den),
        spec_in_cone(origin, facing, origin, num, den),
{
}

/// The cone, facing each way in turn: a tile other than the observer's is
/// seen when it lies ahead along the facing and its distance across the
/// facing, scaled by `den`, is at most its distance ahead scaled by `num`.
/// The rule is the same for every facing, turned with it.
pub proof fn law_cone_turns_with_the_facing(origin: Pos, target: Pos, num: int, den: int)
    requires
        origin.floor == target.floor,
        origin != target,
    ensures
        spec_in_cone(origin, Dir4::North, target, num, den) == (origin.y - target.y > 0 && abs(target.x - origin.x)
            * den <= (origin.y - target.y) * num),
        spec_in_cone(origin, Dir4::South, target, num, den) == (target.y - origin.y > 0 && abs(target.x - origin.x)
            * den <= (target.y - origin.y) * num),
        spec_in_cone(origin, Dir4::East, target, num, den) == (target.x - origin.x > 0 && abs(target.y - origin.y)
            * den <= (target.x - origin.x) * num),
        spec_in_cone(origin, Dir4::West, target, num, den) == (origin.x - target.x > 0 && abs(target.y - origin.y)
            * den <= (origin.x - target.x) * num),
{
    let dx = target.x - origin.x;
    let dy = target.y - origin.y;
    assert(abs(dx * -1 - dy * 0) == abs(dx)) by (nonlinear_arith);
    assert(abs(dx * 1 - dy * 0) == abs(dx)) by (nonlinear_arith);
    assert(abs(dx * 0 - dy * 1) == abs(dy)) by (nonlinear_arith);
    assert(abs(dx * 0 - dy * -1) == abs(dy)) by (nonlinear_arith);
}

/// Nobody sees across floors, and everybody sees their own tile.
pub proof fn law_cone_stays_on_its_floor(origin: Pos, facing: Dir4, target: Pos, num: int, den: int)
    ensures
        origin.floor != target.floor ==> !spec_in_cone(origin, facing, target, num, den),
        spec_in_cone(origin, facing, origin, num, den),
{
}

/// Whether `q` lies in the box spanned by `a` and `b`, on their floor.
pub open spec fn in_span(a: Pos, b: Pos, q: Pos) -> bool {
    &&& q.floor == a.floor
    &&& (a.x <= q.x <= b.x || b.x <= q.x <= a.x)
    &&& (a.y <= q.y <= b.y || b.y <= q.y <= a.y)
}

/// The point `u` steps across and `v` steps along from `a` towards `b`
/// lies in their box, and is an endpoint only at the walk's two ends.
proof fn lemma_walk_at(a: Pos, b: Pos, u: int, v: int)
    requires
        0 <= u <= abs(b.x - a.x),
        0 <= v <= abs(b.y - a.y),
    ensures
        walk_at(a, b, u, v).x as int == a.x + walk_sign(b.x - a.x) * u,
        walk_at(a, b, u, v).y as int == a.y + walk_sign(b.y - a.y) * v,
        in_span(a, b, walk_at(a, b, u, v)),
        (walk_at(a, b, u, v) == a) == (u == 0 && v == 0),
        a.floor == b.floor ==> ((walk_at(a, b, u, v) == b) == (u == abs(b.x - a.x) && v == abs(b.y - a.y))),
{
}

/// Every point a walk emits from progress `(ix, iy)` on is the point of a
/// later progress, short of the far end.
proof fn lemma_walk_points(a: Pos, b: Pos, ix: int, iy: int)
    requires
        a.floor == b.floor,
        0 <= ix <= abs(b.x - a.x),
        0 <= iy <= abs(b.y - a.y),
    ensures
        forall|k: int|
            #![trigger walk_from(a, b, ix, iy)[k]]
            0 <= k < walk_from(a, b, ix, iy).len() ==> exists|u: int, v: int|
                ix <= u <= abs(b.x - a.x) && iy <= v <= abs(b.y - a.y) && !(u == ix && v == iy) && !(u == abs(
                    b.x - a.x,
                ) && v == abs(b.y - a.y)) && #[trigger] walk_at(a, b, u, v) == walk_from(a, b, ix, iy)[k],
    decreases (abs(b.x - a.x) - ix) + (abs(b.y - a.y) - iy),
{
    let nx = abs(b.x - a.x);
    let ny = abs(b.y - a.y);
    let s = walk_from(a, b, ix, iy);
    if ix == nx && iy == ny {
        return;
    }
    lemma_walk_decision(ix, iy, nx, ny);
    let d = walk_decision(ix, iy, nx, ny);
    let p = walk_at(a, b, ix, iy);
    lemma_walk_at(a, b, ix, iy);
    if d == 0 {
        let rest = walk_from(a, b, ix + 1, iy + 1);
        lemma_walk_points(a, b, ix + 1, iy + 1);
        lemma_walk_at(a, b, ix + 1, iy);
        lemma_walk_at(a, b, ix, iy + 1);
        lemma_walk_at(a, b, ix + 1, iy + 1);
        let f1 = Pos { floor: a.floor, x: (p.x + walk_sign(b.x - a.x)) as i16, y: p.y };
        let f2 = Pos { floor: a.floor, x: p.x, y: (p.y + walk_sign(b.y - a.y)) as i16 };
        assert(f1 == walk_at(a, b, ix + 1, iy));
        assert(f2 == walk_at(a, b, ix, iy + 1));
        let mid = unless_end(walk_at(a, b, ix + 1, iy + 1), b);
        assert(s == seq![f1, f2] + mid + rest);
        assert forall|k: int| #![trigger s[k]] 0 <= k < s.len() implies exists|u: int, v: int|
            ix <= u <= nx && iy <= v <= ny && !(u == ix && v == iy) && !(u == nx && v == ny) && #[trigger] walk_at(
                a,
                b,
                u,
                v,
            ) == s[k] by {
            if k == 0 {
                assert(walk_at(a, b, ix + 1, iy) == s[k]);
            } else if k == 1 {
                assert(walk_at(a, b, ix, iy + 1) == s[k]);
            } else if k < 2 + mid.len() {
                assert(walk_at(a, b, ix + 1, iy + 1) == s[k]);
            } else {
                let k2 = k - 2 - mid.len();
                assert(s[k] == rest[k2]);
                let (u, v) = choose|u: int, v: int|
                    ix + 1 <= u <= nx && iy + 1 <= v <= ny && !(u == ix + 1 && v == iy + 1) && !(u == nx && v
                        == ny) && #[trigger] walk_at(a, b, u, v) == rest[k2];
                assert(walk_at(a, b, u, v) == s[k]);
            }
        }
    } else if d < 0 {
        let rest = walk_from(a, b, ix + 1, iy);
        lemma_walk_points(a, b, ix + 1, iy);
        lemma_walk_at(a, b, ix + 1, iy);
        let mid = unless_end(walk_at(a, b, ix + 1, iy), b);
        assert(s == mid + rest);
        assert forall|k: int| #![trigger s[k]] 0 <= k < s.len() implies exists|u: int, v: int|
            ix <= u <= nx && iy <= v <= ny && !(u == ix && v == iy) && !(u == nx && v == ny) && #[trigger] walk_at(
                a,
                b,
                u,
                v,
            ) == s[k] by {
            if k < mid.len() {
                assert(walk_at(a, b, ix + 1, iy) == s[k]);
            } else {
                let k2 = k - mid.len();
                assert(s[k] == rest[k2]);
                let (u, v) = choose|u: int, v: int|
                    ix + 1 <= u <= nx && iy <= v <= ny && !(u == ix + 1 && v == iy) && !(u == nx && v == ny)
                        && #[trigger] walk_at(a, b, u, v) == rest[k2];
                assert(walk_at(a, b, u, v) == s[k]);
            }
        }
    } else {
        let rest = walk_from(a, b, ix, iy + 1);
        lemma_walk_points(a, b, ix, iy + 1);
        lemma_walk_at(a, b, ix, iy + 1);
        let mid = unless_end(walk_at(a, b, ix, iy + 1), b);
        assert(s == mid + rest);
        assert forall|k: int| #![trigger s[k]] 0 <= k < s.len() implies exists|u: int, v: int|
            ix <= u <= nx && iy <= v <= ny && !(u == ix && v == iy) && !(u == nx && v == ny) && #[trigger] walk_at(
                a,
                b,
                u,
                v,
            ) == s[k] by {
            if k < mid.len() {
                assert(walk_at(a, b, ix, iy + 1) == s[k]);
            } else {
                let k2 = k - mid.len();
                assert(s[k] == rest[k2]);
                let (u, v) = choose|u: int, v: int|
                    ix <= u <= nx && iy + 1 <= v <= ny && !(u == ix && v == iy + 1) && !(u == nx && v == ny)
                        && #[trigger] walk_at(a, b, u, v) == rest[k2];
                assert(walk_at(a, b, u, v) == s[k]);
            }
        }
    }
}

/// The supercover between two tiles of one floor never holds either
/// endpoint, stays on their floor inside the box they span, and is empty
/// between a tile and itself or a neighbour.
pub proof fn law_supercover_stays_between(a: Pos, b: Pos)
    requires
        a.floor == b.floor,
    ensures
        !spec_supercover(a, b).contains(a),
        !spec_supercover(a, b).contains(b),
        forall|k: int| 0 <= k < spec_supercover(a, b).len() ==> in_span(a, b, #[trigger] spec_supercover(a, b)[k]),
        a == b || a.spec_adjacent(b) ==> spec_supercover(a, b).len() == 0,
{
    let s = spec_supercover(a, b);
    lemma_walk_points(a, b, 0, 0);
    assert forall|k: int| 0 <= k < s.len() implies in_span(a, b, #[trigger] s[k]) && s[k] != a && s[k] != b by {
        let (u, v) = choose|u: int, v: int|
            0 <= u <= abs(b.x - a.x) && 0 <= v <= abs(b.y - a.y) && !(u == 0 && v == 0) && !(u == abs(b.x - a.x)
                && v == abs(b.y - a.y)) && #[trigger] walk_at(a, b, u, v) == s[k];
        lemma_walk_at(a, b, u, v);
    }
    if a == b || a.spec_adjacent(b) {
        reveal_with_fuel(walk_from, 2);
        let nx = abs(b.x - a.x);
        let ny = abs(b.y - a.y);
        if !(nx == 0 && ny == 0) {
            lemma_walk_at(a, b, nx, ny);
            assert(walk_decision(0, 0, nx, ny) == ny - nx) by (nonlinear_arith)
                requires
                    nx >= 0,
                    ny >= 0,
            ;
        }
    }
}

/// Twice how far tile `(u, v)`, in steps from the start, sits off the
/// straight line from `(0, 0)` to `(nx, ny)`, in units of the line's
/// run: the line meets the tile exactly when this is at most `nx + ny`
/// either way.
pub open spec fn offset_from_line(nx: int, ny: int, u: int, v: int) -> int {
    2 * (v * nx - u * ny)
}

/// Whether the walk, standing at progress `(ix, iy)`, has tile `(u, v)`
/// still ahead: a tile the line meets, no earlier along either axis, and
/// neither where it stands nor the far end.
pub open spec fn ahead_on_line(nx: int, ny: int, ix: int, iy: int, u: int, v: int) -> bool {
    &&& ix <= u <= nx
    &&& iy <= v <= ny
    &&& !(u == ix && v == iy)
    &&& !(u == nx && v == ny)
    &&& -(nx + ny) <= offset_from_line(nx, ny, u, v) <= nx + ny
}

proof fn lemma_contains_concat(s1: Seq<Pos>, s2: Seq<Pos>, q: Pos)
    ensures
        (s1 + s2).contains(q) == (s1.contains(q) || s2.contains(q)),
{
    let s = s1 + s2;
    if s.contains(q) {
        let k = choose|k: int| 0 <= k < s.len() && s[k] == q;
        if k < s1.len() {
            assert(s1[k] == q);
        } else {
            assert(s2[k - s1.len()] == q);
        }
    }
    if s1.contains(q) {
        let k = choose|k: int| 0 <= k < s1.len() && s1[k] == q;
        assert(s[k] == q);
    }
    if s2.contains(q) {
        let k = choose|k: int| 0 <= k < s2.len() && s2[k] == q;
        assert(s[k + s1.len()] == q);
    }
}

/// From progress `(ix, iy)` on the line, the walk emits exactly the points
/// of the tiles still ahead on the line.
#[verifier::spinoff_prover]
#[verifier::rlimit(60)]
proof fn lemma_walk_exact(a: Pos, b: Pos, ix: int, iy: int)
    requires
        a.floor == b.floor,
        0 <= ix <= abs(b.x - a.x),
        0 <= iy <= abs(b.y - a.y),
        -(abs(b.x - a.x) + abs(b.y - a.y)) <= offset_from_line(abs(b.x - a.x), abs(b.y - a.y), ix, iy) <= abs(
            b.x - a.x,
        ) + abs(b.y - a.y),
    ensures
        forall|q: Pos|
            walk_from(a, b, ix, iy).contains(q) <==> exists|u: int, v: int|
                ahead_on_line(abs(b.x - a.x), abs(b.y - a.y), ix, iy, u, v) && #[trigger] walk_at(a, b, u, v) == q,
    decreases (abs(b.x - a.x) - ix) + (abs(b.y - a.y) - iy),
{
    let nx = abs(b.x - a.x);
    let ny = abs(b.y - a.y);
    let s = walk_from(a, b, ix, iy);
    let e = offset_from_line(nx, ny, ix, iy);
    if ix == nx && iy == ny {
        assert forall|q: Pos|
            s.contains(q) <==> exists|u: int, v: int| ahead_on_line(nx, ny, ix, iy, u, v) && #[trigger] walk_at(a, b, u, v) == q by {}
        return;
    }
    lemma_walk_decision(ix, iy, nx, ny);
    let d = walk_decision(ix, iy, nx, ny);
    assert(d == ny - nx - e) by (nonlinear_arith)
        requires
            d == (1 + 2 * ix) * ny - (1 + 2 * iy) * nx,
            e == 2 * (iy * nx - ix * ny),
    ;
    let p = walk_at(a, b, ix, iy);
    lemma_walk_at(a, b, ix, iy);
    assert(offset_from_line(nx, ny, ix + 1, iy) == e - 2 * ny) by (nonlinear_arith)
        requires
            e == 2 * (iy * nx - ix * ny),
    ;
    assert(offset_from_line(nx, ny, ix, iy + 1) == e + 2 * nx) by (nonlinear_arith)
        requires
            e == 2 * (iy * nx - ix * ny),
    ;
    assert(offset_from_line(nx, ny, ix + 1, iy + 1) == e + 2 * nx - 2 * ny) by (nonlinear_arith)
        requires
            e == 2 * (iy * nx - ix * ny),
    ;
    // Tiles in the column or row left behind are off the line.
    assert forall|v: int| iy < v implies #[trigger] offset_from_line(nx, ny, ix, v) >= e + 2 * nx by {
        assert(offset_from_line(nx, ny, ix, v) >= e + 2 * nx) by (nonlinear_arith)
            requires
                iy < v,
                nx >= 0,
                e == 2 * (iy * nx - ix * ny),
        ;
    }
    assert forall|u: int| ix < u implies #[trigger] offset_from_line(nx, ny, u, iy) <= e - 2 * ny by {
        assert(offset_from_line(nx, ny, u, iy) <= e - 2 * ny) by (nonlinear_arith)
            requires
                ix < u,
                ny >= 0,
                e == 2 * (iy * nx - ix * ny),
        ;
    }
    assert forall|v: int| iy + 1 < v implies #[trigger] offset_from_line(nx, ny, ix, v) >= e + 4 * nx by {
        assert(offset_from_line(nx, ny, ix, v) >= e + 4 * nx) by (nonlinear_arith)
            requires
                iy + 1 < v,
                nx >= 0,
                e == 2 * (iy * nx - ix * ny),
        ;
    }
    assert forall|u: int| ix + 1 < u implies #[trigger] offset_from_line(nx, ny, u, iy) <= e - 4 * ny by {
        assert(offset_from_line(nx, ny, u, iy) <= e - 4 * ny) by (nonlinear_arith)
            requires
                ix + 1 < u,
                ny >= 0,
                e == 2 * (iy * nx - ix * ny),
        ;
    }
    if d == 0 {
        let rest = walk_from(a, b, ix + 1, iy + 1);
        lemma_walk_exact(a, b, ix + 1, iy + 1);
        lemma_walk_at(a, b, ix + 1, iy);
        lemma_walk_at(a, b, ix, iy + 1);
        lemma_walk_at(a, b, ix + 1, iy + 1);
        let f1 = Pos { floor: a.floor, x: (p.x + walk_sign(b.x - a.x)) as i16, y: p.y };
        let f2 = Pos { floor: a.floor, x: p.x, y: (p.y + walk_sign(b.y - a.y)) as i16 };
        assert(f1 == walk_at(a, b, ix + 1, iy));
        assert(f2 == walk_at(a, b, ix, iy + 1));
        let mid = unless_end(walk_at(a, b, ix + 1, iy + 1), b);
        let head = seq![f1, f2] + mid;
        assert(s == head + rest);
        assert forall|q: Pos|
            s.contains(q) <==> exists|u: int, v: int| ahead_on_line(nx, ny, ix, iy, u, v) && #[trigger] walk_at(a, b, u, v) == q by {
            lemma_contains_concat(head, rest, q);
            lemma_contains_concat(seq![f1, f2], mid, q);
            if s.contains(q) {
                if q == f1 {
                    assert(ahead_on_line(nx, ny, ix, iy, ix + 1, iy) && walk_at(a, b, ix + 1, iy) == q);
                } else if q == f2 {
                    assert(ahead_on_line(nx, ny, ix, iy, ix, iy + 1) && walk_at(a, b, ix, iy + 1) == q);
                } else if mid.contains(q) {
                    assert(ahead_on_line(nx, ny, ix, iy, ix + 1, iy + 1) && walk_at(a, b, ix + 1, iy + 1) == q);
                } else {
                    assert(seq![f1, f2].contains(q) ==> q == f1 || q == f2);
                    assert(rest.contains(q));
                    let (u, v) = choose|u: int, v: int|
                        ahead_on_line(nx, ny, ix + 1, iy + 1, u, v) && #[trigger] walk_at(a, b, u, v) == q;
                    assert(ahead_on_line(nx, ny, ix, iy, u, v));
                }
            }
            if exists|u: int, v: int| ahead_on_line(nx, ny, ix, iy, u, v) && #[trigger] walk_at(a, b, u, v) == q {
                let (u, v) = choose|u: int, v: int|
                    ahead_on_line(nx, ny, ix, iy, u, v) && #[trigger] walk_at(a, b, u, v) == q;
                if u == ix + 1 && v == iy {
                    assert(seq![f1, f2][0] == q);
                } else if u == ix && v == iy + 1 {
                    assert(seq![f1, f2][1] == q);
                } else if u == ix + 1 && v == iy + 1 {
                    assert(mid[0] == q);
                } else {
                    if u == ix {
                        assert(offset_from_line(nx, ny, ix, v) >= e + 4 * nx);
                    }
                    if v == iy {
                        assert(offset_from_line(nx, ny, u, iy) <= e - 4 * ny);
                    }
                    assert(ahead_on_line(nx, ny, ix + 1, iy + 1, u, v));
                    assert(rest.contains(q));
                }
            }
        }
    } else if d < 0 {
        let rest = walk_from(a, b, ix + 1, iy);
        lemma_walk_exact(a, b, ix + 1, iy);
        lemma_walk_at(a, b, ix + 1, iy);
        let mid = unless_end(walk_at(a, b, ix + 1, iy), b);
        assert(s == mid + rest);
        assert forall|q: Pos|
            s.contains(q) <==> exists|u: int, v: int| ahead_on_line(nx, ny, ix, iy, u, v) && #[trigger] walk_at(a, b, u, v) == q by {
            lemma_contains_concat(mid, rest, q);
            if s.contains(q) {
                if mid.contains(q) {
                    assert(ahead_on_line(nx, ny, ix, iy, ix + 1, iy) && walk_at(a, b, ix + 1, iy) == q);
                } else {
                    let (u, v) = choose|u: int, v: int|
                        ahead_on_line(nx, ny, ix + 1, iy, u, v) && #[trigger] walk_at(a, b, u, v) == q;
                    assert(ahead_on_line(nx, ny, ix, iy, u, v));
                }
            }
            if exists|u: int, v: int| ahead_on_line(nx, ny, ix, iy, u, v) && #[trigger] walk_at(a, b, u, v) == q {
                let (u, v) = choose|u: int, v: int|
                    ahead_on_line(nx, ny, ix, iy, u, v) && #[trigger] walk_at(a, b, u, v) == q;
                if u == ix + 1 && v == iy {
                    assert(mid[0] == q);
                } else {
                    if u == ix {
                        assert(offset_from_line(nx, ny, ix, v) >= e + 2 * nx);
                    }
                    assert(ahead_on_line(nx, ny, ix + 1, iy, u, v));
                    assert(rest.contains(q));
                }
            }
        }
    } else {
        let rest = walk_from(a, b, ix, iy + 1);
        lemma_walk_exact(a, b, ix, iy + 1);
        lemma_walk_at(a, b, ix, iy + 1);
        let mid = unless_end(walk_at(a, b, ix, iy + 1), b);
        assert(s == mid + rest);
        assert forall|q: Pos|
            s.contains(q) <==> exists|u: int, v: int| ahead_on_line(nx, ny, ix, iy, u, v) && #[trigger] walk_at(a, b, u, v) == q by {
            lemma_contains_concat(mid, rest, q);
            if s.contains(q) {
                if mid.contains(q) {
                    assert(ahead_on_line(nx, ny, ix, iy, ix, iy + 1) && walk_at(a, b, ix, iy + 1) == q);
                } else {
                    let (u, v) = choose|u: int, v: int|
                        ahead_on_line(nx, ny, ix, iy + 1, u, v) && #[trigger] walk_at(a, b, u, v) == q;
                    assert(ahead_on_line(nx, ny, ix, iy, u, v));
                }
            }
            if exists|u: int, v: int| ahead_on_line(nx, ny, ix, iy, u, v) && #[trigger] walk_at(a, b, u, v) == q {
                let (u, v) = choose|u: int, v: int|
                    ahead_on_line(nx, ny, ix, iy, u, v) && #[trigger] walk_at(a, b, u, v) == q;
                if u == ix && v == iy + 1 {
                    assert(mid[0] == q);
                } else {
                    if v == iy {
                        assert(offset_from_line(nx, ny, u, iy) <= e - 2 * ny);
                    }
                    assert(ahead_on_line(nx, ny, ix, iy + 1, u, v));
                    assert(rest.contains(q));
                }
            }
        }
    }
}

/// Walking from `b` back to `a`, step `(u, v)` lands where step
/// `(nx - u, ny - v)` of the walk from `a` does.
proof fn lemma_walk_at_reversed(a: Pos, b: Pos, u: int, v: int)
    requires
        a.floor == b.floor,
        0 <= u <= abs(b.x - a.x),
        0 <= v <= abs(b.y - a.y),
    ensures
        walk_at(b, a, u, v) == walk_at(a, b, abs(b.x - a.x) - u, abs(b.y - a.y) - v),
        offset_from_line(abs(b.x - a.x), abs(b.y - a.y), abs(b.x - a.x) - u, abs(b.y - a.y) - v)
            == -offset_from_line(abs(b.x - a.x), abs(b.y - a.y), u, v),
{
    let nx = abs(b.x - a.x);
    let ny = abs(b.y - a.y);
    lemma_walk_at(b, a, u, v);
    lemma_walk_at(a, b, nx - u, ny - v);
    assert(offset_from_line(nx, ny, nx - u, ny - v) == -offset_from_line(nx, ny, u, v)) by (nonlinear_arith);
}

/// Two progress points of one walk that land on the same tile are the same
/// progress.
proof fn lemma_walk_at_injective(a: Pos, b: Pos, u1: int, v1: int, u2: int, v2: int)
    requires
        0 <= u1 <= abs(b.x - a.x),
        0 <= v1 <= abs(b.y - a.y),
        0 <= u2 <= abs(b.x - a.x),
        0 <= v2 <= abs(b.y - a.y),
        walk_at(a, b, u1, v1) == walk_at(a, b, u2, v2),
    ensures
        u1 == u2,
        v1 == v2,
{
    lemma_walk_at(a, b, u1, v1);
    lemma_walk_at(a, b, u2, v2);
    let p = walk_at(a, b, u1, v1);
    let q = walk_at(a, b, u2, v2);
    assert(p.x as int == q.x as int && p.y as int == q.y as int);
    if walk_sign(b.x - a.x) == 1 {
        assert(u1 == u2);
    } else {
        assert(walk_sign(b.x - a.x) == -1);
        assert(u1 == u2);
    }
    if walk_sign(b.y - a.y) == 1 {
        assert(v1 == v2);
    } else {
        assert(walk_sign(b.y - a.y) == -1);
        assert(v1 == v2);
    }
}

/// A walk emits no tile twice.
#[verifier::spinoff_prover]
#[verifier::rlimit(40)]
proof fn lemma_walk_distinct(a: Pos, b: Pos, ix: int, iy: int)
    requires
        a.floor == b.floor,
        0 <= ix <= abs(b.x - a.x),
        0 <= iy <= abs(b.y - a.y),
    ensures
        walk_from(a, b, ix, iy).no_duplicates(),
    decreases (abs(b.x - a.x) - ix) + (abs(b.y - a.y) - iy),
{
    let nx = abs(b.x - a.x);
    let ny = abs(b.y - a.y);
    let s = walk_from(a, b, ix, iy);
    if ix == nx && iy == ny {
        return;
    }
    lemma_walk_decision(ix, iy, nx, ny);
    let d = walk_decision(ix, iy, nx, ny);
    let p = walk_at(a, b, ix, iy);
    lemma_walk_at(a, b, ix, iy);
    if d == 0 {
        let rest = walk_from(a, b, ix + 1, iy + 1);
        lemma_walk_distinct(a, b, ix + 1, iy + 1);
        lemma_walk_points(a, b, ix + 1, iy + 1);
        lemma_walk_at(a, b, ix + 1, iy);
        lemma_walk_at(a, b, ix, iy + 1);
        lemma_walk_at(a, b, ix + 1, iy + 1);
        let f1 = Pos { floor: a.floor, x: (p.x + walk_sign(b.x - a.x)) as i16, y: p.y };
        let f2 = Pos { floor: a.floor, x: p.x, y: (p.y + walk_sign(b.y - a.y)) as i16 };
        assert(f1 == walk_at(a, b, ix + 1, iy));
        assert(f2 == walk_at(a, b, ix, iy + 1));
        let mid = unless_end(walk_at(a, b, ix + 1, iy + 1), b);
        let head = seq![f1, f2] + mid;
        assert(s == head + rest);
        assert(f1 != f2);
        assert(head.no_duplicates()) by {
            if mid.len() > 0 {
                assert(mid[0] == walk_at(a, b, ix + 1, iy + 1));
                assert(head =~= seq![f1, f2, mid[0]]);
            } else {
                assert(head =~= seq![f1, f2]);
            }
        }
        assert forall|i: int, j: int| 0 <= i < head.len() && 0 <= j < rest.len() implies head[i] != rest[j] by {
            let (u, v) = choose|u: int, v: int|
                ix + 1 <= u <= nx && iy + 1 <= v <= ny && !(u == ix + 1 && v == iy + 1) && !(u == nx && v == ny)
                    && #[trigger] walk_at(a, b, u, v) == rest[j];
            if i == 0 {
                if head[i] == rest[j] {
                    lemma_walk_at_injective(a, b, ix + 1, iy, u, v);
                }
            } else if i == 1 {
                if head[i] == rest[j] {
                    lemma_walk_at_injective(a, b, ix, iy + 1, u, v);
                }
            } else {
                assert(head[i] == walk_at(a, b, ix + 1, iy + 1));
                if head[i] == rest[j] {
                    lemma_walk_at_injective(a, b, ix + 1, iy + 1, u, v);
                }
            }
        }
        vstd::seq_lib::lemma_no_dup_in_concat(head, rest);
    } else if d < 0 {
        let rest = walk_from(a, b, ix + 1, iy);
        lemma_walk_distinct(a, b, ix + 1, iy);
        lemma_walk_points(a, b, ix + 1, iy);
        lemma_walk_at(a, b, ix + 1, iy);
        let mid = unless_end(walk_at(a, b, ix + 1, iy), b);
        assert(s == mid + rest);
        assert forall|i: int, j: int| 0 <= i < mid.len() && 0 <= j < rest.len() implies mid[i] != rest[j] by {
            let (u, v) = choose|u: int, v: int|
                ix + 1 <= u <= nx && iy <= v <= ny && !(u == ix + 1 && v == iy) && !(u == nx && v == ny)
                    && #[trigger] walk_at(a, b, u, v) == rest[j];
            assert(mid[i] == walk_at(a, b, ix + 1, iy));
            if mid[i] == rest[j] {
                lemma_walk_at_injective(a, b, ix + 1, iy, u, v);
            }
        }
        vstd::seq_lib::lemma_no_dup_in_concat(mid, rest);
    } else {
        let rest = walk_from(a, b, ix, iy + 1);
        lemma_walk_distinct(a, b, ix, iy + 1);
        lemma_walk_points(a, b, ix, iy + 1);
        lemma_walk_at(a, b, ix, iy + 1);
        let mid = unless_end(walk_at(a, b, ix, iy + 1), b);
        assert(s == mid + rest);
        assert forall|i: int, j: int| 0 <= i < mid.len() && 0 <= j < rest.len() implies mid[i] != rest[j] by {
            let (u, v) = choose|u: int, v: int|
                ix <= u <= nx && iy + 1 <= v <= ny && !(u == ix && v == iy + 1) && !(u == nx && v == ny)
                    && #[trigger] walk_at(a, b, u, v) == rest[j];
            assert(mid[i] == walk_at(a, b, ix, iy + 1));
            if mid[i] == rest[j] {
                lemma_walk_at_injective(a, b, ix, iy + 1, u, v);
            }
        }
        vstd::seq_lib::lemma_no_dup_in_concat(mid, rest);
    }
}

/// A list without repeats counts each tile it holds once.
proof fn lemma_count_without_repeats(s: Seq<Pos>, q: Pos)
    requires
        s.no_duplicates(),
    ensures
        s.to_multiset().count(q) == (if s.contains(q) { 1nat } else { 0nat }),
{
    broadcast use vstd::seq_lib::group_to_multiset_ensures;

    s.lemma_multiset_has_no_duplicates();
    s.to_multiset_ensures();
}

/// The supercover, walked from either end, lists the same tiles the same
/// number of times: each walk names every tile once, so sorting both
/// gives one list.
pub proof fn law_supercover_is_a_permutation(a: Pos, b: Pos)
    requires
        a.floor == b.floor,
    ensures
        spec_supercover(a, b).no_duplicates(),
        spec_supercover(b, a).no_duplicates(),
        spec_supercover(a, b).to_multiset() == spec_supercover(b, a).to_multiset(),
        spec_supercover(a, b).len() == spec_supercover(b, a).len(),
{
    let s = spec_supercover(a, b);
    let t = spec_supercover(b, a);
    lemma_walk_distinct(a, b, 0, 0);
    lemma_walk_distinct(b, a, 0, 0);
    law_supercover_is_symmetric(a, b);
    assert forall|q: Pos| s.to_multiset().count(q) == t.to_multiset().count(q) by {
        lemma_count_without_repeats(s, q);
        lemma_count_without_repeats(t, q);
    }
    assert(s.to_multiset() =~= t.to_multiset());
    s.to_multiset_ensures();
    t.to_multiset_ensures();
}

/// The supercover covers the same tiles whichever end it is walked from.
pub proof fn law_supercover_is_symmetric(a: Pos, b: Pos)
    requires
        a.floor == b.floor,
    ensures
        forall|q: Pos| spec_supercover(a, b).contains(q) <==> spec_supercover(b, a).contains(q),
{
    let nx = abs(b.x - a.x);
    let ny = abs(b.y - a.y);
    assert(abs(a.x - b.x) == nx && abs(a.y - b.y) == ny);
    assert(offset_from_line(nx, ny, 0, 0) == 0) by (nonlinear_arith);
    lemma_walk_exact(a, b, 0, 0);
    lemma_walk_exact(b, a, 0, 0);
    assert forall|q: Pos| spec_supercover(a, b).contains(q) implies spec_supercover(b, a).contains(q) by {
        let (u, v) = choose|u: int, v: int| ahead_on_line(nx, ny, 0, 0, u, v) && #[trigger] walk_at(a, b, u, v) == q;
        lemma_walk_at_reversed(a, b, nx - u, ny - v);
        assert(ahead_on_line(nx, ny, 0, 0, nx - u, ny - v));
        assert(walk_at(b, a, nx - u, ny - v) == q);
    }
    assert forall|q: Pos| spec_supercover(b, a).contains(q) implies spec_supercover(a, b).contains(q) by {
        let (u, v) = choose|u: int, v: int| ahead_on_line(nx, ny, 0, 0, u, v) && #[trigger] walk_at(b, a, u, v) == q;
        lemma_walk_at_reversed(a, b, u, v);
        assert(ahead_on_line(nx, ny, 0, 0, nx - u, ny - v));
        assert(walk_at(a, b, nx - u, ny - v) == q);
    }
}

} // verus!
