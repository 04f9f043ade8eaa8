//! The reachability proofs of a generated venue.
//!
//! Physically, every room and every extraction tile must be reachable from
//! the player's start when locks and access rules are ignored: a
//! breadth-first walk over the venue's open tiles, stairs included, must
//! reach them all.
//!
//! For access, a walker starts as a civilian with no items and takes what
//! it can reach: disguises from people whose schedules cross reachable
//! space or from wardrobes beside it, keys and invitations carried by
//! such people or lying on reachable ground. Each new possession may open
//! more of the venue, so the walk repeats until nothing more can be had.
use vstd::prelude::*;

use crate::access::zone_in;
use crate::data::{GameData, Zone};
use crate::geom::{Dir4, Pos};
use crate::layout::Layout;
use crate::map::{dim_i16, lemma_dim_i16, TileKind};
use crate::text::{cat2, cat3, cat5, clone_strings, decimal, holds, owned, spec_decimal, views};
use crate::facts::Population;
use crate::world::{room_containing, spec_room_index, Actor, Furniture, FurnitureKind, ItemInstance, ItemLocation, Room, RoutineStep};

verus! {

/// Why a generated venue failed its reachability proof.
#[derive(Clone, Debug, PartialEq, Eq)]
pub struct ProofError(pub String);

// ---------------------------------------------------------------------
// Reachability.
// ---------------------------------------------------------------------
/// Whether a walker `allow` admits may stand on `p`: terrain
/// that is not wall or void, bare of furniture, and let through.
pub open spec fn open_tile(l: &Layout, allow: spec_fn(Pos) -> bool, p: Pos) -> bool {
    match l.map.spec_tile(p) {
        TileKind::Wall | TileKind::Void => false,
        _ => allow(p) && forall|i: int| 0 <= i < l.furniture@.len() ==> (#[trigger] l.furniture@[i]).pos != p,
    }
}

/// What a walk that ignores locks and access rules lets onto: everything.
pub open spec fn anywhere() -> spec_fn(Pos) -> bool {
    |p: Pos| true
}

/// Where stepping from `p` in `d` lands, stairs included.
pub open spec fn step_to(l: &Layout, p: Pos, d: Dir4) -> Pos {
    l.map.spec_step_destination(p.spec_step(d))
}

/// Whether one step from `q` lands on `p`.
pub open spec fn steps_into(l: &Layout, q: Pos, p: Pos) -> bool {
    exists|d: Dir4| #[trigger] step_to(l, q, d) == p
}

/// Whether `path` is a walk from `start` over open tiles, one step at a
/// time.
pub open spec fn walk(l: &Layout, allow: spec_fn(Pos) -> bool, start: Pos, path: Seq<Pos>) -> bool {
    &&& path.len() > 0
    &&& path[0] == start
    &&& forall|i: int| 0 <= i < path.len() ==> open_tile(l, allow, #[trigger] path[i])
    &&& forall|i: int| 0 <= i < path.len() - 1 ==> steps_into(l, #[trigger] path[i], path[i + 1])
}

/// Whether `p` can be walked to from `start` through `allow`.
pub open spec fn reaches(l: &Layout, allow: spec_fn(Pos) -> bool, start: Pos, p: Pos) -> bool {
    exists|path: Seq<Pos>| #[trigger] walk(l, allow, start, path) && path.last() == p
}

/// Whether `p` is physically reachable from `start`.
pub open spec fn reachable(l: &Layout, start: Pos, p: Pos) -> bool {
    reaches(l, anywhere(), start, p)
}

// ---------------------------------------------------------------------
// A set of tiles, one flag per tile.
// ---------------------------------------------------------------------
/// The number of set flags.
pub open spec fn count_true(b: Seq<bool>) -> nat
    decreases b.len(),
{
    if b.len() == 0 {
        0
    } else {
        count_true(b.drop_last()) + if b.last() {
            1nat
        } else {
            0nat
        }
    }
}

proof fn lemma_count_le(b: Seq<bool>)
    ensures
        count_true(b) <= b.len(),
    decreases b.len(),
{
    if b.len() > 0 {
        lemma_count_le(b.drop_last());
    }
}

proof fn lemma_count_set(b: Seq<bool>, i: int)
    requires
        0 <= i < b.len(),
        !b[i],
    ensures
        count_true(b.update(i, true)) == count_true(b) + 1,
    decreases b.len(),
{
    let u = b.update(i, true);
    if i == b.len() - 1 {
        assert(u.drop_last() =~= b.drop_last());
    } else {
        assert(u.drop_last() =~= b.drop_last().update(i, true));
        lemma_count_set(b.drop_last(), i);
    }
}

/// The flag index of a tile on a map `w` wide and `h` high.
pub open spec fn tile_index(w: int, h: int, p: Pos) -> int {
    (p.floor * h + p.y) * w + p.x
}

proof fn lemma_mix_unique(a1: int, x1: int, a2: int, x2: int, w: int)
    requires
        0 <= x1 < w,
        0 <= x2 < w,
        0 <= a1,
        0 <= a2,
        a1 * w + x1 == a2 * w + x2,
    ensures
        a1 == a2,
        x1 == x2,
{
    if a1 < a2 {
        assert(a1 * w + w <= a2 * w) by (nonlinear_arith)
            requires
                a1 < a2,
                0 < w,
        ;
    } else if a2 < a1 {
        assert(a2 * w + w <= a1 * w) by (nonlinear_arith)
            requires
                a2 < a1,
                0 < w,
        ;
    }
}

proof fn lemma_index_bounds(w: int, h: int, floors: int, p: Pos)
    requires
        0 <= p.x < w,
        0 <= p.y < h,
        0 <= p.floor < floors,
    ensures
        0 <= tile_index(w, h, p) < w * h * floors,
{
    let a = p.floor * h + p.y;
    assert(0 <= a < floors * h) by (nonlinear_arith)
        requires
            a == p.floor * h + p.y,
            0 <= p.y < h,
            0 <= p.floor < floors,
    ;
    assert(0 <= a * w + p.x < w * h * floors) by (nonlinear_arith)
        requires
            0 <= a < floors * h,
            0 <= p.x < w,
    ;
}

proof fn lemma_index_unique(w: int, h: int, p: Pos, q: Pos)
    requires
        0 <= p.x < w,
        0 <= p.y < h,
        0 <= q.x < w,
        0 <= q.y < h,
        tile_index(w, h, p) == tile_index(w, h, q),
    ensures
        p == q,
{
    assert(0 <= p.floor * h + p.y && 0 <= q.floor * h + q.y) by (nonlinear_arith)
        requires
            0 <= p.y,
            0 <= q.y,
            0 <= h,
    ;
    lemma_mix_unique(p.floor * h + p.y, p.x as int, q.floor * h + q.y, q.x as int, w);
    lemma_mix_unique(p.floor as int, p.y as int, q.floor as int, q.y as int, h);
}

/// A set of tiles of a map, one flag per tile.
struct TileSet {
    width: i16,
    height: i16,
    bits: Vec<bool>,
}

impl TileSet {
    /// Whether `p` is in the set.
    spec fn has(&self, p: Pos) -> bool {
        &&& 0 <= p.x < self.width
        &&& 0 <= p.y < self.height
        &&& 0 <= tile_index(self.width as int, self.height as int, p) < self.bits@.len()
        &&& self.bits@[tile_index(self.width as int, self.height as int, p)]
    }

    fn new(width: u16, height: u16, floors: u8) -> (r: Self)
        requires
            width * height <= usize::MAX,
            width * height * floors <= usize::MAX,
        ensures
            r.width == dim_i16(width),
            r.height == dim_i16(height),
            r.bits@.len() == width * height * floors,
            count_true(r.bits@) == 0,
            forall|i: int| 0 <= i < r.bits@.len() ==> !#[trigger] r.bits@[i],
    {
        proof {
            lemma_dim_i16(width);
            lemma_dim_i16(height);
        }
        let n: usize = (width as usize) * (height as usize) * (floors as usize);
        let mut bits: Vec<bool> = Vec::new();
        let mut i: usize = 0;
        while i < n
            invariant
                0 <= i <= n,
                bits@.len() == i,
                count_true(bits@) == 0,
                forall|j: int| 0 <= j < i ==> !#[trigger] bits@[j],
            decreases n - i,
        {
            let ghost before = bits@;
            bits.push(false);
            assert(bits@.drop_last() == before);
            i = i + 1;
        }
        TileSet { width: #[verifier::truncate] (width as i16), height: #[verifier::truncate] (height as i16), bits }
    }

    /// Whether `p` lies within the set's columns and rows.
    spec fn covers(&self, p: Pos) -> bool {
        0 <= p.x < self.width && 0 <= p.y < self.height
    }

    fn index(&self, pos: Pos) -> (r: Option<usize>)
        requires
            self.covers(pos) ==> tile_index(self.width as int, self.height as int, pos) < self.bits@.len(),
        ensures
            match r {
                Some(i) => self.covers(pos) && i == tile_index(self.width as int, self.height as int, pos),
                None => !self.covers(pos),
            },
    {
        if pos.x < 0 || pos.y < 0 || pos.x >= self.width || pos.y >= self.height {
            return None;
        }
        let w = self.width as usize;
        let h = self.height as usize;
        let ghost idx = tile_index(self.width as int, self.height as int, pos);
        assert(self.bits@.len() == self.bits.len());
        assert(pos.floor * h <= pos.floor * h + pos.y);
        assert((pos.floor * h + pos.y) * w <= idx) by (nonlinear_arith)
            requires
                idx == (pos.floor * h + pos.y) * w + pos.x,
                0 <= pos.x,
        ;
        assert(pos.floor * h + pos.y <= (pos.floor * h + pos.y) * w) by (nonlinear_arith)
            requires
                w >= 1,
                0 <= pos.floor * h + pos.y,
        ;
        assert(pos.floor * h <= usize::MAX && pos.floor * h + pos.y <= usize::MAX);
        let a = (pos.floor as usize) * h + (pos.y as usize);
        Some(a * w + (pos.x as usize))
    }

    fn contains(&self, pos: Pos) -> (r: bool)
        requires
            self.covers(pos) ==> tile_index(self.width as int, self.height as int, pos) < self.bits@.len(),
        ensures
            r == self.has(pos),
    {
        match self.index(pos) {
            Some(i) => self.bits[i],
            None => false,
        }
    }

    /// Adds `pos`; true when it was not there before.
    fn insert(&mut self, pos: Pos) -> (r: bool)
        requires
            old(self).covers(pos) ==> tile_index(old(self).width as int, old(self).height as int, pos) < old(
                self,
            ).bits@.len(),
        ensures
            final(self).width == old(self).width,
            final(self).height == old(self).height,
            final(self).bits@.len() == old(self).bits@.len(),
            r == (old(self).covers(pos) && !old(self).has(pos)),
            final(self).bits@ == if r {
                old(self).bits@.update(tile_index(old(self).width as int, old(self).height as int, pos), true)
            } else {
                old(self).bits@
            },
    {
        match self.index(pos) {
            Some(i) => {
                if !self.bits[i] {
                    self.bits.set(i, true);
                    true
                } else {
                    false
                }
            },
            None => false,
        }
    }
}

/// What the access rules look at when a walker moves through the venue:
/// the disguises it can wear, the keys it holds, and whether it holds an
/// invitation. A clearance that is not enforced lets everyone through.
pub struct Clearance {
    pub enforced: bool,
    pub disguises: Vec<String>,
    pub keys: Vec<String>,
    pub invitation: bool,
}

/// Whether disguise `id`, with or without an invitation, may stand in
/// `room`.
pub open spec fn disguise_admits(d: &GameData, id: Seq<char>, room: Room, invitation: bool) -> bool {
    match d.spec_disguise(id) {
        Some(s) => s.zones@.contains(room.zone) || views(s.extra_rooms@).contains(room.template@) || (
        invitation && s.secure_with_invitation && room.zone == Zone::Secure),
        None => false,
    }
}

/// Whether someone wearing any of `disguises`, holding `keys` and, if
/// `invitation`, an invitation, may stand on `p`: a locked door needs its
/// key, and a room's interior needs a disguise that may be there.
pub open spec fn permits(
    l: &Layout,
    d: &GameData,
    disguises: Seq<Seq<char>>,
    keys: Seq<Seq<char>>,
    invitation: bool,
    p: Pos,
) -> bool {
    &&& key_fits(l, keys, p)
    &&& match spec_room_index(l.rooms@, p) {
        None => true,
        Some(ri) => exists|k: int|
            0 <= k < disguises.len() && disguise_admits(d, #[trigger] disguises[k], l.rooms@[ri], invitation),
    }
}

/// Whether `p` is no locked door, or one whose key is among `keys`.
pub open spec fn key_fits(l: &Layout, keys: Seq<Seq<char>>, p: Pos) -> bool {
    match l.map.spec_tile(p) {
        TileKind::Door(id) => match l.doors@[id.0 as int].locked_by {
            Some(key) => keys.contains(key@),
            None => true,
        },
        _ => true,
    }
}

/// The tiles the access rules let such a walker onto.
pub open spec fn access(
    l: &Layout,
    d: &GameData,
    disguises: Seq<Seq<char>>,
    keys: Seq<Seq<char>>,
    invitation: bool,
) -> spec_fn(Pos) -> bool {
    |p: Pos| permits(l, d, disguises, keys, invitation, p)
}

/// The tiles a clearance lets its holder onto.
pub open spec fn cleared(l: &Layout, d: &GameData, g: &Clearance) -> spec_fn(Pos) -> bool {
    |p: Pos| !g.enforced || permits(l, d, views(g.disguises@), views(g.keys@), g.invitation, p)
}

/// Whether every door tile of the layout names one of its doors.
pub open spec fn doors_named(l: &Layout) -> bool {
    forall|p: Pos| (#[trigger] l.map.spec_tile(p)) matches TileKind::Door(id) ==> id.0 < l.doors@.len()
}

fn admits(data: &GameData, id: &String, room: &Room, invitation: bool) -> (r: bool)
    ensures
        r == disguise_admits(data, id@, *room, invitation),
{
    match data.disguise(id.as_str()) {
        Some(s) => zone_in(&s.zones, room.zone) || holds(&s.extra_rooms, room.template.as_str()) || (
        invitation && s.secure_with_invitation && room.zone == Zone::Secure),
        None => false,
    }
}

fn permitted(layout: &Layout, data: &GameData, clearance: &Clearance, pos: Pos) -> (r: bool)
    requires
        layout.map.wf(),
        doors_named(layout),
    ensures
        r == permits(layout, data, views(clearance.disguises@), views(clearance.keys@), clearance.invitation, pos),
{
    match layout.map.tile(pos) {
        TileKind::Door(id) => {
            match &layout.doors[id.0 as usize].locked_by {
                Some(key) => {
                    if !holds(&clearance.keys, key.as_str()) {
                        return false;
                    }
                },
                None => {},
            }
        },
        _ => {},
    }
    match room_containing(&layout.rooms, pos) {
        None => true,
        Some(room) => {
            let ghost ri = spec_room_index(layout.rooms@, pos).unwrap();
            let mut k: usize = 0;
            while k < clearance.disguises.len()
                invariant
                    0 <= k <= clearance.disguises@.len(),
                    key_fits(layout, views(clearance.keys@), pos),
                    spec_room_index(layout.rooms@, pos) == Some(ri),
                    *room == layout.rooms@[ri],
                    forall|j: int|
                        0 <= j < k ==> !disguise_admits(data, #[trigger] views(clearance.disguises@)[j], *room, clearance.invitation),
                decreases clearance.disguises@.len() - k,
            {
                assert(views(clearance.disguises@)[k as int] == clearance.disguises@[k as int]@);
                if admits(data, &clearance.disguises[k], room, clearance.invitation) {
                    return true;
                }
                k = k + 1;
            }
            false
        },
    }
}

/// Whether a clearance's holder may stand on `pos`.
fn passable(layout: &Layout, data: &GameData, clearance: &Clearance, pos: Pos) -> (r: bool)
    requires
        layout.map.wf(),
        clearance.enforced ==> doors_named(layout),
    ensures
        r == open_tile(layout, cleared(layout, data, clearance), pos),
{
    match layout.map.tile(pos) {
        TileKind::Wall | TileKind::Void => false,
        _ => {
            let mut i: usize = 0;
            while i < layout.furniture.len()
                invariant
                    0 <= i <= layout.furniture@.len(),
                    forall|j: int| 0 <= j < i ==> (#[trigger] layout.furniture@[j]).pos != pos,
                decreases layout.furniture@.len() - i,
            {
                if layout.furniture[i].pos == pos {
                    return false;
                }
                i = i + 1;
            }
            !clearance.enforced || permitted(layout, data, clearance, pos)
        },
    }
}

proof fn lemma_step_reach(l: &Layout, allow: spec_fn(Pos) -> bool, start: Pos, q: Pos, d: Dir4)
    requires
        reaches(l, allow, start, q),
        open_tile(l, allow, step_to(l, q, d)),
    ensures
        reaches(l, allow, start, step_to(l, q, d)),
{
    let path = choose|path: Seq<Pos>| #[trigger] walk(l, allow, start, path) && path.last() == q;
    let p = step_to(l, q, d);
    let longer = path.push(p);
    assert(steps_into(l, q, p));
    assert forall|i: int| 0 <= i < longer.len() - 1 implies steps_into(l, #[trigger] longer[i], longer[i + 1]) by {
        if i < path.len() - 1 {
            assert(longer[i] == path[i] && longer[i + 1] == path[i + 1]);
        } else {
            assert(longer[i] == q && longer[i + 1] == p);
        }
    }
    assert forall|i: int| 0 <= i < longer.len() implies open_tile(l, allow, #[trigger] longer[i]) by {
        if i < path.len() {
            assert(longer[i] == path[i]);
        }
    }
    assert(walk(l, allow, start, longer) && longer.last() == p);
}

/// Every tile of a walk is seen, once the walk has closed the seen set.
proof fn lemma_walk_seen(
    l: &Layout,
    allow: spec_fn(Pos) -> bool,
    start: Pos,
    seen: &TileSet,
    queue: Seq<Pos>,
    path: Seq<Pos>,
    k: int,
)
    requires
        walk(l, allow, start, path),
        0 <= k < path.len(),
        open_tile(l, allow, start) ==> seen.has(start),
        forall|q: Pos| seen.has(q) ==> exists|j: int| 0 <= j < queue.len() && queue[j] == q,
        forall|j: int, d: Dir4|
            0 <= j < queue.len() && open_tile(l, allow, #[trigger] step_to(l, queue[j], d)) ==> seen.has(step_to(l, queue[j], d)),
    ensures
        seen.has(path[k]),
    decreases k,
{
    if k == 0 {
        assert(open_tile(l, allow, path[0]));
    } else {
        lemma_walk_seen(l, allow, start, seen, queue, path, k - 1);
        assert(steps_into(l, path[k - 1], path[k]));
        let d = choose|d: Dir4| #[trigger] step_to(l, path[k - 1], d) == path[k];
        let j = choose|j: int| 0 <= j < queue.len() && queue[j] == path[k - 1];
        assert(open_tile(l, allow, path[k]));
        assert(step_to(l, queue[j], d) == path[k]);
    }
}

/// Breadth-first reachability from `start` over open tiles, ignoring locks
/// and access rules.
#[verifier::rlimit(60)]
fn reachable_tiles(layout: &Layout, data: &GameData, clearance: &Clearance, start: Pos) -> (seen: TileSet)
    requires
        layout.map.wf(),
        clearance.enforced ==> doors_named(layout),
        layout.map.spec_width() * layout.map.spec_height() <= usize::MAX,
        layout.map.spec_width() * layout.map.spec_height() * layout.map.spec_floor_count() <= usize::MAX,
    ensures
        seen.width == dim_i16(layout.map.spec_width()),
        seen.height == dim_i16(layout.map.spec_height()),
        seen.bits@.len() == layout.map.spec_width() * layout.map.spec_height() * layout.map.spec_floor_count(),
        forall|p: Pos| seen.has(p) ==> reaches(layout, cleared(layout, data, clearance), start, p),
        forall|p: Pos| reaches(layout, cleared(layout, data, clearance), start, p) ==> seen.has(p),
{
    let ghost allow = cleared(layout, data, clearance);
    let w = layout.map.width();
    let h = layout.map.height();
    let floors = layout.map.floor_count();
    proof {
        lemma_dim_i16(w);
        lemma_dim_i16(h);
    }
    let mut seen = TileSet::new(w, h, floors);
    let mut queue: Vec<Pos> = Vec::new();
    assert forall|p: Pos| !seen.has(p) by {}
    if passable(layout, data, clearance, start) {
        proof {
            crate::map::lemma_tile_on_map(layout.map, start);
            lemma_index_bounds(w as int, h as int, floors as int, start);
            assert(walk(layout, allow, start, seq![start]) && seq![start].last() == start);
        }
        let ghost before = seen.bits@;
        if seen.insert(start) {
            queue.push(start);
            proof {
                let si = tile_index(seen.width as int, seen.height as int, start);
                lemma_count_set(before, si);
                assert forall|p: Pos| seen.has(p) implies exists|j: int| 0 <= j < queue@.len() && queue@[j] == p by {
                    if seen.covers(p) && tile_index(seen.width as int, seen.height as int, p) == si {
                        lemma_index_unique(seen.width as int, seen.height as int, p, start);
                    }
                    assert(queue@[0] == start);
                }
            }
        }
    }
    let mut head: usize = 0;
    while head < queue.len()
        invariant
            layout.map.wf(),
            clearance.enforced ==> doors_named(layout),
            allow == cleared(layout, data, clearance),
            w == layout.map.spec_width(),
            h == layout.map.spec_height(),
            floors == layout.map.spec_floor_count(),
            seen.width == dim_i16(w),
            seen.height == dim_i16(h),
            seen.bits@.len() == w * h * floors,
            0 <= head <= queue@.len(),
            queue@.len() == count_true(seen.bits@),
            forall|j: int|
                0 <= j < queue@.len() ==> seen.has(#[trigger] queue@[j]) && open_tile(layout, allow, queue@[j]) && reaches(
                    layout,
                    allow,
                    start,
                    queue@[j],
                ),
            forall|p: Pos| seen.has(p) ==> exists|j: int| 0 <= j < queue@.len() && queue@[j] == p,
            forall|j: int, d: Dir4|
                0 <= j < head && open_tile(layout, allow, #[trigger] step_to(layout, queue@[j], d)) ==> seen.has(
                    step_to(layout, queue@[j], d),
                ),
            open_tile(layout, allow, start) ==> seen.has(start),
        decreases seen.bits@.len() - head,
    {
        proof {
            lemma_count_le(seen.bits@);
        }
        let pos = queue[head];
        proof {
            crate::map::lemma_tile_on_map(layout.map, pos);
        }
        let dirs = Dir4::ALL;
        let mut k: usize = 0;
        while k < 4
            invariant
                0 <= k <= 4,
                clearance.enforced ==> doors_named(layout),
                allow == cleared(layout, data, clearance),
                dirs == Dir4::ALL,
                pos == queue@[head as int],
                layout.map.spec_in_bounds(pos),
                layout.map.wf(),
                w == layout.map.spec_width(),
                h == layout.map.spec_height(),
                floors == layout.map.spec_floor_count(),
                seen.width == dim_i16(w),
                seen.height == dim_i16(h),
                seen.bits@.len() == w * h * floors,
                0 <= head < queue@.len(),
                queue@.len() == count_true(seen.bits@),
                forall|j: int|
                    0 <= j < queue@.len() ==> seen.has(#[trigger] queue@[j]) && open_tile(layout, allow, queue@[j]) && reaches(
                        layout,
                        allow,
                        start,
                        queue@[j],
                    ),
                forall|p: Pos| seen.has(p) ==> exists|j: int| 0 <= j < queue@.len() && queue@[j] == p,
                forall|j: int, d: Dir4|
                    0 <= j < head && open_tile(layout, allow, #[trigger] step_to(layout, queue@[j], d)) ==> seen.has(
                        step_to(layout, queue@[j], d),
                    ),
                forall|kk: int|
                    0 <= kk < k && open_tile(layout, allow, #[trigger] step_to(layout, pos, dirs[kk])) ==> seen.has(
                        step_to(layout, pos, dirs[kk]),
                    ),
                open_tile(layout, allow, start) ==> seen.has(start),
            decreases 4 - k,
        {
            let d = dirs[k];
            let next = layout.map.resolve_step_destination(pos.step(d));
            assert(next == step_to(layout, pos, d));
            if passable(layout, data, clearance, next) {
                proof {
                    crate::map::lemma_tile_on_map(layout.map, next);
                    lemma_index_bounds(w as int, h as int, floors as int, next);
                    lemma_step_reach(layout, allow, start, pos, d);
                }
                let ghost before = seen.bits@;
                let ghost old_seen = seen;
                let ghost old_queue = queue@;
                if seen.insert(next) {
                    queue.push(next);
                    proof {
                        let ni = tile_index(seen.width as int, seen.height as int, next);
                        lemma_count_set(before, ni);
                        assert forall|p: Pos| seen.has(p) == (old_seen.has(p) || p == next) by {
                            if seen.covers(p) && tile_index(seen.width as int, seen.height as int, p) == ni {
                                lemma_index_unique(seen.width as int, seen.height as int, p, next);
                            }
                        }
                        assert forall|p: Pos| seen.has(p) implies exists|j: int| 0 <= j < queue@.len() && queue@[j] == p by {
                            if old_seen.has(p) {
                                let j = choose|j: int| 0 <= j < old_queue.len() && old_queue[j] == p;
                                assert(queue@[j] == p);
                            } else {
                                assert(queue@[old_queue.len() as int] == p);
                            }
                        }
                        assert forall|j: int| 0 <= j < queue@.len() implies seen.has(#[trigger] queue@[j]) && open_tile(
                            layout,
                            allow,
                            queue@[j],
                        ) && reaches(layout, allow, start, queue@[j]) by {
                            if j < old_queue.len() {
                                assert(old_queue[j] == queue@[j]);
                            }
                        }
                    }
                } else {
                    proof {
                        assert forall|p: Pos| seen.has(p) == old_seen.has(p) by {}
                        assert forall|p: Pos| seen.has(p) implies exists|j: int| 0 <= j < queue@.len() && queue@[j] == p by {
                            assert(old_seen.has(p));
                        }
                    }
                }
            }
            k = k + 1;
        }
        proof {
            assert forall|j: int, d: Dir4|
                0 <= j < head + 1 && open_tile(layout, allow, #[trigger] step_to(layout, queue@[j], d)) implies seen.has(
                step_to(layout, queue@[j], d),
            ) by {
                if j == head {
                    assert(d == Dir4::North || d == Dir4::East || d == Dir4::South || d == Dir4::West);
                    assert(dirs[0] == Dir4::North && dirs[1] == Dir4::East && dirs[2] == Dir4::South && dirs[3] == Dir4::West);
                }
            }
        }
        head = head + 1;
    }
    proof {
        assert forall|p: Pos| reaches(layout, allow, start, p) implies seen.has(p) by {
            let path = choose|path: Seq<Pos>| #[trigger] walk(layout, allow, start, path) && path.last() == p;
            lemma_walk_seen(layout, allow, start, &seen, queue@, path, path.len() - 1);
        }
        assert forall|p: Pos| seen.has(p) implies reaches(layout, allow, start, p) by {
            let j = choose|j: int| 0 <= j < queue@.len() && queue@[j] == p;
        }
    }
    seen
}

// ---------------------------------------------------------------------
// The physical proof.
// ---------------------------------------------------------------------
/// Whether some tile inside `room` is reachable from `start`.
pub open spec fn room_reached(l: &Layout, start: Pos, room: Room) -> bool {
    exists|p: Pos|
        p.floor == room.floor && room.bounds.spec_contains(p.x as int, p.y as int) && #[trigger] reachable(l, start, p)
}

/// The first room from the `k`-th on that no tile reaches.
pub open spec fn first_unreached_room(l: &Layout, start: Pos, k: int) -> Option<int>
    decreases l.rooms@.len() - k,
{
    if k < 0 || k >= l.rooms@.len() {
        None
    } else if !room_reached(l, start, l.rooms@[k]) {
        Some(k)
    } else {
        first_unreached_room(l, start, k + 1)
    }
}

/// The first extraction tile from the `k`-th on that is unreachable.
pub open spec fn first_lost_exit(l: &Layout, start: Pos, k: int) -> Option<int>
    decreases l.extraction_tiles@.len() - k,
{
    if k < 0 || k >= l.extraction_tiles@.len() {
        None
    } else if !reachable(l, start, l.extraction_tiles@[k]) {
        Some(k)
    } else {
        first_lost_exit(l, start, k + 1)
    }
}

/// A signed coordinate as decimal text.
pub open spec fn signed_text(v: int) -> Seq<char> {
    if v < 0 {
        "-"@ + spec_decimal((-v) as nat)
    } else {
        spec_decimal(v as nat)
    }
}

/// A position as its debugging text.
pub open spec fn pos_text(p: Pos) -> Seq<char> {
    "Pos { floor: "@ + spec_decimal(p.floor as nat) + ", x: "@ + signed_text(p.x as int) + ", y: "@ + signed_text(
        p.y as int,
    ) + " }"@
}

/// What the physical proof finds wrong with a layout, if anything: the
/// first room with no reachable tile, else the first unreachable
/// extraction tile.
pub open spec fn physical_problem(l: &Layout, start: Pos) -> Option<Seq<char>> {
    match first_unreached_room(l, start, 0) {
        Some(i) => Some("room '"@ + l.rooms@[i].name@ + "' is physically unreachable"@),
        None => match first_lost_exit(l, start, 0) {
            Some(j) => Some("extraction tile "@ + pos_text(l.extraction_tiles@[j]) + " is physically unreachable"@),
            None => None,
        },
    }
}

fn signed(v: i16) -> (r: String)
    ensures
        r@ == signed_text(v as int),
{
    if v < 0 {
        let n: u64 = (-(v as i32)) as u64;
        let digits = decimal(n);
        cat2("-", digits.as_str())
    } else {
        decimal(v as u64)
    }
}

fn pos_string(p: Pos) -> (r: String)
    ensures
        r@ == pos_text(p),
{
    let floor = decimal(p.floor as u64);
    let x = signed(p.x);
    let y = signed(p.y);
    let head = cat5("Pos { floor: ", floor.as_str(), ", x: ", x.as_str(), ", y: ");
    cat3(head.as_str(), y.as_str(), " }")
}

/// What the map's size gives a set of its tiles.
proof fn lemma_covered(layout: &Layout, seen: &TileSet, p: Pos)
    requires
        layout.map.wf(),
        seen.width == dim_i16(layout.map.spec_width()),
        seen.height == dim_i16(layout.map.spec_height()),
        seen.bits@.len() == layout.map.spec_width() * layout.map.spec_height() * layout.map.spec_floor_count(),
        p.floor < layout.map.spec_floor_count(),
    ensures
        seen.covers(p) ==> tile_index(seen.width as int, seen.height as int, p) < seen.bits@.len(),
{
    if seen.covers(p) {
        lemma_index_bounds(
            layout.map.spec_width() as int,
            layout.map.spec_height() as int,
            layout.map.spec_floor_count() as int,
            p,
        );
    }
}

/// Whether some tile inside `room` is in `seen`.
fn room_reachable(layout: &Layout, room: &Room, seen: &TileSet, Ghost(start): Ghost<Pos>) -> (r: bool)
    requires
        layout.map.wf(),
        seen.width == dim_i16(layout.map.spec_width()),
        seen.height == dim_i16(layout.map.spec_height()),
        seen.bits@.len() == layout.map.spec_width() * layout.map.spec_height() * layout.map.spec_floor_count(),
        forall|p: Pos| seen.has(p) ==> reachable(layout, start, p),
        forall|p: Pos| reachable(layout, start, p) ==> seen.has(p),
        room.floor < layout.map.spec_floor_count(),
        i16::MIN <= room.bounds.x + room.bounds.w <= i16::MAX,
        i16::MIN <= room.bounds.y + room.bounds.h <= i16::MAX,
    ensures
        r == room_reached(layout, start, *room),
{
    let b = room.bounds;
    let mut y: i16 = b.y;
    while y < b.y + b.h
        invariant
            b == room.bounds,
            b.y <= y,
            i16::MIN <= b.y + b.h <= i16::MAX,
            i16::MIN <= b.x + b.w <= i16::MAX,
            layout.map.wf(),
            seen.width == dim_i16(layout.map.spec_width()),
            seen.height == dim_i16(layout.map.spec_height()),
            seen.bits@.len() == layout.map.spec_width() * layout.map.spec_height() * layout.map.spec_floor_count(),
            forall|p: Pos| seen.has(p) ==> reachable(layout, start, p),
            forall|p: Pos| reachable(layout, start, p) ==> seen.has(p),
            room.floor < layout.map.spec_floor_count(),
            forall|p: Pos|
                p.floor == room.floor && b.spec_contains(p.x as int, p.y as int) && p.y < y ==> !#[trigger] reachable(
                    layout,
                    start,
                    p,
                ),
        decreases b.y + b.h - y,
    {
        let mut x: i16 = b.x;
        while x < b.x + b.w
            invariant
                b == room.bounds,
                b.y <= y < b.y + b.h,
                b.x <= x,
                i16::MIN <= b.y + b.h <= i16::MAX,
                i16::MIN <= b.x + b.w <= i16::MAX,
                layout.map.wf(),
                seen.width == dim_i16(layout.map.spec_width()),
                seen.height == dim_i16(layout.map.spec_height()),
                seen.bits@.len() == layout.map.spec_width() * layout.map.spec_height() * layout.map.spec_floor_count(),
                forall|p: Pos| seen.has(p) ==> reachable(layout, start, p),
                forall|p: Pos| reachable(layout, start, p) ==> seen.has(p),
                room.floor < layout.map.spec_floor_count(),
                forall|p: Pos|
                    p.floor == room.floor && b.spec_contains(p.x as int, p.y as int) && (p.y < y || (p.y == y && p.x
                        < x)) ==> !#[trigger] reachable(layout, start, p),
            decreases b.x + b.w - x,
        {
            let p = Pos::new(room.floor, x, y);
            proof {
                lemma_covered(layout, seen, p);
            }
            if seen.contains(p) {
                assert(reachable(layout, start, p));
                return true;
            }
            x = x + 1;
        }
        y = y + 1;
    }
    false
}

/// Runs the physical proof: every room and every extraction tile is
/// reachable from `start` when locks and access rules are ignored.
pub fn prove_physical(data: &GameData, layout: &Layout, start: Pos) -> (r: Result<(), ProofError>)
    requires
        layout.map.wf(),
        layout.map.spec_width() * layout.map.spec_height() <= usize::MAX,
        layout.map.spec_width() * layout.map.spec_height() * layout.map.spec_floor_count() <= usize::MAX,
        forall|i: int|
            0 <= i < layout.rooms@.len() ==> {
                let b = (#[trigger] layout.rooms@[i]).bounds;
                &&& layout.rooms@[i].floor < layout.map.spec_floor_count()
                &&& i16::MIN <= b.x + b.w <= i16::MAX
                &&& i16::MIN <= b.y + b.h <= i16::MAX
            },
        forall|j: int|
            0 <= j < layout.extraction_tiles@.len() ==> (#[trigger] layout.extraction_tiles@[j]).floor
                < layout.map.spec_floor_count(),
    ensures
        match physical_problem(layout, start) {
            None => r is Ok,
            Some(m) => r matches Err(e) && e.0@ == m,
        },
{
    let clearance = Clearance { enforced: false, disguises: Vec::new(), keys: Vec::new(), invitation: false };
    let seen = reachable_tiles(layout, data, &clearance, start);
    assert(cleared(layout, data, &clearance) =~= anywhere());
    let mut i: usize = 0;
    while i < layout.rooms.len()
        invariant
            0 <= i <= layout.rooms@.len(),
            layout.map.wf(),
            seen.width == dim_i16(layout.map.spec_width()),
            seen.height == dim_i16(layout.map.spec_height()),
            seen.bits@.len() == layout.map.spec_width() * layout.map.spec_height() * layout.map.spec_floor_count(),
            forall|p: Pos| seen.has(p) ==> reachable(layout, start, p),
            forall|p: Pos| reachable(layout, start, p) ==> seen.has(p),
            forall|k: int|
                0 <= k < layout.rooms@.len() ==> {
                    let b = (#[trigger] layout.rooms@[k]).bounds;
                    &&& layout.rooms@[k].floor < layout.map.spec_floor_count()
                    &&& i16::MIN <= b.x + b.w <= i16::MAX
                    &&& i16::MIN <= b.y + b.h <= i16::MAX
                },
            first_unreached_room(layout, start, 0) == first_unreached_room(layout, start, i as int),
        decreases layout.rooms@.len() - i,
    {
        let room = &layout.rooms[i];
        assert(layout.rooms@[i as int] == *room);
        if !room_reachable(layout, room, &seen, Ghost(start)) {
            let message = cat3("room '", room.name.as_str(), "' is physically unreachable");
            return Err(ProofError(message));
        }
        i = i + 1;
    }
    let mut j: usize = 0;
    while j < layout.extraction_tiles.len()
        invariant
            0 <= j <= layout.extraction_tiles@.len(),
            layout.map.wf(),
            seen.width == dim_i16(layout.map.spec_width()),
            seen.height == dim_i16(layout.map.spec_height()),
            seen.bits@.len() == layout.map.spec_width() * layout.map.spec_height() * layout.map.spec_floor_count(),
            forall|p: Pos| seen.has(p) ==> reachable(layout, start, p),
            forall|p: Pos| reachable(layout, start, p) ==> seen.has(p),
            forall|k: int|
                0 <= k < layout.extraction_tiles@.len() ==> (#[trigger] layout.extraction_tiles@[k]).floor
                    < layout.map.spec_floor_count(),
            first_unreached_room(layout, start, 0) is None,
            first_lost_exit(layout, start, 0) == first_lost_exit(layout, start, j as int),
        decreases layout.extraction_tiles@.len() - j,
    {
        let pos = layout.extraction_tiles[j];
        proof {
            assert(pos.floor < layout.map.spec_floor_count());
            lemma_covered(layout, &seen, pos);
        }
        if !seen.contains(pos) {
            let text = pos_string(pos);
            let message = cat3("extraction tile ", text.as_str(), " is physically unreachable");
            return Err(ProofError(message));
        }
        j = j + 1;
    }
    Ok(())
}

proof fn lemma_rooms_from(l: &Layout, start: Pos, k: int)
    requires
        0 <= k <= l.rooms@.len(),
    ensures
        first_unreached_room(l, start, k) is None <==> forall|i: int|
            k <= i < l.rooms@.len() ==> room_reached(l, start, #[trigger] l.rooms@[i]),
    decreases l.rooms@.len() - k,
{
    if k < l.rooms@.len() {
        lemma_rooms_from(l, start, k + 1);
    }
}

proof fn lemma_exits_from(l: &Layout, start: Pos, k: int)
    requires
        0 <= k <= l.extraction_tiles@.len(),
    ensures
        first_lost_exit(l, start, k) is None <==> forall|j: int|
            k <= j < l.extraction_tiles@.len() ==> reachable(l, start, #[trigger] l.extraction_tiles@[j]),
    decreases l.extraction_tiles@.len() - k,
{
    if k < l.extraction_tiles@.len() {
        lemma_exits_from(l, start, k + 1);
    }
}

/// The physical proof finds nothing wrong exactly when every room has a
/// tile reachable from the start and every extraction tile is reachable.
pub proof fn law_physical_proof_is_reachability(l: &Layout, start: Pos)
    ensures
        physical_problem(l, start) is None <==> {
            &&& forall|i: int| 0 <= i < l.rooms@.len() ==> room_reached(l, start, #[trigger] l.rooms@[i])
            &&& forall|j: int|
                0 <= j < l.extraction_tiles@.len() ==> reachable(l, start, #[trigger] l.extraction_tiles@[j])
        },
{
    lemma_rooms_from(l, start, 0);
    lemma_exits_from(l, start, 0);
}

// ---------------------------------------------------------------------
// The access progression.
// ---------------------------------------------------------------------
/// Everywhere an actor can be met: where it stands, then every stop of its
/// routine.
pub open spec fn schedule_positions(a: Actor) -> Seq<Pos> {
    seq![a.pos] + match a.ai {
        Some(ai) => ai.routine@.map_values(|s: RoutineStep| s.pos),
        None => Seq::empty(),
    }
}

/// Whether an actor's schedule crosses space reachable through `allow`.
#[verifier::opaque]
pub open spec fn met(l: &Layout, allow: spec_fn(Pos) -> bool, start: Pos, a: Actor) -> bool {
    exists|k: int| 0 <= k < schedule_positions(a).len() && #[trigger] reaches(l, allow, start, schedule_positions(a)[k])
}

/// Whether a piece of furniture can be reached from some side.
#[verifier::opaque]
pub open spec fn beside(l: &Layout, allow: spec_fn(Pos) -> bool, start: Pos, f: Furniture) -> bool {
    exists|dir: Dir4| #[trigger] reaches(l, allow, start, f.pos.spec_step(dir))
}

/// Whether an item can be had: lying on reachable ground, or carried by
/// someone other than the player whose schedule crosses reachable space.
#[verifier::opaque]
pub open spec fn obtainable(l: &Layout, allow: spec_fn(Pos) -> bool, start: Pos, actors: Seq<Actor>, i: ItemInstance) -> bool {
    match i.location {
        ItemLocation::Ground(p) => reaches(l, allow, start, p),
        ItemLocation::CarriedBy(h) => actors[h.0 as int].role is Some && met(l, allow, start, actors[h.0 as int]),
    }
}

/// Whether `f` is a wardrobe stocked with disguise `x`.
pub open spec fn stocks(f: Furniture, x: Seq<char>) -> bool {
    &&& f.kind == FurnitureKind::Wardrobe
    &&& f.disguise is Some
    &&& f.disguise.unwrap()@ == x
}

/// Whether item `i` is of a spec that unlocks a room, with id `k`.
pub open spec fn opens_with(d: &GameData, i: ItemInstance, k: Seq<char>) -> bool {
    match d.spec_item(i.spec@) {
        Some(s) => s.unlocks is Some && s.id@ == k,
        None => false,
    }
}

/// Whether item `i` is of an invitation spec.
pub open spec fn invites(d: &GameData, i: ItemInstance) -> bool {
    match d.spec_item(i.spec@) {
        Some(s) => s.invitation,
        None => false,
    }
}

/// Whether disguise `x` can be had: the civilian clothes everyone starts
/// in, the clothes of someone met, or a stocked wardrobe within reach.
pub open spec fn wearable(l: &Layout, allow: spec_fn(Pos) -> bool, start: Pos, pop: Population, x: Seq<char>) -> bool {
    ||| x == "civilian"@
    ||| exists|i: int|
        0 <= i < pop.actors@.len() && (#[trigger] pop.actors@[i]).role is Some && pop.actors@[i].worn_disguise@ == x
            && met(l, allow, start, pop.actors@[i])
    ||| exists|j: int|
        0 <= j < l.furniture@.len() && (#[trigger] l.furniture@[j]).kind == FurnitureKind::Wardrobe
            && stocks(l.furniture@[j], x) && beside(l, allow, start, l.furniture@[j])
}

/// Whether key `k` can be had: some obtainable item of that spec unlocks
/// a room.
pub open spec fn key_obtainable(l: &Layout, d: &GameData, allow: spec_fn(Pos) -> bool, start: Pos, pop: Population, k: Seq<char>) -> bool {
    exists|i: int|
        0 <= i < pop.items@.len() && obtainable(l, allow, start, pop.actors@, #[trigger] pop.items@[i])
            && opens_with(d, pop.items@[i], k)
}

/// Whether some obtainable item is an invitation.
pub open spec fn invitation_obtainable(l: &Layout, d: &GameData, allow: spec_fn(Pos) -> bool, start: Pos, pop: Population) -> bool {
    exists|i: int|
        0 <= i < pop.items@.len() && obtainable(l, allow, start, pop.actors@, #[trigger] pop.items@[i])
            && invites(d, pop.items@[i])
}

/// Whether everything owned can be had through `allow`.
pub open spec fn owned_soundly(
    l: &Layout,
    d: &GameData,
    allow: spec_fn(Pos) -> bool,
    start: Pos,
    pop: Population,
    disguises: Seq<Seq<char>>,
    keys: Seq<Seq<char>>,
    invitation: bool,
) -> bool {
    &&& forall|k: int| 0 <= k < disguises.len() ==> wearable(l, allow, start, pop, #[trigger] disguises[k])
    &&& forall|k: int| 0 <= k < keys.len() ==> key_obtainable(l, d, allow, start, pop, #[trigger] keys[k])
    &&& invitation ==> invitation_obtainable(l, d, allow, start, pop)
}

/// Whether nothing more can be had: every disguise, key and invitation
/// within reach of what is owned is already owned.
pub open spec fn closed_under(
    l: &Layout,
    d: &GameData,
    start: Pos,
    pop: Population,
    disguises: Seq<Seq<char>>,
    keys: Seq<Seq<char>>,
    invitation: bool,
) -> bool {
    let allow = access(l, d, disguises, keys, invitation);
    &&& forall|i: int|
        0 <= i < pop.actors@.len() && (#[trigger] pop.actors@[i]).role is Some && met(l, allow, start, pop.actors@[i])
            ==> disguises.contains(pop.actors@[i].worn_disguise@)
    &&& forall|j: int|
        0 <= j < l.furniture@.len() && (#[trigger] l.furniture@[j]).kind == FurnitureKind::Wardrobe
            && l.furniture@[j].disguise is Some && beside(l, allow, start, l.furniture@[j]) ==> disguises.contains(
            l.furniture@[j].disguise.unwrap()@,
        )
    &&& forall|i: int|
        0 <= i < pop.items@.len() && obtainable(l, allow, start, pop.actors@, #[trigger] pop.items@[i])
            ==> match d.spec_item(pop.items@[i].spec@) {
            Some(s) => (s.unlocks is Some ==> keys.contains(s.id@)) && (s.invitation ==> invitation),
            None => true,
        }
}

/// A walk over tiles one test admits is a walk under any test that admits
/// at least as much.
proof fn lemma_reach_mono(l: &Layout, a0: spec_fn(Pos) -> bool, a1: spec_fn(Pos) -> bool, start: Pos, p: Pos)
    requires
        forall|q: Pos| #[trigger] a0(q) ==> a1(q),
        reaches(l, a0, start, p),
    ensures
        reaches(l, a1, start, p),
{
    let path = choose|path: Seq<Pos>| #[trigger] walk(l, a0, start, path) && path.last() == p;
    assert forall|i: int| 0 <= i < path.len() implies open_tile(l, a1, #[trigger] path[i]) by {
        assert(open_tile(l, a0, path[i]));
    }
    assert(walk(l, a1, start, path));
}

proof fn lemma_met_mono(l: &Layout, a0: spec_fn(Pos) -> bool, a1: spec_fn(Pos) -> bool, start: Pos, a: Actor)
    requires
        forall|q: Pos| #[trigger] a0(q) ==> a1(q),
        met(l, a0, start, a),
    ensures
        met(l, a1, start, a),
{
    reveal(met);
    let k = choose|k: int| 0 <= k < schedule_positions(a).len() && #[trigger] reaches(l, a0, start, schedule_positions(a)[k]);
    lemma_reach_mono(l, a0, a1, start, schedule_positions(a)[k]);
}

proof fn lemma_obtainable_mono(l: &Layout, a0: spec_fn(Pos) -> bool, a1: spec_fn(Pos) -> bool, start: Pos, actors: Seq<Actor>, i: ItemInstance)
    requires
        forall|q: Pos| #[trigger] a0(q) ==> a1(q),
        obtainable(l, a0, start, actors, i),
    ensures
        obtainable(l, a1, start, actors, i),
{
    reveal(obtainable);
    match i.location {
        ItemLocation::Ground(p) => lemma_reach_mono(l, a0, a1, start, p),
        ItemLocation::CarriedBy(h) => lemma_met_mono(l, a0, a1, start, actors[h.0 as int]),
    }
}

/// What can be had under one test of tiles can be had under a wider one.
proof fn lemma_sound_mono(
    l: &Layout,
    d: &GameData,
    a0: spec_fn(Pos) -> bool,
    a1: spec_fn(Pos) -> bool,
    start: Pos,
    pop: Population,
    disguises: Seq<Seq<char>>,
    keys: Seq<Seq<char>>,
    invitation: bool,
)
    requires
        forall|q: Pos| #[trigger] a0(q) ==> a1(q),
        owned_soundly(l, d, a0, start, pop, disguises, keys, invitation),
    ensures
        owned_soundly(l, d, a1, start, pop, disguises, keys, invitation),
{
    assert forall|k: int| 0 <= k < disguises.len() implies wearable(l, a1, start, pop, #[trigger] disguises[k]) by {
        let x = disguises[k];
        assert(wearable(l, a0, start, pop, x));
        if x != "civilian"@ {
            if exists|i: int|
                0 <= i < pop.actors@.len() && (#[trigger] pop.actors@[i]).role is Some && pop.actors@[i].worn_disguise@ == x
                    && met(l, a0, start, pop.actors@[i]) {
                let i = choose|i: int|
                    0 <= i < pop.actors@.len() && (#[trigger] pop.actors@[i]).role is Some && pop.actors@[i].worn_disguise@
                        == x && met(l, a0, start, pop.actors@[i]);
                lemma_met_mono(l, a0, a1, start, pop.actors@[i]);
            } else {
                let j = choose|j: int|
                    0 <= j < l.furniture@.len() && (#[trigger] l.furniture@[j]).kind == FurnitureKind::Wardrobe
                        && stocks(l.furniture@[j], x) && beside(l, a0, start, l.furniture@[j]);
                let f = l.furniture@[j];
                reveal(beside);
                let dir = choose|dir: Dir4| #[trigger] reaches(l, a0, start, f.pos.spec_step(dir));
                lemma_reach_mono(l, a0, a1, start, f.pos.spec_step(dir));
            }
        }
    }
    assert forall|k: int| 0 <= k < keys.len() implies key_obtainable(l, d, a1, start, pop, #[trigger] keys[k]) by {
        let i = choose|i: int|
            0 <= i < pop.items@.len() && obtainable(l, a0, start, pop.actors@, #[trigger] pop.items@[i])
                && opens_with(d, pop.items@[i], keys[k]);
        lemma_obtainable_mono(l, a0, a1, start, pop.actors@, pop.items@[i]);
    }
    if invitation {
        let i = choose|i: int|
            0 <= i < pop.items@.len() && obtainable(l, a0, start, pop.actors@, #[trigger] pop.items@[i])
                && invites(d, pop.items@[i]);
        lemma_obtainable_mono(l, a0, a1, start, pop.actors@, pop.items@[i]);
    }
}

/// Owning more never lets a walker onto less.
proof fn lemma_access_mono(
    l: &Layout,
    d: &GameData,
    ds0: Seq<Seq<char>>,
    ks0: Seq<Seq<char>>,
    i0: bool,
    ds1: Seq<Seq<char>>,
    ks1: Seq<Seq<char>>,
    i1: bool,
)
    requires
        forall|x: Seq<char>| ds0.contains(x) ==> ds1.contains(x),
        forall|x: Seq<char>| ks0.contains(x) ==> ks1.contains(x),
        i0 ==> i1,
    ensures
        forall|q: Pos| #[trigger] access(l, d, ds0, ks0, i0)(q) ==> access(l, d, ds1, ks1, i1)(q),
{
    assert forall|q: Pos| #[trigger] access(l, d, ds0, ks0, i0)(q) implies access(l, d, ds1, ks1, i1)(q) by {
        assert(permits(l, d, ds0, ks0, i0, q));
        match spec_room_index(l.rooms@, q) {
            None => {},
            Some(ri) => {
                let k = choose|k: int| 0 <= k < ds0.len() && disguise_admits(d, #[trigger] ds0[k], l.rooms@[ri], i0);
                assert(ds0.contains(ds0[k]));
                let k1 = choose|k1: int| 0 <= k1 < ds1.len() && ds1[k1] == ds0[k];
                assert(disguise_admits(d, ds1[k1], l.rooms@[ri], i1));
            },
        }
    }
}

/// Whether `seen` holds exactly the tiles reachable from `start` through
/// `allow`, on a set shaped like the layout's map.
spec fn tracks(l: &Layout, seen: TileSet, allow: spec_fn(Pos) -> bool, start: Pos) -> bool {
    &&& seen.width == dim_i16(l.map.spec_width())
    &&& seen.height == dim_i16(l.map.spec_height())
    &&& seen.bits@.len() == l.map.spec_width() * l.map.spec_height() * l.map.spec_floor_count()
    &&& forall|q: Pos| seen.has(q) <==> #[trigger] reaches(l, allow, start, q)
}

/// Whether `p` is reachable, for any position, on or off the map.
fn seen_at(layout: &Layout, seen: &TileSet, p: Pos, Ghost(allow): Ghost<spec_fn(Pos) -> bool>, Ghost(start): Ghost<Pos>) -> (r: bool)
    requires
        layout.map.wf(),
        tracks(layout, *seen, allow, start),
    ensures
        r == reaches(layout, allow, start, p),
{
    if p.floor >= layout.map.floor_count() {
        proof {
            if reaches(layout, allow, start, p) {
                let path = choose|path: Seq<Pos>| #[trigger] walk(layout, allow, start, path) && path.last() == p;
                assert(open_tile(layout, allow, path[path.len() - 1]));
                crate::map::lemma_tile_on_map(layout.map, p);
            }
        }
        return false;
    }
    proof {
        lemma_covered(layout, seen, p);
    }
    let r = seen.contains(p);
    assert(r == seen.has(p));
    r
}

/// Whether an actor's schedule crosses reachable space.
fn met_in(layout: &Layout, seen: &TileSet, a: &Actor, Ghost(allow): Ghost<spec_fn(Pos) -> bool>, Ghost(start): Ghost<Pos>) -> (r: bool)
    requires
        layout.map.wf(),
        tracks(layout, *seen, allow, start),
    ensures
        r == met(layout, allow, start, *a),
{
    reveal(met);
    let ghost sp = schedule_positions(*a);
    assert(sp[0] == a.pos);
    if seen_at(layout, seen, a.pos, Ghost(allow), Ghost(start)) {
        return true;
    }
    match &a.ai {
        Some(ai) => {
            assert(sp.len() == 1 + ai.routine@.len());
            let mut k: usize = 0;
            while k < ai.routine.len()
                invariant
                    0 <= k <= ai.routine@.len(),
                    layout.map.wf(),
                    tracks(layout, *seen, allow, start),
                    sp == schedule_positions(*a),
                    a.ai == Some(*ai),
                    sp.len() == 1 + ai.routine@.len(),
                    forall|j: int| 0 <= j < 1 + k ==> !reaches(layout, allow, start, #[trigger] sp[j]),
                decreases ai.routine@.len() - k,
            {
                assert(sp[k as int + 1] == ai.routine@[k as int].pos);
                if seen_at(layout, seen, ai.routine[k].pos, Ghost(allow), Ghost(start)) {
                    proof {
                        reveal(met);
                    }
                    return true;
                }
                k = k + 1;
            }
        },
        None => {
            assert(sp.len() == 1);
        },
    }
    false
}

/// Whether a piece of furniture can be reached from some side.
fn beside_in(layout: &Layout, seen: &TileSet, f: &Furniture, Ghost(allow): Ghost<spec_fn(Pos) -> bool>, Ghost(start): Ghost<Pos>) -> (r: bool)
    requires
        layout.map.wf(),
        tracks(layout, *seen, allow, start),
        forall|d: Dir4| f.pos.can_step(d),
    ensures
        r == beside(layout, allow, start, *f),
{
    reveal(beside);
    let n = seen_at(layout, seen, f.pos.step(Dir4::North), Ghost(allow), Ghost(start));
    let e = seen_at(layout, seen, f.pos.step(Dir4::East), Ghost(allow), Ghost(start));
    let s = seen_at(layout, seen, f.pos.step(Dir4::South), Ghost(allow), Ghost(start));
    let w = seen_at(layout, seen, f.pos.step(Dir4::West), Ghost(allow), Ghost(start));
    proof {
        if !(n || e || s || w) {
            assert forall|dir: Dir4| !#[trigger] reaches(layout, allow, start, f.pos.spec_step(dir)) by {
                match dir {
                    Dir4::North => {},
                    Dir4::East => {},
                    Dir4::South => {},
                    Dir4::West => {},
                }
            }
        }
    }
    n || e || s || w
}

/// Each disguise that can be had is someone's clothes or a wardrobe's
/// stock, so a list of them without repeats is no longer than those.
#[verifier::spinoff_prover]
#[verifier::rlimit(40)]
proof fn lemma_disguise_bound(l: &Layout, allow: spec_fn(Pos) -> bool, start: Pos, pop: Population, ds: Seq<Seq<char>>)
    requires
        forall|k: int| 0 <= k < ds.len() ==> wearable(l, allow, start, pop, #[trigger] ds[k]),
        ds.no_duplicates(),
    ensures
        ds.len() <= 1 + pop.actors@.len() + l.furniture@.len(),
{
    let worn = pop.actors@.map_values(|a: Actor| a.worn_disguise@);
    let stock = l.furniture@.map_values(
        |f: Furniture|
            match f.disguise {
                Some(y) => y@,
                None => "civilian"@,
            },
    );
    let src = seq!["civilian"@] + worn + stock;
    assert forall|x: Seq<char>| #[trigger] ds.contains(x) implies src.contains(x) by {
        let k = choose|k: int| 0 <= k < ds.len() && ds[k] == x;
        assert(wearable(l, allow, start, pop, ds[k]));
        if x == "civilian"@ {
            assert(src[0] == x);
        } else if exists|i: int|
            0 <= i < pop.actors@.len() && (#[trigger] pop.actors@[i]).role is Some && pop.actors@[i].worn_disguise@ == x
                && met(l, allow, start, pop.actors@[i]) {
            let i = choose|i: int|
                0 <= i < pop.actors@.len() && (#[trigger] pop.actors@[i]).role is Some && pop.actors@[i].worn_disguise@
                    == x && met(l, allow, start, pop.actors@[i]);
            assert(src[1 + i] == worn[i]);
        } else {
            let j = choose|j: int|
                0 <= j < l.furniture@.len() && (#[trigger] l.furniture@[j]).kind == FurnitureKind::Wardrobe
                    && stocks(l.furniture@[j], x) && beside(l, allow, start, l.furniture@[j]);
            assert(src[1 + worn.len() + j] == stock[j]);
        }
    }
    assert(ds.to_set().subset_of(src.to_set()));
    vstd::seq_lib::seq_to_set_is_finite(src);
    ds.unique_seq_to_set();
    src.lemma_cardinality_of_set();
    vstd::set_lib::lemma_len_subset(ds.to_set(), src.to_set());
}

/// An item spec found by id carries that id.
proof fn lemma_item_id(d: &GameData, id: Seq<char>)
    ensures
        d.spec_item(id) matches Some(s) ==> s.id@ == id,
{
    if exists|i: int| 0 <= i < d.items@.len() && (#[trigger] d.items@[i]).id@ == id {
        let i = choose|i: int| 0 <= i < d.items@.len() && (#[trigger] d.items@[i]).id@ == id;
        lemma_first_item(d, id, i);
    }
}

/// Some item spec with id `id` comes first.
proof fn lemma_first_item(d: &GameData, id: Seq<char>, i: int)
    requires
        0 <= i < d.items@.len(),
        d.items@[i].id@ == id,
    ensures
        exists|k: int|
            0 <= k < d.items@.len() && d.items@[k].id@ == id && forall|j: int|
                0 <= j < k ==> (#[trigger] d.items@[j]).id@ != id,
    decreases i,
{
    if exists|j: int| 0 <= j < i && (#[trigger] d.items@[j]).id@ == id {
        let j = choose|j: int| 0 <= j < i && (#[trigger] d.items@[j]).id@ == id;
        lemma_first_item(d, id, j);
    } else {
        assert(forall|j: int| 0 <= j < i ==> (#[trigger] d.items@[j]).id@ != id);
    }
}

/// Each key that can be had is some item's spec, so a list of them
/// without repeats is no longer than the items.
#[verifier::spinoff_prover]
#[verifier::rlimit(40)]
proof fn lemma_key_bound(l: &Layout, d: &GameData, allow: spec_fn(Pos) -> bool, start: Pos, pop: Population, ks: Seq<Seq<char>>)
    requires
        forall|k: int| 0 <= k < ks.len() ==> key_obtainable(l, d, allow, start, pop, #[trigger] ks[k]),
        ks.no_duplicates(),
    ensures
        ks.len() <= pop.items@.len(),
{
    let specs = pop.items@.map_values(|i: ItemInstance| i.spec@);
    assert forall|x: Seq<char>| #[trigger] ks.contains(x) implies specs.contains(x) by {
        let k = choose|k: int| 0 <= k < ks.len() && ks[k] == x;
        assert(key_obtainable(l, d, allow, start, pop, ks[k]));
        let i = choose|i: int|
            0 <= i < pop.items@.len() && obtainable(l, allow, start, pop.actors@, #[trigger] pop.items@[i])
                && opens_with(d, pop.items@[i], x);
        lemma_item_id(d, pop.items@[i].spec@);
        assert(specs[i] == pop.items@[i].spec@);
    }
    assert(ks.to_set().subset_of(specs.to_set()));
    vstd::seq_lib::seq_to_set_is_finite(specs);
    ks.unique_seq_to_set();
    specs.lemma_cardinality_of_set();
    vstd::set_lib::lemma_len_subset(ks.to_set(), specs.to_set());
}

/// Whether a layout and its people can be walked for the progression:
/// the map is well formed and small enough to mark, every door tile names
/// a door, every item's spec is authored, every carried item's holder
/// exists, and every stocked wardrobe stands clear of the coordinate
/// limits.
pub open spec fn progression_ready(d: &GameData, l: &Layout, pop: Population) -> bool {
    &&& l.map.wf()
    &&& doors_named(l)
    &&& l.map.spec_width() * l.map.spec_height() <= usize::MAX
    &&& l.map.spec_width() * l.map.spec_height() * l.map.spec_floor_count() <= usize::MAX
    &&& forall|i: int| 0 <= i < pop.items@.len() ==> d.spec_item((#[trigger] pop.items@[i]).spec@) is Some
    &&& forall|i: int|
        0 <= i < pop.items@.len() ==> ((#[trigger] pop.items@[i]).location matches ItemLocation::CarriedBy(h)
            ==> h.0 < pop.actors@.len())
    &&& forall|j: int|
        0 <= j < l.furniture@.len() ==> ((#[trigger] l.furniture@[j]).kind == FurnitureKind::Wardrobe
            && l.furniture@[j].disguise is Some ==> forall|dir: Dir4| l.furniture@[j].pos.can_step(dir))
}

/// `list` with `m` added at the end unless it holds it already.
pub open spec fn with_new(list: Seq<Seq<char>>, m: Seq<char>) -> Seq<Seq<char>> {
    if list.contains(m) {
        list
    } else {
        list.push(m)
    }
}

/// `d` after taking, in population order, the clothes of the first `n`
/// people met within reach.
pub open spec fn worn_pass(l: &Layout, allow: spec_fn(Pos) -> bool, start: Pos, pop: Population, d: Seq<Seq<char>>, n: nat) -> Seq<Seq<char>>
    decreases n,
{
    if n == 0 {
        d
    } else {
        let acc = worn_pass(l, allow, start, pop, d, (n - 1) as nat);
        let a = pop.actors@[n - 1];
        if a.role is Some && met(l, allow, start, a) {
            with_new(acc, a.worn_disguise@)
        } else {
            acc
        }
    }
}

/// `d` after taking, in layout order, the stock of the first `n` pieces
/// of furniture that are stocked wardrobes within reach.
pub open spec fn stock_pass(l: &Layout, allow: spec_fn(Pos) -> bool, start: Pos, d: Seq<Seq<char>>, n: nat) -> Seq<Seq<char>>
    decreases n,
{
    if n == 0 {
        d
    } else {
        let acc = stock_pass(l, allow, start, d, (n - 1) as nat);
        let f = l.furniture@[n - 1];
        if f.kind == FurnitureKind::Wardrobe && f.disguise is Some && beside(l, allow, start, f) {
            with_new(acc, f.disguise.unwrap()@)
        } else {
            acc
        }
    }
}

/// `k` after taking, in population order, the key of each of the first
/// `n` items within reach that unlocks something.
pub open spec fn key_pass(
    l: &Layout,
    d: &GameData,
    allow: spec_fn(Pos) -> bool,
    start: Pos,
    pop: Population,
    k: Seq<Seq<char>>,
    n: nat,
) -> Seq<Seq<char>>
    decreases n,
{
    if n == 0 {
        k
    } else {
        let acc = key_pass(l, d, allow, start, pop, k, (n - 1) as nat);
        let i = pop.items@[n - 1];
        match d.spec_item(i.spec@) {
            Some(s) => if obtainable(l, allow, start, pop.actors@, i) && s.unlocks is Some {
                with_new(acc, s.id@)
            } else {
                acc
            },
            None => acc,
        }
    }
}

/// Whether the invitation is held after the first `n` items within
/// reach, starting from `inv`.
pub open spec fn invite_pass(
    l: &Layout,
    d: &GameData,
    allow: spec_fn(Pos) -> bool,
    start: Pos,
    pop: Population,
    inv: bool,
    n: nat,
) -> bool
    decreases n,
{
    if n == 0 {
        inv
    } else {
        let i = pop.items@[n - 1];
        invite_pass(l, d, allow, start, pop, inv, (n - 1) as nat) || match d.spec_item(i.spec@) {
            Some(s) => obtainable(l, allow, start, pop.actors@, i) && s.invitation,
            None => false,
        }
    }
}

/// One round of the progression from owned disguises, keys and
/// invitation: walk what they allow, then take the clothes of the people
/// met, the stock of the wardrobes reached, and the keys and invitation
/// within reach, each in the order they are listed.
pub open spec fn progression_round(
    l: &Layout,
    d: &GameData,
    start: Pos,
    pop: Population,
    st: (Seq<Seq<char>>, Seq<Seq<char>>, bool),
) -> (Seq<Seq<char>>, Seq<Seq<char>>, bool) {
    let allow = access(l, d, st.0, st.1, st.2);
    (
        stock_pass(l, allow, start, worn_pass(l, allow, start, pop, st.0, pop.actors@.len()), l.furniture@.len()),
        key_pass(l, d, allow, start, pop, st.1, pop.items@.len()),
        invite_pass(l, d, allow, start, pop, st.2, pop.items@.len()),
    )
}

/// The progression after `n` rounds from a civilian start with nothing.
pub open spec fn progression_after(l: &Layout, d: &GameData, start: Pos, pop: Population, n: nat) -> (
    Seq<Seq<char>>,
    Seq<Seq<char>>,
    bool,
)
    decreases n,
{
    if n == 0 {
        (seq!["civilian"@], Seq::empty(), false)
    } else {
        progression_round(l, d, start, pop, progression_after(l, d, start, pop, (n - 1) as nat))
    }
}

/// Once a round of the progression changes nothing, no later round
/// does: the rounds settle on one result, so the fixpoint they reach is
/// the only one on the way.
pub proof fn law_progression_settles(l: &Layout, d: &GameData, start: Pos, pop: Population, n: nat, m: nat)
    requires
        progression_round(l, d, start, pop, progression_after(l, d, start, pop, n)) == progression_after(
            l,
            d,
            start,
            pop,
            n,
        ),
        n <= m,
    ensures
        progression_after(l, d, start, pop, m) == progression_after(l, d, start, pop, n),
    decreases m - n,
{
    if n < m {
        law_progression_settles(l, d, start, pop, n, (m - 1) as nat);
    }
}

/// Appends `x` to `list`, which does not hold it yet.
fn add_new(list: &mut Vec<String>, x: String)
    requires
        !views(old(list)@).contains(x@),
        views(old(list)@).no_duplicates(),
    ensures
        views(final(list)@) == views(old(list)@).push(x@),
        views(final(list)@).no_duplicates(),
{
    let ghost before = views(list@);
    list.push(x);
    assert(views(list@) =~= before.push(x@));
}

/// Adds the clothes of everyone met within reach.
fn gain_worn(
    layout: &Layout,
    pop: &Population,
    seen: &TileSet,
    disguises: &mut Vec<String>,
    Ghost(allow): Ghost<spec_fn(Pos) -> bool>,
    Ghost(start): Ghost<Pos>,
) -> (grew: bool)
    requires
        layout.map.wf(),
        tracks(layout, *seen, allow, start),
        views(old(disguises)@).no_duplicates(),
    ensures
        views(old(disguises)@).len() <= views(final(disguises)@).len(),
        views(old(disguises)@) == views(final(disguises)@).subrange(0, views(old(disguises)@).len() as int),
        views(final(disguises)@).no_duplicates(),
        grew == (views(final(disguises)@).len() > views(old(disguises)@).len()),
        forall|k: int|
            views(old(disguises)@).len() <= k < views(final(disguises)@).len() ==> wearable(
                layout,
                allow,
                start,
                *pop,
                #[trigger] views(final(disguises)@)[k],
            ),
        forall|i: int|
            0 <= i < pop.actors@.len() && (#[trigger] pop.actors@[i]).role is Some && met(layout, allow, start, pop.actors@[i])
                ==> views(final(disguises)@).contains(pop.actors@[i].worn_disguise@),
        views(final(disguises)@) == worn_pass(layout, allow, start, *pop, views(old(disguises)@), pop.actors@.len()),
{
    let ghost d0 = views(disguises@);
    let n0 = disguises.len();
    let mut i: usize = 0;
    while i < pop.actors.len()
        invariant
            0 <= i <= pop.actors@.len(),
            views(disguises@) == worn_pass(layout, allow, start, *pop, d0, i as nat),
            layout.map.wf(),
            tracks(layout, *seen, allow, start),
            d0 == views(disguises@).subrange(0, d0.len() as int),
            d0.len() <= views(disguises@).len(),
            views(disguises@).no_duplicates(),
            forall|k: int|
                d0.len() <= k < views(disguises@).len() ==> wearable(layout, allow, start, *pop, #[trigger] views(disguises@)[k]),
            forall|j: int|
                0 <= j < i && (#[trigger] pop.actors@[j]).role is Some && met(layout, allow, start, pop.actors@[j])
                    ==> views(disguises@).contains(pop.actors@[j].worn_disguise@),
        decreases pop.actors@.len() - i,
    {
        let a = &pop.actors[i];
        if !a.is_player() && met_in(layout, seen, a, Ghost(allow), Ghost(start)) && !holds(
            disguises,
            a.worn_disguise.as_str(),
        ) {
            let ghost before = views(disguises@);
            add_new(disguises, a.worn_disguise.clone());
            proof {
                assert forall|x: Seq<char>| before.contains(x) implies views(disguises@).contains(x) by {
                    let k = choose|k: int| 0 <= k < before.len() && before[k] == x;
                    assert(views(disguises@)[k] == x);
                }
                assert(views(disguises@).subrange(0, d0.len() as int) =~= before.subrange(0, d0.len() as int));
                assert(views(disguises@)[before.len() as int] == a.worn_disguise@);
                assert(views(disguises@).contains(a.worn_disguise@));
                assert(wearable(layout, allow, start, *pop, a.worn_disguise@));
                assert(views(disguises@) == with_new(before, a.worn_disguise@));
            }
        }
        i = i + 1;
    }
    disguises.len() > n0
}

/// Adds the stock of every wardrobe within reach.
fn gain_stocked(
    data: &GameData,
    layout: &Layout,
    pop: &Population,
    seen: &TileSet,
    disguises: &mut Vec<String>,
    Ghost(allow): Ghost<spec_fn(Pos) -> bool>,
    Ghost(start): Ghost<Pos>,
) -> (grew: bool)
    requires
        progression_ready(data, layout, *pop),
        tracks(layout, *seen, allow, start),
        views(old(disguises)@).no_duplicates(),
    ensures
        views(old(disguises)@).len() <= views(final(disguises)@).len(),
        views(old(disguises)@) == views(final(disguises)@).subrange(0, views(old(disguises)@).len() as int),
        views(final(disguises)@).no_duplicates(),
        grew == (views(final(disguises)@).len() > views(old(disguises)@).len()),
        forall|k: int|
            views(old(disguises)@).len() <= k < views(final(disguises)@).len() ==> wearable(
                layout,
                allow,
                start,
                *pop,
                #[trigger] views(final(disguises)@)[k],
            ),
        forall|j: int|
            0 <= j < layout.furniture@.len() && (#[trigger] layout.furniture@[j]).kind == FurnitureKind::Wardrobe
                && layout.furniture@[j].disguise is Some && beside(layout, allow, start, layout.furniture@[j])
                ==> views(final(disguises)@).contains(layout.furniture@[j].disguise.unwrap()@),
        views(final(disguises)@) == stock_pass(layout, allow, start, views(old(disguises)@), layout.furniture@.len()),
{
    let ghost d0 = views(disguises@);
    let n0 = disguises.len();
    let mut k: usize = 0;
    while k < layout.furniture.len()
        invariant
            0 <= k <= layout.furniture@.len(),
            views(disguises@) == stock_pass(layout, allow, start, d0, k as nat),
            progression_ready(data, layout, *pop),
            tracks(layout, *seen, allow, start),
            d0 == views(disguises@).subrange(0, d0.len() as int),
            d0.len() <= views(disguises@).len(),
            n0 == d0.len(),
            views(disguises@).no_duplicates(),
            forall|q: int|
                d0.len() <= q < views(disguises@).len() ==> wearable(layout, allow, start, *pop, #[trigger] views(disguises@)[q]),
            forall|j: int|
                0 <= j < k && (#[trigger] layout.furniture@[j]).kind == FurnitureKind::Wardrobe
                    && layout.furniture@[j].disguise is Some && beside(layout, allow, start, layout.furniture@[j])
                    ==> views(disguises@).contains(layout.furniture@[j].disguise.unwrap()@),
        decreases layout.furniture@.len() - k,
    {
        let f = &layout.furniture[k];
        if f.kind == FurnitureKind::Wardrobe {
            match &f.disguise {
                Some(y) => {
                    if !holds(disguises, y.as_str()) {
                        proof {
                            assert(forall|dir: Dir4| f.pos.can_step(dir));
                        }
                        if beside_in(layout, seen, f, Ghost(allow), Ghost(start)) {
                            let ghost before = views(disguises@);
                            add_new(disguises, y.clone());
                            proof {
                                assert forall|x: Seq<char>| before.contains(x) implies views(disguises@).contains(x) by {
                                    let q = choose|q: int| 0 <= q < before.len() && before[q] == x;
                                    assert(views(disguises@)[q] == x);
                                }
                                assert(views(disguises@).subrange(0, d0.len() as int) =~= before.subrange(
                                    0,
                                    d0.len() as int,
                                ));
                                assert(views(disguises@)[before.len() as int] == y@);
                                assert(views(disguises@).contains(y@));
                                assert(stocks(layout.furniture@[k as int], y@));
                                assert(wearable(layout, allow, start, *pop, y@));
                                assert(views(disguises@) == with_new(before, y@));
                            }
                        }
                    }
                },
                None => {},
            }
        }
        k = k + 1;
    }
    disguises.len() > n0
}

/// Adds the keys, and the invitation, of every item within reach.
#[verifier::spinoff_prover]
#[verifier::rlimit(80)]
fn gain_items(
    data: &GameData,
    layout: &Layout,
    pop: &Population,
    seen: &TileSet,
    keys: &mut Vec<String>,
    invitation: &mut bool,
    Ghost(allow): Ghost<spec_fn(Pos) -> bool>,
    Ghost(start): Ghost<Pos>,
) -> (grew: bool)
    requires
        progression_ready(data, layout, *pop),
        tracks(layout, *seen, allow, start),
        views(old(keys)@).no_duplicates(),
    ensures
        views(old(keys)@).len() <= views(final(keys)@).len(),
        views(old(keys)@) == views(final(keys)@).subrange(0, views(old(keys)@).len() as int),
        views(final(keys)@).no_duplicates(),
        *old(invitation) ==> *final(invitation),
        grew == (views(final(keys)@).len() > views(old(keys)@).len() || *final(invitation) != *old(invitation)),
        forall|k: int|
            views(old(keys)@).len() <= k < views(final(keys)@).len() ==> key_obtainable(
                layout,
                data,
                allow,
                start,
                *pop,
                #[trigger] views(final(keys)@)[k],
            ),
        *final(invitation) && !*old(invitation) ==> invitation_obtainable(layout, data, allow, start, *pop),
        forall|i: int|
            0 <= i < pop.items@.len() && obtainable(layout, allow, start, pop.actors@, #[trigger] pop.items@[i])
                ==> match data.spec_item(pop.items@[i].spec@) {
                Some(s) => (s.unlocks is Some ==> views(final(keys)@).contains(s.id@)) && (s.invitation
                    ==> *final(invitation)),
                None => true,
            },
        views(final(keys)@) == key_pass(layout, data, allow, start, *pop, views(old(keys)@), pop.items@.len()),
        *final(invitation) == invite_pass(layout, data, allow, start, *pop, *old(invitation), pop.items@.len()),
{
    let ghost k0 = views(keys@);
    let ghost i0 = *invitation;
    let n0 = keys.len();
    let had = *invitation;
    let mut m: usize = 0;
    while m < pop.items.len()
        invariant
            0 <= m <= pop.items@.len(),
            views(keys@) == key_pass(layout, data, allow, start, *pop, k0, m as nat),
            *invitation == invite_pass(layout, data, allow, start, *pop, i0, m as nat),
            progression_ready(data, layout, *pop),
            tracks(layout, *seen, allow, start),
            k0 == views(keys@).subrange(0, k0.len() as int),
            k0.len() <= views(keys@).len(),
            n0 == k0.len(),
            had == i0,
            i0 ==> *invitation,
            views(keys@).no_duplicates(),
            forall|q: int|
                k0.len() <= q < views(keys@).len() ==> key_obtainable(layout, data, allow, start, *pop, #[trigger] views(keys@)[q]),
            *invitation && !i0 ==> invitation_obtainable(layout, data, allow, start, *pop),
            forall|j: int|
                0 <= j < m && obtainable(layout, allow, start, pop.actors@, #[trigger] pop.items@[j])
                    ==> match data.spec_item(pop.items@[j].spec@) {
                    Some(s) => (s.unlocks is Some ==> views(keys@).contains(s.id@)) && (s.invitation ==> *invitation),
                    None => true,
                },
        decreases pop.items@.len() - m,
    {
        let item = &pop.items[m];
        let spec = match data.item(item.spec.as_str()) {
            Some(s) => s,
            None => {
                proof {
                    assert(data.spec_item(pop.items@[m as int].spec@) is Some);
                }
                m = m + 1;
                continue;
            },
        };
        let can_have = match item.location {
            ItemLocation::Ground(pos) => seen_at(layout, seen, pos, Ghost(allow), Ghost(start)),
            ItemLocation::CarriedBy(holder) => {
                let h = &pop.actors[holder.0 as usize];
                !h.is_player() && met_in(layout, seen, h, Ghost(allow), Ghost(start))
            },
        };
        proof {
            reveal(obtainable);
            assert(can_have == obtainable(layout, allow, start, pop.actors@, pop.items@[m as int]));
        }
        proof {
            let it = pop.items@[m as int];
            assert(data.spec_item(it.spec@) == Some(*spec));
            assert(key_pass(layout, data, allow, start, *pop, k0, (m + 1) as nat) == if can_have && spec.unlocks is Some {
                with_new(key_pass(layout, data, allow, start, *pop, k0, m as nat), spec.id@)
            } else {
                key_pass(layout, data, allow, start, *pop, k0, m as nat)
            });
            assert(invite_pass(layout, data, allow, start, *pop, i0, (m + 1) as nat) == (invite_pass(
                layout,
                data,
                allow,
                start,
                *pop,
                i0,
                m as nat,
            ) || (can_have && spec.invitation)));
        }
        if can_have {
            let ghost before = views(keys@);
            if spec.unlocks.is_some() && !holds(keys, spec.id.as_str()) {
                add_new(keys, spec.id.clone());
                proof {
                    assert forall|x: Seq<char>| before.contains(x) implies views(keys@).contains(x) by {
                        let q = choose|q: int| 0 <= q < before.len() && before[q] == x;
                        assert(views(keys@)[q] == x);
                    }
                    assert(views(keys@).subrange(0, k0.len() as int) =~= before.subrange(0, k0.len() as int));
                    assert(views(keys@)[before.len() as int] == spec.id@);
                    assert(opens_with(data, pop.items@[m as int], spec.id@));
                    assert(key_obtainable(layout, data, allow, start, *pop, spec.id@));
                    assert(views(keys@) == with_new(before, spec.id@));
                }
            }
            if spec.invitation && !*invitation {
                *invitation = true;
                proof {
                    assert(invites(data, pop.items@[m as int]));
                }
            }
        }
        m = m + 1;
    }
    keys.len() > n0 || *invitation != had
}

/// What a walker who starts as a civilian with nothing can come to own.
pub struct Progression {
    pub disguises: Vec<String>,
    pub keys: Vec<String>,
    pub invitation: bool,
}

/// The progression from a civilian start with nothing: walk what the owned
/// disguises, keys and invitation allow, take every disguise from people
/// met and wardrobes within reach, every key and invitation within reach,
/// and walk again, until nothing more can be had.
#[verifier::spinoff_prover]
#[verifier::rlimit(80)]
pub fn progression_closure(data: &GameData, layout: &Layout, pop: &Population, start: Pos) -> (r: Progression)
    requires
        progression_ready(data, layout, *pop),
    ensures
        views(r.disguises@).len() >= 1,
        views(r.disguises@)[0] == "civilian"@,
        views(r.disguises@).no_duplicates(),
        views(r.keys@).no_duplicates(),
        owned_soundly(
            layout,
            data,
            access(layout, data, views(r.disguises@), views(r.keys@), r.invitation),
            start,
            *pop,
            views(r.disguises@),
            views(r.keys@),
            r.invitation,
        ),
        closed_under(layout, data, start, *pop, views(r.disguises@), views(r.keys@), r.invitation),
        exists|n: nat|
            #[trigger] progression_after(layout, data, start, *pop, n) == (
                views(r.disguises@),
                views(r.keys@),
                r.invitation,
            ),
        progression_round(layout, data, start, *pop, (views(r.disguises@), views(r.keys@), r.invitation)) == (
            views(r.disguises@),
            views(r.keys@),
            r.invitation,
        ),
{
    let mut disguises: Vec<String> = Vec::new();
    disguises.push(owned("civilian"));
    let mut keys: Vec<String> = Vec::new();
    let mut invitation = false;
    let ghost mut rounds: nat = 0;
    proof {
        assert(views(disguises@) =~= seq!["civilian"@]);
        assert(views(keys@) =~= Seq::<Seq<char>>::empty());
    }
    loop
        invariant
            progression_ready(data, layout, *pop),
            (views(disguises@), views(keys@), invitation) == progression_after(layout, data, start, *pop, rounds),
            views(disguises@).len() >= 1,
            views(disguises@)[0] == "civilian"@,
            views(disguises@).no_duplicates(),
            views(keys@).no_duplicates(),
            owned_soundly(
                layout,
                data,
                access(layout, data, views(disguises@), views(keys@), invitation),
                start,
                *pop,
                views(disguises@),
                views(keys@),
                invitation,
            ),
        decreases (1 + pop.actors@.len() + layout.furniture@.len() - disguises@.len()) + (pop.items@.len()
            - keys@.len()) + if invitation {
            0int
        } else {
            1int
        },
    {
        let ghost d0 = views(disguises@);
        let ghost k0 = views(keys@);
        let ghost i0 = invitation;
        let ghost allow = access(layout, data, d0, k0, i0);
        proof {
            lemma_disguise_bound(layout, allow, start, *pop, d0);
            lemma_key_bound(layout, data, allow, start, *pop, k0);
        }
        let clearance = Clearance {
            enforced: true,
            disguises: clone_strings(&disguises),
            keys: clone_strings(&keys),
            invitation,
        };
        let seen = reachable_tiles(layout, data, &clearance, start);
        proof {
            assert(cleared(layout, data, &clearance) =~= allow);
        }
        let worn = gain_worn(layout, pop, &seen, &mut disguises, Ghost(allow), Ghost(start));
        let ghost d1 = views(disguises@);
        let stocked = gain_stocked(data, layout, pop, &seen, &mut disguises, Ghost(allow), Ghost(start));
        let items = gain_items(data, layout, pop, &seen, &mut keys, &mut invitation, Ghost(allow), Ghost(start));
        let ghost d2 = views(disguises@);
        let ghost k2 = views(keys@);
        proof {
            assert(d2.subrange(0, d1.len() as int).subrange(0, d0.len() as int) =~= d2.subrange(0, d0.len() as int));
            assert(d0 == d2.subrange(0, d0.len() as int));
            assert forall|x: Seq<char>| d0.contains(x) implies d2.contains(x) by {
                let q = choose|q: int| 0 <= q < d0.len() && d0[q] == x;
                assert(d2[q] == x);
            }
            assert forall|x: Seq<char>| k0.contains(x) implies k2.contains(x) by {
                let q = choose|q: int| 0 <= q < k0.len() && k0[q] == x;
                assert(k2[q] == x);
            }
            assert forall|k: int| 0 <= k < d2.len() implies wearable(layout, allow, start, *pop, #[trigger] d2[k]) by {
                if k < d0.len() {
                    assert(d2[k] == d0[k]);
                } else if k < d1.len() {
                    assert(d2[k] == d1[k]);
                }
            }
            assert forall|k: int| 0 <= k < k2.len() implies key_obtainable(layout, data, allow, start, *pop, #[trigger] k2[k]) by {
                if k < k0.len() {
                    assert(k2[k] == k0[k]);
                }
            }
            assert(d2[0] == "civilian"@);
        }
        if !worn && !stocked && !items {
            proof {
                assert(d2 =~= d0);
                assert(k2 =~= k0);
                assert(forall|i: int|
                    0 <= i < pop.actors@.len() && (#[trigger] pop.actors@[i]).role is Some && met(layout, allow, start, pop.actors@[i])
                        ==> d1.contains(pop.actors@[i].worn_disguise@));
                assert(d1 =~= d0);
            }
            proof {
                assert(progression_round(layout, data, start, *pop, (d0, k0, i0)) == (d2, k2, invitation));
                assert(progression_after(layout, data, start, *pop, rounds) == (d0, k0, i0));
            }
            return Progression { disguises, keys, invitation };
        }
        proof {
            assert(progression_round(layout, data, start, *pop, (d0, k0, i0)) == (d2, k2, invitation));
            rounds = rounds + 1;
        }
        proof {
            let a1 = access(layout, data, d2, k2, invitation);
            lemma_access_mono(layout, data, d0, k0, i0, d2, k2, invitation);
            lemma_sound_mono(layout, data, allow, a1, start, *pop, d2, k2, invitation);
            lemma_disguise_bound(layout, a1, start, *pop, d2);
            lemma_key_bound(layout, data, a1, start, *pop, k2);
        }
    }
}

/// The items a population holds, by spec id.
pub fn item_spec_ids(items: &[ItemInstance]) -> (r: Vec<&str>)
    ensures
        r@.len() == items@.len(),
        forall|i: int| 0 <= i < items@.len() ==> (#[trigger] r@[i])@ == items@[i].spec@,
{
    let mut r: Vec<&str> = Vec::new();
    let mut i: usize = 0;
    while i < items.len()
        invariant
            0 <= i <= items@.len(),
            r@.len() == i,
            forall|j: int| 0 <= j < i ==> (#[trigger] r@[j])@ == items@[j].spec@,
        decreases items@.len() - i,
    {
        r.push(items[i].spec.as_str());
        i = i + 1;
    }
    r
}

} // verus!
