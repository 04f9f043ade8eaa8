//! The security-gradient venue graph.
//!
//! Before any tile exists, the whole room graph of a venue is decided:
//! which rooms exist, which storey and circulation side each sits on, the
//! west-to-east security-band ordering (public shallowest, personal
//! deepest), and every connection. The graph-level guarantees are checked
//! here; realisation only carves what the graph already guarantees.
use vstd::prelude::*;

use crate::data::{GameData, VenueSpec, Zone};
use crate::geom::FloorId;
use crate::text::{decimal, owned, spec_decimal};

verus! {

/// Which circulation a room fronts onto.
#[derive(Clone, Copy, Debug, PartialEq, Eq, Structural)]
pub enum Shelf {
    /// Between the service corridor and the main corridor; may hold a
    /// service door in addition to its main door.
    Service,
    /// Between the main corridor and the outer wall; external exits live
    /// here.
    Main,
}

/// One room decided on, before tiles.
#[derive(Clone, Debug)]
pub struct RoomNode {
    pub template_index: usize,
    pub name: String,
    pub floor: FloorId,
    pub width: i16,
    pub height: i16,
    pub band: Zone,
    pub shelf: Shelf,
    /// A door onto the service corridor.
    pub service_door: bool,
}

/// One storey of the venue graph: rooms in west-to-east order per shelf,
/// plus the pass-through doors between consecutive rooms.
#[derive(Clone, Debug)]
pub struct FloorPlan {
    pub floor: FloorId,
    pub service_shelf: Vec<RoomNode>,
    pub main_shelf: Vec<RoomNode>,
    /// `service_pass[i]`: a connecting door between `service_shelf[i]`
    /// and `service_shelf[i + 1]`.
    pub service_pass: Vec<bool>,
    /// Likewise for the main shelf.
    pub main_pass: Vec<bool>,
}

/// The venue graph: everything about connectivity, decided before
/// geometry.
#[derive(Clone, Debug)]
pub struct VenueGraph {
    pub floors: Vec<FloorPlan>,
    /// Index into the authored room templates of the circulation
    /// (service corridor) template.
    pub circulation_template: usize,
}

/// How deep a security band sits, west to east along a shelf.
pub open spec fn spec_band_depth(zone: Zone) -> u8 {
    match zone {
        Zone::Public => 0,
        Zone::Staff => 1,
        Zone::Secure => 2,
        Zone::Personal => 3,
    }
}

pub fn band_depth(zone: Zone) -> (r: u8)
    ensures
        r == spec_band_depth(zone),
{
    match zone {
        Zone::Public => 0,
        Zone::Staff => 1,
        Zone::Secure => 2,
        Zone::Personal => 3,
    }
}

/// Between consecutive rooms of a shelf, a pass-through door exactly
/// where neither room is public.
pub open spec fn spec_pass_doors(shelf: Seq<RoomNode>) -> Seq<bool> {
    Seq::new(
        if shelf.len() == 0 {
            0
        } else {
            (shelf.len() - 1) as nat
        },
        |i: int| shelf[i].band != Zone::Public && shelf[i + 1].band != Zone::Public,
    )
}

/// The pass-through doors of a shelf, one per pair of neighbours.
pub fn pass_doors(shelf: &[RoomNode]) -> (r: Vec<bool>)
    ensures
        r@ == spec_pass_doors(shelf@),
{
    let mut r: Vec<bool> = Vec::new();
    if shelf.len() == 0 {
        assert(r@ =~= spec_pass_doors(shelf@));
        return r;
    }
    let last: usize = shelf.len() - 1;
    let mut i: usize = 0;
    while i < last
        invariant
            last == shelf@.len() - 1,
            0 <= i <= last,
            r@.len() == i,
            forall|k: int|
                0 <= k < i ==> #[trigger] r@[k] == (shelf@[k].band != Zone::Public && shelf@[k
                    + 1].band != Zone::Public),
        decreases shelf@.len() - i,
    {
        r.push(shelf[i].band != Zone::Public && shelf[i + 1].band != Zone::Public);
        i = i + 1;
    }
    assert(r@ =~= spec_pass_doors(shelf@));
    r
}

/// Whether the shelf's band depth drops from room `i` to room `i + 1`.
pub open spec fn steps_down(shelf: Seq<RoomNode>, i: int) -> bool {
    spec_band_depth(shelf[i].band) > spec_band_depth(shelf[i + 1].band)
}

/// Whether the security gradient holds along a shelf: no room is
/// shallower than the one before it.
pub open spec fn graded(shelf: Seq<RoomNode>) -> bool {
    forall|i: int| 0 <= i < shelf.len() - 1 ==> !#[trigger] steps_down(shelf, i)
}

pub open spec fn plan_graded(plan: FloorPlan) -> bool {
    graded(plan.service_shelf@) && graded(plan.main_shelf@)
}

/// The first storey on which the gradient breaks, if any.
pub open spec fn first_ungraded(floors: Seq<FloorPlan>) -> Option<int> {
    if exists|i: int| 0 <= i < floors.len() && !plan_graded(#[trigger] floors[i]) {
        Some(
            choose|i: int|
                0 <= i < floors.len() && !plan_graded(floors[i]) && forall|j: int|
                    0 <= j < i ==> plan_graded(#[trigger] floors[j]),
        )
    } else {
        None
    }
}

/// Whether some room of the shelf has an exit to the street.
pub open spec fn exit_on_shelf(data: GameData, shelf: Seq<RoomNode>) -> bool {
    exists|k: int| 0 <= k < shelf.len() && data.rooms@[(#[trigger] shelf[k]).template_index as int].external_exit
}

/// The width a shelf needs at minimum room sizes: each room plus its
/// dividing wall.
pub open spec fn shelf_min_total(data: GameData, shelf: Seq<RoomNode>) -> int
    decreases shelf.len(),
{
    if shelf.len() == 0 {
        0
    } else {
        shelf_min_total(data, shelf.drop_last()) + data.rooms@[shelf.last().template_index as int].min_size.0
            + 1
    }
}

/// Whether both shelves of a storey fit its width, the service shelf
/// starting at column 6 and the main shelf at column 3.
pub open spec fn plan_fits(data: GameData, width: int, plan: FloorPlan) -> bool {
    6 + shelf_min_total(data, plan.service_shelf@) < width - 3 && 3 + shelf_min_total(
        data,
        plan.main_shelf@,
    ) < width - 3
}

/// The first storey whose shelves overflow even at minimum sizes, if any.
pub open spec fn first_overflowing(data: GameData, width: int, floors: Seq<FloorPlan>) -> Option<int> {
    if exists|i: int| 0 <= i < floors.len() && !plan_fits(data, width, #[trigger] floors[i]) {
        Some(
            choose|i: int|
                0 <= i < floors.len() && !plan_fits(data, width, floors[i]) && forall|j: int|
                    0 <= j < i ==> plan_fits(data, width, #[trigger] floors[j]),
        )
    } else {
        None
    }
}

/// Whether every room of the shelf names an authored template whose
/// minimum width fits a signed 16-bit coordinate, and the shelf's total
/// from column `start` fits one too.
pub open spec fn shelf_in_range(data: GameData, shelf: Seq<RoomNode>, start: int) -> bool {
    &&& forall|k: int|
        0 <= k < shelf.len() ==> (#[trigger] shelf[k]).template_index < data.rooms@.len()
            && data.rooms@[shelf[k].template_index as int].min_size.0 <= i16::MAX
    &&& start + shelf_min_total(data, shelf) <= i16::MAX
}

/// The arithmetic range the graph check works in: every room names an
/// authored template, and widths fit signed 16-bit coordinates.
pub open spec fn graph_in_range(data: GameData, venue: VenueSpec, graph: VenueGraph) -> bool {
    &&& venue.floor_width <= i16::MAX
    &&& forall|i: int|
        0 <= i < graph.floors@.len() ==> shelf_in_range(data, (#[trigger] graph.floors@[i]).service_shelf@, 6)
            && shelf_in_range(data, graph.floors@[i].main_shelf@, 3)
}

fn is_graded(shelf: &Vec<RoomNode>) -> (r: bool)
    ensures
        r == graded(shelf@),
{
    if shelf.len() == 0 {
        return true;
    }
    let last: usize = shelf.len() - 1;
    let mut i: usize = 0;
    while i < last
        invariant
            last == shelf@.len() - 1,
            0 <= i <= last,
            forall|k: int| 0 <= k < i ==> !#[trigger] steps_down(shelf@, k),
        decreases shelf@.len() - i,
    {
        if band_depth(shelf[i].band) > band_depth(shelf[i + 1].band) {
            assert(steps_down(shelf@, i as int));
            return false;
        }
        i = i + 1;
    }
    true
}

fn has_exit(data: &GameData, shelf: &Vec<RoomNode>) -> (r: bool)
    requires
        forall|k: int| 0 <= k < shelf@.len() ==> (#[trigger] shelf@[k]).template_index < data.rooms@.len(),
    ensures
        r == exit_on_shelf(*data, shelf@),
{
    let mut k: usize = 0;
    while k < shelf.len()
        invariant
            0 <= k <= shelf@.len(),
            forall|q: int| 0 <= q < shelf@.len() ==> (#[trigger] shelf@[q]).template_index < data.rooms@.len(),
            forall|q: int|
                0 <= q < k ==> !data.rooms@[(#[trigger] shelf@[q]).template_index as int].external_exit,
        decreases shelf@.len() - k,
    {
        if data.rooms[shelf[k].template_index].external_exit {
            return true;
        }
        k = k + 1;
    }
    false
}

fn min_total(data: &GameData, shelf: &Vec<RoomNode>, start: i16) -> (r: i16)
    requires
        0 <= start,
        shelf_in_range(*data, shelf@, start as int),
    ensures
        r == shelf_min_total(*data, shelf@),
{
    let mut total: i16 = 0;
    let mut k: usize = 0;
    while k < shelf.len()
        invariant
            0 <= k <= shelf@.len(),
            0 <= start,
            shelf_in_range(*data, shelf@, start as int),
            total == shelf_min_total(*data, shelf@.subrange(0, k as int)),
        decreases shelf@.len() - k,
    {
        proof {
            lemma_total_prefix(*data, shelf@, k as int + 1);
            assert(shelf@.subrange(0, k as int + 1).drop_last() == shelf@.subrange(0, k as int));
        }
        let w: i16 = data.rooms[shelf[k].template_index].min_size.0 as i16;
        total = total + w + 1;
        k = k + 1;
    }
    assert(shelf@.subrange(0, shelf@.len() as int) == shelf@);
    total
}

proof fn lemma_total_prefix(data: GameData, shelf: Seq<RoomNode>, k: int)
    requires
        0 <= k <= shelf.len(),
        forall|q: int| 0 <= q < shelf.len() ==> (#[trigger] shelf[q]).template_index < data.rooms@.len(),
    ensures
        0 <= shelf_min_total(data, shelf.subrange(0, k)) <= shelf_min_total(data, shelf),
    decreases shelf.len() - k,
{
    if k < shelf.len() {
        lemma_total_prefix(data, shelf, k + 1);
        assert(shelf.subrange(0, k + 1).drop_last() == shelf.subrange(0, k));
        lemma_total_nonneg(data, shelf.subrange(0, k));
    } else {
        assert(shelf.subrange(0, k) == shelf);
        lemma_total_nonneg(data, shelf);
    }
}

proof fn lemma_total_nonneg(data: GameData, shelf: Seq<RoomNode>)
    ensures
        shelf_min_total(data, shelf) >= 0,
    decreases shelf.len(),
{
    if shelf.len() > 0 {
        lemma_total_nonneg(data, shelf.drop_last());
    }
}

fn floor_message(floor: FloorId, tail: &str) -> (r: String)
    ensures
        r@ == "floor "@ + spec_decimal(floor as nat) + tail@,
{
    let mut m = owned("floor ");
    m.append(decimal(floor as u64).as_str());
    m.append(tail);
    m
}

/// The graph-level guarantees, checked before geometry exists: an
/// entrance on the ground main shelf, the security gradient on every
/// shelf, and every shelf fitting its storey at minimum room sizes.
#[verifier::rlimit(40)]
pub fn check_graph(data: &GameData, venue: &VenueSpec, graph: &VenueGraph) -> (r: Result<(), String>)
    requires
        graph_in_range(*data, *venue, *graph),
    ensures
        graph.floors@.len() == 0 ==> (r matches Err(e) && e@ == "venue has no storeys"@),
        graph.floors@.len() > 0 && !exit_on_shelf(*data, graph.floors@[0].main_shelf@) ==> (r matches Err(
            e,
        ) && e@ == "no external exit on the ground main shelf"@),
        graph.floors@.len() > 0 && exit_on_shelf(*data, graph.floors@[0].main_shelf@) ==> match first_ungraded(
            graph.floors@,
        ) {
            Some(i) => r matches Err(e) && e@ == "floor "@ + spec_decimal(graph.floors@[i].floor as nat)
                + " breaks the security gradient"@,
            None => match first_overflowing(*data, venue.floor_width as int, graph.floors@) {
                Some(i) => r matches Err(e) && e@ == "floor "@ + spec_decimal(
                    graph.floors@[i].floor as nat,
                ) + " shelf overflows even at minimum sizes"@,
                None => r is Ok,
            },
        },
        r is Ok ==> {
            &&& graph.floors@.len() > 0
            &&& exit_on_shelf(*data, graph.floors@[0].main_shelf@)
            &&& forall|i: int| 0 <= i < graph.floors@.len() ==> plan_graded(#[trigger] graph.floors@[i])
            &&& forall|i: int|
                0 <= i < graph.floors@.len() ==> plan_fits(*data, venue.floor_width as int, #[trigger] graph.floors@[i])
        },
{
    if graph.floors.len() == 0 {
        return Err(owned("venue has no storeys"));
    }
    proof {
        assert(shelf_in_range(*data, graph.floors@[0].main_shelf@, 3));
    }
    if !has_exit(data, &graph.floors[0].main_shelf) {
        return Err(owned("no external exit on the ground main shelf"));
    }
    // One exit room on the ground shelf plus the ground service
    // corridor's fire exit already make two extraction paths.
    let mut i: usize = 0;
    while i < graph.floors.len()
        invariant
            0 <= i <= graph.floors@.len(),
            exit_on_shelf(*data, graph.floors@[0].main_shelf@),
            forall|j: int| 0 <= j < i ==> plan_graded(#[trigger] graph.floors@[j]),
        decreases graph.floors@.len() - i,
    {
        let plan = &graph.floors[i];
        if !is_graded(&plan.service_shelf) || !is_graded(&plan.main_shelf) {
            proof {
                let f = graph.floors@;
                assert(!plan_graded(f[i as int]));
                let k = choose|k: int|
                    0 <= k < f.len() && !plan_graded(f[k]) && forall|j: int|
                        0 <= j < k ==> plan_graded(#[trigger] f[j]);
                if k > i {
                    assert(plan_graded(f[i as int]));
                }
                assert(first_ungraded(f) == Some(i as int));
            }
            return Err(floor_message(plan.floor, " breaks the security gradient"));
        }
        i = i + 1;
    }
    assert(first_ungraded(graph.floors@) is None);
    let width: i16 = venue.floor_width as i16;
    let mut i: usize = 0;
    while i < graph.floors.len()
        invariant
            0 <= i <= graph.floors@.len(),
            graph_in_range(*data, *venue, *graph),
            exit_on_shelf(*data, graph.floors@[0].main_shelf@),
            first_ungraded(graph.floors@) is None,
            width == venue.floor_width,
            forall|j: int| 0 <= j < i ==> plan_fits(*data, width as int, #[trigger] graph.floors@[j]),
        decreases graph.floors@.len() - i,
    {
        let plan = &graph.floors[i];
        proof {
            assert(shelf_in_range(*data, graph.floors@[i as int].service_shelf@, 6));
            assert(shelf_in_range(*data, graph.floors@[i as int].main_shelf@, 3));
        }
        let service: i16 = min_total(data, &plan.service_shelf, 6);
        let main: i16 = min_total(data, &plan.main_shelf, 3);
        if 6 + service >= width - 3 || 3 + main >= width - 3 {
            proof {
                let f = graph.floors@;
                assert(!plan_fits(*data, width as int, f[i as int]));
                let k = choose|k: int|
                    0 <= k < f.len() && !plan_fits(*data, width as int, f[k]) && forall|j: int|
                        0 <= j < k ==> plan_fits(*data, width as int, #[trigger] f[j]);
                if k > i {
                    assert(plan_fits(*data, width as int, f[i as int]));
                }
                assert(first_overflowing(*data, width as int, f) == Some(i as int));
            }
            return Err(floor_message(plan.floor, " shelf overflows even at minimum sizes"));
        }
        i = i + 1;
    }
    assert(first_overflowing(*data, venue.floor_width as int, graph.floors@) is None);
    Ok(())
}

} // verus!
