//! Layout output: the carved map plus room records and furniture, and the
//! shared queries generation phases run over it.
use vstd::prelude::*;

use crate::data::WaypointKind;
use crate::geom::Pos;
use crate::map::{DoorState, GameMap};
use crate::world::{Furniture, Room, Waypoint, room_containing, spec_room_index};

verus! {

/// Layout output: the map plus room records and furniture.
pub struct Layout {
    pub map: GameMap,
    pub doors: Vec<DoorState>,
    pub rooms: Vec<Room>,
    pub furniture: Vec<Furniture>,
    pub extraction_tiles: Vec<Pos>,
}

impl Layout {
    /// The room containing `pos`, if any: the same query the finished
    /// world answers with `World::room_at`.
    pub fn room_at(&self, pos: Pos) -> (r: Option<&Room>)
        ensures
            match spec_room_index(self.rooms@, pos) {
                Some(i) => r == Some(&self.rooms@[i]),
                None => r.is_none(),
            },
    {
        room_containing(&self.rooms, pos)
    }
}

#[derive(Clone, Debug, PartialEq, Eq)]
pub struct LayoutError(pub String);

/// The waypoints of `rooms` whose kind is among `kinds`, room by room in
/// order.
pub open spec fn spec_waypoints_of_kinds(rooms: Seq<Room>, kinds: Seq<WaypointKind>) -> Seq<Waypoint>
    decreases rooms.len(),
{
    if rooms.len() == 0 {
        Seq::empty()
    } else {
        spec_waypoints_of_kinds(rooms.drop_last(), kinds) + rooms.last().waypoints@.filter(
            |w: Waypoint| kinds.contains(w.kind),
        )
    }
}

/// All waypoints of the given kinds in the given rooms.
pub fn waypoints_of_kinds(rooms: &[Room], kinds: &[WaypointKind]) -> (r: Vec<Waypoint>)
    ensures
        r@ == spec_waypoints_of_kinds(rooms@, kinds@),
{
    let ghost pred = |w: Waypoint| kinds@.contains(w.kind);
    let mut result: Vec<Waypoint> = Vec::new();
    let mut i: usize = 0;
    while i < rooms.len()
        invariant
            0 <= i <= rooms@.len(),
            pred == (|w: Waypoint| kinds@.contains(w.kind)),
            result@ == spec_waypoints_of_kinds(rooms@.subrange(0, i as int), kinds@),
        decreases rooms@.len() - i,
    {
        let room = &rooms[i];
        let ghost base = result@;
        let mut j: usize = 0;
        while j < room.waypoints.len()
            invariant
                0 <= j <= room.waypoints@.len(),
                pred == (|w: Waypoint| kinds@.contains(w.kind)),
                result@ == base + room.waypoints@.subrange(0, j as int).filter(pred),
            decreases room.waypoints@.len() - j,
        {
            let w = room.waypoints[j];
            let ghost before = result@;
            let mut found = false;
            let mut k: usize = 0;
            while k < kinds.len()
                invariant
                    0 <= k <= kinds@.len(),
                    found == exists|m: int| 0 <= m < k && kinds@[m] == w.kind,
                decreases kinds@.len() - k,
            {
                if kinds[k] == w.kind {
                    found = true;
                }
                k = k + 1;
            }
            if found {
                result.push(w);
            }
            proof {
                let s = room.waypoints@.subrange(0, j as int + 1);
                assert(s.drop_last() == room.waypoints@.subrange(0, j as int));
                assert(s.last() == w);
                reveal_with_fuel(Seq::filter, 1);
                assert(found == pred(w));
                if found {
                    assert(s.filter(pred) == s.drop_last().filter(pred).push(w));
                    assert(result@ == base + s.filter(pred));
                } else {
                    assert(s.filter(pred) == s.drop_last().filter(pred));
                }
            }
            j = j + 1;
        }
        proof {
            let rs = rooms@.subrange(0, i as int + 1);
            assert(rs.drop_last() == rooms@.subrange(0, i as int));
            assert(rs.last() == *room);
            assert(room.waypoints@.subrange(0, room.waypoints@.len() as int) == room.waypoints@);
        }
        i = i + 1;
    }
    assert(rooms@.subrange(0, rooms@.len() as int) == rooms@);
    result
}

} // verus!
