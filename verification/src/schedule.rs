//! The target's day, as beats.
//!
//! A schedule is a cycle. The target walks it forever: public beats where
//! it is escorted, private beats where it steps away alone. Dwells are
//! *fitted*, not authored: the walking between beats is measured and the
//! remainder of the cycle budget is spent standing still.
use vstd::prelude::*;

use crate::data::Zone;
use crate::geom::{Pos, abs};
use crate::layout::Layout;
use crate::text::{cat2, decimal, owned, spec_decimal};
use crate::world::{Beat, BeatTrigger, Protection, Room, RoutineStep, Schedule, Waypoint};

verus! {

#[derive(Clone, Debug, PartialEq, Eq)]
pub struct ScheduleError(pub String);

/// Manhattan distance with each storey counted as a twelve-tile climb.
pub open spec fn spec_travel_estimate(a: Pos, b: Pos) -> int {
    abs(a.x - b.x) + abs(a.y - b.y) + abs(a.floor - b.floor) * 12
}

/// Manhattan distance, floors counted as a stair climb. Only used to
/// apportion dwell time, so an estimate is enough.
pub fn travel_estimate(a: Pos, b: Pos) -> (r: u32)
    ensures
        r == spec_travel_estimate(a, b),
{
    let dx: i32 = a.x as i32 - b.x as i32;
    let dy: i32 = a.y as i32 - b.y as i32;
    let df: i32 = a.floor as i32 - b.floor as i32;
    let adx: u32 = if dx < 0 {
        (-dx) as u32
    } else {
        dx as u32
    };
    let ady: u32 = if dy < 0 {
        (-dy) as u32
    } else {
        dy as u32
    };
    let adf: u32 = if df < 0 {
        (-df) as u32
    } else {
        df as u32
    };
    adx + ady + adf * 12
}

/// Slot `i`'s share when `total` is spread over `n` slots: the even
/// share, one more for the first `total % n` slots, capped at `u16::MAX`.
pub open spec fn spread_part(total: nat, n: nat, i: int) -> u16 {
    let d = total / n + if i < (total % n) as int {
        1int
    } else {
        0
    };
    if d <= u16::MAX {
        d as u16
    } else {
        u16::MAX
    }
}

/// Spreads `total` over `n` slots as evenly as integer arithmetic allows,
/// giving the remainder to the earliest slots.
pub fn spread(total: u32, n: usize) -> (r: Vec<u16>)
    requires
        n <= u32::MAX,
    ensures
        r@.len() == n,
        forall|i: int| 0 <= i < n ==> #[trigger] r@[i] == spread_part(total as nat, n as nat, i),
{
    let mut parts: Vec<u16> = Vec::new();
    if n == 0 {
        return parts;
    }
    let n32: u32 = n as u32;
    let base: u32 = total / n32;
    let extra: usize = (total % n32) as usize;
    let mut i: usize = 0;
    while i < n
        invariant
            0 < n <= u32::MAX,
            n32 == n,
            base == total / n32,
            extra == total % n32,
            0 <= i <= n,
            parts@.len() == i,
            forall|k: int| 0 <= k < i ==> #[trigger] parts@[k] == spread_part(total as nat, n as nat, k),
        decreases n - i,
    {
        let d: u64 = base as u64 + if i < extra {
            1
        } else {
            0
        };
        let part: u16 = if d <= u16::MAX as u64 {
            d as u16
        } else {
            u16::MAX
        };
        parts.push(part);
        i = i + 1;
    }
    parts
}

/// The sum of a slot's shares over its first `k` slots.
pub open spec fn parts_sum(total: nat, n: nat, k: int) -> int
    decreases k,
{
    if k <= 0 {
        0
    } else {
        parts_sum(total, n, k - 1) + spread_part(total, n, k - 1)
    }
}

proof fn lemma_parts_sum(total: nat, n: nat, k: int)
    requires
        n > 0,
        0 <= k <= n,
        total / n < u16::MAX,
    ensures
        parts_sum(total, n, k) == k * (total / n) + if k < (total % n) as int {
            k
        } else {
            (total % n) as int
        },
    decreases k,
{
    if k > 0 {
        lemma_parts_sum(total, n, k - 1);
        let base = total / n;
        let extra = (total % n) as int;
        assert(k * base == (k - 1) * base + base) by (nonlinear_arith);
        let d = base + if k - 1 < extra {
            1int
        } else {
            0
        };
        assert(d <= u16::MAX);
        assert(spread_part(total, n, k - 1) == d);
        assert(parts_sum(total, n, k) == parts_sum(total, n, k - 1) + spread_part(total, n, k - 1));
        assert(parts_sum(total, n, k - 1) == (k - 1) * base + if k - 1 < extra {
            k - 1
        } else {
            extra
        });
    } else {
        assert(k * (total / n) == 0) by (nonlinear_arith)
            requires
                k == 0,
        ;
    }
}

/// Spreading loses and invents nothing, and is even: when no share hits
/// the `u16` cap, the shares sum to `total` and differ by at most one.
pub proof fn law_spread_is_exact_and_even(total: nat, n: nat)
    requires
        n > 0,
        total / n < u16::MAX,
    ensures
        parts_sum(total, n, n as int) == total,
        forall|i: int, j: int|
            0 <= i < n && 0 <= j < n ==> spread_part(total, n, i) <= spread_part(total, n, j) + 1,
{
    lemma_parts_sum(total, n, n as int);
    assert(n * (total / n) + total % n == total) by (nonlinear_arith)
        requires
            n > 0,
    ;
    assert((total % n) < n) by (nonlinear_arith)
        requires
            n > 0,
    ;
}

/// The routine a schedule's beats spell out, step for beat.
pub open spec fn spec_routine_for(beats: Seq<Beat>) -> Seq<RoutineStep> {
    beats.map_values(|b: Beat| RoutineStep { pos: b.pos, wait: b.dwell })
}

/// Whether beats and routine steps agree: same length, same positions,
/// same dwells.
pub open spec fn spec_aligned(beats: Seq<Beat>, routine: Seq<RoutineStep>) -> bool {
    beats.len() == routine.len() && forall|i: int|
        0 <= i < beats.len() ==> (#[trigger] beats[i]).pos == routine[i].pos && beats[i].dwell
            == routine[i].wait
}

/// The routine mirroring a schedule, index for index.
pub fn routine_for(schedule: &Schedule) -> (r: Vec<RoutineStep>)
    ensures
        r@ == spec_routine_for(schedule.beats@),
{
    let mut steps: Vec<RoutineStep> = Vec::new();
    let mut i: usize = 0;
    while i < schedule.beats.len()
        invariant
            0 <= i <= schedule.beats@.len(),
            steps@ == spec_routine_for(schedule.beats@.subrange(0, i as int)),
        decreases schedule.beats@.len() - i,
    {
        let b = &schedule.beats[i];
        steps.push(RoutineStep { pos: b.pos, wait: b.dwell });
        assert(spec_routine_for(schedule.beats@.subrange(0, i as int + 1)) == spec_routine_for(
            schedule.beats@.subrange(0, i as int),
        ).push(RoutineStep { pos: b.pos, wait: b.dwell }));
        i = i + 1;
    }
    assert(schedule.beats@.subrange(0, schedule.beats@.len() as int) == schedule.beats@);
    steps
}

/// The first index at which a beat and its routine step disagree.
pub open spec fn first_disagreement(beats: Seq<Beat>, routine: Seq<RoutineStep>) -> Option<int> {
    if exists|i: int|
        0 <= i < beats.len() && ((#[trigger] beats[i]).pos != routine[i].pos || beats[i].dwell
            != routine[i].wait) {
        Some(
            choose|i: int|
                0 <= i < beats.len() && (beats[i].pos != routine[i].pos || beats[i].dwell
                    != routine[i].wait) && forall|j: int|
                    0 <= j < i ==> (#[trigger] beats[j]).pos == routine[j].pos && beats[j].dwell
                        == routine[j].wait,
        )
    } else {
        None
    }
}

/// Checks the compatibility hinge: same length, same positions, same
/// dwells.
pub fn assert_aligned(schedule: &Schedule, routine: &[RoutineStep]) -> (r: Result<(), ScheduleError>)
    ensures
        r is Ok <==> spec_aligned(schedule.beats@, routine@),
        schedule.beats@.len() != routine@.len() ==> (r matches Err(e) && e.0@ == "schedule has "@
            + spec_decimal(schedule.beats@.len()) + " beats but the routine has "@ + spec_decimal(
            routine@.len(),
        ) + " steps"@),
        schedule.beats@.len() == routine@.len() ==> match first_disagreement(
            schedule.beats@,
            routine@,
        ) {
            Some(i) => r matches Err(e) && e.0@ == "beat "@ + spec_decimal(i as nat)
                + " and routine step "@ + spec_decimal(i as nat) + " disagree"@,
            None => r is Ok,
        },
{
    if schedule.beats.len() != routine.len() {
        let mut m = owned("schedule has ");
        m.append(decimal(schedule.beats.len() as u64).as_str());
        m.append(" beats but the routine has ");
        m.append(decimal(routine.len() as u64).as_str());
        m.append(" steps");
        return Err(ScheduleError(m));
    }
    let mut i: usize = 0;
    while i < routine.len()
        invariant
            0 <= i <= routine@.len(),
            schedule.beats@.len() == routine@.len(),
            forall|j: int|
                0 <= j < i ==> (#[trigger] schedule.beats@[j]).pos == routine@[j].pos
                    && schedule.beats@[j].dwell == routine@[j].wait,
        decreases routine@.len() - i,
    {
        if schedule.beats[i].pos != routine[i].pos || schedule.beats[i].dwell != routine[i].wait {
            proof {
                let b = schedule.beats@;
                let rt = routine@;
                let k = choose|k: int|
                    0 <= k < b.len() && (b[k].pos != rt[k].pos || b[k].dwell != rt[k].wait)
                        && forall|j: int|
                        0 <= j < k ==> (#[trigger] b[j]).pos == rt[j].pos && b[j].dwell
                            == rt[j].wait;
                assert(b[i as int].pos != rt[i as int].pos || b[i as int].dwell != rt[i as int].wait);
                if k > i {
                    assert(b[i as int].pos == rt[i as int].pos && b[i as int].dwell
                        == rt[i as int].wait);
                }
                assert(first_disagreement(b, rt) == Some(i as int));
            }
            let mut m = owned("beat ");
            m.append(decimal(i as u64).as_str());
            m.append(" and routine step ");
            m.append(decimal(i as u64).as_str());
            m.append(" disagree");
            return Err(ScheduleError(m));
        }
        i = i + 1;
    }
    Ok(())
}

/// The routine derived from a schedule always passes the alignment
/// check.
pub proof fn law_routine_for_is_aligned(beats: Seq<Beat>)
    ensures
        spec_aligned(beats, spec_routine_for(beats)),
{
}

/// Whether `r` is a room the target can step away into: a personal-tier
/// room, or, unless only those will do, a secure-tier one.
pub open spec fn hosts_private(r: Room, personal_only: bool) -> bool {
    r.zone == Zone::Personal || (!personal_only && r.zone == Zone::Secure)
}

/// The waypoint positions of the rooms that can host an alone beat, room
/// by room in order.
pub open spec fn spec_stops_in(rooms: Seq<Room>, personal_only: bool) -> Seq<Pos>
    decreases rooms.len(),
{
    if rooms.len() == 0 {
        Seq::empty()
    } else {
        let prev = spec_stops_in(rooms.drop_last(), personal_only);
        if hosts_private(rooms.last(), personal_only) {
            prev + rooms.last().waypoints@.map_values(|w: Waypoint| w.pos)
        } else {
            prev
        }
    }
}

/// Where the target can be alone: personal-tier waypoints when the
/// contract asks for a private kill and there are any, otherwise every
/// personal- or secure-tier waypoint.
pub open spec fn spec_private_stops(rooms: Seq<Room>, private_kill: bool) -> Seq<Pos> {
    if private_kill && spec_stops_in(rooms, true).len() > 0 {
        spec_stops_in(rooms, true)
    } else {
        spec_stops_in(rooms, false)
    }
}

fn stops_in(rooms: &Vec<Room>, personal_only: bool) -> (r: Vec<Pos>)
    ensures
        r@ == spec_stops_in(rooms@, personal_only),
{
    let ghost at = |w: Waypoint| w.pos;
    let mut r: Vec<Pos> = Vec::new();
    let mut i: usize = 0;
    while i < rooms.len()
        invariant
            0 <= i <= rooms@.len(),
            at == (|w: Waypoint| w.pos),
            r@ == spec_stops_in(rooms@.subrange(0, i as int), personal_only),
        decreases rooms@.len() - i,
    {
        assert(rooms@.subrange(0, i as int + 1).drop_last() == rooms@.subrange(0, i as int));
        let room = &rooms[i];
        if room.zone == Zone::Personal || (!personal_only && room.zone == Zone::Secure) {
            let ghost before = r@;
            let mut k: usize = 0;
            while k < room.waypoints.len()
                invariant
                    0 <= k <= room.waypoints@.len(),
                    at == (|w: Waypoint| w.pos),
                    r@ == before + room.waypoints@.subrange(0, k as int).map_values(at),
                decreases room.waypoints@.len() - k,
            {
                r.push(room.waypoints[k].pos);
                assert(room.waypoints@.subrange(0, k as int + 1).map_values(at)
                    == room.waypoints@.subrange(0, k as int).map_values(at).push(room.waypoints@[k as int].pos));
                k = k + 1;
            }
            assert(room.waypoints@.subrange(0, room.waypoints@.len() as int) == room.waypoints@);
        }
        i = i + 1;
    }
    assert(rooms@.subrange(0, rooms@.len() as int) == rooms@);
    r
}

/// The positions the target can be alone at, for a contract that does or
/// does not ask for a private kill.
pub fn private_stops(layout: &Layout, private_kill: bool) -> (r: Vec<Pos>)
    ensures
        r@ == spec_private_stops(layout.rooms@, private_kill),
{
    if private_kill {
        let personal = stops_in(&layout.rooms, true);
        if personal.len() > 0 {
            return personal;
        }
    }
    stops_in(&layout.rooms, false)
}

/// The random choices a schedule is built from, in the order they are
/// drawn from the mission's generation stream.
#[derive(Clone, Debug)]
pub struct ScheduleDraws {
    /// Drawn from `private_beats_min..=private_beats_max`.
    pub alone: u8,
    /// Drawn from the target's `schedule_min..=schedule_max`.
    pub total: u8,
    /// One index into the public stops per escorted beat.
    pub public: Vec<usize>,
    /// One index into the private stops per alone beat.
    pub private: Vec<usize>,
    /// Drawn from `cycle_turns_min..=cycle_turns_max`.
    pub cycle: u16,
}

/// The number of alone beats a drawn count makes: at least one.
pub open spec fn spec_alone_count(alone: u8) -> nat {
    if alone == 0 {
        1
    } else {
        alone as nat
    }
}

/// The number of beats drawn counts make: at least one escorted beat for
/// every alone beat, so that the alone beats can always be kept apart.
pub open spec fn spec_beat_count(alone: u8, total: u8) -> nat {
    let a = spec_alone_count(alone);
    if total as nat >= 2 * a {
        total as nat
    } else {
        2 * a
    }
}

/// How many alone beats, and how many beats in all, the drawn counts
/// make.
pub fn beat_counts(alone: u8, total: u8) -> (r: (usize, usize))
    ensures
        r.0 == spec_alone_count(alone),
        r.1 == spec_beat_count(alone, total),
{
    let a: usize = if alone == 0 {
        1
    } else {
        alone as usize
    };
    let t: usize = if total as usize >= 2 * a {
        total as usize
    } else {
        2 * a
    };
    (a, t)
}

/// How many escorted beats come before each alone beat: the escorted beats
/// shared out evenly, at least one.
pub open spec fn stride_for(escorted: nat, alone: nat) -> int {
    if escorted / alone >= 1 {
        (escorted / alone) as int
    } else {
        1
    }
}

/// Beat `j` of the planned cycle: its position, and which alone beat it is
/// (`None` for an escorted beat). The cycle runs in blocks of `stride`
/// escorted beats each closed by one alone beat, one block per alone beat;
/// the escorted beats left over end the cycle.
pub open spec fn planned_beat(public_stops: Seq<Pos>, private_stops: Seq<Pos>, draws: ScheduleDraws, j: int) -> (
    Pos,
    Option<usize>,
) {
    let a = spec_alone_count(draws.alone) as int;
    let blk = stride_for(draws.public@.len(), a as nat) + 1;
    if j < a * blk && j % blk == blk - 1 {
        (private_stops[draws.private@[j / blk] as int], Some((j / blk) as usize))
    } else {
        let before = if j / blk < a {
            j / blk
        } else {
            a
        };
        (public_stops[draws.public@[j - before] as int], None)
    }
}

/// The planned cycle: one beat per escorted pick and one per alone beat.
pub open spec fn schedule_plan(public_stops: Seq<Pos>, private_stops: Seq<Pos>, draws: ScheduleDraws) -> Seq<
    (Pos, Option<usize>),
> {
    Seq::new(
        draws.public@.len() + spec_alone_count(draws.alone),
        |j: int| planned_beat(public_stops, private_stops, draws, j),
    )
}

/// The walking estimated over the first `k` legs of the cycle through
/// `ps`, the last leg returning to the start.
pub open spec fn travel_upto(ps: Seq<Pos>, k: int) -> int
    decreases k,
{
    if k <= 0 {
        0
    } else {
        travel_upto(ps, k - 1) + spec_travel_estimate(ps[k - 1], ps[k % ps.len() as int])
    }
}

pub open spec fn plan_positions(plan: Seq<(Pos, Option<usize>)>) -> Seq<Pos> {
    plan.map_values(|p: (Pos, Option<usize>)| p.0)
}

/// What the cycle leaves for standing still: the cycle budget less the
/// walking, but at least one turn per beat.
pub open spec fn dwell_budget(cycle: u16, travel: int, n: nat) -> nat {
    let left = if cycle as int > travel {
        cycle as int - travel
    } else {
        0
    };
    if left >= n {
        left as nat
    } else {
        n
    }
}

/// Beat `j`'s share of the dwell budget, at least one turn.
pub open spec fn fitted_dwell(budget: nat, n: nat, j: int) -> u16 {
    let d = spread_part(budget, n, j);
    if d >= 1 {
        d
    } else {
        1
    }
}

/// Whether `b` is the beat planned as `p` with dwell `dwell`.
pub open spec fn beat_follows(b: Beat, p: (Pos, Option<usize>), dwell: u16) -> bool {
    &&& b.pos == p.0
    &&& b.dwell == dwell
    &&& b.trigger == BeatTrigger::Sequential
    &&& match p.1 {
        None => b.protection == Protection::Escorted && !b.no_follow && b.tag@ == Seq::<char>::empty(),
        Some(i) => b.protection == Protection::Alone && b.no_follow && b.tag@ == "private-"@
            + spec_decimal(i as nat),
    }
}

/// Whether the draws fit the stops: as many picks as the drawn counts
/// ask for, each naming an existing stop.
pub open spec fn draws_fit(public_stops: Seq<Pos>, private_stops: Seq<Pos>, draws: ScheduleDraws) -> bool {
    &&& draws.public@.len() == spec_beat_count(draws.alone, draws.total) - spec_alone_count(draws.alone)
    &&& draws.private@.len() == spec_alone_count(draws.alone)
    &&& forall|j: int| 0 <= j < draws.public@.len() ==> (#[trigger] draws.public@[j]) < public_stops.len()
    &&& forall|j: int|
        0 <= j < draws.private@.len() ==> (#[trigger] draws.private@[j]) < private_stops.len()
}

proof fn lemma_travel_estimate_bound(a: Pos, b: Pos)
    ensures
        0 <= spec_travel_estimate(a, b) <= 134130,
{
}

proof fn lemma_travel_bound(ps: Seq<Pos>, k: int)
    requires
        0 <= k,
    ensures
        0 <= travel_upto(ps, k) <= k * 134130,
    decreases k,
{
    if k > 0 {
        lemma_travel_bound(ps, k - 1);
        lemma_travel_estimate_bound(ps[k - 1], ps[k % ps.len() as int]);
    }
}

/// Where beat `j` of a cycle of `e` escorted and `a` alone beats, in
/// blocks of `blk`, finds its stop: an alone beat's index is below `a`,
/// an escorted beat's below `e`.
proof fn lemma_plan_index(e: int, a: int, blk: int, j: int)
    requires
        1 <= a <= e,
        blk == e / a + 1,
        0 <= j < e + a,
    ensures
        j / blk >= 0,
        j < a * blk ==> j / blk < a,
        !(j < a * blk && j % blk == blk - 1) ==> 0 <= j - (if j / blk < a {
            j / blk
        } else {
            a
        }) < e,
{
    let s = blk - 1;
    assert(a * s <= e) by (nonlinear_arith)
        requires
            s == e / a,
            a >= 1,
    ;
    assert(s >= 1) by (nonlinear_arith)
        requires
            s == e / a,
            1 <= a <= e,
    ;
    let c = j / blk;
    let r = j % blk;
    assert(j == c * blk + r && 0 <= r < blk && c >= 0) by (nonlinear_arith)
        requires
            c == j / blk,
            r == j % blk,
            blk >= 2,
            j >= 0,
    ;
    if j < a * blk {
        assert(c < a) by (nonlinear_arith)
            requires
                j == c * blk + r,
                0 <= r,
                j < a * blk,
                blk >= 2,
        ;
        if r != blk - 1 {
            assert(j - c < e) by (nonlinear_arith)
                requires
                    j == c * blk + r,
                    0 <= r < blk - 1,
                    c < a,
                    c >= 0,
                    blk == s + 1,
                    a * s <= e,
            ;
        }
    } else {
        assert(c >= a) by (nonlinear_arith)
            requires
                j == c * blk + r,
                r < blk,
                j >= a * blk,
                blk >= 2,
        ;
    }
}

/// The target is never without a chance to be caught alone: every
/// planned cycle holds at least one alone beat, among one beat per
/// escorted pick and one per alone beat drawn.
pub proof fn law_every_cycle_has_an_alone_beat(public_stops: Seq<Pos>, private_stops: Seq<Pos>, draws: ScheduleDraws)
    requires
        draws.public@.len() >= spec_alone_count(draws.alone),
    ensures
        schedule_plan(public_stops, private_stops, draws).len() == draws.public@.len() + spec_alone_count(
            draws.alone,
        ),
        exists|j: int|
            0 <= j < schedule_plan(public_stops, private_stops, draws).len() && (#[trigger] schedule_plan(
                public_stops,
                private_stops,
                draws,
            )[j]).1 is Some,
{
    let e = draws.public@.len() as int;
    let a = spec_alone_count(draws.alone) as int;
    let blk = stride_for(e as nat, a as nat) + 1;
    assert(e / a >= 1) by (nonlinear_arith)
        requires
            1 <= a <= e,
    ;
    let j = blk - 1;
    assert(j % blk == blk - 1) by (nonlinear_arith)
        requires
            j == blk - 1,
            blk >= 2,
    ;
    assert(j < a * blk) by (nonlinear_arith)
        requires
            j == blk - 1,
            a >= 1,
            blk >= 2,
    ;
    assert(j < e + a) by (nonlinear_arith)
        requires
            j == e / a,
            1 <= a <= e,
    ;
    assert(schedule_plan(public_stops, private_stops, draws)[j].1 is Some);
}

/// The target is never alone twice running: in the cycle, the beat after
/// an alone beat, and the first beat after the last, is escorted.
pub proof fn law_never_alone_twice_running(public_stops: Seq<Pos>, private_stops: Seq<Pos>, draws: ScheduleDraws)
    requires
        draws.public@.len() >= spec_alone_count(draws.alone),
    ensures
        forall|j: int|
            0 <= j < schedule_plan(public_stops, private_stops, draws).len() && (#[trigger] schedule_plan(
                public_stops,
                private_stops,
                draws,
            )[j]).1 is Some ==> schedule_plan(public_stops, private_stops, draws)[(j + 1) % schedule_plan(
                public_stops,
                private_stops,
                draws,
            ).len() as int].1 is None,
{
    let plan = schedule_plan(public_stops, private_stops, draws);
    let e = draws.public@.len() as int;
    let a = spec_alone_count(draws.alone) as int;
    let blk = stride_for(e as nat, a as nat) + 1;
    let n = plan.len() as int;
    assert(e / a >= 1) by (nonlinear_arith)
        requires
            1 <= a <= e,
    ;
    assert forall|j: int| 0 <= j < n && (#[trigger] plan[j]).1 is Some implies plan[(j + 1) % n].1 is None by {
        assert(j % blk == blk - 1);
        if j + 1 < n {
            assert((j + 1) % n == j + 1) by (nonlinear_arith)
                requires
                    0 <= j + 1 < n,
            ;
            assert((j + 1) % blk == 0) by (nonlinear_arith)
                requires
                    j % blk == blk - 1,
                    blk >= 2,
                    j >= 0,
            ;
        } else {
            assert((j + 1) % n == 0) by (nonlinear_arith)
                requires
                    j + 1 == n,
                    n >= 1,
            ;
            assert(0int % blk == 0) by (nonlinear_arith)
                requires
                    blk >= 2,
            ;
        }
    }
}

/// Builds the target's schedule: a cycle of escorted beats with the alone
/// beats spread among them, each after an even share of escorted beats,
/// so the target is never alone twice running; dwells fitted to the drawn
/// cycle budget. `public_stops` are candidate positions for escorted beats.
#[verifier::rlimit(40)]
pub fn build_schedule(layout: &Layout, public_stops: &[Pos], private_kill: bool, draws: &ScheduleDraws) -> (r:
    Result<Schedule, ScheduleError>)
    requires
        spec_private_stops(layout.rooms@, private_kill).len() > 0 && public_stops@.len() > 0
            ==> draws_fit(public_stops@, spec_private_stops(layout.rooms@, private_kill), *draws),
    ensures
        spec_private_stops(layout.rooms@, private_kill).len() == 0 ==> (r matches Err(e) && e.0@
            == "no private-tier waypoint for the target to be alone at"@),
        spec_private_stops(layout.rooms@, private_kill).len() > 0 && public_stops@.len() == 0
            ==> (r matches Err(e) && e.0@ == "the target has nowhere public to be"@),
        spec_private_stops(layout.rooms@, private_kill).len() > 0 && public_stops@.len() > 0
            ==> (r matches Ok(s) && {
            let plan = schedule_plan(
                public_stops@,
                spec_private_stops(layout.rooms@, private_kill),
                *draws,
            );
            let n = plan.len();
            let budget = dwell_budget(draws.cycle, travel_upto(plan_positions(plan), n as int), n);
            &&& s.beats@.len() == n
            &&& forall|j: int|
                0 <= j < n ==> beat_follows(#[trigger] s.beats@[j], plan[j], fitted_dwell(budget, n, j))
            &&& s.index == 0
            &&& s.dwell_remaining == s.beats@[0].dwell
            &&& s.resume_index is None
            &&& exists|j: int| 0 <= j < n && (#[trigger] s.beats@[j]).protection == Protection::Alone
            &&& forall|j: int|
                0 <= j < n && (#[trigger] s.beats@[j]).protection == Protection::Alone
                    ==> s.beats@[(j + 1) % (n as int)].protection == Protection::Escorted
        }),
{
    let privs = private_stops(layout, private_kill);
    if privs.len() == 0 {
        return Err(ScheduleError(owned("no private-tier waypoint for the target to be alone at")));
    }
    if public_stops.len() == 0 {
        return Err(ScheduleError(owned("the target has nowhere public to be")));
    }
    let (a, t) = beat_counts(draws.alone, draws.total);
    let ghost privs_v = privs@;
    let e_n: usize = draws.public.len();
    assert(a <= e_n && e_n <= 510);
    let stride: usize = if e_n / a >= 1 {
        e_n / a
    } else {
        1
    };
    assert(stride == stride_for(e_n as nat, a as nat));
    assert(e_n / a >= 1 && e_n / a <= e_n) by (nonlinear_arith)
        requires
            1 <= a <= e_n,
    ;
    let blk: usize = stride + 1;
    let total: usize = e_n + a;
    let mut plan: Vec<(Pos, Option<usize>)> = Vec::new();
    let mut j: usize = 0;
    while j < total
        invariant
            0 <= j <= total,
            total == e_n + a,
            e_n == draws.public@.len(),
            1 <= a <= e_n <= 510,
            a == spec_alone_count(draws.alone),
            blk == stride_for(e_n as nat, a as nat) + 1,
            blk == e_n / a + 1,
            blk <= 511,
            draws.private@.len() == a,
            privs@ == spec_private_stops(layout.rooms@, private_kill),
            forall|q: int| 0 <= q < draws.private@.len() ==> (#[trigger] draws.private@[q]) < privs@.len(),
            forall|q: int| 0 <= q < draws.public@.len() ==> (#[trigger] draws.public@[q]) < public_stops@.len(),
            plan@.len() == j,
            forall|q: int|
                0 <= q < j ==> #[trigger] plan@[q] == planned_beat(public_stops@, privs@, *draws, q),
        decreases total - j,
    {
        proof {
            lemma_plan_index(e_n as int, a as int, blk as int, j as int);
        }
        assert(a * blk <= 510 * 511) by (nonlinear_arith)
            requires
                a <= 510,
                blk <= 511,
        ;
        let c: usize = j / blk;
        if j < a * blk && j % blk == blk - 1 {
            plan.push((privs[draws.private[c]], Some(c)));
        } else {
            let before: usize = if c < a {
                c
            } else {
                a
            };
            plan.push((public_stops[draws.public[j - before]], None));
        }
        j = j + 1;
    }
    let ghost full = plan@;
    assert(full =~= schedule_plan(public_stops@, privs@, *draws));
    let n: usize = plan.len();
    assert(n == t);
    assert(n <= 510);
    let ghost ps = plan_positions(full);
    let mut travel: u32 = 0;
    let mut k: usize = 0;
    while k < n
        invariant
            0 <= k <= n,
            n == plan@.len(),
            n <= 510,
            n >= 1,
            plan@ == full,
            ps == plan_positions(full),
            travel == travel_upto(ps, k as int),
        decreases n - k,
    {
        proof {
            lemma_travel_bound(ps, k as int);
            lemma_travel_estimate_bound(ps[k as int], ps[(k as int + 1) % (n as int)]);
            assert(k * 134130 <= 510 * 134130) by (nonlinear_arith)
                requires
                    k <= 510,
            ;
        }
        let leg = travel_estimate(plan[k].0, plan[(k + 1) % n].0);
        travel = travel + leg;
        k = k + 1;
    }
    let cycle: u32 = draws.cycle as u32;
    let left: u32 = if cycle > travel {
        cycle - travel
    } else {
        0
    };
    let budget: u32 = if left >= n as u32 {
        left
    } else {
        n as u32
    };
    assert(budget == dwell_budget(draws.cycle, travel_upto(ps, n as int), n as nat));
    let dwells = spread(budget, n);
    let mut beats: Vec<Beat> = Vec::new();
    let mut m: usize = 0;
    while m < n
        invariant
            0 <= m <= n,
            n == plan@.len(),
            plan@ == full,
            dwells@.len() == n,
            forall|q: int| 0 <= q < n ==> #[trigger] dwells@[q] == spread_part(budget as nat, n as nat, q),
            beats@.len() == m,
            forall|q: int|
                0 <= q < m ==> beat_follows(#[trigger] beats@[q], full[q], fitted_dwell(budget as nat, n as nat, q)),
        decreases n - m,
    {
        let (pos, alone) = plan[m];
        let d: u16 = if dwells[m] >= 1 {
            dwells[m]
        } else {
            1
        };
        let beat = match alone {
            None => Beat {
                pos,
                dwell: d,
                protection: Protection::Escorted,
                no_follow: false,
                trigger: BeatTrigger::Sequential,
                tag: String::new(),
            },
            Some(i) => Beat {
                pos,
                dwell: d,
                protection: Protection::Alone,
                no_follow: true,
                trigger: BeatTrigger::Sequential,
                tag: cat2("private-", decimal(i as u64).as_str()),
            },
        };
        beats.push(beat);
        m = m + 1;
    }
    proof {
        law_every_cycle_has_an_alone_beat(public_stops@, privs@, *draws);
        law_never_alone_twice_running(public_stops@, privs@, *draws);
        let w = choose|w: int| 0 <= w < full.len() && (#[trigger] full[w]).1 is Some;
        assert(beat_follows(beats@[w], full[w], fitted_dwell(budget as nat, n as nat, w)));
        assert forall|j: int|
            0 <= j < n && (#[trigger] beats@[j]).protection == Protection::Alone implies beats@[(j + 1) % (
            n as int)].protection == Protection::Escorted by {
            assert(beat_follows(beats@[j], full[j], fitted_dwell(budget as nat, n as nat, j)));
            assert(full[j].1 is Some);
            let nx = (j + 1) % (n as int);
            assert(0 <= nx < n) by (nonlinear_arith)
                requires
                    nx == (j + 1) % (n as int),
                    n >= 1,
            ;
            assert(beat_follows(beats@[nx], full[nx], fitted_dwell(budget as nat, n as nat, nx)));
        }
    }
    let dwell_remaining = beats[0].dwell;
    Ok(Schedule { beats, index: 0, dwell_remaining, resume_index: None })
}

} // verus!
