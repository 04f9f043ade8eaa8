//! NPC perception: sight, detection, suspicion, and alert propagation.
//!
//! Runs once after each resolved turn, before the next turn's actions are
//! prepared, so everything perceived here shapes an NPC's *next* choice:
//! recipients of propagated alerts cannot react in the turn they learn.
//!
//! Vision is line of sight restricted by a facing cone and range (shorter
//! into dim rooms); the player has no facing and no cone. Guards detect
//! illegal access, visible weapons, bodies, unconscious people, and
//! gunshots; suspicion grows over time and decays when nothing is wrong.
use vstd::prelude::*;

use crate::access::{spec_verdict, verdict_at, AccessVerdict};
use crate::actions::{sees, spec_sees};
use crate::data::{GameData, Lighting, Role, Tuning};
use crate::geom::{in_cone, spec_in_cone, Pos};
use crate::map::{dim_i16, in_square, row_major_lt};
use crate::text::{cat2, holds, push_msg, views};
use crate::world::{
    spec_room_index, Actor, ActorId, AiState, Hands, IncidentKind, Mood, World,
};

verus! {

// ---------------------------------------------------------------------
// Sight.
// ---------------------------------------------------------------------
/// How far an NPC sees into the tile `pos`: dim rooms shorten the range.
pub open spec fn vision_range_at(w: &World, d: &GameData, pos: Pos) -> int {
    match spec_room_index(w.rooms@, pos) {
        Some(i) => match w.rooms@[i].lighting {
            Lighting::Bright => d.tuning.vision_range as int,
            Lighting::Dim => d.tuning.vision_range_dim as int,
        },
        None => d.tuning.vision_range as int,
    }
}

/// Whether NPC `viewer` sees `target_pos`: inside its facing cone, within
/// the lighting-dependent range, and along a clear line of sight (low
/// cover hides a crouched target or hides from a crouched viewer).
#[verifier::opaque]
pub open spec fn spec_npc_sees(w: &World, d: &GameData, viewer: ActorId, target_pos: Pos, target_crouched: bool) -> bool {
    let v = w.actors@[viewer.0 as int];
    match v.facing {
        None => false,
        Some(facing) => {
            &&& spec_in_cone(
                v.pos,
                facing,
                target_pos,
                d.tuning.cone_num as int,
                d.tuning.cone_den as int,
            )
            &&& v.pos.floor == target_pos.floor
            &&& v.pos.spec_chebyshev(target_pos) <= vision_range_at(w, d, target_pos)
            &&& spec_sees(w, v.pos, target_pos, target_crouched || v.crouched)
        },
    }
}

/// What the world must satisfy for perception to run: it is well formed
/// and every actor and incident stands inside the map.
pub open spec fn perceivable(w: World) -> bool {
    &&& w.wf()
    &&& forall|i: int| 0 <= i < w.actors@.len() ==> w.map.spec_in_bounds(#[trigger] w.actors@[i].pos)
    &&& forall|i: int|
        0 <= i < w.incidents@.len() ==> w.map.spec_in_bounds(#[trigger] w.incidents@[i].pos)
}

// ---------------------------------------------------------------------
// What one NPC perceives.
// ---------------------------------------------------------------------
/// What raised an instant alarm.
#[derive(Clone, Copy, Debug, PartialEq, Eq, Structural)]
pub enum AlarmCause {
    DrawnWeapon,
    HaulingBody,
}

/// Everything one NPC perceived this turn.
#[derive(Clone, Copy, Debug, PartialEq, Eq, Structural)]
pub struct Observation {
    pub sees_player: bool,
    /// Suspicion gained from what the player is seen doing.
    pub gain: u32,
    pub alarm: Option<AlarmCause>,
    /// A civilian sees something frightening.
    pub flee: bool,
    /// Violence seen happening, else a body seen lying.
    pub incident: Option<Pos>,
    pub witnessed_violence: bool,
    /// A gunshot heard within its radius.
    pub gunshot: Option<Pos>,
    pub player_pos: Pos,
}

/// The first violence incident from index `k` on that NPC `id` sees.
pub open spec fn violence_from(w: &World, d: &GameData, id: ActorId, k: int) -> Option<Pos>
    decreases w.incidents@.len() - k,
{
    if k < 0 || k >= w.incidents@.len() {
        None
    } else {
        let inc = w.incidents@[k];
        if inc.kind == IncidentKind::Violence && spec_npc_sees(w, d, id, inc.pos, false) {
            Some(inc.pos)
        } else {
            violence_from(w, d, id, k + 1)
        }
    }
}

/// The first body (dead or unconscious, lying uncarried) from actor index
/// `k` on that NPC `id` sees.
pub open spec fn body_from(w: &World, d: &GameData, id: ActorId, k: int) -> Option<Pos>
    decreases w.actors@.len() - k,
{
    if k < 0 || k >= w.actors@.len() {
        None
    } else {
        let a = w.actors@[k];
        if a.spec_is_visible_body() && !w.spec_is_carried(a.id) && spec_npc_sees(w, d, id, a.pos, false) {
            Some(a.pos)
        } else {
            body_from(w, d, id, k + 1)
        }
    }
}

/// The first gunshot from index `k` on heard by an NPC standing at `at`.
pub open spec fn gunshot_from(w: &World, at: Pos, k: int) -> Option<Pos>
    decreases w.incidents@.len() - k,
{
    if k < 0 || k >= w.incidents@.len() {
        None
    } else {
        let inc = w.incidents@[k];
        if inc.kind == IncidentKind::Gunshot && at.floor == inc.pos.floor && at.spec_chebyshev(inc.pos)
            <= inc.radius {
            Some(inc.pos)
        } else {
            gunshot_from(w, at, k + 1)
        }
    }
}

/// What NPC `id` perceives this turn.
#[verifier::opaque]
pub open spec fn spec_observe(w: &World, d: &GameData, id: ActorId) -> Observation {
    let npc = w.actors@[id.0 as int];
    let p = w.actors@[w.player.0 as int];
    let guard = npc.role == Some(Role::Guard);
    let role = match npc.role {
        Some(r) => r,
        None => Role::Civilian,
    };
    let t = d.tuning;
    let sees = p.spec_alive() && spec_npc_sees(w, d, id, p.pos, p.crouched);
    let disguise = d.spec_disguise(p.worn_disguise@);
    let recognised = disguise matches Some(g) && g.suspicious_observers@.contains(role);
    let drawn_legal = disguise matches Some(g) && g.drawn_weapon_legal;
    let illegal = guard && spec_verdict(w, d, w.player, p.pos) is Illegal;
    let gain: int = if sees {
        (if illegal {
            t.gain_illegal_zone as int
        } else {
            0
        }) + (if guard && p.crouched {
            t.gain_crouching as int
        } else {
            0
        }) + (if recognised {
            t.gain_disguise_recognised as int
        } else {
            0
        })
    } else {
        0
    };
    let drawn = sees && p.hands is Drawn && !drawn_legal;
    let hauling = sees && p.hands is CarryingBody;
    let violence = violence_from(w, d, id, 0);
    Observation {
        sees_player: sees,
        gain: gain as u32,
        alarm: if guard && hauling {
            Some(AlarmCause::HaulingBody)
        } else if guard && drawn {
            Some(AlarmCause::DrawnWeapon)
        } else {
            None
        },
        flee: !guard && (drawn || hauling),
        incident: if violence is Some {
            violence
        } else {
            body_from(w, d, id, 0)
        },
        witnessed_violence: violence is Some,
        gunshot: gunshot_from(w, npc.pos, 0),
        player_pos: p.pos,
    }
}

// ---------------------------------------------------------------------
// How one NPC reacts.
// ---------------------------------------------------------------------
/// The parts of an NPC's mind perception changes.
#[derive(Clone, Copy, Debug, PartialEq, Eq, Structural)]
pub struct Mind {
    pub mood: Mood,
    pub suspicion: u16,
    pub focus: Option<Pos>,
    pub knows_player_hostile: bool,
}

/// What an NPC visibly does about what it perceived, for the log.
#[derive(Clone, Copy, Debug, PartialEq, Eq, Structural)]
pub enum Notice {
    RaisesAlarm,
    ScreamsAndRuns,
    Spots(AlarmCause),
    BacksAway,
    HeardSomething,
    Flinches,
    SeesThrough,
    WantsNoPart,
    ComesToLook,
    IsWatching,
    JoinsHunt,
}

/// The log line for `notice` by an NPC called `name`.
pub open spec fn notice_text(name: Seq<char>, notice: Notice) -> Seq<char> {
    match notice {
        Notice::RaisesAlarm => name + " raises the alarm!"@,
        Notice::ScreamsAndRuns => name + " screams and runs"@,
        Notice::Spots(AlarmCause::DrawnWeapon) => name + " spots a drawn weapon!"@,
        Notice::Spots(AlarmCause::HaulingBody) => name + " spots someone hauling a body!"@,
        Notice::BacksAway => name + " backs away in fear"@,
        Notice::HeardSomething => name + " heard something"@,
        Notice::Flinches => name + " flinches at the noise"@,
        Notice::SeesThrough => name + " sees through you!"@,
        Notice::WantsNoPart => name + " wants no part of this"@,
        Notice::ComesToLook => name + " comes to take a look"@,
        Notice::IsWatching => name + " is watching you"@,
        Notice::JoinsHunt => name + " joins the hunt"@,
    }
}

/// The mind of an actor; a mindless actor reads as relaxed and unaware.
pub open spec fn mind_of(a: Actor) -> Mind {
    match a.ai {
        Some(ai) => Mind {
            mood: ai.mood,
            suspicion: ai.suspicion,
            focus: ai.focus,
            knows_player_hostile: ai.knows_player_hostile,
        },
        None => Mind { mood: Mood::Relaxed, suspicion: 0, focus: None, knows_player_hostile: false },
    }
}

/// `ai` with its mind replaced by `m`.
pub open spec fn with_mind(ai: AiState, m: Mind) -> AiState {
    AiState {
        mood: m.mood,
        suspicion: m.suspicion,
        focus: m.focus,
        knows_player_hostile: m.knows_player_hostile,
        ..ai
    }
}

/// The mood of one who has concluded the player is hostile: alerted,
/// unless already fighting.
pub open spec fn hunting(mood: Mood) -> Mood {
    if mood != Mood::Combat {
        Mood::Alerted
    } else {
        mood
    }
}

/// Whether a mood is still open to investigating.
pub open spec fn calm(mood: Mood) -> bool {
    mood == Mood::Relaxed || mood == Mood::Suspicious
}

/// How an NPC's mind reacts to one turn's observation, before alerted
/// pursuers refresh their memory of the player.
pub open spec fn spec_react(m: Mind, o: Observation, guard: bool, t: Tuning) -> (Mind, Option<Notice>) {
    if let Some(pos) = o.incident {
        if guard {
            (
                Mind {
                    mood: hunting(m.mood),
                    knows_player_hostile: true,
                    suspicion: t.suspicion_max,
                    focus: Some(pos),
                },
                Some(Notice::RaisesAlarm),
            )
        } else {
            (Mind { mood: Mood::Fleeing, focus: Some(pos), ..m }, Some(Notice::ScreamsAndRuns))
        }
    } else if let Some(cause) = o.alarm {
        (
            Mind {
                mood: hunting(m.mood),
                knows_player_hostile: true,
                suspicion: t.suspicion_max,
                focus: Some(o.player_pos),
            },
            Some(Notice::Spots(cause)),
        )
    } else if o.flee {
        (Mind { mood: Mood::Fleeing, focus: Some(o.player_pos), ..m }, Some(Notice::BacksAway))
    } else if let Some(pos) = o.gunshot {
        if guard {
            if calm(m.mood) {
                (
                    Mind {
                        mood: Mood::Investigating,
                        suspicion: if m.suspicion >= t.suspicion_investigate_at {
                            m.suspicion
                        } else {
                            t.suspicion_investigate_at
                        },
                        focus: Some(pos),
                        ..m
                    },
                    Some(Notice::HeardSomething),
                )
            } else {
                (Mind { focus: Some(pos), ..m }, Some(Notice::HeardSomething))
            }
        } else if m.mood != Mood::Fleeing {
            (Mind { mood: Mood::Fleeing, focus: Some(pos), ..m }, Some(Notice::Flinches))
        } else {
            (m, None)
        }
    } else if o.gain > 0 {
        let s: u16 = if m.suspicion + o.gain >= t.suspicion_max {
            t.suspicion_max
        } else {
            (m.suspicion + o.gain) as u16
        };
        let focus = if o.sees_player {
            Some(o.player_pos)
        } else {
            m.focus
        };
        if s >= t.suspicion_max {
            if guard {
                (
                    Mind { mood: hunting(m.mood), knows_player_hostile: true, suspicion: s, focus },
                    Some(Notice::SeesThrough),
                )
            } else {
                (Mind { mood: Mood::Fleeing, suspicion: s, focus, ..m }, Some(Notice::WantsNoPart))
            }
        } else if s >= t.suspicion_investigate_at {
            if calm(m.mood) {
                (
                    Mind { mood: Mood::Investigating, suspicion: s, focus, ..m },
                    Some(Notice::ComesToLook),
                )
            } else {
                (Mind { suspicion: s, focus, ..m }, None)
            }
        } else if s >= t.suspicion_suspicious_at && m.mood == Mood::Relaxed {
            (Mind { mood: Mood::Suspicious, suspicion: s, focus, ..m }, Some(Notice::IsWatching))
        } else {
            (Mind { suspicion: s, focus, ..m }, None)
        }
    } else {
        let s: u16 = if m.suspicion >= t.suspicion_decay {
            (m.suspicion - t.suspicion_decay) as u16
        } else {
            0
        };
        if m.mood == Mood::Suspicious && s == 0 {
            (Mind { mood: Mood::Relaxed, suspicion: s, focus: None, ..m }, None)
        } else {
            (Mind { suspicion: s, ..m }, None)
        }
    }
}

/// The reaction, after which an alerted pursuer that sees the player
/// refreshes its memory of where the player is.
pub open spec fn spec_respond(m: Mind, o: Observation, guard: bool, t: Tuning) -> (Mind, Option<Notice>) {
    let (n, notice) = spec_react(m, o, guard, t);
    if o.sees_player && (n.mood == Mood::Alerted || n.mood == Mood::Combat) {
        (Mind { focus: Some(o.player_pos), ..n }, notice)
    } else {
        (n, notice)
    }
}

// ---------------------------------------------------------------------
// One perception update over every NPC.
// ---------------------------------------------------------------------
/// A conscious, present NPC with a mind.
pub open spec fn is_npc(a: Actor) -> bool {
    a.role.is_some() && a.spec_alive() && !a.departed && a.ai.is_some()
}

pub open spec fn is_guard(a: Actor) -> bool {
    a.role == Some(Role::Guard)
}

/// How actor `i` responds in the first pass, from what it perceives.
pub open spec fn first_pass(w: &World, d: &GameData, i: int) -> (Mind, Option<Notice>) {
    let a = w.actors@[i];
    spec_respond(mind_of(a), spec_observe(w, d, a.id), is_guard(a), d.tuning)
}

/// Actor `i`'s mind after the first pass.
pub open spec fn mind1(w: &World, d: &GameData, i: int) -> Mind {
    if is_npc(w.actors@[i]) {
        first_pass(w, d, i).0
    } else {
        mind_of(w.actors@[i])
    }
}

/// Whether a mood spreads the alert.
pub open spec fn alerting(m: Mind) -> bool {
    m.mood == Mood::Alerted || m.mood == Mood::Combat
}

/// Whether guard `j`, alert or suspicious after the first pass, reaches
/// NPC `i`, who sees it.
pub open spec fn reaches(w: &World, d: &GameData, j: int, i: int) -> bool {
    let src = w.actors@[j];
    let rcp = w.actors@[i];
    &&& j != i
    &&& is_npc(src)
    &&& is_npc(rcp)
    &&& is_guard(src)
    &&& (alerting(mind1(w, d, j)) || mind1(w, d, j).mood == Mood::Suspicious)
    &&& spec_npc_sees(w, d, rcp.id, src.pos, false)
}

/// What guard `j` shares: where its trouble is, else where it stands.
pub open spec fn shared(w: &World, d: &GameData, j: int) -> Pos {
    match mind1(w, d, j).focus {
        Some(f) => f,
        None => w.actors@[j].pos,
    }
}

/// Recipient `i`'s mind `m` after source `j` spreads to it. Both moods
/// consulted are the ones after the first pass.
pub open spec fn spread(w: &World, d: &GameData, j: int, i: int, m: Mind) -> Mind {
    let rcp = w.actors@[i];
    if !reaches(w, d, j, i) {
        m
    } else if alerting(mind1(w, d, j)) {
        if is_guard(rcp) {
            if !alerting(mind1(w, d, i)) {
                Mind {
                    mood: Mood::Alerted,
                    knows_player_hostile: true,
                    suspicion: d.tuning.suspicion_max,
                    focus: Some(shared(w, d, j)),
                }
            } else {
                m
            }
        } else if mind1(w, d, i).mood != Mood::Fleeing {
            Mind { mood: Mood::Fleeing, focus: Some(shared(w, d, j)), ..m }
        } else {
            m
        }
    } else if is_guard(rcp) && mind1(w, d, i).mood == Mood::Relaxed {
        Mind {
            mood: Mood::Suspicious,
            suspicion: if m.suspicion >= d.tuning.suspicion_suspicious_at {
                m.suspicion
            } else {
                d.tuning.suspicion_suspicious_at
            },
            focus: Some(shared(w, d, j)),
            ..m
        }
    } else {
        m
    }
}

/// Whether guard `j` brings guard `i` into the hunt.
pub open spec fn joins(w: &World, d: &GameData, j: int, i: int) -> bool {
    reaches(w, d, j, i) && alerting(mind1(w, d, j)) && is_guard(w.actors@[i]) && !alerting(
        mind1(w, d, i),
    )
}

/// Actor `i`'s mind after the first `n` sources have spread.
pub open spec fn received(w: &World, d: &GameData, i: int, n: nat) -> Mind
    decreases n,
{
    if n == 0 {
        mind1(w, d, i)
    } else {
        spread(w, d, (n - 1) as int, i, received(w, d, i, (n - 1) as nat))
    }
}

/// Whether violence had been witnessed before, or one of the first `n`
/// NPCs witnesses it now.
pub open spec fn witnessed_upto(w: &World, d: &GameData, n: nat) -> bool
    decreases n,
{
    if n == 0 {
        w.player_violence_witnessed
    } else {
        let a = w.actors@[n - 1];
        witnessed_upto(w, d, (n - 1) as nat) || (is_npc(a) && spec_observe(
            w,
            d,
            a.id,
        ).witnessed_violence)
    }
}

/// Actor `i`'s final mind: once violence has been witnessed, an alerted
/// guard is in combat.
pub open spec fn settled(w: &World, d: &GameData, i: int) -> Mind {
    let m = received(w, d, i, w.actors@.len());
    if witnessed_upto(w, d, w.actors@.len()) && is_guard(w.actors@[i]) && m.mood == Mood::Alerted {
        Mind { mood: Mood::Combat, ..m }
    } else {
        m
    }
}

/// `list` with `m` appended unless it is already there.
pub open spec fn noted(list: Seq<Seq<char>>, m: Seq<char>) -> Seq<Seq<char>> {
    if list.contains(m) {
        list
    } else {
        list.push(m)
    }
}

/// The lines of `raw` in order, each kept only the first time.
pub open spec fn dedup(raw: Seq<Seq<char>>) -> Seq<Seq<char>>
    decreases raw.len(),
{
    if raw.len() == 0 {
        Seq::empty()
    } else {
        noted(dedup(raw.drop_last()), raw.last())
    }
}

/// The first pass's log lines for the first `n` actors.
pub open spec fn first_notes(w: &World, d: &GameData, n: nat) -> Seq<Seq<char>>
    decreases n,
{
    if n == 0 {
        Seq::empty()
    } else {
        let a = w.actors@[n - 1];
        first_notes(w, d, (n - 1) as nat) + if is_npc(a) {
            match first_pass(w, d, n - 1).1 {
                Some(k) => seq![notice_text(a.name@, k)],
                None => Seq::empty(),
            }
        } else {
            Seq::empty()
        }
    }
}

/// The lines for the first `n` recipients that source `j` brings into
/// the hunt.
pub open spec fn join_notes(w: &World, d: &GameData, j: int, n: nat) -> Seq<Seq<char>>
    decreases n,
{
    if n == 0 {
        Seq::empty()
    } else {
        let i = n - 1;
        join_notes(w, d, j, (n - 1) as nat) + if joins(w, d, j, i) {
            seq![notice_text(w.actors@[i].name@, Notice::JoinsHunt)]
        } else {
            Seq::empty()
        }
    }
}

/// The propagation lines of the first `n` sources.
pub open spec fn spread_notes(w: &World, d: &GameData, n: nat) -> Seq<Seq<char>>
    decreases n,
{
    if n == 0 {
        Seq::empty()
    } else {
        spread_notes(w, d, (n - 1) as nat) + join_notes(w, d, n - 1, w.actors@.len())
    }
}

/// The update's log: every line once, in the order first raised.
pub open spec fn perception_notes(w: World, d: &GameData) -> Seq<Seq<char>> {
    dedup(first_notes(&w, d, w.actors@.len()) + spread_notes(&w, d, w.actors@.len()))
}

/// Actor `a` with its AI state's mind replaced by `m`.
pub open spec fn minded(a: Actor, m: Mind) -> Actor {
    Actor { ai: Some(with_mind(a.ai.unwrap(), m)), ..a }
}

/// What actor `a` at index `i` becomes.
pub open spec fn perceived_actor(w: &World, d: &GameData, i: int, a: Actor) -> Actor {
    if is_npc(a) {
        minded(a, settled(w, d, i))
    } else {
        a
    }
}

/// `e` is world `w` after one perception update: every NPC's mind as
/// settled, the violence flag raised if anyone witnessed violence, and
/// nothing else changed.
pub open spec fn perceived(w: World, d: &GameData, e: World) -> bool {
    &&& e.actors@.len() == w.actors@.len()
    &&& forall|i: int|
        0 <= i < w.actors@.len() ==> #[trigger] e.actors@[i] == perceived_actor(&w, d, i, w.actors@[i])
    &&& e == World {
        actors: e.actors,
        player_violence_witnessed: witnessed_upto(&w, d, w.actors@.len()),
        ..w
    }
}

proof fn lemma_respond_keeps(m: Mind, o: Observation, guard: bool, t: Tuning)
    requires
        m.suspicion <= t.suspicion_max,
        t.suspicion_investigate_at <= t.suspicion_max,
    ensures
        spec_respond(m, o, guard, t).0.suspicion <= t.suspicion_max,
{
}

proof fn lemma_received_keeps(w: &World, d: &GameData, i: int, n: nat)
    requires
        mind1(w, d, i).suspicion <= d.tuning.suspicion_max,
        d.tuning.suspicion_suspicious_at <= d.tuning.suspicion_max,
    ensures
        received(w, d, i, n).suspicion <= d.tuning.suspicion_max,
    decreases n,
{
    if n > 0 {
        lemma_received_keeps(w, d, i, (n - 1) as nat);
    }
}

/// Perception keeps every NPC's suspicion within the meter: when every
/// NPC starts at or below the maximum and the state thresholds lie
/// within it, every NPC ends at or below it.
pub proof fn law_suspicion_stays_capped(w: World, d: &GameData, i: int)
    requires
        0 <= i < w.actors@.len(),
        is_npc(w.actors@[i]),
        w.actors@[i].ai.unwrap().suspicion <= d.tuning.suspicion_max,
        d.tuning.suspicion_investigate_at <= d.tuning.suspicion_max,
        d.tuning.suspicion_suspicious_at <= d.tuning.suspicion_max,
    ensures
        settled(&w, d, i).suspicion <= d.tuning.suspicion_max,
{
    let a = w.actors@[i];
    lemma_respond_keeps(mind_of(a), spec_observe(&w, d, a.id), is_guard(a), d.tuning);
    lemma_received_keeps(&w, d, i, w.actors@.len());
}

/// Keeping each line only the first time leaves no line twice.
proof fn lemma_dedup_distinct(raw: Seq<Seq<char>>)
    ensures
        dedup(raw).no_duplicates(),
    decreases raw.len(),
{
    if raw.len() > 0 {
        lemma_dedup_distinct(raw.drop_last());
        let l = dedup(raw.drop_last());
        let m = raw.last();
        if !l.contains(m) {
            let p = l.push(m);
            assert forall|i: int, j: int| 0 <= i < p.len() && 0 <= j < p.len() && i != j implies p[i] != p[j] by {
                if j == l.len() {
                    assert(p[i] == l[i]);
                } else if i == l.len() {
                    assert(p[j] == l[j]);
                } else {
                    assert(p[i] == l[i] && p[j] == l[j]);
                }
            }
        }
    }
}

/// The update's log names each line once.
pub proof fn law_log_has_no_repeats(w: World, d: &GameData)
    ensures
        perception_notes(w, d).no_duplicates(),
{
    lemma_dedup_distinct(first_notes(&w, d, w.actors@.len()) + spread_notes(&w, d, w.actors@.len()));
}

proof fn lemma_witnessed_keeps(w: &World, d: &GameData, n: nat)
    requires
        w.player_violence_witnessed,
    ensures
        witnessed_upto(w, d, n),
    decreases n,
{
    if n > 0 {
        lemma_witnessed_keeps(w, d, (n - 1) as nat);
    }
}

/// Once violence has been witnessed it stays witnessed: perception
/// raises the flag, and never lowers it.
pub proof fn law_witness_only_rises(w: World, d: &GameData, e: World)
    requires
        perceived(w, d, e),
        w.player_violence_witnessed,
    ensures
        e.player_violence_witnessed,
{
    lemma_witnessed_keeps(&w, d, w.actors@.len());
}

/// Perception changes what NPCs think and nothing else: the map, doors,
/// items, rooms, furniture and the turn stay as they were; every actor
/// keeps its place, condition, hands and disguise, and only its AI state
/// may change; an actor with no role, the player, is left exactly as it
/// was.
pub proof fn law_perception_only_changes_minds(w: World, d: &GameData, e: World)
    requires
        perceived(w, d, e),
    ensures
        e.turn == w.turn,
        e.map == w.map,
        e.doors@ == w.doors@,
        e.items@ == w.items@,
        e.rooms@ == w.rooms@,
        e.furniture@ == w.furniture@,
        e.player == w.player,
        e.actors@.len() == w.actors@.len(),
        forall|i: int|
            0 <= i < w.actors@.len() ==> #[trigger] e.actors@[i] == (Actor { ai: e.actors@[i].ai, ..w.actors@[i] }),
        forall|i: int|
            0 <= i < w.actors@.len() && w.actors@[i].role is None ==> #[trigger] e.actors@[i] == w.actors@[i],
{
    assert forall|i: int|
        0 <= i < w.actors@.len() implies #[trigger] e.actors@[i] == (Actor { ai: e.actors@[i].ai, ..w.actors@[i] }) by {
        assert(e.actors@[i] == perceived_actor(&w, d, i, w.actors@[i]));
    }
    assert forall|i: int| 0 <= i < w.actors@.len() && w.actors@[i].role is None implies #[trigger] e.actors@[i]
        == w.actors@[i] by {
        assert(e.actors@[i] == perceived_actor(&w, d, i, w.actors@[i]));
    }
}

/// Over a whole update, every actor with a mind ends within the
/// suspicion meter when all of them started within it.
pub proof fn law_update_keeps_suspicion_capped(w: World, d: &GameData, e: World)
    requires
        perceived(w, d, e),
        forall|i: int|
            0 <= i < w.actors@.len() && (#[trigger] w.actors@[i]).ai is Some ==> w.actors@[i].ai.unwrap().suspicion
                <= d.tuning.suspicion_max,
        d.tuning.suspicion_investigate_at <= d.tuning.suspicion_max,
        d.tuning.suspicion_suspicious_at <= d.tuning.suspicion_max,
    ensures
        forall|i: int|
            0 <= i < e.actors@.len() && (#[trigger] e.actors@[i]).ai is Some ==> e.actors@[i].ai.unwrap().suspicion
                <= d.tuning.suspicion_max,
{
    assert forall|i: int|
        0 <= i < e.actors@.len() && (#[trigger] e.actors@[i]).ai is Some implies e.actors@[i].ai.unwrap().suspicion
        <= d.tuning.suspicion_max by {
        let a = w.actors@[i];
        assert(e.actors@[i] == perceived_actor(&w, d, i, a));
        if is_npc(a) {
            law_suspicion_stays_capped(w, d, i);
        }
    }
}

/// An NPC that has concluded the player is hostile never forgets it
/// through perception: whatever it sees, hears, or is told.
pub proof fn law_hostility_is_never_forgotten(w: World, d: &GameData, i: int)
    requires
        0 <= i < w.actors@.len(),
        is_npc(w.actors@[i]),
        w.actors@[i].ai.unwrap().knows_player_hostile,
    ensures
        settled(&w, d, i).knows_player_hostile,
{
    let a = w.actors@[i];
    let t = d.tuning;
    let m = mind_of(a);
    assert(spec_respond(m, spec_observe(&w, d, a.id), is_guard(a), t).0.knows_player_hostile);
    lemma_knows_received(&w, d, i, w.actors@.len());
}

proof fn lemma_knows_received(w: &World, d: &GameData, i: int, n: nat)
    requires
        mind1(w, d, i).knows_player_hostile,
    ensures
        received(w, d, i, n).knows_player_hostile,
    decreases n,
{
    if n > 0 {
        lemma_knows_received(w, d, i, (n - 1) as nat);
    }
}

proof fn lemma_close_enough(w: &World, a: Pos, b: Pos)
    requires
        w.map.spec_in_bounds(a),
        w.map.spec_in_bounds(b),
    ensures
        a.spec_chebyshev(b) <= i16::MAX,
{
    let wd = dim_i16(w.map.spec_width());
    let ht = dim_i16(w.map.spec_height());
    assert(wd <= 32767 && ht <= 32767);
}

/// True when NPC `viewer` currently sees `target_pos` (cone, range with
/// room lighting, and line of sight; low cover hides crouched targets).
pub fn npc_sees(world: &World, data: &GameData, viewer: ActorId, target_pos: Pos, target_crouched: bool) -> (r: bool)
    requires
        world.wf(),
        viewer.0 < world.actors@.len(),
        world.actors@[viewer.0 as int].pos.spec_chebyshev(target_pos) <= i16::MAX,
    ensures
        r == spec_npc_sees(world, data, viewer, target_pos, target_crouched),
{
    proof {
        reveal(spec_npc_sees);
    }
    let v = world.actor(viewer);
    let facing = match v.facing {
        None => {
            return false;
        },
        Some(f) => f,
    };
    if !in_cone(v.pos, facing, target_pos, data.tuning.cone_num, data.tuning.cone_den) {
        return false;
    }
    let lighting = match world.room_at(target_pos) {
        Some(room) => room.lighting,
        None => Lighting::Bright,
    };
    let range = match lighting {
        Lighting::Bright => data.tuning.vision_range,
        Lighting::Dim => data.tuning.vision_range_dim,
    };
    match v.pos.chebyshev(target_pos) {
        Some(d) => {
            if d > range {
                return false;
            }
        },
        None => {
            return false;
        },
    }
    let crouched = target_crouched || v.crouched;
    sees(world, v.pos, target_pos, crouched)
}

/// Every tile NPC `viewer` can see against a standing target, in
/// row-major order: the overlay that shows what the perception rules let
/// an NPC see.
pub fn npc_visible_tiles(world: &World, data: &GameData, viewer: ActorId) -> (r: Vec<Pos>)
    requires
        world.wf(),
        viewer.0 < world.actors@.len(),
        world.map.spec_in_bounds(world.actors@[viewer.0 as int].pos),
    ensures
        forall|i: int|
            0 <= i < r@.len() ==> {
                let range = if data.tuning.vision_range >= data.tuning.vision_range_dim {
                    data.tuning.vision_range
                } else {
                    data.tuning.vision_range_dim
                };
                &&& in_square(world.actors@[viewer.0 as int].pos, range as int, #[trigger] r@[i])
                &&& world.map.spec_in_bounds(r@[i])
                &&& spec_npc_sees(world, data, viewer, r@[i], false)
            },
        forall|i: int, j: int| 0 <= i < j < r@.len() ==> row_major_lt(r@[i], r@[j]),
        forall|p: Pos|
            in_square(
                world.actors@[viewer.0 as int].pos,
                (if data.tuning.vision_range >= data.tuning.vision_range_dim {
                    data.tuning.vision_range
                } else {
                    data.tuning.vision_range_dim
                }) as int,
                p,
            ) && world.map.spec_in_bounds(p) && spec_npc_sees(world, data, viewer, p, false)
                ==> r@.contains(p),
{
    let origin = world.actor(viewer).pos;
    let range: i16 = if data.tuning.vision_range >= data.tuning.vision_range_dim {
        data.tuning.vision_range
    } else {
        data.tuning.vision_range_dim
    };
    let mut tiles: Vec<Pos> = Vec::new();
    let lo_y: i32 = origin.y as i32 - range as i32;
    let hi_y: i32 = origin.y as i32 + range as i32;
    let lo_x: i32 = origin.x as i32 - range as i32;
    let hi_x: i32 = origin.x as i32 + range as i32;
    let mut y: i32 = lo_y;
    while y <= hi_y
        invariant
            world.wf(),
            viewer.0 < world.actors@.len(),
            origin == world.actors@[viewer.0 as int].pos,
            world.map.spec_in_bounds(origin),
            lo_y == origin.y - range,
            hi_y == origin.y + range,
            lo_x == origin.x - range,
            hi_x == origin.x + range,
            lo_y <= y,
            y <= hi_y + 1 || hi_y < lo_y,
            forall|i: int|
                0 <= i < tiles@.len() ==> {
                    &&& in_square(origin, range as int, #[trigger] tiles@[i])
                    &&& world.map.spec_in_bounds(tiles@[i])
                    &&& spec_npc_sees(world, data, viewer, tiles@[i], false)
                    &&& tiles@[i].y < y
                },
            forall|i: int, j: int| 0 <= i < j < tiles@.len() ==> row_major_lt(tiles@[i], tiles@[j]),
            forall|p: Pos|
                in_square(origin, range as int, p) && world.map.spec_in_bounds(p) && p.y < y
                    && spec_npc_sees(world, data, viewer, p, false) ==> tiles@.contains(p),
        decreases hi_y + 1 - y,
    {
        let mut x: i32 = lo_x;
        while x <= hi_x
            invariant
                world.wf(),
                viewer.0 < world.actors@.len(),
                origin == world.actors@[viewer.0 as int].pos,
                world.map.spec_in_bounds(origin),
                lo_y == origin.y - range,
                hi_y == origin.y + range,
                lo_x == origin.x - range,
                hi_x == origin.x + range,
                lo_y <= y <= hi_y,
                lo_x <= x,
                x <= hi_x + 1,
                forall|i: int|
                    0 <= i < tiles@.len() ==> {
                        &&& in_square(origin, range as int, #[trigger] tiles@[i])
                        &&& world.map.spec_in_bounds(tiles@[i])
                        &&& spec_npc_sees(world, data, viewer, tiles@[i], false)
                        &&& (tiles@[i].y < y || (tiles@[i].y == y && tiles@[i].x < x))
                    },
                forall|i: int, j: int| 0 <= i < j < tiles@.len() ==> row_major_lt(tiles@[i], tiles@[j]),
                forall|p: Pos|
                    in_square(origin, range as int, p) && world.map.spec_in_bounds(p) && (p.y < y || (
                    p.y == y && p.x < x)) && spec_npc_sees(world, data, viewer, p, false)
                        ==> tiles@.contains(p),
            decreases hi_x + 1 - x,
        {
            let ghost before = tiles@;
            if x >= 0 && y >= 0 && x <= 32767 && y <= 32767 {
                let target = Pos { floor: origin.floor, x: x as i16, y: y as i16 };
                if world.map.in_bounds(target) {
                    proof {
                        lemma_close_enough(world, origin, target);
                    }
                    if npc_sees(world, data, viewer, target, false) {
                        tiles.push(target);
                        assert forall|p: Pos|
                            in_square(origin, range as int, p) && world.map.spec_in_bounds(p) && (p.y < y
                                || (p.y == y && p.x < x + 1)) && spec_npc_sees(world, data, viewer, p, false)
                                implies tiles@.contains(p) by {
                            if p == target {
                                assert(tiles@[tiles@.len() - 1] == target);
                            } else {
                                assert(before.contains(p));
                                let k = choose|k: int| 0 <= k < before.len() && before[k] == p;
                                assert(tiles@[k] == p);
                            }
                        }
                    }
                }
            }
            x = x + 1;
        }
        y = y + 1;
    }
    tiles
}

/// Whether `role` is in `roles`.
fn role_in(roles: &Vec<Role>, role: Role) -> (r: bool)
    ensures
        r == roles@.contains(role),
{
    let mut i: usize = 0;
    while i < roles.len()
        invariant
            0 <= i <= roles@.len(),
            forall|j: int| 0 <= j < i ==> roles@[j] != role,
        decreases roles@.len() - i,
    {
        if roles[i] == role {
            assert(roles@[i as int] == role);
            return true;
        }
        i = i + 1;
    }
    false
}

fn first_violence(world: &World, data: &GameData, id: ActorId) -> (r: Option<Pos>)
    requires
        perceivable(*world),
        id.0 < world.actors@.len(),
    ensures
        r == violence_from(world, data, id, 0),
{
    let mut k: usize = 0;
    while k < world.incidents.len()
        invariant
            perceivable(*world),
            id.0 < world.actors@.len(),
            0 <= k <= world.incidents@.len(),
            violence_from(world, data, id, 0) == violence_from(world, data, id, k as int),
        decreases world.incidents@.len() - k,
    {
        let inc = &world.incidents[k];
        if inc.kind == IncidentKind::Violence {
            proof {
                lemma_close_enough(world, world.actors@[id.0 as int].pos, inc.pos);
            }
            if npc_sees(world, data, id, inc.pos, false) {
                return Some(inc.pos);
            }
        }
        k = k + 1;
    }
    None
}

fn first_body(world: &World, data: &GameData, id: ActorId) -> (r: Option<Pos>)
    requires
        perceivable(*world),
        id.0 < world.actors@.len(),
    ensures
        r == body_from(world, data, id, 0),
{
    let mut k: usize = 0;
    while k < world.actors.len()
        invariant
            perceivable(*world),
            id.0 < world.actors@.len(),
            0 <= k <= world.actors@.len(),
            body_from(world, data, id, 0) == body_from(world, data, id, k as int),
        decreases world.actors@.len() - k,
    {
        let a = &world.actors[k];
        if a.is_visible_body() && !world.is_carried(a.id) {
            proof {
                lemma_close_enough(world, world.actors@[id.0 as int].pos, a.pos);
            }
            if npc_sees(world, data, id, a.pos, false) {
                return Some(a.pos);
            }
        }
        k = k + 1;
    }
    None
}

fn first_gunshot(world: &World, at: Pos) -> (r: Option<Pos>)
    requires
        perceivable(*world),
        world.map.spec_in_bounds(at),
    ensures
        r == gunshot_from(world, at, 0),
{
    let mut k: usize = 0;
    while k < world.incidents.len()
        invariant
            perceivable(*world),
            world.map.spec_in_bounds(at),
            0 <= k <= world.incidents@.len(),
            gunshot_from(world, at, 0) == gunshot_from(world, at, k as int),
        decreases world.incidents@.len() - k,
    {
        let inc = &world.incidents[k];
        if inc.kind == IncidentKind::Gunshot {
            proof {
                lemma_close_enough(world, at, inc.pos);
            }
            match at.chebyshev(inc.pos) {
                Some(d) => {
                    if d <= inc.radius {
                        return Some(inc.pos);
                    }
                },
                None => {},
            }
        }
        k = k + 1;
    }
    None
}

/// What NPC `id` perceives this turn.
fn observe(world: &World, data: &GameData, id: ActorId) -> (o: Observation)
    requires
        perceivable(*world),
        id.0 < world.actors@.len(),
    ensures
        o == spec_observe(world, data, id),
{
    proof {
        reveal(spec_observe);
    }
    let npc = world.actor(id);
    let p = world.player_actor();
    let guard = npc.role == Some(Role::Guard);
    let role = match npc.role {
        Some(r) => r,
        None => Role::Civilian,
    };
    let t = &data.tuning;
    proof {
        lemma_close_enough(world, npc.pos, p.pos);
    }
    let sees_player = p.alive() && npc_sees(world, data, id, p.pos, p.crouched);
    let mut gain: u32 = 0;
    let mut drawn = false;
    let mut hauling = false;
    if sees_player {
        let disguise = data.disguise(p.worn_disguise.as_str());
        if guard && !verdict_at(world, data, world.player).is_allowed() {
            gain = gain + t.gain_illegal_zone as u32;
        }
        if guard && p.crouched {
            gain = gain + t.gain_crouching as u32;
        }
        let (recognised, legal) = match disguise {
            Some(g) => (role_in(&g.suspicious_observers, role), g.drawn_weapon_legal),
            None => (false, false),
        };
        if recognised {
            gain = gain + t.gain_disguise_recognised as u32;
        }
        drawn = match p.hands {
            Hands::Drawn(_) => !legal,
            _ => false,
        };
        hauling = match p.hands {
            Hands::CarryingBody(_) => true,
            _ => false,
        };
    }
    let violence = first_violence(world, data, id);
    let incident = match violence {
        Some(pos) => Some(pos),
        None => first_body(world, data, id),
    };
    let alarm = if guard && hauling {
        Some(AlarmCause::HaulingBody)
    } else if guard && drawn {
        Some(AlarmCause::DrawnWeapon)
    } else {
        None
    };
    Observation {
        sees_player,
        gain,
        alarm,
        flee: !guard && (drawn || hauling),
        incident,
        witnessed_violence: violence.is_some(),
        gunshot: first_gunshot(world, npc.pos),
        player_pos: p.pos,
    }
}

/// How an NPC's mind responds to one turn's observation.
fn respond(m: Mind, o: &Observation, guard: bool, t: &Tuning) -> (r: (Mind, Option<Notice>))
    ensures
        r == spec_respond(m, *o, guard, *t),
{
    let hunting_mood = if m.mood != Mood::Combat {
        Mood::Alerted
    } else {
        m.mood
    };
    let calm_mood = m.mood == Mood::Relaxed || m.mood == Mood::Suspicious;
    let (n, notice) = if let Some(pos) = o.incident {
        if guard {
            (
                Mind {
                    mood: hunting_mood,
                    knows_player_hostile: true,
                    suspicion: t.suspicion_max,
                    focus: Some(pos),
                },
                Some(Notice::RaisesAlarm),
            )
        } else {
            (Mind { mood: Mood::Fleeing, focus: Some(pos), ..m }, Some(Notice::ScreamsAndRuns))
        }
    } else if let Some(cause) = o.alarm {
        (
            Mind {
                mood: hunting_mood,
                knows_player_hostile: true,
                suspicion: t.suspicion_max,
                focus: Some(o.player_pos),
            },
            Some(Notice::Spots(cause)),
        )
    } else if o.flee {
        (Mind { mood: Mood::Fleeing, focus: Some(o.player_pos), ..m }, Some(Notice::BacksAway))
    } else if let Some(pos) = o.gunshot {
        if guard {
            if calm_mood {
                let s = if m.suspicion >= t.suspicion_investigate_at {
                    m.suspicion
                } else {
                    t.suspicion_investigate_at
                };
                (
                    Mind { mood: Mood::Investigating, suspicion: s, focus: Some(pos), ..m },
                    Some(Notice::HeardSomething),
                )
            } else {
                (Mind { focus: Some(pos), ..m }, Some(Notice::HeardSomething))
            }
        } else if m.mood != Mood::Fleeing {
            (Mind { mood: Mood::Fleeing, focus: Some(pos), ..m }, Some(Notice::Flinches))
        } else {
            (m, None)
        }
    } else if o.gain > 0 {
        let total: u64 = m.suspicion as u64 + o.gain as u64;
        let s: u16 = if total >= t.suspicion_max as u64 {
            t.suspicion_max
        } else {
            total as u16
        };
        let focus = if o.sees_player {
            Some(o.player_pos)
        } else {
            m.focus
        };
        if s >= t.suspicion_max {
            if guard {
                (
                    Mind { mood: hunting_mood, knows_player_hostile: true, suspicion: s, focus },
                    Some(Notice::SeesThrough),
                )
            } else {
                (Mind { mood: Mood::Fleeing, suspicion: s, focus, ..m }, Some(Notice::WantsNoPart))
            }
        } else if s >= t.suspicion_investigate_at {
            if calm_mood {
                (
                    Mind { mood: Mood::Investigating, suspicion: s, focus, ..m },
                    Some(Notice::ComesToLook),
                )
            } else {
                (Mind { suspicion: s, focus, ..m }, None)
            }
        } else if s >= t.suspicion_suspicious_at && m.mood == Mood::Relaxed {
            (Mind { mood: Mood::Suspicious, suspicion: s, focus, ..m }, Some(Notice::IsWatching))
        } else {
            (Mind { suspicion: s, focus, ..m }, None)
        }
    } else {
        let s: u16 = if m.suspicion >= t.suspicion_decay {
            m.suspicion - t.suspicion_decay
        } else {
            0
        };
        if m.mood == Mood::Suspicious && s == 0 {
            (Mind { mood: Mood::Relaxed, suspicion: s, focus: None, ..m }, None)
        } else {
            (Mind { suspicion: s, ..m }, None)
        }
    };
    if o.sees_player && (n.mood == Mood::Alerted || n.mood == Mood::Combat) {
        (Mind { focus: Some(o.player_pos), ..n }, notice)
    } else {
        (n, notice)
    }
}

/// The log line for `notice` by an NPC called `name`.
fn notice_line(name: &str, notice: Notice) -> (r: String)
    ensures
        r@ == notice_text(name@, notice),
{
    match notice {
        Notice::RaisesAlarm => cat2(name, " raises the alarm!"),
        Notice::ScreamsAndRuns => cat2(name, " screams and runs"),
        Notice::Spots(AlarmCause::DrawnWeapon) => cat2(name, " spots a drawn weapon!"),
        Notice::Spots(AlarmCause::HaulingBody) => cat2(name, " spots someone hauling a body!"),
        Notice::BacksAway => cat2(name, " backs away in fear"),
        Notice::HeardSomething => cat2(name, " heard something"),
        Notice::Flinches => cat2(name, " flinches at the noise"),
        Notice::SeesThrough => cat2(name, " sees through you!"),
        Notice::WantsNoPart => cat2(name, " wants no part of this"),
        Notice::ComesToLook => cat2(name, " comes to take a look"),
        Notice::IsWatching => cat2(name, " is watching you"),
        Notice::JoinsHunt => cat2(name, " joins the hunt"),
    }
}

fn mind_now(a: &Actor) -> (m: Mind)
    ensures
        m == mind_of(*a),
{
    match &a.ai {
        Some(ai) => Mind {
            mood: ai.mood,
            suspicion: ai.suspicion,
            focus: ai.focus,
            knows_player_hostile: ai.knows_player_hostile,
        },
        None => Mind { mood: Mood::Relaxed, suspicion: 0, focus: None, knows_player_hostile: false },
    }
}

/// Logs `line` unless it is already in the log.
fn note(notes: &mut Vec<String>, line: String)
    ensures
        views(final(notes)@) == noted(views(old(notes)@), line@),
{
    if !holds(notes, line.as_str()) {
        push_msg(notes, line);
    }
}

proof fn lemma_dedup_step(raw: Seq<Seq<char>>, m: Seq<char>)
    ensures
        dedup(raw.push(m)) == noted(dedup(raw), m),
{
    assert(raw.push(m).drop_last() =~= raw);
}

proof fn lemma_no_joins(w: &World, d: &GameData, j: int, n: nat)
    requires
        forall|i: int| 0 <= i < n ==> !#[trigger] reaches(w, d, j, i),
    ensures
        join_notes(w, d, j, n) == Seq::<Seq<char>>::empty(),
    decreases n,
{
    if n > 0 {
        lemma_no_joins(w, d, j, (n - 1) as nat);
        assert(!reaches(w, d, j, n - 1));
        assert(join_notes(w, d, j, n) =~= Seq::<Seq<char>>::empty());
    }
}

/// A copy of a list of minds.
fn copy_minds(v: &Vec<Mind>) -> (r: Vec<Mind>)
    ensures
        r@ == v@,
{
    let mut r: Vec<Mind> = Vec::new();
    let mut k: usize = 0;
    while k < v.len()
        invariant
            0 <= k <= v@.len(),
            r@ == v@.subrange(0, k as int),
        decreases v@.len() - k,
    {
        r.push(v[k]);
        assert(v@.subrange(0, k as int + 1) =~= v@.subrange(0, k as int).push(v@[k as int]));
        k = k + 1;
    }
    assert(v@.subrange(0, v@.len() as int) =~= v@);
    r
}

/// Writes mind `m` into actor `i`'s AI state.
pub(crate) fn set_mind(world: &mut World, i: usize, m: Mind)
    requires
        i < old(world).actors@.len(),
        (old(world).actors@[i as int].ai is Some),
    ensures
        final(world).actors@ == old(world).actors@.update(i as int, minded(old(world).actors@[i as int], m)),
        *final(world) == (World { actors: final(world).actors, ..*old(world) }),
{
    let ghost before = old(world).actors@;
    let mut actors: Vec<Actor> = Vec::new();
    std::mem::swap(&mut actors, &mut world.actors);
    let mut a = actors.remove(i);
    let mut ai = a.ai.take().unwrap();
    ai.mood = m.mood;
    ai.suspicion = m.suspicion;
    ai.focus = m.focus;
    ai.knows_player_hostile = m.knows_player_hostile;
    a.ai = Some(ai);
    actors.insert(i, a);
    assert(actors@ =~= before.update(i as int, minded(before[i as int], m)));
    std::mem::swap(&mut actors, &mut world.actors);
}

/// Updates every NPC's suspicion, mood, memory, and knowledge from what
/// it perceived this turn, then propagates suspicion and alerts one hop.
/// Returns the turn's perception log, each line once.
#[verifier::rlimit(40)]
pub fn update(world: &mut World, data: &GameData) -> (messages: Vec<String>)
    requires
        perceivable(*old(world)),
    ensures
        perceived(*old(world), data, *final(world)),
        views(messages@) == perception_notes(*old(world), data),
{
    let ghost w = *world;
    let n = world.actors.len();
    let ghost len = n as nat;
    // Pass 1: direct perception.
    let mut minds: Vec<Mind> = Vec::new();
    let mut notes: Vec<String> = Vec::new();
    let mut witnessed = world.player_violence_witnessed;
    let mut i: usize = 0;
    while i < n
        invariant
            *world == w,
            perceivable(w),
            n == w.actors@.len(),
            0 <= i <= n,
            minds@.len() == i,
            forall|k: int| 0 <= k < i ==> #[trigger] minds@[k] == mind1(&w, data, k),
            views(notes@) == dedup(first_notes(&w, data, i as nat)),
            witnessed == witnessed_upto(&w, data, i as nat),
        decreases n - i,
    {
        let a = &world.actors[i];
        let ghost raw = first_notes(&w, data, i as nat);
        if a.role.is_some() && a.alive() && !a.departed && a.ai.is_some() {
            assert(w.actors@[i as int].id.0 == i);
            let o = observe(world, data, a.id);
            let (m, notice) = respond(mind_now(a), &o, a.role == Some(Role::Guard), &data.tuning);
            minds.push(m);
            if o.witnessed_violence {
                witnessed = true;
            }
            match notice {
                Some(k) => {
                    let line = notice_line(a.name.as_str(), k);
                    note(&mut notes, line);
                    proof {
                        lemma_dedup_step(raw, notice_text(a.name@, k));
                        assert(first_notes(&w, data, (i + 1) as nat) =~= raw.push(
                            notice_text(a.name@, k),
                        ));
                    }
                },
                None => {
                    assert(first_notes(&w, data, (i + 1) as nat) =~= raw);
                },
            }
        } else {
            minds.push(mind_now(a));
            assert(first_notes(&w, data, (i + 1) as nat) =~= raw);
        }
        assert(minds@[i as int] == mind1(&w, data, i as int));
        i = i + 1;
    }
    // Pass 2: propagation, one hop, from the moods after pass 1.
    let snapshot = copy_minds(&minds);
    let ghost first = first_notes(&w, data, len);
    let mut j: usize = 0;
    while j < n
        invariant
            *world == w,
            perceivable(w),
            n == w.actors@.len(),
            len == n,
            first == first_notes(&w, data, len),
            0 <= j <= n,
            snapshot@.len() == n,
            forall|k: int| 0 <= k < n ==> #[trigger] snapshot@[k] == mind1(&w, data, k),
            minds@.len() == n,
            forall|k: int| 0 <= k < n ==> #[trigger] minds@[k] == received(&w, data, k, j as nat),
            views(notes@) == dedup(first + spread_notes(&w, data, j as nat)),
            witnessed == witnessed_upto(&w, data, len),
        decreases n - j,
    {
        let src = &world.actors[j];
        let src_mind = snapshot[j];
        let alert = src_mind.mood == Mood::Alerted || src_mind.mood == Mood::Combat;
        let suspicious = src_mind.mood == Mood::Suspicious;
        let ghost base = first + spread_notes(&w, data, j as nat);
        if src.role.is_some() && src.alive() && !src.departed && src.ai.is_some() && src.role == Some(
            Role::Guard,
        ) && (alert || suspicious) {
            let shared_pos = match src_mind.focus {
                Some(f) => f,
                None => src.pos,
            };
            let mut i: usize = 0;
            while i < n
                invariant
                    *world == w,
                    perceivable(w),
                    n == w.actors@.len(),
                    0 <= i <= n,
                    0 <= j < n,
                    *src == w.actors@[j as int],
                    src_mind == mind1(&w, data, j as int),
                    alert == alerting(src_mind),
                    suspicious == (src_mind.mood == Mood::Suspicious),
                    is_npc(*src) && is_guard(*src) && (alert || suspicious),
                    shared_pos == shared(&w, data, j as int),
                    snapshot@.len() == n,
                    forall|k: int| 0 <= k < n ==> #[trigger] snapshot@[k] == mind1(&w, data, k),
                    minds@.len() == n,
                    forall|k: int|
                        0 <= k < i ==> #[trigger] minds@[k] == received(&w, data, k, (j + 1) as nat),
                    forall|k: int|
                        i <= k < n ==> #[trigger] minds@[k] == received(&w, data, k, j as nat),
                    views(notes@) == dedup(base + join_notes(&w, data, j as int, i as nat)),
                decreases n - i,
            {
                let rcp = &world.actors[i];
                let ghost raw = base + join_notes(&w, data, j as int, i as nat);
                let ghost before = minds@[i as int];
                let mut joined = false;
                if i != j && rcp.role.is_some() && rcp.alive() && !rcp.departed && rcp.ai.is_some() {
                    proof {
                        lemma_close_enough(&w, w.actors@[i as int].pos, src.pos);
                        assert(w.actors@[i as int].id.0 == i);
                    }
                    if npc_sees(world, data, rcp.id, src.pos, false) {
                        let cur = minds[i];
                        let rcp_snap = snapshot[i];
                        let rcp_guard = rcp.role == Some(Role::Guard);
                        let rcp_alert = rcp_snap.mood == Mood::Alerted || rcp_snap.mood == Mood::Combat;
                        let next = if alert {
                            if rcp_guard {
                                if !rcp_alert {
                                    joined = true;
                                    Mind {
                                        mood: Mood::Alerted,
                                        knows_player_hostile: true,
                                        suspicion: data.tuning.suspicion_max,
                                        focus: Some(shared_pos),
                                    }
                                } else {
                                    cur
                                }
                            } else if rcp_snap.mood != Mood::Fleeing {
                                Mind { mood: Mood::Fleeing, focus: Some(shared_pos), ..cur }
                            } else {
                                cur
                            }
                        } else if rcp_guard && rcp_snap.mood == Mood::Relaxed {
                            let s = if cur.suspicion >= data.tuning.suspicion_suspicious_at {
                                cur.suspicion
                            } else {
                                data.tuning.suspicion_suspicious_at
                            };
                            Mind { mood: Mood::Suspicious, suspicion: s, focus: Some(shared_pos), ..cur }
                        } else {
                            cur
                        };
                        minds.set(i, next);
                    }
                }
                assert(minds@[i as int] == received(&w, data, i as int, (j + 1) as nat));
                assert(joined == joins(&w, data, j as int, i as int));
                if joined {
                    let line = notice_line(rcp.name.as_str(), Notice::JoinsHunt);
                    note(&mut notes, line);
                    proof {
                        lemma_dedup_step(raw, notice_text(rcp.name@, Notice::JoinsHunt));
                        assert(base + join_notes(&w, data, j as int, (i + 1) as nat) =~= raw.push(
                            notice_text(rcp.name@, Notice::JoinsHunt),
                        ));
                    }
                } else {
                    assert(base + join_notes(&w, data, j as int, (i + 1) as nat) =~= raw);
                }
                i = i + 1;
            }
            assert(first + spread_notes(&w, data, (j + 1) as nat) =~= base + join_notes(
                &w,
                data,
                j as int,
                len,
            ));
        } else {
            proof {
                assert forall|k: int| 0 <= k < n implies !#[trigger] reaches(&w, data, j as int, k) by {}
                lemma_no_joins(&w, data, j as int, len);
                assert(first + spread_notes(&w, data, (j + 1) as nat) =~= base);
                assert forall|k: int| 0 <= k < n implies #[trigger] minds@[k] == received(
                    &w,
                    data,
                    k,
                    (j + 1) as nat,
                ) by {
                    assert(!reaches(&w, data, j as int, k));
                }
            }
        }
        j = j + 1;
    }
    // Pass 3: once violence has been witnessed, alerted guards fight.
    let mut i: usize = 0;
    while i < n
        invariant
            *world == w,
            perceivable(w),
            n == w.actors@.len(),
            len == n,
            0 <= i <= n,
            minds@.len() == n,
            witnessed == witnessed_upto(&w, data, len),
            forall|k: int| 0 <= k < i ==> #[trigger] minds@[k] == settled(&w, data, k),
            forall|k: int| i <= k < n ==> #[trigger] minds@[k] == received(&w, data, k, len),
        decreases n - i,
    {
        let m = minds[i];
        if witnessed && world.actors[i].role == Some(Role::Guard) && m.mood == Mood::Alerted {
            minds.set(i, Mind { mood: Mood::Combat, ..m });
        }
        assert(minds@[i as int] == settled(&w, data, i as int));
        i = i + 1;
    }
    // Write the settled minds back.
    let mut i: usize = 0;
    while i < n
        invariant
            perceivable(w),
            n == w.actors@.len(),
            0 <= i <= n,
            minds@.len() == n,
            forall|k: int| 0 <= k < n ==> #[trigger] minds@[k] == settled(&w, data, k),
            world.actors@.len() == n,
            forall|k: int|
                0 <= k < i ==> #[trigger] world.actors@[k] == perceived_actor(&w, data, k, w.actors@[k]),
            forall|k: int| i <= k < n ==> #[trigger] world.actors@[k] == w.actors@[k],
            *world == (World { actors: world.actors, ..w }),
        decreases n - i,
    {
        let a = &world.actors[i];
        if a.role.is_some() && a.alive() && !a.departed && a.ai.is_some() {
            let m = minds[i];
            set_mind(world, i, m);
        }
        assert(world.actors@[i as int] == perceived_actor(&w, data, i as int, w.actors@[i as int]));
        i = i + 1;
    }
    world.player_violence_witnessed = witnessed;
    notes
}

} // verus!
