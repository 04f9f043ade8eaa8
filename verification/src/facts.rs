//! The briefing facts: what a mission's dossier says, derived from the
//! generated venue and its people. Every statement is a fact about this
//! mission; no hand-authored story is involved.
use vstd::prelude::*;

use crate::data::{GameData, Role, Zone};
use crate::layout::Layout;
use crate::text::{holds, views};
use crate::world::{
    room_containing, spec_room_index, Actor, ActorId, Furniture, FurnitureKind, ItemInstance,
    MissionFacts, Room, RoutineStep,
};

verus! {

/// The people and loose items a venue was populated with.
#[derive(Clone, Debug)]
pub struct Population {
    pub actors: Vec<Actor>,
    pub items: Vec<ItemInstance>,
    pub player: ActorId,
    pub target: ActorId,
}

/// `names` with `n` appended, unless it is already there.
pub open spec fn with_name(names: Seq<Seq<char>>, n: Seq<char>) -> Seq<Seq<char>> {
    if names.contains(n) {
        names
    } else {
        names.push(n)
    }
}

/// The names of the rooms the steps stand in, in order of first visit,
/// each once; a step outside every room names nothing.
pub open spec fn visited_rooms(rooms: Seq<Room>, steps: Seq<RoutineStep>) -> Seq<Seq<char>>
    decreases steps.len(),
{
    if steps.len() == 0 {
        Seq::empty()
    } else {
        let prev = visited_rooms(rooms, steps.drop_last());
        match spec_room_index(rooms, steps.last().pos) {
            Some(i) => with_name(prev, rooms[i].name@),
            None => prev,
        }
    }
}

/// The rooms the target's routine visits.
pub open spec fn target_rooms(rooms: Seq<Room>, target: Actor) -> Seq<Seq<char>> {
    match target.ai {
        Some(ai) => visited_rooms(rooms, ai.routine@),
        None => Seq::empty(),
    }
}

/// The display name of disguise `id`, or the id itself when no such
/// disguise is authored.
pub open spec fn disguise_name(data: GameData, id: Seq<char>) -> Seq<char> {
    match data.spec_disguise(id) {
        Some(d) => d.name@,
        None => id,
    }
}

/// `names` extended by the disguises the non-player actors wear.
pub open spec fn worn_names(data: GameData, names: Seq<Seq<char>>, actors: Seq<Actor>) -> Seq<
    Seq<char>,
>
    decreases actors.len(),
{
    if actors.len() == 0 {
        names
    } else {
        let prev = worn_names(data, names, actors.drop_last());
        if actors.last().role is None {
            prev
        } else {
            with_name(prev, disguise_name(data, actors.last().worn_disguise@))
        }
    }
}

/// `names` extended by the disguises stocked in the furniture.
pub open spec fn stocked_names(data: GameData, names: Seq<Seq<char>>, furniture: Seq<Furniture>) -> Seq<
    Seq<char>,
>
    decreases furniture.len(),
{
    if furniture.len() == 0 {
        names
    } else {
        let prev = stocked_names(data, names, furniture.drop_last());
        match furniture.last().disguise {
            Some(d) => with_name(prev, disguise_name(data, d@)),
            None => prev,
        }
    }
}

/// Every disguise on show in the mission: worn first, then stocked, each
/// name once.
pub open spec fn disguises_on_show(data: GameData, actors: Seq<Actor>, furniture: Seq<Furniture>) -> Seq<
    Seq<char>,
> {
    stocked_names(data, worn_names(data, Seq::empty(), actors), furniture)
}

/// The names of the rooms outside the public tier, each once.
pub open spec fn restricted_names(rooms: Seq<Room>) -> Seq<Seq<char>>
    decreases rooms.len(),
{
    if rooms.len() == 0 {
        Seq::empty()
    } else {
        let prev = restricted_names(rooms.drop_last());
        if rooms.last().zone != Zone::Public {
            with_name(prev, rooms.last().name@)
        } else {
            prev
        }
    }
}

/// The names of the rooms with an exit to the street, in room order.
pub open spec fn exit_names(rooms: Seq<Room>) -> Seq<Seq<char>> {
    rooms.filter(|r: Room| r.external_exit).map_values(|r: Room| r.name@)
}

pub open spec fn is_guard(a: Actor) -> bool {
    a.role == Some(Role::Guard)
}

pub open spec fn is_staff_member(a: Actor) -> bool {
    a.role matches Some(r) && r.spec_is_staff()
}

pub open spec fn is_civilian(a: Actor) -> bool {
    a.role == Some(Role::Civilian)
}

pub open spec fn is_container(f: Furniture) -> bool {
    f.kind == FurnitureKind::Container
}

/// Appends `name` unless the list already holds it.
fn note(list: &mut Vec<String>, name: String)
    ensures
        views(final(list)@) == with_name(views(old(list)@), name@),
{
    if !holds(list, name.as_str()) {
        let ghost before = list@;
        list.push(name);
        assert(views(list@) == views(before).push(name@));
    }
}

/// The display name of disguise `id`.
fn disguise_label(data: &GameData, id: &String) -> (r: String)
    ensures
        r@ == disguise_name(*data, id@),
{
    match data.disguise(id.as_str()) {
        Some(d) => d.name.clone(),
        None => id.clone(),
    }
}

fn rooms_visited(rooms: &Vec<Room>, steps: &Vec<RoutineStep>) -> (r: Vec<String>)
    ensures
        views(r@) == visited_rooms(rooms@, steps@),
{
    let mut r: Vec<String> = Vec::new();
    let mut i: usize = 0;
    while i < steps.len()
        invariant
            0 <= i <= steps@.len(),
            views(r@) == visited_rooms(rooms@, steps@.subrange(0, i as int)),
        decreases steps@.len() - i,
    {
        assert(steps@.subrange(0, i as int + 1).drop_last() == steps@.subrange(0, i as int));
        match room_containing(rooms, steps[i].pos) {
            Some(room) => note(&mut r, room.name.clone()),
            None => {},
        }
        i = i + 1;
    }
    assert(steps@.subrange(0, steps@.len() as int) == steps@);
    r
}

fn disguises_shown(data: &GameData, actors: &Vec<Actor>, furniture: &Vec<Furniture>) -> (r: Vec<String>)
    ensures
        views(r@) == disguises_on_show(*data, actors@, furniture@),
{
    let mut r: Vec<String> = Vec::new();
    let mut i: usize = 0;
    while i < actors.len()
        invariant
            0 <= i <= actors@.len(),
            views(r@) == worn_names(*data, Seq::empty(), actors@.subrange(0, i as int)),
        decreases actors@.len() - i,
    {
        assert(actors@.subrange(0, i as int + 1).drop_last() == actors@.subrange(0, i as int));
        if !actors[i].is_player() {
            note(&mut r, disguise_label(data, &actors[i].worn_disguise));
        }
        i = i + 1;
    }
    assert(actors@.subrange(0, actors@.len() as int) == actors@);
    let ghost worn = views(r@);
    let mut k: usize = 0;
    while k < furniture.len()
        invariant
            0 <= k <= furniture@.len(),
            views(r@) == stocked_names(*data, worn, furniture@.subrange(0, k as int)),
        decreases furniture@.len() - k,
    {
        assert(furniture@.subrange(0, k as int + 1).drop_last() == furniture@.subrange(0, k as int));
        match &furniture[k].disguise {
            Some(d) => note(&mut r, disguise_label(data, d)),
            None => {},
        }
        k = k + 1;
    }
    assert(furniture@.subrange(0, furniture@.len() as int) == furniture@);
    r
}

fn restricted_rooms(rooms: &Vec<Room>) -> (r: Vec<String>)
    ensures
        views(r@) == restricted_names(rooms@),
{
    let mut r: Vec<String> = Vec::new();
    let mut i: usize = 0;
    while i < rooms.len()
        invariant
            0 <= i <= rooms@.len(),
            views(r@) == restricted_names(rooms@.subrange(0, i as int)),
        decreases rooms@.len() - i,
    {
        assert(rooms@.subrange(0, i as int + 1).drop_last() == rooms@.subrange(0, i as int));
        if rooms[i].zone != Zone::Public {
            note(&mut r, rooms[i].name.clone());
        }
        i = i + 1;
    }
    assert(rooms@.subrange(0, rooms@.len() as int) == rooms@);
    r
}

fn exit_rooms(rooms: &Vec<Room>) -> (r: Vec<String>)
    ensures
        views(r@) == exit_names(rooms@),
{
    let ghost pred = |r: Room| r.external_exit;
    let ghost name = |r: Room| r.name@;
    let mut r: Vec<String> = Vec::new();
    let mut i: usize = 0;
    while i < rooms.len()
        invariant
            0 <= i <= rooms@.len(),
            pred == (|r: Room| r.external_exit),
            name == (|r: Room| r.name@),
            views(r@) == rooms@.subrange(0, i as int).filter(pred).map_values(name),
        decreases rooms@.len() - i,
    {
        let ghost before = r@;
        if rooms[i].external_exit {
            r.push(rooms[i].name.clone());
        }
        proof {
            let s = rooms@.subrange(0, i as int + 1);
            assert(s.drop_last() == rooms@.subrange(0, i as int));
            reveal_with_fuel(Seq::filter, 1);
            if pred(s.last()) {
                assert(s.filter(pred) == s.drop_last().filter(pred).push(s.last()));
                assert(views(r@) == views(before).push(name(s.last())));
            } else {
                assert(s.filter(pred) == s.drop_last().filter(pred));
            }
        }
        i = i + 1;
    }
    assert(rooms@.subrange(0, rooms@.len() as int) == rooms@);
    r
}

/// How many actors hold a role satisfying the test for `kind`: guards,
/// staff or civilians.
fn count_actors(actors: &Vec<Actor>, kind: u8) -> (n: usize)
    requires
        kind < 3,
    ensures
        kind == 0 ==> n == actors@.filter(|a: Actor| is_guard(a)).len(),
        kind == 1 ==> n == actors@.filter(|a: Actor| is_staff_member(a)).len(),
        kind == 2 ==> n == actors@.filter(|a: Actor| is_civilian(a)).len(),
{
    let ghost pred = if kind == 0 {
        |a: Actor| is_guard(a)
    } else if kind == 1 {
        |a: Actor| is_staff_member(a)
    } else {
        |a: Actor| is_civilian(a)
    };
    let mut n: usize = 0;
    let mut i: usize = 0;
    while i < actors.len()
        invariant
            0 <= i <= actors@.len(),
            kind < 3,
            kind == 0 ==> pred == (|a: Actor| is_guard(a)),
            kind == 1 ==> pred == (|a: Actor| is_staff_member(a)),
            kind == 2 ==> pred == (|a: Actor| is_civilian(a)),
            n == actors@.subrange(0, i as int).filter(pred).len(),
            n <= i,
        decreases actors@.len() - i,
    {
        let hit = match actors[i].role {
            Some(r) => if kind == 0 {
                r == Role::Guard
            } else if kind == 1 {
                r.is_staff()
            } else {
                r == Role::Civilian
            },
            None => false,
        };
        proof {
            let s = actors@.subrange(0, i as int + 1);
            assert(s.drop_last() == actors@.subrange(0, i as int));
            assert(s.last() == actors@[i as int]);
            reveal_with_fuel(Seq::filter, 1);
            assert(hit == pred(s.last()));
            if hit {
                assert(s.filter(pred) == s.drop_last().filter(pred).push(s.last()));
            } else {
                assert(s.filter(pred) == s.drop_last().filter(pred));
            }
        }
        if hit {
            n = n + 1;
        }
        i = i + 1;
    }
    assert(actors@.subrange(0, actors@.len() as int) == actors@);
    n
}

fn count_containers(furniture: &Vec<Furniture>) -> (n: usize)
    ensures
        n == furniture@.filter(|f: Furniture| is_container(f)).len(),
{
    let ghost pred = |f: Furniture| is_container(f);
    let mut n: usize = 0;
    let mut i: usize = 0;
    while i < furniture.len()
        invariant
            0 <= i <= furniture@.len(),
            pred == (|f: Furniture| is_container(f)),
            n == furniture@.subrange(0, i as int).filter(pred).len(),
            n <= i,
        decreases furniture@.len() - i,
    {
        let hit = furniture[i].kind == FurnitureKind::Container;
        proof {
            let s = furniture@.subrange(0, i as int + 1);
            assert(s.drop_last() == furniture@.subrange(0, i as int));
            reveal_with_fuel(Seq::filter, 1);
            if hit {
                assert(s.filter(pred) == s.drop_last().filter(pred).push(s.last()));
            } else {
                assert(s.filter(pred) == s.drop_last().filter(pred));
            }
        }
        if hit {
            n = n + 1;
        }
        i = i + 1;
    }
    assert(furniture@.subrange(0, furniture@.len() as int) == furniture@);
    n
}

/// Derives the briefing facts from the generated venue and its people.
/// `reason` is the drawn index of the briefing reason given for the
/// contract.
pub fn build_facts(data: &GameData, layout: &Layout, population: &Population, reason: usize) -> (r:
    MissionFacts)
    requires
        population.target.0 < population.actors@.len(),
        reason < data.briefing.reasons@.len(),
    ensures
        r.target_name@ == population.actors@[population.target.0 as int].name@,
        r.target_reason@ == data.briefing.reasons@[reason as int]@,
        views(r.target_locations@) == target_rooms(
            layout.rooms@,
            population.actors@[population.target.0 as int],
        ),
        r.guard_count == population.actors@.filter(|a: Actor| is_guard(a)).len(),
        r.staff_count == population.actors@.filter(|a: Actor| is_staff_member(a)).len(),
        r.civilian_count == population.actors@.filter(|a: Actor| is_civilian(a)).len(),
        views(r.available_disguises@) == disguises_on_show(
            *data,
            population.actors@,
            layout.furniture@,
        ),
        views(r.restricted_rooms@) == restricted_names(layout.rooms@),
        r.container_count == layout.furniture@.filter(|f: Furniture| is_container(f)).len(),
        views(r.extraction_exits@) == exit_names(layout.rooms@),
{
    let target = &population.actors[population.target.0 as usize];
    let target_locations = match &target.ai {
        Some(ai) => rooms_visited(&layout.rooms, &ai.routine),
        None => Vec::new(),
    };
    proof {
        if target.ai is None {
            assert(views(target_locations@) =~= Seq::<Seq<char>>::empty());
        }
    }
    MissionFacts {
        target_name: target.name.clone(),
        target_reason: data.briefing.reasons[reason].clone(),
        target_locations,
        guard_count: count_actors(&population.actors, 0),
        staff_count: count_actors(&population.actors, 1),
        civilian_count: count_actors(&population.actors, 2),
        available_disguises: disguises_shown(data, &population.actors, &layout.furniture),
        restricted_rooms: restricted_rooms(&layout.rooms),
        container_count: count_containers(&layout.furniture),
        extraction_exits: exit_rooms(&layout.rooms),
    }
}

} // verus!
