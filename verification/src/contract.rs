//! Mission configuration and contract constraints.
//!
//! A contract carries exactly one mandatory constraint. In the mission
//! constraints are tracked as breach conditions: breaking one never ends
//! the mission, but the contract resolves unclean, with no payout.
//!
//! The deterministic guarantee is config-for-config: the same
//! [`MissionConfig`] always generates the identical world and simulation.
use vstd::prelude::*;

use crate::data::{GameData, ItemSpecId, Role, RoomTemplateId, VenueId, VenueSpec, Zone};
use crate::geom::Pos;
use crate::loc::{filled, Catalogue};
use crate::text::{holds, join, join_strings, owned, views};
use crate::world::{spec_room_index, Room, World};

verus! {

/// The mandatory condition a contract imposes. Exactly one per contract.
#[derive(Clone, Debug, PartialEq, Eq)]
pub enum Constraint {
    /// The pistol may not be fired.
    NoFirearms,
    /// Nobody but the target may die by your hand (guards excepted).
    NoCivilianCasualties,
    /// No body you made may be discovered before you extract.
    NoBodiesFound,
    /// The target must die in personal-tier space, away from the crowd.
    PrivateKill,
    /// Extraction must use a named exit.
    SpecificExit { room_template: RoomTemplateId },
}

/// Structural equality of two constraints, by the views of their fields.
pub open spec fn same_constraint(a: Constraint, b: Constraint) -> bool {
    match (a, b) {
        (Constraint::NoFirearms, Constraint::NoFirearms) => true,
        (Constraint::NoCivilianCasualties, Constraint::NoCivilianCasualties) => true,
        (Constraint::NoBodiesFound, Constraint::NoBodiesFound) => true,
        (Constraint::PrivateKill, Constraint::PrivateKill) => true,
        (Constraint::SpecificExit { room_template: x }, Constraint::SpecificExit { room_template: y }) => x@
            == y@,
        _ => false,
    }
}

/// A copy of a constraint.
pub fn copy_constraint(c: &Constraint) -> (r: Constraint)
    ensures
        same_constraint(r, *c),
{
    match c {
        Constraint::NoFirearms => Constraint::NoFirearms,
        Constraint::NoCivilianCasualties => Constraint::NoCivilianCasualties,
        Constraint::NoBodiesFound => Constraint::NoBodiesFound,
        Constraint::PrivateKill => Constraint::PrivateKill,
        Constraint::SpecificExit { room_template } => Constraint::SpecificExit {
            room_template: room_template.clone(),
        },
    }
}

/// The display names of the personal-tier templates among the first `n`
/// room templates that venue `v` places.
pub open spec fn personal_names(d: &GameData, v: VenueSpec, n: nat) -> Seq<Seq<char>>
    decreases n,
{
    if n == 0 {
        Seq::empty()
    } else {
        let t = d.rooms@[n - 1];
        personal_names(d, v, (n - 1) as nat) + if views(v.room_templates@).contains(t.id@) && t.zone
            == Zone::Personal {
            seq![t.name@]
        } else {
            Seq::empty()
        }
    }
}

/// The display names of a venue's personal-tier rooms (the management
/// offices); none for an unknown venue.
pub open spec fn venue_personal_names(d: &GameData, venue: Seq<char>) -> Seq<Seq<char>> {
    match d.spec_venue(venue) {
        Some(v) => personal_names(d, v, d.rooms@.len()),
        None => Seq::empty(),
    }
}

/// A room template's display name, falling back to its id.
pub open spec fn display_name(d: &GameData, template: Seq<char>) -> Seq<char> {
    match d.spec_room_template(template) {
        Some(t) => t.name@,
        None => template,
    }
}

/// Names joined with " or ", or the fallback when there are none.
pub open spec fn joined_or(names: Seq<Seq<char>>, fallback: Seq<char>) -> Seq<char> {
    if names.len() == 0 {
        fallback
    } else {
        join(names, " or "@)
    }
}

/// The names of the personal-tier rooms among the first `n` rooms.
pub open spec fn personal_rooms(rooms: Seq<Room>, n: nat) -> Seq<Seq<char>>
    decreases n,
{
    if n == 0 {
        Seq::empty()
    } else {
        personal_rooms(rooms, (n - 1) as nat) + if rooms[n - 1].zone == Zone::Personal {
            seq![rooms[n - 1].name@]
        } else {
            Seq::empty()
        }
    }
}

/// The name of the first room from index `k` on built from `template`.
pub open spec fn exit_name_from(rooms: Seq<Room>, template: Seq<char>, k: int) -> Option<Seq<char>>
    decreases rooms.len() - k,
{
    if k < 0 || k >= rooms.len() {
        None
    } else if rooms[k].template@ == template {
        Some(rooms[k].name@)
    } else {
        exit_name_from(rooms, template, k + 1)
    }
}

/// The briefing sentence for a constraint.
pub open spec fn spec_describe(c: Constraint, d: &GameData, venue: Seq<char>, cat: &Catalogue) -> Seq<char> {
    match c {
        Constraint::NoFirearms => cat.spec_text("contract.no_firearms.long"@),
        Constraint::NoCivilianCasualties => cat.spec_text("contract.no_collateral.long"@),
        Constraint::NoBodiesFound => cat.spec_text("contract.no_bodies.long"@),
        Constraint::PrivateKill => filled(
            cat.spec_text("contract.private_kill.long"@),
            seq![
                ("rooms"@, joined_or(
                    venue_personal_names(d, venue),
                    cat.spec_text("contract.private_kill.fallback_room"@),
                )),
            ],
        ),
        Constraint::SpecificExit { room_template } => filled(
            cat.spec_text("contract.exit_via.long"@),
            seq![("room"@, display_name(d, room_template@))],
        ),
    }
}

/// The HUD chip for a constraint.
pub open spec fn spec_short(c: Constraint, d: &GameData, venue: Seq<char>, cat: &Catalogue) -> Seq<char> {
    match c {
        Constraint::NoFirearms => cat.spec_text("contract.no_firearms.short"@),
        Constraint::NoCivilianCasualties => cat.spec_text("contract.no_collateral.short"@),
        Constraint::NoBodiesFound => cat.spec_text("contract.no_bodies.short"@),
        Constraint::PrivateKill => {
            let rooms = venue_personal_names(d, venue);
            if rooms.len() == 1 {
                filled(cat.spec_text("contract.private_kill.short_named"@), seq![("room"@, rooms[0])])
            } else if rooms.len() > 1 {
                cat.spec_text("contract.private_kill.short_office"@)
            } else {
                cat.spec_text("contract.private_kill.short_private"@)
            }
        },
        Constraint::SpecificExit { room_template } => filled(
            cat.spec_text("contract.exit_via.short"@),
            seq![("room"@, display_name(d, room_template@))],
        ),
    }
}

/// The breach line, if any, when the player kills somebody at `pos`.
pub open spec fn spec_on_kill(
    c: Constraint,
    rooms: Seq<Room>,
    pos: Pos,
    victim_is_target: bool,
    victim_role: Option<Role>,
    cat: &Catalogue,
) -> Option<Seq<char>> {
    match c {
        Constraint::NoCivilianCasualties => if !victim_is_target && victim_role != Some(Role::Guard) {
            Some(cat.spec_text("contract.no_collateral.breach"@))
        } else {
            None
        },
        Constraint::PrivateKill => if !victim_is_target {
            None
        } else {
            match spec_room_index(rooms, pos) {
                Some(i) if rooms[i].zone == Zone::Personal => None,
                found => {
                    let where_ = match found {
                        Some(i) => rooms[i].name@,
                        None => cat.spec_text("contract.private_kill.open_floor"@),
                    };
                    let needed = joined_or(
                        personal_rooms(rooms, rooms.len()),
                        cat.spec_text("contract.private_kill.fallback_room"@),
                    );
                    Some(
                        filled(
                            cat.spec_text("contract.private_kill.breach"@),
                            seq![("where"@, where_), ("needed"@, needed)],
                        ),
                    )
                },
            }
        },
        _ => None,
    }
}

/// The breach line, if any, when the player extracts standing at `pos`.
pub open spec fn spec_on_exit(c: Constraint, rooms: Seq<Room>, pos: Pos, cat: &Catalogue) -> Option<Seq<char>> {
    match c {
        Constraint::SpecificExit { room_template } => match spec_room_index(rooms, pos) {
            Some(i) if rooms[i].template@ == room_template@ => None,
            _ => {
                let name = match exit_name_from(rooms, room_template@, 0) {
                    Some(n) => n,
                    None => room_template@,
                };
                Some(filled(cat.spec_text("contract.exit_via.breach"@), seq![("room"@, name)]))
            },
        },
        _ => None,
    }
}

/// Display names of a venue's personal-tier rooms, for the private-kill
/// condition text.
fn personal_room_names(data: &GameData, venue: &str) -> (r: Vec<String>)
    ensures
        views(r@) == venue_personal_names(data, venue@),
{
    let mut names: Vec<String> = Vec::new();
    let spec = match data.venue(venue) {
        None => {
            return names;
        },
        Some(v) => v,
    };
    let mut k: usize = 0;
    while k < data.rooms.len()
        invariant
            0 <= k <= data.rooms@.len(),
            views(names@) == personal_names(data, *spec, k as nat),
        decreases data.rooms@.len() - k,
    {
        let t = &data.rooms[k];
        let ghost before = views(names@);
        if holds(&spec.room_templates, t.id.as_str()) && t.zone == Zone::Personal {
            names.push(t.name.clone());
            assert(views(names@) =~= before + seq![t.name@]);
        } else {
            assert(views(names@) =~= before + Seq::<Seq<char>>::empty());
        }
        k = k + 1;
    }
    names
}

/// A room template's authored display name, falling back to its id.
fn room_display_name(data: &GameData, template: &str) -> (r: String)
    ensures
        r@ == display_name(data, template@),
{
    match data.room_template(template) {
        Some(t) => t.name.clone(),
        None => owned(template),
    }
}

/// Joins names with " or ", or the fallback phrase when the list is empty.
fn join_or(names: &Vec<String>, fallback: &str) -> (r: String)
    ensures
        r@ == joined_or(views(names@), fallback@),
{
    if names.len() == 0 {
        owned(fallback)
    } else {
        join_strings(names, " or ")
    }
}

/// The names of the personal-tier rooms of a generated venue.
fn personal_room_list(rooms: &Vec<Room>) -> (r: Vec<String>)
    ensures
        views(r@) == personal_rooms(rooms@, rooms@.len()),
{
    let mut names: Vec<String> = Vec::new();
    let mut k: usize = 0;
    while k < rooms.len()
        invariant
            0 <= k <= rooms@.len(),
            views(names@) == personal_rooms(rooms@, k as nat),
        decreases rooms@.len() - k,
    {
        let ghost before = views(names@);
        if rooms[k].zone == Zone::Personal {
            names.push(rooms[k].name.clone());
            assert(views(names@) =~= before + seq![rooms@[k as int].name@]);
        } else {
            assert(views(names@) =~= before + Seq::<Seq<char>>::empty());
        }
        k = k + 1;
    }
    names
}

/// The name of the first room built from `template`.
fn exit_room_name(rooms: &Vec<Room>, template: &str) -> (r: Option<String>)
    ensures
        match exit_name_from(rooms@, template@, 0) {
            Some(n) => r matches Some(s) && s@ == n,
            None => r is None,
        },
{
    let mut k: usize = 0;
    while k < rooms.len()
        invariant
            0 <= k <= rooms@.len(),
            exit_name_from(rooms@, template@, 0) == exit_name_from(rooms@, template@, k as int),
        decreases rooms@.len() - k,
    {
        if crate::text::str_eq(rooms[k].template.as_str(), template) {
            return Some(rooms[k].name.clone());
        }
        k = k + 1;
    }
    None
}

impl Constraint {
    /// The briefing sentence. Naming rooms concretely (the private offices
    /// a kill must land in, the exact exit to leave by) so the player is
    /// never guessing which rooms the rule means.
    pub fn describe(&self, data: &GameData, venue: &str, catalogue: &Catalogue) -> (r: String)
        ensures
            r@ == spec_describe(*self, data, venue@, catalogue),
    {
        match self {
            Constraint::NoFirearms => catalogue.text("contract.no_firearms.long"),
            Constraint::NoCivilianCasualties => catalogue.text("contract.no_collateral.long"),
            Constraint::NoBodiesFound => catalogue.text("contract.no_bodies.long"),
            Constraint::PrivateKill => {
                let rooms = personal_room_names(data, venue);
                let fallback = catalogue.text("contract.private_kill.fallback_room");
                let where_ = join_or(&rooms, fallback.as_str());
                catalogue.fmt_one("contract.private_kill.long", "rooms", where_.as_str())
            },
            Constraint::SpecificExit { room_template } => {
                let name = room_display_name(data, room_template.as_str());
                catalogue.fmt_one("contract.exit_via.long", "room", name.as_str())
            },
        }
    }

    /// The HUD chip: short and space-limited.
    pub fn short(&self, data: &GameData, venue: &str, catalogue: &Catalogue) -> (r: String)
        ensures
            r@ == spec_short(*self, data, venue@, catalogue),
    {
        match self {
            Constraint::NoFirearms => catalogue.text("contract.no_firearms.short"),
            Constraint::NoCivilianCasualties => catalogue.text("contract.no_collateral.short"),
            Constraint::NoBodiesFound => catalogue.text("contract.no_bodies.short"),
            Constraint::PrivateKill => {
                let rooms = personal_room_names(data, venue);
                if rooms.len() == 1 {
                    catalogue.fmt_one("contract.private_kill.short_named", "room", rooms[0].as_str())
                } else if rooms.len() > 1 {
                    catalogue.text("contract.private_kill.short_office")
                } else {
                    catalogue.text("contract.private_kill.short_private")
                }
            },
            Constraint::SpecificExit { room_template } => {
                let name = room_display_name(data, room_template.as_str());
                catalogue.fmt_one("contract.exit_via.short", "room", name.as_str())
            },
        }
    }

    /// Breach check when the player kills somebody at `pos`.
    pub fn on_kill(
        &self,
        world: &World,
        pos: Pos,
        victim_is_target: bool,
        victim_role: Option<Role>,
        catalogue: &Catalogue,
    ) -> (r: Option<String>)
        ensures
            match spec_on_kill(*self, world.rooms@, pos, victim_is_target, victim_role, catalogue) {
                Some(t) => r matches Some(s) && s@ == t,
                None => r is None,
            },
    {
        match self {
            Constraint::NoCivilianCasualties => {
                if !victim_is_target && victim_role != Some(Role::Guard) {
                    Some(catalogue.text("contract.no_collateral.breach"))
                } else {
                    None
                }
            },
            Constraint::PrivateKill => {
                if !victim_is_target {
                    return None;
                }
                let room = world.room_at(pos);
                let where_ = match room {
                    Some(r) => {
                        if r.zone == Zone::Personal {
                            return None;
                        }
                        r.name.clone()
                    },
                    None => catalogue.text("contract.private_kill.open_floor"),
                };
                let offices = personal_room_list(&world.rooms);
                let fallback = catalogue.text("contract.private_kill.fallback_room");
                let needed = join_or(&offices, fallback.as_str());
                Some(
                    catalogue.fmt_two(
                        "contract.private_kill.breach",
                        "where",
                        where_.as_str(),
                        "needed",
                        needed.as_str(),
                    ),
                )
            },
            _ => None,
        }
    }

    /// Breach check when the player extracts standing at `pos`.
    pub fn on_exit(&self, world: &World, pos: Pos, catalogue: &Catalogue) -> (r: Option<String>)
        ensures
            match spec_on_exit(*self, world.rooms@, pos, catalogue) {
                Some(t) => r matches Some(s) && s@ == t,
                None => r is None,
            },
    {
        match self {
            Constraint::SpecificExit { room_template } => {
                match world.room_at(pos) {
                    Some(r) => {
                        if crate::text::str_eq(r.template.as_str(), room_template.as_str()) {
                            return None;
                        }
                    },
                    None => {},
                }
                let name = match exit_room_name(&world.rooms, room_template.as_str()) {
                    Some(n) => n,
                    None => room_template.clone(),
                };
                Some(catalogue.fmt_one("contract.exit_via.breach", "room", name.as_str()))
            },
            _ => None,
        }
    }

    /// Breach check when the player fires a shot.
    pub fn on_shot(&self, catalogue: &Catalogue) -> (r: Option<String>)
        ensures
            match self {
                Constraint::NoFirearms => r matches Some(t) && t@ == catalogue.spec_text(
                    "contract.no_firearms.breach"@,
                ),
                _ => r.is_none(),
            },
    {
        match self {
            Constraint::NoFirearms => Some(catalogue.text("contract.no_firearms.breach")),
            _ => None,
        }
    }

    /// Breach check when somebody first discovers a body of the player's
    /// making.
    pub fn on_body_found(&self, catalogue: &Catalogue) -> (r: Option<String>)
        ensures
            match self {
                Constraint::NoBodiesFound => r matches Some(t) && t@ == catalogue.spec_text(
                    "perception.body_found"@,
                ),
                _ => r.is_none(),
            },
    {
        match self {
            Constraint::NoBodiesFound => Some(catalogue.text("perception.body_found")),
            _ => None,
        }
    }
}

/// The most equipment a mission loadout may carry.
pub const LOADOUT_SLOTS: usize = 3;

/// Everything the generator needs to build one mission.
#[derive(Clone, Debug, PartialEq, Eq)]
pub struct MissionConfig {
    pub seed: u64,
    pub venue: VenueId,
    /// The contract's mandatory constraint, if this mission runs under
    /// contract.
    pub constraint: Option<Constraint>,
    /// Equipment (item spec ids, at most [`LOADOUT_SLOTS`]) the player
    /// carries in. The default is the standard briefing kit.
    pub loadout: Vec<ItemSpecId>,
    /// Persistent district heat at contract time.
    pub heat: u8,
}

impl MissionConfig {
    pub fn new(seed: u64, venue: &str) -> (r: Self)
        ensures
            r.seed == seed,
            r.venue@ == venue@,
            r.constraint.is_none(),
            views(r.loadout@) == seq!["garrote"@, "silenced-pistol"@],
            r.heat == 0,
    {
        let mut loadout: Vec<String> = Vec::new();
        loadout.push(owned("garrote"));
        loadout.push(owned("silenced-pistol"));
        let r = Self { seed, venue: owned(venue), constraint: None, loadout, heat: 0 };
        assert(views(r.loadout@) =~= seq!["garrote"@, "silenced-pistol"@]);
        r
    }

    pub fn with_heat(self, heat: u8) -> (r: Self)
        ensures
            r == (MissionConfig { heat, ..self }),
    {
        let mut s = self;
        s.heat = heat;
        s
    }

    pub fn with_constraint(self, constraint: Constraint) -> (r: Self)
        ensures
            r == (MissionConfig { constraint: Some(constraint), ..self }),
    {
        let mut s = self;
        s.constraint = Some(constraint);
        s
    }

    pub fn with_loadout(self, loadout: Vec<ItemSpecId>) -> (r: Self)
        ensures
            r == (MissionConfig { loadout, ..self }),
    {
        let mut s = self;
        s.loadout = loadout;
        s
    }
}

/// Under the no-casualties condition every death but the target's and a
/// guard's breaks the contract, staff and bystanders alike; killing the
/// target or a guard never does.
pub proof fn law_any_innocent_death_breaks_no_casualties(
    rooms: Seq<Room>,
    pos: Pos,
    victim_is_target: bool,
    victim_role: Option<Role>,
    cat: &Catalogue,
)
    ensures
        !victim_is_target && victim_role != Some(Role::Guard) ==> spec_on_kill(
            Constraint::NoCivilianCasualties,
            rooms,
            pos,
            victim_is_target,
            victim_role,
            cat,
        ) == Some(cat.spec_text("contract.no_collateral.breach"@)),
        !victim_is_target && (victim_role matches Some(r) && r.spec_is_staff()) ==> spec_on_kill(
            Constraint::NoCivilianCasualties,
            rooms,
            pos,
            victim_is_target,
            victim_role,
            cat,
        ) is Some,
        victim_is_target || victim_role == Some(Role::Guard) ==> spec_on_kill(
            Constraint::NoCivilianCasualties,
            rooms,
            pos,
            victim_is_target,
            victim_role,
            cat,
        ) is None,
{
}

/// Whether `pos` lies in a room of the personal tier.
pub open spec fn in_personal_room(rooms: Seq<Room>, pos: Pos) -> bool {
    match spec_room_index(rooms, pos) {
        Some(i) => rooms[i].zone == Zone::Personal,
        None => false,
    }
}

/// Whether `pos` lies in a room built from `template`.
pub open spec fn in_room_of(rooms: Seq<Room>, pos: Pos, template: Seq<char>) -> bool {
    match spec_room_index(rooms, pos) {
        Some(i) => rooms[i].template@ == template,
        None => false,
    }
}

/// A private kill breaks exactly when the target dies outside personal
/// space; other deaths never break it. Only the no-casualties and
/// private-kill conditions can break on a kill.
pub proof fn law_private_kill_needs_personal_space(
    c: Constraint,
    rooms: Seq<Room>,
    pos: Pos,
    victim_is_target: bool,
    victim_role: Option<Role>,
    cat: &Catalogue,
)
    ensures
        c == Constraint::PrivateKill ==> (spec_on_kill(c, rooms, pos, victim_is_target, victim_role, cat) is Some
            <==> victim_is_target && !in_personal_room(rooms, pos)),
        c != Constraint::PrivateKill && c != Constraint::NoCivilianCasualties ==> spec_on_kill(
            c,
            rooms,
            pos,
            victim_is_target,
            victim_role,
            cat,
        ) is None,
{
}

/// A specific-exit contract breaks on extraction exactly when the player
/// leaves from anywhere but a room built from the named template; no
/// other condition breaks on extraction.
pub proof fn law_exit_breaks_only_away_from_the_named_room(c: Constraint, rooms: Seq<Room>, pos: Pos, cat: &Catalogue)
    ensures
        c matches Constraint::SpecificExit { room_template } ==> (spec_on_exit(c, rooms, pos, cat) is None
            <==> in_room_of(rooms, pos, room_template@)),
        !(c is SpecificExit) ==> spec_on_exit(c, rooms, pos, cat) is None,
{
}

} // verus!
