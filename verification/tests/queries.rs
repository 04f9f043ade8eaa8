use murmur::data::{
    ActionDurations, Approach, BriefingData, CampaignData, DisguiseSpec, DistrictPattern,
    EquipmentSpec, GameData, ItemSpec, Lighting, NamePools, OpportunityApproach,
    OpportunityEffect, OpportunitySpec, PopulationData, Role, RoleSpec, RoomTemplate, TargetSpec,
    Tuning, VenueSpec, WaypointKind, WaypointSlot, Zone, ZoneLabels,
};
use murmur::geom::{Dir4, Pos};
use murmur::map::{DoorId, DoorState, GameMap, TileKind};
use murmur::facts::{build_facts, Population};
use murmur::path::{graph_size, path_node, path_steps, PathStep};
use murmur::reachability::{item_spec_ids, progression_closure};
use murmur::grammar::{check_graph, pass_doors, FloorPlan, RoomNode, Shelf, VenueGraph};
use murmur::layout::{waypoints_of_kinds, Layout};
use murmur::schedule::{beat_counts, build_schedule, private_stops, ScheduleDraws, ScheduleError};
use murmur::world::{BeatTrigger, Incident, IncidentKind, Protection, RoutineStep, Waypoint};
use murmur::world::{
    Actor, ActorId, AiState, BodyCondition, Furniture, FurnitureId, FurnitureKind, Hands, ItemId,
    ItemInstance, ItemLocation, MissionFacts, Mood, ProofReport, Rect, Room, RoomId, World,
};

// ---------------------------------------------------------------------
// A small authored data set, standing in for the embedded RON files.
// ---------------------------------------------------------------------

fn s(text: &str) -> String {
    text.to_string()
}

fn strings(list: &[&str]) -> Vec<String> {
    list.iter().map(|t| t.to_string()).collect()
}

fn durations() -> ActionDurations {
    ActionDurations {
        step: 1,
        carry_step: 2,
        garrote: 3,
        shoot: 1,
        change_disguise: 3,
        carry_body: 2,
        drop_body: 1,
        hide_body: 3,
        pickpocket: 2,
        door: 1,
        draw_holster: 1,
        pick_lock: 5,
        throw: 1,
    }
}

fn tuning() -> Tuning {
    Tuning {
        queue_capacity: 32,
        batch_turns: 8,
        pistol_rounds: 6,
        pistol_range: 8,
        gunshot_sound_radius: 12,
        player_max_hp: 3,
        guard_attack_damage: 1,
        vision_range: 8,
        vision_range_dim: 4,
        cone_num: 3,
        cone_den: 2,
        suspicion_max: 100,
        suspicion_suspicious_at: 30,
        suspicion_investigate_at: 60,
        gain_illegal_zone: 20,
        gain_crouching: 10,
        gain_disguise_recognised: 25,
        suspicion_decay: 5,
        relaxed_cadence: 3,
        investigate_linger: 4,
        noisemaker_range: 6,
        noise_radius: 8,
        gain_tampering: 15,
        heat_gunshot: 3,
        heat_violence: 2,
        heat_body_found: 2,
        heat_tier1: 3,
        heat_tier2: 6,
        heat_reinforcements: 2,
        heat_extra_guard_cap: 3,
        player_vision_range: 10,
        durations: durations(),
    }
}

fn disguise(id: &str, zones: &[Zone], extra: &[&str], invitation: bool) -> DisguiseSpec {
    DisguiseSpec {
        id: s(id),
        name: String::new(),
        zones: zones.to_vec(),
        extra_rooms: strings(extra),
        secure_with_invitation: invitation,
        suspicious_observers: vec![],
        drawn_weapon_legal: false,
    }
}

fn item(id: &str) -> ItemSpec {
    ItemSpec {
        id: s(id),
        name: String::new(),
        glyph: '*',
        unlocks: None,
        invitation: false,
        weapon: false,
        firearm: false,
        purchasable: false,
        lockpick: false,
        noisemaker: false,
        staff_pass: false,
        master_key: false,
        charges: 0,
        pickpocketable: false,
        carried_by: None,
        placed_in: None,
    }
}

fn room(id: &str, zone: Zone, required: bool, exit: bool) -> RoomTemplate {
    RoomTemplate {
        id: s(id),
        name: String::new(),
        zone,
        floors: vec![0],
        count_min: 1,
        count_max: 1,
        required,
        min_size: (3, 3),
        max_size: (6, 6),
        lighting: Lighting::Bright,
        waypoints: vec![WaypointSlot { kind: WaypointKind::Idle, count: 1 }],
        containers_min: 0,
        containers_max: 1,
        low_cover_min: 0,
        low_cover_max: 1,
        wardrobe_allowed: true,
        external_exit: exit,
        locked_by: None,
        service_access: false,
        circulation: false,
    }
}

fn opportunity(id: &str, approach: OpportunityApproach, effect: OpportunityEffect) -> OpportunitySpec {
    OpportunitySpec {
        id: s(id),
        name: String::new(),
        glyph: '&',
        approach,
        effect,
        zones: vec![Zone::Staff],
        interact_turns: 2,
        risk: String::new(),
        presentation: String::new(),
    }
}

fn data() -> GameData {
    let mut pistol = item("silenced-pistol");
    pistol.weapon = true;
    pistol.firearm = true;
    pistol.purchasable = true;
    pistol.charges = 6;
    let mut garrote = item("garrote");
    garrote.weapon = true;
    garrote.purchasable = true;
    let mut lockpicks = item("lockpicks");
    lockpicks.purchasable = true;
    lockpicks.lockpick = true;
    let mut noisemaker = item("noisemaker");
    noisemaker.purchasable = true;
    noisemaker.noisemaker = true;
    noisemaker.charges = 3;
    let mut pass = item("forged-pass");
    pass.purchasable = true;
    pass.staff_pass = true;
    let mut counterfeit = item("counterfeit-invitation");
    counterfeit.purchasable = true;
    counterfeit.invitation = true;
    let mut invitation = item("vip-invitation");
    invitation.invitation = true;
    invitation.pickpocketable = true;
    let mut office_key = item("office-key");
    office_key.unlocks = Some(s("office"));
    office_key.pickpocketable = true;
    let mut office = room("office", Zone::Personal, true, false);
    office.locked_by = Some(s("office-key"));
    let entrance = room("entrance", Zone::Public, true, true);
    let mut loading = room("loading-bay", Zone::Staff, false, true);
    loading.floors = vec![0];
    let vip = room("vip-lounge", Zone::Secure, false, false);
    let mut corridor = room("service-corridor", Zone::Staff, false, true);
    corridor.circulation = true;
    GameData {
        tuning: tuning(),
        venues: vec![VenueSpec {
            id: s("nightclub"),
            name: String::new(),
            zone_labels: ZoneLabels::default(),
            invitation_label: String::new(),
            floor_width: 40,
            floor_height: 24,
            floor_count: 2,
            room_templates: strings(&["entrance", "loading-bay", "vip-lounge", "office", "service-corridor"]),
            role_counts: vec![],
            districts: DistrictPattern {
                zone: Zone::Public,
                rooms: strings(&["entrance"]),
                count_min: 1,
                count_max: 1,
                own_storey: false,
                locked_by: None,
                children: vec![],
            },
        }],
        disguises: vec![
            disguise("civilian", &[Zone::Public], &[], true),
            disguise("staff", &[Zone::Public, Zone::Staff], &["vip-lounge"], false),
            disguise("guard", &[Zone::Public, Zone::Secure, Zone::Staff, Zone::Personal], &[], false),
            disguise("manager", &[Zone::Public, Zone::Secure, Zone::Staff, Zone::Personal], &[], false),
        ],
        items: vec![pistol, garrote, lockpicks, noisemaker, pass, counterfeit, invitation, office_key],
        equipment: vec![
            EquipmentSpec { item: s("lockpicks"), approach: Approach::Physical, price: 300 },
            EquipmentSpec { item: s("noisemaker"), approach: Approach::Physical, price: 150 },
            EquipmentSpec { item: s("forged-pass"), approach: Approach::Social, price: 400 },
            EquipmentSpec { item: s("counterfeit-invitation"), approach: Approach::Social, price: 350 },
            EquipmentSpec { item: s("silenced-pistol"), approach: Approach::Violence, price: 600 },
            EquipmentSpec { item: s("garrote"), approach: Approach::Violence, price: 100 },
        ],
        opportunities: vec![
            opportunity("fuse-box", OpportunityApproach::Physical, OpportunityEffect::CutLights),
            opportunity("linen-cart", OpportunityApproach::Social, OpportunityEffect::StockWardrobe { disguise: s("staff") }),
            opportunity("rigging", OpportunityApproach::Violence, OpportunityEffect::AccidentDrop),
            opportunity("key-cache", OpportunityApproach::Universal, OpportunityEffect::PlaceKey { item: s("office-key") }),
            opportunity("fire-alarm", OpportunityApproach::Universal, OpportunityEffect::Evacuate),
        ],
        rooms: vec![entrance, loading, vip, office, corridor],
        population: PopulationData {
            roles: vec![
                RoleSpec {
                    role: Role::Civilian,
                    glyph: 'c',
                    count_min: 4,
                    count_max: 8,
                    waypoint_kinds: vec![WaypointKind::Social],
                    wait_min: 2,
                    wait_max: 6,
                    disguise: Some(s("civilian")),
                    armed: false,
                },
                RoleSpec {
                    role: Role::Guard,
                    glyph: 'G',
                    count_min: 2,
                    count_max: 3,
                    waypoint_kinds: vec![WaypointKind::Patrol],
                    wait_min: 1,
                    wait_max: 3,
                    disguise: Some(s("guard")),
                    armed: true,
                },
            ],
            vip_civilians_min: 1,
            vip_civilians_max: 2,
            target: TargetSpec {
                glyph: 'T',
                schedule_min: 3,
                schedule_max: 5,
                disguise: Some(s("manager")),
            },
            cycle_turns_min: 120,
            cycle_turns_max: 160,
            private_beats_min: 1,
            private_beats_max: 2,
        },
        names: NamePools {
            first: strings(&["Ada", "Bo"]),
            last: strings(&["Marsh", "Vale"]),
        },
        briefing: BriefingData {
            reasons: strings(&["skimming protection payments", "talking to the wrong people"]),
        },
        campaign: CampaignData {
            districts: strings(&["Docklands", "Old Town", "Riverside"]),
            starting_cash: 500,
            starting_equipment: strings(&["garrote"]),
            arrest_fine: 250,
            payout_base: 1000,
            payout_per_heat: 150,
            payout_constraint_bonus: 200,
            hot_mission_threshold: 4,
            district_heat_max: 5,
            offers_per_batch: 3,
        },
    }
}

// ---------------------------------------------------------------------
// A small hand-built venue: an entrance hall, a VIP lounge behind an
// open door, and an office behind a door locked by the office key.
//
//   x: 0         6       10        15
//      ###########################
//      #.....|...|....#          hall x1..5, lounge x7..9, office x11..14
//      #.....+...+....#          doors at (6,3) and (10,3)
//      ###########################
// ---------------------------------------------------------------------

fn floor_pos(x: i16, y: i16) -> Pos {
    Pos::new(0, x, y)
}

fn venue_map() -> GameMap {
    let mut map = GameMap::filled_void(16, 8, 1);
    for y in 0..8 {
        for x in 0..16 {
            let edge = x == 0 || x == 15 || y == 0 || y == 7;
            let tile = if edge || x == 6 || x == 10 { TileKind::Wall } else { TileKind::Floor };
            map.set_tile(floor_pos(x, y), tile);
        }
    }
    map.set_tile(floor_pos(6, 3), TileKind::Door(DoorId(0)));
    map.set_tile(floor_pos(10, 3), TileKind::Door(DoorId(1)));
    map
}

fn venue_room(id: u16, template: &str, zone: Zone, x: i16, w: i16, doors: Vec<DoorId>) -> Room {
    Room {
        id: RoomId(id),
        template: template.to_string(),
        name: format!("the {template}"),
        zone,
        floor: 0,
        bounds: Rect { x, y: 1, w, h: 6 },
        lighting: Lighting::Bright,
        waypoints: vec![],
        doors,
        external_exit: template == "entrance",
    }
}

fn person(id: u32, role: Option<Role>, x: i16, y: i16, disguise: &str) -> Actor {
    Actor {
        id: ActorId(id),
        name: format!("person {id}"),
        role,
        pos: floor_pos(x, y),
        facing: role.map(|_| Dir4::East),
        condition: BodyCondition::Healthy,
        hp: 3,
        worn_disguise: disguise.to_string(),
        hands: Hands::Free,
        crouched: false,
        is_target: false,
        is_vip: false,
        ai: role.map(|_| AiState {
            routine: vec![],
            routine_index: 0,
            wait_remaining: 0,
            mood: Mood::Relaxed,
            suspicion: 0,
            focus: None,
            knows_player_hostile: false,
        }),
        hidden_in: None,
        departed: false,
        killed_by_player: false,
    }
}

fn instance(id: u32, spec: &str, location: ItemLocation, charges: u16) -> ItemInstance {
    ItemInstance { id: ItemId(id), spec: spec.to_string(), location, charges }
}

fn piece(id: u32, kind: FurnitureKind, x: i16, y: i16) -> Furniture {
    Furniture {
        id: FurnitureId(id),
        kind,
        pos: floor_pos(x, y),
        body: None,
        disguise: None,
        machine: None,
        used: false,
        drop_tile: None,
    }
}

/// The player (0) in the hall with a garrote and a holstered pistol; a
/// guard (1) beside the player; a civilian (2); the target (3) in the
/// office; a VIP invitation lying in the hall.
fn world() -> World {
    let mut wardrobe = piece(0, FurnitureKind::Wardrobe, 1, 1);
    wardrobe.disguise = Some("staff".to_string());
    let mut fuse_box = piece(2, FurnitureKind::Machine, 1, 6);
    fuse_box.machine = Some("fuse-box".to_string());
    let mut target = person(3, Some(Role::Manager), 12, 3, "manager");
    target.is_target = true;
    target.facing = Some(Dir4::North);
    World {
        seed: 11,
        turn: 0,
        map: venue_map(),
        doors: vec![
            DoorState { open: true, locked_by: None },
            DoorState { open: false, locked_by: Some("office-key".to_string()) },
        ],
        rooms: vec![
            venue_room(0, "entrance", Zone::Public, 1, 5, vec![DoorId(0)]),
            venue_room(1, "vip-lounge", Zone::Secure, 7, 3, vec![DoorId(0), DoorId(1)]),
            venue_room(2, "office", Zone::Personal, 11, 4, vec![DoorId(1)]),
        ],
        furniture: vec![wardrobe, piece(1, FurnitureKind::Container, 5, 6), fuse_box],
        items: vec![
            instance(0, "garrote", ItemLocation::CarriedBy(ActorId(0)), 0),
            instance(1, "silenced-pistol", ItemLocation::CarriedBy(ActorId(0)), 6),
            instance(2, "office-key", ItemLocation::CarriedBy(ActorId(1)), 0),
            instance(3, "vip-invitation", ItemLocation::Ground(floor_pos(3, 5)), 0),
        ],
        actors: vec![
            person(0, None, 2, 3, "civilian"),
            person(1, Some(Role::Guard), 3, 3, "guard"),
            person(2, Some(Role::Civilian), 2, 4, "civilian"),
            target,
        ],
        player: ActorId(0),
        target: ActorId(3),
        extraction_tiles: vec![floor_pos(1, 3)],
        incidents: vec![],
        player_violence_witnessed: false,
        facts: MissionFacts {
            target_name: "person 3".to_string(),
            target_reason: "talking to the wrong people".to_string(),
            target_locations: vec![],
            guard_count: 1,
            staff_count: 0,
            civilian_count: 1,
            available_disguises: vec![],
            restricted_rooms: vec![],
            container_count: 1,
            extraction_exits: vec![],
        },
        proof: ProofReport::default(),
        constraint: None,
        constraint_breach: None,
        outcome: None,
    }
}


// ---------------------------------------------------------------------
// World queries.
// ---------------------------------------------------------------------
#[test]
fn zones_sit_at_their_depth_and_staff_roles_are_staff() {
    assert_eq!(Zone::Public.depth(), 0);
    assert_eq!(Zone::Secure.depth(), 1);
    assert_eq!(Zone::Staff.depth(), 1);
    assert_eq!(Zone::Personal.depth(), 2);
    assert!(Role::Bartender.is_staff());
    assert!(Role::Manager.is_staff());
    assert!(!Role::Guard.is_staff());
    assert!(!Role::Civilian.is_staff());
}

#[test]
fn the_first_role_spec_of_a_role_is_found() {
    let data = data();
    let civilian = data.role_spec(Role::Civilian).expect("civilians are authored");
    assert_eq!(civilian.role, Role::Civilian);
    assert_eq!(civilian.glyph, 'c');
}

#[test]
fn a_rect_centres_on_its_middle_tile() {
    let bounds = Rect { x: 11, y: 1, w: 4, h: 6 };
    assert_eq!(bounds.center(), (13, 4));
    assert!(bounds.contains(14, 6));
    assert!(!bounds.contains(15, 6));
}

#[test]
fn only_relaxed_npcs_keep_the_cadence() {
    assert!(!Mood::Relaxed.acts_every_turn());
    assert!(Mood::Suspicious.acts_every_turn());
    assert!(Mood::Fleeing.acts_every_turn());
}

#[test]
fn rooms_carry_their_zone_and_corridors_are_public() {
    let world = world();
    assert_eq!(world.zone_at(floor_pos(12, 3)), Zone::Personal);
    assert_eq!(world.zone_at(floor_pos(8, 2)), Zone::Secure);
    assert_eq!(world.zone_at(floor_pos(6, 3)), Zone::Public);
}

#[test]
fn walls_and_furniture_block_moves_but_doors_do_not() {
    let world = world();
    assert!(world.blocks_move(floor_pos(0, 3)));
    assert!(world.blocks_move(floor_pos(5, 6)));
    assert!(!world.blocks_move(floor_pos(10, 3)));
    assert!(!world.blocks_move(floor_pos(2, 2)));
}

#[test]
fn items_on_a_tile_are_listed_in_item_order() {
    let world = world();
    assert_eq!(world.items_at(floor_pos(3, 5)), vec![ItemId(3)]);
    assert!(world.items_at(floor_pos(2, 3)).is_empty());
    assert_eq!(world.carried_items(ActorId(0)), vec![ItemId(0), ItemId(1)]);
}

#[test]
fn waypoints_are_gathered_room_by_room() {
    let mut world = world();
    world.rooms[0].waypoints = vec![
        Waypoint { kind: WaypointKind::Social, pos: floor_pos(2, 2) },
        Waypoint { kind: WaypointKind::Patrol, pos: floor_pos(3, 2) },
    ];
    world.rooms[2].waypoints = vec![Waypoint { kind: WaypointKind::Social, pos: floor_pos(12, 2) }];
    let found = waypoints_of_kinds(&world.rooms, &[WaypointKind::Social]);
    assert_eq!(
        found,
        vec![
            Waypoint { kind: WaypointKind::Social, pos: floor_pos(2, 2) },
            Waypoint { kind: WaypointKind::Social, pos: floor_pos(12, 2) },
        ]
    );
}

// ---------------------------------------------------------------------
// Briefing facts and the target's schedule, derived from the venue.
// ---------------------------------------------------------------------

fn layout_of(world: &World) -> Layout {
    Layout {
        map: world.map.clone(),
        doors: world.doors.clone(),
        rooms: world.rooms.clone(),
        furniture: world.furniture.clone(),
        extraction_tiles: world.extraction_tiles.clone(),
    }
}

fn population_of(world: &World) -> Population {
    Population {
        actors: world.actors.clone(),
        items: world.items.clone(),
        player: world.player,
        target: world.target,
    }
}

#[test]
fn briefing_facts_are_read_off_the_venue() {
    let mut data = data();
    for d in data.disguises.iter_mut() {
        d.name = format!("{} outfit", d.id);
    }
    let mut world = world();
    let routine = [(12, 3), (8, 3), (12, 4), (3, 3)];
    world.actors[3].ai.as_mut().unwrap().routine =
        routine.iter().map(|&(x, y)| RoutineStep { pos: floor_pos(x, y), wait: 2 }).collect();
    let facts = build_facts(&data, &layout_of(&world), &population_of(&world), 1);
    assert_eq!(facts.target_name, "person 3");
    assert_eq!(facts.target_reason, "talking to the wrong people");
    assert_eq!(facts.target_locations, strings(&["the office", "the vip-lounge", "the entrance"]));
    assert_eq!(facts.guard_count, 1);
    assert_eq!(facts.staff_count, 1);
    assert_eq!(facts.civilian_count, 1);
    assert_eq!(
        facts.available_disguises,
        strings(&["guard outfit", "civilian outfit", "manager outfit", "staff outfit"])
    );
    assert_eq!(facts.restricted_rooms, strings(&["the vip-lounge", "the office"]));
    assert_eq!(facts.container_count, 1);
    assert_eq!(facts.extraction_exits, strings(&["the entrance"]));
}

#[test]
fn an_unknown_disguise_is_named_by_its_id() {
    let data = data();
    let mut world = world();
    world.actors[2].worn_disguise = "clown".to_string();
    world.furniture[0].disguise = None;
    let facts = build_facts(&data, &layout_of(&world), &population_of(&world), 0);
    assert_eq!(facts.available_disguises, strings(&["", "clown"]));
    assert!(facts.target_locations.is_empty());
    assert_eq!(facts.target_reason, "skimming protection payments");
}

fn schedule_world() -> World {
    let mut world = world();
    let wp = |x: i16, y: i16| Waypoint { kind: WaypointKind::Idle, pos: floor_pos(x, y) };
    world.rooms[1].waypoints = vec![wp(8, 2)];
    world.rooms[2].waypoints = vec![wp(12, 2), wp(13, 5)];
    world
}

#[test]
fn alone_stops_prefer_personal_rooms_for_a_private_kill() {
    let layout = layout_of(&schedule_world());
    assert_eq!(private_stops(&layout, false), vec![floor_pos(8, 2), floor_pos(12, 2), floor_pos(13, 5)]);
    assert_eq!(private_stops(&layout, true), vec![floor_pos(12, 2), floor_pos(13, 5)]);
    let mut world = schedule_world();
    world.rooms[2].waypoints.clear();
    assert_eq!(private_stops(&layout_of(&world), true), vec![floor_pos(8, 2)]);
}

#[test]
fn drawn_counts_keep_one_alone_and_one_escorted_beat() {
    assert_eq!(beat_counts(0, 0), (1, 2));
    assert_eq!(beat_counts(2, 3), (2, 4));
    assert_eq!(beat_counts(3, 2), (3, 6));
    assert_eq!(beat_counts(1, 5), (1, 5));
    assert_eq!(beat_counts(2, 5), (2, 5));
}

#[test]
fn the_schedule_folds_alone_beats_in_and_fits_the_dwells() {
    let layout = layout_of(&schedule_world());
    let public = [floor_pos(2, 2), floor_pos(4, 4)];
    let draws = ScheduleDraws { alone: 1, total: 3, public: vec![0, 1], private: vec![1], cycle: 100 };
    let schedule = build_schedule(&layout, &public, false, &draws).unwrap();
    let positions: Vec<Pos> = schedule.beats.iter().map(|b| b.pos).collect();
    assert_eq!(positions, vec![floor_pos(2, 2), floor_pos(4, 4), floor_pos(12, 2)]);
    let dwells: Vec<u16> = schedule.beats.iter().map(|b| b.dwell).collect();
    assert_eq!(dwells, vec![26, 25, 25]);
    assert_eq!(schedule.beats[2].protection, Protection::Alone);
    assert!(schedule.beats[2].no_follow);
    assert_eq!(schedule.beats[2].tag, "private-0");
    assert_eq!(schedule.beats[0].protection, Protection::Escorted);
    assert!(!schedule.beats[0].no_follow);
    assert_eq!(schedule.beats[0].tag, "");
    assert!(schedule.beats.iter().all(|b| b.trigger == BeatTrigger::Sequential));
    assert_eq!(schedule.index, 0);
    assert_eq!(schedule.dwell_remaining, 26);
    assert_eq!(schedule.resume_index, None);
}

#[test]
fn a_short_cycle_still_gives_every_beat_a_turn() {
    let layout = layout_of(&schedule_world());
    let public = [floor_pos(2, 2)];
    let draws = ScheduleDraws { alone: 2, total: 3, public: vec![0, 0], private: vec![0, 2], cycle: 5 };
    let schedule = build_schedule(&layout, &public, false, &draws).unwrap();
    let positions: Vec<Pos> = schedule.beats.iter().map(|b| b.pos).collect();
    assert_eq!(positions, vec![floor_pos(2, 2), floor_pos(8, 2), floor_pos(2, 2), floor_pos(13, 5)]);
    let tags: Vec<&str> = schedule.beats.iter().map(|b| b.tag.as_str()).collect();
    assert_eq!(tags, vec!["", "private-0", "", "private-1"]);
    assert!(schedule.beats.iter().all(|b| b.dwell == 1));
}

#[test]
fn the_target_is_never_alone_twice_running() {
    let layout = layout_of(&schedule_world());
    let public = [floor_pos(2, 2), floor_pos(4, 4), floor_pos(3, 5)];
    let draws = ScheduleDraws { alone: 2, total: 5, public: vec![0, 1, 2], private: vec![1, 0], cycle: 90 };
    let schedule = build_schedule(&layout, &public, false, &draws).unwrap();
    let kinds: Vec<Protection> = schedule.beats.iter().map(|b| b.protection).collect();
    let (alone, escorted) = (Protection::Alone, Protection::Escorted);
    assert_eq!(kinds, vec![escorted, alone, escorted, alone, escorted]);
    let n = kinds.len();
    for j in 0..n {
        assert!(!(kinds[j] == alone && kinds[(j + 1) % n] == alone));
    }
}

#[test]
fn a_schedule_needs_somewhere_private_and_somewhere_public() {
    let draws = ScheduleDraws { alone: 1, total: 2, public: vec![0], private: vec![0], cycle: 50 };
    let bare = layout_of(&world());
    assert_eq!(
        build_schedule(&bare, &[floor_pos(2, 2)], false, &draws).unwrap_err(),
        ScheduleError("no private-tier waypoint for the target to be alone at".to_string())
    );
    let layout = layout_of(&schedule_world());
    assert_eq!(
        build_schedule(&layout, &[], false, &draws).unwrap_err(),
        ScheduleError("the target has nowhere public to be".to_string())
    );
}

// ---------------------------------------------------------------------
// The venue graph, before geometry.
// ---------------------------------------------------------------------

fn node(template_index: usize, band: Zone, shelf: Shelf) -> RoomNode {
    RoomNode {
        template_index,
        name: format!("room {template_index}"),
        floor: 0,
        width: 4,
        height: 4,
        band,
        shelf,
        service_door: false,
    }
}

fn plan(floor: u8, service: Vec<RoomNode>, main: Vec<RoomNode>) -> FloorPlan {
    let service_pass = pass_doors(&service);
    let main_pass = pass_doors(&main);
    FloorPlan { floor, service_shelf: service, main_shelf: main, service_pass, main_pass }
}

fn ground() -> FloorPlan {
    plan(
        0,
        vec![node(1, Zone::Staff, Shelf::Service)],
        vec![
            node(0, Zone::Public, Shelf::Main),
            node(2, Zone::Secure, Shelf::Main),
            node(3, Zone::Personal, Shelf::Main),
        ],
    )
}

#[test]
fn pass_doors_join_restricted_neighbours_only() {
    let shelf = vec![
        node(0, Zone::Public, Shelf::Main),
        node(1, Zone::Staff, Shelf::Main),
        node(2, Zone::Secure, Shelf::Main),
        node(0, Zone::Public, Shelf::Main),
    ];
    assert_eq!(pass_doors(&shelf), vec![false, true, false]);
    assert!(pass_doors(&shelf[..1]).is_empty());
    assert!(pass_doors(&[]).is_empty());
}

#[test]
fn a_graded_graph_with_an_entrance_passes() {
    let data = data();
    let graph = VenueGraph { floors: vec![ground()], circulation_template: 4 };
    assert_eq!(check_graph(&data, &data.venues[0], &graph), Ok(()));
}

#[test]
fn the_graph_check_names_what_is_wrong() {
    let data = data();
    let venue = &data.venues[0];
    let empty = VenueGraph { floors: vec![], circulation_template: 4 };
    assert_eq!(check_graph(&data, venue, &empty), Err("venue has no storeys".to_string()));

    let shut = VenueGraph {
        floors: vec![plan(0, vec![], vec![node(2, Zone::Secure, Shelf::Main)])],
        circulation_template: 4,
    };
    assert_eq!(check_graph(&data, venue, &shut), Err("no external exit on the ground main shelf".to_string()));

    let upstairs = plan(
        1,
        vec![],
        vec![node(3, Zone::Personal, Shelf::Main), node(2, Zone::Secure, Shelf::Main)],
    );
    let broken = VenueGraph { floors: vec![ground(), upstairs], circulation_template: 4 };
    assert_eq!(check_graph(&data, venue, &broken), Err("floor 1 breaks the security gradient".to_string()));

    let mut narrow = crate::data();
    narrow.venues[0].floor_width = 14;
    let graph = VenueGraph { floors: vec![ground()], circulation_template: 4 };
    assert_eq!(
        check_graph(&narrow, &narrow.venues[0], &graph),
        Err("floor 0 shelf overflows even at minimum sizes".to_string())
    );
}

// ---------------------------------------------------------------------
// The NPC path graph.
// ---------------------------------------------------------------------

fn edge(node: usize, move_index: u8) -> PathStep {
    PathStep { node, move_index, cost: 1 }
}

#[test]
fn path_nodes_number_the_tiles_storey_by_storey() {
    let world = world();
    assert_eq!(graph_size(&world.map), 16 * 8);
    assert_eq!(path_node(&world.map, floor_pos(2, 3)), Some(3 * 16 + 2));
    assert_eq!(path_node(&world.map, floor_pos(16, 3)), None);
    assert_eq!(path_node(&world.map, floor_pos(-1, 3)), None);
    assert_eq!(path_node(&world.map, Pos::new(1, 2, 3)), None);
}

#[test]
fn npcs_route_around_the_player_unless_the_player_is_the_goal() {
    let world = world();
    let from = path_node(&world.map, floor_pos(3, 3)).unwrap();
    let goal = floor_pos(12, 3);
    assert_eq!(
        path_steps(&world, &data(), ActorId(1), goal, from),
        vec![edge(2 * 16 + 3, 0), edge(3 * 16 + 4, 1), edge(4 * 16 + 3, 2)]
    );
    let arrest = path_steps(&world, &data(), ActorId(1), floor_pos(2, 3), from);
    assert_eq!(arrest.last(), Some(&edge(3 * 16 + 2, 3)));
    assert_eq!(arrest.len(), 4);
}

#[test]
fn locked_doors_and_walls_and_furniture_stop_the_path() {
    let world = world();
    let data = data();
    let beside_office = path_node(&world.map, floor_pos(9, 3)).unwrap();
    let civilian = path_steps(&world, &data, ActorId(2), floor_pos(12, 3), beside_office);
    assert_eq!(civilian, vec![edge(2 * 16 + 9, 0), edge(4 * 16 + 9, 2), edge(3 * 16 + 8, 3)]);
    let guard = path_steps(&world, &data, ActorId(1), floor_pos(12, 3), beside_office);
    assert_eq!(guard[1], edge(3 * 16 + 10, 1));
    let corner = path_node(&world.map, floor_pos(1, 2)).unwrap();
    let steps = path_steps(&world, &data, ActorId(2), floor_pos(12, 3), corner);
    assert_eq!(steps, vec![edge(2 * 16 + 2, 1), edge(3 * 16 + 1, 2)]);
}

// ---------------------------------------------------------------------
// The access progression from a civilian start.
// ---------------------------------------------------------------------

#[test]
fn the_progression_collects_what_each_walk_reaches() {
    let world = world();
    let progression = progression_closure(&data(), &layout_of(&world), &population_of(&world), floor_pos(2, 3));
    assert_eq!(progression.disguises, strings(&["civilian", "guard", "staff", "manager"]));
    assert_eq!(progression.keys, strings(&["office-key"]));
    assert!(progression.invitation);
}

#[test]
fn a_key_behind_its_own_door_stays_out_of_reach() {
    let mut world = world();
    world.actors[1].pos = floor_pos(13, 5);
    world.items[3].location = ItemLocation::CarriedBy(ActorId(0));
    world.furniture[0].disguise = None;
    let progression = progression_closure(&data(), &layout_of(&world), &population_of(&world), floor_pos(2, 3));
    assert_eq!(progression.disguises, strings(&["civilian"]));
    assert!(progression.keys.is_empty());
    assert!(!progression.invitation);
}

#[test]
fn item_spec_ids_list_the_items_by_spec() {
    let world = world();
    assert_eq!(item_spec_ids(&world.items), vec!["garrote", "silenced-pistol", "office-key", "vip-invitation"]);
    assert!(item_spec_ids(&[]).is_empty());
}
