use murmur::data::{
    ActionDurations, Approach, BriefingData, CampaignData, DisguiseSpec, DistrictPattern,
    EquipmentSpec, GameData, ItemSpec, Lighting, NamePools, OpportunityApproach,
    OpportunityEffect, OpportunitySpec, PopulationData, Role, RoleSpec, RoomTemplate, TargetSpec,
    Tuning, VenueSpec, WaypointKind, WaypointSlot, Zone, ZoneLabels,
};
use murmur::geom::{Dir4, Pos};
use murmur::map::{DoorId, DoorState, GameMap, TileKind};
use murmur::actions::{
    intent_duration, translate, ActionIntent, ActionResult, Command, DisguiseSource, PreparedAction,
    RejectReason, TurnEvents,
};
use murmur::contract::Constraint;
use murmur::loc::{Catalogue, Row};
use murmur::resolution::{resolve_turn, start_turn};
use murmur::world::{Incident, IncidentKind, MissionOutcome};
use murmur::world::{
    Actor, ActorId, AiState, BodyCondition, Furniture, FurnitureId, FurnitureKind, Hands, ItemId,
    ItemInstance, ItemLocation, MissionFacts, Mood, ProofReport, Rect, Room, RoomId, World,
};

// ---------------------------------------------------------------------
// A small authored data set, standing in for the embedded RON files.
// ---------------------------------------------------------------------

fn s(text: &str) -> String {
    text.to_string()
}

fn strings(list: &[&str]) -> Vec<String> {
    list.iter().map(|t| t.to_string()).collect()
}

fn durations() -> ActionDurations {
    ActionDurations {
        step: 1,
        carry_step: 2,
        garrote: 3,
        shoot: 1,
        change_disguise: 3,
        carry_body: 2,
        drop_body: 1,
        hide_body: 3,
        pickpocket: 2,
        door: 1,
        draw_holster: 1,
        pick_lock: 5,
        throw: 1,
    }
}

fn tuning() -> Tuning {
    Tuning {
        queue_capacity: 32,
        batch_turns: 8,
        pistol_rounds: 6,
        pistol_range: 8,
        gunshot_sound_radius: 12,
        player_max_hp: 3,
        guard_attack_damage: 1,
        vision_range: 8,
        vision_range_dim: 4,
        cone_num: 3,
        cone_den: 2,
        suspicion_max: 100,
        suspicion_suspicious_at: 30,
        suspicion_investigate_at: 60,
        gain_illegal_zone: 20,
        gain_crouching: 10,
        gain_disguise_recognised: 25,
        suspicion_decay: 5,
        relaxed_cadence: 3,
        investigate_linger: 4,
        noisemaker_range: 6,
        noise_radius: 8,
        gain_tampering: 15,
        heat_gunshot: 3,
        heat_violence: 2,
        heat_body_found: 2,
        heat_tier1: 3,
        heat_tier2: 6,
        heat_reinforcements: 2,
        heat_extra_guard_cap: 3,
        player_vision_range: 10,
        durations: durations(),
    }
}

fn disguise(id: &str, zones: &[Zone], extra: &[&str], invitation: bool) -> DisguiseSpec {
    DisguiseSpec {
        id: s(id),
        name: String::new(),
        zones: zones.to_vec(),
        extra_rooms: strings(extra),
        secure_with_invitation: invitation,
        suspicious_observers: vec![],
        drawn_weapon_legal: false,
    }
}

fn item(id: &str) -> ItemSpec {
    ItemSpec {
        id: s(id),
        name: String::new(),
        glyph: '*',
        unlocks: None,
        invitation: false,
        weapon: false,
        firearm: false,
        purchasable: false,
        lockpick: false,
        noisemaker: false,
        staff_pass: false,
        master_key: false,
        charges: 0,
        pickpocketable: false,
        carried_by: None,
        placed_in: None,
    }
}

fn room(id: &str, zone: Zone, required: bool, exit: bool) -> RoomTemplate {
    RoomTemplate {
        id: s(id),
        name: String::new(),
        zone,
        floors: vec![0],
        count_min: 1,
        count_max: 1,
        required,
        min_size: (3, 3),
        max_size: (6, 6),
        lighting: Lighting::Bright,
        waypoints: vec![WaypointSlot { kind: WaypointKind::Idle, count: 1 }],
        containers_min: 0,
        containers_max: 1,
        low_cover_min: 0,
        low_cover_max: 1,
        wardrobe_allowed: true,
        external_exit: exit,
        locked_by: None,
        service_access: false,
        circulation: false,
    }
}

fn opportunity(id: &str, approach: OpportunityApproach, effect: OpportunityEffect) -> OpportunitySpec {
    OpportunitySpec {
        id: s(id),
        name: String::new(),
        glyph: '&',
        approach,
        effect,
        zones: vec![Zone::Staff],
        interact_turns: 2,
        risk: String::new(),
        presentation: String::new(),
    }
}

fn data() -> GameData {
    let mut pistol = item("silenced-pistol");
    pistol.weapon = true;
    pistol.firearm = true;
    pistol.purchasable = true;
    pistol.charges = 6;
    let mut garrote = item("garrote");
    garrote.weapon = true;
    garrote.purchasable = true;
    let mut lockpicks = item("lockpicks");
    lockpicks.purchasable = true;
    lockpicks.lockpick = true;
    let mut noisemaker = item("noisemaker");
    noisemaker.purchasable = true;
    noisemaker.noisemaker = true;
    noisemaker.charges = 3;
    let mut pass = item("forged-pass");
    pass.purchasable = true;
    pass.staff_pass = true;
    let mut counterfeit = item("counterfeit-invitation");
    counterfeit.purchasable = true;
    counterfeit.invitation = true;
    let mut invitation = item("vip-invitation");
    invitation.invitation = true;
    invitation.pickpocketable = true;
    let mut office_key = item("office-key");
    office_key.unlocks = Some(s("office"));
    office_key.pickpocketable = true;
    let mut office = room("office", Zone::Personal, true, false);
    office.locked_by = Some(s("office-key"));
    let entrance = room("entrance", Zone::Public, true, true);
    let mut loading = room("loading-bay", Zone::Staff, false, true);
    loading.floors = vec![0];
    let vip = room("vip-lounge", Zone::Secure, false, false);
    let mut corridor = room("service-corridor", Zone::Staff, false, true);
    corridor.circulation = true;
    GameData {
        tuning: tuning(),
        venues: vec![VenueSpec {
            id: s("nightclub"),
            name: String::new(),
            zone_labels: ZoneLabels::default(),
            invitation_label: String::new(),
            floor_width: 40,
            floor_height: 24,
            floor_count: 2,
            room_templates: strings(&["entrance", "loading-bay", "vip-lounge", "office", "service-corridor"]),
            role_counts: vec![],
            districts: DistrictPattern {
                zone: Zone::Public,
                rooms: strings(&["entrance"]),
                count_min: 1,
                count_max: 1,
                own_storey: false,
                locked_by: None,
                children: vec![],
            },
        }],
        disguises: vec![
            disguise("civilian", &[Zone::Public], &[], true),
            disguise("staff", &[Zone::Public, Zone::Staff], &["vip-lounge"], false),
            disguise("guard", &[Zone::Public, Zone::Secure, Zone::Staff, Zone::Personal], &[], false),
            disguise("manager", &[Zone::Public, Zone::Secure, Zone::Staff, Zone::Personal], &[], false),
        ],
        items: vec![pistol, garrote, lockpicks, noisemaker, pass, counterfeit, invitation, office_key],
        equipment: vec![
            EquipmentSpec { item: s("lockpicks"), approach: Approach::Physical, price: 300 },
            EquipmentSpec { item: s("noisemaker"), approach: Approach::Physical, price: 150 },
            EquipmentSpec { item: s("forged-pass"), approach: Approach::Social, price: 400 },
            EquipmentSpec { item: s("counterfeit-invitation"), approach: Approach::Social, price: 350 },
            EquipmentSpec { item: s("silenced-pistol"), approach: Approach::Violence, price: 600 },
            EquipmentSpec { item: s("garrote"), approach: Approach::Violence, price: 100 },
        ],
        opportunities: vec![
            opportunity("fuse-box", OpportunityApproach::Physical, OpportunityEffect::CutLights),
            opportunity("linen-cart", OpportunityApproach::Social, OpportunityEffect::StockWardrobe { disguise: s("staff") }),
            opportunity("rigging", OpportunityApproach::Violence, OpportunityEffect::AccidentDrop),
            opportunity("key-cache", OpportunityApproach::Universal, OpportunityEffect::PlaceKey { item: s("office-key") }),
            opportunity("fire-alarm", OpportunityApproach::Universal, OpportunityEffect::Evacuate),
        ],
        rooms: vec![entrance, loading, vip, office, corridor],
        population: PopulationData {
            roles: vec![
                RoleSpec {
                    role: Role::Civilian,
                    glyph: 'c',
                    count_min: 4,
                    count_max: 8,
                    waypoint_kinds: vec![WaypointKind::Social],
                    wait_min: 2,
                    wait_max: 6,
                    disguise: Some(s("civilian")),
                    armed: false,
                },
                RoleSpec {
                    role: Role::Guard,
                    glyph: 'G',
                    count_min: 2,
                    count_max: 3,
                    waypoint_kinds: vec![WaypointKind::Patrol],
                    wait_min: 1,
                    wait_max: 3,
                    disguise: Some(s("guard")),
                    armed: true,
                },
            ],
            vip_civilians_min: 1,
            vip_civilians_max: 2,
            target: TargetSpec {
                glyph: 'T',
                schedule_min: 3,
                schedule_max: 5,
                disguise: Some(s("manager")),
            },
            cycle_turns_min: 120,
            cycle_turns_max: 160,
            private_beats_min: 1,
            private_beats_max: 2,
        },
        names: NamePools {
            first: strings(&["Ada", "Bo"]),
            last: strings(&["Marsh", "Vale"]),
        },
        briefing: BriefingData {
            reasons: strings(&["skimming protection payments", "talking to the wrong people"]),
        },
        campaign: CampaignData {
            districts: strings(&["Docklands", "Old Town", "Riverside"]),
            starting_cash: 500,
            starting_equipment: strings(&["garrote"]),
            arrest_fine: 250,
            payout_base: 1000,
            payout_per_heat: 150,
            payout_constraint_bonus: 200,
            hot_mission_threshold: 4,
            district_heat_max: 5,
            offers_per_batch: 3,
        },
    }
}

// ---------------------------------------------------------------------
// A small hand-built venue: an entrance hall, a VIP lounge behind an
// open door, and an office behind a door locked by the office key.
//
//   x: 0         6       10        15
//      ###########################
//      #.....|...|....#          hall x1..5, lounge x7..9, office x11..14
//      #.....+...+....#          doors at (6,3) and (10,3)
//      ###########################
// ---------------------------------------------------------------------

fn floor_pos(x: i16, y: i16) -> Pos {
    Pos::new(0, x, y)
}

fn venue_map() -> GameMap {
    let mut map = GameMap::filled_void(16, 8, 1);
    for y in 0..8 {
        for x in 0..16 {
            let edge = x == 0 || x == 15 || y == 0 || y == 7;
            let tile = if edge || x == 6 || x == 10 { TileKind::Wall } else { TileKind::Floor };
            map.set_tile(floor_pos(x, y), tile);
        }
    }
    map.set_tile(floor_pos(6, 3), TileKind::Door(DoorId(0)));
    map.set_tile(floor_pos(10, 3), TileKind::Door(DoorId(1)));
    map
}

fn venue_room(id: u16, template: &str, zone: Zone, x: i16, w: i16, doors: Vec<DoorId>) -> Room {
    Room {
        id: RoomId(id),
        template: template.to_string(),
        name: format!("the {template}"),
        zone,
        floor: 0,
        bounds: Rect { x, y: 1, w, h: 6 },
        lighting: Lighting::Bright,
        waypoints: vec![],
        doors,
        external_exit: template == "entrance",
    }
}

fn person(id: u32, role: Option<Role>, x: i16, y: i16, disguise: &str) -> Actor {
    Actor {
        id: ActorId(id),
        name: format!("person {id}"),
        role,
        pos: floor_pos(x, y),
        facing: role.map(|_| Dir4::East),
        condition: BodyCondition::Healthy,
        hp: 3,
        worn_disguise: disguise.to_string(),
        hands: Hands::Free,
        crouched: false,
        is_target: false,
        is_vip: false,
        ai: role.map(|_| AiState {
            routine: vec![],
            routine_index: 0,
            wait_remaining: 0,
            mood: Mood::Relaxed,
            suspicion: 0,
            focus: None,
            knows_player_hostile: false,
        }),
        hidden_in: None,
        departed: false,
        killed_by_player: false,
    }
}

fn instance(id: u32, spec: &str, location: ItemLocation, charges: u16) -> ItemInstance {
    ItemInstance { id: ItemId(id), spec: spec.to_string(), location, charges }
}

fn piece(id: u32, kind: FurnitureKind, x: i16, y: i16) -> Furniture {
    Furniture {
        id: FurnitureId(id),
        kind,
        pos: floor_pos(x, y),
        body: None,
        disguise: None,
        machine: None,
        used: false,
        drop_tile: None,
    }
}

/// The player (0) in the hall with a garrote and a holstered pistol; a
/// guard (1) beside the player; a civilian (2); the target (3) in the
/// office; a VIP invitation lying in the hall.
fn world() -> World {
    let mut wardrobe = piece(0, FurnitureKind::Wardrobe, 1, 1);
    wardrobe.disguise = Some("staff".to_string());
    let mut fuse_box = piece(2, FurnitureKind::Machine, 1, 6);
    fuse_box.machine = Some("fuse-box".to_string());
    let mut target = person(3, Some(Role::Manager), 12, 3, "manager");
    target.is_target = true;
    target.facing = Some(Dir4::North);
    World {
        seed: 11,
        turn: 0,
        map: venue_map(),
        doors: vec![
            DoorState { open: true, locked_by: None },
            DoorState { open: false, locked_by: Some("office-key".to_string()) },
        ],
        rooms: vec![
            venue_room(0, "entrance", Zone::Public, 1, 5, vec![DoorId(0)]),
            venue_room(1, "vip-lounge", Zone::Secure, 7, 3, vec![DoorId(0), DoorId(1)]),
            venue_room(2, "office", Zone::Personal, 11, 4, vec![DoorId(1)]),
        ],
        furniture: vec![wardrobe, piece(1, FurnitureKind::Container, 5, 6), fuse_box],
        items: vec![
            instance(0, "garrote", ItemLocation::CarriedBy(ActorId(0)), 0),
            instance(1, "silenced-pistol", ItemLocation::CarriedBy(ActorId(0)), 6),
            instance(2, "office-key", ItemLocation::CarriedBy(ActorId(1)), 0),
            instance(3, "vip-invitation", ItemLocation::Ground(floor_pos(3, 5)), 0),
        ],
        actors: vec![
            person(0, None, 2, 3, "civilian"),
            person(1, Some(Role::Guard), 3, 3, "guard"),
            person(2, Some(Role::Civilian), 2, 4, "civilian"),
            target,
        ],
        player: ActorId(0),
        target: ActorId(3),
        extraction_tiles: vec![floor_pos(1, 3)],
        incidents: vec![],
        player_violence_witnessed: false,
        facts: MissionFacts {
            target_name: "person 3".to_string(),
            target_reason: "talking to the wrong people".to_string(),
            target_locations: vec![],
            guard_count: 1,
            staff_count: 0,
            civilian_count: 1,
            available_disguises: vec![],
            restricted_rooms: vec![],
            container_count: 1,
            extraction_exits: vec![],
        },
        proof: ProofReport::default(),
        constraint: None,
        constraint_breach: None,
        outcome: None,
    }
}


// ---------------------------------------------------------------------
// Turn resolution.
// ---------------------------------------------------------------------
fn row(id: &str, text: &str) -> Row {
    Row { id: id.to_string(), text: text.to_string() }
}

fn catalogue() -> Catalogue {
    Catalogue::from_rows(vec![
        row("contract.no_firearms.breach", "a shot was fired"),
        row("fail.blocked_person", "Someone is in the way"),
        row("fail.door_locked", "The door is locked"),
        row("fail.machine_spent", "The machine is spent"),
        row("fail.someone_first", "Someone got there first"),
        row("log.body_hidden", "You stow the body"),
        row("log.body_lifted", "You lift the body"),
        row("log.breached", "Contract broken: {reason}"),
        row("log.draw", "You draw"),
        row("log.extracted", "You slip away"),
        row("log.failed", "Failed: {reason}"),
        row("log.garrotted", "You garrotte {name}"),
        row("log.lights_cut", "The lights go out"),
        row("log.lock_picked", "The lock gives"),
        row("log.shot", "{name} is shot"),
        row("log.target_bolts", "{name} bolts"),
        row("log.target_escaped", "The target is gone"),
    ])
}

fn act(actor: u32, intent: ActionIntent) -> PreparedAction {
    PreparedAction { actor: ActorId(actor), intent, remaining: 1 }
}

/// Resolves one turn, settling contested steps in `order` (the moves'
/// identity order when `None`).
fn turn(world: &mut World, batch: &mut Vec<PreparedAction>, order: Option<Vec<usize>>) -> TurnEvents {
    let data = data();
    let cat = catalogue();
    let open = start_turn(world, &data, &cat, batch);
    let order = order.unwrap_or_else(|| (0..open.moves.len()).collect());
    resolve_turn(world, &cat, open, &order)
}

fn at(world: &World, id: u32) -> Pos {
    world.actors[id as usize].pos
}

#[test]
fn a_turn_advances_the_clock_once() {
    let mut world = world();
    world.incidents.push(Incident { kind: IncidentKind::Noise, pos: floor_pos(4, 4), radius: 3, turn: 0 });
    let mut batch = vec![act(0, ActionIntent::Wait)];
    let events = turn(&mut world, &mut batch, None);
    assert_eq!(world.turn, 1);
    assert!(batch.is_empty());
    assert!(world.incidents.is_empty());
    assert_eq!(events.player_result, Some(ActionResult::Completed));
    assert!(events.messages.is_empty());
}

#[test]
fn a_step_onto_open_floor_lands() {
    let mut world = world();
    let mut batch = vec![act(0, ActionIntent::Step(Dir4::North))];
    let events = turn(&mut world, &mut batch, None);
    assert_eq!(at(&world, 0), floor_pos(2, 2));
    assert_eq!(world.actors[0].facing, None);
    assert_eq!(events.player_result, Some(ActionResult::Completed));
}

#[test]
fn contested_tiles_go_to_the_first_claimant_in_the_order() {
    let mut world = world();
    world.actors[2].pos = floor_pos(1, 2);
    let batch = vec![act(0, ActionIntent::Step(Dir4::North)), act(2, ActionIntent::Step(Dir4::East))];

    let mut first = world.clone();
    let events = turn(&mut first, &mut batch.clone(), Some(vec![0, 1]));
    assert_eq!(at(&first, 0), floor_pos(2, 2));
    assert_eq!(at(&first, 2), floor_pos(1, 2));
    assert_eq!(events.player_result, Some(ActionResult::Completed));

    let mut second = world.clone();
    let events = turn(&mut second, &mut batch.clone(), Some(vec![1, 0]));
    assert_eq!(at(&second, 0), floor_pos(2, 3));
    assert_eq!(at(&second, 2), floor_pos(2, 2));
    assert_eq!(second.actors[2].facing, Some(Dir4::East));
    assert_eq!(events.player_result, Some(ActionResult::Failed("Someone got there first".to_string())));
    assert_eq!(events.messages, vec!["Failed: Someone got there first".to_string()]);
}

#[test]
fn a_chain_of_steps_settles_in_one_turn() {
    let mut world = world();
    // The guard follows the player into the tile the player leaves.
    let mut batch = vec![act(0, ActionIntent::Step(Dir4::North)), act(1, ActionIntent::Step(Dir4::West))];
    turn(&mut world, &mut batch, None);
    assert_eq!(at(&world, 0), floor_pos(2, 2));
    assert_eq!(at(&world, 1), floor_pos(2, 3));
    assert_eq!(world.actors[1].facing, Some(Dir4::West));
}

#[test]
fn a_bystander_steps_aside() {
    let mut world = world();
    let mut batch = vec![act(0, ActionIntent::Step(Dir4::South))];
    let events = turn(&mut world, &mut batch, None);
    assert_eq!(at(&world, 0), floor_pos(2, 4));
    assert_eq!(at(&world, 2), floor_pos(2, 3));
    assert_eq!(events.player_result, Some(ActionResult::Completed));
}

#[test]
fn two_movers_squeeze_past_each_other() {
    let mut world = world();
    let mut batch = vec![act(0, ActionIntent::Step(Dir4::East)), act(1, ActionIntent::Step(Dir4::West))];
    turn(&mut world, &mut batch, None);
    assert_eq!(at(&world, 0), floor_pos(3, 3));
    assert_eq!(at(&world, 1), floor_pos(2, 3));
}

#[test]
fn a_guard_holds_the_ground_against_the_player() {
    let mut world = world();
    let mut batch = vec![act(0, ActionIntent::Step(Dir4::East))];
    let events = turn(&mut world, &mut batch, None);
    assert_eq!(at(&world, 0), floor_pos(2, 3));
    assert_eq!(events.player_result, Some(ActionResult::Failed("Someone is in the way".to_string())));
    assert_eq!(events.messages, vec!["Failed: Someone is in the way".to_string()]);
}

#[test]
fn a_garrote_from_behind_kills_and_leaves_evidence() {
    let mut world = world();
    world.actors[0].pos = floor_pos(12, 4);
    let mut batch = vec![act(0, ActionIntent::Garrote(ActorId(3)))];
    let events = turn(&mut world, &mut batch, None);
    let target = &world.actors[3];
    assert_eq!(target.condition, BodyCondition::Dead);
    assert_eq!(target.hp, 0);
    assert!(target.killed_by_player);
    assert_eq!(
        world.incidents,
        vec![Incident { kind: IncidentKind::Violence, pos: floor_pos(12, 3), radius: 0, turn: 0 }]
    );
    assert_eq!(events.messages, vec!["You garrotte person 3".to_string()]);
    assert_eq!(events.player_result, Some(ActionResult::Completed));
    assert_eq!(world.constraint_breach, None);
}

#[test]
fn shooting_under_a_no_firearms_contract_breaks_it_once() {
    let mut world = world();
    world.constraint = Some(Constraint::NoFirearms);
    world.actors[0].hands = Hands::Drawn(ItemId(1));
    let mut batch = vec![act(0, ActionIntent::Shoot(ActorId(1)))];
    let events = turn(&mut world, &mut batch, None);
    assert_eq!(world.actors[1].condition, BodyCondition::Dead);
    assert_eq!(world.items[1].charges, 5);
    assert_eq!(world.constraint_breach, Some("a shot was fired".to_string()));
    assert_eq!(events.breach, Some("Contract broken: a shot was fired".to_string()));
    assert_eq!(events.messages, vec!["person 1 is shot".to_string()]);
    assert_eq!(
        world.incidents,
        vec![
            Incident { kind: IncidentKind::Violence, pos: floor_pos(3, 3), radius: 0, turn: 0 },
            Incident { kind: IncidentKind::Gunshot, pos: floor_pos(2, 3), radius: 12, turn: 0 },
        ]
    );
    // A second shot breaks nothing new.
    let mut batch = vec![act(0, ActionIntent::Shoot(ActorId(2)))];
    let events = turn(&mut world, &mut batch, None);
    assert_eq!(world.actors[2].condition, BodyCondition::Dead);
    assert_eq!(world.constraint_breach, Some("a shot was fired".to_string()));
    assert_eq!(events.breach, None);
}

#[test]
fn a_locked_door_holds_without_its_key_and_yields_to_picking() {
    let mut world = world();
    world.actors[0].pos = floor_pos(9, 3);
    let mut batch = vec![act(0, ActionIntent::OpenDoor(DoorId(1)))];
    let events = turn(&mut world, &mut batch, None);
    assert!(!world.doors[1].open);
    assert_eq!(events.player_result, Some(ActionResult::Failed("The door is locked".to_string())));
    assert!(events.messages.is_empty());

    let mut batch = vec![act(0, ActionIntent::PickLock(DoorId(1)))];
    let events = turn(&mut world, &mut batch, None);
    assert!(world.doors[1].open);
    assert_eq!(world.doors[1].locked_by, None);
    assert_eq!(events.messages, vec!["The lock gives".to_string()]);
}

#[test]
fn stepping_into_a_closed_door_opens_it_instead() {
    let mut world = world();
    world.doors[0].open = false;
    world.actors[0].pos = floor_pos(5, 3);
    let mut batch = vec![act(0, ActionIntent::Step(Dir4::East))];
    let events = turn(&mut world, &mut batch, None);
    assert!(world.doors[0].open);
    assert_eq!(at(&world, 0), floor_pos(5, 3));
    assert_eq!(events.player_result, Some(ActionResult::Completed));
}

#[test]
fn actions_under_way_tick_down_before_they_land() {
    let mut world = world();
    let mut batch = vec![PreparedAction { actor: ActorId(0), intent: ActionIntent::ToggleCrouch, remaining: 2 }];
    let events = turn(&mut world, &mut batch, None);
    assert_eq!(events.player_result, Some(ActionResult::InProgress));
    assert_eq!(batch, vec![PreparedAction { actor: ActorId(0), intent: ActionIntent::ToggleCrouch, remaining: 1 }]);
    assert!(!world.actors[0].crouched);
    let events = turn(&mut world, &mut batch, None);
    assert_eq!(events.player_result, Some(ActionResult::Completed));
    assert!(batch.is_empty());
    assert!(world.actors[0].crouched);
    assert_eq!(world.turn, 2);
}

#[test]
fn machines_work_once() {
    let mut world = world();
    world.actors[0].pos = floor_pos(1, 5);
    let mut batch = vec![act(0, ActionIntent::Interact(FurnitureId(2)))];
    let events = turn(&mut world, &mut batch, None);
    assert!(world.rooms.iter().all(|r| r.lighting == Lighting::Dim));
    assert!(world.furniture[2].used);
    assert_eq!(events.messages, vec!["The lights go out".to_string()]);

    let mut batch = vec![act(0, ActionIntent::Interact(FurnitureId(2)))];
    let events = turn(&mut world, &mut batch, None);
    assert_eq!(events.player_result, Some(ActionResult::Failed("The machine is spent".to_string())));
    assert_eq!(events.messages, vec!["Failed: The machine is spent".to_string()]);
}

#[test]
fn bodies_are_carried_and_stowed() {
    let mut world = world();
    world.actors[0].pos = floor_pos(5, 5);
    world.actors[1].pos = floor_pos(5, 4);
    world.actors[1].condition = BodyCondition::Dead;
    let mut batch = vec![act(0, ActionIntent::CarryBody(ActorId(1)))];
    turn(&mut world, &mut batch, None);
    assert_eq!(world.actors[0].hands, Hands::CarryingBody(ActorId(1)));
    assert_eq!(at(&world, 1), floor_pos(5, 5));

    let mut batch = vec![act(0, ActionIntent::HideBody(FurnitureId(1)))];
    let events = turn(&mut world, &mut batch, None);
    assert_eq!(world.actors[0].hands, Hands::Free);
    assert_eq!(world.actors[1].hidden_in, Some(FurnitureId(1)));
    assert_eq!(at(&world, 1), floor_pos(5, 6));
    assert_eq!(world.furniture[1].body, Some(ActorId(1)));
    assert_eq!(events.messages, vec!["You stow the body".to_string()]);
}

#[test]
fn clothes_come_out_of_a_wardrobe() {
    let mut world = world();
    world.actors[0].pos = floor_pos(1, 2);
    let mut batch = vec![act(0, ActionIntent::TakeDisguise(DisguiseSource::Wardrobe(FurnitureId(0))))];
    turn(&mut world, &mut batch, None);
    assert_eq!(world.actors[0].worn_disguise, "staff");
    assert_eq!(world.furniture[0].disguise, Some("civilian".to_string()));
}

#[test]
fn extraction_with_the_target_dead_ends_the_mission() {
    let mut world = world();
    world.actors[3].condition = BodyCondition::Dead;
    let mut batch = vec![act(0, ActionIntent::Step(Dir4::West))];
    let events = turn(&mut world, &mut batch, None);
    assert_eq!(at(&world, 0), floor_pos(1, 3));
    assert_eq!(world.outcome, Some(MissionOutcome::Extracted));
    assert_eq!(events.messages, vec!["You slip away".to_string()]);
}

#[test]
fn a_fleeing_target_on_an_exit_escapes() {
    let mut world = world();
    world.actors[3].pos = floor_pos(1, 3);
    world.actors[0].pos = floor_pos(4, 4);
    world.actors[3].ai.as_mut().unwrap().mood = Mood::Fleeing;
    let mut batch = vec![act(0, ActionIntent::Wait)];
    let events = turn(&mut world, &mut batch, None);
    assert!(world.actors[3].departed);
    assert_eq!(world.outcome, Some(MissionOutcome::TargetEscaped));
    assert_eq!(events.messages, vec!["person 3 bolts".to_string(), "The target is gone".to_string()]);
}

#[test]
fn a_decided_outcome_and_the_dead_stay_as_they_are() {
    let mut world = world();
    world.outcome = Some(MissionOutcome::Arrested);
    world.actors[2].condition = BodyCondition::Dead;
    let mut batch = vec![act(0, ActionIntent::Wait)];
    turn(&mut world, &mut batch, None);
    assert_eq!(world.outcome, Some(MissionOutcome::Arrested));
    assert_eq!(world.actors[2].condition, BodyCondition::Dead);
}

// ---------------------------------------------------------------------
// Player commands driven through whole turns: translate the command,
// time it, and resolve turns until it lands.
// ---------------------------------------------------------------------

fn submit(world: &mut World, batch: &mut Vec<PreparedAction>, command: Command) -> Result<TurnEvents, RejectReason> {
    let data = data();
    let intent = translate(world, &data, &command)?;
    let remaining = intent_duration(&data, world, world.player, &intent);
    batch.push(PreparedAction { actor: world.player, intent, remaining });
    Ok(turn(world, batch, None))
}

fn player_busy(world: &World, batch: &[PreparedAction]) -> bool {
    batch.iter().any(|p| p.actor == world.player)
}

#[test]
fn valid_move_advances_exactly_one_turn() {
    let mut world = world();
    let mut batch = Vec::new();
    let before = at(&world, 0);
    let events = submit(&mut world, &mut batch, Command::Move(Dir4::North)).unwrap();
    assert_eq!(world.turn, 1);
    assert_eq!(at(&world, 0), before.step(Dir4::North));
    assert_eq!(events.player_result, Some(ActionResult::Completed));
}

#[test]
fn draw_then_holster_round_trips() {
    let mut world = world();
    let mut batch = Vec::new();
    submit(&mut world, &mut batch, Command::DrawOrHolster).unwrap();
    assert!(matches!(world.actors[0].hands, Hands::Drawn(_)));
    submit(&mut world, &mut batch, Command::DrawOrHolster).unwrap();
    assert_eq!(world.actors[0].hands, Hands::Free);
}

#[test]
fn toggle_crouch_flips_state_each_turn() {
    let mut world = world();
    let mut batch = Vec::new();
    submit(&mut world, &mut batch, Command::ToggleCrouch).unwrap();
    assert!(world.actors[0].crouched);
    submit(&mut world, &mut batch, Command::ToggleCrouch).unwrap();
    assert!(!world.actors[0].crouched);
}

#[test]
fn shoot_requires_drawn_weapon_and_kills_in_sight() {
    let mut world = world();
    let mut batch = Vec::new();
    let target = ActorId(2);
    assert!(matches!(
        submit(&mut world, &mut batch, Command::Shoot(target)),
        Err(RejectReason::WeaponNotDrawn)
    ));
    assert_eq!(world.turn, 0);
    submit(&mut world, &mut batch, Command::DrawOrHolster).unwrap();
    let events = submit(&mut world, &mut batch, Command::Shoot(target)).unwrap();
    assert_eq!(events.player_result, Some(ActionResult::Completed));
    assert_eq!(world.actors[2].condition, BodyCondition::Dead);
    let pistol = world.items.iter().find(|i| i.spec == "silenced-pistol").unwrap();
    assert_eq!(pistol.location, ItemLocation::CarriedBy(ActorId(0)));
    assert_eq!(pistol.charges, data().tuning.pistol_rounds - 1);
}

#[test]
fn mission_ends_when_target_dies_and_player_extracts() {
    let mut world = world();
    let mut batch = Vec::new();
    world.actors[3].condition = BodyCondition::Dead;
    world.actors[0].pos = floor_pos(1, 3);
    assert!(world.extraction_tiles.contains(&at(&world, 0)));
    let events = submit(&mut world, &mut batch, Command::Wait).unwrap();
    assert_eq!(world.outcome, Some(MissionOutcome::Extracted), "{:?}", events.messages);
}

#[test]
fn carrying_a_body_halves_movement_cadence() {
    let mut world = world();
    let mut batch = Vec::new();
    world.actors[2].condition = BodyCondition::Dead;
    world.actors[2].pos = at(&world, 0);
    submit(&mut world, &mut batch, Command::CarryBody(ActorId(2))).unwrap();
    while player_busy(&world, &batch) {
        turn(&mut world, &mut batch, None);
    }
    assert_eq!(world.actors[0].hands, Hands::CarryingBody(ActorId(2)));
    let turn_before = world.turn;
    let events = submit(&mut world, &mut batch, Command::Move(Dir4::North)).unwrap();
    assert_eq!(events.player_result, Some(ActionResult::InProgress));
    assert!(player_busy(&world, &batch));
    let events = turn(&mut world, &mut batch, None);
    assert_eq!(events.player_result, Some(ActionResult::Completed));
    assert_eq!(world.turn, turn_before + 2, "a carried step takes two turns");
    assert_eq!(at(&world, 0), floor_pos(2, 2));
    assert_eq!(at(&world, 2), floor_pos(2, 2));
}
