use murmur::data::{
    ActionDurations, Approach, BriefingData, CampaignData, DisguiseSpec, DistrictPattern,
    EquipmentSpec, GameData, ItemSpec, Lighting, NamePools, OpportunityApproach,
    OpportunityEffect, OpportunitySpec, PopulationData, Role, RoleSpec, RoomTemplate, TargetSpec,
    Tuning, VenueSpec, WaypointKind, WaypointSlot, Zone, ZoneLabels,
};
use murmur::geom::{Dir4, Pos};
use murmur::map::{DoorId, DoorState, GameMap, TileKind};
use murmur::world::{
    Actor, ActorId, AiState, BodyCondition, Furniture, FurnitureId, FurnitureKind, Hands, ItemId,
    ItemInstance, ItemLocation, MissionFacts, Mood, ProofReport, Rect, Room, RoomId, World,
};
use murmur::actions::{intent_duration, translate, ActionIntent, Blockage, Command, DisguiseSource, RejectReason};
use murmur::world::MissionOutcome;

// ---------------------------------------------------------------------
// A small authored data set, standing in for the embedded RON files.
// ---------------------------------------------------------------------

fn s(text: &str) -> String {
    text.to_string()
}

fn strings(list: &[&str]) -> Vec<String> {
    list.iter().map(|t| t.to_string()).collect()
}

fn durations() -> ActionDurations {
    ActionDurations {
        step: 1,
        carry_step: 2,
        garrote: 3,
        shoot: 1,
        change_disguise: 3,
        carry_body: 2,
        drop_body: 1,
        hide_body: 3,
        pickpocket: 2,
        door: 1,
        draw_holster: 1,
        pick_lock: 5,
        throw: 1,
    }
}

fn tuning() -> Tuning {
    Tuning {
        queue_capacity: 32,
        batch_turns: 8,
        pistol_rounds: 6,
        pistol_range: 8,
        gunshot_sound_radius: 12,
        player_max_hp: 3,
        guard_attack_damage: 1,
        vision_range: 8,
        vision_range_dim: 4,
        cone_num: 3,
        cone_den: 2,
        suspicion_max: 100,
        suspicion_suspicious_at: 30,
        suspicion_investigate_at: 60,
        gain_illegal_zone: 20,
        gain_crouching: 10,
        gain_disguise_recognised: 25,
        suspicion_decay: 5,
        relaxed_cadence: 3,
        investigate_linger: 4,
        noisemaker_range: 6,
        noise_radius: 8,
        gain_tampering: 15,
        heat_gunshot: 3,
        heat_violence: 2,
        heat_body_found: 2,
        heat_tier1: 3,
        heat_tier2: 6,
        heat_reinforcements: 2,
        heat_extra_guard_cap: 3,
        player_vision_range: 10,
        durations: durations(),
    }
}

fn disguise(id: &str, zones: &[Zone], extra: &[&str], invitation: bool) -> DisguiseSpec {
    DisguiseSpec {
        id: s(id),
        name: String::new(),
        zones: zones.to_vec(),
        extra_rooms: strings(extra),
        secure_with_invitation: invitation,
        suspicious_observers: vec![],
        drawn_weapon_legal: false,
    }
}

fn item(id: &str) -> ItemSpec {
    ItemSpec {
        id: s(id),
        name: String::new(),
        glyph: '*',
        unlocks: None,
        invitation: false,
        weapon: false,
        firearm: false,
        purchasable: false,
        lockpick: false,
        noisemaker: false,
        staff_pass: false,
        master_key: false,
        charges: 0,
        pickpocketable: false,
        carried_by: None,
        placed_in: None,
    }
}

fn room(id: &str, zone: Zone, required: bool, exit: bool) -> RoomTemplate {
    RoomTemplate {
        id: s(id),
        name: String::new(),
        zone,
        floors: vec![0],
        count_min: 1,
        count_max: 1,
        required,
        min_size: (3, 3),
        max_size: (6, 6),
        lighting: Lighting::Bright,
        waypoints: vec![WaypointSlot { kind: WaypointKind::Idle, count: 1 }],
        containers_min: 0,
        containers_max: 1,
        low_cover_min: 0,
        low_cover_max: 1,
        wardrobe_allowed: true,
        external_exit: exit,
        locked_by: None,
        service_access: false,
        circulation: false,
    }
}

fn opportunity(id: &str, approach: OpportunityApproach, effect: OpportunityEffect) -> OpportunitySpec {
    OpportunitySpec {
        id: s(id),
        name: String::new(),
        glyph: '&',
        approach,
        effect,
        zones: vec![Zone::Staff],
        interact_turns: 2,
        risk: String::new(),
        presentation: String::new(),
    }
}

fn data() -> GameData {
    let mut pistol = item("silenced-pistol");
    pistol.weapon = true;
    pistol.firearm = true;
    pistol.purchasable = true;
    pistol.charges = 6;
    let mut garrote = item("garrote");
    garrote.weapon = true;
    garrote.purchasable = true;
    let mut lockpicks = item("lockpicks");
    lockpicks.purchasable = true;
    lockpicks.lockpick = true;
    let mut noisemaker = item("noisemaker");
    noisemaker.purchasable = true;
    noisemaker.noisemaker = true;
    noisemaker.charges = 3;
    let mut pass = item("forged-pass");
    pass.purchasable = true;
    pass.staff_pass = true;
    let mut counterfeit = item("counterfeit-invitation");
    counterfeit.purchasable = true;
    counterfeit.invitation = true;
    let mut invitation = item("vip-invitation");
    invitation.invitation = true;
    invitation.pickpocketable = true;
    let mut office_key = item("office-key");
    office_key.unlocks = Some(s("office"));
    office_key.pickpocketable = true;
    let mut office = room("office", Zone::Personal, true, false);
    office.locked_by = Some(s("office-key"));
    let entrance = room("entrance", Zone::Public, true, true);
    let mut loading = room("loading-bay", Zone::Staff, false, true);
    loading.floors = vec![0];
    let vip = room("vip-lounge", Zone::Secure, false, false);
    let mut corridor = room("service-corridor", Zone::Staff, false, true);
    corridor.circulation = true;
    GameData {
        tuning: tuning(),
        venues: vec![VenueSpec {
            id: s("nightclub"),
            name: String::new(),
            zone_labels: ZoneLabels::default(),
            invitation_label: String::new(),
            floor_width: 40,
            floor_height: 24,
            floor_count: 2,
            room_templates: strings(&["entrance", "loading-bay", "vip-lounge", "office", "service-corridor"]),
            role_counts: vec![],
            districts: DistrictPattern {
                zone: Zone::Public,
                rooms: strings(&["entrance"]),
                count_min: 1,
                count_max: 1,
                own_storey: false,
                locked_by: None,
                children: vec![],
            },
        }],
        disguises: vec![
            disguise("civilian", &[Zone::Public], &[], true),
            disguise("staff", &[Zone::Public, Zone::Staff], &["vip-lounge"], false),
            disguise("guard", &[Zone::Public, Zone::Secure, Zone::Staff, Zone::Personal], &[], false),
            disguise("manager", &[Zone::Public, Zone::Secure, Zone::Staff, Zone::Personal], &[], false),
        ],
        items: vec![pistol, garrote, lockpicks, noisemaker, pass, counterfeit, invitation, office_key],
        equipment: vec![
            EquipmentSpec { item: s("lockpicks"), approach: Approach::Physical, price: 300 },
            EquipmentSpec { item: s("noisemaker"), approach: Approach::Physical, price: 150 },
            EquipmentSpec { item: s("forged-pass"), approach: Approach::Social, price: 400 },
            EquipmentSpec { item: s("counterfeit-invitation"), approach: Approach::Social, price: 350 },
            EquipmentSpec { item: s("silenced-pistol"), approach: Approach::Violence, price: 600 },
            EquipmentSpec { item: s("garrote"), approach: Approach::Violence, price: 100 },
        ],
        opportunities: vec![
            opportunity("fuse-box", OpportunityApproach::Physical, OpportunityEffect::CutLights),
            opportunity("linen-cart", OpportunityApproach::Social, OpportunityEffect::StockWardrobe { disguise: s("staff") }),
            opportunity("rigging", OpportunityApproach::Violence, OpportunityEffect::AccidentDrop),
            opportunity("key-cache", OpportunityApproach::Universal, OpportunityEffect::PlaceKey { item: s("office-key") }),
            opportunity("fire-alarm", OpportunityApproach::Universal, OpportunityEffect::Evacuate),
        ],
        rooms: vec![entrance, loading, vip, office, corridor],
        population: PopulationData {
            roles: vec![
                RoleSpec {
                    role: Role::Civilian,
                    glyph: 'c',
                    count_min: 4,
                    count_max: 8,
                    waypoint_kinds: vec![WaypointKind::Social],
                    wait_min: 2,
                    wait_max: 6,
                    disguise: Some(s("civilian")),
                    armed: false,
                },
                RoleSpec {
                    role: Role::Guard,
                    glyph: 'G',
                    count_min: 2,
                    count_max: 3,
                    waypoint_kinds: vec![WaypointKind::Patrol],
                    wait_min: 1,
                    wait_max: 3,
                    disguise: Some(s("guard")),
                    armed: true,
                },
            ],
            vip_civilians_min: 1,
            vip_civilians_max: 2,
            target: TargetSpec {
                glyph: 'T',
                schedule_min: 3,
                schedule_max: 5,
                disguise: Some(s("manager")),
            },
            cycle_turns_min: 120,
            cycle_turns_max: 160,
            private_beats_min: 1,
            private_beats_max: 2,
        },
        names: NamePools {
            first: strings(&["Ada", "Bo"]),
            last: strings(&["Marsh", "Vale"]),
        },
        briefing: BriefingData {
            reasons: strings(&["skimming protection payments", "talking to the wrong people"]),
        },
        campaign: CampaignData {
            districts: strings(&["Docklands", "Old Town", "Riverside"]),
            starting_cash: 500,
            starting_equipment: strings(&["garrote"]),
            arrest_fine: 250,
            payout_base: 1000,
            payout_per_heat: 150,
            payout_constraint_bonus: 200,
            hot_mission_threshold: 4,
            district_heat_max: 5,
            offers_per_batch: 3,
        },
    }
}

// ---------------------------------------------------------------------
// A small hand-built venue: an entrance hall, a VIP lounge behind an
// open door, and an office behind a door locked by the office key.
//
//   x: 0         6       10        15
//      ###########################
//      #.....|...|....#          hall x1..5, lounge x7..9, office x11..14
//      #.....+...+....#          doors at (6,3) and (10,3)
//      ###########################
// ---------------------------------------------------------------------

fn floor_pos(x: i16, y: i16) -> Pos {
    Pos::new(0, x, y)
}

fn venue_map() -> GameMap {
    let mut map = GameMap::filled_void(16, 8, 1);
    for y in 0..8 {
        for x in 0..16 {
            let edge = x == 0 || x == 15 || y == 0 || y == 7;
            let tile = if edge || x == 6 || x == 10 { TileKind::Wall } else { TileKind::Floor };
            map.set_tile(floor_pos(x, y), tile);
        }
    }
    map.set_tile(floor_pos(6, 3), TileKind::Door(DoorId(0)));
    map.set_tile(floor_pos(10, 3), TileKind::Door(DoorId(1)));
    map
}

fn venue_room(id: u16, template: &str, zone: Zone, x: i16, w: i16, doors: Vec<DoorId>) -> Room {
    Room {
        id: RoomId(id),
        template: template.to_string(),
        name: format!("the {template}"),
        zone,
        floor: 0,
        bounds: Rect { x, y: 1, w, h: 6 },
        lighting: Lighting::Bright,
        waypoints: vec![],
        doors,
        external_exit: template == "entrance",
    }
}

fn person(id: u32, role: Option<Role>, x: i16, y: i16, disguise: &str) -> Actor {
    Actor {
        id: ActorId(id),
        name: format!("person {id}"),
        role,
        pos: floor_pos(x, y),
        facing: role.map(|_| Dir4::East),
        condition: BodyCondition::Healthy,
        hp: 3,
        worn_disguise: disguise.to_string(),
        hands: Hands::Free,
        crouched: false,
        is_target: false,
        is_vip: false,
        ai: role.map(|_| AiState {
            routine: vec![],
            routine_index: 0,
            wait_remaining: 0,
            mood: Mood::Relaxed,
            suspicion: 0,
            focus: None,
            knows_player_hostile: false,
        }),
        hidden_in: None,
        departed: false,
        killed_by_player: false,
    }
}

fn instance(id: u32, spec: &str, location: ItemLocation, charges: u16) -> ItemInstance {
    ItemInstance { id: ItemId(id), spec: spec.to_string(), location, charges }
}

fn piece(id: u32, kind: FurnitureKind, x: i16, y: i16) -> Furniture {
    Furniture {
        id: FurnitureId(id),
        kind,
        pos: floor_pos(x, y),
        body: None,
        disguise: None,
        machine: None,
        used: false,
        drop_tile: None,
    }
}

/// The player (0) in the hall with a garrote and a holstered pistol; a
/// guard (1) beside the player; a civilian (2); the target (3) in the
/// office; a VIP invitation lying in the hall.
fn world() -> World {
    let mut wardrobe = piece(0, FurnitureKind::Wardrobe, 1, 1);
    wardrobe.disguise = Some("staff".to_string());
    let mut fuse_box = piece(2, FurnitureKind::Machine, 1, 6);
    fuse_box.machine = Some("fuse-box".to_string());
    let mut target = person(3, Some(Role::Manager), 12, 3, "manager");
    target.is_target = true;
    target.facing = Some(Dir4::North);
    World {
        seed: 11,
        turn: 0,
        map: venue_map(),
        doors: vec![
            DoorState { open: true, locked_by: None },
            DoorState { open: false, locked_by: Some("office-key".to_string()) },
        ],
        rooms: vec![
            venue_room(0, "entrance", Zone::Public, 1, 5, vec![DoorId(0)]),
            venue_room(1, "vip-lounge", Zone::Secure, 7, 3, vec![DoorId(0), DoorId(1)]),
            venue_room(2, "office", Zone::Personal, 11, 4, vec![DoorId(1)]),
        ],
        furniture: vec![wardrobe, piece(1, FurnitureKind::Container, 5, 6), fuse_box],
        items: vec![
            instance(0, "garrote", ItemLocation::CarriedBy(ActorId(0)), 0),
            instance(1, "silenced-pistol", ItemLocation::CarriedBy(ActorId(0)), 6),
            instance(2, "office-key", ItemLocation::CarriedBy(ActorId(1)), 0),
            instance(3, "vip-invitation", ItemLocation::Ground(floor_pos(3, 5)), 0),
        ],
        actors: vec![
            person(0, None, 2, 3, "civilian"),
            person(1, Some(Role::Guard), 3, 3, "guard"),
            person(2, Some(Role::Civilian), 2, 4, "civilian"),
            target,
        ],
        player: ActorId(0),
        target: ActorId(3),
        extraction_tiles: vec![floor_pos(1, 3)],
        incidents: vec![],
        player_violence_witnessed: false,
        facts: MissionFacts {
            target_name: "person 3".to_string(),
            target_reason: "talking to the wrong people".to_string(),
            target_locations: vec![],
            guard_count: 1,
            staff_count: 0,
            civilian_count: 1,
            available_disguises: vec![],
            restricted_rooms: vec![],
            container_count: 1,
            extraction_exits: vec![],
        },
        proof: ProofReport::default(),
        constraint: None,
        constraint_breach: None,
        outcome: None,
    }
}

fn judge(world: &World, command: Command) -> Result<ActionIntent, RejectReason> {
    translate(world, &data(), &command)
}

fn place_player(world: &mut World, x: i16, y: i16) {
    world.actors[0].pos = Pos::new(0, x, y);
}

#[test]
fn waiting_and_crouching_always_translate() {
    let world = world();
    assert_eq!(judge(&world, Command::Wait), Ok(ActionIntent::Wait));
    assert_eq!(judge(&world, Command::ToggleCrouch), Ok(ActionIntent::ToggleCrouch));
}

#[test]
fn nothing_translates_once_the_mission_is_over() {
    let mut world = world();
    world.outcome = Some(MissionOutcome::Arrested);
    for command in [Command::Wait, Command::Move(Dir4::West), Command::Garrote(ActorId(1))] {
        assert_eq!(judge(&world, command), Err(RejectReason::MissionOver));
    }
}

#[test]
fn moves_step_onto_floor_and_stop_at_walls_and_guards() {
    let mut world = world();
    assert_eq!(judge(&world, Command::Move(Dir4::West)), Ok(ActionIntent::Step(Dir4::West)));
    assert_eq!(judge(&world, Command::Move(Dir4::East)), Err(RejectReason::OccupiedByActor));
    // Civilians step aside.
    assert_eq!(judge(&world, Command::Move(Dir4::South)), Ok(ActionIntent::Step(Dir4::South)));
    place_player(&mut world, 1, 3);
    assert_eq!(judge(&world, Command::Move(Dir4::West)), Err(RejectReason::PathBlocked(Blockage::Wall)));
    place_player(&mut world, 1, 2);
    assert_eq!(judge(&world, Command::Move(Dir4::North)), Err(RejectReason::PathBlocked(Blockage::Furniture)));
}

#[test]
fn a_locked_door_yields_only_to_its_key() {
    let mut world = world();
    place_player(&mut world, 9, 3);
    assert_eq!(judge(&world, Command::Move(Dir4::East)), Err(RejectReason::DoorIsLocked));
    assert_eq!(judge(&world, Command::OpenDoor(DoorId(1))), Err(RejectReason::DoorIsLocked));
    world.items[2].location = ItemLocation::CarriedBy(ActorId(0));
    assert_eq!(judge(&world, Command::Move(Dir4::East)), Ok(ActionIntent::Step(Dir4::East)));
    assert_eq!(judge(&world, Command::OpenDoor(DoorId(1))), Ok(ActionIntent::OpenDoor(DoorId(1))));
}

#[test]
fn doors_are_worked_from_beside_them() {
    let mut world = world();
    assert_eq!(judge(&world, Command::OpenDoor(DoorId(1))), Err(RejectReason::DoorNotAdjacent));
    place_player(&mut world, 7, 3);
    assert_eq!(judge(&world, Command::OpenDoor(DoorId(0))), Err(RejectReason::DoorAlreadyOpen));
    assert_eq!(judge(&world, Command::CloseDoor(DoorId(0))), Ok(ActionIntent::CloseDoor(DoorId(0))));
    world.actors[1].pos = Pos::new(0, 6, 3);
    assert_eq!(judge(&world, Command::CloseDoor(DoorId(0))), Err(RejectReason::DoorBlocked));
    world.doors[0].open = false;
    assert_eq!(judge(&world, Command::CloseDoor(DoorId(0))), Err(RejectReason::DoorAlreadyClosed));
}

#[test]
fn the_garrote_needs_the_wire_and_a_position_behind() {
    let mut world = world();
    // The guard faces east with the player directly behind.
    assert_eq!(judge(&world, Command::Garrote(ActorId(1))), Ok(ActionIntent::Garrote(ActorId(1))));
    assert_eq!(judge(&world, Command::Garrote(ActorId(2))), Err(RejectReason::NotBehindTarget));
    world.actors[0].hands = Hands::Drawn(ItemId(1));
    assert_eq!(judge(&world, Command::Garrote(ActorId(1))), Err(RejectReason::HandsNotFree));
    world.items[0].location = ItemLocation::Ground(Pos::new(0, 4, 4));
    assert_eq!(judge(&world, Command::Garrote(ActorId(1))), Err(RejectReason::NoGarrote));
}

#[test]
fn shooting_needs_a_drawn_loaded_pistol_and_a_clear_line() {
    let mut world = world();
    assert_eq!(judge(&world, Command::Shoot(ActorId(1))), Err(RejectReason::WeaponNotDrawn));
    world.actors[0].hands = Hands::Drawn(ItemId(1));
    assert_eq!(judge(&world, Command::Shoot(ActorId(1))), Ok(ActionIntent::Shoot(ActorId(1))));
    assert_eq!(judge(&world, Command::Shoot(ActorId(3))), Err(RejectReason::OutOfRange));
    world.actors[3].pos = Pos::new(0, 7, 1);
    assert_eq!(judge(&world, Command::Shoot(ActorId(3))), Err(RejectReason::TargetNotVisible));
    world.items[1].charges = 0;
    assert_eq!(judge(&world, Command::Shoot(ActorId(1))), Err(RejectReason::NoAmmo));
    world.items[1].location = ItemLocation::Ground(Pos::new(0, 4, 4));
    assert_eq!(judge(&world, Command::Shoot(ActorId(1))), Err(RejectReason::NoWeaponCarried));
}

#[test]
fn pockets_are_picked_from_beside_the_mark() {
    let mut world = world();
    assert_eq!(judge(&world, Command::Pickpocket(ActorId(1))), Ok(ActionIntent::Pickpocket(ActorId(1))));
    assert_eq!(judge(&world, Command::Pickpocket(ActorId(2))), Err(RejectReason::NothingToSteal));
    assert_eq!(judge(&world, Command::Pickpocket(ActorId(3))), Err(RejectReason::NotAdjacent));
    for id in 10..14 {
        world.items.push(ItemInstance {
            id: ItemId(id),
            spec: "noisemaker".to_string(),
            location: ItemLocation::CarriedBy(ActorId(0)),
            charges: 1,
        });
    }
    assert_eq!(judge(&world, Command::Pickpocket(ActorId(1))), Err(RejectReason::InventoryFull));
}

#[test]
fn clothes_come_off_bodies_and_out_of_wardrobes() {
    let mut world = world();
    assert_eq!(judge(&world, Command::TakeDisguiseFromBody(ActorId(1))), Err(RejectReason::TargetNotIncapacitated));
    world.actors[1].condition = BodyCondition::Dead;
    assert_eq!(
        judge(&world, Command::TakeDisguiseFromBody(ActorId(1))),
        Ok(ActionIntent::TakeDisguise(DisguiseSource::Body(ActorId(1))))
    );
    assert_eq!(judge(&world, Command::TakeDisguiseFromWardrobe(FurnitureId(0))), Err(RejectReason::NotAdjacent));
    place_player(&mut world, 1, 2);
    assert_eq!(
        judge(&world, Command::TakeDisguiseFromWardrobe(FurnitureId(0))),
        Ok(ActionIntent::TakeDisguise(DisguiseSource::Wardrobe(FurnitureId(0))))
    );
    world.actors[0].worn_disguise = "staff".to_string();
    assert_eq!(judge(&world, Command::TakeDisguiseFromWardrobe(FurnitureId(0))), Err(RejectReason::NoDisguiseThere));
    assert_eq!(judge(&world, Command::TakeDisguiseFromWardrobe(FurnitureId(1))), Err(RejectReason::NoDisguiseThere));
    assert_eq!(judge(&world, Command::TakeDisguiseFromWardrobe(FurnitureId(9))), Err(RejectReason::TargetGone));
}

#[test]
fn bodies_are_carried_dropped_and_hidden() {
    let mut world = world();
    assert_eq!(judge(&world, Command::CarryBody(ActorId(1))), Err(RejectReason::TargetGone));
    assert_eq!(judge(&world, Command::DropBody(None)), Err(RejectReason::NotCarryingBody));
    world.actors[1].condition = BodyCondition::Unconscious;
    assert_eq!(judge(&world, Command::CarryBody(ActorId(1))), Ok(ActionIntent::CarryBody(ActorId(1))));
    world.actors[0].hands = Hands::CarryingBody(ActorId(1));
    assert_eq!(judge(&world, Command::CarryBody(ActorId(1))), Err(RejectReason::TargetGone));
    assert_eq!(judge(&world, Command::DropBody(Some(Dir4::East))), Ok(ActionIntent::DropBody(Some(Dir4::East))));
    assert_eq!(judge(&world, Command::DropBody(Some(Dir4::South))), Err(RejectReason::OccupiedByActor));
    assert_eq!(judge(&world, Command::HideBody(FurnitureId(1))), Err(RejectReason::NotAdjacent));
    place_player(&mut world, 5, 5);
    assert_eq!(judge(&world, Command::HideBody(FurnitureId(1))), Ok(ActionIntent::HideBody(FurnitureId(1))));
    assert_eq!(judge(&world, Command::HideBody(FurnitureId(0))), Err(RejectReason::NotAContainer));
    world.furniture[1].body = Some(ActorId(2));
    assert_eq!(judge(&world, Command::HideBody(FurnitureId(1))), Err(RejectReason::ContainerOccupied));
    assert_eq!(judge(&world, Command::DrawOrHolster), Err(RejectReason::HandsNotFree));
}

#[test]
fn the_pistol_draws_and_holsters_from_free_hands() {
    let mut world = world();
    assert_eq!(judge(&world, Command::DrawOrHolster), Ok(ActionIntent::DrawOrHolster));
    world.actors[0].hands = Hands::Drawn(ItemId(1));
    assert_eq!(judge(&world, Command::DrawOrHolster), Ok(ActionIntent::DrawOrHolster));
    world.items[1].location = ItemLocation::CarriedBy(ActorId(1));
    assert_eq!(judge(&world, Command::DrawOrHolster), Err(RejectReason::NoWeaponCarried));
}

#[test]
fn locks_are_picked_with_lockpicks_only() {
    let mut world = world();
    place_player(&mut world, 9, 3);
    assert_eq!(judge(&world, Command::PickLock(DoorId(1))), Err(RejectReason::NoLockpicks));
    world.items.push(ItemInstance {
        id: ItemId(4),
        spec: "lockpicks".to_string(),
        location: ItemLocation::CarriedBy(ActorId(0)),
        charges: 0,
    });
    assert_eq!(judge(&world, Command::PickLock(DoorId(1))), Ok(ActionIntent::PickLock(DoorId(1))));
    assert_eq!(judge(&world, Command::PickLock(DoorId(0))), Err(RejectReason::DoorNotAdjacent));
    place_player(&mut world, 7, 3);
    assert_eq!(judge(&world, Command::PickLock(DoorId(0))), Err(RejectReason::DoorNotLocked));
}

#[test]
fn noisemakers_are_thrown_at_visible_floor_in_range() {
    let mut world = world();
    assert_eq!(judge(&world, Command::ThrowNoisemaker(Pos::new(0, 4, 1))), Err(RejectReason::NoNoisemaker));
    world.items.push(ItemInstance {
        id: ItemId(4),
        spec: "noisemaker".to_string(),
        location: ItemLocation::CarriedBy(ActorId(0)),
        charges: 3,
    });
    assert_eq!(judge(&world, Command::ThrowNoisemaker(Pos::new(0, 4, 1))), Ok(ActionIntent::Throw(Pos::new(0, 4, 1))));
    assert_eq!(judge(&world, Command::ThrowNoisemaker(Pos::new(0, 12, 3))), Err(RejectReason::OutOfRange));
    assert_eq!(
        judge(&world, Command::ThrowNoisemaker(Pos::new(0, 0, 3))),
        Err(RejectReason::PathBlocked(Blockage::NoThrowTarget))
    );
    assert_eq!(judge(&world, Command::ThrowNoisemaker(Pos::new(0, 7, 1))), Err(RejectReason::TargetNotVisible));
    world.items[4].charges = 0;
    assert_eq!(judge(&world, Command::ThrowNoisemaker(Pos::new(0, 4, 1))), Err(RejectReason::NoNoisemaker));
}

#[test]
fn machines_are_used_once_from_beside_them() {
    let mut world = world();
    assert_eq!(judge(&world, Command::Interact(FurnitureId(2))), Err(RejectReason::NotAdjacent));
    place_player(&mut world, 1, 5);
    assert_eq!(judge(&world, Command::Interact(FurnitureId(2))), Ok(ActionIntent::Interact(FurnitureId(2))));
    assert_eq!(judge(&world, Command::Interact(FurnitureId(0))), Err(RejectReason::NothingToUse));
    world.furniture[2].used = true;
    assert_eq!(judge(&world, Command::Interact(FurnitureId(2))), Err(RejectReason::MachineSpent));
}

#[test]
fn durations_come_from_the_tuning() {
    let data = data();
    let mut world = world();
    assert_eq!(intent_duration(&data, &world, ActorId(0), &ActionIntent::Step(Dir4::West)), 1);
    world.actors[0].hands = Hands::CarryingBody(ActorId(1));
    assert_eq!(intent_duration(&data, &world, ActorId(0), &ActionIntent::Step(Dir4::West)), 2);
    assert_eq!(intent_duration(&data, &world, ActorId(0), &ActionIntent::PickLock(DoorId(1))), 5);
    // The fuse box's authored interaction takes two turns.
    assert_eq!(intent_duration(&data, &world, ActorId(0), &ActionIntent::Interact(FurnitureId(2))), 2);
}
