use murmur::data::{
    ActionDurations, Approach, BriefingData, CampaignData, DataError, DisguiseSpec, DistrictPattern,
    EquipmentSpec, GameData, ItemSpec, Lighting, NamePools, OpportunityApproach,
    OpportunityEffect, OpportunitySpec, PopulationData, Role, RoleSpec, RoomTemplate, TargetSpec,
    Tuning, VenueSpec, WaypointKind, WaypointSlot, Zone, ZoneLabels,
};
use murmur::loc::{Catalogue, Row, MISSING};

// ---------------------------------------------------------------------
// A small authored data set, standing in for the embedded RON files.
// ---------------------------------------------------------------------

fn s(text: &str) -> String {
    text.to_string()
}

fn strings(list: &[&str]) -> Vec<String> {
    list.iter().map(|t| t.to_string()).collect()
}

fn durations() -> ActionDurations {
    ActionDurations {
        step: 1,
        carry_step: 2,
        garrote: 3,
        shoot: 1,
        change_disguise: 3,
        carry_body: 2,
        drop_body: 1,
        hide_body: 3,
        pickpocket: 2,
        door: 1,
        draw_holster: 1,
        pick_lock: 5,
        throw: 1,
    }
}

fn tuning() -> Tuning {
    Tuning {
        queue_capacity: 32,
        batch_turns: 8,
        pistol_rounds: 6,
        pistol_range: 8,
        gunshot_sound_radius: 12,
        player_max_hp: 3,
        guard_attack_damage: 1,
        vision_range: 8,
        vision_range_dim: 4,
        cone_num: 3,
        cone_den: 2,
        suspicion_max: 100,
        suspicion_suspicious_at: 30,
        suspicion_investigate_at: 60,
        gain_illegal_zone: 20,
        gain_crouching: 10,
        gain_disguise_recognised: 25,
        suspicion_decay: 5,
        relaxed_cadence: 3,
        investigate_linger: 4,
        noisemaker_range: 6,
        noise_radius: 8,
        gain_tampering: 15,
        heat_gunshot: 3,
        heat_violence: 2,
        heat_body_found: 2,
        heat_tier1: 3,
        heat_tier2: 6,
        heat_reinforcements: 2,
        heat_extra_guard_cap: 3,
        player_vision_range: 10,
        durations: durations(),
    }
}

fn disguise(id: &str, zones: &[Zone], extra: &[&str], invitation: bool) -> DisguiseSpec {
    DisguiseSpec {
        id: s(id),
        name: String::new(),
        zones: zones.to_vec(),
        extra_rooms: strings(extra),
        secure_with_invitation: invitation,
        suspicious_observers: vec![],
        drawn_weapon_legal: false,
    }
}

fn item(id: &str) -> ItemSpec {
    ItemSpec {
        id: s(id),
        name: String::new(),
        glyph: '*',
        unlocks: None,
        invitation: false,
        weapon: false,
        firearm: false,
        purchasable: false,
        lockpick: false,
        noisemaker: false,
        staff_pass: false,
        master_key: false,
        charges: 0,
        pickpocketable: false,
        carried_by: None,
        placed_in: None,
    }
}

fn room(id: &str, zone: Zone, required: bool, exit: bool) -> RoomTemplate {
    RoomTemplate {
        id: s(id),
        name: String::new(),
        zone,
        floors: vec![0],
        count_min: 1,
        count_max: 1,
        required,
        min_size: (3, 3),
        max_size: (6, 6),
        lighting: Lighting::Bright,
        waypoints: vec![WaypointSlot { kind: WaypointKind::Idle, count: 1 }],
        containers_min: 0,
        containers_max: 1,
        low_cover_min: 0,
        low_cover_max: 1,
        wardrobe_allowed: true,
        external_exit: exit,
        locked_by: None,
        service_access: false,
        circulation: false,
    }
}

fn opportunity(id: &str, approach: OpportunityApproach, effect: OpportunityEffect) -> OpportunitySpec {
    OpportunitySpec {
        id: s(id),
        name: String::new(),
        glyph: '&',
        approach,
        effect,
        zones: vec![Zone::Staff],
        interact_turns: 2,
        risk: String::new(),
        presentation: String::new(),
    }
}

fn data() -> GameData {
    let mut pistol = item("silenced-pistol");
    pistol.weapon = true;
    pistol.firearm = true;
    pistol.purchasable = true;
    pistol.charges = 6;
    let mut garrote = item("garrote");
    garrote.weapon = true;
    garrote.purchasable = true;
    let mut lockpicks = item("lockpicks");
    lockpicks.purchasable = true;
    lockpicks.lockpick = true;
    let mut noisemaker = item("noisemaker");
    noisemaker.purchasable = true;
    noisemaker.noisemaker = true;
    noisemaker.charges = 3;
    let mut pass = item("forged-pass");
    pass.purchasable = true;
    pass.staff_pass = true;
    let mut counterfeit = item("counterfeit-invitation");
    counterfeit.purchasable = true;
    counterfeit.invitation = true;
    let mut invitation = item("vip-invitation");
    invitation.invitation = true;
    invitation.pickpocketable = true;
    let mut office_key = item("office-key");
    office_key.unlocks = Some(s("office"));
    office_key.pickpocketable = true;
    let mut office = room("office", Zone::Personal, true, false);
    office.locked_by = Some(s("office-key"));
    let entrance = room("entrance", Zone::Public, true, true);
    let mut loading = room("loading-bay", Zone::Staff, false, true);
    loading.floors = vec![0];
    let vip = room("vip-lounge", Zone::Secure, false, false);
    let mut corridor = room("service-corridor", Zone::Staff, false, true);
    corridor.circulation = true;
    GameData {
        tuning: tuning(),
        venues: vec![VenueSpec {
            id: s("nightclub"),
            name: String::new(),
            zone_labels: ZoneLabels::default(),
            invitation_label: String::new(),
            floor_width: 40,
            floor_height: 24,
            floor_count: 2,
            room_templates: strings(&["entrance", "loading-bay", "vip-lounge", "office", "service-corridor"]),
            role_counts: vec![],
            districts: DistrictPattern {
                zone: Zone::Public,
                rooms: strings(&["entrance"]),
                count_min: 1,
                count_max: 1,
                own_storey: false,
                locked_by: None,
                children: vec![],
            },
        }],
        disguises: vec![
            disguise("civilian", &[Zone::Public], &[], true),
            disguise("staff", &[Zone::Public, Zone::Staff], &["vip-lounge"], false),
            disguise("guard", &[Zone::Public, Zone::Secure, Zone::Staff, Zone::Personal], &[], false),
            disguise("manager", &[Zone::Public, Zone::Secure, Zone::Staff, Zone::Personal], &[], false),
        ],
        items: vec![pistol, garrote, lockpicks, noisemaker, pass, counterfeit, invitation, office_key],
        equipment: vec![
            EquipmentSpec { item: s("lockpicks"), approach: Approach::Physical, price: 300 },
            EquipmentSpec { item: s("noisemaker"), approach: Approach::Physical, price: 150 },
            EquipmentSpec { item: s("forged-pass"), approach: Approach::Social, price: 400 },
            EquipmentSpec { item: s("counterfeit-invitation"), approach: Approach::Social, price: 350 },
            EquipmentSpec { item: s("silenced-pistol"), approach: Approach::Violence, price: 600 },
            EquipmentSpec { item: s("garrote"), approach: Approach::Violence, price: 100 },
        ],
        opportunities: vec![
            opportunity("fuse-box", OpportunityApproach::Physical, OpportunityEffect::CutLights),
            opportunity("linen-cart", OpportunityApproach::Social, OpportunityEffect::StockWardrobe { disguise: s("staff") }),
            opportunity("rigging", OpportunityApproach::Violence, OpportunityEffect::AccidentDrop),
            opportunity("key-cache", OpportunityApproach::Universal, OpportunityEffect::PlaceKey { item: s("office-key") }),
            opportunity("fire-alarm", OpportunityApproach::Universal, OpportunityEffect::Evacuate),
        ],
        rooms: vec![entrance, loading, vip, office, corridor],
        population: PopulationData {
            roles: vec![
                RoleSpec {
                    role: Role::Civilian,
                    glyph: 'c',
                    count_min: 4,
                    count_max: 8,
                    waypoint_kinds: vec![WaypointKind::Social],
                    wait_min: 2,
                    wait_max: 6,
                    disguise: Some(s("civilian")),
                    armed: false,
                },
                RoleSpec {
                    role: Role::Guard,
                    glyph: 'G',
                    count_min: 2,
                    count_max: 3,
                    waypoint_kinds: vec![WaypointKind::Patrol],
                    wait_min: 1,
                    wait_max: 3,
                    disguise: Some(s("guard")),
                    armed: true,
                },
            ],
            vip_civilians_min: 1,
            vip_civilians_max: 2,
            target: TargetSpec {
                glyph: 'T',
                schedule_min: 3,
                schedule_max: 5,
                disguise: Some(s("manager")),
            },
            cycle_turns_min: 120,
            cycle_turns_max: 160,
            private_beats_min: 1,
            private_beats_max: 2,
        },
        names: NamePools {
            first: strings(&["Ada", "Bo"]),
            last: strings(&["Marsh", "Vale"]),
        },
        briefing: BriefingData {
            reasons: strings(&["skimming protection payments", "talking to the wrong people"]),
        },
        campaign: CampaignData {
            districts: strings(&["Docklands", "Old Town", "Riverside"]),
            starting_cash: 500,
            starting_equipment: strings(&["garrote"]),
            arrest_fine: 250,
            payout_base: 1000,
            payout_per_heat: 150,
            payout_constraint_bonus: 200,
            hot_mission_threshold: 4,
            district_heat_max: 5,
            offers_per_batch: 3,
        },
    }
}

fn row(id: &str, text: &str) -> Row {
    Row { id: s(id), text: s(text) }
}

/// The string table the fixture's ids resolve against.
fn catalogue() -> Catalogue {
    let mut rows = vec![
        row("approach.physical", "physical"),
        row("approach.social", "social"),
        row("approach.violence", "violence"),
        row("role.civilian", "civilian"),
        row("role.guard", "guard"),
        row("venue.nightclub.name", "The Lantern Club"),
        row("venue.nightclub.invitation", "VIP wristband"),
        row("venue.nightclub.zone.public", "the floor"),
        row("venue.nightclub.zone.staff", "back of house"),
        row("venue.nightclub.zone.secure", "VIP"),
        row("venue.nightclub.zone.personal", "the office"),
        row("names.first.01", "Ada"),
        row("names.first.02", "Bo"),
        row("names.last.01", "Marsh"),
        row("briefing.reason.01", "skimming protection payments"),
        row("campaign.district.01", "Docklands"),
        row("campaign.district.02", "Old Town"),
    ];
    for id in ["civilian", "staff", "guard", "manager"] {
        rows.push(row(&format!("disguise.{id}.name"), &format!("{id} clothes")));
    }
    for id in [
        "silenced-pistol",
        "garrote",
        "lockpicks",
        "noisemaker",
        "forged-pass",
        "counterfeit-invitation",
        "vip-invitation",
        "office-key",
    ] {
        rows.push(row(&format!("item.{id}.name"), &format!("the {id}")));
    }
    for id in ["fuse-box", "linen-cart", "rigging", "key-cache", "fire-alarm"] {
        rows.push(row(&format!("opportunity.{id}.name"), &format!("a {id}")));
        rows.push(row(&format!("opportunity.{id}.risk"), "someone may notice"));
        rows.push(row(&format!("opportunity.{id}.presentation"), "it looks usable"));
    }
    for id in ["entrance", "loading-bay", "vip-lounge", "office", "service-corridor"] {
        rows.push(row(&format!("room.{id}.name"), &format!("the {id}")));
    }
    rows.sort_by(|a, b| a.id.cmp(&b.id));
    Catalogue::from_rows(rows)
}

/// The fixture as the loader hands it over: structure, then words.
fn embedded() -> Result<GameData, DataError> {
    let cat = catalogue();
    let mut data = data();
    data.resolve_text(&cat);
    data.validate(&cat)?;
    Ok(data)
}

/// The validation report, or an empty string when the data is valid.
fn errors_of(data: &GameData) -> String {
    match data.validate(&catalogue()) {
        Ok(()) => String::new(),
        Err(e) => {
            assert_eq!(e.file, "(cross-validation)");
            e.message
        }
    }
}

fn worded() -> GameData {
    let mut data = data();
    data.resolve_text(&catalogue());
    data
}

#[test]
fn embedded_data_parses_and_validates() {
    let data = embedded().expect("embedded data must be valid");
    assert_eq!(data.tuning.queue_capacity, 32, "spec fixes capacity at 32");
    assert_eq!(data.tuning.pistol_rounds, 6, "spec fixes pistol rounds at 6");
    assert!(data.disguise("civilian").is_some());
    assert!(data.disguise("guard").is_some());
}

#[test]
fn permission_matrix_matches_foundation() {
    let data = embedded().unwrap();
    let civilian = data.disguise("civilian").unwrap();
    assert!(civilian.zones.contains(&Zone::Public));
    assert!(!civilian.zones.contains(&Zone::Secure));
    assert!(civilian.secure_with_invitation);

    let staff = data.disguise("staff").unwrap();
    assert!(staff.zones.contains(&Zone::Public));
    assert!(staff.zones.contains(&Zone::Staff));
    assert!(!staff.zones.contains(&Zone::Personal));
    assert!(!staff.extra_rooms.is_empty(), "staff must have authored partial private access");

    for id in ["guard", "manager"] {
        let disguise = data.disguise(id).unwrap();
        for zone in [Zone::Public, Zone::Secure, Zone::Staff, Zone::Personal] {
            assert!(disguise.zones.contains(&zone), "{id} must access {zone:?}");
        }
    }
}

/// The structural data carries no words: every display field is empty
/// until the catalogue fills it, and whatever a field held before is
/// replaced rather than kept.
#[test]
fn ron_files_carry_no_display_text() {
    let data = data();
    for venue in &data.venues {
        assert!(venue.name.is_empty() && venue.invitation_label.is_empty());
        for zone in [Zone::Public, Zone::Secure, Zone::Staff, Zone::Personal] {
            assert!(venue.zone_label(zone).is_empty());
        }
    }
    assert!(data.disguises.iter().all(|d| d.name.is_empty()));
    assert!(data.items.iter().all(|i| i.name.is_empty()));
    assert!(data
        .opportunities
        .iter()
        .all(|o| o.name.is_empty() && o.risk.is_empty() && o.presentation.is_empty()));
    assert!(data.rooms.iter().all(|r| r.name.is_empty()));

    let mut authored = data;
    authored.items[1].name = s("a name typed into the data file");
    authored.resolve_text(&catalogue());
    assert_eq!(authored.items[1].name, "the garrote");
}

#[test]
fn specs_take_their_names_from_the_catalogue() {
    let cat = catalogue();
    let data = embedded().unwrap();
    assert_eq!(data.item("garrote").unwrap().name, cat.text("item.garrote.name"));
    assert_eq!(
        data.venue("nightclub").unwrap().zone_label(Zone::Secure),
        cat.text("venue.nightclub.zone.secure")
    );
    assert!(!data.names.first.is_empty() && !data.campaign.districts.is_empty());
}

#[test]
fn pools_come_from_the_catalogue_in_id_order() {
    let data = worded();
    assert_eq!(data.names.first, vec!["Ada".to_string(), "Bo".to_string()]);
    assert_eq!(data.names.last, vec!["Marsh".to_string()]);
    assert_eq!(data.briefing.reasons, vec!["skimming protection payments".to_string()]);
    assert_eq!(data.campaign.districts, vec!["Docklands".to_string(), "Old Town".to_string()]);
    assert_eq!(data.venues[0].name, "The Lantern Club");
    assert_eq!(data.opportunities[2].risk, "someone may notice");
}

#[test]
fn a_missing_row_keeps_the_placeholder_and_fails_validation() {
    let mut data = data();
    data.rooms[2].id = s("cellar");
    data.venues[0].room_templates[2] = s("cellar");
    data.disguises[1].extra_rooms = vec![s("cellar")];
    data.resolve_text(&catalogue());
    assert_eq!(data.rooms[2].name, MISSING);
    assert_eq!(errors_of(&data), "no localised room name for 'cellar' in data/loc/strings.csv");
}

#[test]
fn every_problem_is_reported_in_rule_order() {
    let mut data = worded();
    data.disguises[3].id = s("guard");
    data.disguises[1].extra_rooms.push(s("roof"));
    data.tuning.queue_capacity = 0;
    data.equipment.pop();
    data.venues[0].floor_count = 5;
    let expected = vec![
        "duplicate disguise ids",
        "disguise 'staff' grants access to unknown room 'roof'",
        "target yields unknown disguise 'manager'",
        "queue_capacity must be positive",
        "equipment catalogue needs exactly two violence choices, found 1",
        "venue 'nightclub' has 5 storeys; four is the ceiling",
    ];
    assert_eq!(errors_of(&data), expected.join("; "));
}

#[test]
fn broken_references_name_what_they_point_at() {
    let mut data = worded();
    data.items[7].unlocks = Some(s("vault"));
    data.rooms[3].locked_by = Some(s("garrote"));
    data.population.roles[1].disguise = Some(s("bouncer"));
    data.opportunities[1].effect = OpportunityEffect::StockWardrobe { disguise: s("chef") };
    data.campaign.starting_equipment.push(s("vip-invitation"));
    data.venues[0].room_templates.push(s("attic"));
    assert_eq!(
        errors_of(&data),
        vec![
            "item 'office-key' unlocks unknown room 'vault'",
            "room 'office' is locked by 'garrote' but that item does not unlock it",
            "role 'guard' yields unknown disguise 'bouncer'",
            "opportunity 'linen-cart' stocks unknown disguise 'chef'",
            "starting equipment 'vip-invitation' must be purchasable",
            "venue 'nightclub' references unknown room 'attic'",
        ]
        .join("; ")
    );
}

#[test]
fn venue_rules_cover_floors_exits_and_overrides() {
    let mut data = worded();
    data.rooms[0].floors = vec![0, 3];
    data.rooms[0].external_exit = false;
    data.venues[0].role_counts.push(murmur::data::RoleCountOverride {
        role: Role::Guard,
        count_min: 4,
        count_max: 1,
    });
    assert_eq!(
        errors_of(&data),
        vec![
            "venue 'nightclub' role override for guard has min > max",
            "venue 'nightclub' places room 'entrance' on floor 3 but has 2 floors",
            "venue 'nightclub' needs a required external-exit room",
        ]
        .join("; ")
    );
}

#[test]
fn the_opportunity_mix_and_the_campaign_are_checked() {
    let mut data = worded();
    data.opportunities.pop();
    data.campaign.offers_per_batch = 0;
    data.campaign.arrest_fine = -1;
    assert_eq!(
        errors_of(&data),
        vec![
            "opportunities must be exactly five: one physical, one social, one violence, two universal",
            "campaign must offer at least one contract",
            "campaign cash values must be non-negative",
        ]
        .join("; ")
    );
}
