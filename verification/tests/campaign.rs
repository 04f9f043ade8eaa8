use murmur::campaign::{
    constraint_exits, pick_constraint, CampaignState, CampaignStore, ContractOffer, ContractResult,
    MemoryStore, MissionResolution, OfferDraw, OFFER_STREAM,
};
use murmur::contract::Constraint;
use murmur::data::{
    ActionDurations, Approach, BriefingData, CampaignData, DisguiseSpec, DistrictPattern,
    EquipmentSpec, GameData, ItemSpec, Lighting, NamePools, OpportunityApproach,
    OpportunityEffect, OpportunitySpec, PopulationData, Role, RoleSpec, RoomTemplate, TargetSpec,
    Tuning, VenueSpec, WaypointKind, WaypointSlot, Zone, ZoneLabels,
};
use murmur::world::MissionOutcome;

// ---------------------------------------------------------------------
// A small authored data set, standing in for the embedded RON files.
// ---------------------------------------------------------------------

fn s(text: &str) -> String {
    text.to_string()
}

fn strings(list: &[&str]) -> Vec<String> {
    list.iter().map(|t| t.to_string()).collect()
}

fn durations() -> ActionDurations {
    ActionDurations {
        step: 1,
        carry_step: 2,
        garrote: 3,
        shoot: 1,
        change_disguise: 3,
        carry_body: 2,
        drop_body: 1,
        hide_body: 3,
        pickpocket: 2,
        door: 1,
        draw_holster: 1,
        pick_lock: 5,
        throw: 1,
    }
}

fn tuning() -> Tuning {
    Tuning {
        queue_capacity: 32,
        batch_turns: 8,
        pistol_rounds: 6,
        pistol_range: 8,
        gunshot_sound_radius: 12,
        player_max_hp: 3,
        guard_attack_damage: 1,
        vision_range: 8,
        vision_range_dim: 4,
        cone_num: 3,
        cone_den: 2,
        suspicion_max: 100,
        suspicion_suspicious_at: 30,
        suspicion_investigate_at: 60,
        gain_illegal_zone: 20,
        gain_crouching: 10,
        gain_disguise_recognised: 25,
        suspicion_decay: 5,
        relaxed_cadence: 3,
        investigate_linger: 4,
        noisemaker_range: 6,
        noise_radius: 8,
        gain_tampering: 15,
        heat_gunshot: 3,
        heat_violence: 2,
        heat_body_found: 2,
        heat_tier1: 3,
        heat_tier2: 6,
        heat_reinforcements: 2,
        heat_extra_guard_cap: 3,
        player_vision_range: 10,
        durations: durations(),
    }
}

fn disguise(id: &str, zones: &[Zone], extra: &[&str], invitation: bool) -> DisguiseSpec {
    DisguiseSpec {
        id: s(id),
        name: String::new(),
        zones: zones.to_vec(),
        extra_rooms: strings(extra),
        secure_with_invitation: invitation,
        suspicious_observers: vec![],
        drawn_weapon_legal: false,
    }
}

fn item(id: &str) -> ItemSpec {
    ItemSpec {
        id: s(id),
        name: String::new(),
        glyph: '*',
        unlocks: None,
        invitation: false,
        weapon: false,
        firearm: false,
        purchasable: false,
        lockpick: false,
        noisemaker: false,
        staff_pass: false,
        master_key: false,
        charges: 0,
        pickpocketable: false,
        carried_by: None,
        placed_in: None,
    }
}

fn room(id: &str, zone: Zone, required: bool, exit: bool) -> RoomTemplate {
    RoomTemplate {
        id: s(id),
        name: String::new(),
        zone,
        floors: vec![0],
        count_min: 1,
        count_max: 1,
        required,
        min_size: (3, 3),
        max_size: (6, 6),
        lighting: Lighting::Bright,
        waypoints: vec![WaypointSlot { kind: WaypointKind::Idle, count: 1 }],
        containers_min: 0,
        containers_max: 1,
        low_cover_min: 0,
        low_cover_max: 1,
        wardrobe_allowed: true,
        external_exit: exit,
        locked_by: None,
        service_access: false,
        circulation: false,
    }
}

fn opportunity(id: &str, approach: OpportunityApproach, effect: OpportunityEffect) -> OpportunitySpec {
    OpportunitySpec {
        id: s(id),
        name: String::new(),
        glyph: '&',
        approach,
        effect,
        zones: vec![Zone::Staff],
        interact_turns: 2,
        risk: String::new(),
        presentation: String::new(),
    }
}

fn data() -> GameData {
    let mut pistol = item("silenced-pistol");
    pistol.weapon = true;
    pistol.firearm = true;
    pistol.purchasable = true;
    pistol.charges = 6;
    let mut garrote = item("garrote");
    garrote.weapon = true;
    garrote.purchasable = true;
    let mut lockpicks = item("lockpicks");
    lockpicks.purchasable = true;
    lockpicks.lockpick = true;
    let mut noisemaker = item("noisemaker");
    noisemaker.purchasable = true;
    noisemaker.noisemaker = true;
    noisemaker.charges = 3;
    let mut pass = item("forged-pass");
    pass.purchasable = true;
    pass.staff_pass = true;
    let mut counterfeit = item("counterfeit-invitation");
    counterfeit.purchasable = true;
    counterfeit.invitation = true;
    let mut invitation = item("vip-invitation");
    invitation.invitation = true;
    invitation.pickpocketable = true;
    let mut office_key = item("office-key");
    office_key.unlocks = Some(s("office"));
    office_key.pickpocketable = true;
    let mut office = room("office", Zone::Personal, true, false);
    office.locked_by = Some(s("office-key"));
    let entrance = room("entrance", Zone::Public, true, true);
    let mut loading = room("loading-bay", Zone::Staff, false, true);
    loading.floors = vec![0];
    let vip = room("vip-lounge", Zone::Secure, false, false);
    let mut corridor = room("service-corridor", Zone::Staff, false, true);
    corridor.circulation = true;
    GameData {
        tuning: tuning(),
        venues: vec![VenueSpec {
            id: s("nightclub"),
            name: String::new(),
            zone_labels: ZoneLabels::default(),
            invitation_label: String::new(),
            floor_width: 40,
            floor_height: 24,
            floor_count: 2,
            room_templates: strings(&["entrance", "loading-bay", "vip-lounge", "office", "service-corridor"]),
            role_counts: vec![],
            districts: DistrictPattern {
                zone: Zone::Public,
                rooms: strings(&["entrance"]),
                count_min: 1,
                count_max: 1,
                own_storey: false,
                locked_by: None,
                children: vec![],
            },
        }],
        disguises: vec![
            disguise("civilian", &[Zone::Public], &[], true),
            disguise("staff", &[Zone::Public, Zone::Staff], &["vip-lounge"], false),
            disguise("guard", &[Zone::Public, Zone::Secure, Zone::Staff, Zone::Personal], &[], false),
            disguise("manager", &[Zone::Public, Zone::Secure, Zone::Staff, Zone::Personal], &[], false),
        ],
        items: vec![pistol, garrote, lockpicks, noisemaker, pass, counterfeit, invitation, office_key],
        equipment: vec![
            EquipmentSpec { item: s("lockpicks"), approach: Approach::Physical, price: 300 },
            EquipmentSpec { item: s("noisemaker"), approach: Approach::Physical, price: 150 },
            EquipmentSpec { item: s("forged-pass"), approach: Approach::Social, price: 400 },
            EquipmentSpec { item: s("counterfeit-invitation"), approach: Approach::Social, price: 350 },
            EquipmentSpec { item: s("silenced-pistol"), approach: Approach::Violence, price: 600 },
            EquipmentSpec { item: s("garrote"), approach: Approach::Violence, price: 100 },
        ],
        opportunities: vec![
            opportunity("fuse-box", OpportunityApproach::Physical, OpportunityEffect::CutLights),
            opportunity("linen-cart", OpportunityApproach::Social, OpportunityEffect::StockWardrobe { disguise: s("staff") }),
            opportunity("rigging", OpportunityApproach::Violence, OpportunityEffect::AccidentDrop),
            opportunity("key-cache", OpportunityApproach::Universal, OpportunityEffect::PlaceKey { item: s("office-key") }),
            opportunity("fire-alarm", OpportunityApproach::Universal, OpportunityEffect::Evacuate),
        ],
        rooms: vec![entrance, loading, vip, office, corridor],
        population: PopulationData {
            roles: vec![
                RoleSpec {
                    role: Role::Civilian,
                    glyph: 'c',
                    count_min: 4,
                    count_max: 8,
                    waypoint_kinds: vec![WaypointKind::Social],
                    wait_min: 2,
                    wait_max: 6,
                    disguise: Some(s("civilian")),
                    armed: false,
                },
                RoleSpec {
                    role: Role::Guard,
                    glyph: 'G',
                    count_min: 2,
                    count_max: 3,
                    waypoint_kinds: vec![WaypointKind::Patrol],
                    wait_min: 1,
                    wait_max: 3,
                    disguise: Some(s("guard")),
                    armed: true,
                },
            ],
            vip_civilians_min: 1,
            vip_civilians_max: 2,
            target: TargetSpec {
                glyph: 'T',
                schedule_min: 3,
                schedule_max: 5,
                disguise: Some(s("manager")),
            },
            cycle_turns_min: 120,
            cycle_turns_max: 160,
            private_beats_min: 1,
            private_beats_max: 2,
        },
        names: NamePools {
            first: strings(&["Ada", "Bo"]),
            last: strings(&["Marsh", "Vale"]),
        },
        briefing: BriefingData {
            reasons: strings(&["skimming protection payments", "talking to the wrong people"]),
        },
        campaign: CampaignData {
            districts: strings(&["Docklands", "Old Town", "Riverside"]),
            starting_cash: 500,
            starting_equipment: strings(&["garrote"]),
            arrest_fine: 250,
            payout_base: 1000,
            payout_per_heat: 150,
            payout_constraint_bonus: 200,
            hot_mission_threshold: 4,
            district_heat_max: 5,
            offers_per_batch: 3,
        },
    }
}


/// Draws for one board, derived from the board's stream seed by a
/// SplitMix-style mix: a deterministic stand-in for the generator stream.
fn draws(state: &CampaignState, data: &GameData) -> Vec<OfferDraw> {
    let mut x = state.offer_seed() ^ OFFER_STREAM;
    let mut next = || {
        x = x.wrapping_add(0x9E37_79B9_7F4A_7C15);
        let mut z = x;
        z = (z ^ (z >> 30)).wrapping_mul(0xBF58_476D_1CE4_E5B9);
        z = (z ^ (z >> 27)).wrapping_mul(0x94D0_49BB_1331_11EB);
        (z ^ (z >> 31)) as u32
    };
    let mut out = Vec::new();
    for _ in 0..data.campaign.offers_per_batch {
        let district = next() as usize % data.campaign.districts.len();
        let venue = next() as usize % data.venues.len();
        let constraint = next() % 5;
        let exits = constraint_exits(data, &data.venues[venue].id).len();
        let exit = if constraint >= 4 && exits > 0 { next() as usize % exits } else { 0 };
        let hook = next() as usize % data.briefing.reasons.len();
        out.push(OfferDraw {
            district,
            venue,
            constraint,
            exit,
            hook,
            seed_high: next(),
            seed_low: next(),
        });
    }
    out
}

fn offer(state: &CampaignState, data: &GameData) -> ContractOffer {
    state.offers(data, &draws(state, data)).into_iter().next().unwrap()
}

#[test]
fn a_new_campaign_starts_per_the_authored_data() {
    let data = data();
    let state = CampaignState::new(7, &data);
    assert_eq!(state.cash, data.campaign.starting_cash);
    assert_eq!(state.owned_equipment, data.campaign.starting_equipment);
    assert_eq!(state.district_heat.len(), data.campaign.districts.len());
    assert!(!state.over);
}

#[test]
fn offers_are_deterministic_and_refresh_changes_them() {
    let data = data();
    let mut state = CampaignState::new(7, &data);
    let a = state.offers(&data, &draws(&state, &data));
    let b = state.offers(&data, &draws(&state, &data));
    assert_eq!(a, b, "same state, same board");
    assert_eq!(a.len(), usize::from(data.campaign.offers_per_batch));
    state.refresh_offers();
    let c = state.offers(&data, &draws(&state, &data));
    assert_ne!(a, c, "declining rolls a fresh board");
}

#[test]
fn buying_moves_cash_into_the_stash_once() {
    let data = data();
    let mut state = CampaignState::new(7, &data);
    state.cash = 1000;
    state.buy(&data, "lockpicks").unwrap();
    assert!(state.owned_equipment.iter().any(|i| i == "lockpicks"));
    assert!(state.cash < 1000);
    assert!(state.buy(&data, "lockpicks").is_err(), "no duplicates");
    state.cash = 0;
    assert!(state.buy(&data, "silenced-pistol").is_err(), "needs cash");
}

#[test]
fn buying_reports_each_refusal() {
    let data = data();
    let mut state = CampaignState::new(7, &data);
    assert_eq!(
        state.buy(&data, "rocket").unwrap_err(),
        "'rocket' is not in the catalogue"
    );
    assert_eq!(state.buy(&data, "garrote").unwrap_err(), "already owned");
    state.cash = 299;
    assert_eq!(state.buy(&data, "lockpicks").unwrap_err(), "not enough cash");
    state.cash = 300;
    assert!(state.buy(&data, "lockpicks").is_ok());
    assert_eq!(state.cash, 0);
}

#[test]
fn accept_requires_owned_equipment_and_produces_the_config() {
    let data = data();
    let mut state = CampaignState::new(7, &data);
    let offer = offer(&state, &data);
    assert!(
        state
            .accept(&offer, vec!["silenced-pistol".to_string()])
            .is_err(),
        "cannot carry what you do not own"
    );
    let config = state.accept(&offer, vec!["garrote".to_string()]).unwrap();
    assert_eq!(config.seed, offer.seed);
    assert_eq!(config.venue, offer.venue);
    assert_eq!(config.constraint, Some(offer.constraint.clone()));
    assert_eq!(config.heat, offer.heat);
}

#[test]
fn accept_refuses_with_the_reason() {
    let data = data();
    let mut state = CampaignState::new(7, &data);
    let offer = offer(&state, &data);
    assert_eq!(
        state.accept(&offer, vec!["silenced-pistol".to_string()]).unwrap_err(),
        "you do not own 'silenced-pistol'"
    );
    let four = vec!["garrote".to_string(); 4];
    assert_eq!(
        state.accept(&offer, four).unwrap_err(),
        "a loadout carries at most three items"
    );
    assert_eq!(state.offer_index, 0, "a refused accept does not advance the board");
    state.accept(&offer, vec![]).unwrap();
    assert_eq!(state.offer_index, 1);
    state.over = true;
    assert_eq!(state.accept(&offer, vec![]).unwrap_err(), "the campaign is over");
}

#[test]
fn resolution_follows_the_standing_rules() {
    let data = data();
    let mut state = CampaignState::new(7, &data);
    let the_offer = offer(&state, &data);

    // Clean completion pays.
    let summary = state.resolve(
        &data,
        &the_offer,
        &MissionResolution {
            outcome: Some(MissionOutcome::Extracted),
            breach_reason: None,
            mission_heat: 0,
            loadout: vec!["garrote".to_string()],
        },
    );
    assert_eq!(summary.result, ContractResult::Completed);
    assert_eq!(summary.payout, the_offer.payout);

    // A breached contract completes unclean and pays nothing.
    let summary = state.resolve(
        &data,
        &the_offer,
        &MissionResolution {
            outcome: Some(MissionOutcome::Extracted),
            breach_reason: Some("the pistol was fired".to_string()),
            mission_heat: 0,
            loadout: vec![],
        },
    );
    assert_eq!(summary.result, ContractResult::CompletedUnclean);
    assert_eq!(summary.payout, 0);

    // An escaped target pays nothing, keeps the kit, and the
    // campaign continues.
    let cash = state.cash;
    let summary = state.resolve(
        &data,
        &the_offer,
        &MissionResolution {
            outcome: Some(MissionOutcome::TargetEscaped),
            breach_reason: None,
            mission_heat: 0,
            loadout: vec!["garrote".to_string()],
        },
    );
    assert_eq!(summary.result, ContractResult::TargetEscaped);
    assert_eq!(summary.payout, 0);
    assert_eq!(state.cash, cash, "no fine for a blown job");
    assert!(!state.over);
    assert!(state.owned_equipment.iter().any(|i| i == "garrote"));

    // Arrest fines and confiscates the carried kit.
    let cash_before = state.cash;
    let summary = state.resolve(
        &data,
        &the_offer,
        &MissionResolution {
            outcome: Some(MissionOutcome::Arrested),
            breach_reason: None,
            mission_heat: 0,
            loadout: vec!["garrote".to_string()],
        },
    );
    assert_eq!(summary.result, ContractResult::Arrested);
    assert_eq!(state.cash, cash_before - summary.fine);
    assert!(
        !state.owned_equipment.iter().any(|i| i == "garrote"),
        "carried gear is confiscated"
    );

    // Death ends the campaign.
    let summary = state.resolve(
        &data,
        &the_offer,
        &MissionResolution {
            outcome: Some(MissionOutcome::PlayerKilled),
            breach_reason: None,
            mission_heat: 0,
            loadout: vec![],
        },
    );
    assert_eq!(summary.result, ContractResult::Killed);
    assert!(state.over);
}

#[test]
fn arrest_fine_never_exceeds_the_cash_on_hand() {
    let data = data();
    let mut state = CampaignState::new(7, &data);
    let the_offer = offer(&state, &data);
    state.cash = 100;
    let summary = state.resolve(
        &data,
        &the_offer,
        &MissionResolution {
            outcome: Some(MissionOutcome::Arrested),
            breach_reason: None,
            mission_heat: 0,
            loadout: vec!["lockpicks".to_string(), "garrote".to_string()],
        },
    );
    assert_eq!(summary.fine, 100);
    assert_eq!(state.cash, 0);
    assert_eq!(summary.confiscated, vec!["garrote".to_string()]);
    assert_eq!(state.history.len(), 1);
    assert_eq!(state.history[0].result, ContractResult::Arrested);
    assert_eq!(ContractResult::Arrested.describe(), "ended in arrest");
}

#[test]
fn abandoning_pays_nothing_and_keeps_the_kit() {
    let data = data();
    let mut state = CampaignState::new(7, &data);
    let the_offer = offer(&state, &data);
    let summary = state.resolve(
        &data,
        &the_offer,
        &MissionResolution {
            outcome: None,
            breach_reason: None,
            mission_heat: 0,
            loadout: vec!["garrote".to_string()],
        },
    );
    assert_eq!(summary.result, ContractResult::Abandoned);
    assert_eq!(summary.payout, 0);
    assert_eq!(summary.fine, 0);
    assert_eq!(state.cash, data.campaign.starting_cash);
    assert_eq!(state.owned_equipment, vec!["garrote".to_string()]);
}

#[test]
fn hot_missions_raise_district_heat_and_others_decay() {
    let data = data();
    let mut state = CampaignState::new(7, &data);
    let mut the_offer = offer(&state, &data);
    the_offer.district = data.campaign.districts[0].clone();
    // Preload heat elsewhere to watch it decay.
    state.district_heat[1].1 = 3;

    state.resolve(
        &data,
        &the_offer,
        &MissionResolution {
            outcome: Some(MissionOutcome::Extracted),
            breach_reason: None,
            mission_heat: data.campaign.hot_mission_threshold,
            loadout: vec![],
        },
    );
    assert_eq!(state.district_heat[0].1, 2, "hot contract heats the district");
    assert_eq!(state.district_heat[1].1, 2, "other districts cool by one");
}

#[test]
fn district_heat_is_capped_and_reported() {
    let data = data();
    let mut state = CampaignState::new(7, &data);
    let mut the_offer = offer(&state, &data);
    the_offer.district = data.campaign.districts[2].clone();
    state.district_heat[2].1 = 4;
    let summary = state.resolve(
        &data,
        &the_offer,
        &MissionResolution {
            outcome: Some(MissionOutcome::Extracted),
            breach_reason: None,
            mission_heat: 9,
            loadout: vec![],
        },
    );
    assert_eq!(state.district_heat[2].1, 5);
    assert_eq!(summary.district_heat_change, 1);
    assert_eq!(state.heat_in("Riverside"), 5);
    assert_eq!(state.heat_in("Nowhere"), 0);
}

#[test]
fn offers_price_heat_and_pick_hostable_constraints() {
    let data = data();
    let mut state = CampaignState::new(3, &data);
    state.district_heat[1].1 = 2;
    let draw = OfferDraw {
        district: 1,
        venue: 0,
        constraint: 4,
        exit: 1,
        hook: 1,
        seed_high: 1,
        seed_low: 2,
    };
    let offer = state.make_offer(&data, &draw);
    assert_eq!(offer.district, "Old Town");
    assert_eq!(offer.heat, 2);
    assert_eq!(offer.payout, 1000 + 150 * 2 + 200);
    assert_eq!(offer.seed, (1u64 << 32) | 2);
    assert_eq!(offer.hook, "talking to the wrong people");
    assert_eq!(
        constraint_exits(&data, "nightclub"),
        vec!["entrance".to_string(), "loading-bay".to_string()]
    );
    assert_eq!(
        offer.constraint,
        Constraint::SpecificExit { room_template: "loading-bay".to_string() }
    );
    assert_eq!(pick_constraint(&data, "nightclub", 3, 0), Constraint::PrivateKill);
    assert_eq!(pick_constraint(&data, "nowhere", 4, 0), Constraint::NoFirearms);
}

#[test]
fn memory_store_round_trips() {
    let mut store = MemoryStore::default();
    assert!(store.load().is_none());
    store.save("doc");
    assert_eq!(store.load().as_deref(), Some("doc"));
    store.clear();
    assert!(store.load().is_none());
}
