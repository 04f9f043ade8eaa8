//! Authored game data.
//!
//! Everything tunable — the disguise permission matrix, room templates,
//! roles and population, action durations, perception and suspicion
//! numbers, name pools, and briefing phrasing — is authored as data and
//! handed to the simulation as a [`GameData`] value. Display text is not
//! part of the structural data: names come from the string catalogue
//! ([`crate::loc`]), keyed by the id the structure already carries.
use vstd::prelude::*;

use crate::geom::FloorId;
use crate::loc::Catalogue;
use crate::text::{clone_opt_string, str_eq};

verus! {

/// Access tiers. The four-tier security gradient is fixed (public,
/// staff, secure, personal); which disguise may enter which tier is
/// data-driven via [`DisguiseSpec`].
#[derive(Clone, Copy, Debug, PartialEq, Eq, Structural, Hash, PartialOrd, Ord)]
pub enum Zone {
    Public,
    Secure,
    Staff,
    Personal,
}

impl Zone {
    pub const ALL: [Zone; 4] = [Zone::Public, Zone::Secure, Zone::Staff, Zone::Personal];

    /// The catalogue id of the neutral tier name.
    pub open spec fn name_id(self) -> Seq<char> {
        match self {
            Zone::Public => "zone.public"@,
            Zone::Secure => "zone.secure"@,
            Zone::Staff => "zone.staff"@,
            Zone::Personal => "zone.personal"@,
        }
    }

    pub open spec fn spec_depth(self) -> u8 {
        match self {
            Zone::Public => 0,
            Zone::Secure | Zone::Staff => 1,
            Zone::Personal => 2,
        }
    }

    /// The neutral tier name; venue data supplies flavoured labels.
    pub fn name(self, catalogue: &Catalogue) -> (r: String)
        ensures
            r@ == catalogue.spec_text(self.name_id()),
    {
        match self {
            Zone::Public => catalogue.text("zone.public"),
            Zone::Secure => catalogue.text("zone.secure"),
            Zone::Staff => catalogue.text("zone.staff"),
            Zone::Personal => catalogue.text("zone.personal"),
        }
    }

    /// How far into the venue this tier sits. `Secure` and `Staff` are
    /// siblings: two different ways to be one step off the street.
    pub fn depth(self) -> (r: u8)
        ensures
            r == self.spec_depth(),
    {
        match self {
            Zone::Public => 0,
            Zone::Secure | Zone::Staff => 1,
            Zone::Personal => 2,
        }
    }
}

/// Fixed roles. Civilians and guards have their own behaviour sets;
/// bartender, cleaner, technician, and manager share the staff model.
#[derive(Clone, Copy, Debug, PartialEq, Eq, Structural, Hash, PartialOrd, Ord)]
pub enum Role {
    Civilian,
    Bartender,
    Cleaner,
    Technician,
    Manager,
    Guard,
}

impl Role {
    pub open spec fn spec_is_staff(self) -> bool {
        match self {
            Role::Bartender | Role::Cleaner | Role::Technician | Role::Manager => true,
            _ => false,
        }
    }

    /// The catalogue id of the role's name.
    pub open spec fn name_id(self) -> Seq<char> {
        match self {
            Role::Civilian => "role.civilian"@,
            Role::Bartender => "role.bartender"@,
            Role::Cleaner => "role.cleaner"@,
            Role::Technician => "role.technician"@,
            Role::Manager => "role.manager"@,
            Role::Guard => "role.guard"@,
        }
    }

    pub fn is_staff(self) -> (r: bool)
        ensures
            r == self.spec_is_staff(),
    {
        match self {
            Role::Bartender | Role::Cleaner | Role::Technician | Role::Manager => true,
            _ => false,
        }
    }

    pub fn name(self, catalogue: &Catalogue) -> (r: String)
        ensures
            r@ == catalogue.spec_text(self.name_id()),
    {
        match self {
            Role::Civilian => catalogue.text("role.civilian"),
            Role::Bartender => catalogue.text("role.bartender"),
            Role::Cleaner => catalogue.text("role.cleaner"),
            Role::Technician => catalogue.text("role.technician"),
            Role::Manager => catalogue.text("role.manager"),
            Role::Guard => catalogue.text("role.guard"),
        }
    }
}

#[derive(Clone, Copy, Debug, PartialEq, Eq, Structural)]
pub enum Lighting {
    Bright,
    Dim,
}

/// What a routine waypoint is for; roles declare which kinds they use.
#[derive(Clone, Copy, Debug, PartialEq, Eq, Structural, Hash, PartialOrd, Ord)]
pub enum WaypointKind {
    /// Drinking, dancing, chatting: civilian leisure.
    Social,
    /// Behind the bar, kitchen stations, cleaning spots, office desks.
    Work,
    /// Guard patrol posts.
    Patrol,
    /// Quiet corners where an actor may simply stand.
    Idle,
}

pub type DisguiseId = String;

pub type RoomTemplateId = String;

pub type ItemSpecId = String;

pub type VenueId = String;

/// Display labels a venue gives the four access tiers.
#[derive(Clone, Debug, Default)]
pub struct ZoneLabels {
    pub public: String,
    pub staff: String,
    pub secure: String,
    pub personal: String,
}

/// A venue definition: its footprint, which room templates it draws
/// from, its district tree, and its presentation flavour.
#[derive(Debug)]
pub struct VenueSpec {
    pub id: VenueId,
    pub name: String,
    pub zone_labels: ZoneLabels,
    /// Flavoured name of the secure-tier invitation.
    pub invitation_label: String,
    /// Interior tile size of each storey and the storey count.
    pub floor_width: u16,
    pub floor_height: u16,
    pub floor_count: u8,
    /// Room templates this venue may place.
    pub room_templates: Vec<RoomTemplateId>,
    /// Per-venue overrides of the population role counts.
    pub role_counts: Vec<RoleCountOverride>,
    /// The district tree this venue is carved from.
    pub districts: DistrictPattern,
}

/// One district in a venue's tree. The tree's shape is the venue's
/// topology.
#[derive(Debug)]
pub struct DistrictPattern {
    pub zone: Zone,
    /// Room templates this district may place, in authored order.
    pub rooms: Vec<RoomTemplateId>,
    /// How many sibling districts this pattern expands into.
    pub count_min: u8,
    pub count_max: u8,
    /// Put this district (and its subtree) on its own storey.
    pub own_storey: bool,
    /// Lock the gateway into this district with the named room's key.
    pub locked_by: Option<ItemSpecId>,
    pub children: Vec<DistrictPattern>,
}

/// One per-venue role count override.
#[derive(Clone, Debug)]
pub struct RoleCountOverride {
    pub role: Role,
    pub count_min: u8,
    pub count_max: u8,
}

impl VenueSpec {
    pub open spec fn spec_zone_label(&self, zone: Zone) -> String {
        match zone {
            Zone::Public => self.zone_labels.public,
            Zone::Staff => self.zone_labels.staff,
            Zone::Secure => self.zone_labels.secure,
            Zone::Personal => self.zone_labels.personal,
        }
    }

    pub fn zone_label(&self, zone: Zone) -> (r: &str)
        ensures
            r@ == self.spec_zone_label(zone)@,
    {
        match zone {
            Zone::Public => self.zone_labels.public.as_str(),
            Zone::Staff => self.zone_labels.staff.as_str(),
            Zone::Secure => self.zone_labels.secure.as_str(),
            Zone::Personal => self.zone_labels.personal.as_str(),
        }
    }
}

/// One row of the disguise permission matrix.
#[derive(Clone, Debug)]
pub struct DisguiseSpec {
    pub id: DisguiseId,
    pub name: String,
    /// Zones this disguise may enter unconditionally.
    pub zones: Vec<Zone>,
    /// Room templates accessible regardless of zone.
    pub extra_rooms: Vec<RoomTemplateId>,
    /// Whether carrying an invitation additionally grants secure access.
    pub secure_with_invitation: bool,
    /// Roles that treat a player wearing this disguise as suspicious.
    pub suspicious_observers: Vec<Role>,
    /// Whether a drawn weapon is legal while wearing this disguise.
    pub drawn_weapon_legal: bool,
}

/// A carriable item definition.
#[derive(Clone, Debug)]
pub struct ItemSpec {
    pub id: ItemSpecId,
    pub name: String,
    pub glyph: char,
    /// Room template whose locked doors this item opens, if it is a key.
    pub unlocks: Option<RoomTemplateId>,
    /// True for the persistent, non-consumable invitation.
    pub invitation: bool,
    /// True for weapons (illegal when drawn, per disguise matrix).
    pub weapon: bool,
    /// True for ranged weapons that draw, aim, and consume rounds.
    pub firearm: bool,
    /// Campaign equipment: enters missions only through the loadout.
    pub purchasable: bool,
    /// Opens locked doors without their key.
    pub lockpick: bool,
    /// Can be thrown to create a noise that draws investigators.
    pub noisemaker: bool,
    /// Grants staff-tier legitimacy while carried.
    pub staff_pass: bool,
    /// Opens every locked door in the venue.
    pub master_key: bool,
    /// Charges the item starts with.
    pub charges: u16,
    /// Whether the item can be pickpocketed from a carrying NPC.
    pub pickpocketable: bool,
    /// Role that carries this item at generation, if any.
    pub carried_by: Option<Role>,
    /// Room template on whose floor this item is placed at generation.
    pub placed_in: Option<RoomTemplateId>,
}

/// The three approaches the equipment catalogue serves.
#[derive(Clone, Copy, Debug, PartialEq, Eq, Structural, Hash)]
pub enum Approach {
    Physical,
    Social,
    Violence,
}

impl Approach {
    pub const ALL: [Approach; 3] = [Approach::Physical, Approach::Social, Approach::Violence];

    pub open spec fn name_id(self) -> Seq<char> {
        match self {
            Approach::Physical => "approach.physical"@,
            Approach::Social => "approach.social"@,
            Approach::Violence => "approach.violence"@,
        }
    }

    pub fn name(self, catalogue: &Catalogue) -> (r: String)
        ensures
            r@ == catalogue.spec_text(self.name_id()),
    {
        match self {
            Approach::Physical => catalogue.text("approach.physical"),
            Approach::Social => catalogue.text("approach.social"),
            Approach::Violence => catalogue.text("approach.violence"),
        }
    }
}

/// One catalogue entry: a purchasable item, its approach, and its price.
#[derive(Clone, Debug)]
pub struct EquipmentSpec {
    pub item: ItemSpecId,
    pub approach: Approach,
    pub price: i64,
}

/// Which route posture an opportunity machine primarily serves.
#[derive(Clone, Copy, Debug, PartialEq, Eq, Structural)]
pub enum OpportunityApproach {
    Physical,
    Social,
    Violence,
    Universal,
}

/// What using (or placing) an opportunity machine does.
#[derive(Clone, Debug)]
pub enum OpportunityEffect {
    /// Cuts the lights: every bright room on the machine's storey dims.
    CutLights,
    /// Placement stocks a wardrobe with a disguise.
    StockWardrobe { disguise: DisguiseId },
    /// Drops a load on whoever stands beneath: a deniable accident kill.
    AccidentDrop,
    /// Placement drops an item on the floor nearby.
    PlaceKey { item: ItemSpecId },
    /// Triggers an evacuation.
    Evacuate,
}

/// One authored opportunity machine.
#[derive(Clone, Debug)]
pub struct OpportunitySpec {
    pub id: String,
    pub name: String,
    pub glyph: char,
    pub approach: OpportunityApproach,
    pub effect: OpportunityEffect,
    /// Zones whose rooms may host this machine.
    pub zones: Vec<Zone>,
    /// Turns the interaction takes.
    pub interact_turns: u16,
    /// Authored risk statement.
    pub risk: String,
    /// What looking at it tells the player.
    pub presentation: String,
}

/// How many waypoints of one kind a room offers.
#[derive(Clone, Copy, Debug)]
pub struct WaypointSlot {
    pub kind: WaypointKind,
    pub count: u8,
}

/// A room the generator may (or must) place.
#[derive(Debug)]
pub struct RoomTemplate {
    pub id: RoomTemplateId,
    pub name: String,
    pub zone: Zone,
    /// Storeys this room may be placed on (0 = ground).
    pub floors: Vec<FloorId>,
    pub count_min: u8,
    pub count_max: u8,
    /// Required rooms must be placed.
    pub required: bool,
    /// Interior size bounds in tiles, excluding walls.
    pub min_size: (u16, u16),
    pub max_size: (u16, u16),
    pub lighting: Lighting,
    pub waypoints: Vec<WaypointSlot>,
    /// One-body containers.
    pub containers_min: u8,
    pub containers_max: u8,
    /// Low cover objects that block sight to crouchers.
    pub low_cover_min: u8,
    pub low_cover_max: u8,
    /// Whether the reachability proof may add a wardrobe here.
    pub wardrobe_allowed: bool,
    /// Whether this room connects to the outside as an extraction exit.
    pub external_exit: bool,
    /// Item id of the key that locks this room's doors, if locked.
    pub locked_by: Option<ItemSpecId>,
    /// Whether this room gets a service connection.
    pub service_access: bool,
    /// Circulation templates are realised structurally by the grammar.
    pub circulation: bool,
}

impl Clone for RoomTemplate {
    fn clone(&self) -> (r: Self)
        ensures
            r.id@ == self.id@,
            r.name@ == self.name@,
            r.zone == self.zone,
            r.floors@ == self.floors@,
            r.count_min == self.count_min,
            r.count_max == self.count_max,
            r.required == self.required,
            r.min_size == self.min_size,
            r.max_size == self.max_size,
            r.lighting == self.lighting,
            r.waypoints@ == self.waypoints@,
            r.containers_min == self.containers_min,
            r.containers_max == self.containers_max,
            r.low_cover_min == self.low_cover_min,
            r.low_cover_max == self.low_cover_max,
            r.wardrobe_allowed == self.wardrobe_allowed,
            r.external_exit == self.external_exit,
            r.locked_by.is_some() == self.locked_by.is_some(),
            r.locked_by matches Some(k) ==> k@ == self.locked_by.unwrap()@,
            r.service_access == self.service_access,
            r.circulation == self.circulation,
    {
        RoomTemplate {
            id: self.id.clone(),
            name: self.name.clone(),
            zone: self.zone,
            floors: self.floors.clone(),
            count_min: self.count_min,
            count_max: self.count_max,
            required: self.required,
            min_size: self.min_size,
            max_size: self.max_size,
            lighting: self.lighting,
            waypoints: self.waypoints.clone(),
            containers_min: self.containers_min,
            containers_max: self.containers_max,
            low_cover_min: self.low_cover_min,
            low_cover_max: self.low_cover_max,
            wardrobe_allowed: self.wardrobe_allowed,
            external_exit: self.external_exit,
            locked_by: clone_opt_string(&self.locked_by),
            service_access: self.service_access,
            circulation: self.circulation,
        }
    }
}

/// Population and behaviour parameters for one role.
#[derive(Clone, Debug)]
pub struct RoleSpec {
    pub role: Role,
    pub glyph: char,
    pub count_min: u8,
    pub count_max: u8,
    /// Waypoint kinds this role's generated routine draws from.
    pub waypoint_kinds: Vec<WaypointKind>,
    /// Turns spent waiting at each routine waypoint.
    pub wait_min: u16,
    pub wait_max: u16,
    /// Disguise obtainable from this actor's clothing, if any.
    pub disguise: Option<DisguiseId>,
    /// Armed actors fight lethally once combat starts.
    pub armed: bool,
}

/// Target-specific generation parameters.
#[derive(Clone, Debug)]
pub struct TargetSpec {
    pub glyph: char,
    /// Number of scheduled waypoints in the target's routine.
    pub schedule_min: u8,
    pub schedule_max: u8,
    /// Disguise obtainable from the target's clothing, if any.
    pub disguise: Option<DisguiseId>,
}

#[derive(Clone, Debug)]
pub struct PopulationData {
    pub roles: Vec<RoleSpec>,
    /// How many civilians are tagged VIP.
    pub vip_civilians_min: u8,
    pub vip_civilians_max: u8,
    pub target: TargetSpec,
    /// Turns one full pass of the target's schedule should take.
    pub cycle_turns_min: u16,
    pub cycle_turns_max: u16,
    /// How many beats of the cycle the target spends alone.
    pub private_beats_min: u8,
    pub private_beats_max: u8,
}

/// Given and family name pools for generated actors.
#[derive(Clone, Debug, Default)]
pub struct NamePools {
    pub first: Vec<String>,
    pub last: Vec<String>,
}

/// Briefing phrasing.
#[derive(Clone, Debug, Default)]
pub struct BriefingData {
    /// Generated target-elimination reasons; the seed picks one.
    pub reasons: Vec<String>,
}

/// Per-action durations in turns.
#[derive(Clone, Debug)]
pub struct ActionDurations {
    pub step: u16,
    /// A step while carrying a body.
    pub carry_step: u16,
    pub garrote: u16,
    pub shoot: u16,
    pub change_disguise: u16,
    pub carry_body: u16,
    pub drop_body: u16,
    pub hide_body: u16,
    pub pickpocket: u16,
    pub door: u16,
    pub draw_holster: u16,
    pub pick_lock: u16,
    pub throw: u16,
}

#[derive(Clone, Debug)]
pub struct Tuning {
    /// Exact visible player command queue capacity.
    pub queue_capacity: u16,
    /// Simulation turns resolved per cooperative batch.
    pub batch_turns: u16,
    pub pistol_rounds: u16,
    pub pistol_range: i16,
    pub gunshot_sound_radius: i16,
    pub player_max_hp: u16,
    pub guard_attack_damage: u16,
    /// NPC vision distance in tiles.
    pub vision_range: i16,
    /// Vision distance in dim rooms.
    pub vision_range_dim: i16,
    /// Cone ratio: a tile is inside the facing cone when
    /// `perp * cone_den <= along * cone_num`.
    pub cone_num: i32,
    pub cone_den: i32,
    /// Suspicion meter bounds and state thresholds.
    pub suspicion_max: u16,
    pub suspicion_suspicious_at: u16,
    pub suspicion_investigate_at: u16,
    /// Per-turn-seen suspicion gains by cause.
    pub gain_illegal_zone: u16,
    pub gain_crouching: u16,
    pub gain_disguise_recognised: u16,
    pub suspicion_decay: u16,
    /// Relaxed NPCs prepare an action every `relaxed_cadence` turns.
    pub relaxed_cadence: u16,
    /// Turns an investigator lingers at the spot they checked.
    pub investigate_linger: u16,
    /// Noisemaker throw distance and how far its crack carries.
    pub noisemaker_range: i16,
    pub noise_radius: i16,
    /// Suspicion per turn an NPC watches the player pick a lock.
    pub gain_tampering: u16,
    /// Mission heat weights and tier thresholds.
    pub heat_gunshot: u16,
    pub heat_violence: u16,
    pub heat_body_found: u16,
    pub heat_tier1: u16,
    pub heat_tier2: u16,
    /// Guards spawned at the entrance when heat reaches tier two.
    pub heat_reinforcements: u8,
    /// The most extra guards persistent district heat may add.
    pub heat_extra_guard_cap: u8,
    /// Tiles of the player's own field of view.
    pub player_vision_range: i16,
    pub durations: ActionDurations,
}

/// Campaign-layer tunables: districts, economy, heat persistence.
#[derive(Clone, Debug)]
pub struct CampaignData {
    pub districts: Vec<String>,
    pub starting_cash: i64,
    /// Equipment a fresh campaign owns from the start.
    pub starting_equipment: Vec<ItemSpecId>,
    pub arrest_fine: i64,
    pub payout_base: i64,
    pub payout_per_heat: i64,
    pub payout_constraint_bonus: i64,
    /// Mission heat at or above this raises the district's heat.
    pub hot_mission_threshold: u16,
    pub district_heat_max: u8,
    pub offers_per_batch: u8,
}

/// All authored data.
#[derive(Debug)]
pub struct GameData {
    pub tuning: Tuning,
    pub venues: Vec<VenueSpec>,
    pub disguises: Vec<DisguiseSpec>,
    pub items: Vec<ItemSpec>,
    pub equipment: Vec<EquipmentSpec>,
    pub opportunities: Vec<OpportunitySpec>,
    pub rooms: Vec<RoomTemplate>,
    pub population: PopulationData,
    pub names: NamePools,
    pub briefing: BriefingData,
    pub campaign: CampaignData,
}

/// A data authoring error: which file, and what is wrong.
#[derive(Clone, Debug, PartialEq, Eq)]
pub struct DataError {
    pub file: String,
    pub message: String,
}

impl DataError {
    /// The error as one line: `file: message`.
    pub fn text(&self) -> (r: String)
        ensures
            r@ == self.file@ + ": "@ + self.message@,
    {
        crate::text::cat3(self.file.as_str(), ": ", self.message.as_str())
    }
}

impl GameData {
    /// The first VenueSpec whose id is `id`.
    pub open spec fn spec_venue(&self, id: Seq<char>) -> Option<VenueSpec> {
        if exists|i: int| 0 <= i < self.venues@.len() && (#[trigger] self.venues@[i]).id@ == id {
            Some(
                self.venues@[choose|i: int|
                    0 <= i < self.venues@.len() && self.venues@[i].id@ == id && forall|j: int|
                        0 <= j < i ==> (#[trigger] self.venues@[j]).id@ != id],
            )
        } else {
            None
        }
    }

    pub fn venue(&self, id: &str) -> (r: Option<&VenueSpec>)
        ensures
            r.is_some() == self.spec_venue(id@).is_some(),
            r matches Some(v) ==> self.spec_venue(id@) == Some(*v),
    {
        let mut i: usize = 0;
        while i < self.venues.len()
            invariant
                0 <= i <= self.venues@.len(),
                forall|j: int| 0 <= j < i ==> (#[trigger] self.venues@[j]).id@ != id@,
            decreases self.venues@.len() - i,
        {
            if str_eq(self.venues[i].id.as_str(), id) {
                proof {
                    let k = choose|k: int|
                        0 <= k < self.venues@.len() && self.venues@[k].id@ == id@ && forall|j: int|
                            0 <= j < k ==> (#[trigger] self.venues@[j]).id@ != id@;
                    assert(self.venues@[i as int].id@ == id@);
                    if k > i {
                        assert(self.venues@[i as int].id@ != id@);
                    }
                }
                return Some(&self.venues[i]);
            }
            i = i + 1;
        }
        None
    }

    /// The first OpportunitySpec whose id is `id`.
    pub open spec fn spec_opportunity(&self, id: Seq<char>) -> Option<OpportunitySpec> {
        if exists|i: int| 0 <= i < self.opportunities@.len() && (#[trigger] self.opportunities@[i]).id@ == id {
            Some(
                self.opportunities@[choose|i: int|
                    0 <= i < self.opportunities@.len() && self.opportunities@[i].id@ == id && forall|j: int|
                        0 <= j < i ==> (#[trigger] self.opportunities@[j]).id@ != id],
            )
        } else {
            None
        }
    }

    pub fn opportunity(&self, id: &str) -> (r: Option<&OpportunitySpec>)
        ensures
            r.is_some() == self.spec_opportunity(id@).is_some(),
            r matches Some(v) ==> self.spec_opportunity(id@) == Some(*v),
    {
        let mut i: usize = 0;
        while i < self.opportunities.len()
            invariant
                0 <= i <= self.opportunities@.len(),
                forall|j: int| 0 <= j < i ==> (#[trigger] self.opportunities@[j]).id@ != id@,
            decreases self.opportunities@.len() - i,
        {
            if str_eq(self.opportunities[i].id.as_str(), id) {
                proof {
                    let k = choose|k: int|
                        0 <= k < self.opportunities@.len() && self.opportunities@[k].id@ == id@ && forall|j: int|
                            0 <= j < k ==> (#[trigger] self.opportunities@[j]).id@ != id@;
                    assert(self.opportunities@[i as int].id@ == id@);
                    if k > i {
                        assert(self.opportunities@[i as int].id@ != id@);
                    }
                }
                return Some(&self.opportunities[i]);
            }
            i = i + 1;
        }
        None
    }

    /// The first DisguiseSpec whose id is `id`.
    pub open spec fn spec_disguise(&self, id: Seq<char>) -> Option<DisguiseSpec> {
        if exists|i: int| 0 <= i < self.disguises@.len() && (#[trigger] self.disguises@[i]).id@ == id {
            Some(
                self.disguises@[choose|i: int|
                    0 <= i < self.disguises@.len() && self.disguises@[i].id@ == id && forall|j: int|
                        0 <= j < i ==> (#[trigger] self.disguises@[j]).id@ != id],
            )
        } else {
            None
        }
    }

    pub fn disguise(&self, id: &str) -> (r: Option<&DisguiseSpec>)
        ensures
            r.is_some() == self.spec_disguise(id@).is_some(),
            r matches Some(v) ==> self.spec_disguise(id@) == Some(*v),
    {
        let mut i: usize = 0;
        while i < self.disguises.len()
            invariant
                0 <= i <= self.disguises@.len(),
                forall|j: int| 0 <= j < i ==> (#[trigger] self.disguises@[j]).id@ != id@,
            decreases self.disguises@.len() - i,
        {
            if str_eq(self.disguises[i].id.as_str(), id) {
                proof {
                    let k = choose|k: int|
                        0 <= k < self.disguises@.len() && self.disguises@[k].id@ == id@ && forall|j: int|
                            0 <= j < k ==> (#[trigger] self.disguises@[j]).id@ != id@;
                    assert(self.disguises@[i as int].id@ == id@);
                    if k > i {
                        assert(self.disguises@[i as int].id@ != id@);
                    }
                }
                return Some(&self.disguises[i]);
            }
            i = i + 1;
        }
        None
    }

    /// The first ItemSpec whose id is `id`.
    pub open spec fn spec_item(&self, id: Seq<char>) -> Option<ItemSpec> {
        if exists|i: int| 0 <= i < self.items@.len() && (#[trigger] self.items@[i]).id@ == id {
            Some(
                self.items@[choose|i: int|
                    0 <= i < self.items@.len() && self.items@[i].id@ == id && forall|j: int|
                        0 <= j < i ==> (#[trigger] self.items@[j]).id@ != id],
            )
        } else {
            None
        }
    }

    pub fn item(&self, id: &str) -> (r: Option<&ItemSpec>)
        ensures
            r.is_some() == self.spec_item(id@).is_some(),
            r matches Some(v) ==> self.spec_item(id@) == Some(*v),
    {
        let mut i: usize = 0;
        while i < self.items.len()
            invariant
                0 <= i <= self.items@.len(),
                forall|j: int| 0 <= j < i ==> (#[trigger] self.items@[j]).id@ != id@,
            decreases self.items@.len() - i,
        {
            if str_eq(self.items[i].id.as_str(), id) {
                proof {
                    let k = choose|k: int|
                        0 <= k < self.items@.len() && self.items@[k].id@ == id@ && forall|j: int|
                            0 <= j < k ==> (#[trigger] self.items@[j]).id@ != id@;
                    assert(self.items@[i as int].id@ == id@);
                    if k > i {
                        assert(self.items@[i as int].id@ != id@);
                    }
                }
                return Some(&self.items[i]);
            }
            i = i + 1;
        }
        None
    }

    /// The first RoomTemplate whose id is `id`.
    pub open spec fn spec_room_template(&self, id: Seq<char>) -> Option<RoomTemplate> {
        if exists|i: int| 0 <= i < self.rooms@.len() && (#[trigger] self.rooms@[i]).id@ == id {
            Some(
                self.rooms@[choose|i: int|
                    0 <= i < self.rooms@.len() && self.rooms@[i].id@ == id && forall|j: int|
                        0 <= j < i ==> (#[trigger] self.rooms@[j]).id@ != id],
            )
        } else {
            None
        }
    }

    pub fn room_template(&self, id: &str) -> (r: Option<&RoomTemplate>)
        ensures
            r.is_some() == self.spec_room_template(id@).is_some(),
            r matches Some(v) ==> self.spec_room_template(id@) == Some(*v),
    {
        let mut i: usize = 0;
        while i < self.rooms.len()
            invariant
                0 <= i <= self.rooms@.len(),
                forall|j: int| 0 <= j < i ==> (#[trigger] self.rooms@[j]).id@ != id@,
            decreases self.rooms@.len() - i,
        {
            if str_eq(self.rooms[i].id.as_str(), id) {
                proof {
                    let k = choose|k: int|
                        0 <= k < self.rooms@.len() && self.rooms@[k].id@ == id@ && forall|j: int|
                            0 <= j < k ==> (#[trigger] self.rooms@[j]).id@ != id@;
                    assert(self.rooms@[i as int].id@ == id@);
                    if k > i {
                        assert(self.rooms@[i as int].id@ != id@);
                    }
                }
                return Some(&self.rooms[i]);
            }
            i = i + 1;
        }
        None
    }

    pub fn role_spec(&self, role: Role) -> (r: Option<&RoleSpec>)
        ensures
            match r {
                Some(v) => exists|i: int|
                    0 <= i < self.population.roles@.len() && self.population.roles@[i].role == role
                        && *v == self.population.roles@[i] && forall|j: int|
                        0 <= j < i ==> (#[trigger] self.population.roles@[j]).role != role,
                None => forall|i: int|
                    0 <= i < self.population.roles@.len() ==> (
                    #[trigger] self.population.roles@[i]).role != role,
            },
    {
        let mut i: usize = 0;
        while i < self.population.roles.len()
            invariant
                0 <= i <= self.population.roles@.len(),
                forall|j: int|
                    0 <= j < i ==> (#[trigger] self.population.roles@[j]).role != role,
            decreases self.population.roles@.len() - i,
        {
            if self.population.roles[i].role == role {
                return Some(&self.population.roles[i]);
            }
            i = i + 1;
        }
        None
    }
}

} // verus!
