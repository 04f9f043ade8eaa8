//! Cross-validation of a loaded data set.
//!
//! Each file parses on its own; these are the rules that span files (a
//! disguise naming a room template, a venue naming a role) and the
//! authored invariants the simulation relies on. Every problem found is
//! reported, in a fixed order, and the problems are joined into one
//! message.
use vstd::prelude::*;

use crate::data::{
    Approach, DataError, DisguiseSpec, EquipmentSpec, GameData, ItemSpec, OpportunityApproach,
    OpportunityEffect, OpportunitySpec, Role, RoleSpec, RoomTemplate, VenueSpec,
};
use crate::loc::{Catalogue, MISSING};
use crate::text::{
    cat3, cat4, cat5, decimal, join, join_strings, owned, push_msg, spec_decimal, str_eq, views,
};

verus! {

// ---------------------------------------------------------------------
// Lookups, named so that the rules below read as rules.
// ---------------------------------------------------------------------
/// The room template a reference names, if any.
#[verifier::opaque]
pub open spec fn room_of(d: &GameData, id: Seq<char>) -> Option<RoomTemplate> {
    d.spec_room_template(id)
}

/// The item spec a reference names, if any.
#[verifier::opaque]
pub open spec fn item_of(d: &GameData, id: Seq<char>) -> Option<ItemSpec> {
    d.spec_item(id)
}

/// Whether a disguise with this id exists.
#[verifier::opaque]
pub open spec fn disguise_known(d: &GameData, id: Seq<char>) -> bool {
    d.spec_disguise(id) is Some
}

/// The catalogue text for an id.
#[verifier::opaque]
pub open spec fn label(cat: &Catalogue, id: Seq<char>) -> Seq<char> {
    cat.spec_text(id)
}

/// One message when `cond` holds, none otherwise.
pub open spec fn msg_if(cond: bool, m: Seq<char>) -> Seq<Seq<char>> {
    if cond {
        seq![m]
    } else {
        Seq::empty()
    }
}

/// Whether two entries of `ids` coincide.
pub open spec fn has_repeats(ids: Seq<Seq<char>>) -> bool {
    exists|i: int, j: int| 0 <= i < j < ids.len() && ids[i] == ids[j]
}

// ---------------------------------------------------------------------
// References between files, and the pools.
// ---------------------------------------------------------------------
/// The ids of the disguises, in order.
pub open spec fn disguise_ids(d: &GameData) -> Seq<Seq<char>> {
    d.disguises@.map_values(|g: DisguiseSpec| g.id@)
}

/// What the first `m` extra rooms of disguise `g` report.
pub open spec fn extra_room_msgs(d: &GameData, g: DisguiseSpec, m: nat) -> Seq<Seq<char>>
    decreases m,
{
    if m == 0 {
        Seq::empty()
    } else {
        let prev = extra_room_msgs(d, g, (m - 1) as nat);
        let room = g.extra_rooms@[m - 1];
        if room_of(d, room@) is None {
            prev.push("disguise '"@ + g.id@ + "' grants access to unknown room '"@ + room@ + "'"@)
        } else {
            prev
        }
    }
}

/// What the first `n` disguises report of their extra rooms.
pub open spec fn disguise_room_msgs(d: &GameData, n: nat) -> Seq<Seq<char>>
    decreases n,
{
    if n == 0 {
        Seq::empty()
    } else {
        let g = d.disguises@[n - 1];
        disguise_room_msgs(d, (n - 1) as nat) + extra_room_msgs(d, g, g.extra_rooms@.len())
    }
}

/// What one item spec reports: rooms it unlocks or lies in that do not
/// exist.
pub open spec fn item_msgs(d: &GameData, it: ItemSpec) -> Seq<Seq<char>> {
    (match it.unlocks {
        Some(room) => msg_if(
            room_of(d, room@) is None,
            "item '"@ + it.id@ + "' unlocks unknown room '"@ + room@ + "'"@,
        ),
        None => Seq::empty(),
    }) + (match it.placed_in {
        Some(room) => msg_if(
            room_of(d, room@) is None,
            "item '"@ + it.id@ + "' placed in unknown room '"@ + room@ + "'"@,
        ),
        None => Seq::empty(),
    })
}

/// What the first `n` item specs report.
pub open spec fn items_msgs(d: &GameData, n: nat) -> Seq<Seq<char>>
    decreases n,
{
    if n == 0 {
        Seq::empty()
    } else {
        items_msgs(d, (n - 1) as nat) + item_msgs(d, d.items@[n - 1])
    }
}

/// What a room template's lock reports.
pub open spec fn lock_msgs(d: &GameData, r: RoomTemplate) -> Seq<Seq<char>> {
    match r.locked_by {
        None => Seq::empty(),
        Some(key) => match item_of(d, key@) {
            None => seq!["room '"@ + r.id@ + "' is locked by unknown item '"@ + key@ + "'"@],
            Some(it) => msg_if(
                !(it.unlocks matches Some(u) && u@ == r.id@),
                "room '"@ + r.id@ + "' is locked by '"@ + key@
                    + "' but that item does not unlock it"@,
            ),
        },
    }
}

/// What one room template reports.
pub open spec fn room_msgs(d: &GameData, r: RoomTemplate) -> Seq<Seq<char>> {
    msg_if(r.count_min > r.count_max, "room '"@ + r.id@ + "' has count_min > count_max"@)
        + msg_if(
        r.min_size.0 > r.max_size.0 || r.min_size.1 > r.max_size.1,
        "room '"@ + r.id@ + "' has min_size > max_size"@,
    ) + msg_if(r.floors@.len() == 0, "room '"@ + r.id@ + "' allows no floors"@) + lock_msgs(d, r)
}

/// What the first `n` room templates report.
pub open spec fn rooms_msgs(d: &GameData, n: nat) -> Seq<Seq<char>>
    decreases n,
{
    if n == 0 {
        Seq::empty()
    } else {
        rooms_msgs(d, (n - 1) as nat) + room_msgs(d, d.rooms@[n - 1])
    }
}

/// What one role spec reports.
pub open spec fn role_msgs(d: &GameData, cat: &Catalogue, rs: RoleSpec) -> Seq<Seq<char>> {
    let name = label(cat, rs.role.name_id());
    msg_if(rs.count_min > rs.count_max, "role '"@ + name + "' has count_min > count_max"@) + (
    match rs.disguise {
        Some(g) => msg_if(
            !disguise_known(d, g@),
            "role '"@ + name + "' yields unknown disguise '"@ + g@ + "'"@,
        ),
        None => Seq::empty(),
    })
}

/// What the first `n` role specs report.
pub open spec fn roles_msgs(d: &GameData, cat: &Catalogue, n: nat) -> Seq<Seq<char>>
    decreases n,
{
    if n == 0 {
        Seq::empty()
    } else {
        roles_msgs(d, cat, (n - 1) as nat) + role_msgs(d, cat, d.population.roles@[n - 1])
    }
}

/// What the target spec and the pools report.
pub open spec fn target_and_pool_msgs(d: &GameData) -> Seq<Seq<char>> {
    (match d.population.target.disguise {
        Some(g) => msg_if(!disguise_known(d, g@), "target yields unknown disguise '"@ + g@ + "'"@),
        None => Seq::empty(),
    }) + msg_if(
        d.names.first@.len() == 0 || d.names.last@.len() == 0,
        "name pools must not be empty"@,
    ) + msg_if(
        d.briefing.reasons@.len() == 0,
        "briefing must offer at least one elimination reason"@,
    )
}

/// The cross-references between disguises, items, rooms, roles, and the
/// target, then the pools.
pub open spec fn reference_msgs(d: &GameData, cat: &Catalogue) -> Seq<Seq<char>> {
    msg_if(has_repeats(disguise_ids(d)), "duplicate disguise ids"@) + disguise_room_msgs(
        d,
        d.disguises@.len(),
    ) + items_msgs(d, d.items@.len()) + rooms_msgs(d, d.rooms@.len()) + roles_msgs(
        d,
        cat,
        d.population.roles@.len(),
    ) + target_and_pool_msgs(d)
}

// ---------------------------------------------------------------------
// Display text that the catalogue did not supply.
// ---------------------------------------------------------------------
/// The report for a display field left at the catalogue's placeholder.
pub open spec fn missing(what: Seq<char>, id: Seq<char>, text: Seq<char>) -> Seq<Seq<char>> {
    msg_if(
        text == MISSING@,
        "no localised "@ + what + " for '"@ + id + "' in data/loc/strings.csv"@,
    )
}

pub open spec fn venue_text_msgs(v: VenueSpec) -> Seq<Seq<char>> {
    missing("venue name"@, v.id@, v.name@) + missing("invitation label"@, v.id@, v.invitation_label@)
        + missing("zone label"@, v.id@, v.zone_labels.public@) + missing(
        "zone label"@,
        v.id@,
        v.zone_labels.secure@,
    ) + missing("zone label"@, v.id@, v.zone_labels.staff@) + missing(
        "zone label"@,
        v.id@,
        v.zone_labels.personal@,
    )
}

pub open spec fn venues_text_msgs(d: &GameData, n: nat) -> Seq<Seq<char>>
    decreases n,
{
    if n == 0 {
        Seq::empty()
    } else {
        venues_text_msgs(d, (n - 1) as nat) + venue_text_msgs(d.venues@[n - 1])
    }
}

pub open spec fn disguises_text_msgs(d: &GameData, n: nat) -> Seq<Seq<char>>
    decreases n,
{
    if n == 0 {
        Seq::empty()
    } else {
        let g = d.disguises@[n - 1];
        disguises_text_msgs(d, (n - 1) as nat) + missing("disguise name"@, g.id@, g.name@)
    }
}

pub open spec fn items_text_msgs(d: &GameData, n: nat) -> Seq<Seq<char>>
    decreases n,
{
    if n == 0 {
        Seq::empty()
    } else {
        let it = d.items@[n - 1];
        items_text_msgs(d, (n - 1) as nat) + missing("item name"@, it.id@, it.name@)
    }
}

pub open spec fn opportunity_text_msgs(o: OpportunitySpec) -> Seq<Seq<char>> {
    missing("opportunity name"@, o.id@, o.name@) + missing("opportunity risk"@, o.id@, o.risk@)
        + missing("opportunity presentation"@, o.id@, o.presentation@)
}

pub open spec fn opportunities_text_msgs(d: &GameData, n: nat) -> Seq<Seq<char>>
    decreases n,
{
    if n == 0 {
        Seq::empty()
    } else {
        opportunities_text_msgs(d, (n - 1) as nat) + opportunity_text_msgs(d.opportunities@[n - 1])
    }
}

pub open spec fn rooms_text_msgs(d: &GameData, n: nat) -> Seq<Seq<char>>
    decreases n,
{
    if n == 0 {
        Seq::empty()
    } else {
        let r = d.rooms@[n - 1];
        rooms_text_msgs(d, (n - 1) as nat) + missing("room name"@, r.id@, r.name@)
    }
}

/// Every display field that kept the catalogue's placeholder.
pub open spec fn text_msgs(d: &GameData) -> Seq<Seq<char>> {
    venues_text_msgs(d, d.venues@.len()) + disguises_text_msgs(d, d.disguises@.len())
        + items_text_msgs(d, d.items@.len()) + opportunities_text_msgs(
        d,
        d.opportunities@.len(),
    ) + rooms_text_msgs(d, d.rooms@.len())
}

// ---------------------------------------------------------------------
// Tuning and the equipment catalogue.
// ---------------------------------------------------------------------
pub open spec fn tuning_msgs(d: &GameData) -> Seq<Seq<char>> {
    msg_if(d.tuning.queue_capacity == 0, "queue_capacity must be positive"@) + msg_if(
        d.tuning.cone_den <= 0 || d.tuning.cone_num <= 0,
        "cone ratio must be positive"@,
    )
}

/// What one equipment entry reports.
pub open spec fn equipment_msgs(d: &GameData, e: EquipmentSpec) -> Seq<Seq<char>> {
    (match item_of(d, e.item@) {
        None => seq!["equipment references unknown item '"@ + e.item@ + "'"@],
        Some(s) => msg_if(!s.purchasable, "equipment item '"@ + e.item@ + "' must be purchasable"@),
    }) + msg_if(e.price <= 0, "equipment '"@ + e.item@ + "' must cost something"@)
}

pub open spec fn equipments_msgs(d: &GameData, n: nat) -> Seq<Seq<char>>
    decreases n,
{
    if n == 0 {
        Seq::empty()
    } else {
        equipments_msgs(d, (n - 1) as nat) + equipment_msgs(d, d.equipment@[n - 1])
    }
}

/// How many entries serve approach `a`.
pub open spec fn count_approach(s: Seq<EquipmentSpec>, a: Approach) -> nat
    decreases s.len(),
{
    if s.len() == 0 {
        0
    } else {
        count_approach(s.drop_last(), a) + if s.last().approach == a {
            1nat
        } else {
            0nat
        }
    }
}

/// The report when approach `a` does not have exactly two choices.
pub open spec fn approach_msgs(d: &GameData, cat: &Catalogue, a: Approach) -> Seq<Seq<char>> {
    let c = count_approach(d.equipment@, a);
    msg_if(
        c != 2,
        "equipment catalogue needs exactly two "@ + label(cat, a.name_id()) + " choices, found "@
            + spec_decimal(c),
    )
}

pub open spec fn pistol_msgs(d: &GameData) -> Seq<Seq<char>> {
    match item_of(d, "silenced-pistol"@) {
        Some(p) => msg_if(
            p.charges != d.tuning.pistol_rounds,
            "silenced pistol charges must match tuning pistol_rounds"@,
        ),
        None => Seq::empty(),
    }
}

/// Tuning, the equipment entries, the approach counts, and the pistol.
pub open spec fn equipment_section(d: &GameData, cat: &Catalogue) -> Seq<Seq<char>> {
    tuning_msgs(d) + equipments_msgs(d, d.equipment@.len()) + approach_msgs(
        d,
        cat,
        Approach::Physical,
    ) + approach_msgs(d, cat, Approach::Social) + approach_msgs(d, cat, Approach::Violence)
        + pistol_msgs(d)
}

// ---------------------------------------------------------------------
// Opportunities.
// ---------------------------------------------------------------------
/// How many opportunities serve approach `a`.
pub open spec fn count_posture(s: Seq<OpportunitySpec>, a: OpportunityApproach) -> nat
    decreases s.len(),
{
    if s.len() == 0 {
        0
    } else {
        count_posture(s.drop_last(), a) + if s.last().approach == a {
            1nat
        } else {
            0nat
        }
    }
}

/// Exactly five: one physical, one social, one violence, two universal.
pub open spec fn opportunity_mix_ok(d: &GameData) -> bool {
    let s = d.opportunities@;
    &&& s.len() == 5
    &&& count_posture(s, OpportunityApproach::Physical) == 1
    &&& count_posture(s, OpportunityApproach::Social) == 1
    &&& count_posture(s, OpportunityApproach::Violence) == 1
    &&& count_posture(s, OpportunityApproach::Universal) == 2
}

pub open spec fn effect_msgs(d: &GameData, o: OpportunitySpec) -> Seq<Seq<char>> {
    match o.effect {
        OpportunityEffect::StockWardrobe { disguise } => msg_if(
            !disguise_known(d, disguise@),
            "opportunity '"@ + o.id@ + "' stocks unknown disguise '"@ + disguise@ + "'"@,
        ),
        OpportunityEffect::PlaceKey { item } => msg_if(
            item_of(d, item@) is None,
            "opportunity '"@ + o.id@ + "' places unknown item '"@ + item@ + "'"@,
        ),
        _ => Seq::empty(),
    }
}

pub open spec fn opportunity_msgs(d: &GameData, o: OpportunitySpec) -> Seq<Seq<char>> {
    msg_if(o.zones@.len() == 0, "opportunity '"@ + o.id@ + "' allows no zones"@) + msg_if(
        o.interact_turns == 0,
        "opportunity '"@ + o.id@ + "' must take time"@,
    ) + effect_msgs(d, o)
}

pub open spec fn opportunities_msgs(d: &GameData, n: nat) -> Seq<Seq<char>>
    decreases n,
{
    if n == 0 {
        Seq::empty()
    } else {
        opportunities_msgs(d, (n - 1) as nat) + opportunity_msgs(d, d.opportunities@[n - 1])
    }
}

pub open spec fn opportunity_section(d: &GameData) -> Seq<Seq<char>> {
    msg_if(
        !opportunity_mix_ok(d),
        "opportunities must be exactly five: one physical, one social, one violence, two universal"@,
    ) + opportunities_msgs(d, d.opportunities@.len())
}

// ---------------------------------------------------------------------
// The campaign.
// ---------------------------------------------------------------------
pub open spec fn start_msgs(d: &GameData, item: Seq<char>) -> Seq<Seq<char>> {
    match item_of(d, item) {
        None => seq!["starting equipment '"@ + item + "' is unknown"@],
        Some(s) => msg_if(!s.purchasable, "starting equipment '"@ + item + "' must be purchasable"@),
    }
}

pub open spec fn starts_msgs(d: &GameData, n: nat) -> Seq<Seq<char>>
    decreases n,
{
    if n == 0 {
        Seq::empty()
    } else {
        starts_msgs(d, (n - 1) as nat) + start_msgs(d, d.campaign.starting_equipment@[n - 1]@)
    }
}

pub open spec fn campaign_section(d: &GameData) -> Seq<Seq<char>> {
    msg_if(d.campaign.districts@.len() == 0, "campaign needs at least one district"@) + msg_if(
        d.campaign.offers_per_batch == 0,
        "campaign must offer at least one contract"@,
    ) + starts_msgs(d, d.campaign.starting_equipment@.len()) + msg_if(
        d.campaign.starting_cash < 0 || d.campaign.arrest_fine < 0,
        "campaign cash values must be non-negative"@,
    )
}

// ---------------------------------------------------------------------
// Venues.
// ---------------------------------------------------------------------
/// The ids of the venues, in order.
pub open spec fn venue_ids(d: &GameData) -> Seq<Seq<char>> {
    d.venues@.map_values(|v: VenueSpec| v.id@)
}

/// What the first `m` role overrides of venue `v` report.
pub open spec fn override_msgs(cat: &Catalogue, v: VenueSpec, m: nat) -> Seq<Seq<char>>
    decreases m,
{
    if m == 0 {
        Seq::empty()
    } else {
        let prev = override_msgs(cat, v, (m - 1) as nat);
        let o = v.role_counts@[m - 1];
        if o.count_min > o.count_max {
            prev.push(
                "venue '"@ + v.id@ + "' role override for "@ + label(cat, o.role.name_id())
                    + " has min > max"@,
            )
        } else {
            prev
        }
    }
}

/// What the first `m` storeys of a template placed by venue `v` report.
pub open spec fn floor_msgs(v: VenueSpec, t: Seq<char>, floors: Seq<u8>, m: nat) -> Seq<Seq<char>>
    decreases m,
{
    if m == 0 {
        Seq::empty()
    } else {
        let prev = floor_msgs(v, t, floors, (m - 1) as nat);
        let f = floors[m - 1];
        if f >= v.floor_count {
            prev.push(
                "venue '"@ + v.id@ + "' places room '"@ + t + "' on floor "@ + spec_decimal(
                    f as nat,
                ) + " but has "@ + spec_decimal(v.floor_count as nat) + " floors"@,
            )
        } else {
            prev
        }
    }
}

/// What the first `m` room templates named by venue `v` report.
pub open spec fn template_msgs(d: &GameData, v: VenueSpec, m: nat) -> Seq<Seq<char>>
    decreases m,
{
    if m == 0 {
        Seq::empty()
    } else {
        let t = v.room_templates@[m - 1];
        template_msgs(d, v, (m - 1) as nat) + match room_of(d, t@) {
            None => seq!["venue '"@ + v.id@ + "' references unknown room '"@ + t@ + "'"@],
            Some(tpl) => floor_msgs(v, t@, tpl.floors@, tpl.floors@.len()),
        }
    }
}

/// Whether a looked-up template is a required room with an external exit.
pub open spec fn required_exit(t: Option<RoomTemplate>) -> bool {
    t matches Some(tpl) && tpl.required && tpl.external_exit
}

/// Whether one of the first `m` templates of `v` is a required room with
/// an external exit.
pub open spec fn exit_among(d: &GameData, v: VenueSpec, m: int) -> bool {
    exists|k: int| 0 <= k < m && required_exit(#[trigger] room_of(d, v.room_templates@[k]@))
}

/// What one venue reports.
pub open spec fn venue_msgs(d: &GameData, cat: &Catalogue, v: VenueSpec) -> Seq<Seq<char>> {
    msg_if(
        v.floor_width == 0 || v.floor_height == 0 || v.floor_count == 0,
        "venue '"@ + v.id@ + "' has a degenerate footprint"@,
    ) + msg_if(
        v.floor_count > 4,
        "venue '"@ + v.id@ + "' has "@ + spec_decimal(v.floor_count as nat)
            + " storeys; four is the ceiling"@,
    ) + msg_if(v.room_templates@.len() == 0, "venue '"@ + v.id@ + "' places no rooms"@)
        + override_msgs(cat, v, v.role_counts@.len()) + template_msgs(
        d,
        v,
        v.room_templates@.len(),
    ) + msg_if(
        !exit_among(d, v, v.room_templates@.len() as int),
        "venue '"@ + v.id@ + "' needs a required external-exit room"@,
    )
}

pub open spec fn venues_msgs(d: &GameData, cat: &Catalogue, n: nat) -> Seq<Seq<char>>
    decreases n,
{
    if n == 0 {
        Seq::empty()
    } else {
        venues_msgs(d, cat, (n - 1) as nat) + venue_msgs(d, cat, d.venues@[n - 1])
    }
}

pub open spec fn venue_section(d: &GameData, cat: &Catalogue) -> Seq<Seq<char>> {
    msg_if(d.venues@.len() == 0, "at least one venue must be defined"@) + msg_if(
        has_repeats(venue_ids(d)),
        "duplicate venue ids"@,
    ) + venues_msgs(d, cat, d.venues@.len())
}

/// Every problem a data set has, in the order the rules are checked.
pub open spec fn problems(d: &GameData, cat: &Catalogue) -> Seq<Seq<char>> {
    reference_msgs(d, cat) + text_msgs(d) + equipment_section(d, cat) + opportunity_section(d)
        + campaign_section(d) + venue_section(d, cat)
}


// ---------------------------------------------------------------------
// Building the report.
// ---------------------------------------------------------------------
/// Appends one message.
fn push_one(out: &mut Vec<String>, m: String)
    ensures
        views(final(out)@) == views(old(out)@) + seq![m@],
{
    let ghost mv = m@;
    let ghost before = views(out@);
    push_msg(out, m);
    assert(before.push(mv) =~= before + seq![mv]);
}

/// Appends `m` when `cond` holds.
fn add_if(out: &mut Vec<String>, cond: bool, m: String)
    ensures
        views(final(out)@) == views(old(out)@) + msg_if(cond, m@),
{
    let ghost before = views(out@);
    if cond {
        push_one(out, m);
    } else {
        assert(before + msg_if(cond, m@) =~= before);
    }
}

/// Appends a list of messages.
fn append_msgs(out: &mut Vec<String>, more: Vec<String>)
    ensures
        views(final(out)@) == views(old(out)@) + views(more@),
{
    let ghost a = out@;
    let ghost b = more@;
    let mut more = more;
    out.append(&mut more);
    assert(views(a + b) =~= views(a) + views(b));
}

/// Whether two entries of `ids` coincide.
fn repeats(ids: &Vec<String>) -> (r: bool)
    ensures
        r == has_repeats(views(ids@)),
{
    let ghost v = views(ids@);
    let mut j: usize = 0;
    while j < ids.len()
        invariant
            0 <= j <= ids@.len(),
            v == views(ids@),
            forall|a: int, b: int| 0 <= a < b < j ==> v[a] != v[b],
        decreases ids@.len() - j,
    {
        let mut i: usize = 0;
        while i < j
            invariant
                0 <= i <= j < ids@.len(),
                v == views(ids@),
                forall|a: int, b: int| 0 <= a < b < j ==> v[a] != v[b],
                forall|a: int| 0 <= a < i ==> v[a] != v[j as int],
            decreases j - i,
        {
            if str_eq(ids[i].as_str(), ids[j].as_str()) {
                assert(v[i as int] == v[j as int]);
                return true;
            }
            i = i + 1;
        }
        j = j + 1;
    }
    false
}

/// A role's display name.
fn role_label(cat: &Catalogue, role: Role) -> (r: String)
    ensures
        r@ == label(cat, role.name_id()),
{
    proof {
        reveal(label);
    }
    role.name(cat)
}

/// An approach's display name.
fn approach_label(cat: &Catalogue, a: Approach) -> (r: String)
    ensures
        r@ == label(cat, a.name_id()),
{
    proof {
        reveal(label);
    }
    a.name(cat)
}

impl GameData {
    fn find_room(&self, id: &str) -> (r: Option<&RoomTemplate>)
        ensures
            match r {
                Some(t) => room_of(self, id@) == Some(*t),
                None => room_of(self, id@) is None,
            },
    {
        proof {
            reveal(room_of);
        }
        self.room_template(id)
    }

    fn find_item(&self, id: &str) -> (r: Option<&ItemSpec>)
        ensures
            match r {
                Some(t) => item_of(self, id@) == Some(*t),
                None => item_of(self, id@) is None,
            },
    {
        proof {
            reveal(item_of);
        }
        self.item(id)
    }

    fn knows_disguise(&self, id: &str) -> (r: bool)
        ensures
            r == disguise_known(self, id@),
    {
        proof {
            reveal(disguise_known);
        }
        self.disguise(id).is_some()
    }

    fn extra_room_problems(&self, g: &DisguiseSpec) -> (out: Vec<String>)
        ensures
            views(out@) == extra_room_msgs(self, *g, g.extra_rooms@.len()),
    {
        let mut out: Vec<String> = Vec::new();
        let mut m: usize = 0;
        while m < g.extra_rooms.len()
            invariant
                0 <= m <= g.extra_rooms@.len(),
                views(out@) == extra_room_msgs(self, *g, m as nat),
            decreases g.extra_rooms@.len() - m,
        {
            let room = &g.extra_rooms[m];
            if self.find_room(room.as_str()).is_none() {
                push_msg(
                    &mut out,
                    cat5("disguise '", g.id.as_str(), "' grants access to unknown room '", room.as_str(), "'"),
                );
            }
            m = m + 1;
        }
        out
    }

    fn item_problems(&self, it: &ItemSpec) -> (out: Vec<String>)
        ensures
            views(out@) == item_msgs(self, *it),
    {
        let mut out: Vec<String> = Vec::new();
        match &it.unlocks {
            Some(room) => add_if(
                &mut out,
                self.find_room(room.as_str()).is_none(),
                cat5("item '", it.id.as_str(), "' unlocks unknown room '", room.as_str(), "'"),
            ),
            None => {},
        }
        let ghost first = views(out@);
        match &it.placed_in {
            Some(room) => add_if(
                &mut out,
                self.find_room(room.as_str()).is_none(),
                cat5("item '", it.id.as_str(), "' placed in unknown room '", room.as_str(), "'"),
            ),
            None => {},
        }
        assert(views(out@) =~= item_msgs(self, *it));
        out
    }

    fn room_problems(&self, r: &RoomTemplate) -> (out: Vec<String>)
        ensures
            views(out@) == room_msgs(self, *r),
    {
        let mut out: Vec<String> = Vec::new();
        add_if(
            &mut out,
            r.count_min > r.count_max,
            cat3("room '", r.id.as_str(), "' has count_min > count_max"),
        );
        add_if(
            &mut out,
            r.min_size.0 > r.max_size.0 || r.min_size.1 > r.max_size.1,
            cat3("room '", r.id.as_str(), "' has min_size > max_size"),
        );
        add_if(&mut out, r.floors.len() == 0, cat3("room '", r.id.as_str(), "' allows no floors"));
        let ghost head = views(out@);
        match &r.locked_by {
            Some(key) => match self.find_item(key.as_str()) {
                None => push_one(
                    &mut out,
                    cat5("room '", r.id.as_str(), "' is locked by unknown item '", key.as_str(), "'"),
                ),
                Some(it) => {
                    let unlocks_it = match &it.unlocks {
                        Some(u) => str_eq(u.as_str(), r.id.as_str()),
                        None => false,
                    };
                    add_if(
                        &mut out,
                        !unlocks_it,
                        cat5(
                            "room '",
                            r.id.as_str(),
                            "' is locked by '",
                            key.as_str(),
                            "' but that item does not unlock it",
                        ),
                    );
                },
            },
            None => {},
        }
        assert(views(out@) =~= room_msgs(self, *r));
        out
    }

    fn role_problems(&self, cat: &Catalogue, rs: &RoleSpec) -> (out: Vec<String>)
        ensures
            views(out@) == role_msgs(self, cat, *rs),
    {
        let name = role_label(cat, rs.role);
        let mut out: Vec<String> = Vec::new();
        add_if(
            &mut out,
            rs.count_min > rs.count_max,
            cat3("role '", name.as_str(), "' has count_min > count_max"),
        );
        match &rs.disguise {
            Some(g) => add_if(
                &mut out,
                !self.knows_disguise(g.as_str()),
                cat5("role '", name.as_str(), "' yields unknown disguise '", g.as_str(), "'"),
            ),
            None => {},
        }
        assert(views(out@) =~= role_msgs(self, cat, *rs));
        out
    }

    fn reference_problems(&self, cat: &Catalogue) -> (out: Vec<String>)
        ensures
            views(out@) == reference_msgs(self, cat),
    {
        let mut out: Vec<String> = Vec::new();
        // Duplicate disguise ids.
        let mut ids: Vec<String> = Vec::new();
        let mut i: usize = 0;
        while i < self.disguises.len()
            invariant
                0 <= i <= self.disguises@.len(),
                ids@.len() == i,
                forall|k: int| 0 <= k < i ==> (#[trigger] ids@[k])@ == self.disguises@[k].id@,
            decreases self.disguises@.len() - i,
        {
            ids.push(self.disguises[i].id.clone());
            i = i + 1;
        }
        assert(views(ids@) =~= disguise_ids(self));
        add_if(&mut out, repeats(&ids), owned("duplicate disguise ids"));
        let ghost s1 = views(out@);
        // Rooms granted by disguises.
        let mut rooms: Vec<String> = Vec::new();
        let mut k: usize = 0;
        while k < self.disguises.len()
            invariant
                0 <= k <= self.disguises@.len(),
                views(rooms@) == disguise_room_msgs(self, k as nat),
            decreases self.disguises@.len() - k,
        {
            append_msgs(&mut rooms, self.extra_room_problems(&self.disguises[k]));
            k = k + 1;
        }
        append_msgs(&mut out, rooms);
        // Items.
        let mut items: Vec<String> = Vec::new();
        let mut k: usize = 0;
        while k < self.items.len()
            invariant
                0 <= k <= self.items@.len(),
                views(items@) == items_msgs(self, k as nat),
            decreases self.items@.len() - k,
        {
            append_msgs(&mut items, self.item_problems(&self.items[k]));
            k = k + 1;
        }
        append_msgs(&mut out, items);
        // Room templates.
        let mut templates: Vec<String> = Vec::new();
        let mut k: usize = 0;
        while k < self.rooms.len()
            invariant
                0 <= k <= self.rooms@.len(),
                views(templates@) == rooms_msgs(self, k as nat),
            decreases self.rooms@.len() - k,
        {
            append_msgs(&mut templates, self.room_problems(&self.rooms[k]));
            k = k + 1;
        }
        append_msgs(&mut out, templates);
        // Roles.
        let mut roles: Vec<String> = Vec::new();
        let mut k: usize = 0;
        while k < self.population.roles.len()
            invariant
                0 <= k <= self.population.roles@.len(),
                views(roles@) == roles_msgs(self, cat, k as nat),
            decreases self.population.roles@.len() - k,
        {
            append_msgs(&mut roles, self.role_problems(cat, &self.population.roles[k]));
            k = k + 1;
        }
        append_msgs(&mut out, roles);
        // The target and the pools.
        let ghost s2 = views(out@);
        match &self.population.target.disguise {
            Some(g) => add_if(
                &mut out,
                !self.knows_disguise(g.as_str()),
                cat3("target yields unknown disguise '", g.as_str(), "'"),
            ),
            None => {},
        }
        add_if(
            &mut out,
            self.names.first.len() == 0 || self.names.last.len() == 0,
            owned("name pools must not be empty"),
        );
        add_if(
            &mut out,
            self.briefing.reasons.len() == 0,
            owned("briefing must offer at least one elimination reason"),
        );
        assert(views(out@) =~= reference_msgs(self, cat));
        out
    }

    fn venue_text_problems(v: &VenueSpec) -> (out: Vec<String>)
        ensures
            views(out@) == venue_text_msgs(*v),
    {
        let mut out: Vec<String> = Vec::new();
        note_missing(&mut out, "venue name", v.id.as_str(), v.name.as_str());
        note_missing(&mut out, "invitation label", v.id.as_str(), v.invitation_label.as_str());
        note_missing(&mut out, "zone label", v.id.as_str(), v.zone_labels.public.as_str());
        note_missing(&mut out, "zone label", v.id.as_str(), v.zone_labels.secure.as_str());
        note_missing(&mut out, "zone label", v.id.as_str(), v.zone_labels.staff.as_str());
        note_missing(&mut out, "zone label", v.id.as_str(), v.zone_labels.personal.as_str());
        assert(views(out@) =~= venue_text_msgs(*v));
        out
    }

    fn opportunity_text_problems(o: &OpportunitySpec) -> (out: Vec<String>)
        ensures
            views(out@) == opportunity_text_msgs(*o),
    {
        let mut out: Vec<String> = Vec::new();
        note_missing(&mut out, "opportunity name", o.id.as_str(), o.name.as_str());
        note_missing(&mut out, "opportunity risk", o.id.as_str(), o.risk.as_str());
        note_missing(&mut out, "opportunity presentation", o.id.as_str(), o.presentation.as_str());
        assert(views(out@) =~= opportunity_text_msgs(*o));
        out
    }

    fn text_problems(&self) -> (out: Vec<String>)
        ensures
            views(out@) == text_msgs(self),
    {
        let mut venues: Vec<String> = Vec::new();
        let mut k: usize = 0;
        while k < self.venues.len()
            invariant
                0 <= k <= self.venues@.len(),
                views(venues@) == venues_text_msgs(self, k as nat),
            decreases self.venues@.len() - k,
        {
            append_msgs(&mut venues, GameData::venue_text_problems(&self.venues[k]));
            k = k + 1;
        }
        let mut disguises: Vec<String> = Vec::new();
        let mut k: usize = 0;
        while k < self.disguises.len()
            invariant
                0 <= k <= self.disguises@.len(),
                views(disguises@) == disguises_text_msgs(self, k as nat),
            decreases self.disguises@.len() - k,
        {
            let g = &self.disguises[k];
            note_missing(&mut disguises, "disguise name", g.id.as_str(), g.name.as_str());
            k = k + 1;
        }
        let mut items: Vec<String> = Vec::new();
        let mut k: usize = 0;
        while k < self.items.len()
            invariant
                0 <= k <= self.items@.len(),
                views(items@) == items_text_msgs(self, k as nat),
            decreases self.items@.len() - k,
        {
            let it = &self.items[k];
            note_missing(&mut items, "item name", it.id.as_str(), it.name.as_str());
            k = k + 1;
        }
        let mut opportunities: Vec<String> = Vec::new();
        let mut k: usize = 0;
        while k < self.opportunities.len()
            invariant
                0 <= k <= self.opportunities@.len(),
                views(opportunities@) == opportunities_text_msgs(self, k as nat),
            decreases self.opportunities@.len() - k,
        {
            append_msgs(
                &mut opportunities,
                GameData::opportunity_text_problems(&self.opportunities[k]),
            );
            k = k + 1;
        }
        let mut rooms: Vec<String> = Vec::new();
        let mut k: usize = 0;
        while k < self.rooms.len()
            invariant
                0 <= k <= self.rooms@.len(),
                views(rooms@) == rooms_text_msgs(self, k as nat),
            decreases self.rooms@.len() - k,
        {
            let r = &self.rooms[k];
            note_missing(&mut rooms, "room name", r.id.as_str(), r.name.as_str());
            k = k + 1;
        }
        let mut out = venues;
        append_msgs(&mut out, disguises);
        append_msgs(&mut out, items);
        append_msgs(&mut out, opportunities);
        append_msgs(&mut out, rooms);
        out
    }

    fn equipment_problems(&self, e: &EquipmentSpec) -> (out: Vec<String>)
        ensures
            views(out@) == equipment_msgs(self, *e),
    {
        let mut out: Vec<String> = Vec::new();
        match self.find_item(e.item.as_str()) {
            None => push_one(&mut out, cat3("equipment references unknown item '", e.item.as_str(), "'")),
            Some(spec) => add_if(
                &mut out,
                !spec.purchasable,
                cat3("equipment item '", e.item.as_str(), "' must be purchasable"),
            ),
        }
        add_if(&mut out, e.price <= 0, cat3("equipment '", e.item.as_str(), "' must cost something"));
        assert(views(out@) =~= equipment_msgs(self, *e));
        out
    }

    fn count_of_approach(&self, a: Approach) -> (r: usize)
        ensures
            r == count_approach(self.equipment@, a),
    {
        let mut c: usize = 0;
        let mut k: usize = 0;
        while k < self.equipment.len()
            invariant
                0 <= k <= self.equipment@.len(),
                c == count_approach(self.equipment@.subrange(0, k as int), a),
                c <= k,
            decreases self.equipment@.len() - k,
        {
            assert(self.equipment@.subrange(0, k as int + 1).drop_last() == self.equipment@.subrange(0, k as int));
            if self.equipment[k].approach == a {
                c = c + 1;
            }
            k = k + 1;
        }
        assert(self.equipment@.subrange(0, self.equipment@.len() as int) == self.equipment@);
        c
    }

    fn approach_problems(&self, cat: &Catalogue, a: Approach) -> (out: Vec<String>)
        ensures
            views(out@) == approach_msgs(self, cat, a),
    {
        let count = self.count_of_approach(a);
        let mut out: Vec<String> = Vec::new();
        if count != 2 {
            let name = approach_label(cat, a);
            let found = decimal(count as u64);
            push_one(
                &mut out,
                cat4("equipment catalogue needs exactly two ", name.as_str(), " choices, found ", found.as_str()),
            );
        }
        assert(views(out@) =~= approach_msgs(self, cat, a));
        out
    }

    fn equipment_section_problems(&self, cat: &Catalogue) -> (out: Vec<String>)
        ensures
            views(out@) == equipment_section(self, cat),
    {
        let mut out: Vec<String> = Vec::new();
        add_if(&mut out, self.tuning.queue_capacity == 0, owned("queue_capacity must be positive"));
        add_if(
            &mut out,
            self.tuning.cone_den <= 0 || self.tuning.cone_num <= 0,
            owned("cone ratio must be positive"),
        );
        let ghost s1 = views(out@);
        let mut entries: Vec<String> = Vec::new();
        let mut k: usize = 0;
        while k < self.equipment.len()
            invariant
                0 <= k <= self.equipment@.len(),
                views(entries@) == equipments_msgs(self, k as nat),
            decreases self.equipment@.len() - k,
        {
            append_msgs(&mut entries, self.equipment_problems(&self.equipment[k]));
            k = k + 1;
        }
        append_msgs(&mut out, entries);
        append_msgs(&mut out, self.approach_problems(cat, Approach::Physical));
        append_msgs(&mut out, self.approach_problems(cat, Approach::Social));
        append_msgs(&mut out, self.approach_problems(cat, Approach::Violence));
        let ghost s2 = views(out@);
        proof {
            reveal_strlit("silenced-pistol");
        }
        match self.find_item("silenced-pistol") {
            Some(pistol) => add_if(
                &mut out,
                pistol.charges != self.tuning.pistol_rounds,
                owned("silenced pistol charges must match tuning pistol_rounds"),
            ),
            None => {},
        }
        assert(views(out@) =~= equipment_section(self, cat));
        out
    }

    fn count_of_posture(&self, a: OpportunityApproach) -> (r: usize)
        ensures
            r == count_posture(self.opportunities@, a),
    {
        let mut c: usize = 0;
        let mut k: usize = 0;
        while k < self.opportunities.len()
            invariant
                0 <= k <= self.opportunities@.len(),
                c == count_posture(self.opportunities@.subrange(0, k as int), a),
                c <= k,
            decreases self.opportunities@.len() - k,
        {
            assert(self.opportunities@.subrange(0, k as int + 1).drop_last()
                == self.opportunities@.subrange(0, k as int));
            if self.opportunities[k].approach == a {
                c = c + 1;
            }
            k = k + 1;
        }
        assert(self.opportunities@.subrange(0, self.opportunities@.len() as int) == self.opportunities@);
        c
    }

    fn opportunity_problems(&self, o: &OpportunitySpec) -> (out: Vec<String>)
        ensures
            views(out@) == opportunity_msgs(self, *o),
    {
        let mut out: Vec<String> = Vec::new();
        add_if(&mut out, o.zones.len() == 0, cat3("opportunity '", o.id.as_str(), "' allows no zones"));
        add_if(&mut out, o.interact_turns == 0, cat3("opportunity '", o.id.as_str(), "' must take time"));
        let ghost head = views(out@);
        match &o.effect {
            OpportunityEffect::StockWardrobe { disguise } => add_if(
                &mut out,
                !self.knows_disguise(disguise.as_str()),
                cat5("opportunity '", o.id.as_str(), "' stocks unknown disguise '", disguise.as_str(), "'"),
            ),
            OpportunityEffect::PlaceKey { item } => add_if(
                &mut out,
                self.find_item(item.as_str()).is_none(),
                cat5("opportunity '", o.id.as_str(), "' places unknown item '", item.as_str(), "'"),
            ),
            _ => {},
        }
        assert(views(out@) =~= opportunity_msgs(self, *o));
        out
    }

    fn opportunity_section_problems(&self) -> (out: Vec<String>)
        ensures
            views(out@) == opportunity_section(self),
    {
        let mix_ok = self.opportunities.len() == 5 && self.count_of_posture(
            OpportunityApproach::Physical,
        ) == 1 && self.count_of_posture(OpportunityApproach::Social) == 1
            && self.count_of_posture(OpportunityApproach::Violence) == 1 && self.count_of_posture(
            OpportunityApproach::Universal,
        ) == 2;
        let mut out: Vec<String> = Vec::new();
        add_if(
            &mut out,
            !mix_ok,
            owned(
                "opportunities must be exactly five: one physical, one social, one violence, two universal",
            ),
        );
        let mut specs: Vec<String> = Vec::new();
        let mut k: usize = 0;
        while k < self.opportunities.len()
            invariant
                0 <= k <= self.opportunities@.len(),
                views(specs@) == opportunities_msgs(self, k as nat),
            decreases self.opportunities@.len() - k,
        {
            append_msgs(&mut specs, self.opportunity_problems(&self.opportunities[k]));
            k = k + 1;
        }
        append_msgs(&mut out, specs);
        out
    }

    fn start_problems(&self, item: &String) -> (out: Vec<String>)
        ensures
            views(out@) == start_msgs(self, item@),
    {
        let mut out: Vec<String> = Vec::new();
        match self.find_item(item.as_str()) {
            None => push_one(&mut out, cat3("starting equipment '", item.as_str(), "' is unknown")),
            Some(spec) => add_if(
                &mut out,
                !spec.purchasable,
                cat3("starting equipment '", item.as_str(), "' must be purchasable"),
            ),
        }
        assert(views(out@) =~= start_msgs(self, item@));
        out
    }

    fn campaign_problems(&self) -> (out: Vec<String>)
        ensures
            views(out@) == campaign_section(self),
    {
        let mut out: Vec<String> = Vec::new();
        add_if(
            &mut out,
            self.campaign.districts.len() == 0,
            owned("campaign needs at least one district"),
        );
        add_if(
            &mut out,
            self.campaign.offers_per_batch == 0,
            owned("campaign must offer at least one contract"),
        );
        let ghost head = views(out@);
        let mut starts: Vec<String> = Vec::new();
        let mut k: usize = 0;
        while k < self.campaign.starting_equipment.len()
            invariant
                0 <= k <= self.campaign.starting_equipment@.len(),
                views(starts@) == starts_msgs(self, k as nat),
            decreases self.campaign.starting_equipment@.len() - k,
        {
            append_msgs(&mut starts, self.start_problems(&self.campaign.starting_equipment[k]));
            k = k + 1;
        }
        append_msgs(&mut out, starts);
        add_if(
            &mut out,
            self.campaign.starting_cash < 0 || self.campaign.arrest_fine < 0,
            owned("campaign cash values must be non-negative"),
        );
        assert(views(out@) =~= campaign_section(self));
        out
    }
}

proof fn lemma_exit_step(d: &GameData, v: VenueSpec, m: int)
    requires
        0 <= m,
    ensures
        exit_among(d, v, m + 1) == (exit_among(d, v, m) || required_exit(
            room_of(d, v.room_templates@[m]@),
        )),
{
    if exit_among(d, v, m + 1) {
        let k = choose|k: int|
            0 <= k < m + 1 && required_exit(#[trigger] room_of(d, v.room_templates@[k]@));
        if k < m {
            assert(exit_among(d, v, m));
        }
    }
    if exit_among(d, v, m) {
        let k = choose|k: int| 0 <= k < m && required_exit(#[trigger] room_of(d, v.room_templates@[k]@));
        assert(required_exit(room_of(d, v.room_templates@[k]@)));
    }
    if required_exit(room_of(d, v.room_templates@[m]@)) {
        assert(exit_among(d, v, m + 1));
    }
}

fn override_problems(cat: &Catalogue, v: &VenueSpec) -> (out: Vec<String>)
    ensures
        views(out@) == override_msgs(cat, *v, v.role_counts@.len()),
{
    let mut out: Vec<String> = Vec::new();
    let mut m: usize = 0;
    while m < v.role_counts.len()
        invariant
            0 <= m <= v.role_counts@.len(),
            views(out@) == override_msgs(cat, *v, m as nat),
        decreases v.role_counts@.len() - m,
    {
        let o = &v.role_counts[m];
        if o.count_min > o.count_max {
            let name = role_label(cat, o.role);
            push_msg(
                &mut out,
                cat5("venue '", v.id.as_str(), "' role override for ", name.as_str(), " has min > max"),
            );
        }
        m = m + 1;
    }
    out
}

fn floor_problems(v: &VenueSpec, t: &str, floors: &Vec<u8>) -> (out: Vec<String>)
    ensures
        views(out@) == floor_msgs(*v, t@, floors@, floors@.len()),
{
    let mut out: Vec<String> = Vec::new();
    let mut m: usize = 0;
    while m < floors.len()
        invariant
            0 <= m <= floors@.len(),
            views(out@) == floor_msgs(*v, t@, floors@, m as nat),
        decreases floors@.len() - m,
    {
        let f = floors[m];
        if f >= v.floor_count {
            let head = cat5("venue '", v.id.as_str(), "' places room '", t, "' on floor ");
            let fd = decimal(f as u64);
            let cd = decimal(v.floor_count as u64);
            push_msg(&mut out, cat5(head.as_str(), fd.as_str(), " but has ", cd.as_str(), " floors"));
        }
        m = m + 1;
    }
    out
}

impl GameData {
    fn template_problems(&self, v: &VenueSpec) -> (r: (Vec<String>, bool))
        ensures
            views(r.0@) == template_msgs(self, *v, v.room_templates@.len()),
            r.1 == exit_among(self, *v, v.room_templates@.len() as int),
    {
        let mut out: Vec<String> = Vec::new();
        let mut has_exit = false;
        let mut m: usize = 0;
        while m < v.room_templates.len()
            invariant
                0 <= m <= v.room_templates@.len(),
                views(out@) == template_msgs(self, *v, m as nat),
                has_exit == exit_among(self, *v, m as int),
            decreases v.room_templates@.len() - m,
        {
            proof {
                lemma_exit_step(self, *v, m as int);
            }
            let t = &v.room_templates[m];
            match self.find_room(t.as_str()) {
                None => {
                    let mut one: Vec<String> = Vec::new();
                    push_one(
                        &mut one,
                        cat5("venue '", v.id.as_str(), "' references unknown room '", t.as_str(), "'"),
                    );
                    append_msgs(&mut out, one);
                },
                Some(tpl) => {
                    if tpl.required && tpl.external_exit {
                        has_exit = true;
                    }
                    append_msgs(&mut out, floor_problems(v, t.as_str(), &tpl.floors));
                },
            }
            m = m + 1;
        }
        (out, has_exit)
    }

    fn venue_problems(&self, cat: &Catalogue, v: &VenueSpec) -> (out: Vec<String>)
        ensures
            views(out@) == venue_msgs(self, cat, *v),
    {
        let mut out: Vec<String> = Vec::new();
        add_if(
            &mut out,
            v.floor_width == 0 || v.floor_height == 0 || v.floor_count == 0,
            cat3("venue '", v.id.as_str(), "' has a degenerate footprint"),
        );
        let storeys = decimal(v.floor_count as u64);
        add_if(
            &mut out,
            v.floor_count > 4,
            cat5("venue '", v.id.as_str(), "' has ", storeys.as_str(), " storeys; four is the ceiling"),
        );
        add_if(
            &mut out,
            v.room_templates.len() == 0,
            cat3("venue '", v.id.as_str(), "' places no rooms"),
        );
        let ghost head = views(out@);
        append_msgs(&mut out, override_problems(cat, v));
        let (templates, has_exit) = self.template_problems(v);
        append_msgs(&mut out, templates);
        add_if(
            &mut out,
            !has_exit,
            cat3("venue '", v.id.as_str(), "' needs a required external-exit room"),
        );
        assert(views(out@) =~= venue_msgs(self, cat, *v));
        out
    }

    fn venue_section_problems(&self, cat: &Catalogue) -> (out: Vec<String>)
        ensures
            views(out@) == venue_section(self, cat),
    {
        let mut out: Vec<String> = Vec::new();
        add_if(&mut out, self.venues.len() == 0, owned("at least one venue must be defined"));
        let mut ids: Vec<String> = Vec::new();
        let mut i: usize = 0;
        while i < self.venues.len()
            invariant
                0 <= i <= self.venues@.len(),
                ids@.len() == i,
                forall|k: int| 0 <= k < i ==> (#[trigger] ids@[k])@ == self.venues@[k].id@,
            decreases self.venues@.len() - i,
        {
            ids.push(self.venues[i].id.clone());
            i = i + 1;
        }
        assert(views(ids@) =~= venue_ids(self));
        add_if(&mut out, repeats(&ids), owned("duplicate venue ids"));
        let mut venues: Vec<String> = Vec::new();
        let mut k: usize = 0;
        while k < self.venues.len()
            invariant
                0 <= k <= self.venues@.len(),
                views(venues@) == venues_msgs(self, cat, k as nat),
            decreases self.venues@.len() - k,
        {
            append_msgs(&mut venues, self.venue_problems(cat, &self.venues[k]));
            k = k + 1;
        }
        append_msgs(&mut out, venues);
        out
    }

    /// Checks the rules that span the data files.
    ///
    /// Every problem is reported, not just the first: the error's message
    /// is every problem's text, in the order the rules run, joined with
    /// `"; "`.
    pub fn validate(&self, catalogue: &Catalogue) -> (r: Result<(), DataError>)
        ensures
            r is Ok <==> problems(self, catalogue).len() == 0,
            r matches Err(e) ==> e.file@ == "(cross-validation)"@ && e.message@ == join(
                problems(self, catalogue),
                "; "@,
            ),
    {
        let mut errors = self.reference_problems(catalogue);
        append_msgs(&mut errors, self.text_problems());
        append_msgs(&mut errors, self.equipment_section_problems(catalogue));
        append_msgs(&mut errors, self.opportunity_section_problems());
        append_msgs(&mut errors, self.campaign_problems());
        append_msgs(&mut errors, self.venue_section_problems(catalogue));
        if errors.len() == 0 {
            Ok(())
        } else {
            Err(DataError { file: owned("(cross-validation)"), message: join_strings(&errors, "; ") })
        }
    }
}

/// Appends the placeholder report for one display field.
fn note_missing(out: &mut Vec<String>, what: &str, id: &str, text: &str)
    ensures
        views(final(out)@) == views(old(out)@) + missing(what@, id@, text@),
{
    add_if(
        out,
        str_eq(text, MISSING),
        cat5("no localised ", what, " for '", id, "' in data/loc/strings.csv"),
    );
}

} // verus!
