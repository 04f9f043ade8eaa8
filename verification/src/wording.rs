//! Display text for the authored data, taken from the string catalogue.
//!
//! The data files carry structure only. Every display field is derived
//! from the structural id a spec already has (`room.<id>.name`), and the
//! authored pools (names, briefing reasons, districts) are the catalogue
//! rows under a prefix. A spec whose row is missing keeps the catalogue's
//! loud placeholder, which validation then reports.
use vstd::prelude::*;

use crate::data::{DisguiseSpec, GameData, ItemSpec, OpportunitySpec, RoomTemplate, VenueSpec, ZoneLabels};
use crate::loc::{pool_of, Catalogue};
use crate::text::{cat3, views};

verus! {

/// The catalogue text for an id.
#[verifier::opaque]
pub open spec fn worded(cat: &Catalogue, id: Seq<char>) -> Seq<char> {
    cat.spec_text(id)
}

/// The catalogue text for `pre + id + post`.
pub open spec fn field_text(cat: &Catalogue, pre: Seq<char>, id: Seq<char>, post: Seq<char>) -> Seq<
    char,
> {
    worded(cat, pre + id + post)
}

/// `w` is venue `v` with its display fields taken from the catalogue.
pub open spec fn venue_worded(cat: &Catalogue, v: VenueSpec, w: VenueSpec) -> bool {
    &&& w.name@ == field_text(cat, "venue."@, v.id@, ".name"@)
    &&& w.invitation_label@ == field_text(cat, "venue."@, v.id@, ".invitation"@)
    &&& w.zone_labels.public@ == field_text(cat, "venue."@, v.id@, ".zone.public"@)
    &&& w.zone_labels.staff@ == field_text(cat, "venue."@, v.id@, ".zone.staff"@)
    &&& w.zone_labels.secure@ == field_text(cat, "venue."@, v.id@, ".zone.secure"@)
    &&& w.zone_labels.personal@ == field_text(cat, "venue."@, v.id@, ".zone.personal"@)
    &&& w == VenueSpec {
        name: w.name,
        invitation_label: w.invitation_label,
        zone_labels: w.zone_labels,
        ..v
    }
}

/// `w` is disguise `g` with its name taken from the catalogue.
pub open spec fn disguise_worded(cat: &Catalogue, g: DisguiseSpec, w: DisguiseSpec) -> bool {
    &&& w.name@ == field_text(cat, "disguise."@, g.id@, ".name"@)
    &&& w == DisguiseSpec { name: w.name, ..g }
}

/// `w` is item spec `it` with its name taken from the catalogue.
pub open spec fn item_worded(cat: &Catalogue, it: ItemSpec, w: ItemSpec) -> bool {
    &&& w.name@ == field_text(cat, "item."@, it.id@, ".name"@)
    &&& w == ItemSpec { name: w.name, ..it }
}

/// `w` is opportunity `o` with its texts taken from the catalogue.
pub open spec fn opportunity_worded(cat: &Catalogue, o: OpportunitySpec, w: OpportunitySpec) -> bool {
    &&& w.name@ == field_text(cat, "opportunity."@, o.id@, ".name"@)
    &&& w.risk@ == field_text(cat, "opportunity."@, o.id@, ".risk"@)
    &&& w.presentation@ == field_text(cat, "opportunity."@, o.id@, ".presentation"@)
    &&& w == OpportunitySpec { name: w.name, risk: w.risk, presentation: w.presentation, ..o }
}

/// `w` is room template `r` with its name taken from the catalogue.
pub open spec fn room_worded(cat: &Catalogue, r: RoomTemplate, w: RoomTemplate) -> bool {
    &&& w.name@ == field_text(cat, "room."@, r.id@, ".name"@)
    &&& w == RoomTemplate { name: w.name, ..r }
}

/// `e` is data set `d` with every display field and pool taken from the
/// catalogue, and nothing else changed.
pub open spec fn data_worded(cat: &Catalogue, d: GameData, e: GameData) -> bool {
    &&& e.venues@.len() == d.venues@.len()
    &&& forall|i: int|
        0 <= i < d.venues@.len() ==> venue_worded(cat, d.venues@[i], #[trigger] e.venues@[i])
    &&& e.disguises@.len() == d.disguises@.len()
    &&& forall|i: int|
        0 <= i < d.disguises@.len() ==> disguise_worded(cat, d.disguises@[i], #[trigger] e.disguises@[i])
    &&& e.items@.len() == d.items@.len()
    &&& forall|i: int| 0 <= i < d.items@.len() ==> item_worded(cat, d.items@[i], #[trigger] e.items@[i])
    &&& e.opportunities@.len() == d.opportunities@.len()
    &&& forall|i: int|
        0 <= i < d.opportunities@.len() ==> opportunity_worded(
            cat,
            d.opportunities@[i],
            #[trigger] e.opportunities@[i],
        )
    &&& e.rooms@.len() == d.rooms@.len()
    &&& forall|i: int| 0 <= i < d.rooms@.len() ==> room_worded(cat, d.rooms@[i], #[trigger] e.rooms@[i])
    &&& views(e.names.first@) == pool_of(cat.table(), "names.first."@)
    &&& views(e.names.last@) == pool_of(cat.table(), "names.last."@)
    &&& views(e.briefing.reasons@) == pool_of(cat.table(), "briefing.reason."@)
    &&& views(e.campaign.districts@) == pool_of(cat.table(), "campaign.district."@)
    &&& e.tuning == d.tuning
    &&& e.equipment == d.equipment
    &&& e.population == d.population
    &&& e.campaign == crate::data::CampaignData { districts: e.campaign.districts, ..d.campaign }
}

/// The catalogue text for `pre + id + post`.
fn field(cat: &Catalogue, pre: &str, id: &str, post: &str) -> (r: String)
    ensures
        r@ == field_text(cat, pre@, id@, post@),
{
    proof {
        reveal(worded);
    }
    let key = cat3(pre, id, post);
    cat.text(key.as_str())
}

impl GameData {
    /// Fills every display field and pool from the catalogue.
    ///
    /// Ids are derived from the structural id a spec already has
    /// (`venue.<id>.name`, `item.<id>.name`, ...); the pools are the rows
    /// under `names.first.`, `names.last.`, `briefing.reason.`, and
    /// `campaign.district.`, in catalogue order.
    pub fn resolve_text(&mut self, catalogue: &Catalogue)
        ensures
            data_worded(catalogue, *old(self), *final(self)),
    {
        let ghost d = *self;
        // Venues.
        let mut rest: Vec<VenueSpec> = Vec::new();
        std::mem::swap(&mut rest, &mut self.venues);
        let ghost orig = rest@;
        let mut done: Vec<VenueSpec> = Vec::new();
        while rest.len() > 0
            invariant
                orig == d.venues@,
                done@.len() + rest@.len() == orig.len(),
                rest@ == orig.subrange(done@.len() as int, orig.len() as int),
                forall|i: int| 0 <= i < done@.len() ==> venue_worded(catalogue, orig[i], #[trigger] done@[i]),
            decreases rest@.len(),
        {
            let ghost k = done@.len() as int;
            let mut v = rest.remove(0);
            let ghost before = v;
            v.name = field(catalogue, "venue.", v.id.as_str(), ".name");
            v.invitation_label = field(catalogue, "venue.", v.id.as_str(), ".invitation");
            let public = field(catalogue, "venue.", v.id.as_str(), ".zone.public");
            let staff = field(catalogue, "venue.", v.id.as_str(), ".zone.staff");
            let secure = field(catalogue, "venue.", v.id.as_str(), ".zone.secure");
            let personal = field(catalogue, "venue.", v.id.as_str(), ".zone.personal");
            v.zone_labels = ZoneLabels { public, staff, secure, personal };
            assert(before == orig[k]);
            done.push(v);
            assert(rest@ =~= orig.subrange(done@.len() as int, orig.len() as int));
        }
        self.venues = done;
        assert(self.disguises == d.disguises);
        // Disguises.
        let mut rest: Vec<DisguiseSpec> = Vec::new();
        std::mem::swap(&mut rest, &mut self.disguises);
        let ghost orig = rest@;
        let mut done: Vec<DisguiseSpec> = Vec::new();
        while rest.len() > 0
            invariant
                orig == d.disguises@,
                done@.len() + rest@.len() == orig.len(),
                rest@ == orig.subrange(done@.len() as int, orig.len() as int),
                forall|i: int|
                    0 <= i < done@.len() ==> disguise_worded(catalogue, orig[i], #[trigger] done@[i]),
            decreases rest@.len(),
        {
            let ghost k = done@.len() as int;
            let mut g = rest.remove(0);
            assert(g == orig[k]);
            g.name = field(catalogue, "disguise.", g.id.as_str(), ".name");
            done.push(g);
            assert(rest@ =~= orig.subrange(done@.len() as int, orig.len() as int));
        }
        self.disguises = done;
        // Items.
        let mut rest: Vec<ItemSpec> = Vec::new();
        std::mem::swap(&mut rest, &mut self.items);
        let ghost orig = rest@;
        let mut done: Vec<ItemSpec> = Vec::new();
        while rest.len() > 0
            invariant
                orig == d.items@,
                done@.len() + rest@.len() == orig.len(),
                rest@ == orig.subrange(done@.len() as int, orig.len() as int),
                forall|i: int| 0 <= i < done@.len() ==> item_worded(catalogue, orig[i], #[trigger] done@[i]),
            decreases rest@.len(),
        {
            let ghost k = done@.len() as int;
            let mut it = rest.remove(0);
            assert(it == orig[k]);
            it.name = field(catalogue, "item.", it.id.as_str(), ".name");
            done.push(it);
            assert(rest@ =~= orig.subrange(done@.len() as int, orig.len() as int));
        }
        self.items = done;
        // Opportunities.
        let mut rest: Vec<OpportunitySpec> = Vec::new();
        std::mem::swap(&mut rest, &mut self.opportunities);
        let ghost orig = rest@;
        let mut done: Vec<OpportunitySpec> = Vec::new();
        while rest.len() > 0
            invariant
                orig == d.opportunities@,
                done@.len() + rest@.len() == orig.len(),
                rest@ == orig.subrange(done@.len() as int, orig.len() as int),
                forall|i: int|
                    0 <= i < done@.len() ==> opportunity_worded(catalogue, orig[i], #[trigger] done@[i]),
            decreases rest@.len(),
        {
            let ghost k = done@.len() as int;
            let mut o = rest.remove(0);
            assert(o == orig[k]);
            o.name = field(catalogue, "opportunity.", o.id.as_str(), ".name");
            o.risk = field(catalogue, "opportunity.", o.id.as_str(), ".risk");
            o.presentation = field(catalogue, "opportunity.", o.id.as_str(), ".presentation");
            done.push(o);
            assert(rest@ =~= orig.subrange(done@.len() as int, orig.len() as int));
        }
        self.opportunities = done;
        // Room templates.
        let mut rest: Vec<RoomTemplate> = Vec::new();
        std::mem::swap(&mut rest, &mut self.rooms);
        let ghost orig = rest@;
        let mut done: Vec<RoomTemplate> = Vec::new();
        while rest.len() > 0
            invariant
                orig == d.rooms@,
                done@.len() + rest@.len() == orig.len(),
                rest@ == orig.subrange(done@.len() as int, orig.len() as int),
                forall|i: int| 0 <= i < done@.len() ==> room_worded(catalogue, orig[i], #[trigger] done@[i]),
            decreases rest@.len(),
        {
            let ghost k = done@.len() as int;
            let mut r = rest.remove(0);
            assert(r == orig[k]);
            r.name = field(catalogue, "room.", r.id.as_str(), ".name");
            done.push(r);
            assert(rest@ =~= orig.subrange(done@.len() as int, orig.len() as int));
        }
        self.rooms = done;
        // The pools.
        self.names.first = catalogue.pool("names.first.");
        self.names.last = catalogue.pool("names.last.");
        self.briefing.reasons = catalogue.pool("briefing.reason.");
        self.campaign.districts = catalogue.pool("campaign.district.");
    }
}

} // verus!
