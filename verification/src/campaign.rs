//! The campaign layer: everything that outlives a single mission.
//!
//! A campaign owns cash, the equipment stash, persistent police heat by
//! district, and the contract history. It sits strictly above the mission
//! core: contracts hand the generator a [`MissionConfig`] and the finished
//! mission reports back a [`MissionResolution`].
//!
//! The owner's standing rules: death ends the campaign at a final tally;
//! arrest fails the contract, levies the fine, and confiscates the carried
//! loadout; equipment is bought once and owned until lost.
use vstd::prelude::*;

use crate::contract::{Constraint, LOADOUT_SLOTS, MissionConfig, copy_constraint, same_constraint};
use crate::data::{GameData, ItemSpecId, VenueId};
use crate::text::{clone_opt_string, clone_strings, contains_str, holds, owned, str_eq, views};
use crate::world::MissionOutcome;

verus! {

/// Bump when [`CampaignState`] changes incompatibly; older saves are
/// rejected as stale rather than misread.
pub const SAVE_VERSION: u32 = 1;

/// Stream selector for offer derivation ("Offer").
pub const OFFER_STREAM: u64 = 0x4f66666572;

/// Where the single campaign save lives. Implemented per delivery target.
pub trait CampaignStore {
    /// The save document the store holds, if any.
    spec fn stored(&self) -> Option<Seq<char>>;

    /// Returns the stored save document, if one exists.
    fn load(&self) -> (r: Option<String>)
        ensures
            r.is_some() == self.stored().is_some(),
            r matches Some(s) ==> self.stored() == Some(s@),
    ;

    /// Persists the save document, replacing any previous one.
    fn save(&mut self, document: &str)
        ensures
            final(self).stored() == Some(document@),
    ;

    /// Deletes the stored campaign (abandon / campaign over).
    fn clear(&mut self)
        ensures
            final(self).stored() is None,
    ;
}

/// One contract on the board.
#[derive(Clone, Debug, PartialEq, Eq)]
pub struct ContractOffer {
    pub district: String,
    pub venue: VenueId,
    /// The narrative hook shown on the board.
    pub hook: String,
    pub payout: i64,
    /// District heat at offer time; rides into generation.
    pub heat: u8,
    pub constraint: Constraint,
    pub seed: u64,
}

/// One resolved contract in the campaign history.
#[derive(Clone, Debug, PartialEq, Eq)]
pub struct ContractRecord {
    pub district: String,
    pub venue: String,
    pub result: ContractResult,
    pub payout: i64,
}

#[derive(Clone, Copy, Debug, PartialEq, Eq, Structural)]
pub enum ContractResult {
    Completed,
    /// Target eliminated but the mandatory constraint was violated.
    CompletedUnclean,
    Abandoned,
    /// The target fled the venue alive.
    TargetEscaped,
    Arrested,
    Killed,
}

impl ContractResult {
    pub fn describe(self) -> (r: &'static str)
        ensures
            r@ == (match self {
                ContractResult::Completed => "completed cleanly"@,
                ContractResult::CompletedUnclean => "completed, contract breached"@,
                ContractResult::Abandoned => "abandoned"@,
                ContractResult::TargetEscaped => "the target escaped"@,
                ContractResult::Arrested => "ended in arrest"@,
                ContractResult::Killed => "ended in death"@,
            }),
    {
        match self {
            ContractResult::Completed => "completed cleanly",
            ContractResult::CompletedUnclean => "completed, contract breached",
            ContractResult::Abandoned => "abandoned",
            ContractResult::TargetEscaped => "the target escaped",
            ContractResult::Arrested => "ended in arrest",
            ContractResult::Killed => "ended in death",
        }
    }
}

/// What the finished mission reports back to the campaign.
#[derive(Clone, Debug)]
pub struct MissionResolution {
    /// `None` means the player abandoned the run.
    pub outcome: Option<MissionOutcome>,
    /// The specific reason the contract's condition was broken, if it was.
    pub breach_reason: Option<String>,
    pub mission_heat: u16,
    /// What the player carried in (lost on arrest).
    pub loadout: Vec<ItemSpecId>,
}

/// What resolving a contract did, for the debrief screen.
#[derive(Clone, Debug, PartialEq, Eq)]
pub struct ResolutionSummary {
    pub result: ContractResult,
    pub payout: i64,
    pub fine: i64,
    pub confiscated: Vec<ItemSpecId>,
    pub district_heat_change: i8,
    /// Why the contract's condition was broken, for the debrief.
    pub breach_reason: Option<String>,
}

/// The whole persistent campaign.
#[derive(Debug, PartialEq)]
pub struct CampaignState {
    pub version: u32,
    pub seed: u64,
    pub cash: i64,
    /// Equipment spec ids the player owns (the stash).
    pub owned_equipment: Vec<ItemSpecId>,
    /// Persistent police heat per district, in district order.
    pub district_heat: Vec<(String, u8)>,
    pub history: Vec<ContractRecord>,
    /// Advances on accept or refresh so offers never repeat.
    pub offer_index: u64,
    /// Set when the operative died: the campaign is over.
    pub over: bool,
}

/// The random choices one board slot consumes, in the order the board's
/// generator stream produces them: a district index, a venue index, the
/// constraint roll (`0..5`), the exit index (drawn only when the roll
/// asks for a specific exit and the venue has one), a hook index, and the
/// two halves of the mission seed.
#[derive(Clone, Copy, Debug, PartialEq, Eq, Structural)]
pub struct OfferDraw {
    pub district: usize,
    pub venue: usize,
    pub constraint: u32,
    pub exit: usize,
    pub hook: usize,
    pub seed_high: u32,
    pub seed_low: u32,
}

/// Heat recorded for `district`: the first matching entry, else zero.
pub open spec fn spec_heat_in(heat: Seq<(String, u8)>, district: Seq<char>) -> u8 {
    if exists|i: int| 0 <= i < heat.len() && (#[trigger] heat[i]).0@ == district {
        heat[choose|i: int|
            0 <= i < heat.len() && heat[i].0@ == district && forall|j: int|
                0 <= j < i ==> (#[trigger] heat[j]).0@ != district].1
    } else {
        0
    }
}

/// The venue's room templates that can host a specific-exit contract:
/// known templates that are external exits and not circulation.
pub open spec fn exit_templates(data: &GameData, venue: Seq<char>) -> Seq<Seq<char>> {
    match data.spec_venue(venue) {
        Some(v) => views(v.room_templates@).filter(|t: Seq<char>| is_exit_template(data, t)),
        None => Seq::empty(),
    }
}

pub open spec fn is_exit_template(data: &GameData, t: Seq<char>) -> bool {
    match data.spec_room_template(t) {
        Some(spec) => spec.external_exit && !spec.circulation,
        None => false,
    }
}

/// The constraint a roll picks for `venue`.
pub open spec fn spec_pick_constraint(data: &GameData, venue: Seq<char>, choice: u32, exit: usize, c: Constraint) -> bool {
    if choice == 0 {
        c == Constraint::NoFirearms
    } else if choice == 1 {
        c == Constraint::NoCivilianCasualties
    } else if choice == 2 {
        c == Constraint::NoBodiesFound
    } else if choice == 3 {
        c == Constraint::PrivateKill
    } else if exit_templates(data, venue).len() == 0 {
        c == Constraint::NoFirearms
    } else {
        c matches Constraint::SpecificExit { room_template } && room_template@ == exit_templates(
            data,
            venue,
        )[exit as int]
    }
}

/// Whether `draw` indexes only what exists.
pub open spec fn draw_in_range(data: &GameData, draw: OfferDraw) -> bool {
    &&& draw.district < data.campaign.districts@.len()
    &&& draw.venue < data.venues@.len()
    &&& draw.hook < data.briefing.reasons@.len()
    &&& draw.constraint >= 4 && exit_templates(data, data.venues@[draw.venue as int].id@).len() > 0
        ==> draw.exit < exit_templates(data, data.venues@[draw.venue as int].id@).len()
}

/// The payout a contract in a district at `heat` promises.
pub open spec fn spec_payout(data: &GameData, heat: u8) -> int {
    data.campaign.payout_base + data.campaign.payout_per_heat * heat + data.campaign.payout_constraint_bonus
}

/// The venue templates usable for a specific-exit contract.
pub fn constraint_exits(data: &GameData, venue: &str) -> (r: Vec<String>)
    ensures
        views(r@) == exit_templates(data, venue@),
{
    let mut exits: Vec<String> = Vec::new();
    let found = data.venue(venue);
    match found {
        None => exits,
        Some(v) => {
            let ghost pred = |t: Seq<char>| is_exit_template(data, t);
            let mut i: usize = 0;
            while i < v.room_templates.len()
                invariant
                    0 <= i <= v.room_templates@.len(),
                    pred == (|t: Seq<char>| is_exit_template(data, t)),
                    views(exits@) == views(v.room_templates@).subrange(0, i as int).filter(pred),
                decreases v.room_templates@.len() - i,
            {
                let ghost before = exits@;
                let t = &v.room_templates[i];
                let keep = match data.room_template(t.as_str()) {
                    Some(spec) => spec.external_exit && !spec.circulation,
                    None => false,
                };
                if keep {
                    exits.push(t.clone());
                }
                proof {
                    let s = views(v.room_templates@).subrange(0, i as int + 1);
                    assert(s.drop_last() == views(v.room_templates@).subrange(0, i as int));
                    assert(s.last() == t@);
                    reveal_with_fuel(Seq::filter, 1);
                    assert(keep == pred(s.last()));
                    if keep {
                        assert(views(exits@) == views(before).push(t@));
                        assert(s.filter(pred) == s.drop_last().filter(pred).push(s.last()));
                    } else {
                        assert(s.filter(pred) == s.drop_last().filter(pred));
                    }
                }
                i = i + 1;
            }
            assert(views(v.room_templates@).subrange(0, v.room_templates@.len() as int) == views(
                v.room_templates@,
            ));
            exits
        },
    }
}

/// Picks a constraint an offer's venue can actually host, from the roll
/// `choice` (in `0..5`) and, for a specific exit, the exit index `exit`.
pub fn pick_constraint(data: &GameData, venue: &str, choice: u32, exit: usize) -> (r: Constraint)
    requires
        choice >= 4 && exit_templates(data, venue@).len() > 0 ==> exit < exit_templates(
            data,
            venue@,
        ).len(),
    ensures
        spec_pick_constraint(data, venue@, choice, exit, r),
{
    if choice == 0 {
        Constraint::NoFirearms
    } else if choice == 1 {
        Constraint::NoCivilianCasualties
    } else if choice == 2 {
        Constraint::NoBodiesFound
    } else if choice == 3 {
        Constraint::PrivateKill
    } else {
        let exits = constraint_exits(data, venue);
        if exits.len() == 0 {
            Constraint::NoFirearms
        } else {
            assert(views(exits@)[exit as int] == exits@[exit as int]@);
            Constraint::SpecificExit { room_template: exits[exit].clone() }
        }
    }
}

/// The first index of `item` in `list`.
pub open spec fn first_index_of(list: Seq<Seq<char>>, item: Seq<char>) -> int {
    choose|i: int|
        0 <= i < list.len() && list[i] == item && forall|j: int| 0 <= j < i ==> #[trigger] list[j] != item
}

/// Arrest confiscation: each loadout item, in order, leaves the stash
/// (its first copy) if the stash holds it. Returns the stash left and the
/// items taken.
pub open spec fn confiscate(owned: Seq<Seq<char>>, loadout: Seq<Seq<char>>) -> (Seq<Seq<char>>, Seq<Seq<char>>)
    decreases loadout.len(),
{
    if loadout.len() == 0 {
        (owned, Seq::empty())
    } else {
        let prev = confiscate(owned, loadout.drop_last());
        let item = loadout.last();
        if prev.0.contains(item) {
            (prev.0.remove(first_index_of(prev.0, item)), prev.1.push(item))
        } else {
            prev
        }
    }
}

/// The contract result a mission outcome yields.
pub open spec fn result_of(outcome: Option<MissionOutcome>, breached: bool) -> ContractResult {
    match outcome {
        Some(MissionOutcome::Extracted) => if breached {
            ContractResult::CompletedUnclean
        } else {
            ContractResult::Completed
        },
        Some(MissionOutcome::TargetEscaped) => ContractResult::TargetEscaped,
        Some(MissionOutcome::Arrested) => ContractResult::Arrested,
        Some(MissionOutcome::PlayerKilled) => ContractResult::Killed,
        None => ContractResult::Abandoned,
    }
}

/// A district's heat after a contract resolves: the contract's district
/// heats by two (capped) after a hot mission; every other district cools
/// by one.
pub open spec fn heat_after(h: u8, is_contract_district: bool, hot: bool, cap: u8) -> u8 {
    if is_contract_district {
        if hot {
            if h + 2 <= cap {
                (h + 2) as u8
            } else {
                cap
            }
        } else {
            h
        }
    } else if h > 0 {
        (h - 1) as u8
    } else {
        0
    }
}

/// The fine an arrest levies against `cash`.
pub open spec fn spec_fine(fine: i64, cash: i64) -> i64 {
    let available: i64 = if cash > 0 {
        cash
    } else {
        0
    };
    if fine <= available {
        fine
    } else {
        available
    }
}

/// The last index of a district entry named `district`, if any.
pub open spec fn last_entry(heat: Seq<(String, u8)>, district: Seq<char>) -> Option<int>
    decreases heat.len(),
{
    if heat.len() == 0 {
        None
    } else if heat.last().0@ == district {
        Some(heat.len() - 1)
    } else {
        last_entry(heat.drop_last(), district)
    }
}

impl CampaignState {
    pub fn new(seed: u64, data: &GameData) -> (r: Self)
        ensures
            r.version == SAVE_VERSION,
            r.seed == seed,
            r.cash == data.campaign.starting_cash,
            views(r.owned_equipment@) == views(data.campaign.starting_equipment@),
            r.district_heat@.len() == data.campaign.districts@.len(),
            forall|i: int|
                0 <= i < r.district_heat@.len() ==> (#[trigger] r.district_heat@[i]).0@
                    == data.campaign.districts@[i]@ && r.district_heat@[i].1 == 0,
            r.history@.len() == 0,
            r.offer_index == 0,
            !r.over,
    {
        let mut district_heat: Vec<(String, u8)> = Vec::new();
        let mut i: usize = 0;
        while i < data.campaign.districts.len()
            invariant
                0 <= i <= data.campaign.districts@.len(),
                district_heat@.len() == i,
                forall|j: int|
                    0 <= j < i ==> (#[trigger] district_heat@[j]).0@ == data.campaign.districts@[j]@
                        && district_heat@[j].1 == 0,
            decreases data.campaign.districts@.len() - i,
        {
            district_heat.push((data.campaign.districts[i].clone(), 0));
            i = i + 1;
        }
        Self {
            version: SAVE_VERSION,
            seed,
            cash: data.campaign.starting_cash,
            owned_equipment: clone_strings(&data.campaign.starting_equipment),
            district_heat,
            history: Vec::new(),
            offer_index: 0,
            over: false,
        }
    }

    /// Accepts a parsed save document's state only when it was written by
    /// this save version: an older campaign is refused rather than
    /// misread, and the caller starts a fresh one.
    pub fn accept_save(state: CampaignState) -> (r: Option<CampaignState>)
        ensures
            r is Some <==> state.version == SAVE_VERSION,
            r matches Some(s) ==> s == state,
    {
        if state.version == SAVE_VERSION {
            Some(state)
        } else {
            None
        }
    }

    pub fn heat_in(&self, district: &str) -> (r: u8)
        ensures
            r == spec_heat_in(self.district_heat@, district@),
    {
        let mut i: usize = 0;
        while i < self.district_heat.len()
            invariant
                0 <= i <= self.district_heat@.len(),
                forall|j: int| 0 <= j < i ==> (#[trigger] self.district_heat@[j]).0@ != district@,
            decreases self.district_heat@.len() - i,
        {
            if str_eq(self.district_heat[i].0.as_str(), district) {
                proof {
                    let h = self.district_heat@;
                    let k = choose|k: int|
                        0 <= k < h.len() && h[k].0@ == district@ && forall|j: int|
                            0 <= j < k ==> (#[trigger] h[j]).0@ != district@;
                    assert(h[i as int].0@ == district@);
                    if k > i {
                        assert(h[i as int].0@ != district@);
                    }
                }
                return self.district_heat[i].1;
            }
            i = i + 1;
        }
        0
    }

    /// The seed of the generator stream the current board is drawn from
    /// (used with [`OFFER_STREAM`]): the campaign seed mixed with the
    /// offer index, so every board differs and none repeats.
    pub fn offer_seed(&self) -> (r: u64)
        ensures
            r == self.seed ^ self.offer_index,
    {
        self.seed ^ self.offer_index
    }

    /// One board slot built from its draws.
    pub fn make_offer(&self, data: &GameData, draw: &OfferDraw) -> (r: ContractOffer)
        requires
            draw_in_range(data, *draw),
            i64::MIN <= spec_payout(
                data,
                spec_heat_in(self.district_heat@, data.campaign.districts@[draw.district as int]@),
            ) <= i64::MAX,
        ensures
            r.district@ == data.campaign.districts@[draw.district as int]@,
            r.venue@ == data.venues@[draw.venue as int].id@,
            r.heat == spec_heat_in(self.district_heat@, r.district@),
            spec_pick_constraint(data, r.venue@, draw.constraint, draw.exit, r.constraint),
            r.payout == spec_payout(data, r.heat),
            r.hook@ == data.briefing.reasons@[draw.hook as int]@,
            r.seed == draw.seed_high as int * 0x1_0000_0000 + draw.seed_low as int,
    {
        let district = data.campaign.districts[draw.district].clone();
        let venue = data.venues[draw.venue].id.clone();
        let heat = self.heat_in(district.as_str());
        let constraint = pick_constraint(data, venue.as_str(), draw.constraint, draw.exit);
        let c = &data.campaign;
        proof {
            let base = c.payout_base as int;
            let per = c.payout_per_heat as int;
            let bonus = c.payout_constraint_bonus as int;
            let h = heat as int;
            assert(0 <= h <= 255);
            assert(-0x8000_0000_0000_0000 * 256 <= per * h <= 0x8000_0000_0000_0000 * 256) by (nonlinear_arith)
                requires
                    -0x8000_0000_0000_0000 <= per <= 0x8000_0000_0000_0000,
                    0 <= h <= 255,
            ;
        }
        let per_heat: i128 = (c.payout_per_heat as i128) * (heat as i128);
        let total: i128 = c.payout_base as i128 + per_heat + c.payout_constraint_bonus as i128;
        let payout: i64 = total as i64;
        let hook = data.briefing.reasons[draw.hook].clone();
        let high: u64 = draw.seed_high as u64;
        let low: u64 = draw.seed_low as u64;
        let seed: u64 = (high << 32) | low;
        assert(((high << 32) | low) == high * 0x1_0000_0000 + low) by (bit_vector)
            requires
                high < 0x1_0000_0000,
                low < 0x1_0000_0000,
        ;
        ContractOffer { district, venue, hook, payout, heat, constraint, seed }
    }

    /// The contract board: one offer per draw, in order. The draws come
    /// from the generator stream seeded by [`CampaignState::offer_seed`],
    /// so the board is deterministic from the campaign seed, the offer
    /// index, and current district heat.
    pub fn offers(&self, data: &GameData, draws: &Vec<OfferDraw>) -> (r: Vec<ContractOffer>)
        requires
            forall|i: int| 0 <= i < draws@.len() ==> draw_in_range(data, #[trigger] draws@[i]),
            forall|i: int|
                0 <= i < draws@.len() ==> i64::MIN <= spec_payout(
                    data,
                    spec_heat_in(
                        self.district_heat@,
                        data.campaign.districts@[(#[trigger] draws@[i]).district as int]@,
                    ),
                ) <= i64::MAX,
        ensures
            r@.len() == draws@.len(),
            forall|i: int|
                0 <= i < r@.len() ==> {
                    let o = #[trigger] r@[i];
                    let d = draws@[i];
                    &&& o.district@ == data.campaign.districts@[d.district as int]@
                    &&& o.venue@ == data.venues@[d.venue as int].id@
                    &&& o.heat == spec_heat_in(self.district_heat@, o.district@)
                    &&& spec_pick_constraint(data, o.venue@, d.constraint, d.exit, o.constraint)
                    &&& o.payout == spec_payout(data, o.heat)
                    &&& o.hook@ == data.briefing.reasons@[d.hook as int]@
                    &&& o.seed == d.seed_high as int * 0x1_0000_0000 + d.seed_low as int
                },
    {
        let mut offers: Vec<ContractOffer> = Vec::new();
        let mut i: usize = 0;
        while i < draws.len()
            invariant
                0 <= i <= draws@.len(),
                offers@.len() == i,
                forall|k: int| 0 <= k < draws@.len() ==> draw_in_range(data, #[trigger] draws@[k]),
                forall|k: int|
                    0 <= k < draws@.len() ==> i64::MIN <= spec_payout(
                        data,
                        spec_heat_in(
                            self.district_heat@,
                            data.campaign.districts@[(#[trigger] draws@[k]).district as int]@,
                        ),
                    ) <= i64::MAX,
                forall|k: int|
                    0 <= k < i ==> {
                        let o = #[trigger] offers@[k];
                        let d = draws@[k];
                        &&& o.district@ == data.campaign.districts@[d.district as int]@
                        &&& o.venue@ == data.venues@[d.venue as int].id@
                        &&& o.heat == spec_heat_in(self.district_heat@, o.district@)
                        &&& spec_pick_constraint(data, o.venue@, d.constraint, d.exit, o.constraint)
                        &&& o.payout == spec_payout(data, o.heat)
                        &&& o.hook@ == data.briefing.reasons@[d.hook as int]@
                        &&& o.seed == d.seed_high as int * 0x1_0000_0000 + d.seed_low as int
                    },
            decreases draws@.len() - i,
        {
            let o = self.make_offer(data, &draws[i]);
            offers.push(o);
            i = i + 1;
        }
        offers
    }

    /// Declines the current board; the next one differs.
    pub fn refresh_offers(&mut self)
        requires
            old(self).offer_index < u64::MAX,
        ensures
            final(self).offer_index == old(self).offer_index + 1,
            final(self).version == old(self).version,
            final(self).seed == old(self).seed,
            final(self).cash == old(self).cash,
            final(self).owned_equipment == old(self).owned_equipment,
            final(self).district_heat == old(self).district_heat,
            final(self).history == old(self).history,
            final(self).over == old(self).over,
    {
        self.offer_index = self.offer_index + 1;
    }

    /// Accepts an offer with a chosen loadout, producing the mission
    /// config. The offer board advances.
    pub fn accept(&mut self, offer: &ContractOffer, loadout: Vec<ItemSpecId>) -> (r: Result<
        MissionConfig,
        String,
    >)
        requires
            old(self).offer_index < u64::MAX,
        ensures
            old(self).over ==> (r matches Err(m) && m@ == "the campaign is over"@),
            !old(self).over && loadout@.len() > LOADOUT_SLOTS ==> (r matches Err(m) && m@
                == "a loadout carries at most three items"@),
            !old(self).over && loadout@.len() <= LOADOUT_SLOTS ==> match first_unowned(
                views(old(self).owned_equipment@),
                views(loadout@),
            ) {
                Some(k) => r matches Err(m) && m@ == "you do not own '"@ + loadout@[k]@ + "'"@,
                None => r is Ok,
            },
            r is Err ==> *final(self) == *old(self),
            r matches Ok(config) ==> {
                &&& config.seed == offer.seed
                &&& config.venue@ == offer.venue@
                &&& config.constraint matches Some(c) && same_constraint(c, offer.constraint)
                &&& config.loadout == loadout
                &&& config.heat == offer.heat
                &&& *final(self) == (CampaignState {
                    offer_index: (old(self).offer_index + 1) as u64,
                    ..*old(self)
                })
            },
    {
        if self.over {
            return Err(owned("the campaign is over"));
        }
        if loadout.len() > LOADOUT_SLOTS {
            return Err(owned("a loadout carries at most three items"));
        }
        let mut i: usize = 0;
        while i < loadout.len()
            invariant
                0 <= i <= loadout@.len(),
                !self.over,
                loadout@.len() <= LOADOUT_SLOTS,
                *self == *old(self),
                forall|j: int|
                    0 <= j < i ==> views(self.owned_equipment@).contains(#[trigger] loadout@[j]@),
            decreases loadout@.len() - i,
        {
            if !contains_str(&self.owned_equipment, loadout[i].as_str()) {
                proof {
                    let ow = views(self.owned_equipment@);
                    assert(!ow.contains(loadout@[i as int]@)) by {
                        if ow.contains(loadout@[i as int]@) {
                            let k = choose|k: int| 0 <= k < ow.len() && ow[k] == loadout@[i as int]@;
                            assert(self.owned_equipment@[k]@ == loadout@[i as int]@);
                        }
                    }
                    lemma_first_unowned_at(ow, views(loadout@), i as int);
                }
                let mut m = owned("you do not own '");
                m.append(loadout[i].as_str());
                m.append("'");
                return Err(m);
            }
            proof {
                let ow = views(self.owned_equipment@);
                let k = choose|k: int|
                    0 <= k < self.owned_equipment@.len() && (#[trigger] self.owned_equipment@[k])@
                        == loadout@[i as int]@;
                assert(ow[k] == loadout@[i as int]@);
            }
            i = i + 1;
        }
        proof {
            lemma_first_unowned_none(views(self.owned_equipment@), views(loadout@));
        }
        self.offer_index = self.offer_index + 1;
        let config = MissionConfig::new(offer.seed, offer.venue.as_str()).with_constraint(
            copy_constraint(&offer.constraint),
        ).with_loadout(loadout).with_heat(offer.heat);
        Ok(config)
    }

    /// Applies a finished mission to the campaign per the standing rules,
    /// returning the debrief summary.
    pub fn resolve(&mut self, data: &GameData, offer: &ContractOffer, resolution: &MissionResolution) -> (s:
        ResolutionSummary)
        requires
            result_of(resolution.outcome, resolution.breach_reason.is_some())
                == ContractResult::Completed ==> i64::MIN <= old(self).cash + offer.payout <= i64::MAX,
            result_of(resolution.outcome, resolution.breach_reason.is_some())
                == ContractResult::Arrested ==> i64::MIN <= old(self).cash - spec_fine(
                data.campaign.arrest_fine,
                old(self).cash,
            ) <= i64::MAX,
            resolution.mission_heat >= data.campaign.hot_mission_threshold ==> forall|i: int|
                0 <= i < old(self).district_heat@.len() && (#[trigger] old(self).district_heat@[i]).0@
                    == offer.district@ ==> old(self).district_heat@[i].1 <= data.campaign.district_heat_max
                    && old(self).district_heat@[i].1 <= 253,
        ensures
            ({
                let result = result_of(resolution.outcome, resolution.breach_reason.is_some());
                let hot = resolution.mission_heat >= data.campaign.hot_mission_threshold;
                &&& s.result == result
                &&& s.payout == if result == ContractResult::Completed {
                    offer.payout
                } else {
                    0
                }
                &&& s.fine == if result == ContractResult::Arrested {
                    spec_fine(data.campaign.arrest_fine, old(self).cash)
                } else {
                    0
                }
                &&& final(self).cash == old(self).cash + s.payout - s.fine
                &&& (views(final(self).owned_equipment@), views(s.confiscated@)) == if result
                    == ContractResult::Arrested {
                    confiscate(views(old(self).owned_equipment@), views(resolution.loadout@))
                } else {
                    (views(old(self).owned_equipment@), Seq::empty())
                }
                &&& final(self).over == (old(self).over || result == ContractResult::Killed)
                &&& final(self).district_heat@.len() == old(self).district_heat@.len()
                &&& forall|i: int|
                    0 <= i < final(self).district_heat@.len() ==> (#[trigger] final(self).district_heat@[i]).0 == old(self).district_heat@[i].0 && final(self).district_heat@[i].1 == heat_after(
                        old(self).district_heat@[i].1,
                        old(self).district_heat@[i].0@ == offer.district@,
                        hot,
                        data.campaign.district_heat_max,
                    )
                &&& s.district_heat_change == match last_entry(old(self).district_heat@, offer.district@) {
                    Some(k) => if hot {
                        heat_after(
                            old(self).district_heat@[k].1,
                            true,
                            true,
                            data.campaign.district_heat_max,
                        ) - old(self).district_heat@[k].1
                    } else {
                        0
                    },
                    None => 0,
                }
                &&& final(self).history@.len() == old(self).history@.len() + 1
                &&& forall|i: int|
                    0 <= i < old(self).history@.len() ==> #[trigger] final(self).history@[i] == old(self).history@[i]
                &&& final(self).history@.last().district@ == offer.district@
                &&& final(self).history@.last().venue@ == offer.venue@
                &&& final(self).history@.last().result == result
                &&& final(self).history@.last().payout == s.payout
                &&& s.breach_reason.is_some() == resolution.breach_reason.is_some()
                &&& s.breach_reason matches Some(b) ==> b@ == resolution.breach_reason.unwrap()@
                &&& final(self).version == old(self).version
                &&& final(self).seed == old(self).seed
                &&& final(self).offer_index == old(self).offer_index
            }),
    {
        let breached = resolution.breach_reason.is_some();
        let result = match resolution.outcome {
            Some(MissionOutcome::Extracted) => if breached {
                ContractResult::CompletedUnclean
            } else {
                ContractResult::Completed
            },
            Some(MissionOutcome::TargetEscaped) => ContractResult::TargetEscaped,
            Some(MissionOutcome::Arrested) => ContractResult::Arrested,
            Some(MissionOutcome::PlayerKilled) => ContractResult::Killed,
            None => ContractResult::Abandoned,
        };
        let payout: i64 = if result == ContractResult::Completed {
            offer.payout
        } else {
            0
        };
        self.cash = self.cash + payout;
        // Arrest: the fine, and everything carried is confiscated.
        let mut fine: i64 = 0;
        let mut confiscated: Vec<String> = Vec::new();
        if result == ContractResult::Arrested {
            let available: i64 = if self.cash > 0 {
                self.cash
            } else {
                0
            };
            fine = if data.campaign.arrest_fine <= available {
                data.campaign.arrest_fine
            } else {
                available
            };
            self.cash = self.cash - fine;
            confiscated = confiscate_loadout(&mut self.owned_equipment, &resolution.loadout);
        }
        if result == ContractResult::Killed {
            self.over = true;
        }
        // Heat: a hot mission raises the district; every other district
        // decays as contracts pass elsewhere.
        let hot = resolution.mission_heat >= data.campaign.hot_mission_threshold;
        let district_heat_change = update_heat(
            &mut self.district_heat,
            offer.district.as_str(),
            hot,
            data.campaign.district_heat_max,
        );
        self.history.push(
            ContractRecord {
                district: offer.district.clone(),
                venue: offer.venue.clone(),
                result,
                payout,
            },
        );
        ResolutionSummary {
            result,
            payout,
            fine,
            confiscated,
            district_heat_change,
            breach_reason: clone_opt_string(&resolution.breach_reason),
        }
    }

    /// Buys a catalogue item into the stash.
    #[verifier::rlimit(40)]
    pub fn buy(&mut self, data: &GameData, item: &str) -> (r: Result<(), String>)
        requires
            forall|i: int|
                0 <= i < data.equipment@.len() && (#[trigger] data.equipment@[i]).item@ == item@
                    ==> old(self).cash - data.equipment@[i].price <= i64::MAX,
        ensures
            match first_equipment(data.equipment@, item@) {
                None => r matches Err(m) && m@ == "'"@ + item@ + "' is not in the catalogue"@,
                Some(k) => if views(old(self).owned_equipment@).contains(item@) {
                    r matches Err(m) && m@ == "already owned"@
                } else if old(self).cash < data.equipment@[k].price {
                    r matches Err(m) && m@ == "not enough cash"@
                } else {
                    &&& r is Ok
                    &&& final(self).cash == old(self).cash - data.equipment@[k].price
                    &&& views(final(self).owned_equipment@) == views(old(self).owned_equipment@).push(
                        item@,
                    )
                },
            },
            r is Err ==> *final(self) == *old(self),
            r is Ok ==> final(self).version == old(self).version && final(self).seed == old(self).seed
                && final(self).district_heat == old(self).district_heat && final(self).history
                == old(self).history && final(self).offer_index == old(self).offer_index
                && final(self).over == old(self).over,
    {
        let found = find_equipment(data, item);
        if found.is_none() {
            let mut m = owned("'");
            m.append(item);
            m.append("' is not in the catalogue");
            return Err(m);
        }
        let k = found.unwrap();
        let price = data.equipment[k].price;
        if holds(&self.owned_equipment, item) {
            return Err(owned("already owned"));
        }
        if self.cash < price {
            return Err(owned("not enough cash"));
        }
        let ghost before = self.owned_equipment@;
        self.cash = self.cash - price;
        self.owned_equipment.push(owned(item));
        assert(views(self.owned_equipment@) =~= views(before).push(item@));
        Ok(())
    }
}

/// Index of the first copy of `item` in `list`.
fn position_of(list: &Vec<String>, item: &str) -> (r: Option<usize>)
    ensures
        match r {
            Some(i) => views(list@).contains(item@) && i as int == first_index_of(views(list@), item@)
                && i < list@.len(),
            None => !views(list@).contains(item@),
        },
{
    let ghost v = views(list@);
    let mut i: usize = 0;
    while i < list.len()
        invariant
            0 <= i <= list@.len(),
            v == views(list@),
            forall|j: int| 0 <= j < i ==> #[trigger] v[j] != item@,
        decreases list@.len() - i,
    {
        if str_eq(list[i].as_str(), item) {
            proof {
                assert(v[i as int] == item@);
                let k = first_index_of(v, item@);
                if k > i {
                    assert(v[i as int] != item@);
                }
            }
            return Some(i);
        }
        i = i + 1;
    }
    proof {
        if v.contains(item@) {
            let k = choose|k: int| 0 <= k < v.len() && v[k] == item@;
            assert(v[k] != item@);
        }
    }
    None
}

/// Takes each loadout item, in order, out of the stash (its first copy)
/// if the stash holds it, returning what was taken.
fn confiscate_loadout(stash: &mut Vec<String>, loadout: &Vec<String>) -> (taken: Vec<String>)
    ensures
        (views(final(stash)@), views(taken@)) == confiscate(views(old(stash)@), views(loadout@)),
{
    let mut taken: Vec<String> = Vec::new();
    let mut i: usize = 0;
    while i < loadout.len()
        invariant
            0 <= i <= loadout@.len(),
            (views(stash@), views(taken@)) == confiscate(
                views(old(stash)@),
                views(loadout@).subrange(0, i as int),
            ),
        decreases loadout@.len() - i,
    {
        let ghost before_stash = views(stash@);
        let ghost before_taken = views(taken@);
        proof {
            let s = views(loadout@).subrange(0, i as int + 1);
            assert(s.drop_last() == views(loadout@).subrange(0, i as int));
            assert(s.last() == loadout@[i as int]@);
        }
        match position_of(stash, loadout[i].as_str()) {
            Some(index) => {
                let ghost old_stash = stash@;
                stash.remove(index);
                taken.push(loadout[i].clone());
                assert(views(stash@) =~= before_stash.remove(index as int));
                assert(views(taken@) =~= before_taken.push(loadout@[i as int]@));
            },
            None => {},
        }
        i = i + 1;
    }
    assert(views(loadout@).subrange(0, loadout@.len() as int) == views(loadout@));
    taken
}

/// Applies the heat rule to every district and reports how much the
/// contract's district changed.
fn update_heat(heat: &mut Vec<(String, u8)>, district: &str, hot: bool, cap: u8) -> (change: i8)
    requires
        hot ==> forall|i: int|
            0 <= i < old(heat)@.len() && (#[trigger] old(heat)@[i]).0@ == district@ ==> old(heat)@[i].1
                <= cap && old(heat)@[i].1 <= 253,
    ensures
        final(heat)@.len() == old(heat)@.len(),
        forall|i: int|
            0 <= i < final(heat)@.len() ==> (#[trigger] final(heat)@[i]).0 == old(heat)@[i].0
                && final(heat)@[i].1 == heat_after(
                old(heat)@[i].1,
                old(heat)@[i].0@ == district@,
                hot,
                cap,
            ),
        change == match last_entry(old(heat)@, district@) {
            Some(k) => if hot {
                heat_after(old(heat)@[k].1, true, true, cap) - old(heat)@[k].1
            } else {
                0
            },
            None => 0,
        },
{
    let ghost start = heat@;
    let mut change: i8 = 0;
    let mut i: usize = 0;
    while i < heat.len()
        invariant
            0 <= i <= heat@.len(),
            heat@.len() == start.len(),
            hot ==> forall|k: int|
                0 <= k < start.len() && (#[trigger] start[k]).0@ == district@ ==> start[k].1 <= cap
                    && start[k].1 <= 253,
            forall|k: int| i <= k < heat@.len() ==> #[trigger] heat@[k] == start[k],
            forall|k: int|
                0 <= k < i ==> (#[trigger] heat@[k]).0 == start[k].0 && heat@[k].1 == heat_after(
                    start[k].1,
                    start[k].0@ == district@,
                    hot,
                    cap,
                ),
            change == match last_entry(start.subrange(0, i as int), district@) {
                Some(k) => if hot {
                    heat_after(start[k].1, true, true, cap) - start[k].1
                } else {
                    0
                },
                None => 0,
            },
        decreases heat@.len() - i,
    {
        let name = heat[i].0.clone();
        let h = heat[i].1;
        let is_district = str_eq(name.as_str(), district);
        let mut new_h: u8 = h;
        proof {
            assert(heat@[i as int] == start[i as int]);
        }
        if is_district {
            if hot {
                let raised: u8 = h + 2;
                new_h = if raised <= cap {
                    raised
                } else {
                    cap
                };
                change = (new_h - h) as i8;
            }
        } else {
            new_h = if h > 0 {
                h - 1
            } else {
                0
            };
        }
        let entry = (name, new_h);
        heat.set(i, entry);
        assert(heat@[i as int].0@ == start[i as int].0@);
        proof {
            let s = start.subrange(0, i as int + 1);
            assert(s.drop_last() == start.subrange(0, i as int));
            lemma_last_entry_step(start, i as int, district@);
        }
        i = i + 1;
    }
    assert(start.subrange(0, start.len() as int) == start);
    change
}

proof fn lemma_last_entry_step(heat: Seq<(String, u8)>, i: int, district: Seq<char>)
    requires
        0 <= i < heat.len(),
    ensures
        last_entry(heat.subrange(0, i + 1), district) == if heat[i].0@ == district {
            Some(i)
        } else {
            last_entry(heat.subrange(0, i), district)
        },
{
    let s = heat.subrange(0, i + 1);
    assert(s.drop_last() == heat.subrange(0, i));
    assert(s.last() == heat[i]);
}

/// The first loadout index whose item the stash does not hold.
pub open spec fn first_unowned(owned: Seq<Seq<char>>, loadout: Seq<Seq<char>>) -> Option<int> {
    if exists|i: int| 0 <= i < loadout.len() && !owned.contains(#[trigger] loadout[i]) {
        Some(
            choose|i: int|
                0 <= i < loadout.len() && !owned.contains(loadout[i]) && forall|j: int|
                    0 <= j < i ==> owned.contains(#[trigger] loadout[j]),
        )
    } else {
        None
    }
}

proof fn lemma_first_unowned_at(owned: Seq<Seq<char>>, loadout: Seq<Seq<char>>, i: int)
    requires
        0 <= i < loadout.len(),
        !owned.contains(loadout[i]),
        forall|j: int| 0 <= j < i ==> owned.contains(#[trigger] loadout[j]),
    ensures
        first_unowned(owned, loadout) == Some(i),
{
    let k = choose|k: int|
        0 <= k < loadout.len() && !owned.contains(loadout[k]) && forall|j: int|
            0 <= j < k ==> owned.contains(#[trigger] loadout[j]);
    if k < i {
        assert(owned.contains(loadout[k]));
    } else if k > i {
        assert(owned.contains(loadout[i]));
    }
}

proof fn lemma_first_unowned_none(owned: Seq<Seq<char>>, loadout: Seq<Seq<char>>)
    requires
        forall|j: int| 0 <= j < loadout.len() ==> owned.contains(#[trigger] loadout[j]),
    ensures
        first_unowned(owned, loadout).is_none(),
{
}

/// The first catalogue entry for `item`.
pub open spec fn first_equipment(e: Seq<crate::data::EquipmentSpec>, item: Seq<char>) -> Option<int> {
    if exists|i: int| 0 <= i < e.len() && (#[trigger] e[i]).item@ == item {
        Some(
            choose|i: int|
                0 <= i < e.len() && e[i].item@ == item && forall|j: int|
                    0 <= j < i ==> (#[trigger] e[j]).item@ != item,
        )
    } else {
        None
    }
}

/// Index of the first catalogue entry for `item`.
fn find_equipment(data: &GameData, item: &str) -> (r: Option<usize>)
    ensures
        first_equipment(data.equipment@, item@) == match r {
            Some(k) => Some(k as int),
            None => None::<int>,
        },
        r matches Some(k) ==> k < data.equipment@.len() && data.equipment@[k as int].item@ == item@,
{
    let mut k: usize = 0;
    while k < data.equipment.len()
        invariant
            0 <= k <= data.equipment@.len(),
            forall|j: int| 0 <= j < k ==> (#[trigger] data.equipment@[j]).item@ != item@,
        decreases data.equipment@.len() - k,
    {
        if str_eq(data.equipment[k].item.as_str(), item) {
            proof {
                let e = data.equipment@;
                let c = choose|c: int|
                    0 <= c < e.len() && e[c].item@ == item@ && forall|j: int|
                        0 <= j < c ==> (#[trigger] e[j]).item@ != item@;
                assert(e[k as int].item@ == item@);
                if c > k {
                    assert(e[k as int].item@ != item@);
                }
            }
            return Some(k);
        }
        k = k + 1;
    }
    None
}

/// An in-memory store for tests and defaults.
pub struct MemoryStore {
    document: Option<String>,
}

impl Default for MemoryStore {
    /// A fresh store holds no document.
    fn default() -> (r: Self)
        ensures
            r.stored() is None,
    {
        MemoryStore { document: None }
    }
}

impl CampaignStore for MemoryStore {
    closed spec fn stored(&self) -> Option<Seq<char>> {
        match self.document {
            Some(d) => Some(d@),
            None => None,
        }
    }

    fn load(&self) -> Option<String> {
        clone_opt_string(&self.document)
    }

    fn save(&mut self, document: &str) {
        self.document = Some(owned(document));
    }

    fn clear(&mut self) {
        self.document = None;
    }
}

} // verus!

verus! {

/// Confiscation only moves equipment: whatever leaves the stash is
/// exactly what is reported taken, so nothing is lost or invented.
pub proof fn law_confiscation_moves_items(owned: Seq<Seq<char>>, loadout: Seq<Seq<char>>)
    ensures
        confiscate(owned, loadout).0.len() + confiscate(owned, loadout).1.len() == owned.len(),
        confiscate(owned, loadout).1.len() <= loadout.len(),
    decreases loadout.len(),
{
    if loadout.len() > 0 {
        law_confiscation_moves_items(owned, loadout.drop_last());
        let prev = confiscate(owned, loadout.drop_last());
        let item = loadout.last();
        if prev.0.contains(item) {
            lemma_first_index_of(prev.0, item);
        }
    }
}

/// A list holding `item` has a first copy of it.
pub proof fn lemma_first_index_of(list: Seq<Seq<char>>, item: Seq<char>)
    requires
        list.contains(item),
    ensures
        0 <= first_index_of(list, item) < list.len(),
        list[first_index_of(list, item)] == item,
{
    let w = lemma_minimal_copy(list, item);
    let c = first_index_of(list, item);
    assert(0 <= c < list.len() && list[c] == item);
}

/// A minimal index of `item`, which witnesses [`first_index_of`].
proof fn lemma_minimal_copy(list: Seq<Seq<char>>, item: Seq<char>) -> (w: int)
    requires
        list.contains(item),
    ensures
        0 <= w < list.len(),
        list[w] == item,
        forall|j: int| 0 <= j < w ==> #[trigger] list[j] != item,
    decreases list.len(),
{
    if list[0] == item {
        0
    } else {
        let rest = list.drop_first();
        let k = choose|k: int| 0 <= k < list.len() && list[k] == item;
        assert(rest[k - 1] == item);
        let i = lemma_minimal_copy(rest, item);
        assert forall|j: int| 0 <= j < i + 1 implies #[trigger] list[j] != item by {
            if j > 0 {
                assert(list[j] == rest[j - 1]);
            }
        }
        i + 1
    }
}

/// A bought item is in the stash afterwards, so buying it again is
/// refused as already owned: equipment is bought once.
pub proof fn law_bought_items_are_owned(before: Seq<Seq<char>>, after: Seq<Seq<char>>, item: Seq<char>)
    requires
        after == before.push(item),
    ensures
        after.contains(item),
{
    assert(after[before.len() as int] == item);
}

/// District heat never rises above the cap once within it, and cooling
/// never goes below zero.
pub proof fn law_heat_stays_within_cap(h: u8, is_contract_district: bool, hot: bool, cap: u8)
    requires
        h <= cap,
    ensures
        heat_after(h, is_contract_district, hot, cap) <= cap,
        !is_contract_district ==> heat_after(h, is_contract_district, hot, cap) == if h > 0 {
            h - 1
        } else {
            0
        },
{
}

/// Only a hot mission changes its own district, heating it by two up to
/// the cap; after any other mission the contract's district keeps its
/// heat, while every other district cools by one down to zero.
pub proof fn law_only_a_hot_mission_heats_its_district(h: u8, cap: u8)
    requires
        h <= cap,
    ensures
        heat_after(h, true, false, cap) == h,
        h + 2 <= cap ==> heat_after(h, true, true, cap) == h + 2,
        h + 2 > cap ==> heat_after(h, true, true, cap) == cap,
        h > 0 ==> heat_after(h, false, true, cap) == h - 1 && heat_after(h, false, false, cap) == h - 1,
        h == 0 ==> heat_after(h, false, true, cap) == 0 && heat_after(h, false, false, cap) == 0,
{
}

/// An arrest fine takes the whole fine when the player can pay it, and
/// otherwise everything the player has, never driving cash below zero
/// nor below where it already stood.
pub proof fn law_fine_never_overdraws(fine: i64, cash: i64)
    requires
        fine >= 0,
    ensures
        0 <= spec_fine(fine, cash) <= fine,
        fine <= cash ==> spec_fine(fine, cash) == fine,
        fine > cash ==> spec_fine(fine, cash) == if cash > 0 {
            cash
        } else {
            0
        },
        cash - spec_fine(fine, cash) >= 0 || spec_fine(fine, cash) == 0,
{
}

/// Pay comes only from a clean extraction; an extraction that broke the
/// contract's condition is unclean, and each other outcome names its own
/// result.
pub proof fn law_only_a_clean_extraction_completes(outcome: Option<MissionOutcome>, breached: bool)
    ensures
        (result_of(outcome, breached) == ContractResult::Completed) == (outcome == Some(MissionOutcome::Extracted)
            && !breached),
        (result_of(outcome, breached) == ContractResult::CompletedUnclean) == (outcome == Some(
            MissionOutcome::Extracted,
        ) && breached),
        (result_of(outcome, breached) == ContractResult::Arrested) == (outcome == Some(MissionOutcome::Arrested)),
        (result_of(outcome, breached) == ContractResult::Killed) == (outcome == Some(MissionOutcome::PlayerKilled)),
        (result_of(outcome, breached) == ContractResult::TargetEscaped) == (outcome == Some(
            MissionOutcome::TargetEscaped,
        )),
        (result_of(outcome, breached) == ContractResult::Abandoned) == (outcome is None),
{
}

/// Declining a board always yields a different board stream.
pub proof fn law_refresh_changes_the_board(seed: u64, offer_index: u64)
    requires
        offer_index < u64::MAX,
    ensures
        seed ^ offer_index != seed ^ ((offer_index + 1) as u64),
{
    let next: u64 = (offer_index + 1) as u64;
    assert(offer_index != next);
    assert(offer_index != next ==> seed ^ offer_index != seed ^ next) by (bit_vector);
}

} // verus!
