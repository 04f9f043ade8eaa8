//! Localisation: every player-facing string, keyed by a stable ID.
//!
//! The catalogue is a table of `(id, text)` rows, in ID order, read from
//! the authored string table by the program around this library. Lookups
//! never fail: a missing id renders as the loud [`MISSING`] placeholder.
use vstd::prelude::*;

use crate::text::{chars_of, str_eq, starts_with, string_of, views};

verus! {

/// Rendered in place of a string whose ID is not in the catalogue.
pub const MISSING: &'static str = "!!MISSING STRING!!";

/// One catalogue row.
#[derive(Clone, Debug)]
pub struct Row {
    pub id: String,
    pub text: String,
}

/// The string catalogue: rows in strictly ascending ID order, so that each
/// ID names at most one row.
#[derive(Debug)]
pub struct Catalogue {
    rows: Vec<Row>,
}

impl Catalogue {
    /// The rows, in ID order.
    pub closed spec fn table(&self) -> Seq<Row> {
        self.rows@
    }

    #[verifier::type_invariant]
    spec fn ordered(self) -> bool {
        rows_in_order(self.rows@)
    }

    /// Index of the first row carrying `id`, if any.
    pub open spec fn find(&self, id: Seq<char>) -> Option<int> {
        if exists|i: int| 0 <= i < self.table().len() && (#[trigger] self.table()[i]).id@ == id {
            Some(
                choose|i: int|
                    0 <= i < self.table().len() && self.table()[i].id@ == id && forall|j: int|
                        0 <= j < i ==> (#[trigger] self.table()[j]).id@ != id,
            )
        } else {
            None
        }
    }

    /// The text a lookup of `id` renders.
    pub open spec fn spec_text(&self, id: Seq<char>) -> Seq<char> {
        match self.find(id) {
            Some(i) => self.table()[i].text@,
            None => MISSING@,
        }
    }

    /// An empty catalogue.
    pub fn new() -> (r: Self)
        ensures
            r.table().len() == 0,
    {
        Catalogue { rows: Vec::new() }
    }

    /// The catalogue of `rows`, put in ID order; where an ID occurs more
    /// than once the last row carrying it wins.
    pub fn from_rows(rows: Vec<Row>) -> (r: Self)
        ensures
            r.in_id_order(),
            forall|id: Seq<char>, t: Seq<char>| has_row(r.table(), id, t) <==> last_text_of(rows@, id) == Some(t),
            forall|id: Seq<char>|
                #[trigger] r.spec_text(id) == match last_text_of(rows@, id) {
                    Some(t) => t,
                    None => MISSING@,
                },
    {
        let mut table: Vec<Row> = Vec::new();
        let mut i: usize = 0;
        while i < rows.len()
            invariant
                0 <= i <= rows@.len(),
                rows_in_order(table@),
                forall|id: Seq<char>, t: Seq<char>|
                    has_row(table@, id, t) <==> last_text_of(rows@.subrange(0, i as int), id) == Some(t),
            decreases rows@.len() - i,
        {
            let row = Row { id: rows[i].id.clone(), text: rows[i].text.clone() };
            proof {
                let sub = rows@.subrange(0, i as int + 1);
                assert(sub.drop_last() =~= rows@.subrange(0, i as int));
                assert(sub.last() == rows@[i as int]);
            }
            insert_row(&mut table, row);
            i = i + 1;
        }
        proof {
            assert(rows@.subrange(0, rows@.len() as int) =~= rows@);
        }
        let r = Catalogue { rows: table };
        proof {
            assert forall|id: Seq<char>|
                #[trigger] r.spec_text(id) == match last_text_of(rows@, id) {
                    Some(t) => t,
                    None => MISSING@,
                } by {
                r.lemma_text_of_table(id);
                match last_text_of(rows@, id) {
                    Some(t) => {
                        assert(has_row(r.rows@, id, t));
                    },
                    None => {
                        assert forall|t: Seq<char>| !has_row(r.rows@, id, t) by {
                            if has_row(r.rows@, id, t) {
                                assert(last_text_of(rows@, id) == Some(t));
                            }
                        }
                    },
                }
            }
        }
        r
    }

    /// In an ID-ordered catalogue, a lookup gives the text of the one row
    /// that carries the ID, or [`MISSING`] where none does.
    proof fn lemma_text_of_table(&self, id: Seq<char>)
        requires
            rows_in_order(self.rows@),
        ensures
            forall|t: Seq<char>| has_row(self.rows@, id, t) ==> self.spec_text(id) == t,
            !(exists|t: Seq<char>| has_row(self.rows@, id, t)) ==> self.spec_text(id) == MISSING@,
    {
        assert forall|t: Seq<char>| has_row(self.rows@, id, t) implies self.spec_text(id) == t by {
            let k = choose|k: int|
                0 <= k < self.rows@.len() && (#[trigger] self.rows@[k]).id@ == id && self.rows@[k].text@ == t;
            self.lemma_text_of_row(k);
        }
        if !(exists|t: Seq<char>| has_row(self.rows@, id, t)) {
            if exists|i: int| 0 <= i < self.rows@.len() && (#[trigger] self.rows@[i]).id@ == id {
                let i = choose|i: int| 0 <= i < self.rows@.len() && (#[trigger] self.rows@[i]).id@ == id;
                assert(has_row(self.rows@, id, self.rows@[i].text@));
            }
        }
    }

    /// The text for `id`, or [`MISSING`].
    pub fn text(&self, id: &str) -> (r: String)
        ensures
            r@ == self.spec_text(id@),
    {
        let mut i: usize = 0;
        while i < self.rows.len()
            invariant
                0 <= i <= self.table().len(),
                forall|j: int| 0 <= j < i ==> (#[trigger] self.table()[j]).id@ != id@,
            decreases self.table().len() - i,
        {
            if str_eq(self.rows[i].id.as_str(), id) {
                let ghost k = self.find(id@);
                assert(self.find(id@) == Some(i as int)) by {
                    let c = choose|c: int|
                        0 <= c < self.table().len() && self.table()[c].id@ == id@ && forall|j: int|
                            0 <= j < c ==> (#[trigger] self.table()[j]).id@ != id@;
                    assert(self.table()[i as int].id@ == id@);
                    if c < i {
                    } else if c > i {
                        assert(self.table()[i as int].id@ != id@);
                    }
                }
                return self.rows[i].text.clone();
            }
            i = i + 1;
        }
        MISSING.to_owned()
    }

    /// The text for `id` with each `{name}` slot replaced by its argument.
    pub fn fmt(&self, id: &str, args: &[(&str, &str)]) -> (r: String)
        ensures
            r@ == filled(self.spec_text(id@), arg_views(args@)),
    {
        let text = self.text(id);
        interpolate(text.as_str(), args)
    }

    /// The text for `id` with its `{slot}` filled by `value`.
    pub fn fmt_one(&self, id: &str, slot: &str, value: &str) -> (r: String)
        ensures
            r@ == filled(self.spec_text(id@), seq![(slot@, value@)]),
    {
        let args: [(&str, &str); 1] = [(slot, value)];
        let r = self.fmt(id, args.as_slice());
        assert(arg_views(args@) =~= seq![(slot@, value@)]);
        r
    }

    /// The text for `id` with two named slots filled.
    pub fn fmt_two(&self, id: &str, slot_a: &str, value_a: &str, slot_b: &str, value_b: &str) -> (r:
        String)
        ensures
            r@ == filled(self.spec_text(id@), seq![(slot_a@, value_a@), (slot_b@, value_b@)]),
    {
        let args: [(&str, &str); 2] = [(slot_a, value_a), (slot_b, value_b)];
        let r = self.fmt(id, args.as_slice());
        assert(arg_views(args@) =~= seq![(slot_a@, value_a@), (slot_b@, value_b@)]);
        r
    }

    /// Every text whose ID starts with `prefix`, in catalogue order.
    pub fn pool(&self, prefix: &str) -> (r: Vec<String>)
        ensures
            views(r@) == pool_of(self.table(), prefix@),
            views(r@).len() == pool_ids_of(self.table(), prefix@).len(),
            forall|k: int|
                0 <= k < views(r@).len() ==> #[trigger] views(r@)[k] == self.spec_text(
                    pool_ids_of(self.table(), prefix@)[k],
                ),
    {
        proof {
            use_type_invariant(self);
        }
        let mut r: Vec<String> = Vec::new();
        let mut i: usize = 0;
        while i < self.rows.len()
            invariant
                0 <= i <= self.table().len(),
                views(r@) == pool_of(self.table().subrange(0, i as int), prefix@),
            decreases self.table().len() - i,
        {
            let ghost before = r@;
            assert(self.table().subrange(0, i as int + 1).drop_last() == self.table().subrange(0, i as int));
            if starts_with(self.rows[i].id.as_str(), prefix) {
                r.push(self.rows[i].text.clone());
                assert(views(r@) == views(before).push(self.table()[i as int].text@));
            }
            i = i + 1;
        }
        assert(self.table().subrange(0, self.table().len() as int) == self.table());
        proof {
            lemma_pool_rows(self.table(), prefix@);
            let ix = prefixed_rows(self.table(), prefix@);
            assert forall|k: int|
                0 <= k < views(r@).len() implies #[trigger] views(r@)[k] == self.spec_text(
                pool_ids_of(self.table(), prefix@)[k],
            ) by {
                self.lemma_text_of_row(ix[k]);
            }
        }
        r
    }

    /// The IDs behind [`Catalogue::pool`]: every ID that starts with
    /// `prefix`, in catalogue order.
    pub fn pool_ids(&self, prefix: &str) -> (r: Vec<String>)
        ensures
            views(r@) == pool_ids_of(self.table(), prefix@),
            views(r@).len() == pool_of(self.table(), prefix@).len(),
            forall|k: int| 0 <= k < views(r@).len() ==> has_prefix(#[trigger] views(r@)[k], prefix@),
            forall|i: int, j: int|
                0 <= i < j < views(r@).len() ==> id_before(#[trigger] views(r@)[i], #[trigger] views(r@)[j]),
            forall|k: int|
                0 <= k < views(r@).len() ==> #[trigger] pool_of(self.table(), prefix@)[k] == self.spec_text(
                    views(r@)[k],
                ),
    {
        proof {
            use_type_invariant(self);
        }
        let mut r: Vec<String> = Vec::new();
        let mut i: usize = 0;
        while i < self.rows.len()
            invariant
                0 <= i <= self.table().len(),
                views(r@) == pool_ids_of(self.table().subrange(0, i as int), prefix@),
            decreases self.table().len() - i,
        {
            let ghost before = r@;
            assert(self.table().subrange(0, i as int + 1).drop_last() == self.table().subrange(0, i as int));
            if starts_with(self.rows[i].id.as_str(), prefix) {
                r.push(self.rows[i].id.clone());
                assert(views(r@) == views(before).push(self.table()[i as int].id@));
            }
            i = i + 1;
        }
        assert(self.table().subrange(0, self.table().len() as int) == self.table());
        proof {
            lemma_pool_rows(self.table(), prefix@);
            let ix = prefixed_rows(self.table(), prefix@);
            assert forall|k: int| 0 <= k < views(r@).len() implies has_prefix(#[trigger] views(r@)[k], prefix@) by {
                let i = ix[k];
                assert(views(r@)[k] == self.table()[i].id@);
            }
            assert forall|a: int, b: int|
                0 <= a < b < views(r@).len() implies id_before(#[trigger] views(r@)[a], #[trigger] views(r@)[b]) by {
                let ia = ix[a];
                let ib = ix[b];
                assert(ia < ib);
                assert(id_before(self.table()[ia].id@, self.table()[ib].id@));
            }
            assert forall|k: int|
                0 <= k < views(r@).len() implies #[trigger] pool_of(self.table(), prefix@)[k] == self.spec_text(
                views(r@)[k],
            ) by {
                self.lemma_text_of_row(ix[k]);
            }
        }
        r
    }

    /// Whether the rows run in strictly ascending ID order, so that each ID
    /// names exactly one row.
    pub open spec fn in_id_order(&self) -> bool {
        forall|i: int, j: int|
            0 <= i < j < self.table().len() ==> id_before(#[trigger] self.table()[i].id@, #[trigger] self.table()[j].id@)
    }

    /// In an ID-ordered catalogue, the text of a row's ID is that row's
    /// text.
    pub proof fn lemma_text_of_row(&self, i: int)
        requires
            self.in_id_order(),
            0 <= i < self.table().len(),
        ensures
            self.spec_text(self.table()[i].id@) == self.table()[i].text@,
    {
        let id = self.table()[i].id@;
        assert forall|j: int| 0 <= j < i implies (#[trigger] self.table()[j]).id@ != id by {
            assert(id_before(self.table()[j].id@, self.table()[i].id@));
            if self.table()[j].id@ == id {
                lemma_id_before_irreflexive(id);
            }
        }
        let c = self.find(id).unwrap();
        if c < i {
            assert(self.table()[c].id@ != id);
        } else if c > i {
            assert(self.table()[i].id@ != id);
        }
    }
}

/// Whether `rows` run in strictly ascending ID order.
pub open spec fn rows_in_order(rows: Seq<Row>) -> bool {
    forall|i: int, j: int| 0 <= i < j < rows.len() ==> id_before(#[trigger] rows[i].id@, #[trigger] rows[j].id@)
}

/// Whether some row of `rows` carries `id` with `text`.
pub open spec fn has_row(rows: Seq<Row>, id: Seq<char>, text: Seq<char>) -> bool {
    exists|k: int| 0 <= k < rows.len() && (#[trigger] rows[k]).id@ == id && rows[k].text@ == text
}

/// The text of the last row of `rows` that carries `id`.
pub open spec fn last_text_of(rows: Seq<Row>, id: Seq<char>) -> Option<Seq<char>>
    decreases rows.len(),
{
    if rows.len() == 0 {
        None
    } else if rows.last().id@ == id {
        Some(rows.last().text@)
    } else {
        last_text_of(rows.drop_last(), id)
    }
}

/// Whether ID `a` sorts strictly before ID `b`: character by character,
/// a proper prefix first.
pub open spec fn id_before(a: Seq<char>, b: Seq<char>) -> bool
    decreases a.len(),
{
    if a.len() == 0 {
        b.len() > 0
    } else if b.len() == 0 {
        false
    } else if a[0] != b[0] {
        (a[0] as int) < (b[0] as int)
    } else {
        id_before(a.drop_first(), b.drop_first())
    }
}

/// No ID sorts before itself.
pub proof fn lemma_id_before_irreflexive(a: Seq<char>)
    ensures
        !id_before(a, a),
    decreases a.len(),
{
    if a.len() > 0 {
        lemma_id_before_irreflexive(a.drop_first());
    }
}

/// No two IDs sort before each other.
pub proof fn lemma_id_before_asymmetric(a: Seq<char>, b: Seq<char>)
    ensures
        id_before(a, b) ==> !id_before(b, a),
    decreases a.len(),
{
    if a.len() > 0 && b.len() > 0 && a[0] == b[0] {
        lemma_id_before_asymmetric(a.drop_first(), b.drop_first());
    }
}

/// ID order is transitive.
pub proof fn lemma_id_before_transitive(a: Seq<char>, b: Seq<char>, c: Seq<char>)
    requires
        id_before(a, b),
        id_before(b, c),
    ensures
        id_before(a, c),
    decreases a.len(),
{
    if a.len() > 0 && a[0] == b[0] && b[0] == c[0] {
        lemma_id_before_transitive(a.drop_first(), b.drop_first(), c.drop_first());
    }
}

/// Of two different IDs, one sorts before the other.
pub proof fn lemma_id_before_total(a: Seq<char>, b: Seq<char>)
    ensures
        a == b || id_before(a, b) || id_before(b, a),
    decreases a.len(),
{
    if a.len() == 0 && b.len() == 0 {
        assert(a =~= b);
    } else if a.len() > 0 && b.len() > 0 && a[0] == b[0] {
        lemma_id_before_total(a.drop_first(), b.drop_first());
        if a.drop_first() == b.drop_first() {
            assert(a =~= seq![a[0]] + a.drop_first());
            assert(b =~= seq![b[0]] + b.drop_first());
        }
    }
}

/// Whether ID `a` sorts strictly before ID `b`.
pub fn id_less(a: &str, b: &str) -> (r: bool)
    ensures
        r == id_before(a@, b@),
{
    let ac = chars_of(a);
    let bc = chars_of(b);
    let mut i: usize = 0;
    proof {
        assert(a@.skip(0) =~= a@);
        assert(b@.skip(0) =~= b@);
    }
    while i < ac.len() && i < bc.len()
        invariant
            0 <= i <= ac@.len(),
            i <= bc@.len(),
            ac@ == a@,
            bc@ == b@,
            id_before(a@, b@) == id_before(a@.skip(i as int), b@.skip(i as int)),
        decreases ac@.len() - i,
    {
        let x = ac[i];
        let y = bc[i];
        if x != y {
            proof {
                assert(a@.skip(i as int)[0] == x);
                assert(b@.skip(i as int)[0] == y);
            }
            return x < y;
        }
        proof {
            assert(a@.skip(i as int).drop_first() =~= a@.skip(i as int + 1));
            assert(b@.skip(i as int).drop_first() =~= b@.skip(i as int + 1));
        }
        i = i + 1;
    }
    i == ac.len() && i < bc.len()
}

/// Where a row with `id` belongs in the ordered `rows`: after every row
/// that sorts before it.
fn insert_point(rows: &Vec<Row>, id: &str) -> (i: usize)
    ensures
        i <= rows@.len(),
        forall|j: int| 0 <= j < i ==> id_before(#[trigger] rows@[j].id@, id@),
        i < rows@.len() ==> !id_before(rows@[i as int].id@, id@),
{
    let mut i: usize = 0;
    while i < rows.len()
        invariant
            0 <= i <= rows@.len(),
            forall|j: int| 0 <= j < i ==> id_before(#[trigger] rows@[j].id@, id@),
        decreases rows@.len() - i,
    {
        if !id_less(rows[i].id.as_str(), id) {
            return i;
        }
        i = i + 1;
    }
    i
}

/// Puts `row` into the ordered `rows`, in place of the row with its ID
/// where there is one.
#[verifier::spinoff_prover]
#[verifier::rlimit(40)]
fn insert_row(rows: &mut Vec<Row>, row: Row)
    requires
        rows_in_order(old(rows)@),
    ensures
        rows_in_order(final(rows)@),
        forall|id: Seq<char>, t: Seq<char>|
            has_row(final(rows)@, id, t) <==> if id == row.id@ {
                t == row.text@
            } else {
                has_row(old(rows)@, id, t)
            },
{
    let ghost before = rows@;
    let i = insert_point(rows, row.id.as_str());
    let ghost rid = row.id@;
    let ghost rtext = row.text@;
    proof {
        if i < before.len() {
            lemma_id_before_total(before[i as int].id@, rid);
        }
        assert forall|j: int| 0 <= j < before.len() && j != i implies (#[trigger] before[j]).id@ != rid by {
            if j < i {
                lemma_id_before_irreflexive(rid);
            } else {
                assert(id_before(before[i as int].id@, before[j].id@));
                if before[j].id@ == rid {
                    lemma_id_before_asymmetric(before[i as int].id@, rid);
                }
            }
        }
    }
    if i < rows.len() && str_eq(rows[i].id.as_str(), row.id.as_str()) {
        rows.set(i, row);
        proof {
            let after = rows@;
            assert(after == before.update(i as int, after[i as int]));
            assert forall|a: int, b: int| 0 <= a < b < after.len() implies id_before(
                #[trigger] after[a].id@,
                #[trigger] after[b].id@,
            ) by {
                assert(id_before(before[a].id@, before[b].id@));
            }
            assert forall|id: Seq<char>, t: Seq<char>|
                has_row(after, id, t) <==> if id == rid {
                    t == rtext
                } else {
                    has_row(before, id, t)
                } by {
                if has_row(after, id, t) {
                    let k = choose|k: int| 0 <= k < after.len() && (#[trigger] after[k]).id@ == id && after[k].text@ == t;
                    if k != i {
                        assert(before[k] == after[k]);
                    }
                }
                if id == rid && t == rtext {
                    assert(after[i as int].id@ == id && after[i as int].text@ == t);
                }
                if id != rid && has_row(before, id, t) {
                    let k = choose|k: int| 0 <= k < before.len() && (#[trigger] before[k]).id@ == id && before[k].text@ == t;
                    assert(k != i);
                    assert(after[k] == before[k]);
                }
            }
        }
    } else {
        rows.insert(i, row);
        proof {
            let after = rows@;
            assert(after == before.insert(i as int, after[i as int]));
            if i < before.len() {
                assert(id_before(rid, before[i as int].id@));
            }
            assert forall|a: int, b: int| 0 <= a < b < after.len() implies id_before(
                #[trigger] after[a].id@,
                #[trigger] after[b].id@,
            ) by {
                if b < i {
                    assert(id_before(before[a].id@, before[b].id@));
                } else if b == i {
                    assert(id_before(before[a].id@, rid));
                } else if a < i {
                    assert(after[b] == before[b - 1]);
                    assert(id_before(before[a].id@, rid));
                    assert(id_before(rid, before[i as int].id@));
                    if b - 1 > i {
                        assert(id_before(before[i as int].id@, before[b - 1].id@));
                        lemma_id_before_transitive(rid, before[i as int].id@, before[b - 1].id@);
                    }
                    lemma_id_before_transitive(before[a].id@, rid, before[b - 1].id@);
                } else if a == i {
                    assert(after[b] == before[b - 1]);
                    assert(id_before(rid, before[i as int].id@));
                    if b - 1 > i {
                        assert(id_before(before[i as int].id@, before[b - 1].id@));
                        lemma_id_before_transitive(rid, before[i as int].id@, before[b - 1].id@);
                    }
                } else {
                    assert(after[a] == before[a - 1]);
                    assert(after[b] == before[b - 1]);
                    assert(id_before(before[a - 1].id@, before[b - 1].id@));
                }
            }
            assert forall|id: Seq<char>, t: Seq<char>|
                has_row(after, id, t) <==> if id == rid {
                    t == rtext
                } else {
                    has_row(before, id, t)
                } by {
                if has_row(after, id, t) {
                    let k = choose|k: int| 0 <= k < after.len() && (#[trigger] after[k]).id@ == id && after[k].text@ == t;
                    if k < i {
                        assert(before[k] == after[k]);
                    } else if k > i {
                        assert(before[k - 1] == after[k]);
                    }
                }
                if id == rid && t == rtext {
                    assert(after[i as int].id@ == id && after[i as int].text@ == t);
                }
                if id != rid && has_row(before, id, t) {
                    let k = choose|k: int| 0 <= k < before.len() && (#[trigger] before[k]).id@ == id && before[k].text@ == t;
                    if k < i {
                        assert(after[k] == before[k]);
                    } else {
                        assert(after[k + 1] == before[k]);
                    }
                }
            }
        }
    }
}

/// The indices of the rows whose ids begin with `prefix`, in row order.
pub open spec fn prefixed_rows(rows: Seq<Row>, prefix: Seq<char>) -> Seq<int>
    decreases rows.len(),
{
    if rows.len() == 0 {
        Seq::empty()
    } else {
        let rest = prefixed_rows(rows.drop_last(), prefix);
        if has_prefix(rows.last().id@, prefix) {
            rest.push(rows.len() - 1)
        } else {
            rest
        }
    }
}

/// A pool and its ids come from the same rows, taken in row order.
pub proof fn lemma_pool_rows(rows: Seq<Row>, prefix: Seq<char>)
    ensures
        prefixed_rows(rows, prefix).len() == pool_ids_of(rows, prefix).len(),
        prefixed_rows(rows, prefix).len() == pool_of(rows, prefix).len(),
        forall|k: int|
            0 <= k < prefixed_rows(rows, prefix).len() ==> {
                let i = #[trigger] prefixed_rows(rows, prefix)[k];
                &&& 0 <= i < rows.len()
                &&& pool_ids_of(rows, prefix)[k] == rows[i].id@
                &&& pool_of(rows, prefix)[k] == rows[i].text@
                &&& has_prefix(rows[i].id@, prefix)
            },
        forall|k1: int, k2: int|
            0 <= k1 < k2 < prefixed_rows(rows, prefix).len() ==> #[trigger] prefixed_rows(rows, prefix)[k1]
                < #[trigger] prefixed_rows(rows, prefix)[k2],
    decreases rows.len(),
{
    if rows.len() > 0 {
        let init = rows.drop_last();
        lemma_pool_rows(init, prefix);
        let ix0 = prefixed_rows(init, prefix);
        let ix = prefixed_rows(rows, prefix);
        assert forall|k: int| 0 <= k < ix0.len() implies ix0[k] < rows.len() - 1 && rows[ix0[k]] == init[ix0[k]] by {
            let i = ix0[k];
            assert(0 <= i < init.len());
        }
    }
}

/// Interpolation never blanks a slot: with no argument bound, every
/// template comes back exactly as written.
pub proof fn law_unbound_template_is_kept(t: Seq<char>)
    ensures
        filled(t, Seq::empty()) == t,
    decreases t.len(),
{
    if t.len() > 0 {
        if t[0] != '{' {
            law_unbound_template_is_kept(t.drop_first());
            assert(seq![t[0]] + t.drop_first() =~= t);
        } else {
            lemma_close_range(t, 1);
            match close_from(t, 1) {
                None => {},
                Some(j) => {
                    let rest = t.subrange(j + 1, t.len() as int);
                    law_unbound_template_is_kept(rest);
                    assert(t.subrange(0, j + 1) + rest =~= t);
                },
            }
        }
    }
}

/// A slot whose name is bound is replaced by its value, wherever it stands
/// and however often it occurs: what follows it is filled in turn.
pub proof fn law_bound_slot_is_replaced(
    name: Seq<char>,
    rest: Seq<char>,
    args: Seq<(Seq<char>, Seq<char>)>,
    value: Seq<char>,
)
    requires
        forall|m: int| 0 <= m < name.len() ==> name[m] != '}',
        binding(args, name) == Some(value),
    ensures
        filled(seq!['{'] + name + seq!['}'] + rest, args) == value + filled(rest, args),
{
    let t = seq!['{'] + name + seq!['}'] + rest;
    let j: int = name.len() as int + 1;
    assert(t[0] == '{');
    assert(t[j] == '}');
    assert forall|m: int| 1 <= m < j implies t[m] != '}' by {
        assert(t[m] == name[m - 1]);
    }
    lemma_close_found(t, 1, j);
    assert(t.subrange(1, j) =~= name);
    assert(t.subrange(j + 1, t.len() as int) =~= rest);
}

/// A slot whose name nothing binds stays as written, braces and all, and
/// what follows it is filled in turn.
pub proof fn law_unbound_slot_is_kept(name: Seq<char>, rest: Seq<char>, args: Seq<(Seq<char>, Seq<char>)>)
    requires
        forall|m: int| 0 <= m < name.len() ==> name[m] != '}',
        binding(args, name) is None,
    ensures
        filled(seq!['{'] + name + seq!['}'] + rest, args) == seq!['{'] + name + seq!['}'] + filled(rest, args),
{
    let t = seq!['{'] + name + seq!['}'] + rest;
    let j: int = name.len() as int + 1;
    assert(t[0] == '{');
    assert(t[j] == '}');
    assert forall|m: int| 1 <= m < j implies t[m] != '}' by {
        assert(t[m] == name[m - 1]);
    }
    lemma_close_found(t, 1, j);
    assert(t.subrange(1, j) =~= name);
    assert(t.subrange(j + 1, t.len() as int) =~= rest);
    assert(t.subrange(0, j + 1) =~= seq!['{'] + name + seq!['}']);
}

/// Text without a `{` comes through unchanged, and what follows it is
/// filled as if it stood alone.
pub proof fn law_plain_text_is_kept(plain: Seq<char>, rest: Seq<char>, args: Seq<(Seq<char>, Seq<char>)>)
    requires
        forall|m: int| 0 <= m < plain.len() ==> plain[m] != '{',
    ensures
        filled(plain + rest, args) == plain + filled(rest, args),
    decreases plain.len(),
{
    if plain.len() > 0 {
        let t = plain + rest;
        assert(t[0] == plain[0]);
        assert(t.drop_first() =~= plain.drop_first() + rest);
        law_plain_text_is_kept(plain.drop_first(), rest, args);
        assert(seq![plain[0]] + plain.drop_first() =~= plain);
        assert(seq![plain[0]] + (plain.drop_first() + filled(rest, args)) =~= plain + filled(rest, args));
    } else {
        assert(plain + rest =~= rest);
        assert(plain + filled(rest, args) =~= filled(rest, args));
    }
}

/// The value bound to `name`, the first binding winning.
pub open spec fn binding(args: Seq<(Seq<char>, Seq<char>)>, name: Seq<char>) -> Option<Seq<char>>
    decreases args.len(),
{
    if args.len() == 0 {
        None
    } else if args[0].0 == name {
        Some(args[0].1)
    } else {
        binding(args.drop_first(), name)
    }
}

/// The named arguments as character sequences.
pub open spec fn arg_views(args: Seq<(&str, &str)>) -> Seq<(Seq<char>, Seq<char>)> {
    args.map_values(|a: (&str, &str)| (a.0@, a.1@))
}

/// Index of the first `}` in `t` at or after `k`.
pub open spec fn close_from(t: Seq<char>, k: int) -> Option<int>
    decreases t.len() - k,
{
    if k < 0 || k >= t.len() {
        None
    } else if t[k] == '}' {
        Some(k)
    } else {
        close_from(t, k + 1)
    }
}

pub proof fn lemma_close_range(t: Seq<char>, k: int)
    ensures
        close_from(t, k) matches Some(j) ==> k <= j < t.len() && t[j] == '}',
    decreases t.len() - k,
{
    if 0 <= k < t.len() && t[k] != '}' {
        lemma_close_range(t, k + 1);
    }
}

proof fn lemma_close_found(t: Seq<char>, k: int, j: int)
    requires
        0 <= k <= j < t.len(),
        t[j] == '}',
        forall|m: int| k <= m < j ==> t[m] != '}',
    ensures
        close_from(t, k) == Some(j),
    decreases j - k,
{
    if k < j {
        lemma_close_found(t, k + 1, j);
    }
}

proof fn lemma_close_absent(t: Seq<char>, k: int)
    requires
        0 <= k,
        forall|m: int| k <= m < t.len() ==> t[m] != '}',
    ensures
        close_from(t, k) is None,
    decreases t.len() - k,
{
    if k < t.len() {
        lemma_close_absent(t, k + 1);
    }
}

/// `t` with each `{name}` slot whose name `args` binds replaced by its
/// value. A slot nothing binds stays as written, so a visible `{room}`
/// points at the bug; a `{` that never closes is plain text.
pub open spec fn filled(t: Seq<char>, args: Seq<(Seq<char>, Seq<char>)>) -> Seq<char>
    decreases t.len(),
{
    if t.len() == 0 {
        Seq::empty()
    } else if t[0] != '{' {
        seq![t[0]] + filled(t.drop_first(), args)
    } else {
        match close_from(t, 1) {
            None => t,
            Some(j) => {
                proof {
                    lemma_close_range(t, 1);
                }
                let rest = t.subrange(j + 1, t.len() as int);
                match binding(args, t.subrange(1, j)) {
                    Some(v) => v + filled(rest, args),
                    None => t.subrange(0, j + 1) + filled(rest, args),
                }
            },
        }
    }
}

/// The value bound to the name `t[from..to]` in `args`.
fn lookup<'a>(args: &[(&str, &'a str)], t: &Vec<char>, from: usize, to: usize) -> (r: Option<&'a str>)
    requires
        from <= to <= t@.len(),
    ensures
        match binding(arg_views(args@), t@.subrange(from as int, to as int)) {
            Some(v) => r matches Some(s) && s@ == v,
            None => r is None,
        },
{
    let ghost name = t@.subrange(from as int, to as int);
    assert(arg_views(args@).subrange(0, args@.len() as int) =~= arg_views(args@));
    let mut k: usize = 0;
    while k < args.len()
        invariant
            0 <= k <= args@.len(),
            from <= to <= t@.len(),
            name == t@.subrange(from as int, to as int),
            binding(arg_views(args@), name) == binding(arg_views(args@).subrange(k as int, args@.len() as int), name),
        decreases args@.len() - k,
    {
        let ghost rest = arg_views(args@).subrange(k as int, args@.len() as int);
        assert(rest.drop_first() == arg_views(args@).subrange(k as int + 1, args@.len() as int));
        let key = chars_of(args[k].0);
        let mut same = key.len() == to - from;
        let mut m: usize = 0;
        while same && m < key.len()
            invariant
                0 <= m <= key@.len(),
                from <= to <= t@.len(),
                same ==> key@.len() == to - from,
                same ==> forall|q: int| 0 <= q < m ==> key@[q] == t@[from + q],
                !same ==> key@ != t@.subrange(from as int, to as int),
            decreases key@.len() - m,
        {
            if key[m] != t[from + m] {
                same = false;
                assert(key@[m as int] != t@.subrange(from as int, to as int)[m as int]);
            }
            m = m + 1;
        }
        if same {
            assert(key@ =~= t@.subrange(from as int, to as int));
            return Some(args[k].1);
        }
        k = k + 1;
    }
    None
}

/// Substitutes `{name}` slots in `template`. Every occurrence of a bound
/// slot fills; unbound slots are left as written rather than blanked.
pub fn interpolate(template: &str, args: &[(&str, &str)]) -> (r: String)
    ensures
        r@ == filled(template@, arg_views(args@)),
{
    let ghost a = arg_views(args@);
    let t = chars_of(template);
    let n = t.len();
    let mut out: Vec<char> = Vec::new();
    let mut i: usize = 0;
    assert(t@.subrange(0, n as int) == t@);
    while i < n
        invariant
            0 <= i <= n,
            n == t@.len(),
            t@ == template@,
            a == arg_views(args@),
            out@ + filled(t@.subrange(i as int, n as int), a) == filled(t@, a),
        decreases n - i,
    {
        let ghost s = t@.subrange(i as int, n as int);
        let ghost before = out@;
        if t[i] != '{' {
            out.push(t[i]);
            assert(s.drop_first() == t@.subrange(i as int + 1, n as int));
            assert(out@ + filled(t@.subrange(i as int + 1, n as int), a) =~= before + filled(s, a));
            i = i + 1;
        } else {
            let mut j: usize = i + 1;
            while j < n && t[j] != '}'
                invariant
                    i + 1 <= j <= n,
                    n == t@.len(),
                    forall|m: int| i + 1 <= m < j ==> t@[m] != '}',
                decreases n - j,
            {
                j = j + 1;
            }
            if j >= n {
                proof {
                    lemma_close_absent(s, 1);
                }
                let mut m: usize = i;
                while m < n
                    invariant
                        i <= m <= n,
                        n == t@.len(),
                        out@ == before + t@.subrange(i as int, m as int),
                    decreases n - m,
                {
                    out.push(t[m]);
                    assert(t@.subrange(i as int, m as int + 1) =~= t@.subrange(i as int, m as int).push(t@[m as int]));
                    m = m + 1;
                }
                assert(filled(t@.subrange(n as int, n as int), a) =~= Seq::<char>::empty());
                assert(out@ + filled(t@.subrange(n as int, n as int), a) =~= before + filled(s, a));
                i = n;
            } else {
                proof {
                    lemma_close_found(s, 1, (j - i) as int);
                    assert(s.subrange(1, (j - i) as int) =~= t@.subrange(i as int + 1, j as int));
                    assert(s.subrange((j - i) as int + 1, s.len() as int) =~= t@.subrange(j as int + 1, n as int));
                }
                match lookup(args, &t, i + 1, j) {
                    Some(v) => {
                        let mut vs = chars_of(v);
                        out.append(&mut vs);
                    },
                    None => {
                        let mut m: usize = i;
                        while m <= j
                            invariant
                                i <= m <= j + 1,
                                j < n,
                                n == t@.len(),
                                out@ == before + t@.subrange(i as int, m as int),
                            decreases j + 1 - m,
                        {
                            out.push(t[m]);
                            assert(t@.subrange(i as int, m as int + 1) =~= t@.subrange(i as int, m as int).push(t@[m as int]));
                            m = m + 1;
                        }
                        assert(s.subrange(0, (j - i) as int + 1) =~= t@.subrange(i as int, j as int + 1));
                    },
                }
                assert(out@ + filled(t@.subrange(j as int + 1, n as int), a) =~= before + filled(s, a));
                i = j + 1;
            }
        }
    }
    assert(filled(t@.subrange(n as int, n as int), a) =~= Seq::<char>::empty());
    assert(out@ =~= filled(t@, a));
    string_of(&out)
}

/// Whether `s` begins with `p`.
pub open spec fn has_prefix(s: Seq<char>, p: Seq<char>) -> bool {
    p.len() <= s.len() && s.subrange(0, p.len() as int) == p
}

/// The texts of the rows whose ids begin with `prefix`, in row order.
pub open spec fn pool_of(rows: Seq<Row>, prefix: Seq<char>) -> Seq<Seq<char>>
    decreases rows.len(),
{
    if rows.len() == 0 {
        Seq::empty()
    } else {
        let rest = pool_of(rows.drop_last(), prefix);
        if has_prefix(rows.last().id@, prefix) {
            rest.push(rows.last().text@)
        } else {
            rest
        }
    }
}

/// The ids of the rows that begin with `prefix`, in row order.
pub open spec fn pool_ids_of(rows: Seq<Row>, prefix: Seq<char>) -> Seq<Seq<char>>
    decreases rows.len(),
{
    if rows.len() == 0 {
        Seq::empty()
    } else {
        let rest = pool_ids_of(rows.drop_last(), prefix);
        if has_prefix(rows.last().id@, prefix) {
            rest.push(rows.last().id@)
        } else {
            rest
        }
    }
}

} // verus!
