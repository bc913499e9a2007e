//! How a random pick follows from the numbers drawn: up to 64 uniform
//! draws over a range, the first that names an existing subject or entry
//! being taken; failing that, one more draw chooses among the existing
//! ones within the range.

use vstd::prelude::*;

use crate::catalog::{
    entries_view, in_range, key_is, row_is, subjects_view, Catalog, Category, CategoryEntry,
    CategoryRange, EntryView, Subject, SubjectRange, SubjectView,
};
use crate::seqs::{first_index, lemma_first_index, lemma_first_index_is, lemma_first_index_none};
use fastrand::Rng;

verus! {

/// How many uniform draws are tried before falling back to a listed key.
pub const MAX_DRAWS: usize = 64;

/// Whether a drawn level and index name an entry.
pub open spec fn names_entry(es: Seq<EntryView>) -> spec_fn((u8, u8)) -> bool {
    |d: (u8, u8)| first_index(es, key_is(d.0, d.1)) is Some
}

/// Whether a drawn row names a subject.
pub open spec fn names_subject(s: Seq<SubjectView>) -> spec_fn(u32) -> bool {
    |row: u32| first_index(s, row_is(row)) is Some
}

/// The keys of the entries that lie within a range, in archive order.
pub open spec fn keys_in_range(es: Seq<EntryView>, range: CategoryRange) -> Seq<(u8, u8)>
    decreases es.len(),
{
    if es.len() == 0 {
        seq![]
    } else {
        let ks = keys_in_range(es.drop_last(), range);
        let e = es.last();
        if in_range(e.level, e.index, range) {
            ks.push((e.level, e.index))
        } else {
            ks
        }
    }
}

/// The rows of the subjects that lie within a range, in archive order.
pub open spec fn rows_in_range(s: Seq<SubjectView>, range: SubjectRange) -> Seq<u32>
    decreases s.len(),
{
    if s.len() == 0 {
        seq![]
    } else {
        let rs = rows_in_range(s.drop_last(), range);
        let x = s.last();
        if range.min_row <= x.row <= range.max_row {
            rs.push(x.row)
        } else {
            rs
        }
    }
}

/// The key that the draws give: the first drawn key that names an entry,
/// else the in-range key at position `fallback`.
pub open spec fn key_from_draws(
    es: Seq<EntryView>,
    range: CategoryRange,
    draws: Seq<(u8, u8)>,
    fallback: int,
) -> (u8, u8) {
    match first_index(draws, names_entry(es)) {
        Some(i) => draws[i],
        None => keys_in_range(es, range)[fallback],
    }
}

/// The row that the draws give: the first drawn row that names a subject,
/// else the in-range row at position `fallback`.
pub open spec fn row_from_draws(
    s: Seq<SubjectView>,
    range: SubjectRange,
    draws: Seq<u32>,
    fallback: int,
) -> u32 {
    match first_index(draws, names_subject(s)) {
        Some(i) => draws[i],
        None => rows_in_range(s, range)[fallback],
    }
}

/// Draws of keys as the pick makes them: one to 64, each within the range,
/// stopping at the first that names an entry; the fallback, drawn only when
/// none does, is a position among the in-range keys.
pub open spec fn key_draws_made(
    es: Seq<EntryView>,
    range: CategoryRange,
    draws: Seq<(u8, u8)>,
    fallback: int,
) -> bool {
    &&& 0 < draws.len() <= MAX_DRAWS
    &&& forall|j: int|
        0 <= j < draws.len() ==> range.min_level <= (#[trigger] draws[j]).0 <= range.max_level
            && range.min_index <= draws[j].1 <= range.max_index
    &&& forall|j: int| 0 <= j < draws.len() - 1 ==> !names_entry(es)(#[trigger] draws[j])
    &&& names_entry(es)(draws.last()) || draws.len() == MAX_DRAWS
    &&& first_index(draws, names_entry(es)) is None ==> 0 <= fallback < keys_in_range(
        es,
        range,
    ).len()
}

/// Draws of rows as the pick makes them (see `key_draws_made`).
pub open spec fn row_draws_made(
    s: Seq<SubjectView>,
    range: SubjectRange,
    draws: Seq<u32>,
    fallback: int,
) -> bool {
    &&& 0 < draws.len() <= MAX_DRAWS
    &&& forall|j: int|
        0 <= j < draws.len() ==> range.min_row <= #[trigger] draws[j] <= range.max_row
    &&& forall|j: int| 0 <= j < draws.len() - 1 ==> !names_subject(s)(#[trigger] draws[j])
    &&& names_subject(s)(draws.last()) || draws.len() == MAX_DRAWS
    &&& first_index(draws, names_subject(s)) is None ==> 0 <= fallback < rows_in_range(
        s,
        range,
    ).len()
}

/// A key that some run of the draws gives.
pub open spec fn drawn_key(es: Seq<EntryView>, range: CategoryRange, key: (u8, u8)) -> bool {
    exists|draws: Seq<(u8, u8)>, fallback: int|
        key_draws_made(es, range, draws, fallback) && key == key_from_draws(
            es,
            range,
            draws,
            fallback,
        )
}

/// A row that some run of the draws gives.
pub open spec fn drawn_row(s: Seq<SubjectView>, range: SubjectRange, row: u32) -> bool {
    exists|draws: Seq<u32>, fallback: int|
        row_draws_made(s, range, draws, fallback) && row == row_from_draws(
            s,
            range,
            draws,
            fallback,
        )
}

/// `fastrand::Rng::u32` on `lo..=hi`: a number in that range (the range must
/// not be empty, else it panics).
#[verifier::external_body]
fn draw_u32(rng: &mut Rng, lo: u32, hi: u32) -> (r: u32)
    requires
        lo <= hi,
    ensures
        lo <= r <= hi,
{
    rng.u32(lo..=hi)
}

/// `fastrand::Rng::u8` on `lo..=hi`: a number in that range (the range must
/// not be empty, else it panics).
#[verifier::external_body]
fn draw_u8(rng: &mut Rng, lo: u8, hi: u8) -> (r: u8)
    requires
        lo <= hi,
    ensures
        lo <= r <= hi,
{
    rng.u8(lo..=hi)
}

/// `fastrand::Rng::usize` on `0..n`: a number below `n` (`n` must not be 0,
/// else it panics).
#[verifier::external_body]
fn draw_usize(rng: &mut Rng, n: usize) -> (r: usize)
    requires
        n > 0,
    ensures
        r < n,
{
    rng.usize(0..n)
}


/// A record of what the generator returned for this library's picks, in
/// order: the subject rows drawn, the levels and indexes drawn (as pairs),
/// and the fallback positions drawn. Only drawing adds to it.
pub struct DrawLog {
    rows: Ghost<Seq<u32>>,
    keys: Ghost<Seq<(u8, u8)>>,
    positions: Ghost<Seq<usize>>,
}

impl DrawLog {
    pub closed spec fn rows(&self) -> Seq<u32> {
        self.rows@
    }

    pub closed spec fn keys(&self) -> Seq<(u8, u8)> {
        self.keys@
    }

    pub closed spec fn positions(&self) -> Seq<usize> {
        self.positions@
    }

    /// An empty record.
    pub fn new() -> (l: Self)
        ensures
            l.rows() == Seq::<u32>::empty(),
            l.keys() == Seq::<(u8, u8)>::empty(),
            l.positions() == Seq::<usize>::empty(),
    {
        DrawLog { rows: Ghost(Seq::empty()), keys: Ghost(Seq::empty()), positions: Ghost(Seq::empty()) }
    }

    /// Draws a row uniformly from `lo..=hi`, and records it.
    pub fn draw_row(&mut self, rng: &mut Rng, lo: u32, hi: u32) -> (r: u32)
        requires
            lo <= hi,
        ensures
            lo <= r <= hi,
            final(self).rows() == old(self).rows().push(r),
            final(self).keys() == old(self).keys(),
            final(self).positions() == old(self).positions(),
    {
        let r = draw_u32(rng, lo, hi);
        self.rows = Ghost(self.rows@.push(r));
        r
    }

    /// Draws a level uniformly over the range's levels, then an index over
    /// its indexes, and records the pair.
    pub fn draw_key(&mut self, rng: &mut Rng, range: &CategoryRange) -> (k: (u8, u8))
        requires
            range.min_level <= range.max_level,
            range.min_index <= range.max_index,
        ensures
            range.min_level <= k.0 <= range.max_level,
            range.min_index <= k.1 <= range.max_index,
            final(self).keys() == old(self).keys().push(k),
            final(self).rows() == old(self).rows(),
            final(self).positions() == old(self).positions(),
    {
        let level = draw_u8(rng, range.min_level, range.max_level);
        let index = draw_u8(rng, range.min_index, range.max_index);
        self.keys = Ghost(self.keys@.push((level, index)));
        (level, index)
    }

    /// Draws a position below `n`, and records it.
    pub fn draw_position(&mut self, rng: &mut Rng, n: usize) -> (r: usize)
        requires
            n > 0,
        ensures
            r < n,
            final(self).positions() == old(self).positions().push(r),
            final(self).rows() == old(self).rows(),
            final(self).keys() == old(self).keys(),
    {
        let r = draw_usize(rng, n);
        self.positions = Ghost(self.positions@.push(r));
        r
    }
}

/// A subject pick as the generator made it: between two states of the
/// record, the rows drawn are one run of draws over the range (see
/// `row_draws_made`), a fallback position was drawn exactly when none of
/// them names a subject, no key was drawn, and `row` is what these draws
/// give.
pub open spec fn row_picked_from(
    s: Seq<SubjectView>,
    range: SubjectRange,
    before: DrawLog,
    after: DrawLog,
    row: u32,
) -> bool {
    let ds = after.rows().skip(before.rows().len() as int);
    let ps = after.positions().skip(before.positions().len() as int);
    let fallback = if ps.len() > 0 { ps[0] as int } else { 0 };
    &&& after.rows().len() >= before.rows().len()
    &&& after.rows().take(before.rows().len() as int) == before.rows()
    &&& after.positions().len() >= before.positions().len()
    &&& after.positions().take(before.positions().len() as int) == before.positions()
    &&& after.keys() == before.keys()
    &&& ps.len() == if first_index(ds, names_subject(s)) is None { 1int } else { 0int }
    &&& row_draws_made(s, range, ds, fallback)
    &&& row == row_from_draws(s, range, ds, fallback)
}

/// An entry pick as the generator made it (see `row_picked_from`).
pub open spec fn key_picked_from(
    es: Seq<EntryView>,
    range: CategoryRange,
    before: DrawLog,
    after: DrawLog,
    key: (u8, u8),
) -> bool {
    let ds = after.keys().skip(before.keys().len() as int);
    let ps = after.positions().skip(before.positions().len() as int);
    let fallback = if ps.len() > 0 { ps[0] as int } else { 0 };
    &&& after.keys().len() >= before.keys().len()
    &&& after.keys().take(before.keys().len() as int) == before.keys()
    &&& after.positions().len() >= before.positions().len()
    &&& after.positions().take(before.positions().len() as int) == before.positions()
    &&& after.rows() == before.rows()
    &&& ps.len() == if first_index(ds, names_entry(es)) is None { 1int } else { 0int }
    &&& key_draws_made(es, range, ds, fallback)
    &&& key == key_from_draws(es, range, ds, fallback)
}

/// Every in-range key names an entry and lies in the range; there is one
/// exactly when some entry lies in the range.
pub proof fn lemma_keys_in_range(es: Seq<EntryView>, range: CategoryRange)
    ensures
        forall|k: int|
            0 <= k < keys_in_range(es, range).len() ==> names_entry(es)(
                #[trigger] keys_in_range(es, range)[k],
            ) && in_range(keys_in_range(es, range)[k].0, keys_in_range(es, range)[k].1, range),
        keys_in_range(es, range).len() == 0 <==> forall|j: int|
            0 <= j < es.len() ==> !in_range(#[trigger] es[j].level, es[j].index, range),
    decreases es.len(),
{
    if es.len() > 0 {
        let p = es.drop_last();
        lemma_keys_in_range(p, range);
        let ks = keys_in_range(es, range);
        let kp = keys_in_range(p, range);
        assert forall|k: int| 0 <= k < ks.len() implies names_entry(es)(#[trigger] ks[k])
            && in_range(ks[k].0, ks[k].1, range) by {
            let d = ks[k];
            if k < kp.len() {
                assert(ks[k] == kp[k]);
                let i = first_index(p, key_is(d.0, d.1))->0;
                lemma_first_index(p, key_is(d.0, d.1));
                assert(p[i] == es[i]);
                assert(key_is(d.0, d.1)(es[i]));
                lemma_first_index(es, key_is(d.0, d.1));
            } else {
                assert(key_is(d.0, d.1)(es[es.len() - 1]));
                lemma_first_index(es, key_is(d.0, d.1));
            }
        }
        if ks.len() == 0 {
            assert forall|j: int| 0 <= j < es.len() implies !in_range(
                #[trigger] es[j].level,
                es[j].index,
                range,
            ) by {
                if j < es.len() - 1 {
                    assert(p[j] == es[j]);
                }
            }
        } else if kp.len() > 0 {
            let j = choose|j: int| 0 <= j < p.len() && in_range(#[trigger] p[j].level, p[j].index, range);
            assert(p[j] == es[j]);
            assert(in_range(es[j].level, es[j].index, range));
        } else {
            assert(in_range(es[es.len() - 1].level, es[es.len() - 1].index, range));
        }
    }
}

/// Every in-range row names a subject and lies in the range; there is one
/// exactly when some subject's row lies in the range.
pub proof fn lemma_rows_in_range(s: Seq<SubjectView>, range: SubjectRange)
    ensures
        forall|k: int|
            0 <= k < rows_in_range(s, range).len() ==> names_subject(s)(
                #[trigger] rows_in_range(s, range)[k],
            ) && range.min_row <= rows_in_range(s, range)[k] <= range.max_row,
        rows_in_range(s, range).len() == 0 <==> forall|j: int|
            0 <= j < s.len() ==> !(range.min_row <= #[trigger] s[j].row <= range.max_row),
    decreases s.len(),
{
    if s.len() > 0 {
        let p = s.drop_last();
        lemma_rows_in_range(p, range);
        let rs = rows_in_range(s, range);
        let rp = rows_in_range(p, range);
        assert forall|k: int| 0 <= k < rs.len() implies names_subject(s)(#[trigger] rs[k])
            && range.min_row <= rs[k] <= range.max_row by {
            let d = rs[k];
            if k < rp.len() {
                assert(rs[k] == rp[k]);
                let i = first_index(p, row_is(d))->0;
                lemma_first_index(p, row_is(d));
                assert(p[i] == s[i]);
                assert(row_is(d)(s[i]));
                lemma_first_index(s, row_is(d));
            } else {
                assert(row_is(d)(s[s.len() - 1]));
                lemma_first_index(s, row_is(d));
            }
        }
        if rs.len() == 0 {
            assert forall|j: int| 0 <= j < s.len() implies !(range.min_row <= #[trigger] s[j].row
                <= range.max_row) by {
                if j < s.len() - 1 {
                    assert(p[j] == s[j]);
                }
            }
        } else if rp.len() > 0 {
            let j = choose|j: int| 0 <= j < p.len() && range.min_row <= #[trigger] p[j].row <= range.max_row;
            assert(p[j] == s[j]);
            assert(range.min_row <= s[j].row <= range.max_row);
        } else {
            assert(range.min_row <= s[s.len() - 1].row <= range.max_row);
        }
    }
}

/// The keys of the entries that lie within a range, in archive order.
pub fn entry_keys_in_range(map: &Vec<CategoryEntry>, range: &CategoryRange) -> (keys: Vec<
    (u8, u8),
>)
    ensures
        keys@ == keys_in_range(entries_view(map@), *range),
{
    let ghost es = entries_view(map@);
    let mut keys: Vec<(u8, u8)> = Vec::new();
    let mut i: usize = 0;
    while i < map.len()
        invariant
            i <= map.len(),
            es == entries_view(map@),
            keys@ == keys_in_range(es.take(i as int), *range),
        decreases map.len() - i,
    {
        let level = map[i].level;
        let index = map[i].index;
        assert(es.take(i + 1).drop_last() =~= es.take(i as int));
        assert(es.take(i + 1).last() == map@[i as int]@);
        if level >= range.min_level && level <= range.max_level && index >= range.min_index
            && index <= range.max_index {
            keys.push((level, index));
        }
        i += 1;
    }
    assert(es.take(map.len() as int) =~= es);
    keys
}

/// The rows of the subjects that lie within a range, in archive order.
pub fn subject_rows_in_range(subjects: &Vec<Subject>, range: &SubjectRange) -> (rows: Vec<u32>)
    ensures
        rows@ == rows_in_range(subjects_view(subjects@), *range),
{
    let ghost s = subjects_view(subjects@);
    let mut rows: Vec<u32> = Vec::new();
    let mut i: usize = 0;
    while i < subjects.len()
        invariant
            i <= subjects.len(),
            s == subjects_view(subjects@),
            rows@ == rows_in_range(s.take(i as int), *range),
        decreases subjects.len() - i,
    {
        let row = subjects[i].row;
        assert(s.take(i + 1).drop_last() =~= s.take(i as int));
        assert(s.take(i + 1).last() == subjects@[i as int]@);
        if row >= range.min_row && row <= range.max_row {
            rows.push(row);
        }
        i += 1;
    }
    assert(s.take(subjects.len() as int) =~= s);
    rows
}

/// The entry that a run of draws picks: the first drawn level and index
/// that name an entry of the category, else the in-range key at position
/// `fallback`.
pub fn module_from_draws(
    catalog: &Catalog,
    category: Category,
    range: &CategoryRange,
    draws: &Vec<(u8, u8)>,
    fallback: usize,
) -> (m: (u8, u8))
    requires
        first_index(draws@, names_entry(catalog@.entries(category))) is None ==> fallback
            < keys_in_range(catalog@.entries(category), *range).len(),
    ensures
        m == key_from_draws(catalog@.entries(category), *range, draws@, fallback as int),
{
    let ghost es = catalog@.entries(category);
    let mut i: usize = 0;
    while i < draws.len()
        invariant
            i <= draws.len(),
            es == catalog@.entries(category),
            forall|j: int| 0 <= j < i ==> !names_entry(es)(#[trigger] draws@[j]),
        decreases draws.len() - i,
    {
        let (level, index) = draws[i];
        if catalog.entry_index(category, level, index).is_some() {
            proof {
                assert(names_entry(es)(draws@[i as int]));
                lemma_first_index_is(draws@, names_entry(es), i as int);
            }
            return (level, index);
        }
        assert(!names_entry(es)(draws@[i as int]));
        i += 1;
    }
    proof {
        lemma_first_index_none(draws@, names_entry(es));
    }
    let keys = entry_keys_in_range(catalog.category_map(category), range);
    keys[fallback]
}

/// The subject row that a run of draws picks: the first drawn row that
/// names a subject, else the in-range row at position `fallback`.
pub fn row_from_draws_exec(
    catalog: &Catalog,
    range: &SubjectRange,
    draws: &Vec<u32>,
    fallback: usize,
) -> (row: u32)
    requires
        first_index(draws@, names_subject(catalog@.subjects)) is None ==> fallback < rows_in_range(
            catalog@.subjects,
            *range,
        ).len(),
    ensures
        row == row_from_draws(catalog@.subjects, *range, draws@, fallback as int),
{
    let ghost s = catalog@.subjects;
    let mut i: usize = 0;
    while i < draws.len()
        invariant
            i <= draws.len(),
            s == catalog@.subjects,
            forall|j: int| 0 <= j < i ==> !names_subject(s)(#[trigger] draws@[j]),
        decreases draws.len() - i,
    {
        let row = draws[i];
        if catalog.subject_index(row).is_some() {
            proof {
                assert(names_subject(s)(draws@[i as int]));
                lemma_first_index_is(draws@, names_subject(s), i as int);
            }
            return row;
        }
        assert(!names_subject(s)(draws@[i as int]));
        i += 1;
    }
    proof {
        lemma_first_index_none(draws@, names_subject(s));
    }
    let rows = subject_rows_in_range(&catalog.subjects, range);
    rows[fallback]
}

/// Every entry that lies in the range can be picked: a first draw that
/// names it gives it.
pub proof fn lemma_every_key_reachable(es: Seq<EntryView>, range: CategoryRange, i: int)
    requires
        0 <= i < es.len(),
        in_range(es[i].level, es[i].index, range),
    ensures
        drawn_key(es, range, (es[i].level, es[i].index)),
        key_from_draws(es, range, seq![(es[i].level, es[i].index)], 0) == (
            es[i].level,
            es[i].index,
        ),
{
    let k = (es[i].level, es[i].index);
    let draws = seq![k];
    assert(key_is(k.0, k.1)(es[i]));
    lemma_first_index(es, key_is(k.0, k.1));
    assert(names_entry(es)(draws[0]));
    lemma_first_index_is(draws, names_entry(es), 0);
    assert(key_draws_made(es, range, draws, 0));
}

/// Every subject whose row lies in the range can be picked: a first draw
/// that names it gives it.
pub proof fn lemma_every_row_reachable(s: Seq<SubjectView>, range: SubjectRange, i: int)
    requires
        0 <= i < s.len(),
        range.min_row <= s[i].row <= range.max_row,
    ensures
        drawn_row(s, range, s[i].row),
        row_from_draws(s, range, seq![s[i].row], 0) == s[i].row,
{
    let r = s[i].row;
    let draws = seq![r];
    assert(row_is(r)(s[i]));
    lemma_first_index(s, row_is(r));
    assert(names_subject(s)(draws[0]));
    lemma_first_index_is(draws, names_subject(s), 0);
    assert(row_draws_made(s, range, draws, 0));
}

} // verus!
