//! The archive's contents: subjects by spreadsheet row, and four categories
//! of entries keyed by level and index.

use vstd::prelude::*;

use crate::error::{invalid_err, ComposeError, ErrorView};
use crate::seqs::{
    first_index, lemma_first_index, lemma_first_index_is, lemma_first_index_none,
    lemma_seq_min_max_step, seq_max, seq_min,
};
use crate::text::{
    chars_of, dec, decimal_fits, digits_value, parse_decimal, push_dec, push_str, string_of,
};

verus! {

/// Highest level that a query may ask for.
pub const MAX_OPERATIONAL_LEVEL: u8 = 5;

/// Highest index that a query may ask for.
pub const MAX_INDEX: u8 = 30;

/// File name under which an imported archive is stored.
pub const ARCHIVE_FILENAME: &'static str = "prompt_archive.xlsx";

/// A subject: the character prompt held by one spreadsheet row.
#[derive(Debug, Clone)]
pub struct Subject {
    pub row: u32,
    pub name: String,
    pub body: String,
}

pub struct SubjectView {
    pub row: u32,
    pub name: Seq<char>,
    pub body: Seq<char>,
}

impl View for Subject {
    type V = SubjectView;

    open spec fn view(&self) -> SubjectView {
        SubjectView { row: self.row, name: self.name@, body: self.body@ }
    }
}

/// One entry of a category sheet, found under its level and index.
#[derive(Debug, Clone)]
pub struct CategoryEntry {
    pub name: String,
    pub level: u8,
    pub index: u8,
    pub status: String,
    pub prompt: String,
}

pub struct EntryView {
    pub name: Seq<char>,
    pub level: u8,
    pub index: u8,
    pub status: Seq<char>,
    pub prompt: Seq<char>,
}

impl View for CategoryEntry {
    type V = EntryView;

    open spec fn view(&self) -> EntryView {
        EntryView {
            name: self.name@,
            level: self.level,
            index: self.index,
            status: self.status@,
            prompt: self.prompt@,
        }
    }
}

/// The four categories, in the order in which a query names them.
#[derive(Clone, Copy, Debug, PartialEq, Eq, Hash, Structural)]
pub enum Category {
    Outfit,
    Pose,
    Action,
    Scene,
}

pub open spec fn sheet_name_of(c: Category) -> Seq<char> {
    match c {
        Category::Outfit => "Outfits"@,
        Category::Pose => "Poses"@,
        Category::Action => "Actions"@,
        Category::Scene => "Scenes"@,
    }
}

pub open spec fn label_of(c: Category) -> Seq<char> {
    match c {
        Category::Outfit => "Outfit"@,
        Category::Pose => "Pose"@,
        Category::Action => "Action"@,
        Category::Scene => "Scene"@,
    }
}

/// The lowercase name of a category, as the parts of a composed prompt carry it.
pub open spec fn kind_of(c: Category) -> Seq<char> {
    match c {
        Category::Outfit => "outfit"@,
        Category::Pose => "pose"@,
        Category::Action => "action"@,
        Category::Scene => "scene"@,
    }
}

pub open spec fn category_of_slot(slot: int) -> Option<Category> {
    if slot == 0 {
        Some(Category::Outfit)
    } else if slot == 1 {
        Some(Category::Pose)
    } else if slot == 2 {
        Some(Category::Action)
    } else if slot == 3 {
        Some(Category::Scene)
    } else {
        None
    }
}

impl Category {
    /// The name of the sheet that holds this category.
    pub fn sheet_name(self) -> (s: &'static str)
        ensures
            s@ == sheet_name_of(self),
    {
        match self {
            Category::Outfit => "Outfits",
            Category::Pose => "Poses",
            Category::Action => "Actions",
            Category::Scene => "Scenes",
        }
    }

    /// The singular name of this category.
    pub fn label(self) -> (s: &'static str)
        ensures
            s@ == label_of(self),
    {
        match self {
            Category::Outfit => "Outfit",
            Category::Pose => "Pose",
            Category::Action => "Action",
            Category::Scene => "Scene",
        }
    }

    /// The lowercase name of this category.
    pub fn kind(self) -> (s: &'static str)
        ensures
            s@ == kind_of(self),
    {
        match self {
            Category::Outfit => "outfit",
            Category::Pose => "pose",
            Category::Action => "action",
            Category::Scene => "scene",
        }
    }

    /// The category of the module token at position `slot` of a query.
    pub fn from_slot(slot: usize) -> (c: Option<Self>)
        ensures
            c == category_of_slot(slot as int),
    {
        match slot {
            0 => Some(Category::Outfit),
            1 => Some(Category::Pose),
            2 => Some(Category::Action),
            3 => Some(Category::Scene),
            _ => None,
        }
    }
}

/// The archive: subjects and the entries of each category. Each subject row,
/// and each (level, index) within a category, occurs at most once in an
/// archive read from a workbook (see `Catalog::well_formed`).
#[derive(Debug)]
pub struct Catalog {
    pub subjects: Vec<Subject>,
    pub outfits: Vec<CategoryEntry>,
    pub poses: Vec<CategoryEntry>,
    pub actions: Vec<CategoryEntry>,
    pub scenes: Vec<CategoryEntry>,
}

pub struct CatalogView {
    pub subjects: Seq<SubjectView>,
    pub outfits: Seq<EntryView>,
    pub poses: Seq<EntryView>,
    pub actions: Seq<EntryView>,
    pub scenes: Seq<EntryView>,
}

pub open spec fn subjects_view(v: Seq<Subject>) -> Seq<SubjectView> {
    v.map_values(|s: Subject| s@)
}

pub open spec fn entries_view(v: Seq<CategoryEntry>) -> Seq<EntryView> {
    v.map_values(|e: CategoryEntry| e@)
}

impl View for Catalog {
    type V = CatalogView;

    open spec fn view(&self) -> CatalogView {
        CatalogView {
            subjects: subjects_view(self.subjects@),
            outfits: entries_view(self.outfits@),
            poses: entries_view(self.poses@),
            actions: entries_view(self.actions@),
            scenes: entries_view(self.scenes@),
        }
    }
}

pub open spec fn row_is(row: u32) -> spec_fn(SubjectView) -> bool {
    |s: SubjectView| s.row == row
}

pub open spec fn key_is(level: u8, index: u8) -> spec_fn(EntryView) -> bool {
    |e: EntryView| e.level == level && e.index == index
}

/// The rows of the subjects, in order.
pub open spec fn rows_of(s: Seq<SubjectView>) -> Seq<int> {
    s.map_values(|x: SubjectView| x.row as int)
}

pub open spec fn levels_of(s: Seq<EntryView>) -> Seq<int> {
    s.map_values(|e: EntryView| e.level as int)
}

pub open spec fn indexes_of(s: Seq<EntryView>) -> Seq<int> {
    s.map_values(|e: EntryView| e.index as int)
}

/// No two subjects share a row, and no two entries of a category share a
/// level and index.
pub open spec fn distinct_rows(s: Seq<SubjectView>) -> bool {
    forall|i: int, j: int| 0 <= i < j < s.len() ==> s[i].row != s[j].row
}

pub open spec fn distinct_keys(s: Seq<EntryView>) -> bool {
    forall|i: int, j: int|
        0 <= i < j < s.len() ==> !(s[i].level == s[j].level && s[i].index == s[j].index)
}

impl CatalogView {
    pub open spec fn entries(self, c: Category) -> Seq<EntryView> {
        match c {
            Category::Outfit => self.outfits,
            Category::Pose => self.poses,
            Category::Action => self.actions,
            Category::Scene => self.scenes,
        }
    }

    /// The subject of a row (the first one, should rows repeat).
    pub open spec fn lookup_subject(self, row: u32) -> Option<SubjectView> {
        match first_index(self.subjects, row_is(row)) {
            Some(i) => Some(self.subjects[i]),
            None => None,
        }
    }

    /// The entry of a category under a level and index (the first one,
    /// should keys repeat).
    pub open spec fn lookup_entry(self, c: Category, level: u8, index: u8) -> Option<EntryView> {
        match first_index(self.entries(c), key_is(level, index)) {
            Some(i) => Some(self.entries(c)[i]),
            None => None,
        }
    }

    /// Every archive read from a workbook: keys are unique and every subject
    /// row is a data row (row 1 holds the headers).
    pub open spec fn well_formed(self) -> bool {
        &&& distinct_rows(self.subjects)
        &&& forall|i: int| 0 <= i < self.subjects.len() ==> #[trigger] self.subjects[i].row >= 2
        &&& distinct_keys(self.outfits)
        &&& distinct_keys(self.poses)
        &&& distinct_keys(self.actions)
        &&& distinct_keys(self.scenes)
    }
}

/// How many subjects and entries of each category an archive holds.
#[derive(Debug, Clone, Copy, Default, PartialEq, Eq, Structural)]
pub struct CatalogCounts {
    pub subjects: usize,
    pub outfits: usize,
    pub poses: usize,
    pub actions: usize,
    pub scenes: usize,
}

/// The least and greatest subject row of an archive.
#[derive(Debug, Clone, Copy, PartialEq, Eq, Structural)]
pub struct SubjectRange {
    pub min_row: u32,
    pub max_row: u32,
}

/// The least and greatest level, and the least and greatest index, of the
/// entries of one category.
#[derive(Debug, Clone, Copy, PartialEq, Eq, Structural)]
pub struct CategoryRange {
    pub min_level: u8,
    pub max_level: u8,
    pub min_index: u8,
    pub max_index: u8,
}

/// The ranges of an archive; a category without entries has none.
#[derive(Debug, Clone, Copy, PartialEq, Eq, Structural)]
pub struct CatalogRanges {
    pub subjects: SubjectRange,
    pub outfits: Option<CategoryRange>,
    pub poses: Option<CategoryRange>,
    pub actions: Option<CategoryRange>,
    pub scenes: Option<CategoryRange>,
}

/// The subject range: least and greatest row (both 0 without subjects).
pub open spec fn subject_range_of(s: Seq<SubjectView>) -> SubjectRange {
    SubjectRange { min_row: seq_min(rows_of(s)) as u32, max_row: seq_max(rows_of(s)) as u32 }
}

/// The range of a category, none without entries.
pub open spec fn category_range_of(s: Seq<EntryView>) -> Option<CategoryRange> {
    if s.len() == 0 {
        None
    } else {
        Some(
            CategoryRange {
                min_level: seq_min(levels_of(s)) as u8,
                max_level: seq_max(levels_of(s)) as u8,
                min_index: seq_min(indexes_of(s)) as u8,
                max_index: seq_max(indexes_of(s)) as u8,
            },
        )
    }
}

pub open spec fn ranges_of(c: CatalogView) -> CatalogRanges {
    CatalogRanges {
        subjects: subject_range_of(c.subjects),
        outfits: category_range_of(c.outfits),
        poses: category_range_of(c.poses),
        actions: category_range_of(c.actions),
        scenes: category_range_of(c.scenes),
    }
}

/// Whether a level and index lie within a category range.
pub open spec fn in_range(level: u8, index: u8, r: CategoryRange) -> bool {
    r.min_level <= level <= r.max_level && r.min_index <= index <= r.max_index
}

pub open spec fn subject_not_found_message(row: u32, max: int) -> Seq<char> {
    "subject row "@ + dec(row as nat) + " not found (valid Excel rows: 2–"@ + dec(max as nat)
        + ")"@
}

/// The index written with at least two digits.
pub open spec fn dec2(n: nat) -> Seq<char> {
    if n < 10 {
        "0"@ + dec(n)
    } else {
        dec(n)
    }
}

pub open spec fn entry_not_found_message(c: Category, level: u8, index: u8) -> Seq<char> {
    label_of(c) + " L"@ + dec(level as nat) + "-"@ + dec2(index as nat) + " not found in "@
        + sheet_name_of(c)
}

fn push_dec2(out: &mut Vec<char>, n: u8)
    ensures
        final(out)@ == old(out)@ + dec2(n as nat),
{
    if n < 10 {
        push_str(out, "0");
    }
    push_dec(out, n as u64);
    assert(final(out)@ =~= old(out)@ + dec2(n as nat));
}

fn subject_rows_range(v: &Vec<Subject>) -> (r: SubjectRange)
    ensures
        r == subject_range_of(subjects_view(v@)),
{
    let ghost rows = rows_of(subjects_view(v@));
    if v.len() == 0 {
        return SubjectRange { min_row: 0, max_row: 0 };
    }
    let mut lo = v[0].row;
    let mut hi = v[0].row;
    assert(rows.take(1) =~= seq![v@[0].row as int]);
    let mut i: usize = 1;
    while i < v.len()
        invariant
            1 <= i <= v.len(),
            rows == rows_of(subjects_view(v@)),
            lo as int == seq_min(rows.take(i as int)),
            hi as int == seq_max(rows.take(i as int)),
        decreases v.len() - i,
    {
        proof {
            lemma_seq_min_max_step(rows, i as int);
        }
        let r = v[i].row;
        assert(rows[i as int] == r as int);
        if r < lo {
            lo = r;
        }
        if r > hi {
            hi = r;
        }
        i += 1;
    }
    assert(rows.take(v.len() as int) =~= rows);
    SubjectRange { min_row: lo, max_row: hi }
}

fn entries_range(v: &Vec<CategoryEntry>) -> (r: Option<CategoryRange>)
    ensures
        r == category_range_of(entries_view(v@)),
{
    let ghost levels = levels_of(entries_view(v@));
    let ghost indexes = indexes_of(entries_view(v@));
    if v.len() == 0 {
        return None;
    }
    let mut lo_l = v[0].level;
    let mut hi_l = v[0].level;
    let mut lo_i = v[0].index;
    let mut hi_i = v[0].index;
    assert(levels.take(1) =~= seq![v@[0].level as int]);
    assert(indexes.take(1) =~= seq![v@[0].index as int]);
    let mut i: usize = 1;
    while i < v.len()
        invariant
            1 <= i <= v.len(),
            levels == levels_of(entries_view(v@)),
            indexes == indexes_of(entries_view(v@)),
            lo_l as int == seq_min(levels.take(i as int)),
            hi_l as int == seq_max(levels.take(i as int)),
            lo_i as int == seq_min(indexes.take(i as int)),
            hi_i as int == seq_max(indexes.take(i as int)),
        decreases v.len() - i,
    {
        proof {
            lemma_seq_min_max_step(levels, i as int);
            lemma_seq_min_max_step(indexes, i as int);
        }
        let l = v[i].level;
        let x = v[i].index;
        assert(levels[i as int] == l as int);
        assert(indexes[i as int] == x as int);
        if l < lo_l {
            lo_l = l;
        }
        if l > hi_l {
            hi_l = l;
        }
        if x < lo_i {
            lo_i = x;
        }
        if x > hi_i {
            hi_i = x;
        }
        i += 1;
    }
    assert(levels.take(v.len() as int) =~= levels);
    assert(indexes.take(v.len() as int) =~= indexes);
    Some(CategoryRange { min_level: lo_l, max_level: hi_l, min_index: lo_i, max_index: hi_i })
}

impl Catalog {
    /// The entries of a category.
    pub fn category_map(&self, category: Category) -> (m: &Vec<CategoryEntry>)
        ensures
            m@ == match category {
                Category::Outfit => self.outfits@,
                Category::Pose => self.poses@,
                Category::Action => self.actions@,
                Category::Scene => self.scenes@,
            },
            entries_view(m@) == self@.entries(category),
    {
        match category {
            Category::Outfit => &self.outfits,
            Category::Pose => &self.poses,
            Category::Action => &self.actions,
            Category::Scene => &self.scenes,
        }
    }

    /// How many subjects and entries the archive holds.
    pub fn counts(&self) -> (c: CatalogCounts)
        ensures
            c.subjects == self.subjects@.len(),
            c.outfits == self.outfits@.len(),
            c.poses == self.poses@.len(),
            c.actions == self.actions@.len(),
            c.scenes == self.scenes@.len(),
    {
        CatalogCounts {
            subjects: self.subjects.len(),
            outfits: self.outfits.len(),
            poses: self.poses.len(),
            actions: self.actions.len(),
            scenes: self.scenes.len(),
        }
    }

    /// The range of one category, none when it has no entries.
    pub fn category_range_for(&self, category: Category) -> (r: Option<CategoryRange>)
        ensures
            r == category_range_of(self@.entries(category)),
    {
        entries_range(self.category_map(category))
    }

    /// The subject range and the range of each category.
    pub fn ranges(&self) -> (r: CatalogRanges)
        ensures
            r == ranges_of(self@),
    {
        CatalogRanges {
            subjects: subject_rows_range(&self.subjects),
            outfits: entries_range(&self.outfits),
            poses: entries_range(&self.poses),
            actions: entries_range(&self.actions),
            scenes: entries_range(&self.scenes),
        }
    }

    /// The position of the subject of a row.
    pub fn subject_index(&self, row: u32) -> (r: Option<usize>)
        ensures
            match r {
                Some(i) => i < self.subjects@.len() && first_index(self@.subjects, row_is(row))
                    == Some(i as int),
                None => first_index(self@.subjects, row_is(row)) is None,
            },
    {
        let ghost s = self@.subjects;
        let mut i: usize = 0;
        while i < self.subjects.len()
            invariant
                i <= self.subjects.len(),
                s == self@.subjects,
                forall|j: int| 0 <= j < i ==> !(#[trigger] row_is(row)(s[j])),
            decreases self.subjects.len() - i,
        {
            if self.subjects[i].row == row {
                proof {
                    lemma_first_index_is(s, row_is(row), i as int);
                }
                return Some(i);
            }
            i += 1;
        }
        proof {
            lemma_first_index_none(s, row_is(row));
        }
        None
    }

    /// The position of the entry of a category under a level and index.
    pub fn entry_index(&self, category: Category, level: u8, index: u8) -> (r: Option<usize>)
        ensures
            match r {
                Some(i) => i < self@.entries(category).len() && first_index(
                    self@.entries(category),
                    key_is(level, index),
                ) == Some(i as int),
                None => first_index(self@.entries(category), key_is(level, index)) is None,
            },
    {
        let map = self.category_map(category);
        let ghost s = self@.entries(category);
        let mut i: usize = 0;
        while i < map.len()
            invariant
                i <= map.len(),
                s == entries_view(map@),
                s == self@.entries(category),
                forall|j: int| 0 <= j < i ==> !(#[trigger] key_is(level, index)(s[j])),
            decreases map.len() - i,
        {
            if map[i].level == level && map[i].index == index {
                assert(s[i as int] == map@[i as int]@);
                assert(key_is(level, index)(s[i as int]));
                proof {
                    lemma_first_index_is(s, key_is(level, index), i as int);
                }
                return Some(i);
            }
            i += 1;
        }
        proof {
            lemma_first_index_none(s, key_is(level, index));
        }
        None
    }

    /// The subject of a row; `subject_out_of_range` when no subject has it.
    pub fn subject(&self, row: u32) -> (r: Result<&Subject, ComposeError>)
        ensures
            match r {
                Ok(s) => self@.lookup_subject(row) == Some(s@),
                Err(e) => self@.lookup_subject(row) is None && e@ == invalid_err(
                    "subject_out_of_range"@,
                    subject_not_found_message(row, seq_max(rows_of(self@.subjects))),
                ),
            },
    {
        let ghost s = self@.subjects;
        if let Some(i) = self.subject_index(row) {
            return Ok(&self.subjects[i]);
        }
        let range = subject_rows_range(&self.subjects);
        let mut m: Vec<char> = Vec::new();
        push_str(&mut m, "subject row ");
        push_dec(&mut m, row as u64);
        push_str(&mut m, " not found (valid Excel rows: 2–");
        push_dec(&mut m, range.max_row as u64);
        push_str(&mut m, ")");
        proof {
            if s.len() > 0 {
                crate::seqs::lemma_seq_min_max(rows_of(s));
                let k = choose|k: int| 0 <= k < s.len() && rows_of(s)[k] == seq_max(rows_of(s));
                assert(rows_of(s)[k] >= 0);
            }
        }
        assert(m@ =~= subject_not_found_message(row, seq_max(rows_of(s))));
        Err(ComposeError::invalid("subject_out_of_range", string_of(&m)))
    }

    /// The entry of a category under a level and index; `entry_not_found`
    /// when there is none.
    pub fn entry(&self, category: Category, level: u8, index: u8) -> (r: Result<
        &CategoryEntry,
        ComposeError,
    >)
        ensures
            match r {
                Ok(e) => self@.lookup_entry(category, level, index) == Some(e@),
                Err(e) => self@.lookup_entry(category, level, index) is None && e@ == invalid_err(
                    "entry_not_found"@,
                    entry_not_found_message(category, level, index),
                ),
            },
    {
        let map = self.category_map(category);
        if let Some(i) = self.entry_index(category, level, index) {
            return Ok(&map[i]);
        }
        let mut m: Vec<char> = Vec::new();
        push_str(&mut m, category.label());
        push_str(&mut m, " L");
        push_dec(&mut m, level as u64);
        push_str(&mut m, "-");
        push_dec2(&mut m, index);
        push_str(&mut m, " not found in ");
        push_str(&mut m, category.sheet_name());
        assert(m@ =~= entry_not_found_message(category, level, index));
        Err(ComposeError::invalid("entry_not_found", string_of(&m)))
    }
}

/// Every subject row lies within the subject range.
pub proof fn lemma_subject_in_range(s: Seq<SubjectView>, i: int)
    requires
        0 <= i < s.len(),
    ensures
        subject_range_of(s).min_row <= s[i].row <= subject_range_of(s).max_row,
{
    let rows = rows_of(s);
    crate::seqs::lemma_seq_min_max(rows);
    crate::seqs::lemma_seq_bounds(rows, 0, u32::MAX as int);
    assert(rows[i] == s[i].row as int);
}

/// Every entry lies within the range of its category.
pub proof fn lemma_entry_in_range(s: Seq<EntryView>, i: int)
    requires
        0 <= i < s.len(),
    ensures
        category_range_of(s) matches Some(r) && in_range(s[i].level, s[i].index, r),
{
    let ls = levels_of(s);
    let xs = indexes_of(s);
    crate::seqs::lemma_seq_min_max(ls);
    crate::seqs::lemma_seq_min_max(xs);
    crate::seqs::lemma_seq_bounds(ls, 0, 255);
    crate::seqs::lemma_seq_bounds(xs, 0, 255);
    assert(ls[i] == s[i].level as int);
    assert(xs[i] == s[i].index as int);
}

/// The text of cell `k` of a row, empty past the row's end.
pub open spec fn cell(row: Seq<String>, k: int) -> Seq<char> {
    if 0 <= k < row.len() {
        row[k]@
    } else {
        seq![]
    }
}

/// The subject that a data row holds: its name and body must both be
/// non-empty.
pub open spec fn subject_of_row(row: Seq<String>, excel_row: u32) -> Option<SubjectView> {
    if row.len() == 0 || cell(row, 0).len() == 0 || cell(row, 1).len() == 0 {
        None
    } else {
        Some(SubjectView { row: excel_row, name: cell(row, 0), body: cell(row, 1) })
    }
}

/// The subjects of a sheet, in row order; row `i` (from 0) is spreadsheet
/// row `i + 1`, and the first row holds the headers.
pub open spec fn subjects_of_rows(rows: Seq<Vec<String>>) -> Seq<SubjectView>
    decreases rows.len(),
{
    if rows.len() == 0 {
        seq![]
    } else {
        let prev = subjects_of_rows(rows.drop_last());
        if rows.len() == 1 {
            prev
        } else {
            match subject_of_row(rows.last()@, rows.len() as u32) {
                Some(s) => prev.push(s),
                None => prev,
            }
        }
    }
}

pub open spec fn char_is(c: char) -> spec_fn(char) -> bool {
    |x: char| x == c
}

/// The last position of `c` in `s`.
pub open spec fn last_index_of(s: Seq<char>, c: char) -> Option<int>
    decreases s.len(),
{
    if s.len() == 0 {
        None
    } else if s.last() == c {
        Some(s.len() - 1)
    } else {
        last_index_of(s.drop_last(), c)
    }
}

/// A `u8` as `str::parse` reads it: decimal digits after an optional `+`.
pub open spec fn parse_u8(s: Seq<char>) -> Option<u8> {
    let digits = if s.len() >= 2 && s[0] == '+' {
        s.skip(1)
    } else {
        s
    };
    if decimal_fits(digits, 255) {
        Some(digits_value(digits) as u8)
    } else {
        None
    }
}

/// The level and index that an entry's name ends with, as in `Outfit L1-05`:
/// after its last `L`, a level, a `-`, and an index.
pub open spec fn level_index_of(name: Seq<char>) -> Option<(u8, u8)> {
    match last_index_of(name, 'L') {
        None => None,
        Some(p) => {
            let suffix = name.skip(p + 1);
            match first_index(suffix, char_is('-')) {
                None => None,
                Some(d) => match (parse_u8(suffix.take(d)), parse_u8(suffix.skip(d + 1))) {
                    (Some(l), Some(i)) => Some((l, i)),
                    _ => None,
                },
            }
        },
    }
}

/// The entry that a data row of a category sheet holds: a name that ends
/// with its level and index, and a non-empty prompt.
pub open spec fn entry_of_row(row: Seq<String>) -> Option<EntryView> {
    if row.len() == 0 || cell(row, 0).len() == 0 {
        None
    } else {
        match level_index_of(cell(row, 0)) {
            None => None,
            Some((l, i)) => if cell(row, 3).len() == 0 {
                None
            } else {
                Some(
                    EntryView {
                        name: cell(row, 0),
                        level: l,
                        index: i,
                        status: cell(row, 2),
                        prompt: cell(row, 3),
                    },
                )
            },
        }
    }
}

/// Adds an entry, replacing the one with the same level and index.
pub open spec fn upsert(s: Seq<EntryView>, e: EntryView) -> Seq<EntryView> {
    match first_index(s, key_is(e.level, e.index)) {
        Some(i) => s.update(i, e),
        None => s.push(e),
    }
}

/// The entries of a category sheet; a later row replaces an earlier one with
/// the same level and index.
pub open spec fn entries_of_rows(rows: Seq<Vec<String>>) -> Seq<EntryView>
    decreases rows.len(),
{
    if rows.len() == 0 {
        seq![]
    } else {
        let prev = entries_of_rows(rows.drop_last());
        if rows.len() == 1 {
            prev
        } else {
            match entry_of_row(rows.last()@) {
                Some(e) => upsert(prev, e),
                None => prev,
            }
        }
    }
}

pub proof fn lemma_upsert_distinct(s: Seq<EntryView>, e: EntryView)
    requires
        distinct_keys(s),
    ensures
        distinct_keys(upsert(s, e)),
        upsert(s, e).len() >= 1,
        exists|k: int| 0 <= k < upsert(s, e).len() && upsert(s, e)[k] == e,
{
    lemma_first_index(s, key_is(e.level, e.index));
    let t = upsert(s, e);
    match first_index(s, key_is(e.level, e.index)) {
        Some(i) => {
            assert(t[i] == e);
            assert forall|a: int, b: int| 0 <= a < b < t.len() implies !(t[a].level == t[b].level
                && t[a].index == t[b].index) by {
                if a != i && b != i {
                    assert(t[a] == s[a] && t[b] == s[b]);
                } else if a == i {
                    assert(t[b] == s[b]);
                } else {
                    assert(t[a] == s[a]);
                }
            }
        },
        None => {
            assert(t[s.len() as int] == e);
            assert forall|a: int, b: int| 0 <= a < b < t.len() implies !(t[a].level == t[b].level
                && t[a].index == t[b].index) by {
                if b < s.len() {
                    assert(t[a] == s[a] && t[b] == s[b]);
                } else {
                    assert(t[a] == s[a]);
                    assert(!key_is(e.level, e.index)(s[a]));
                }
            }
        },
    }
}

pub proof fn lemma_entries_of_rows_distinct(rows: Seq<Vec<String>>)
    ensures
        distinct_keys(entries_of_rows(rows)),
    decreases rows.len(),
{
    if rows.len() > 0 {
        lemma_entries_of_rows_distinct(rows.drop_last());
        if rows.len() > 1 {
            if let Some(e) = entry_of_row(rows.last()@) {
                lemma_upsert_distinct(entries_of_rows(rows.drop_last()), e);
            }
        }
    }
}

pub proof fn lemma_subjects_of_rows_rows(rows: Seq<Vec<String>>)
    requires
        rows.len() <= u32::MAX,
    ensures
        distinct_rows(subjects_of_rows(rows)),
        forall|i: int|
            0 <= i < subjects_of_rows(rows).len() ==> 2 <= #[trigger] subjects_of_rows(
                rows,
            )[i].row as int <= rows.len(),
    decreases rows.len(),
{
    if rows.len() > 0 {
        let prev = subjects_of_rows(rows.drop_last());
        lemma_subjects_of_rows_rows(rows.drop_last());
        let t = subjects_of_rows(rows);
        if rows.len() > 1 && subject_of_row(rows.last()@, rows.len() as u32) is Some {
            let s = subject_of_row(rows.last()@, rows.len() as u32)->0;
            assert(t == prev.push(s));
            assert(s.row as int == rows.len());
            assert forall|i: int| 0 <= i < t.len() implies 2 <= #[trigger] t[i].row as int
                <= rows.len() by {
                if i < prev.len() {
                    assert(t[i] == prev[i]);
                }
            }
            assert forall|a: int, b: int| 0 <= a < b < t.len() implies t[a].row != t[b].row by {
                assert(t[a] == prev[a]);
                if b < prev.len() {
                    assert(t[b] == prev[b]);
                }
            }
        } else {
            assert(t == prev);
            assert forall|i: int| 0 <= i < t.len() implies 2 <= #[trigger] t[i].row as int
                <= rows.len() by {
                assert(t[i] == prev[i]);
            }
        }
    }
}

/// The text of cell `k` of a row, empty past the row's end.
pub fn cell_text(row: &Vec<String>, k: usize) -> (s: String)
    ensures
        s@ == cell(row@, k as int),
{
    if k < row.len() {
        row[k].clone()
    } else {
        String::new()
    }
}

fn parse_u8_in(v: &Vec<char>, lo: usize, hi: usize) -> (r: Option<u8>)
    requires
        lo <= hi <= v.len(),
    ensures
        r == parse_u8(v@.subrange(lo as int, hi as int)),
{
    let ghost s = v@.subrange(lo as int, hi as int);
    let start = if hi - lo >= 2 && v[lo] == '+' {
        assert(s.skip(1) =~= v@.subrange(lo + 1, hi as int));
        lo + 1
    } else {
        lo
    };
    match parse_decimal(v, start, hi, 255) {
        Some(x) => Some(x as u8),
        None => None,
    }
}

/// The level and index at the end of an entry name such as `Outfit L1-05`.
pub fn parse_level_index(name: &str) -> (r: Option<(u8, u8)>)
    ensures
        r == level_index_of(name@),
{
    let v = chars_of(name);
    let ghost s = v@;
    // last `L`
    let mut p = v.len();
    assert(s.take(p as int) =~= s);
    while p > 0 && v[p - 1] != 'L'
        invariant
            p <= v.len(),
            s == v@,
            last_index_of(s, 'L') == last_index_of(s.take(p as int), 'L'),
        decreases p,
    {
        assert(s.take(p as int).drop_last() =~= s.take(p - 1));
        p -= 1;
    }
    if p == 0 {
        assert(s.take(0) =~= Seq::<char>::empty());
        return None;
    }
    let pos = p - 1;
    assert(s.take(p as int).last() == s[pos as int]);
    assert(last_index_of(s, 'L') == Some(pos as int));
    let ghost suffix = s.skip(pos + 1);
    // first `-` after it
    let mut d = pos + 1;
    while d < v.len() && v[d] != '-'
        invariant
            pos + 1 <= d <= v.len(),
            s == v@,
            suffix == s.skip(pos + 1),
            forall|j: int| pos + 1 <= j < d ==> s[j] != '-',
        decreases v.len() - d,
    {
        d += 1;
    }
    if d == v.len() {
        assert forall|j: int| 0 <= j < suffix.len() implies !(#[trigger] char_is('-')(
            suffix[j],
        )) by {
            assert(suffix[j] == s[pos + 1 + j]);
        }
        proof {
            lemma_first_index_none(suffix, char_is('-'));
        }
        return None;
    }
    proof {
        assert forall|j: int| 0 <= j < d - pos - 1 implies !(#[trigger] char_is('-')(
            suffix[j],
        )) by {
            assert(suffix[j] == s[pos + 1 + j]);
        }
        assert(suffix[d - pos - 1] == s[d as int]);
        lemma_first_index_is(suffix, char_is('-'), d - pos - 1);
        assert(suffix.take(d - pos - 1) =~= v@.subrange(pos + 1, d as int));
        assert(suffix.skip(d - pos - 1 + 1) =~= v@.subrange(d + 1, v.len() as int));
    }
    let level = parse_u8_in(&v, pos + 1, d);
    let index = parse_u8_in(&v, d + 1, v.len());
    match (level, index) {
        (Some(l), Some(i)) => Some((l, i)),
        _ => None,
    }
}

/// The subjects of a sheet's rows (the first row holds the headers).
pub fn load_subjects(rows: &Vec<Vec<String>>) -> (r: Vec<Subject>)
    requires
        rows.len() < u32::MAX,
    ensures
        subjects_view(r@) == subjects_of_rows(rows@),
{
    let mut out: Vec<Subject> = Vec::new();
    let mut idx: usize = 0;
    while idx < rows.len()
        invariant
            idx <= rows.len() < u32::MAX,
            subjects_view(out@) == subjects_of_rows(rows@.take(idx as int)),
        decreases rows.len() - idx,
    {
        let ghost prev = rows@.take(idx as int);
        assert(rows@.take(idx + 1).drop_last() =~= prev);
        let row = &rows[idx];
        let excel_row = (idx + 1) as u32;
        if excel_row != 1 && row.len() != 0 {
            let name = cell_text(row, 0);
            let body = cell_text(row, 1);
            if !name.as_str().is_empty() && !body.as_str().is_empty() {
                let ghost before = out@;
                out.push(Subject { row: excel_row, name, body });
                assert(subjects_view(out@) =~= subjects_view(before).push(out@.last()@));
            }
        }
        idx += 1;
    }
    assert(rows@.take(rows.len() as int) =~= rows@);
    out
}

/// Adds an entry, replacing the one with the same level and index.
fn upsert_entry(v: &mut Vec<CategoryEntry>, e: CategoryEntry)
    ensures
        entries_view(final(v)@) == upsert(entries_view(old(v)@), e@),
{
    let ghost s = entries_view(v@);
    let mut i: usize = 0;
    while i < v.len()
        invariant
            i <= v.len(),
            s == entries_view(v@),
            v@ == old(v)@,
            forall|j: int| 0 <= j < i ==> !(#[trigger] key_is(e.level, e.index)(s[j])),
        decreases v.len() - i,
    {
        if v[i].level == e.level && v[i].index == e.index {
            assert(key_is(e.level, e.index)(s[i as int]));
            proof {
                lemma_first_index_is(s, key_is(e.level, e.index), i as int);
            }
            v.set(i, e);
            assert(entries_view(v@) =~= s.update(i as int, e@));
            return ;
        }
        i += 1;
    }
    proof {
        lemma_first_index_none(s, key_is(e.level, e.index));
    }
    let ghost ev = e@;
    v.push(e);
    assert(entries_view(v@) =~= s.push(ev));
}

/// The entries of a category sheet's rows (the first row holds the headers).
pub fn load_category(rows: &Vec<Vec<String>>) -> (r: Vec<CategoryEntry>)
    ensures
        entries_view(r@) == entries_of_rows(rows@),
{
    let mut out: Vec<CategoryEntry> = Vec::new();
    let mut idx: usize = 0;
    while idx < rows.len()
        invariant
            idx <= rows.len(),
            entries_view(out@) == entries_of_rows(rows@.take(idx as int)),
        decreases rows.len() - idx,
    {
        let ghost prev = rows@.take(idx as int);
        assert(rows@.take(idx + 1).drop_last() =~= prev);
        let row = &rows[idx];
        if idx != 0 && row.len() != 0 {
            let name = cell_text(row, 0);
            if !name.as_str().is_empty() {
                if let Some((level, index)) = parse_level_index(name.as_str()) {
                    let status = cell_text(row, 2);
                    let prompt = cell_text(row, 3);
                    if !prompt.as_str().is_empty() {
                        upsert_entry(&mut out, CategoryEntry { name, level, index, status, prompt });
                    }
                }
            }
        }
        idx += 1;
    }
    assert(rows@.take(rows.len() as int) =~= rows@);
    out
}

impl Catalog {
    /// Builds the archive from the rows of its five sheets, each cell already
    /// read as text; `Catalog` error when no subject is found.
    pub fn from_sheets(
        subject_rows: &Vec<Vec<String>>,
        outfit_rows: &Vec<Vec<String>>,
        pose_rows: &Vec<Vec<String>>,
        action_rows: &Vec<Vec<String>>,
        scene_rows: &Vec<Vec<String>>,
    ) -> (r: Result<Catalog, ComposeError>)
        requires
            subject_rows.len() < u32::MAX,
        ensures
            match r {
                Ok(c) => {
                    &&& c@ == (CatalogView {
                        subjects: subjects_of_rows(subject_rows@),
                        outfits: entries_of_rows(outfit_rows@),
                        poses: entries_of_rows(pose_rows@),
                        actions: entries_of_rows(action_rows@),
                        scenes: entries_of_rows(scene_rows@),
                    })
                    &&& c@.well_formed()
                    &&& c@.subjects.len() > 0
                    &&& forall|i: int|
                        0 <= i < c@.subjects.len() ==> (#[trigger] c@.subjects[i]).name.len() > 0
                            && c@.subjects[i].body.len() > 0
                },
                Err(e) => subjects_of_rows(subject_rows@).len() == 0 && e@ == ErrorView::Catalog(
                    "workbook has no subjects — is this a valid prompt archive?"@,
                ),
            },
    {
        let catalog = Catalog {
            subjects: load_subjects(subject_rows),
            outfits: load_category(outfit_rows),
            poses: load_category(pose_rows),
            actions: load_category(action_rows),
            scenes: load_category(scene_rows),
        };
        if catalog.subjects.len() == 0 {
            return Err(
                ComposeError::Catalog(
                    "workbook has no subjects — is this a valid prompt archive?".to_owned(),
                ),
            );
        }
        proof {
            crate::laws::lemma_loaded_subjects(subject_rows@);
            lemma_subjects_of_rows_rows(subject_rows@);
            lemma_entries_of_rows_distinct(outfit_rows@);
            lemma_entries_of_rows_distinct(pose_rows@);
            lemma_entries_of_rows_distinct(action_rows@);
            lemma_entries_of_rows_distinct(scene_rows@);
        }
        Ok(catalog)
    }
}

} // verus!
