//! The blank archive template: the sheets, header rows and sample rows that
//! a new archive starts from.

use vstd::prelude::*;

use crate::archive_schema::{
    canonical_subjects, category_headers, category_sheets, has_sheet, header_error, how_to,
    shape_error, sheet_named, strings_view, subject_headers, subjects_sheet_result,
    category_sheets_error, header_mismatch, header_cell, SheetHeader, ShapeOptions,
};
use crate::error::ErrorView;
use crate::text::{chars_of, dec, push_dec, string_of};

verus! {

/// A cell of the template: text, or a level, written as a number.
#[derive(Debug, Clone, Copy)]
pub enum TemplateCell {
    Text(&'static str),
    Level(u8),
}

/// The text of a cell as a reader gives it back: a level in decimal.
pub open spec fn cell_text(c: TemplateCell) -> Seq<char> {
    match c {
        TemplateCell::Text(s) => s@,
        TemplateCell::Level(n) => dec(n as nat),
    }
}

pub open spec fn row_text(row: Seq<TemplateCell>) -> Seq<Seq<char>> {
    row.map_values(|c: TemplateCell| cell_text(c))
}

/// One sheet of the template: its name and its rows, the header row first.
#[derive(Debug)]
pub struct TemplateSheet {
    pub name: &'static str,
    pub rows: Vec<Vec<TemplateCell>>,
}

impl TemplateCell {
    /// The text of this cell, a level in decimal.
    pub fn text(&self) -> (s: String)
        ensures
            s@ == cell_text(*self),
    {
        match self {
            TemplateCell::Text(t) => string_of(&chars_of(t)),
            TemplateCell::Level(n) => {
                let mut v: Vec<char> = Vec::new();
                push_dec(&mut v, *n as u64);
                assert(v@ =~= dec(*n as nat));
                string_of(&v)
            },
        }
    }
}

fn row_texts(row: &Vec<TemplateCell>) -> (r: Vec<String>)
    ensures
        strings_view(r@) == row_text(row@),
{
    let mut r: Vec<String> = Vec::new();
    let mut i: usize = 0;
    while i < row.len()
        invariant
            i <= row.len(),
            strings_view(r@) == row_text(row@.take(i as int)),
        decreases row.len() - i,
    {
        let t = row[i].text();
        let ghost before = r@;
        r.push(t);
        assert(strings_view(r@) =~= strings_view(before).push(t@));
        assert(row_text(row@.take(i + 1)) =~= row_text(row@.take(i as int)).push(
            cell_text(row@[i as int]),
        ));
        i += 1;
    }
    assert(row@.take(row.len() as int) =~= row@);
    r
}

impl TemplateSheet {
    /// The rows as text, as a reader gives them back.
    pub fn text_rows(&self) -> (r: Vec<Vec<String>>)
        ensures
            r@.len() == self.rows@.len(),
            forall|k: int|
                0 <= k < r@.len() ==> strings_view((#[trigger] r@[k])@) == row_text(
                    self.rows@[k]@,
                ),
    {
        let mut r: Vec<Vec<String>> = Vec::new();
        let mut k: usize = 0;
        while k < self.rows.len()
            invariant
                k <= self.rows.len(),
                r@.len() == k,
                forall|j: int|
                    0 <= j < k ==> strings_view((#[trigger] r@[j])@) == row_text(
                        self.rows@[j]@,
                    ),
            decreases self.rows.len() - k,
        {
            r.push(row_texts(&self.rows[k]));
            k += 1;
        }
        r
    }

    /// The sheet's name and header row, for a shape check.
    pub fn header(&self) -> (h: SheetHeader)
        ensures
            h.name@ == self.name@,
            match h.header {
                Ok(Some(row)) => self.rows@.len() > 0 && strings_view(row@) == row_text(
                    self.rows@[0]@,
                ),
                Ok(None) => self.rows@.len() == 0,
                Err(_) => false,
            },
    {
        let name = string_of(&chars_of(self.name));
        if self.rows.len() == 0 {
            SheetHeader { name, header: Ok(None) }
        } else {
            SheetHeader { name, header: Ok(Some(row_texts(&self.rows[0]))) }
        }
    }
}

fn text_row(cells: &[&'static str]) -> (r: Vec<TemplateCell>)
    ensures
        r@.len() == cells@.len(),
        forall|k: int| 0 <= k < r@.len() ==> #[trigger] r@[k] == TemplateCell::Text(cells@[k]),
{
    let mut r: Vec<TemplateCell> = Vec::new();
    let mut k: usize = 0;
    while k < cells.len()
        invariant
            k <= cells@.len(),
            r@.len() == k,
            forall|j: int| 0 <= j < k ==> #[trigger] r@[j] == TemplateCell::Text(cells@[j]),
        decreases cells.len() - k,
    {
        r.push(TemplateCell::Text(cells[k]));
        k += 1;
    }
    r
}

fn sample_row(name: &'static str, level: u8, prompt: &'static str) -> (r: Vec<TemplateCell>)
    ensures
        r@ == seq![
            TemplateCell::Text(name),
            TemplateCell::Level(level),
            TemplateCell::Text("USE"),
            TemplateCell::Text(prompt),
        ],
{
    let mut r: Vec<TemplateCell> = Vec::new();
    r.push(TemplateCell::Text(name));
    r.push(TemplateCell::Level(level));
    r.push(TemplateCell::Text("USE"));
    r.push(TemplateCell::Text(prompt));
    assert(r@ =~= seq![
        TemplateCell::Text(name),
        TemplateCell::Level(level),
        TemplateCell::Text("USE"),
        TemplateCell::Text(prompt),
    ]);
    r
}

fn header4(a: &'static str, b: &'static str, c: &'static str, d: &'static str) -> (r: Vec<
    TemplateCell,
>)
    ensures
        row_text(r@) == seq![a@, b@, c@, d@],
{
    let mut r: Vec<TemplateCell> = Vec::new();
    r.push(TemplateCell::Text(a));
    r.push(TemplateCell::Text(b));
    r.push(TemplateCell::Text(c));
    r.push(TemplateCell::Text(d));
    assert(row_text(r@) =~= seq![a@, b@, c@, d@]);
    r
}

fn category_sheet(sheet: &'static str, name: &'static str, level: u8, prompt: &'static str) -> (t:
    TemplateSheet)
    ensures
        t.name@ == sheet@,
        t.rows@.len() == 2,
        row_text(t.rows@[0]@) == category_headers(),
        t.rows@[1]@ == seq![
            TemplateCell::Text(name),
            TemplateCell::Level(level),
            TemplateCell::Text("USE"),
            TemplateCell::Text(prompt),
        ],
{
    let mut rows: Vec<Vec<TemplateCell>> = Vec::new();
    rows.push(header4("Name", "Level", "Status", "Prompt"));
    rows.push(sample_row(name, level, prompt));
    TemplateSheet { name: sheet, rows }
}

/// The template: `Subjects` with a hint row, each category sheet with one
/// sample entry (outfit `1lvl1`, pose `2lvl1`, action `1lvl2`, scene
/// `3lvl1`), and the `HowTo` notes.
pub fn template_sheets() -> (t: Vec<TemplateSheet>)
    ensures
        t@.len() == 6,
        t@[0].name@ == canonical_subjects(),
        t@[0].rows@.len() == 2,
        row_text(t@[0].rows@[0]@) == subject_headers(),
        forall|k: int|
            0 <= k < 4 ==> (#[trigger] t@[k + 1]).name@ == category_sheets()[k] && t@[k
                + 1].rows@.len() == 2 && row_text(t@[k + 1].rows@[0]@) == category_headers(),
        t@[1].rows@[1]@[1] == TemplateCell::Level(1),
        t@[2].rows@[1]@[1] == TemplateCell::Level(2),
        t@[3].rows@[1]@[1] == TemplateCell::Level(1),
        t@[4].rows@[1]@[1] == TemplateCell::Level(3),
        t@[5].name@ == how_to(),
{
    let mut subjects: Vec<Vec<TemplateCell>> = Vec::new();
    subjects.push(header4("Name", "Body", "Outfit", "Accessories"));
    subjects.push(
        header4(
            "e.g. Alice (display name)",
            "e.g. 1girl, long hair, blue eyes — full body/character prompt",
            "e.g. optional notes (ignored by composer)",
            "e.g. optional notes (ignored by composer)",
        ),
    );
    let how_to_lines: [&'static str; 18] = [
        "Prompt Composer archive template",
        "",
        "Sheets Subjects / Outfits / Poses / Actions / Scenes are required.",
        "HowTo is ignored by the app — safe to delete.",
        "",
        "Subjects: Excel row number is the query id (row 2 → query starts with 2).",
        "Only Name + Body are used; Body is the character prompt text.",
        "",
        "Outfits/Poses/Actions/Scenes:",
        "  Name MUST end with L{level}-{index} e.g. Outfit L1-01 → query 1lvl1",
        "  Level column is informational; Status USE marks an active row",
        "  Prompt is the text joined into the composed output",
        "",
        "Query example: 2 1lvl1 2lvl1 1lvl2",
        "  → Subject row 2 Body + Outfit L1-01 + Pose L2-01 + Action L1-02",
        "Optional scene: … 3lvl1 appends Scene L3-01",
        "",
        "Replace every e.g. hint with your own text, then Upload archive in the app.",
    ];
    let mut notes: Vec<Vec<TemplateCell>> = Vec::new();
    let mut i: usize = 0;
    while i < 18
        decreases 18 - i,
    {
        notes.push(text_row(&[how_to_lines[i]]));
        i += 1;
    }
    let mut t: Vec<TemplateSheet> = Vec::new();
    t.push(TemplateSheet { name: "Subjects", rows: subjects });
    t.push(
        category_sheet(
            "Outfits",
            "Outfit L1-01",
            1,
            "e.g. wearing school uniform, white blouse — outfit prompt for 1lvl1",
        ),
    );
    t.push(
        category_sheet(
            "Poses",
            "Pose L2-01",
            2,
            "e.g. standing, looking at viewer — pose prompt for 2lvl1",
        ),
    );
    t.push(
        category_sheet(
            "Actions",
            "Action L1-02",
            1,
            "e.g. holding a book, slight smile — action prompt for 1lvl2",
        ),
    );
    t.push(
        category_sheet(
            "Scenes",
            "Scene L3-01",
            3,
            "e.g. classroom interior, soft daylight — optional scene for 3lvl1",
        ),
    );
    t.push(TemplateSheet { name: "HowTo", rows: notes });
    t
}

/// Whether a sheet is named `name` and has `expected` as its header row.
pub open spec fn sheet_has_header(s: SheetHeader, name: Seq<char>, expected: Seq<Seq<char>>) -> bool {
    &&& s.name@ == name
    &&& (s.header matches Ok(Some(row)) && strings_view(row@) == expected)
}

proof fn lemma_header_matches(row: Seq<Seq<char>>, expected: Seq<Seq<char>>)
    requires
        row == expected,
    ensures
        header_mismatch(row, expected) is None,
    decreases expected.len(),
{
    lemma_header_prefix(row, expected, expected.len() as int);
    assert(expected.take(expected.len() as int) =~= expected);
}

proof fn lemma_header_prefix(row: Seq<Seq<char>>, expected: Seq<Seq<char>>, n: int)
    requires
        row == expected,
        0 <= n <= expected.len(),
    ensures
        header_mismatch(row, expected.take(n)) is None,
    decreases n,
{
    if n > 0 {
        lemma_header_prefix(row, expected, n - 1);
        assert(expected.take(n).drop_last() =~= expected.take(n - 1));
        assert(header_cell(row, n - 1) == expected.take(n).last());
    }
}

proof fn lemma_sheet_named_at(sheets: Seq<SheetHeader>, name: Seq<char>, i: int)
    requires
        0 <= i < sheets.len(),
        sheets[i].name@ == name,
        forall|j: int| 0 <= j < i ==> (#[trigger] sheets[j]).name@ != name,
    ensures
        sheet_named(sheets, name) == Some(sheets[i]),
    decreases sheets.len(),
{
    if i < sheets.len() - 1 {
        let p = sheets.drop_last();
        assert forall|j: int| 0 <= j < i implies (#[trigger] p[j]).name@ != name by {
            assert(p[j] == sheets[j]);
        }
        lemma_sheet_named_at(p, name, i);
    } else {
        lemma_sheet_named_none(sheets.drop_last(), name);
    }
}

proof fn lemma_sheet_named_none(sheets: Seq<SheetHeader>, name: Seq<char>)
    requires
        forall|j: int| 0 <= j < sheets.len() ==> (#[trigger] sheets[j]).name@ != name,
    ensures
        sheet_named(sheets, name) is None,
    decreases sheets.len(),
{
    if sheets.len() > 0 {
        let p = sheets.drop_last();
        assert forall|j: int| 0 <= j < p.len() implies (#[trigger] p[j]).name@ != name by {
            assert(p[j] == sheets[j]);
        }
        lemma_sheet_named_none(p, name);
    }
}

proof fn lemma_named_sheet_passes(
    sheets: Seq<SheetHeader>,
    i: int,
    name: Seq<char>,
    expected: Seq<Seq<char>>,
)
    requires
        0 <= i < sheets.len(),
        sheet_has_header(sheets[i], name, expected),
        forall|j: int| 0 <= j < i ==> (#[trigger] sheets[j]).name@ != name,
    ensures
        has_sheet(sheets, name),
        header_error(sheets, name, expected) is None,
{
    lemma_sheet_named_at(sheets, name, i);
    let row = sheets[i].header->Ok_0->Some_0;
    lemma_header_matches(strings_view(row@), expected);
}

proof fn lemma_category_sheets_pass(sheets: Seq<SheetHeader>, k: int)
    requires
        0 <= k <= 4,
        sheets.len() == 6,
        forall|j: int|
            0 <= j < 4 ==> sheet_has_header(
                #[trigger] sheets[j + 1],
                category_sheets()[j],
                category_headers(),
            ),
        forall|i: int, j: int|
            0 <= i < j < 4 ==> category_sheets()[i] != category_sheets()[j],
        forall|j: int| 0 <= j < 4 ==> sheets[0].name@ != #[trigger] category_sheets()[j],
    ensures
        category_sheets_error(sheets, k) is None,
    decreases 4 - k,
{
    if k < 4 {
        lemma_category_sheets_pass(sheets, k + 1);
        assert(sheet_has_header(sheets[k + 1], category_sheets()[k], category_headers()));
        assert forall|j: int| 0 <= j < k + 1 implies (#[trigger] sheets[j]).name@
            != category_sheets()[k] by {
            if j > 0 {
                let i = j - 1;
                assert(sheet_has_header(sheets[i + 1], category_sheets()[i], category_headers()));
            }
        }
        lemma_named_sheet_passes(sheets, k + 1, category_sheets()[k], category_headers());
    }
}

/// The template has an archive's shape: the `Subjects` sheet and the four
/// category sheets with their header rows, and `HowTo`.
pub proof fn lemma_template_shape(sheets: Seq<SheetHeader>)
    requires
        sheets.len() == 6,
        sheet_has_header(sheets[0], canonical_subjects(), subject_headers()),
        forall|j: int|
            0 <= j < 4 ==> sheet_has_header(
                #[trigger] sheets[j + 1],
                category_sheets()[j],
                category_headers(),
            ),
        sheets[5].name@ == how_to(),
    ensures
        shape_error(sheets, ShapeOptions { require_howto: true, allow_legacy_subjects: false })
            is None,
{
    reveal_strlit("Subjects");
    reveal_strlit("Outfits");
    reveal_strlit("Poses");
    reveal_strlit("Actions");
    reveal_strlit("Scenes");
    lemma_named_sheet_passes(sheets, 0, canonical_subjects(), subject_headers());
    assert(subjects_sheet_result(sheets, false) == Ok::<Seq<char>, ErrorView>(canonical_subjects()));
    assert forall|i: int, j: int| 0 <= i < j < 4 implies category_sheets()[i]
        != category_sheets()[j] by {
        assert(category_sheets()[i].len() != category_sheets()[j].len() || category_sheets()[i][0]
            != category_sheets()[j][0]);
    }
    assert forall|j: int| 0 <= j < 4 implies sheets[0].name@ != #[trigger] category_sheets()[j] by {
        assert(canonical_subjects().len() != category_sheets()[j].len() || canonical_subjects()[0]
            != category_sheets()[j][0]);
    }
    lemma_category_sheets_pass(sheets, 0);
    assert(has_sheet(sheets, how_to()));
}

/// The name and header row of each sheet of the template, which pass the
/// shape check that template archives get.
pub fn template_headers() -> (h: Vec<SheetHeader>)
    ensures
        h@.len() == 6,
        shape_error(h@, ShapeOptions { require_howto: true, allow_legacy_subjects: false }) is None,
{
    let t = template_sheets();
    let mut h: Vec<SheetHeader> = Vec::new();
    let mut k: usize = 0;
    while k < 6
        invariant
            t@.len() == 6,
            k <= 6,
            h@.len() == k,
            forall|j: int| 0 <= j < k ==> (#[trigger] h@[j]).name@ == t@[j].name@,
            forall|j: int|
                0 <= j < k && j < 5 ==> ((#[trigger] h@[j]).header matches Ok(Some(row)) && t@[j].rows@.len()
                    > 0 && strings_view(row@) == row_text(t@[j].rows@[0]@)),
            forall|j: int|
                0 <= j < 4 ==> (#[trigger] t@[j + 1]).name@ == category_sheets()[j] && t@[j
                    + 1].rows@.len() == 2 && row_text(t@[j + 1].rows@[0]@) == category_headers(),
            t@[0].rows@.len() == 2,
        decreases 6 - k,
    {
        proof {
            if 1 <= k < 5 {
                let i = k - 1;
                assert(t@[i + 1].rows@.len() == 2);
            }
        }
        let hd = t[k].header();
        h.push(hd);
        assert(h@[k as int] == hd);
        k += 1;
    }
    proof {
        assert forall|j: int| 0 <= j < 4 implies sheet_has_header(
            #[trigger] h@[j + 1],
            category_sheets()[j],
            category_headers(),
        ) by {
            assert(t@[j + 1].name@ == category_sheets()[j]);
        }
        lemma_template_shape(h@);
    }
    h
}

} // verus!
