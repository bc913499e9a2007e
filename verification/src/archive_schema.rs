//! The sheets and header rows that a prompt archive must have.

use vstd::prelude::*;

use crate::error::{ComposeError, ErrorView};
use crate::seqs::{first_index, lemma_first_index_is, lemma_first_index_none};
use crate::text::{dec, push_dec, push_str, string_of};

verus! {

/// Canonical subject sheet name (writers always use this).
pub const SUBJECT_SHEET_CANONICAL: &'static str = "Subjects";

/// Legacy subject sheet name still accepted by the loader.
pub const SUBJECT_SHEET_LEGACY: &'static str = "Maidens";

/// Subject sheet candidates in preference order (canonical first).
pub const SUBJECT_SHEET_CANDIDATES: [&'static str; 2] = ["Subjects", "Maidens"];

/// Whether an attempt to open a sheet succeeded.
pub open spec fn opened() -> spec_fn(bool) -> bool {
    |b: bool| b
}

/// Of the subject sheet candidates, tried in preference order, the one to
/// read: the first that opened; none when none did.
pub fn subjects_sheet_to_read(opened_sheets: &Vec<bool>) -> (r: Option<usize>)
    ensures
        match r {
            Some(i) => first_index(opened_sheets@, opened()) == Some(i as int),
            None => first_index(opened_sheets@, opened()) is None,
        },
{
    let mut i: usize = 0;
    while i < opened_sheets.len()
        invariant
            i <= opened_sheets.len(),
            forall|j: int| 0 <= j < i ==> !opened()(#[trigger] opened_sheets@[j]),
        decreases opened_sheets.len() - i,
    {
        if opened_sheets[i] {
            proof {
                lemma_first_index_is(opened_sheets@, opened(), i as int);
            }
            return Some(i);
        }
        i += 1;
    }
    proof {
        lemma_first_index_none(opened_sheets@, opened());
    }
    None
}

/// Required category sheets (exact names).
pub const CATEGORY_SHEETS: [&'static str; 4] = ["Outfits", "Poses", "Actions", "Scenes"];

/// Header row for the subjects sheet.
pub const SUBJECT_HEADERS: [&'static str; 4] = ["Name", "Body", "Outfit", "Accessories"];

/// Header row for the category sheets.
pub const CATEGORY_HEADERS: [&'static str; 4] = ["Name", "Level", "Status", "Prompt"];

/// Optional documentation sheet written by the blank-archive template.
pub const HOW_TO_SHEET: &'static str = "HowTo";

/// What a shape check asks of an archive.
#[derive(Debug, Clone, Copy, PartialEq, Eq, Structural)]
pub struct ShapeOptions {
    /// Require a `HowTo` sheet (template archives).
    pub require_howto: bool,
    /// Accept the legacy `Maidens` as the subjects sheet.
    pub allow_legacy_subjects: bool,
}

impl Default for ShapeOptions {
    fn default() -> (o: Self)
        ensures
            !o.require_howto,
            o.allow_legacy_subjects,
    {
        ShapeOptions { require_howto: false, allow_legacy_subjects: true }
    }
}

impl ShapeOptions {
    /// The shape of the test fixture: legacy subjects accepted, no `HowTo`.
    pub fn fixture() -> (o: Self)
        ensures
            !o.require_howto,
            o.allow_legacy_subjects,
    {
        ShapeOptions { require_howto: false, allow_legacy_subjects: true }
    }

    /// The shape of a written template: canonical subjects and a `HowTo`.
    pub fn template() -> (o: Self)
        ensures
            o.require_howto,
            !o.allow_legacy_subjects,
    {
        ShapeOptions { require_howto: true, allow_legacy_subjects: false }
    }
}

/// One sheet of a workbook: its name, and the outcome of reading its first
/// row (each cell as text): a read error, no row at all, or the row.
#[derive(Debug)]
pub struct SheetHeader {
    pub name: String,
    pub header: Result<Option<Vec<String>>, String>,
}

pub open spec fn canonical_subjects() -> Seq<char> {
    "Subjects"@
}

pub open spec fn legacy_subjects() -> Seq<char> {
    "Maidens"@
}

pub open spec fn how_to() -> Seq<char> {
    "HowTo"@
}

pub open spec fn category_sheets() -> Seq<Seq<char>> {
    seq!["Outfits"@, "Poses"@, "Actions"@, "Scenes"@]
}

pub open spec fn subject_headers() -> Seq<Seq<char>> {
    seq!["Name"@, "Body"@, "Outfit"@, "Accessories"@]
}

pub open spec fn category_headers() -> Seq<Seq<char>> {
    seq!["Name"@, "Level"@, "Status"@, "Prompt"@]
}

pub open spec fn strs_view(v: Seq<&str>) -> Seq<Seq<char>> {
    v.map_values(|s: &str| s@)
}

pub open spec fn strings_view(v: Seq<String>) -> Seq<Seq<char>> {
    v.map_values(|s: String| s@)
}

pub open spec fn has_sheet(sheets: Seq<SheetHeader>, name: Seq<char>) -> bool {
    exists|i: int| 0 <= i < sheets.len() && (#[trigger] sheets[i]).name@ == name
}

/// The subjects sheet to check: `Subjects`, else `Maidens` where accepted.
pub open spec fn subjects_sheet_result(sheets: Seq<SheetHeader>, allow_legacy: bool) -> Result<
    Seq<char>,
    ErrorView,
> {
    if has_sheet(sheets, canonical_subjects()) {
        Ok(canonical_subjects())
    } else if allow_legacy && has_sheet(sheets, legacy_subjects()) {
        Ok(legacy_subjects())
    } else if has_sheet(sheets, legacy_subjects()) {
        Err(
            ErrorView::Catalog(
                "found legacy sheet `Maidens` but canonical `Subjects` is required"@,
            ),
        )
    } else {
        Err(ErrorView::Catalog("missing subjects sheet (`Subjects` or `Maidens`)"@))
    }
}

/// The first sheet of that name.
pub open spec fn sheet_named(sheets: Seq<SheetHeader>, name: Seq<char>) -> Option<SheetHeader>
    decreases sheets.len(),
{
    if sheets.len() == 0 {
        None
    } else {
        match sheet_named(sheets.drop_last(), name) {
            Some(s) => Some(s),
            None => if sheets.last().name@ == name {
                Some(sheets.last())
            } else {
                None
            },
        }
    }
}

/// Cell `k` of a header row, empty past its end.
pub open spec fn header_cell(row: Seq<Seq<char>>, k: int) -> Seq<char> {
    if 0 <= k < row.len() {
        row[k]
    } else {
        seq![]
    }
}

/// The first column whose header differs from the expected one.
pub open spec fn header_mismatch(row: Seq<Seq<char>>, expected: Seq<Seq<char>>) -> Option<int>
    decreases expected.len(),
{
    if expected.len() == 0 {
        None
    } else {
        match header_mismatch(row, expected.drop_last()) {
            Some(i) => Some(i),
            None => if header_cell(row, expected.len() - 1) != expected.last() {
                Some(expected.len() - 1)
            } else {
                None
            },
        }
    }
}

pub open spec fn quoted(name: Seq<char>) -> Seq<char> {
    "`"@ + name + "`"@
}

/// Why a sheet's header row is not the expected one, if it is not.
pub open spec fn header_error(
    sheets: Seq<SheetHeader>,
    name: Seq<char>,
    expected: Seq<Seq<char>>,
) -> Option<ErrorView> {
    match sheet_named(sheets, name) {
        None => Some(ErrorView::Catalog("sheet "@ + quoted(name) + " has no header row"@)),
        Some(s) => match s.header {
            Err(e) => Some(
                ErrorView::Catalog("read sheet "@ + quoted(name) + " for shape check: "@ + e@),
            ),
            Ok(None) => Some(ErrorView::Catalog("sheet "@ + quoted(name) + " has no header row"@)),
            Ok(Some(row)) => match header_mismatch(strings_view(row@), expected) {
                None => None,
                Some(i) => Some(
                    ErrorView::Catalog(
                        "sheet "@ + quoted(name) + " header col "@ + dec(i as nat)
                            + ": expected "@ + quoted(expected[i]) + ", got "@ + quoted(
                            header_cell(strings_view(row@), i),
                        ),
                    ),
                ),
            },
        },
    }
}

pub open spec fn missing_sheet(name: Seq<char>) -> ErrorView {
    ErrorView::Catalog("missing required sheet "@ + quoted(name))
}

/// The category sheets from position `k` on: each must exist and have the
/// category headers.
pub open spec fn category_sheets_error(sheets: Seq<SheetHeader>, k: int) -> Option<ErrorView>
    decreases 4 - k,
{
    if k < 0 || k >= 4 {
        None
    } else if !has_sheet(sheets, category_sheets()[k]) {
        Some(missing_sheet(category_sheets()[k]))
    } else {
        match header_error(sheets, category_sheets()[k], category_headers()) {
            Some(e) => Some(e),
            None => category_sheets_error(sheets, k + 1),
        }
    }
}

/// Why a workbook does not have the archive's shape, if it does not: the
/// subjects sheet and its headers, then each category sheet and its headers,
/// then `HowTo` where required. Extra sheets are allowed.
pub open spec fn shape_error(sheets: Seq<SheetHeader>, options: ShapeOptions) -> Option<
    ErrorView,
> {
    match subjects_sheet_result(sheets, options.allow_legacy_subjects) {
        Err(e) => Some(e),
        Ok(name) => match header_error(sheets, name, subject_headers()) {
            Some(e) => Some(e),
            None => match category_sheets_error(sheets, 0) {
                Some(e) => Some(e),
                None => if options.require_howto && !has_sheet(sheets, how_to()) {
                    Some(missing_sheet(how_to()))
                } else {
                    None
                },
            },
        },
    }
}

fn str_eq(a: &str, b: &str) -> (r: bool)
    ensures
        r == (a@ == b@),
{
    let x = a.to_owned();
    let y = b.to_owned();
    x == y
}

fn find_sheet(sheets: &Vec<SheetHeader>, name: &str) -> (r: Option<usize>)
    ensures
        match r {
            Some(i) => i < sheets.len() && sheet_named(sheets@, name@) == Some(sheets@[i as int])
                && has_sheet(sheets@, name@),
            None => sheet_named(sheets@, name@) is None && !has_sheet(sheets@, name@),
        },
{
    let mut i: usize = 0;
    while i < sheets.len()
        invariant
            i <= sheets.len(),
            forall|j: int| 0 <= j < i ==> (#[trigger] sheets@[j]).name@ != name@,
            sheet_named(sheets@.take(i as int), name@) is None,
        decreases sheets.len() - i,
    {
        assert(sheets@.take(i + 1).drop_last() =~= sheets@.take(i as int));
        if str_eq(sheets[i].name.as_str(), name) {
            assert(sheets@[i as int].name@ == name@);
            proof {
                lemma_sheet_named_prefix(sheets@, name@, i + 1);
            }
            return Some(i);
        }
        i += 1;
    }
    assert(sheets@.take(i as int) =~= sheets@);
    None
}

proof fn lemma_sheet_named_prefix(sheets: Seq<SheetHeader>, name: Seq<char>, k: int)
    requires
        0 <= k <= sheets.len(),
        sheet_named(sheets.take(k), name) is Some,
    ensures
        sheet_named(sheets, name) == sheet_named(sheets.take(k), name),
    decreases sheets.len() - k,
{
    if k < sheets.len() {
        assert(sheets.take(k + 1).drop_last() =~= sheets.take(k));
        lemma_sheet_named_prefix(sheets, name, k + 1);
    } else {
        assert(sheets.take(k) =~= sheets);
    }
}

/// Picks the subjects sheet: `Subjects`, else `Maidens` where accepted.
pub fn resolve_subjects_sheet(sheets: &Vec<SheetHeader>, allow_legacy: bool) -> (r: Result<
    &'static str,
    ComposeError,
>)
    ensures
        match r {
            Ok(s) => subjects_sheet_result(sheets@, allow_legacy) == Ok::<Seq<char>, ErrorView>(
                s@,
            ),
            Err(e) => subjects_sheet_result(sheets@, allow_legacy) == Err::<Seq<char>, ErrorView>(
                e@,
            ),
        },
{
    let has_canonical = find_sheet(sheets, "Subjects").is_some();
    let has_legacy = find_sheet(sheets, "Maidens").is_some();
    if has_canonical {
        return Ok("Subjects");
    }
    if allow_legacy && has_legacy {
        return Ok("Maidens");
    }
    if has_legacy && !allow_legacy {
        return Err(
            ComposeError::Catalog(
                "found legacy sheet `Maidens` but canonical `Subjects` is required".to_owned(),
            ),
        );
    }
    Err(ComposeError::Catalog("missing subjects sheet (`Subjects` or `Maidens`)".to_owned()))
}

fn push_quoted(out: &mut Vec<char>, s: &str)
    ensures
        final(out)@ == old(out)@ + quoted(s@),
{
    push_str(out, "`");
    push_str(out, s);
    push_str(out, "`");
    assert(final(out)@ =~= old(out)@ + quoted(s@));
}

/// Checks that the named sheet's first row holds the expected headers.
pub fn check_headers(sheets: &Vec<SheetHeader>, name: &str, expected: &Vec<&str>) -> (r: Result<
    (),
    ComposeError,
>)
    ensures
        match r {
            Ok(()) => header_error(sheets@, name@, strs_view(expected@)) is None,
            Err(e) => header_error(sheets@, name@, strs_view(expected@)) == Some(e@),
        },
{
    let ghost exp = strs_view(expected@);
    let no_row = |name: &str| -> (e: ComposeError)
        ensures
            e@ == ErrorView::Catalog("sheet "@ + quoted(name@) + " has no header row"@),
        {
            let mut m: Vec<char> = Vec::new();
            push_str(&mut m, "sheet ");
            push_quoted(&mut m, name);
            push_str(&mut m, " has no header row");
            assert(m@ =~= "sheet "@ + quoted(name@) + " has no header row"@);
            ComposeError::Catalog(string_of(&m))
        };
    let i = match find_sheet(sheets, name) {
        Some(i) => i,
        None => return Err(no_row(name)),
    };
    let row = match &sheets[i].header {
        Err(e) => {
            let mut m: Vec<char> = Vec::new();
            push_str(&mut m, "read sheet ");
            push_quoted(&mut m, name);
            push_str(&mut m, " for shape check: ");
            push_str(&mut m, e.as_str());
            assert(m@ =~= "read sheet "@ + quoted(name@) + " for shape check: "@ + e@);
            return Err(ComposeError::Catalog(string_of(&m)));
        },
        Ok(None) => return Err(no_row(name)),
        Ok(Some(row)) => row,
    };
    let ghost cells = strings_view(row@);
    let mut k: usize = 0;
    while k < expected.len()
        invariant
            k <= expected.len(),
            i < sheets.len(),
            sheet_named(sheets@, name@) == Some(sheets@[i as int]),
            sheets@[i as int].header == Ok::<Option<Vec<String>>, String>(Some(*row)),
            exp == strs_view(expected@),
            cells == strings_view(row@),
            header_mismatch(cells, exp.take(k as int)) is None,
        decreases expected.len() - k,
    {
        assert(exp.take(k + 1).drop_last() =~= exp.take(k as int));
        let actual = if k < row.len() {
            row[k].clone()
        } else {
            String::new()
        };
        assert(actual@ == crate::archive_schema::header_cell(cells, k as int));
        let want = expected[k];
        if !str_eq(actual.as_str(), want) {
            proof {
                lemma_header_mismatch_prefix(cells, exp, k + 1);
            }
            let mut m: Vec<char> = Vec::new();
            push_str(&mut m, "sheet ");
            push_quoted(&mut m, name);
            push_str(&mut m, " header col ");
            push_dec(&mut m, k as u64);
            push_str(&mut m, ": expected ");
            push_quoted(&mut m, want);
            push_str(&mut m, ", got ");
            push_quoted(&mut m, actual.as_str());
            assert(m@ =~= "sheet "@ + quoted(name@) + " header col "@ + dec(k as nat)
                + ": expected "@ + quoted(exp[k as int]) + ", got "@ + quoted(
                header_cell(cells, k as int),
            ));
            return Err(ComposeError::Catalog(string_of(&m)));
        }
        k += 1;
    }
    assert(exp.take(k as int) =~= exp);
    Ok(())
}

proof fn lemma_header_mismatch_prefix(row: Seq<Seq<char>>, exp: Seq<Seq<char>>, k: int)
    requires
        0 <= k <= exp.len(),
        header_mismatch(row, exp.take(k)) is Some,
    ensures
        header_mismatch(row, exp) == header_mismatch(row, exp.take(k)),
    decreases exp.len() - k,
{
    if k < exp.len() {
        assert(exp.take(k + 1).drop_last() =~= exp.take(k));
        lemma_header_mismatch_prefix(row, exp, k + 1);
    } else {
        assert(exp.take(k) =~= exp);
    }
}

fn subject_header_names() -> (v: Vec<&'static str>)
    ensures
        strs_view(v@) == subject_headers(),
{
    let mut v = Vec::new();
    v.push("Name");
    v.push("Body");
    v.push("Outfit");
    v.push("Accessories");
    assert(strs_view(v@) =~= subject_headers());
    v
}

fn category_header_names() -> (v: Vec<&'static str>)
    ensures
        strs_view(v@) == category_headers(),
{
    let mut v = Vec::new();
    v.push("Name");
    v.push("Level");
    v.push("Status");
    v.push("Prompt");
    assert(strs_view(v@) =~= category_headers());
    v
}

fn category_sheet_names() -> (v: Vec<&'static str>)
    ensures
        strs_view(v@) == category_sheets(),
        v@.len() == 4,
{
    let mut v = Vec::new();
    v.push("Outfits");
    v.push("Poses");
    v.push("Actions");
    v.push("Scenes");
    assert(strs_view(v@) =~= category_sheets());
    v
}

/// Checks that a workbook, given by its sheets in order, has the archive's
/// required sheets and header rows.
pub fn check_archive_shape(sheets: &Vec<SheetHeader>, options: ShapeOptions) -> (r: Result<
    (),
    ComposeError,
>)
    ensures
        match r {
            Ok(()) => shape_error(sheets@, options) is None && forall|k: int|
                0 <= k < 4 ==> crate::laws::has_headers(
                    sheets@,
                    #[trigger] category_sheets()[k],
                    category_headers(),
                ),
            Err(e) => shape_error(sheets@, options) == Some(e@),
        },
{
    let subjects = match resolve_subjects_sheet(sheets, options.allow_legacy_subjects) {
        Ok(s) => s,
        Err(e) => return Err(e),
    };
    let headers0 = subject_header_names();
    match check_headers(sheets, subjects, &headers0) {
        Ok(()) => {},
        Err(e) => return Err(e),
    }
    let names = category_sheet_names();
    let headers = category_header_names();
    let mut k: usize = 0;
    assert(names@.len() == 4);
    while k < 4
        invariant
            k <= 4,
            names@.len() == 4,
            subjects_sheet_result(sheets@, options.allow_legacy_subjects) == Ok::<
                Seq<char>,
                ErrorView,
            >(subjects@),
            header_error(sheets@, subjects@, subject_headers()) is None,
            strs_view(names@) == category_sheets(),
            strs_view(headers@) == category_headers(),
            category_sheets_error(sheets@, 0) == category_sheets_error(sheets@, k as int),
        decreases 4 - k,
    {
        let name = names[k];
        assert(strs_view(names@)[k as int] == name@);
        assert(name@ == category_sheets()[k as int]);
        if find_sheet(sheets, name).is_none() {
            let mut m: Vec<char> = Vec::new();
            push_str(&mut m, "missing required sheet ");
            push_quoted(&mut m, name);
            assert(m@ =~= "missing required sheet "@ + quoted(name@));
            return Err(ComposeError::Catalog(string_of(&m)));
        }
        match check_headers(sheets, name, &headers) {
            Ok(()) => {},
            Err(e) => return Err(e),
        }
        k += 1;
    }
    if options.require_howto && find_sheet(sheets, "HowTo").is_none() {
        let mut m: Vec<char> = Vec::new();
        push_str(&mut m, "missing required sheet ");
        push_quoted(&mut m, "HowTo");
        assert(m@ =~= "missing required sheet "@ + quoted(how_to()));
        return Err(ComposeError::Catalog(string_of(&m)));
    }
    proof {
        crate::laws::lemma_shape_ok_has_headers(sheets@, options);
    }
    Ok(())
}

} // verus!
