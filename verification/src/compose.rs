//! Composing a prompt: the subject's body followed by the prompt of each
//! module's entry, joined by spaces; and drawing a random valid query.

use vstd::prelude::*;

use crate::catalog::{
    category_of_slot, category_range_of, entries_view, entry_not_found_message, in_range,
    key_is, kind_of, label_of, lemma_entry_in_range, lemma_subject_in_range, row_is, rows_of,
    sheet_name_of, subject_not_found_message, subject_range_of, Catalog, CatalogRanges,
    CatalogView, Category, CategoryRange, EntryView, SubjectRange, SubjectView,
};
use crate::error::{invalid_err, ComposeError, ErrorView};
use crate::parse::{lvl, parse_query, parse_query_result, ModuleToken, ParsedQuery, ParsedView};
use crate::seqs::{first_index, lemma_first_index, seq_max};
use fastrand::Rng;
use crate::text::{dec, push_dec, push_str, string_of};
use crate::draw::{
    drawn_key, drawn_row, key_picked_from, row_picked_from, DrawLog, entry_keys_in_range, key_draws_made, keys_in_range, lemma_keys_in_range,
    lemma_rows_in_range, module_from_draws, names_entry, names_subject, row_draws_made,
    row_from_draws_exec, rows_in_range, subject_rows_in_range, MAX_DRAWS,
};

verus! {

/// One piece of a composed prompt: what it is (`subject`, `outfit`, ...), a
/// label naming its source, and its text.
#[derive(Debug, Clone, PartialEq, Eq)]
pub struct PromptPart {
    pub kind: String,
    pub label: String,
    pub text: String,
}

pub struct PartView {
    pub kind: Seq<char>,
    pub label: Seq<char>,
    pub text: Seq<char>,
}

impl View for PromptPart {
    type V = PartView;

    open spec fn view(&self) -> PartView {
        PartView { kind: self.kind@, label: self.label@, text: self.text@ }
    }
}

/// A composed prompt, its parts, and the query in canonical form.
#[derive(Debug, Clone)]
pub struct ComposeResult {
    pub prompt: String,
    pub parts: Vec<PromptPart>,
    pub query: String,
}

pub struct ComposeView {
    pub prompt: Seq<char>,
    pub parts: Seq<PartView>,
    pub query: Seq<char>,
}

pub open spec fn parts_view(v: Seq<PromptPart>) -> Seq<PartView> {
    v.map_values(|p: PromptPart| p@)
}

impl View for ComposeResult {
    type V = ComposeView;

    open spec fn view(&self) -> ComposeView {
        ComposeView { prompt: self.prompt@, parts: parts_view(self.parts@), query: self.query@ }
    }
}

pub open spec fn compose_result_view(r: Result<ComposeResult, ComposeError>) -> Result<
    ComposeView,
    ErrorView,
> {
    match r {
        Ok(x) => Ok(x@),
        Err(e) => Err(e@),
    }
}

pub open spec fn subject_outside_message(row: u32, min: u32, max: u32) -> Seq<char> {
    "subject row "@ + dec(row as nat) + " is outside archive range "@ + dec(min as nat) + "–"@
        + dec(max as nat)
}

/// Why the subject row lies outside the archive's rows, if it does.
pub open spec fn subject_range_error(c: CatalogView, row: u32) -> Option<ErrorView> {
    let r = subject_range_of(c.subjects);
    if row < r.min_row || row > r.max_row {
        Some(
            invalid_err(
                "subject_out_of_range"@,
                subject_outside_message(row, r.min_row, r.max_row),
            ),
        )
    } else {
        None
    }
}

pub open spec fn bounds_message(
    label: Seq<char>,
    what: Seq<char>,
    min: u8,
    max: u8,
    got: u8,
) -> Seq<char> {
    label + what + dec(min as nat) + "–"@ + dec(max as nat) + " (got "@ + dec(got as nat) + ")"@
}

/// Why a module lies outside the range of its category, if it does.
pub open spec fn module_range_error(m: ModuleToken, range: CategoryRange) -> Option<ErrorView> {
    if m.level < range.min_level || m.level > range.max_level {
        Some(
            invalid_err(
                "level_out_of_range"@,
                bounds_message(
                    label_of(m.category),
                    " level must be "@,
                    range.min_level,
                    range.max_level,
                    m.level,
                ),
            ),
        )
    } else if m.index < range.min_index || m.index > range.max_index {
        Some(
            invalid_err(
                "index_out_of_range"@,
                bounds_message(
                    label_of(m.category),
                    " index must be "@,
                    range.min_index,
                    range.max_index,
                    m.index,
                ),
            ),
        )
    } else {
        None
    }
}

pub open spec fn no_entries_message(c: Category) -> Seq<char> {
    sheet_name_of(c) + " sheet has no entries in the loaded archive"@
}

pub open spec fn module_error(c: CatalogView, m: ModuleToken) -> Option<ErrorView> {
    match category_range_of(c.entries(m.category)) {
        None => Some(invalid_err("entry_not_found"@, no_entries_message(m.category))),
        Some(r) => module_range_error(m, r),
    }
}

/// The first module that lies outside its category's range.
pub open spec fn modules_error(c: CatalogView, ms: Seq<ModuleToken>) -> Option<ErrorView>
    decreases ms.len(),
{
    if ms.len() == 0 {
        None
    } else {
        match modules_error(c, ms.drop_last()) {
            Some(e) => Some(e),
            None => module_error(c, ms.last()),
        }
    }
}

/// Why a parsed query falls outside the archive's ranges, if it does.
pub open spec fn ranges_error(c: CatalogView, p: ParsedView) -> Option<ErrorView> {
    match subject_range_error(c, p.subject_row) {
        Some(e) => Some(e),
        None => modules_error(c, p.modules),
    }
}

pub open spec fn subject_part(s: SubjectView) -> PartView {
    PartView {
        kind: "subject"@,
        label: "Subject row "@ + dec(s.row as nat) + " ("@ + s.name + ")"@,
        text: s.body,
    }
}

pub open spec fn entry_part(e: EntryView, c: Category) -> PartView {
    PartView { kind: kind_of(c), label: e.name, text: e.prompt }
}

/// The parts of the modules, looked up in order; the first missing entry
/// decides the error.
pub open spec fn module_parts(c: CatalogView, ms: Seq<ModuleToken>) -> Result<
    Seq<PartView>,
    ErrorView,
>
    decreases ms.len(),
{
    if ms.len() == 0 {
        Ok(seq![])
    } else {
        match module_parts(c, ms.drop_last()) {
            Err(e) => Err(e),
            Ok(ps) => {
                let m = ms.last();
                match c.lookup_entry(m.category, m.level, m.index) {
                    None => Err(
                        invalid_err(
                            "entry_not_found"@,
                            entry_not_found_message(m.category, m.level, m.index),
                        ),
                    ),
                    Some(e) => Ok(ps.push(entry_part(e, m.category))),
                }
            },
        }
    }
}

/// The texts of the parts, separated by single spaces.
pub open spec fn joined(parts: Seq<PartView>) -> Seq<char>
    decreases parts.len(),
{
    if parts.len() == 0 {
        seq![]
    } else if parts.len() == 1 {
        parts[0].text
    } else {
        joined(parts.drop_last()) + seq![' '] + parts.last().text
    }
}

pub open spec fn token_text(m: ModuleToken) -> Seq<char> {
    dec(m.level as nat) + lvl() + dec(m.index as nat)
}

/// The canonical query: the row, then `NlvlM` for each module, separated by
/// single spaces.
pub open spec fn canonical(row: u32, ms: Seq<ModuleToken>) -> Seq<char>
    decreases ms.len(),
{
    if ms.len() == 0 {
        dec(row as nat)
    } else {
        canonical(row, ms.drop_last()) + seq![' '] + token_text(ms.last())
    }
}

/// What composing a parsed query against an archive gives.
pub open spec fn compose_parsed_result(c: CatalogView, p: ParsedView) -> Result<
    ComposeView,
    ErrorView,
> {
    match ranges_error(c, p) {
        Some(e) => Err(e),
        None => match c.lookup_subject(p.subject_row) {
            None => Err(
                invalid_err(
                    "subject_out_of_range"@,
                    subject_not_found_message(p.subject_row, seq_max(rows_of(c.subjects))),
                ),
            ),
            Some(s) => match module_parts(c, p.modules) {
                Err(e) => Err(e),
                Ok(ps) => {
                    let parts = seq![subject_part(s)] + ps;
                    Ok(
                        ComposeView {
                            prompt: joined(parts),
                            parts,
                            query: canonical(p.subject_row, p.modules),
                        },
                    )
                },
            },
        },
    }
}

/// What composing a query string against an archive gives.
pub open spec fn compose_query_result(c: CatalogView, query: Seq<char>) -> Result<
    ComposeView,
    ErrorView,
> {
    match parse_query_result(query) {
        Err(e) => Err(e),
        Ok(p) => compose_parsed_result(c, p),
    }
}

/// Whether a level and index lie within a category range.
pub fn in_category_range(level: u8, index: u8, range: &CategoryRange) -> (r: bool)
    ensures
        r == in_range(level, index, *range),
{
    level >= range.min_level && level <= range.max_level && index >= range.min_index && index
        <= range.max_index
}

fn bounds_error(
    code: &str,
    category: Category,
    what: &str,
    min: u8,
    max: u8,
    got: u8,
) -> (e: ComposeError)
    ensures
        e@ == invalid_err(code@, bounds_message(label_of(category), what@, min, max, got)),
{
    let mut m: Vec<char> = Vec::new();
    push_str(&mut m, category.label());
    push_str(&mut m, what);
    push_dec(&mut m, min as u64);
    push_str(&mut m, "–");
    push_dec(&mut m, max as u64);
    push_str(&mut m, " (got ");
    push_dec(&mut m, got as u64);
    push_str(&mut m, ")");
    assert(m@ =~= bounds_message(label_of(category), what@, min, max, got));
    ComposeError::invalid(code, string_of(&m))
}

/// Checks a module's level and index against its category's range.
pub fn validate_level_index_against_range(module: &ModuleToken, range: &CategoryRange) -> (r:
    Result<(), ComposeError>)
    ensures
        match r {
            Ok(()) => module_range_error(*module, *range) is None,
            Err(e) => module_range_error(*module, *range) == Some(e@),
        },
{
    if module.level < range.min_level || module.level > range.max_level {
        return Err(
            bounds_error(
                "level_out_of_range",
                module.category,
                " level must be ",
                range.min_level,
                range.max_level,
                module.level,
            ),
        );
    }
    if module.index < range.min_index || module.index > range.max_index {
        return Err(
            bounds_error(
                "index_out_of_range",
                module.category,
                " index must be ",
                range.min_index,
                range.max_index,
                module.index,
            ),
        );
    }
    Ok(())
}

/// Checks a module against the range of its category in the archive.
pub fn validate_module_against_range(catalog: &Catalog, module: &ModuleToken) -> (r: Result<
    (),
    ComposeError,
>)
    ensures
        match r {
            Ok(()) => module_error(catalog@, *module) is None,
            Err(e) => module_error(catalog@, *module) == Some(e@),
        },
{
    match catalog.category_range_for(module.category) {
        None => {
            let mut m: Vec<char> = Vec::new();
            push_str(&mut m, module.category.sheet_name());
            push_str(&mut m, " sheet has no entries in the loaded archive");
            assert(m@ =~= no_entries_message(module.category));
            Err(ComposeError::invalid("entry_not_found", string_of(&m)))
        },
        Some(range) => validate_level_index_against_range(module, &range),
    }
}

/// Checks the subject row and every module against the archive's ranges.
pub fn validate_against_ranges(catalog: &Catalog, parsed: &ParsedQuery) -> (r: Result<
    (),
    ComposeError,
>)
    ensures
        match r {
            Ok(()) => ranges_error(catalog@, parsed@) is None,
            Err(e) => ranges_error(catalog@, parsed@) == Some(e@),
        },
{
    let ranges = catalog.ranges();
    let subjects = ranges.subjects;
    if parsed.subject_row < subjects.min_row || parsed.subject_row > subjects.max_row {
        let mut m: Vec<char> = Vec::new();
        push_str(&mut m, "subject row ");
        push_dec(&mut m, parsed.subject_row as u64);
        push_str(&mut m, " is outside archive range ");
        push_dec(&mut m, subjects.min_row as u64);
        push_str(&mut m, "–");
        push_dec(&mut m, subjects.max_row as u64);
        assert(m@ =~= subject_outside_message(
            parsed.subject_row,
            subjects.min_row,
            subjects.max_row,
        ));
        return Err(ComposeError::invalid("subject_out_of_range", string_of(&m)));
    }
    let ghost ms = parsed.modules@;
    let mut i: usize = 0;
    while i < parsed.modules.len()
        invariant
            i <= parsed.modules.len(),
            ms == parsed.modules@,
            subject_range_error(catalog@, parsed.subject_row) is None,
            modules_error(catalog@, ms.take(i as int)) is None,
        decreases parsed.modules.len() - i,
    {
        assert(ms.take(i + 1).drop_last() =~= ms.take(i as int));
        assert(ms.take(i + 1).last() == ms[i as int]);
        match validate_module_against_range(catalog, &parsed.modules[i]) {
            Ok(()) => {},
            Err(e) => {
                proof {
                    lemma_modules_error_prefix(catalog@, ms, i + 1);
                }
                return Err(e);
            },
        }
        i += 1;
    }
    assert(ms.take(i as int) =~= ms);
    Ok(())
}

/// An error on a prefix of the modules is the error on all of them.
pub proof fn lemma_modules_error_prefix(c: CatalogView, ms: Seq<ModuleToken>, k: int)
    requires
        0 <= k <= ms.len(),
        modules_error(c, ms.take(k)) is Some,
    ensures
        modules_error(c, ms) == modules_error(c, ms.take(k)),
    decreases ms.len() - k,
{
    if k < ms.len() {
        assert(ms.take(k + 1).drop_last() =~= ms.take(k));
        lemma_modules_error_prefix(c, ms, k + 1);
    } else {
        assert(ms.take(k) =~= ms);
    }
}

/// An error on a prefix of the modules is the error on all of them.
pub proof fn lemma_module_parts_prefix(c: CatalogView, ms: Seq<ModuleToken>, k: int)
    requires
        0 <= k <= ms.len(),
        module_parts(c, ms.take(k)) is Err,
    ensures
        module_parts(c, ms) == module_parts(c, ms.take(k)),
    decreases ms.len() - k,
{
    if k < ms.len() {
        assert(ms.take(k + 1).drop_last() =~= ms.take(k));
        lemma_module_parts_prefix(c, ms, k + 1);
    } else {
        assert(ms.take(k) =~= ms);
    }
}

/// The canonical form of a parsed query, such as `2 1lvl1 2lvl1 1lvl2`.
pub fn format_canonical_query(parsed: &ParsedQuery) -> (s: String)
    ensures
        s@ == canonical(parsed.subject_row, parsed.modules@),
{
    let ghost ms = parsed.modules@;
    let mut out: Vec<char> = Vec::new();
    push_dec(&mut out, parsed.subject_row as u64);
    assert(out@ =~= canonical(parsed.subject_row, ms.take(0)));
    let mut i: usize = 0;
    while i < parsed.modules.len()
        invariant
            i <= parsed.modules.len(),
            ms == parsed.modules@,
            out@ == canonical(parsed.subject_row, ms.take(i as int)),
        decreases parsed.modules.len() - i,
    {
        let m = parsed.modules[i];
        assert(ms.take(i + 1).drop_last() =~= ms.take(i as int));
        assert(ms.take(i + 1).last() == m);
        out.push(' ');
        push_dec(&mut out, m.level as u64);
        out.push('l');
        out.push('v');
        out.push('l');
        push_dec(&mut out, m.index as u64);
        assert(out@ =~= canonical(parsed.subject_row, ms.take(i + 1)));
        i += 1;
    }
    assert(ms.take(i as int) =~= ms);
    string_of(&out)
}

/// The texts of the parts joined by single spaces.
fn join_texts(parts: &Vec<PromptPart>) -> (s: String)
    ensures
        s@ == joined(parts_view(parts@)),
{
    let ghost ps = parts_view(parts@);
    let mut out: Vec<char> = Vec::new();
    let mut i: usize = 0;
    while i < parts.len()
        invariant
            i <= parts.len(),
            ps == parts_view(parts@),
            out@ == joined(ps.take(i as int)),
        decreases parts.len() - i,
    {
        assert(ps.take(i + 1).drop_last() =~= ps.take(i as int));
        assert(ps.take(i + 1).last() == parts@[i as int]@);
        if i > 0 {
            out.push(' ');
        } else {
            assert(ps.take(1)[0] == parts@[0]@);
        }
        let text = parts[i].text.as_str();
        push_str(&mut out, text);
        assert(out@ =~= joined(ps.take(i + 1)));
        i += 1;
    }
    assert(ps.take(i as int) =~= ps);
    string_of(&out)
}

/// Composes a parsed query: checks it against the archive's ranges, then
/// looks up the subject and each module's entry.
pub fn compose_parsed(catalog: &Catalog, parsed: &ParsedQuery) -> (r: Result<
    ComposeResult,
    ComposeError,
>)
    ensures
        compose_result_view(r) == compose_parsed_result(catalog@, parsed@),
{
    match validate_against_ranges(catalog, parsed) {
        Ok(()) => {},
        Err(e) => return Err(e),
    }
    let subject = match catalog.subject(parsed.subject_row) {
        Ok(s) => s,
        Err(e) => return Err(e),
    };
    let mut parts: Vec<PromptPart> = Vec::new();
    let mut label: Vec<char> = Vec::new();
    push_str(&mut label, "Subject row ");
    push_dec(&mut label, subject.row as u64);
    push_str(&mut label, " (");
    push_str(&mut label, subject.name.as_str());
    push_str(&mut label, ")");
    parts.push(
        PromptPart {
            kind: "subject".to_owned(),
            label: string_of(&label),
            text: subject.body.clone(),
        },
    );
    let ghost s = catalog@.lookup_subject(parsed.subject_row)->0;
    assert(parts_view(parts@) =~= seq![subject_part(s)]);
    let ghost ms = parsed.modules@;
    let mut i: usize = 0;
    while i < parsed.modules.len()
        invariant
            i <= parsed.modules.len(),
            ms == parsed.modules@,
            ranges_error(catalog@, parsed@) is None,
            catalog@.lookup_subject(parsed.subject_row) == Some(s),
            module_parts(catalog@, ms.take(i as int)) matches Ok(ps) && parts_view(parts@) == seq![
                subject_part(s),
            ] + ps,
        decreases parsed.modules.len() - i,
    {
        let m = parsed.modules[i];
        assert(ms.take(i + 1).drop_last() =~= ms.take(i as int));
        assert(ms.take(i + 1).last() == m);
        let entry = match catalog.entry(m.category, m.level, m.index) {
            Ok(e) => e,
            Err(e) => {
                proof {
                    lemma_module_parts_prefix(catalog@, ms, i + 1);
                }
                return Err(e);
            },
        };
        let ghost before = parts_view(parts@);
        parts.push(
            PromptPart {
                kind: m.category.kind().to_owned(),
                label: entry.name.clone(),
                text: entry.prompt.clone(),
            },
        );
        assert(parts_view(parts@) =~= before.push(entry_part(entry@, m.category)));
        i += 1;
    }
    assert(ms.take(i as int) =~= ms);
    let prompt = join_texts(&parts);
    let query = format_canonical_query(parsed);
    Ok(ComposeResult { prompt, parts, query })
}

/// Parses a query and composes it against the archive.
pub fn compose_from_query(catalog: &Catalog, query: &str) -> (r: Result<
    ComposeResult,
    ComposeError,
>)
    ensures
        compose_result_view(r) == compose_query_result(catalog@, query@),
{
    match parse_query(query) {
        Ok(parsed) => compose_parsed(catalog, &parsed),
        Err(e) => Err(e),
    }
}

/// The generator of `fastrand`, used to draw random queries.
#[verifier::external_type_specification]
#[verifier::external_body]
pub struct ExRng(fastrand::Rng);

/// `fastrand::Rng::new`: a generator seeded from the system. Nothing is
/// promised of the numbers it draws.
#[verifier::external_body]
fn new_rng() -> Rng {
    Rng::new()
}

/// Whether a parsed query is one that a random draw may give: an existing
/// subject, and an existing entry for the outfit, pose, action and (when
/// the archive has scenes) scene, in that order.
pub open spec fn valid_pick(c: CatalogView, p: ParsedView) -> bool {
    &&& c.lookup_subject(p.subject_row) is Some
    &&& p.modules.len() == if c.scenes.len() > 0 {
        4int
    } else {
        3int
    }
    &&& forall|k: int|
        0 <= k < p.modules.len() ==> {
            &&& (#[trigger] p.modules[k]).category == category_of_slot(k)->0
            &&& c.lookup_entry(p.modules[k].category, p.modules[k].level, p.modules[k].index) is Some
        }
}

pub open spec fn empty_sheet_message(c: Category) -> Seq<char> {
    sheet_name_of(c) + " sheet has no entries — cannot randomize"@
}

/// Why no random query can be drawn, if none can: no subject, or a required
/// category (outfit, pose, action) without entries.
pub open spec fn random_error(c: CatalogView) -> Option<ErrorView> {
    if c.subjects.len() == 0 {
        Some(
            invalid_err(
                "empty_catalog"@,
                "Subjects sheet has no entries — cannot randomize"@,
            ),
        )
    } else if c.outfits.len() == 0 {
        Some(invalid_err("empty_catalog"@, empty_sheet_message(Category::Outfit)))
    } else if c.poses.len() == 0 {
        Some(invalid_err("empty_catalog"@, empty_sheet_message(Category::Pose)))
    } else if c.actions.len() == 0 {
        Some(invalid_err("empty_catalog"@, empty_sheet_message(Category::Action)))
    } else {
        None
    }
}

/// The range of a required category; `empty_catalog` when it has no entries.
pub fn category_range_or_empty(category: Category, ranges: &CatalogRanges) -> (r: Result<
    CategoryRange,
    ComposeError,
>)
    ensures
        match r {
            Ok(x) => (match category {
                Category::Outfit => ranges.outfits,
                Category::Pose => ranges.poses,
                Category::Action => ranges.actions,
                Category::Scene => ranges.scenes,
            }) == Some(x),
            Err(e) => (match category {
                Category::Outfit => ranges.outfits,
                Category::Pose => ranges.poses,
                Category::Action => ranges.actions,
                Category::Scene => ranges.scenes,
            }) is None && e@ == invalid_err("empty_catalog"@, empty_sheet_message(category)),
        },
{
    let range = match category {
        Category::Outfit => ranges.outfits,
        Category::Pose => ranges.poses,
        Category::Action => ranges.actions,
        Category::Scene => ranges.scenes,
    };
    match range {
        Some(r) => Ok(r),
        None => {
            let mut m: Vec<char> = Vec::new();
            push_str(&mut m, category.sheet_name());
            push_str(&mut m, " sheet has no entries — cannot randomize");
            assert(m@ =~= empty_sheet_message(category));
            Err(ComposeError::invalid("empty_catalog", string_of(&m)))
        },
    }
}

/// Whether some subject's row lies within a subject range.
pub open spec fn has_subject_in_range(s: Seq<SubjectView>, range: SubjectRange) -> bool {
    exists|i: int| 0 <= i < s.len() && range.min_row <= #[trigger] s[i].row <= range.max_row
}

/// Whether some entry's level and index lie within a category range.
pub open spec fn has_entry_in_range(es: Seq<EntryView>, range: CategoryRange) -> bool {
    exists|i: int| 0 <= i < es.len() && in_range(#[trigger] es[i].level, es[i].index, range)
}

pub open spec fn range_empty_message(c: Category, r: CategoryRange) -> Seq<char> {
    sheet_name_of(c) + " sheet has no entries in archive range L"@ + dec(r.min_level as nat)
        + "–"@ + dec(r.max_level as nat) + " / I"@ + dec(r.min_index as nat) + "–"@ + dec(
        r.max_index as nat,
    ) + " — cannot randomize"@
}

/// Draws an existing subject row within a range: up to 64 uniform draws
/// over the range, the first that names a subject being taken, else one
/// more draw choosing among the subject rows in the range; `empty_catalog`
/// when no subject row lies in the range. Every number drawn is recorded in
/// `log`, and the row is what those numbers give.
fn pick_subject_row(
    catalog: &Catalog,
    range: &SubjectRange,
    rng: &mut Rng,
    log: &mut DrawLog,
) -> (r: Result<u32, ComposeError>)
    ensures
        match r {
            Ok(row) => catalog@.lookup_subject(row) is Some && range.min_row <= row
                <= range.max_row && drawn_row(catalog@.subjects, *range, row) && row_picked_from(
                catalog@.subjects,
                *range,
                *old(log),
                *final(log),
                row,
            ),
            Err(e) => !has_subject_in_range(catalog@.subjects, *range) && e@ == invalid_err(
                "empty_catalog"@,
                "Subjects sheet has no entries — cannot randomize"@,
            ) && final(log).rows() == old(log).rows() && final(log).keys() == old(log).keys()
                && final(log).positions() == old(log).positions(),
        },
{
    let ghost s = catalog@.subjects;
    let ghost r0 = log.rows();
    let ghost k0 = log.keys();
    let ghost p0 = log.positions();
    let rows = subject_rows_in_range(&catalog.subjects, range);
    proof {
        lemma_rows_in_range(s, *range);
    }
    if rows.len() == 0 {
        return Err(
            ComposeError::invalid(
                "empty_catalog",
                "Subjects sheet has no entries — cannot randomize".to_owned(),
            ),
        );
    }
    assert(range.min_row <= rows@[0] <= range.max_row);
    let mut draws: Vec<u32> = Vec::new();
    let mut hit = false;
    while !hit && draws.len() < MAX_DRAWS
        invariant
            s == catalog@.subjects,
            draws@.len() <= MAX_DRAWS,
            range.min_row <= range.max_row,
            log.rows() == r0 + draws@,
            log.keys() == k0,
            log.positions() == p0,
            forall|j: int|
                0 <= j < draws@.len() ==> range.min_row <= #[trigger] draws@[j] <= range.max_row,
            forall|j: int| 0 <= j < draws@.len() - 1 ==> !names_subject(s)(#[trigger] draws@[j]),
            hit ==> draws@.len() > 0 && names_subject(s)(draws@.last()),
            !hit ==> forall|j: int|
                0 <= j < draws@.len() ==> !names_subject(s)(#[trigger] draws@[j]),
        decreases MAX_DRAWS - draws.len(),
    {
        let row = log.draw_row(rng, range.min_row, range.max_row);
        let found = catalog.subject_index(row).is_some();
        let ghost before = draws@;
        draws.push(row);
        assert(r0 + draws@ =~= (r0 + before).push(row));
        if found {
            hit = true;
        }
        assert(draws@.last() == row);
    }
    proof {
        lemma_first_index(draws@, names_subject(s));
    }
    let fallback = if hit {
        0
    } else {
        log.draw_position(rng, rows.len())
    };
    let row = row_from_draws_exec(catalog, range, &draws, fallback);
    proof {
        assert(log.rows().skip(r0.len() as int) =~= draws@);
        assert(log.rows().take(r0.len() as int) =~= r0);
        let ps = log.positions().skip(p0.len() as int);
        if hit {
            assert(ps =~= Seq::<usize>::empty());
        } else {
            assert(ps =~= seq![fallback]);
        }
        assert(log.positions().take(p0.len() as int) =~= p0);
        assert(row_draws_made(s, *range, draws@, fallback as int));
        match first_index(draws@, names_subject(s)) {
            Some(i) => {
                assert(draws@[i] == row);
            },
            None => {
                assert(rows_in_range(s, *range)[fallback as int] == row);
            },
        }
        lemma_first_index(s, row_is(row));
    }
    Ok(row)
}

/// Draws an existing entry of a category within a range: up to 64 uniform
/// draws of level and index over the range, the first that names an entry
/// being taken, else one more draw choosing among the entries in the
/// range; `empty_catalog` when no entry lies in the range. Every number
/// drawn is recorded in `log`, and the entry is what those numbers give.
fn pick_module_in_range(
    catalog: &Catalog,
    category: Category,
    range: &CategoryRange,
    rng: &mut Rng,
    log: &mut DrawLog,
) -> (r: Result<ModuleToken, ComposeError>)
    ensures
        match r {
            Ok(m) => m.category == category && catalog@.lookup_entry(
                category,
                m.level,
                m.index,
            ) is Some && in_range(m.level, m.index, *range) && drawn_key(
                catalog@.entries(category),
                *range,
                (m.level, m.index),
            ) && key_picked_from(
                catalog@.entries(category),
                *range,
                *old(log),
                *final(log),
                (m.level, m.index),
            ),
            Err(e) => !has_entry_in_range(catalog@.entries(category), *range) && e@
                == invalid_err("empty_catalog"@, range_empty_message(category, *range))
                && final(log).rows() == old(log).rows() && final(log).keys() == old(log).keys()
                && final(log).positions() == old(log).positions(),
        },
{
    let ghost es = catalog@.entries(category);
    let ghost r0 = log.rows();
    let ghost k0 = log.keys();
    let ghost p0 = log.positions();
    let keys = entry_keys_in_range(catalog.category_map(category), range);
    proof {
        lemma_keys_in_range(es, *range);
    }
    if keys.len() == 0 {
        let mut m: Vec<char> = Vec::new();
        push_str(&mut m, category.sheet_name());
        push_str(&mut m, " sheet has no entries in archive range L");
        push_dec(&mut m, range.min_level as u64);
        push_str(&mut m, "–");
        push_dec(&mut m, range.max_level as u64);
        push_str(&mut m, " / I");
        push_dec(&mut m, range.min_index as u64);
        push_str(&mut m, "–");
        push_dec(&mut m, range.max_index as u64);
        push_str(&mut m, " — cannot randomize");
        assert(m@ =~= range_empty_message(category, *range));
        return Err(ComposeError::invalid("empty_catalog", string_of(&m)));
    }
    assert(in_range(keys@[0].0, keys@[0].1, *range));
    let mut draws: Vec<(u8, u8)> = Vec::new();
    let mut hit = false;
    while !hit && draws.len() < MAX_DRAWS
        invariant
            es == catalog@.entries(category),
            draws@.len() <= MAX_DRAWS,
            range.min_level <= range.max_level,
            range.min_index <= range.max_index,
            log.keys() == k0 + draws@,
            log.rows() == r0,
            log.positions() == p0,
            forall|j: int|
                0 <= j < draws@.len() ==> range.min_level <= (#[trigger] draws@[j]).0
                    <= range.max_level && range.min_index <= draws@[j].1 <= range.max_index,
            forall|j: int| 0 <= j < draws@.len() - 1 ==> !names_entry(es)(#[trigger] draws@[j]),
            hit ==> draws@.len() > 0 && names_entry(es)(draws@.last()),
            !hit ==> forall|j: int|
                0 <= j < draws@.len() ==> !names_entry(es)(#[trigger] draws@[j]),
        decreases MAX_DRAWS - draws.len(),
    {
        let (level, index) = log.draw_key(rng, range);
        let found = catalog.entry_index(category, level, index).is_some();
        let ghost before = draws@;
        draws.push((level, index));
        assert(k0 + draws@ =~= (k0 + before).push((level, index)));
        if found {
            hit = true;
        }
        assert(draws@.last() == (level, index));
    }
    proof {
        lemma_first_index(draws@, names_entry(es));
    }
    let fallback = if hit {
        0
    } else {
        log.draw_position(rng, keys.len())
    };
    let (level, index) = module_from_draws(catalog, category, range, &draws, fallback);
    proof {
        assert(log.keys().skip(k0.len() as int) =~= draws@);
        assert(log.keys().take(k0.len() as int) =~= k0);
        let ps = log.positions().skip(p0.len() as int);
        if hit {
            assert(ps =~= Seq::<usize>::empty());
        } else {
            assert(ps =~= seq![fallback]);
        }
        assert(log.positions().take(p0.len() as int) =~= p0);
        assert(key_draws_made(es, *range, draws@, fallback as int));
        match first_index(draws@, names_entry(es)) {
            Some(i) => {
                assert(draws@[i] == (level, index));
            },
            None => {
                assert(keys_in_range(es, *range)[fallback as int] == (level, index));
            },
        }
        lemma_first_index(es, key_is(level, index));
    }
    Ok(ModuleToken { level, index, category })
}

/// A category's own range holds each of its entries, the first among them.
proof fn lemma_own_range_has_entry(es: Seq<EntryView>)
    requires
        es.len() > 0,
    ensures
        category_range_of(es) matches Some(r) && has_entry_in_range(es, r),
{
    lemma_entry_in_range(es, 0);
}

/// The subject range holds every subject's row, the first among them.
proof fn lemma_own_range_has_subject(s: Seq<SubjectView>)
    requires
        s.len() > 0,
    ensures
        has_subject_in_range(s, subject_range_of(s)),
{
    lemma_subject_in_range(s, 0);
}

/// A module that some run of the draws gives over its category's range.
pub open spec fn module_drawn(c: CatalogView, m: ModuleToken) -> bool {
    drawn_key(
        c.entries(m.category),
        category_range_of(c.entries(m.category))->0,
        (m.level, m.index),
    )
}

/// A query that some run of the draws gives: its subject row drawn over the
/// subject range, and each module over its category's range (see
/// `crate::draw`).
pub open spec fn drawn_query(c: CatalogView, p: ParsedView) -> bool {
    &&& drawn_row(c.subjects, subject_range_of(c.subjects), p.subject_row)
    &&& forall|k: int| 0 <= k < p.modules.len() ==> module_drawn(c, #[trigger] p.modules[k])
}

/// Draws a query that the archive can compose.
fn sample_random_query(catalog: &Catalog, rng: &mut Rng) -> (r: Result<ParsedQuery, ComposeError>)
    ensures
        match r {
            Ok(p) => random_error(catalog@) is None && valid_pick(catalog@, p@) && drawn_query(
                catalog@,
                p@,
            ),
            Err(e) => random_error(catalog@) == Some(e@),
        },
{
    let ranges = catalog.ranges();
    proof {
        let c = catalog@;
        if c.subjects.len() > 0 {
            lemma_own_range_has_subject(c.subjects);
        }
        if c.outfits.len() > 0 {
            lemma_own_range_has_entry(c.outfits);
        }
        if c.poses.len() > 0 {
            lemma_own_range_has_entry(c.poses);
        }
        if c.actions.len() > 0 {
            lemma_own_range_has_entry(c.actions);
        }
        if c.scenes.len() > 0 {
            lemma_own_range_has_entry(c.scenes);
        }
    }
    let mut log = DrawLog::new();
    let subject_row = match pick_subject_row(catalog, &ranges.subjects, rng, &mut log) {
        Ok(r) => r,
        Err(e) => return Err(e),
    };
    let mut modules: Vec<ModuleToken> = Vec::new();
    let outfits = match category_range_or_empty(Category::Outfit, &ranges) {
        Ok(r) => r,
        Err(e) => return Err(e),
    };
    let m = match pick_module_in_range(catalog, Category::Outfit, &outfits, rng, &mut log) {
        Ok(m) => m,
        Err(e) => return Err(e),
    };
    assert(module_drawn(catalog@, m));
    modules.push(m);
    let poses = match category_range_or_empty(Category::Pose, &ranges) {
        Ok(r) => r,
        Err(e) => return Err(e),
    };
    let m = match pick_module_in_range(catalog, Category::Pose, &poses, rng, &mut log) {
        Ok(m) => m,
        Err(e) => return Err(e),
    };
    assert(module_drawn(catalog@, m));
    modules.push(m);
    let actions = match category_range_or_empty(Category::Action, &ranges) {
        Ok(r) => r,
        Err(e) => return Err(e),
    };
    let m = match pick_module_in_range(catalog, Category::Action, &actions, rng, &mut log) {
        Ok(m) => m,
        Err(e) => return Err(e),
    };
    assert(module_drawn(catalog@, m));
    modules.push(m);
    if let Some(scenes) = ranges.scenes {
        let m = match pick_module_in_range(catalog, Category::Scene, &scenes, rng, &mut log) {
            Ok(m) => m,
            Err(e) => return Err(e),
        };
        assert(module_drawn(catalog@, m));
        modules.push(m);
    }
    let p = ParsedQuery { subject_row, modules };
    assert(valid_pick(catalog@, p@));
    assert(drawn_query(catalog@, p@));
    Ok(p)
}

/// A query that a random draw may give composes.
pub proof fn lemma_valid_pick_composes(c: CatalogView, p: ParsedView)
    requires
        valid_pick(c, p),
    ensures
        compose_parsed_result(c, p) is Ok,
{
    let s = c.lookup_subject(p.subject_row)->0;
    lemma_first_index(c.subjects, row_is(p.subject_row));
    let i = first_index(c.subjects, row_is(p.subject_row))->0;
    lemma_subject_in_range(c.subjects, i);
    assert(subject_range_error(c, p.subject_row) is None);
    lemma_valid_pick_modules(c, p.modules, p.modules.len() as int);
    assert(p.modules.take(p.modules.len() as int) =~= p.modules);
}

proof fn lemma_valid_pick_modules(c: CatalogView, ms: Seq<ModuleToken>, k: int)
    requires
        0 <= k <= ms.len(),
        forall|j: int|
            0 <= j < ms.len() ==> c.lookup_entry(
                (#[trigger] ms[j]).category,
                ms[j].level,
                ms[j].index,
            ) is Some,
    ensures
        modules_error(c, ms.take(k)) is None,
        module_parts(c, ms.take(k)) is Ok,
    decreases k,
{
    if k > 0 {
        lemma_valid_pick_modules(c, ms, k - 1);
        let t = ms.take(k);
        assert(t.drop_last() =~= ms.take(k - 1));
        let m = ms[k - 1];
        assert(t.last() == m);
        let es = c.entries(m.category);
        lemma_first_index(es, key_is(m.level, m.index));
        let j = first_index(es, key_is(m.level, m.index))->0;
        lemma_entry_in_range(es, j);
    }
}

/// Draws a random query with the given generator and composes it.
pub fn random_compose_with_rng(catalog: &Catalog, rng: &mut Rng) -> (r: Result<
    ComposeResult,
    ComposeError,
>)
    ensures
        match r {
            Ok(x) => random_error(catalog@) is None && exists|p: ParsedView|
                valid_pick(catalog@, p) && drawn_query(catalog@, p) && compose_parsed_result(catalog@, p) == Ok::<
                    ComposeView,
                    ErrorView,
                >(x@),
            Err(e) => random_error(catalog@) == Some(e@),
        },
{
    let parsed = match sample_random_query(catalog, rng) {
        Ok(p) => p,
        Err(e) => return Err(e),
    };
    proof {
        lemma_valid_pick_composes(catalog@, parsed@);
    }
    compose_parsed(catalog, &parsed)
}

/// Draws a random query that the archive can compose, and composes it.
pub fn random_compose(catalog: &Catalog) -> (r: Result<ComposeResult, ComposeError>)
    ensures
        match r {
            Ok(x) => random_error(catalog@) is None && exists|p: ParsedView|
                valid_pick(catalog@, p) && drawn_query(catalog@, p) && compose_parsed_result(catalog@, p) == Ok::<
                    ComposeView,
                    ErrorView,
                >(x@),
            Err(e) => random_error(catalog@) == Some(e@),
        },
{
    let mut rng = new_rng();
    random_compose_with_rng(catalog, &mut rng)
}

} // verus!
