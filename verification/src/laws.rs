//! Properties that relate several operations of the library.

use vstd::prelude::*;

use crate::catalog::{
    cell, subjects_of_rows, subject_of_row,
    category_of_slot, category_range_of, in_range, indexes_of, key_is, kind_of, levels_of,
    lemma_entry_in_range, lemma_subject_in_range, rows_of, subject_range_of, CatalogView,
    EntryView, SubjectView, MAX_INDEX, MAX_OPERATIONAL_LEVEL,
};
use crate::archive_schema::{
    category_headers, header_cell, header_error, header_mismatch, strings_view,
    subject_headers, subjects_sheet_result,
    canonical_subjects, category_sheets, category_sheets_error, has_sheet, how_to,
    legacy_subjects, shape_error, sheet_named, SheetHeader, ShapeOptions,
};
use crate::compose::{
    PartView, canonical, compose_parsed_result, compose_query_result, module_parts, token_text, valid_pick,
    ComposeView,
};
use crate::error::ErrorView;
use crate::parse::{
    digit_parts, find, find_from, level_index_error, lvl, module_token_result, modules_result,
    numeric_parts, parse_query_result, slash, words, lemma_words_last_nonempty, ModuleToken,
    ParsedView,
};
use crate::seqs::{first_index, lemma_first_index, lemma_seq_bounds, lemma_seq_min_max};
use crate::text::{
    all_digits, dec, is_digit, is_ws, lemma_dec_digits, lower, lower_char,
};

verus! {

/// A word: non-empty, without whitespace.
pub open spec fn is_word(t: Seq<char>) -> bool {
    t.len() > 0 && forall|i: int| 0 <= i < t.len() ==> !is_ws(#[trigger] t[i])
}

proof fn lemma_words_push_ws(x: Seq<char>)
    ensures
        words(x.push(' ')) == words(x),
{
    assert(x.push(' ').drop_last() =~= x);
}

/// After whitespace (or at the start), a word adds one word.
proof fn lemma_words_append_word(x: Seq<char>, t: Seq<char>)
    requires
        x.len() == 0 || is_ws(x.last()),
        is_word(t),
    ensures
        words(x + t) == words(x).push(t),
    decreases t.len(),
{
    let s = x + t;
    let c = t.last();
    assert(!is_ws(t[t.len() - 1]));
    assert(s.drop_last() =~= x + t.drop_last());
    assert(s.last() == c);
    if t.len() == 1 {
        assert(t =~= seq![c]);
        assert(s.drop_last() =~= x);
        if s.len() >= 2 {
            assert(s[s.len() - 2] == x.last());
        }
    } else {
        let t2 = t.drop_last();
        assert forall|i: int| 0 <= i < t2.len() implies !is_ws(#[trigger] t2[i]) by {
            assert(t2[i] == t[i]);
        }
        lemma_words_append_word(x, t2);
        assert(s[s.len() - 2] == t[t.len() - 2]);
        assert(!is_ws(t[t.len() - 2]));
        assert(t2.push(c) =~= t);
    }
}

proof fn lemma_digits_word(n: nat)
    ensures
        is_word(dec(n)),
        all_digits(dec(n)),
        forall|i: int| 0 <= i < dec(n).len() ==> #[trigger] dec(n)[i] != 'l' && dec(n)[i] != 'v',
{
    lemma_dec_digits(n);
    assert forall|i: int| 0 <= i < dec(n).len() implies !is_ws(#[trigger] dec(n)[i]) by {
        assert(is_digit(dec(n)[i]));
    }
    assert forall|i: int| 0 <= i < dec(n).len() implies #[trigger] dec(n)[i] != 'l' && dec(
        n,
    )[i] != 'v' by {
        assert(is_digit(dec(n)[i]));
    }
}

proof fn lemma_token_word(m: ModuleToken)
    ensures
        is_word(token_text(m)),
{
    let a = dec(m.level as nat);
    let b = dec(m.index as nat);
    lemma_digits_word(m.level as nat);
    lemma_digits_word(m.index as nat);
    let t = token_text(m);
    assert forall|i: int| 0 <= i < t.len() implies !is_ws(#[trigger] t[i]) by {
        if i < a.len() {
            assert(t[i] == a[i]);
        } else if i < a.len() + 3 {
            assert(t[i] == lvl()[i - a.len()]);
        } else {
            assert(t[i] == b[i - a.len() - 3]);
        }
    }
}

/// The words of a canonical query: the row, then one token per module.
proof fn lemma_canonical_words(row: u32, ms: Seq<ModuleToken>)
    ensures
        words(canonical(row, ms)) == seq![dec(row as nat)] + ms.map_values(
            |m: ModuleToken| token_text(m),
        ),
        canonical(row, ms).len() > 0,
    decreases ms.len(),
{
    lemma_digits_word(row as nat);
    if ms.len() == 0 {
        lemma_words_append_word(seq![], dec(row as nat));
        assert(Seq::<char>::empty() + dec(row as nat) =~= dec(row as nat));
        assert(words(Seq::<char>::empty()) =~= Seq::<Seq<char>>::empty());
        assert(ms.map_values(|m: ModuleToken| token_text(m)) =~= Seq::<Seq<char>>::empty());
        assert(seq![dec(row as nat)] + Seq::<Seq<char>>::empty() =~= seq![dec(row as nat)]);
    } else {
        let prev = canonical(row, ms.drop_last());
        lemma_canonical_words(row, ms.drop_last());
        let t = token_text(ms.last());
        lemma_token_word(ms.last());
        lemma_words_push_ws(prev);
        assert(prev + seq![' '] =~= prev.push(' '));
        assert(is_ws(prev.push(' ').last()));
        lemma_words_append_word(prev.push(' '), t);
        assert(canonical(row, ms) =~= prev.push(' ') + t);
        assert(ms.map_values(|m: ModuleToken| token_text(m)) =~= ms.drop_last().map_values(
            |m: ModuleToken| token_text(m),
        ).push(t));
        assert(seq![dec(row as nat)] + ms.map_values(|m: ModuleToken| token_text(m)) =~= (seq![
            dec(row as nat),
        ] + ms.drop_last().map_values(|m: ModuleToken| token_text(m))).push(t));
    }
}

pub open spec fn occurs_at(s: Seq<char>, pat: Seq<char>, j: int) -> bool {
    s.subrange(j, j + pat.len()) == pat
}

/// The first occurrence of a pattern, given that it occurs at `k` and
/// nowhere between `i` and `k`.
proof fn lemma_find_from_at(s: Seq<char>, pat: Seq<char>, i: int, k: int)
    requires
        0 <= i <= k,
        k < s.len(),
        k + pat.len() <= s.len(),
        s.subrange(k, k + pat.len()) == pat,
        forall|j: int| i <= j < k ==> !#[trigger] occurs_at(s, pat, j),
    ensures
        find_from(s, pat, i) == Some(k),
    decreases k - i,
{
    if i < k {
        assert(!occurs_at(s, pat, i));
        lemma_find_from_at(s, pat, i + 1, k);
    }
}

/// A token `NlvlM` of a module within the bounds reads back as that module's
/// level and index.
proof fn lemma_token_reads_back(m: ModuleToken)
    requires
        1 <= m.level <= MAX_OPERATIONAL_LEVEL,
        1 <= m.index <= MAX_INDEX,
    ensures
        module_token_result(token_text(m)) == Ok::<(u8, u8), ErrorView>((m.level, m.index)),
{
    let a = dec(m.level as nat);
    let b = dec(m.index as nat);
    let t = token_text(m);
    lemma_digits_word(m.level as nat);
    lemma_digits_word(m.index as nat);
    lemma_dec_digits(m.level as nat);
    lemma_dec_digits(m.index as nat);
    // lowercase leaves the token unchanged
    assert forall|i: int| 0 <= i < t.len() implies #[trigger] lower_char(t[i]) == t[i] by {
        if i < a.len() {
            assert(t[i] == a[i]);
            assert(is_digit(a[i]));
        } else if i < a.len() + 3 {
            assert(t[i] == lvl()[i - a.len()]);
        } else {
            assert(t[i] == b[i - a.len() - 3]);
            assert(is_digit(b[i - a.len() - 3]));
        }
    }
    assert(lower(t) =~= t);
    // the first `lvl` follows the level digits
    let p = a.len() as int;
    assert(t.subrange(p, p + 3) =~= lvl());
    assert forall|j: int| 0 <= j < p implies !#[trigger] occurs_at(t, lvl(), j) by {
        assert(t.subrange(j, j + 3)[0] == t[j]);
        assert(t[j] == a[j]);
    }
    lemma_find_from_at(t, lvl(), 0, p);
    assert(find(t, lvl()) == Some(p));
    assert(t.take(p) =~= a);
    assert(t.skip(p + 3) =~= b);
    assert(digit_parts(t, lvl()) == Some((a, b)));
    assert(numeric_parts(t) == Some((a, b)));
    assert(level_index_error(m.level, m.index, t) is None);
}

/// Tokens of modules within the bounds, in category order, read back as
/// those modules.
proof fn lemma_modules_read_back(ms: Seq<ModuleToken>)
    requires
        ms.len() <= 4,
        forall|k: int|
            0 <= k < ms.len() ==> {
                &&& 1 <= (#[trigger] ms[k]).level <= MAX_OPERATIONAL_LEVEL
                &&& 1 <= ms[k].index <= MAX_INDEX
                &&& ms[k].category == category_of_slot(k)->0
            },
    ensures
        modules_result(ms.map_values(|m: ModuleToken| token_text(m))) == Ok::<
            Seq<ModuleToken>,
            ErrorView,
        >(ms),
    decreases ms.len(),
{
    let ts = ms.map_values(|m: ModuleToken| token_text(m));
    if ms.len() == 0 {
        assert(ts =~= Seq::<Seq<char>>::empty());
        assert(ms =~= Seq::<ModuleToken>::empty());
    } else {
        let prev = ms.drop_last();
        assert forall|k: int| 0 <= k < prev.len() implies {
            &&& 1 <= (#[trigger] prev[k]).level <= MAX_OPERATIONAL_LEVEL
            &&& 1 <= prev[k].index <= MAX_INDEX
            &&& prev[k].category == category_of_slot(k)->0
        } by {
            assert(prev[k] == ms[k]);
        }
        lemma_modules_read_back(prev);
        assert(ts.drop_last() =~= prev.map_values(|m: ModuleToken| token_text(m)));
        let m = ms.last();
        assert(ms[ms.len() - 1] == m);
        assert(ts.last() == token_text(m));
        lemma_token_reads_back(m);
        assert(modules_result(ts.drop_last()) == Ok::<Seq<ModuleToken>, ErrorView>(prev));
        assert(prev.push(
            ModuleToken {
                level: m.level,
                index: m.index,
                category: category_of_slot(prev.len() as int)->0,
            },
        ) =~= ms);
    }
}

/// Parsing the canonical form of a query gives the query back, when its
/// row is a data row (at least 2), it has one to four modules in category
/// order, and every level is from 1 to 5 and every index from 1 to 30.
pub proof fn lemma_canonical_query_parses_back(row: u32, ms: Seq<ModuleToken>)
    requires
        row >= 2,
        1 <= ms.len() <= 4,
        forall|k: int|
            0 <= k < ms.len() ==> {
                &&& 1 <= (#[trigger] ms[k]).level <= MAX_OPERATIONAL_LEVEL
                &&& 1 <= ms[k].index <= MAX_INDEX
                &&& ms[k].category == category_of_slot(k)->0
            },
    ensures
        parse_query_result(canonical(row, ms)) == Ok::<ParsedView, ErrorView>(
            ParsedView { subject_row: row, modules: ms },
        ),
{
    lemma_canonical_words(row, ms);
    lemma_dec_digits(row as nat);
    let toks = words(canonical(row, ms));
    let ts = ms.map_values(|m: ModuleToken| token_text(m));
    assert(toks[0] == dec(row as nat));
    assert(toks.skip(1) =~= ts);
    lemma_modules_read_back(ms);
}

/// Every entry of the archive has a level that queries may use (1 to 5)
/// and an index from 1 to 30.
pub open spec fn entries_in_query_bounds(c: CatalogView) -> bool {
    &&& forall|i: int|
        0 <= i < c.outfits.len() ==> 1 <= (#[trigger] c.outfits[i]).level <= MAX_OPERATIONAL_LEVEL
            && 1 <= c.outfits[i].index <= MAX_INDEX
    &&& forall|i: int|
        0 <= i < c.poses.len() ==> 1 <= (#[trigger] c.poses[i]).level <= MAX_OPERATIONAL_LEVEL
            && 1 <= c.poses[i].index <= MAX_INDEX
    &&& forall|i: int|
        0 <= i < c.actions.len() ==> 1 <= (#[trigger] c.actions[i]).level <= MAX_OPERATIONAL_LEVEL
            && 1 <= c.actions[i].index <= MAX_INDEX
    &&& forall|i: int|
        0 <= i < c.scenes.len() ==> 1 <= (#[trigger] c.scenes[i]).level <= MAX_OPERATIONAL_LEVEL
            && 1 <= c.scenes[i].index <= MAX_INDEX
}

/// A randomly drawn query recomposes identically: composing the query text
/// that a random composition reports gives that same composition, when the
/// archive's subject rows are data rows and its entries lie within the
/// bounds that queries may use.
pub proof fn lemma_random_query_recomposes(c: CatalogView, p: ParsedView, x: ComposeView)
    requires
        c.well_formed(),
        entries_in_query_bounds(c),
        valid_pick(c, p),
        compose_parsed_result(c, p) == Ok::<ComposeView, ErrorView>(x),
    ensures
        compose_query_result(c, x.query) == Ok::<ComposeView, ErrorView>(x),
{
    let si = first_index(c.subjects, crate::catalog::row_is(p.subject_row));
    lemma_first_index(c.subjects, crate::catalog::row_is(p.subject_row));
    assert(c.subjects[si->0].row >= 2);
    assert forall|k: int| 0 <= k < p.modules.len() implies {
        &&& 1 <= (#[trigger] p.modules[k]).level <= MAX_OPERATIONAL_LEVEL
        &&& 1 <= p.modules[k].index <= MAX_INDEX
        &&& p.modules[k].category == category_of_slot(k)->0
    } by {
        let m = p.modules[k];
        let es = c.entries(m.category);
        lemma_first_index(es, key_is(m.level, m.index));
        let j = first_index(es, key_is(m.level, m.index))->0;
        assert(es[j].level == m.level && es[j].index == m.index);
    }
    lemma_canonical_query_parses_back(p.subject_row, p.modules);
}

/// The shorthand `N/M` reads as `NlvlM` does: for digit strings `a` and `b`,
/// both tokens yield the same level and index, or are both refused.
pub proof fn lemma_slash_shorthand(a: Seq<char>, b: Seq<char>)
    requires
        a.len() > 0,
        b.len() > 0,
        all_digits(a),
        all_digits(b),
    ensures
        numeric_parts(a + slash() + b) == Some((a, b)),
        numeric_parts(a + lvl() + b) == Some((a, b)),
        module_token_result(a + slash() + b) is Ok <==> module_token_result(a + lvl() + b) is Ok,
        module_token_result(a + slash() + b) is Ok ==> module_token_result(a + slash() + b)
            == module_token_result(a + lvl() + b),
{
    let t = a + lvl() + b;
    let u = a + slash() + b;
    let p = a.len() as int;
    assert forall|i: int| 0 <= i < t.len() implies #[trigger] lower_char(t[i]) == t[i] by {
        if i < p {
            assert(t[i] == a[i]);
            assert(is_digit(a[i]));
        } else if i < p + 3 {
            assert(t[i] == lvl()[i - p]);
        } else {
            assert(t[i] == b[i - p - 3]);
            assert(is_digit(b[i - p - 3]));
        }
    }
    assert(lower(t) =~= t);
    assert forall|i: int| 0 <= i < u.len() implies #[trigger] lower_char(u[i]) == u[i] by {
        if i < p {
            assert(u[i] == a[i]);
            assert(is_digit(a[i]));
        } else if i == p {
            assert(u[i] == '/');
        } else {
            assert(u[i] == b[i - p - 1]);
            assert(is_digit(b[i - p - 1]));
        }
    }
    assert(lower(u) =~= u);
    // `lvl` after the level digits
    assert(t.subrange(p, p + 3) =~= lvl());
    assert forall|j: int| 0 <= j < p implies !#[trigger] occurs_at(t, lvl(), j) by {
        assert(t.subrange(j, j + 3)[0] == t[j]);
        assert(t[j] == a[j]);
        assert(is_digit(a[j]));
    }
    lemma_find_from_at(t, lvl(), 0, p);
    assert(t.take(p) =~= a);
    assert(t.skip(p + 3) =~= b);
    // no `lvl` in the shorthand: it has no `l`
    lemma_no_l_no_lvl(u, 0);
    assert(digit_parts(u, lvl()) is None);
    assert(u.subrange(p, p + 1) =~= slash());
    assert forall|j: int| 0 <= j < p implies !#[trigger] occurs_at(u, slash(), j) by {
        assert(u.subrange(j, j + 1)[0] == u[j]);
        assert(u[j] == a[j]);
        assert(is_digit(a[j]));
    }
    lemma_find_from_at(u, slash(), 0, p);
    assert(u.take(p) =~= a);
    assert(u.skip(p + 1) =~= b);
}

/// A string whose characters are digits or `/` holds no `lvl`.
proof fn lemma_no_l_no_lvl(u: Seq<char>, i: int)
    requires
        0 <= i,
        forall|j: int| 0 <= j < u.len() ==> #[trigger] u[j] == '/' || is_digit(u[j]),
    ensures
        find_from(u, lvl(), i) is None,
    decreases u.len() - i,
{
    if !(i < 0 || i >= u.len() || i + 3 > u.len()) {
        assert(u.subrange(i, i + 3)[0] == u[i]);
        assert(u[i] == '/' || is_digit(u[i]));
        assert(u.subrange(i, i + 3) != lvl());
        lemma_no_l_no_lvl(u, i + 1);
    }
}

/// Every module that a parse yields is in the category of its position.
proof fn lemma_modules_result_bounds(toks: Seq<Seq<char>>)
    ensures
        modules_result(toks) matches Ok(ms) ==> {
            &&& ms.len() == toks.len()
            &&& forall|k: int|
                0 <= k < ms.len() ==> {
                    &&& 1 <= (#[trigger] ms[k]).level <= MAX_OPERATIONAL_LEVEL
                    &&& 1 <= ms[k].index <= MAX_INDEX
                    &&& ms[k].category == category_of_slot(k)->0
                }
        },
    decreases toks.len(),
{
    if toks.len() > 0 {
        lemma_modules_result_bounds(toks.drop_last());
        if let Ok(ms) = modules_result(toks) {
            let prev = modules_result(toks.drop_last())->Ok_0;
            assert forall|k: int| 0 <= k < ms.len() implies {
                &&& 1 <= (#[trigger] ms[k]).level <= MAX_OPERATIONAL_LEVEL
                &&& 1 <= ms[k].index <= MAX_INDEX
                &&& ms[k].category == category_of_slot(k)->0
            } by {
                if k < prev.len() {
                    assert(ms[k] == prev[k]);
                }
            }
        }
    }
}

/// A parsed query names a data row (at least 2) and one to four modules, in
/// the order outfit, pose, action, scene, each with a level from 1 to 5 and
/// an index from 1 to 30.
pub proof fn lemma_parsed_query_bounds(input: Seq<char>)
    ensures
        parse_query_result(input) matches Ok(p) ==> {
            &&& p.subject_row >= 2
            &&& 1 <= p.modules.len() <= 4
            &&& forall|k: int|
                0 <= k < p.modules.len() ==> {
                    &&& 1 <= (#[trigger] p.modules[k]).level <= MAX_OPERATIONAL_LEVEL
                    &&& 1 <= p.modules[k].index <= MAX_INDEX
                    &&& p.modules[k].category == category_of_slot(k)->0
                }
        },
{
    let toks = words(input);
    lemma_modules_result_bounds(toks.skip(1));
}

/// A query that a random draw may give lies within the archive's ranges:
/// its subject row within the subject range, each module within the range
/// of its category.
pub proof fn lemma_valid_pick_in_ranges(c: CatalogView, p: ParsedView)
    requires
        valid_pick(c, p),
    ensures
        subject_range_of(c.subjects).min_row <= p.subject_row <= subject_range_of(
            c.subjects,
        ).max_row,
        forall|k: int|
            0 <= k < p.modules.len() ==> (category_range_of(
                c.entries((#[trigger] p.modules[k]).category),
            ) matches Some(r) && in_range(p.modules[k].level, p.modules[k].index, r)),
{
    lemma_first_index(c.subjects, crate::catalog::row_is(p.subject_row));
    let i = first_index(c.subjects, crate::catalog::row_is(p.subject_row))->0;
    lemma_subject_in_range(c.subjects, i);
    assert forall|k: int| 0 <= k < p.modules.len() implies (category_range_of(
        c.entries((#[trigger] p.modules[k]).category),
    ) matches Some(r) && in_range(p.modules[k].level, p.modules[k].index, r)) by {
        let m = p.modules[k];
        let es = c.entries(m.category);
        lemma_first_index(es, key_is(m.level, m.index));
        let j = first_index(es, key_is(m.level, m.index))->0;
        lemma_entry_in_range(es, j);
    }
}

proof fn lemma_module_parts_kinds(c: CatalogView, ms: Seq<ModuleToken>)
    ensures
        module_parts(c, ms) matches Ok(ps) ==> {
            &&& ps.len() == ms.len()
            &&& forall|k: int| 0 <= k < ps.len() ==> #[trigger] ps[k].kind == kind_of(ms[k].category)
        },
    decreases ms.len(),
{
    if ms.len() > 0 {
        lemma_module_parts_kinds(c, ms.drop_last());
        if let Ok(ps) = module_parts(c, ms) {
            let prev = module_parts(c, ms.drop_last())->Ok_0;
            assert forall|k: int| 0 <= k < ps.len() implies #[trigger] ps[k].kind == kind_of(
                ms[k].category,
            ) by {
                if k < prev.len() {
                    assert(ps[k] == prev[k]);
                    assert(ms.drop_last()[k] == ms[k]);
                }
            }
        }
    }
}

/// A composed prompt has the subject's part first, then one part per module
/// in query order, each of the kind of its category; its query is the
/// canonical form.
pub proof fn lemma_composed_parts(c: CatalogView, p: ParsedView)
    ensures
        compose_parsed_result(c, p) matches Ok(x) ==> {
            &&& x.parts.len() == p.modules.len() + 1
            &&& x.parts[0].kind == "subject"@
            &&& forall|k: int|
                0 <= k < p.modules.len() ==> #[trigger] x.parts[k + 1].kind == kind_of(
                    p.modules[k].category,
                )
            &&& x.query == canonical(p.subject_row, p.modules)
        },
{
    lemma_module_parts_kinds(c, p.modules);
    if let Ok(x) = compose_parsed_result(c, p) {
        let ps = module_parts(c, p.modules)->Ok_0;
        assert forall|k: int| 0 <= k < p.modules.len() implies #[trigger] x.parts[k + 1].kind
            == kind_of(p.modules[k].category) by {
            assert(x.parts[k + 1] == ps[k]);
        }
    }
}

/// The range of a category is tight: every entry lies within it, and some
/// entry has its least level, some its greatest level, some its least index
/// and some its greatest index.
pub proof fn lemma_category_range_tight(s: Seq<EntryView>)
    requires
        s.len() > 0,
    ensures
        category_range_of(s) matches Some(r) && {
            &&& forall|i: int| 0 <= i < s.len() ==> in_range(#[trigger] s[i].level, s[i].index, r)
            &&& exists|i: int| 0 <= i < s.len() && (#[trigger] s[i]).level == r.min_level
            &&& exists|i: int| 0 <= i < s.len() && (#[trigger] s[i]).level == r.max_level
            &&& exists|i: int| 0 <= i < s.len() && (#[trigger] s[i]).index == r.min_index
            &&& exists|i: int| 0 <= i < s.len() && (#[trigger] s[i]).index == r.max_index
        },
{
    let ls = levels_of(s);
    let xs = indexes_of(s);
    lemma_seq_min_max(ls);
    lemma_seq_min_max(xs);
    lemma_seq_bounds(ls, 0, 255);
    lemma_seq_bounds(xs, 0, 255);
    let r = category_range_of(s)->0;
    assert forall|i: int| 0 <= i < s.len() implies in_range(#[trigger] s[i].level, s[i].index, r) by {
        lemma_entry_in_range(s, i);
    }
    let a = choose|i: int| 0 <= i < ls.len() && ls[i] == crate::seqs::seq_min(ls);
    let b = choose|i: int| 0 <= i < ls.len() && ls[i] == crate::seqs::seq_max(ls);
    let c = choose|i: int| 0 <= i < xs.len() && xs[i] == crate::seqs::seq_min(xs);
    let d = choose|i: int| 0 <= i < xs.len() && xs[i] == crate::seqs::seq_max(xs);
    assert(s[a].level == r.min_level);
    assert(s[b].level == r.max_level);
    assert(s[c].index == r.min_index);
    assert(s[d].index == r.max_index);
}

/// The subject range is tight: every subject row lies within it, and the
/// least and greatest rows are those of some subjects.
pub proof fn lemma_subject_range_tight(s: Seq<SubjectView>)
    requires
        s.len() > 0,
    ensures
        forall|i: int|
            0 <= i < s.len() ==> subject_range_of(s).min_row <= #[trigger] s[i].row
                <= subject_range_of(s).max_row,
        exists|i: int| 0 <= i < s.len() && (#[trigger] s[i]).row == subject_range_of(s).min_row,
        exists|i: int| 0 <= i < s.len() && (#[trigger] s[i]).row == subject_range_of(s).max_row,
{
    let rs = rows_of(s);
    lemma_seq_min_max(rs);
    lemma_seq_bounds(rs, 0, u32::MAX as int);
    assert forall|i: int| 0 <= i < s.len() implies subject_range_of(s).min_row
        <= #[trigger] s[i].row <= subject_range_of(s).max_row by {
        lemma_subject_in_range(s, i);
    }
    let a = choose|i: int| 0 <= i < rs.len() && rs[i] == crate::seqs::seq_min(rs);
    let b = choose|i: int| 0 <= i < rs.len() && rs[i] == crate::seqs::seq_max(rs);
    assert(s[a].row == subject_range_of(s).min_row);
    assert(s[b].row == subject_range_of(s).max_row);
}

proof fn lemma_push_other_sheet(sheets: Seq<SheetHeader>, extra: SheetHeader, name: Seq<char>)
    requires
        extra.name@ != name,
    ensures
        has_sheet(sheets.push(extra), name) == has_sheet(sheets, name),
        sheet_named(sheets.push(extra), name) == sheet_named(sheets, name),
{
    let t = sheets.push(extra);
    assert(t.drop_last() =~= sheets);
    if has_sheet(t, name) {
        let i = choose|i: int| 0 <= i < t.len() && (#[trigger] t[i]).name@ == name;
        assert(i < sheets.len());
        assert(sheets[i] == t[i]);
    }
    if has_sheet(sheets, name) {
        let i = choose|i: int| 0 <= i < sheets.len() && (#[trigger] sheets[i]).name@ == name;
        assert(t[i] == sheets[i]);
    }
}

proof fn lemma_category_sheets_error_extra(
    sheets: Seq<SheetHeader>,
    extra: SheetHeader,
    k: int,
)
    requires
        forall|j: int| 0 <= j < 4 ==> extra.name@ != #[trigger] category_sheets()[j],
    ensures
        category_sheets_error(sheets.push(extra), k) == category_sheets_error(sheets, k),
    decreases 4 - k,
{
    if 0 <= k < 4 {
        let name = category_sheets()[k];
        lemma_push_other_sheet(sheets, extra, name);
        lemma_category_sheets_error_extra(sheets, extra, k + 1);
    }
}

/// Extra sheets are allowed: adding a sheet that is none of the subjects,
/// category or `HowTo` sheets does not change the outcome of a shape check.
pub proof fn lemma_extra_sheets_allowed(
    sheets: Seq<SheetHeader>,
    extra: SheetHeader,
    options: ShapeOptions,
)
    requires
        extra.name@ != canonical_subjects(),
        extra.name@ != legacy_subjects(),
        extra.name@ != how_to(),
        forall|j: int| 0 <= j < 4 ==> extra.name@ != #[trigger] category_sheets()[j],
    ensures
        shape_error(sheets.push(extra), options) == shape_error(sheets, options),
{
    lemma_push_other_sheet(sheets, extra, canonical_subjects());
    lemma_push_other_sheet(sheets, extra, legacy_subjects());
    lemma_push_other_sheet(sheets, extra, how_to());
    lemma_category_sheets_error_extra(sheets, extra, 0);
}

/// Two texts hold the same words, in the same order, up to the letter case
/// of ASCII letters; how much whitespace, and of which kind, stands around
/// and between the words is free.
pub open spec fn same_words_up_to_case(s: Seq<char>, s2: Seq<char>) -> bool {
    &&& words(s2).len() == words(s).len()
    &&& forall|k: int|
        0 <= k < words(s).len() ==> lower(#[trigger] words(s2)[k]) == lower(words(s)[k])
}

proof fn lemma_lower_char_ws(c: char, c2: char)
    requires
        lower_char(c2) == lower_char(c),
    ensures
        is_ws(c2) == is_ws(c),
        is_digit(c) ==> c2 == c,
{
}

proof fn lemma_lower_push(x: Seq<char>, c: char)
    ensures
        lower(x.push(c)) == lower(x).push(lower_char(c)),
{
    assert(lower(x.push(c)) =~= lower(x).push(lower_char(c)));
}

proof fn lemma_digits_up_to_case(t: Seq<char>, t2: Seq<char>)
    requires
        lower(t2) == lower(t),
        all_digits(t),
    ensures
        t2 == t,
{
    assert(t2.len() == lower(t2).len());
    assert forall|i: int| 0 <= i < t.len() implies t2[i] == t[i] by {
        assert(lower(t2)[i] == lower_char(t2[i]));
        assert(lower(t)[i] == lower_char(t[i]));
        assert(is_digit(t[i]));
        lemma_lower_char_ws(t[i], t2[i]);
    }
    assert(t2 =~= t);
}

proof fn lemma_token_up_to_case(raw: Seq<char>, raw2: Seq<char>)
    requires
        lower(raw2) == lower(raw),
        module_token_result(raw) is Ok,
    ensures
        module_token_result(raw2) == module_token_result(raw),
{
    assert(numeric_parts(raw2) == numeric_parts(raw));
}

proof fn lemma_modules_up_to_case(toks: Seq<Seq<char>>, toks2: Seq<Seq<char>>)
    requires
        toks2.len() == toks.len(),
        forall|k: int| 0 <= k < toks.len() ==> lower(#[trigger] toks2[k]) == lower(toks[k]),
        modules_result(toks) is Ok,
    ensures
        modules_result(toks2) == modules_result(toks),
    decreases toks.len(),
{
    if toks.len() > 0 {
        let a = toks.drop_last();
        let a2 = toks2.drop_last();
        assert forall|k: int| 0 <= k < a.len() implies lower(#[trigger] a2[k]) == lower(a[k]) by {
            assert(a2[k] == toks2[k]);
            assert(a[k] == toks[k]);
        }
        lemma_modules_up_to_case(a, a2);
        assert(lower(toks2[toks.len() - 1]) == lower(toks[toks.len() - 1]));
        lemma_token_up_to_case(toks.last(), toks2.last());
    }
}

/// Parsing ignores spacing and letter case: a query that parses gives the
/// same result when its words are separated by other whitespace, or when
/// its ASCII letters are written in another case.
pub proof fn lemma_parse_ignores_case_and_spacing(s: Seq<char>, s2: Seq<char>)
    requires
        parse_query_result(s) is Ok,
        same_words_up_to_case(s, s2),
    ensures
        parse_query_result(s2) == parse_query_result(s),
{
    let toks = words(s);
    let toks2 = words(s2);
    assert(lower(toks2[0]) == lower(toks[0]));
    lemma_digits_up_to_case(toks[0], toks2[0]);
    let m = toks.skip(1);
    let m2 = toks2.skip(1);
    assert forall|k: int| 0 <= k < m.len() implies lower(#[trigger] m2[k]) == lower(m[k]) by {
        assert(m2[k] == toks2[k + 1]);
        assert(m[k] == toks[k + 1]);
    }
    lemma_modules_up_to_case(m, m2);
}

/// Changing the case of ASCII letters, character for character, keeps the
/// words up to case.
pub proof fn lemma_case_change_keeps_words(s: Seq<char>, s2: Seq<char>)
    requires
        lower(s2) == lower(s),
    ensures
        same_words_up_to_case(s, s2),
    decreases s.len(),
{
    assert(s2.len() == lower(s2).len());
    if s.len() > 0 {
        let n = s.len();
        let p = s.drop_last();
        let p2 = s2.drop_last();
        assert(lower(p2) =~= lower(p)) by {
            assert forall|i: int| 0 <= i < p.len() implies lower(p2)[i] == lower(p)[i] by {
                assert(lower(s2)[i] == lower(s)[i]);
                assert(lower(s2)[i] == lower_char(s2[i]));
                assert(lower(s)[i] == lower_char(s[i]));
                assert(lower(p2)[i] == lower_char(p2[i]));
                assert(lower(p)[i] == lower_char(p[i]));
            }
        }
        lemma_case_change_keeps_words(p, p2);
        let w = words(p);
        let w2 = words(p2);
        let c = s.last();
        let c2 = s2.last();
        assert(lower(s2)[n - 1] == lower(s)[n - 1]);
        assert(lower(s2)[n - 1] == lower_char(c2));
        assert(lower(s)[n - 1] == lower_char(c));
        lemma_lower_char_ws(c, c2);
        if n >= 2 {
            assert(lower(s2)[n - 2] == lower(s)[n - 2]);
            assert(lower(s2)[n - 2] == lower_char(s2[n - 2]));
            assert(lower(s)[n - 2] == lower_char(s[n - 2]));
            lemma_lower_char_ws(s[n - 2], s2[n - 2]);
        }
        if is_ws(c) {
        } else if n >= 2 && !is_ws(s[n - 2]) {
            assert(p.last() == s[n - 2]);
            assert(p2.last() == s2[n - 2]);
            lemma_words_last_nonempty(p);
            lemma_lower_push(w.last(), c);
            lemma_lower_push(w2.last(), c2);
            let t = words(s);
            let t2 = words(s2);
            assert forall|k: int| 0 <= k < t.len() implies lower(#[trigger] t2[k]) == lower(t[k]) by {
                if k < t.len() - 1 {
                    assert(t2[k] == w2[k]);
                    assert(t[k] == w[k]);
                }
            }
        } else {
            let t = words(s);
            let t2 = words(s2);
            assert(lower(seq![c2]) =~= lower(seq![c]));
            assert forall|k: int| 0 <= k < t.len() implies lower(#[trigger] t2[k]) == lower(t[k]) by {
                if k < t.len() - 1 {
                    assert(t2[k] == w2[k]);
                    assert(t[k] == w[k]);
                }
            }
        }
    }
}

/// Every subject read from a sheet comes from a data row (row 2 on) whose
/// name and body cells are both non-empty, and holds those two cells; and
/// every such row gives a subject.
pub proof fn lemma_loaded_subjects(rows: Seq<Vec<String>>)
    requires
        rows.len() <= u32::MAX,
    ensures
        forall|i: int|
            0 <= i < subjects_of_rows(rows).len() ==> {
                let s = #[trigger] subjects_of_rows(rows)[i];
                &&& 2 <= s.row <= rows.len()
                &&& s.name.len() > 0
                &&& s.body.len() > 0
                &&& s.name == cell(rows[s.row - 1]@, 0)
                &&& s.body == cell(rows[s.row - 1]@, 1)
            },
        forall|j: int|
            1 <= j < rows.len() && cell((#[trigger] rows[j])@, 0).len() > 0 && cell(rows[j]@, 1).len()
                > 0 ==> exists|i: int|
                0 <= i < subjects_of_rows(rows).len() && #[trigger] subjects_of_rows(rows)[i].row
                    == j + 1,
    decreases rows.len(),
{
    if rows.len() > 0 {
        let p = rows.drop_last();
        lemma_loaded_subjects(p);
        let prev = subjects_of_rows(p);
        let t = subjects_of_rows(rows);
        assert forall|j: int| 0 <= j < p.len() implies #[trigger] p[j] == rows[j] by {}
        let n = rows.len();
        if n > 1 && subject_of_row(rows.last()@, n as u32) is Some {
            let x = subject_of_row(rows.last()@, n as u32)->0;
            assert(t == prev.push(x));
            assert(rows.last() == rows[n - 1]);
            assert forall|i: int| 0 <= i < t.len() implies {
                let s = #[trigger] t[i];
                &&& 2 <= s.row <= rows.len()
                &&& s.name.len() > 0
                &&& s.body.len() > 0
                &&& s.name == cell(rows[s.row - 1]@, 0)
                &&& s.body == cell(rows[s.row - 1]@, 1)
            } by {
                if i < prev.len() {
                    assert(t[i] == prev[i]);
                    assert(p[prev[i].row - 1] == rows[prev[i].row - 1]);
                }
            }
            assert forall|j: int|
                1 <= j < rows.len() && cell((#[trigger] rows[j])@, 0).len() > 0 && cell(
                    rows[j]@,
                    1,
                ).len() > 0 implies exists|i: int|
                0 <= i < t.len() && #[trigger] t[i].row == j + 1 by {
                if j < n - 1 {
                    assert(p[j] == rows[j]);
                    let i = choose|i: int| 0 <= i < prev.len() && #[trigger] prev[i].row == j + 1;
                    assert(t[i] == prev[i]);
                } else {
                    assert(t[t.len() - 1].row == j + 1);
                }
            }
        } else {
            assert(t == prev);
            assert forall|i: int| 0 <= i < t.len() implies {
                let s = #[trigger] t[i];
                &&& 2 <= s.row <= rows.len()
                &&& s.name.len() > 0
                &&& s.body.len() > 0
                &&& s.name == cell(rows[s.row - 1]@, 0)
                &&& s.body == cell(rows[s.row - 1]@, 1)
            } by {
                assert(t[i] == prev[i]);
                assert(p[prev[i].row - 1] == rows[prev[i].row - 1]);
            }
            assert forall|j: int|
                1 <= j < rows.len() && cell((#[trigger] rows[j])@, 0).len() > 0 && cell(
                    rows[j]@,
                    1,
                ).len() > 0 implies exists|i: int|
                0 <= i < t.len() && #[trigger] t[i].row == j + 1 by {
                if j < n - 1 {
                    assert(p[j] == rows[j]);
                    let i = choose|i: int| 0 <= i < prev.len() && #[trigger] prev[i].row == j + 1;
                    assert(t[i] == prev[i]);
                } else {
                    assert(rows.last() == rows[j]);
                }
            }
        }
    }
}

/// Where a header row has no mismatch, its first columns are the expected
/// headers, one by one.
proof fn lemma_no_mismatch(row: Seq<Seq<char>>, expected: Seq<Seq<char>>)
    requires
        header_mismatch(row, expected) is None,
    ensures
        forall|j: int| 0 <= j < expected.len() ==> header_cell(row, j) == #[trigger] expected[j],
    decreases expected.len(),
{
    if expected.len() > 0 {
        let p = expected.drop_last();
        lemma_no_mismatch(row, p);
        assert forall|j: int| 0 <= j < expected.len() implies header_cell(row, j)
            == #[trigger] expected[j] by {
            if j < p.len() {
                assert(p[j] == expected[j]);
            }
        }
    }
}

/// Whether a workbook's sheet of that name exists and its header row starts
/// with the expected headers.
pub open spec fn has_headers(sheets: Seq<SheetHeader>, name: Seq<char>, expected: Seq<Seq<char>>) -> bool {
    sheet_named(sheets, name) matches Some(s) && (s.header matches Ok(Some(row)) && forall|j: int|
        0 <= j < expected.len() ==> header_cell(strings_view(row@), j) == #[trigger] expected[j])
}

proof fn lemma_header_ok(sheets: Seq<SheetHeader>, name: Seq<char>, expected: Seq<Seq<char>>)
    requires
        header_error(sheets, name, expected) is None,
    ensures
        has_headers(sheets, name, expected),
{
    let s = sheet_named(sheets, name)->0;
    let row = s.header->Ok_0->Some_0;
    lemma_no_mismatch(strings_view(row@), expected);
}

proof fn lemma_category_headers_ok(sheets: Seq<SheetHeader>, k: int)
    requires
        0 <= k <= 4,
        category_sheets_error(sheets, k) is None,
    ensures
        forall|j: int|
            k <= j < 4 ==> has_headers(sheets, #[trigger] category_sheets()[j], category_headers()),
    decreases 4 - k,
{
    if k < 4 {
        lemma_header_ok(sheets, category_sheets()[k], category_headers());
        lemma_category_headers_ok(sheets, k + 1);
    }
}

/// A workbook passes the shape check only when its subjects sheet and each
/// of the four category sheets exist with their expected header rows (in
/// the first columns, in order), and `HowTo` exists where required.
pub proof fn lemma_shape_ok_has_headers(sheets: Seq<SheetHeader>, options: ShapeOptions)
    requires
        shape_error(sheets, options) is None,
    ensures
        has_headers(sheets, canonical_subjects(), subject_headers()) || (
        options.allow_legacy_subjects && has_headers(sheets, legacy_subjects(), subject_headers())),
        forall|k: int|
            0 <= k < 4 ==> has_headers(sheets, #[trigger] category_sheets()[k], category_headers()),
        options.require_howto ==> has_sheet(sheets, how_to()),
{
    let name = subjects_sheet_result(sheets, options.allow_legacy_subjects)->Ok_0;
    lemma_header_ok(sheets, name, subject_headers());
    lemma_category_headers_ok(sheets, 0);
}

/// Whether a part shows the entry that a module names: the entry's name as
/// label, its prompt as text, and the category's kind.
pub open spec fn part_is_entry(c: CatalogView, m: ModuleToken, part: PartView) -> bool {
    c.lookup_entry(m.category, m.level, m.index) matches Some(e) && part.label == e.name
        && part.text == e.prompt && part.kind == kind_of(m.category)
}

/// Each module part of a composed prompt is the entry it names: the entry's
/// name as its label and its prompt as its text; the subject part holds the
/// subject's body.
pub proof fn lemma_composed_parts_are_entries(c: CatalogView, p: ParsedView)
    ensures
        compose_parsed_result(c, p) matches Ok(x) ==> {
            &&& x.parts.len() == p.modules.len() + 1
            &&& (c.lookup_subject(p.subject_row) matches Some(s) && x.parts[0].text == s.body)
            &&& forall|k: int|
                0 <= k < p.modules.len() ==> part_is_entry(c, #[trigger] p.modules[k], x.parts[k + 1])
        },
{
    lemma_module_parts_entries(c, p.modules);
    if let Ok(x) = compose_parsed_result(c, p) {
        let ps = module_parts(c, p.modules)->Ok_0;
        assert forall|k: int| 0 <= k < p.modules.len() implies part_is_entry(
            c,
            #[trigger] p.modules[k],
            x.parts[k + 1],
        ) by {
            assert(x.parts[k + 1] == ps[k]);
        }
    }
}

proof fn lemma_module_parts_entries(c: CatalogView, ms: Seq<ModuleToken>)
    ensures
        module_parts(c, ms) matches Ok(ps) ==> {
            &&& ps.len() == ms.len()
            &&& forall|k: int|
                0 <= k < ps.len() ==> part_is_entry(c, #[trigger] ms[k], ps[k])
        },
    decreases ms.len(),
{
    if ms.len() > 0 {
        let q = ms.drop_last();
        lemma_module_parts_entries(c, q);
        if let Ok(ps) = module_parts(c, ms) {
            let prev = module_parts(c, q)->Ok_0;
            assert forall|k: int| 0 <= k < ps.len() implies part_is_entry(
                c,
                #[trigger] ms[k],
                ps[k],
            ) by {
                if k < prev.len() {
                    assert(ps[k] == prev[k]);
                    assert(q[k] == ms[k]);
                }
            }
        }
    }
}

} // verus!
