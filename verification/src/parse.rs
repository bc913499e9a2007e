//! The query language: `<row> <module>...`, where the row is the spreadsheet
//! row of a subject and each module is `NlvlM` (or `N/M`): level `N` and index
//! `M` of the outfit, pose, action and scene, in that order.

use vstd::prelude::*;

use crate::catalog::{category_of_slot, Category, MAX_INDEX, MAX_OPERATIONAL_LEVEL};
use crate::error::{invalid_err, ComposeError, ErrorView};
use crate::text::{
    all_digits, all_digits_in, chars_of, dec, digits_value, is_whitespace, is_ws,
    lower, lowercase, parse_decimal, push_chars, push_dec, push_str, string_of,
};

verus! {

/// One module token of a query: a level and index within a category.
#[derive(Debug, Clone, Copy, PartialEq, Eq, Structural)]
pub struct ModuleToken {
    pub level: u8,
    pub index: u8,
    pub category: Category,
}

/// A parsed query: the subject row and the module tokens in query order.
#[derive(Debug, Clone, PartialEq, Eq)]
pub struct ParsedQuery {
    pub subject_row: u32,
    pub modules: Vec<ModuleToken>,
}

pub struct ParsedView {
    pub subject_row: u32,
    pub modules: Seq<ModuleToken>,
}

impl View for ParsedQuery {
    type V = ParsedView;

    open spec fn view(&self) -> ParsedView {
        ParsedView { subject_row: self.subject_row, modules: self.modules@ }
    }
}

pub open spec fn parse_result_view(r: Result<ParsedQuery, ComposeError>) -> Result<
    ParsedView,
    ErrorView,
> {
    match r {
        Ok(q) => Ok(q@),
        Err(e) => Err(e@),
    }
}

/// The whitespace-separated words of `s`, as `str::split_whitespace` yields
/// them.
pub open spec fn words(s: Seq<char>) -> Seq<Seq<char>>
    decreases s.len(),
{
    if s.len() == 0 {
        seq![]
    } else {
        let w = words(s.drop_last());
        let c = s.last();
        if is_ws(c) {
            w
        } else if s.len() >= 2 && !is_ws(s[s.len() - 2]) {
            w.update(w.len() - 1, w.last().push(c))
        } else {
            w.push(seq![c])
        }
    }
}

pub open spec fn seqs_of(v: Seq<Vec<char>>) -> Seq<Seq<char>> {
    v.map_values(|t: Vec<char>| t@)
}

/// The first position at or after `i` where `pat` occurs in `s`.
pub open spec fn find_from(s: Seq<char>, pat: Seq<char>, i: int) -> Option<int>
    decreases s.len() - i,
{
    if i < 0 || i >= s.len() || i + pat.len() > s.len() {
        None
    } else if s.subrange(i, i + pat.len()) == pat {
        Some(i)
    } else {
        find_from(s, pat, i + 1)
    }
}

pub open spec fn find(s: Seq<char>, pat: Seq<char>) -> Option<int> {
    find_from(s, pat, 0)
}

pub open spec fn lvl() -> Seq<char> {
    seq!['l', 'v', 'l']
}

pub open spec fn lv() -> Seq<char> {
    seq!['l', 'v']
}

pub open spec fn level_word() -> Seq<char> {
    seq!['l', 'e', 'v', 'e', 'l']
}

pub open spec fn slash() -> Seq<char> {
    seq!['/']
}

/// The two digit strings around the first occurrence of `sep` in `lo`, when
/// both are non-empty and made of digits.
pub open spec fn digit_parts(lo: Seq<char>, sep: Seq<char>) -> Option<(Seq<char>, Seq<char>)> {
    match find(lo, sep) {
        Some(p) => {
            let a = lo.take(p);
            let b = lo.skip(p + sep.len());
            if a.len() > 0 && b.len() > 0 && all_digits(a) && all_digits(b) {
                Some((a, b))
            } else {
                None
            }
        },
        None => None,
    }
}

/// The level and index digits of a module token: `NlvlM` (any letter case),
/// or the shorthand `N/M`.
pub open spec fn numeric_parts(raw: Seq<char>) -> Option<(Seq<char>, Seq<char>)> {
    match digit_parts(lower(raw), lvl()) {
        Some(x) => Some(x),
        None => digit_parts(lower(raw), slash()),
    }
}

/// The hint offered with a malformed module token.
pub open spec fn suggestion_for(lo: Seq<char>) -> Option<Seq<char>> {
    if find(lo, level_word()) is Some {
        Some("use NlvlM (e.g. 1lvl5), not `level`"@)
    } else if find(lo, lv()) is Some && find(lo, lvl()) is None {
        Some("did you mean NlvlM? (two letters: lvl)"@)
    } else if lvl().len() <= lo.len() && lo.take(3) == lvl() {
        Some("put the level number first, e.g. 1lvl5"@)
    } else {
        None
    }
}

pub open spec fn malformed_message(raw: Seq<char>) -> Seq<char> {
    "malformed module `"@ + raw + "` — expected pattern NlvlM (e.g. 1lvl5)"@
}

pub open spec fn malformed_err(raw: Seq<char>) -> ErrorView {
    ErrorView::InvalidInput {
        code: "malformed_module"@,
        message: malformed_message(raw),
        suggestion: suggestion_for(lower(raw)),
    }
}

/// Why a level and index are refused, if they are: levels run from 1 to 7, of
/// which only 1 to 5 may be used, and indexes from 1 to 30.
pub open spec fn level_index_error(level: u8, index: u8, raw: Seq<char>) -> Option<ErrorView> {
    if level == 0 || level > 7 {
        Some(
            invalid_err(
                "level_out_of_range"@,
                "level in `"@ + raw + "` must be 1–5 (got "@ + dec(level as nat) + ")"@,
            ),
        )
    } else if level > MAX_OPERATIONAL_LEVEL {
        Some(
            invalid_err(
                "level_blocked"@,
                "level "@ + dec(level as nat) + " in `"@ + raw
                    + "` is red/black-listed — operational maximum is level "@ + dec(
                    MAX_OPERATIONAL_LEVEL as nat,
                ) + " (allowed levels 1–"@ + dec(MAX_OPERATIONAL_LEVEL as nat) + ")"@,
            ),
        )
    } else if index == 0 || index > MAX_INDEX {
        Some(
            invalid_err(
                "index_out_of_range"@,
                "index in `"@ + raw + "` must be 1–"@ + dec(MAX_INDEX as nat) + " (got "@ + dec(
                    index as nat,
                ) + ")"@,
            ),
        )
    } else {
        None
    }
}

/// The level and index of a module token.
pub open spec fn module_token_result(raw: Seq<char>) -> Result<(u8, u8), ErrorView> {
    match numeric_parts(raw) {
        Some((a, b)) => if digits_value(a) > 255 {
            Err(invalid_err("level_invalid"@, "invalid level in `"@ + raw + "`"@))
        } else if digits_value(b) > 255 {
            Err(invalid_err("index_invalid"@, "invalid index in `"@ + raw + "`"@))
        } else {
            match level_index_error(digits_value(a) as u8, digits_value(b) as u8, raw) {
                Some(e) => Err(e),
                None => Ok((digits_value(a) as u8, digits_value(b) as u8)),
            }
        },
        None => Err(malformed_err(raw)),
    }
}

/// The module tokens, each in the category of its position; the first
/// refused token decides the error.
pub open spec fn modules_result(toks: Seq<Seq<char>>) -> Result<Seq<ModuleToken>, ErrorView>
    decreases toks.len(),
{
    if toks.len() == 0 {
        Ok(seq![])
    } else {
        match modules_result(toks.drop_last()) {
            Err(e) => Err(e),
            Ok(ms) => match module_token_result(toks.last()) {
                Err(e) => Err(e),
                Ok((l, i)) => Ok(
                    ms.push(
                        ModuleToken {
                            level: l,
                            index: i,
                            category: category_of_slot(ms.len() as int)->0,
                        },
                    ),
                ),
            },
        }
    }
}

pub open spec fn empty_query_message() -> Seq<char> {
    "query is empty — expected e.g. `7 1lvl5 2lvl3 1lvl4`"@
}

pub open spec fn missing_modules_message() -> Seq<char> {
    "add at least one module token like `1lvl5` (Outfit), then Pose/Action/Scene"@
}

/// What `parse_query` gives for an input.
pub open spec fn parse_query_result(input: Seq<char>) -> Result<ParsedView, ErrorView> {
    let toks = words(input);
    if toks.len() == 0 {
        Err(invalid_err("empty"@, empty_query_message()))
    } else if !all_digits(toks[0]) {
        Err(
            invalid_err(
                "unknown_keyword"@,
                "expected a subject row number, got `"@ + toks[0] + "`"@,
            ),
        )
    } else if digits_value(toks[0]) > u32::MAX {
        Err(
            invalid_err(
                "subject_row_invalid"@,
                "subject row must be an integer, got `"@ + toks[0] + "`"@,
            ),
        )
    } else if digits_value(toks[0]) < 2 {
        Err(
            invalid_err(
                "subject_row_invalid"@,
                "subject row must be >= 2 (Excel data rows), got "@ + dec(digits_value(toks[0])),
            ),
        )
    } else if toks.len() == 1 {
        Err(invalid_err("missing_modules"@, missing_modules_message()))
    } else if toks.len() - 1 > 4 {
        Err(
            invalid_err(
                "too_many_modules"@,
                "expected at most 4 module tokens (Outfit Pose Action Scene), got "@ + dec(
                    (toks.len() - 1) as nat,
                ),
            ),
        )
    } else {
        match modules_result(toks.skip(1)) {
            Err(e) => Err(e),
            Ok(ms) => Ok(ParsedView { subject_row: digits_value(toks[0]) as u32, modules: ms }),
        }
    }
}

/// Splits on whitespace.
pub fn split_words(s: &Vec<char>) -> (r: Vec<Vec<char>>)
    ensures
        seqs_of(r@) == words(s@),
{
    let mut toks: Vec<Vec<char>> = Vec::new();
    let mut cur: Vec<char> = Vec::new();
    let mut in_word = false;
    let mut i: usize = 0;
    while i < s.len()
        invariant
            i <= s.len(),
            in_word <==> (i > 0 && !is_ws(s@[i - 1])),
            !in_word ==> cur@.len() == 0,
            words(s@.take(i as int)) == if in_word {
                seqs_of(toks@).push(cur@)
            } else {
                seqs_of(toks@)
            },
        decreases s.len() - i,
    {
        let c = s[i];
        let ghost pre = s@.take(i as int);
        let ghost post = s@.take(i + 1);
        assert(post.drop_last() =~= pre);
        assert(post.last() == c);
        if is_whitespace(c) {
            if in_word {
                let ghost before = seqs_of(toks@);
                let ghost w = cur@;
                toks.push(cur);
                cur = Vec::new();
                assert(seqs_of(toks@) =~= before.push(w));
            }
            in_word = false;
        } else {
            if in_word {
                assert(post[i - 1] == s@[i - 1]);
            } else {
                assert(i >= 1 ==> post[i - 1] == s@[i - 1]);
                assert(cur@.push(c) =~= seq![c]);
            }
            cur.push(c);
            in_word = true;
        }
        i += 1;
    }
    assert(s@.take(s.len() as int) =~= s@);
    if in_word {
        let ghost before = seqs_of(toks@);
        let ghost w = cur@;
        toks.push(cur);
        assert(seqs_of(toks@) =~= before.push(w));
    }
    toks
}

fn matches_at(s: &Vec<char>, pat: &Vec<char>, i: usize) -> (r: bool)
    requires
        i + pat.len() <= s.len(),
    ensures
        r == (s@.subrange(i as int, i + pat.len()) == pat@),
{
    let mut j: usize = 0;
    while j < pat.len()
        invariant
            j <= pat.len(),
            i + pat.len() <= s.len(),
            forall|k: int| 0 <= k < j ==> s@[i + k] == pat@[k],
        decreases pat.len() - j,
    {
        if s[i + j] != pat[j] {
            assert(s@.subrange(i as int, i + pat.len())[j as int] != pat@[j as int]);
            return false;
        }
        j += 1;
    }
    assert(s@.subrange(i as int, i + pat.len()) =~= pat@);
    true
}

/// The first occurrence of `pat` in `s`.
pub fn find_seq(s: &Vec<char>, pat: &Vec<char>) -> (r: Option<usize>)
    ensures
        match r {
            Some(p) => find(s@, pat@) == Some(p as int),
            None => find(s@, pat@) is None,
        },
{
    let mut i: usize = 0;
    while i < s.len() && pat.len() <= s.len() - i
        invariant
            i <= s.len(),
            find(s@, pat@) == find_from(s@, pat@, i as int),
        decreases s.len() - i,
    {
        if matches_at(s, pat, i) {
            return Some(i);
        }
        i += 1;
    }
    None
}

fn lvl_chars() -> (v: Vec<char>)
    ensures
        v@ == lvl(),
{
    let mut v = Vec::new();
    v.push('l');
    v.push('v');
    v.push('l');
    assert(v@ =~= lvl());
    v
}

fn lv_chars() -> (v: Vec<char>)
    ensures
        v@ == lv(),
{
    let mut v = Vec::new();
    v.push('l');
    v.push('v');
    assert(v@ =~= lv());
    v
}

fn level_chars() -> (v: Vec<char>)
    ensures
        v@ == level_word(),
{
    let mut v = Vec::new();
    v.push('l');
    v.push('e');
    v.push('v');
    v.push('e');
    v.push('l');
    assert(v@ =~= level_word());
    v
}

fn slash_chars() -> (v: Vec<char>)
    ensures
        v@ == slash(),
{
    let mut v = Vec::new();
    v.push('/');
    assert(v@ =~= slash());
    v
}

/// The digit strings around the first `sep`, as positions `(p, q)`: the
/// level digits are `lo[..p]` and the index digits `lo[q..]`.
fn find_digit_parts(lo: &Vec<char>, sep: &Vec<char>) -> (r: Option<(usize, usize)>)
    requires
        sep.len() > 0,
    ensures
        match r {
            Some((p, q)) => p <= q <= lo.len() && q == p + sep.len() && digit_parts(lo@, sep@)
                == Some((lo@.take(p as int), lo@.skip(q as int))),
            None => digit_parts(lo@, sep@) is None,
        },
{
    match find_seq(lo, sep) {
        None => None,
        Some(p) => {
            proof {
                lemma_find_bounds(lo@, sep@, 0);
            }
            assert(p + sep.len() <= lo.len());
            let q = p + sep.len();
            if p > 0 && q < lo.len() && all_digits_in(lo, 0, p) && all_digits_in(lo, q, lo.len()) {
                assert(lo@.subrange(0, p as int) =~= lo@.take(p as int));
                assert(lo@.subrange(q as int, lo.len() as int) =~= lo@.skip(q as int));
                Some((p, q))
            } else {
                assert(lo@.subrange(0, p as int) =~= lo@.take(p as int));
                assert(q <= lo.len() ==> lo@.subrange(q as int, lo.len() as int) =~= lo@.skip(
                    q as int,
                ));
                None
            }
        },
    }
}

pub proof fn lemma_find_bounds(s: Seq<char>, pat: Seq<char>, i: int)
    ensures
        find_from(s, pat, i) matches Some(p) ==> i <= p && 0 <= p && p + pat.len() <= s.len()
            && s.subrange(p, p + pat.len()) == pat,
    decreases s.len() - i,
{
    if !(i < 0 || i >= s.len() || i + pat.len() > s.len()) {
        if s.subrange(i, i + pat.len()) != pat {
            lemma_find_bounds(s, pat, i + 1);
        }
    }
}

/// Checks a level and index against the bounds that queries may use.
pub fn validate_level_index(level: u8, index: u8, raw: &Vec<char>) -> (r: Result<(), ComposeError>)
    ensures
        match r {
            Ok(()) => level_index_error(level, index, raw@) is None,
            Err(e) => level_index_error(level, index, raw@) == Some(e@),
        },
{
    if level == 0 || level > 7 {
        let mut m: Vec<char> = Vec::new();
        push_str(&mut m, "level in `");
        push_chars(&mut m, raw);
        push_str(&mut m, "` must be 1–5 (got ");
        push_dec(&mut m, level as u64);
        push_str(&mut m, ")");
        assert(m@ =~= "level in `"@ + raw@ + "` must be 1–5 (got "@ + dec(level as nat) + ")"@);
        return Err(ComposeError::invalid("level_out_of_range", string_of(&m)));
    }
    if level > MAX_OPERATIONAL_LEVEL {
        let mut m: Vec<char> = Vec::new();
        push_str(&mut m, "level ");
        push_dec(&mut m, level as u64);
        push_str(&mut m, " in `");
        push_chars(&mut m, raw);
        push_str(&mut m, "` is red/black-listed — operational maximum is level ");
        push_dec(&mut m, MAX_OPERATIONAL_LEVEL as u64);
        push_str(&mut m, " (allowed levels 1–");
        push_dec(&mut m, MAX_OPERATIONAL_LEVEL as u64);
        push_str(&mut m, ")");
        assert(m@ =~= "level "@ + dec(level as nat) + " in `"@ + raw@
            + "` is red/black-listed — operational maximum is level "@ + dec(
            MAX_OPERATIONAL_LEVEL as nat,
        ) + " (allowed levels 1–"@ + dec(MAX_OPERATIONAL_LEVEL as nat) + ")"@);
        return Err(ComposeError::invalid("level_blocked", string_of(&m)));
    }
    if index == 0 || index > MAX_INDEX {
        let mut m: Vec<char> = Vec::new();
        push_str(&mut m, "index in `");
        push_chars(&mut m, raw);
        push_str(&mut m, "` must be 1–");
        push_dec(&mut m, MAX_INDEX as u64);
        push_str(&mut m, " (got ");
        push_dec(&mut m, index as u64);
        push_str(&mut m, ")");
        assert(m@ =~= "index in `"@ + raw@ + "` must be 1–"@ + dec(MAX_INDEX as nat) + " (got "@
            + dec(index as nat) + ")"@);
        return Err(ComposeError::invalid("index_out_of_range", string_of(&m)));
    }
    Ok(())
}

fn suggestion(lo: &Vec<char>) -> (r: Option<String>)
    ensures
        match r {
            Some(s) => suggestion_for(lo@) == Some(s@),
            None => suggestion_for(lo@) is None,
        },
{
    let level_w = level_chars();
    let lv_w = lv_chars();
    let lvl_w = lvl_chars();
    if find_seq(lo, &level_w).is_some() {
        Some("use NlvlM (e.g. 1lvl5), not `level`".to_owned())
    } else if find_seq(lo, &lv_w).is_some() && find_seq(lo, &lvl_w).is_none() {
        Some("did you mean NlvlM? (two letters: lvl)".to_owned())
    } else if lo.len() >= 3 && lo[0] == 'l' && lo[1] == 'v' && lo[2] == 'l' {
        assert(lo@.take(3) =~= lvl());
        Some("put the level number first, e.g. 1lvl5".to_owned())
    } else {
        proof {
            if lo@.len() >= 3 && lo@.take(3) == lvl() {
                assert(lo@.take(3)[0] == lo@[0]);
                assert(lo@.take(3)[1] == lo@[1]);
                assert(lo@.take(3)[2] == lo@[2]);
            }
        }
        None
    }
}

/// The level and index of one module token.
pub fn parse_module_token(raw: &Vec<char>) -> (r: Result<(u8, u8), ComposeError>)
    ensures
        match r {
            Ok(x) => module_token_result(raw@) == Ok::<(u8, u8), ErrorView>(x),
            Err(e) => module_token_result(raw@) == Err::<(u8, u8), ErrorView>(e@),
        },
{
    let lo = lowercase(raw);
    let lvl_w = lvl_chars();
    let slash_w = slash_chars();
    let parts = match find_digit_parts(&lo, &lvl_w) {
        Some(x) => Some(x),
        None => find_digit_parts(&lo, &slash_w),
    };
    match parts {
        Some((p, q)) => {
            let level = parse_decimal(&lo, 0, p, 255);
            let ghost a = lo@.take(p as int);
            let ghost b = lo@.skip(q as int);
            assert(lo@.subrange(0, p as int) =~= a);
            assert(lo@.subrange(q as int, lo.len() as int) =~= b);
            assert(numeric_parts(raw@) == Some((a, b)));
            let level = match level {
                Some(l) => l as u8,
                None => {
                    let mut m: Vec<char> = Vec::new();
                    push_str(&mut m, "invalid level in `");
                    push_chars(&mut m, raw);
                    push_str(&mut m, "`");
                    assert(m@ =~= "invalid level in `"@ + raw@ + "`"@);
                    return Err(ComposeError::invalid("level_invalid", string_of(&m)));
                },
            };
            let index = match parse_decimal(&lo, q, lo.len(), 255) {
                Some(i) => i as u8,
                None => {
                    let mut m: Vec<char> = Vec::new();
                    push_str(&mut m, "invalid index in `");
                    push_chars(&mut m, raw);
                    push_str(&mut m, "`");
                    assert(m@ =~= "invalid index in `"@ + raw@ + "`"@);
                    return Err(ComposeError::invalid("index_invalid", string_of(&m)));
                },
            };
            match validate_level_index(level, index, raw) {
                Ok(()) => Ok((level, index)),
                Err(e) => Err(e),
            }
        },
        None => {
            assert(numeric_parts(raw@) is None);
            let mut m: Vec<char> = Vec::new();
            push_str(&mut m, "malformed module `");
            push_chars(&mut m, raw);
            push_str(&mut m, "` — expected pattern NlvlM (e.g. 1lvl5)");
            assert(m@ =~= malformed_message(raw@));
            match suggestion(&lo) {
                Some(s) => Err(ComposeError::invalid_suggest("malformed_module", string_of(&m), s)),
                None => Err(ComposeError::invalid("malformed_module", string_of(&m))),
            }
        },
    }
}

pub proof fn lemma_words_nonempty(s: Seq<char>)
    ensures
        forall|i: int| 0 <= i < words(s).len() ==> #[trigger] words(s)[i].len() > 0,
    decreases s.len(),
{
    if s.len() > 0 {
        lemma_words_nonempty(s.drop_last());
        let w = words(s.drop_last());
        let t = words(s);
        let c = s.last();
        if is_ws(c) {
        } else if s.len() >= 2 && !is_ws(s[s.len() - 2]) {
            lemma_words_last_nonempty(s.drop_last());
            assert forall|i: int| 0 <= i < t.len() implies #[trigger] t[i].len() > 0 by {
                if i < t.len() - 1 {
                    assert(t[i] == w[i]);
                }
            }
        } else {
            assert forall|i: int| 0 <= i < t.len() implies #[trigger] t[i].len() > 0 by {
                if i < t.len() - 1 {
                    assert(t[i] == w[i]);
                }
            }
        }
    }
}

/// A string that ends with a non-whitespace character has a word.
pub proof fn lemma_words_last_nonempty(s: Seq<char>)
    requires
        s.len() > 0,
        !is_ws(s.last()),
    ensures
        words(s).len() > 0,
    decreases s.len(),
{
    if s.len() >= 2 && !is_ws(s[s.len() - 2]) {
        assert(s.drop_last().last() == s[s.len() - 2]);
        lemma_words_last_nonempty(s.drop_last());
    }
}

/// Parses a query such as `7 1lvl5 2lvl3 1lvl4`: a subject row (at least 2)
/// and one to four module tokens for outfit, pose, action and scene, in that
/// order.
pub fn parse_query(input: &str) -> (r: Result<ParsedQuery, ComposeError>)
    ensures
        parse_result_view(r) == parse_query_result(input@),
{
    let v = chars_of(input);
    let toks = split_words(&v);
    let ghost ts = seqs_of(toks@);
    proof {
        lemma_words_nonempty(v@);
    }
    if toks.len() == 0 {
        return Err(
            ComposeError::invalid(
                "empty",
                "query is empty — expected e.g. `7 1lvl5 2lvl3 1lvl4`".to_owned(),
            ),
        );
    }
    let first = &toks[0];
    assert(ts[0] == first@);
    if !all_digits_in(first, 0, first.len()) {
        assert(first@.subrange(0, first.len() as int) =~= first@);
        let mut m: Vec<char> = Vec::new();
        push_str(&mut m, "expected a subject row number, got `");
        push_chars(&mut m, first);
        push_str(&mut m, "`");
        assert(m@ =~= "expected a subject row number, got `"@ + ts[0] + "`"@);
        return Err(ComposeError::invalid("unknown_keyword", string_of(&m)));
    }
    assert(first@.subrange(0, first.len() as int) =~= first@);
    let row = match parse_decimal(first, 0, first.len(), 0xffff_ffff) {
        Some(x) => x as u32,
        None => {
            let mut m: Vec<char> = Vec::new();
            push_str(&mut m, "subject row must be an integer, got `");
            push_chars(&mut m, first);
            push_str(&mut m, "`");
            assert(m@ =~= "subject row must be an integer, got `"@ + ts[0] + "`"@);
            return Err(ComposeError::invalid("subject_row_invalid", string_of(&m)));
        },
    };
    if row < 2 {
        let mut m: Vec<char> = Vec::new();
        push_str(&mut m, "subject row must be >= 2 (Excel data rows), got ");
        push_dec(&mut m, row as u64);
        assert(m@ =~= "subject row must be >= 2 (Excel data rows), got "@ + dec(
            digits_value(ts[0]),
        ));
        return Err(ComposeError::invalid("subject_row_invalid", string_of(&m)));
    }
    if toks.len() == 1 {
        return Err(
            ComposeError::invalid(
                "missing_modules",
                "add at least one module token like `1lvl5` (Outfit), then Pose/Action/Scene".to_owned(),
            ),
        );
    }
    let n = toks.len() - 1;
    if n > 4 {
        let mut m: Vec<char> = Vec::new();
        push_str(&mut m, "expected at most 4 module tokens (Outfit Pose Action Scene), got ");
        push_dec(&mut m, n as u64);
        assert(m@ =~= "expected at most 4 module tokens (Outfit Pose Action Scene), got "@ + dec(
            (ts.len() - 1) as nat,
        ));
        return Err(ComposeError::invalid("too_many_modules", string_of(&m)));
    }
    let ghost rest = ts.skip(1);
    assert(rest.take(0) =~= Seq::<Seq<char>>::empty());
    let ghost outcome = match modules_result(rest) {
        Err(e) => Err(e),
        Ok(ms) => Ok(ParsedView { subject_row: row, modules: ms }),
    };
    assert(parse_query_result(input@) == outcome);
    let mut modules: Vec<ModuleToken> = Vec::new();
    let mut k: usize = 1;
    while k < toks.len()
        invariant
            1 <= k <= toks.len() <= 5,
            ts == seqs_of(toks@),
            rest == ts.skip(1),
            modules_result(rest.take(k - 1)) == Ok::<Seq<ModuleToken>, ErrorView>(modules@),
            modules@.len() == k - 1,
            parse_query_result(input@) == outcome,
            outcome == match modules_result(rest) {
                Err(e) => Err(e),
                Ok(ms) => Ok(ParsedView { subject_row: row, modules: ms }),
            },
        decreases toks.len() - k,
    {
        assert(rest.take(k as int).drop_last() =~= rest.take(k - 1));
        assert(rest.take(k as int).last() == toks@[k as int]@);
        match parse_module_token(&toks[k]) {
            Ok((level, index)) => {
                let category = match Category::from_slot(k - 1) {
                    Some(c) => c,
                    None => Category::Scene,
                };
                modules.push(ModuleToken { level, index, category });
            },
            Err(e) => {
                proof {
                    lemma_modules_result_err_prefix(rest, k as int);
                }
                return Err(e);
            },
        }
        k += 1;
    }
    assert(rest.take(k - 1) =~= rest);
    Ok(ParsedQuery { subject_row: row, modules })
}

/// An error on a prefix of the tokens is the error on all of them.
pub proof fn lemma_modules_result_err_prefix(toks: Seq<Seq<char>>, k: int)
    requires
        0 <= k <= toks.len(),
        modules_result(toks.take(k)) is Err,
    ensures
        modules_result(toks) == modules_result(toks.take(k)),
    decreases toks.len() - k,
{
    if k < toks.len() {
        assert(toks.take(k + 1).drop_last() =~= toks.take(k));
        lemma_modules_result_err_prefix(toks, k + 1);
    } else {
        assert(toks.take(k) =~= toks);
    }
}

} // verus!
