//! Display names of awards, derived from the column's award name and the cell.
use vstd::prelude::*;
use crate::text::{
    chars_eq, chars_of, contains_chars, contains_seq, decimal, decimal_chars, extend_chars,
    extend_str, find_chars, find_seq, is_ws, lower_chars, lower_seq, parse_i32, parse_i32_chars,
    slice_chars, starts_with, starts_with_chars, str_eq, string_of, trim, trim_chars, trim_str,
    upper_chars, upper_seq,
};
use crate::trusted::{
    captures_view, regex_captures, regex_captures_of, regex_replace_all, regex_replace_all_of,
    AWARD_COUNT, CJS_NOTE, COUNT_TOKEN, EMPTY_PARENS, RIBBON_DEVICE, TRAILING_DASH,
    WHITESPACE_RUN, collapse_ws, without_empty_parens, without_trailing_dash,
};
use crate::parse::byte_len;
use crate::types::opt_view;

verus! {

/// `2nd Award`, `3rd Award`, otherwise `<n>th Award`.
pub open spec fn ordinal(n: i32) -> Seq<char> {
    if n == 2 {
        "2nd Award"@
    } else if n == 3 {
        "3rd Award"@
    } else {
        decimal(n as int) + "th Award"@
    }
}

pub fn ordinal_award(n: i32) -> (r: String)
    ensures
        r@ == ordinal(n),
{
    if n == 2 {
        crate::text::owned("2nd Award")
    } else if n == 3 {
        crate::text::owned("3rd Award")
    } else {
        let mut v = decimal_chars(n as i64);
        extend_str(&mut v, "th Award");
        string_of(&v)
    }
}

/// `Combat Jump Star` for one, `<n> Combat Jump Stars` for more.
pub open spec fn cjs_words(n: i32) -> Seq<char> {
    if n <= 1 {
        "Combat Jump Star"@
    } else {
        decimal(n as int) + " Combat Jump Stars"@
    }
}

pub fn cjs_phrase(n: i32) -> (r: String)
    ensures
        r@ == cjs_words(n),
{
    if n <= 1 {
        crate::text::owned("Combat Jump Star")
    } else {
        let mut v = decimal_chars(n as i64);
        extend_str(&mut v, " Combat Jump Stars");
        string_of(&v)
    }
}

/// A name with a ` (n-th Award)` note appended.
pub open spec fn with_ordinal(name: Seq<char>, n: i32) -> Seq<char> {
    name + " ("@ + ordinal(n) + ")"@
}

/// The ribbon name once the device and count captures are known: the trimmed award
/// name, then ` ("device")`, then ` (n-th Award)`; a count that does not parse
/// counts as 0.
pub open spec fn ribbon_name(base: Seq<char>, device: Option<Seq<char>>, count: Option<Seq<char>>) -> Seq<char> {
    let name = trim(base);
    let with_device = match device {
        Some(d) => name + " (\""@ + d + "\")"@,
        None => name,
    };
    match count {
        Some(c) => with_ordinal(
            with_device,
            match parse_i32(c) {
                Some(n) => n,
                None => 0,
            },
        ),
        None => with_device,
    }
}

/// Group 1 of a match of `pattern` in `text`, when the pattern matches.
pub open spec fn group1(pattern: Seq<char>, text: Seq<char>) -> Option<Seq<char>> {
    match regex_captures_of(pattern, text) {
        Some(g) => if g.len() > 1 {
            g[1]
        } else {
            None
        },
        None => None,
    }
}

/// The display name of a ribbon cell.
pub open spec fn ribbon_award_name(base: Seq<char>, cell: Seq<char>) -> Seq<char> {
    ribbon_name(base, group1(RIBBON_DEVICE@, cell), group1(AWARD_COUNT@, cell))
}

fn push_ordinal(v: &mut Vec<char>, n: i32)
    ensures
        final(v)@ == with_ordinal(old(v)@, n),
{
    extend_str(v, " (");
    let o = ordinal_award(n);
    extend_str(v, o.as_str());
    extend_str(v, ")");
}

/// The ribbon name from the device and count the cell's patterns captured.
pub fn ribbon_name_from_captures(base_name: &str, device: Option<&str>, count: Option<&str>) -> (r: String)
    ensures
        r@ == ribbon_name(
            base_name@,
            match device {
                Some(d) => Some(d@),
                None => None,
            },
            match count {
                Some(c) => Some(c@),
                None => None,
            },
        ),
{
    let mut name = trim_str(base_name);
    match device {
        Some(d) => {
            extend_str(&mut name, " (\"");
            extend_str(&mut name, d);
            extend_str(&mut name, "\")");
        },
        None => {},
    }
    match count {
        Some(c) => {
            let cv = chars_of(c);
            let n = match parse_i32_chars(&cv) {
                Some(n) => n,
                None => 0,
            };
            push_ordinal(&mut name, n);
        },
        None => {},
    }
    string_of(&name)
}

/// Group 1 of `pattern` in `text` (patterns whose group 1 always takes part).
fn capture_group1(pattern: &str, text: &str) -> (r: Option<String>)
    requires
        pattern@ == RIBBON_DEVICE@ || pattern@ == AWARD_COUNT@,
    ensures
        opt_view(r) == group1(pattern@, text@),
{
    match regex_captures(pattern, text) {
        Some(groups) => {
            assert(captures_view(Some(groups)).unwrap().len() == groups@.len());
            match &groups[1] {
                Some(g) => Some(g.clone()),
                None => None,
            }
        },
        None => None,
    }
}

pub fn format_ribbon_award(base_name: &str, cell: &str) -> (r: String)
    ensures
        r@ == ribbon_award_name(base_name@, cell@),
{
    let device = capture_group1(RIBBON_DEVICE, cell);
    let count = capture_group1(AWARD_COUNT, cell);
    let d = match &device {
        Some(s) => Some(s.as_str()),
        None => None,
    };
    let c = match &count {
        Some(s) => Some(s.as_str()),
        None => None,
    };
    ribbon_name_from_captures(base_name, d, c)
}

/// The number a CJS note carries (group 1, else group 2; 0 when it does not parse).
pub open spec fn cjs_count(groups: Seq<Option<Seq<char>>>) -> i32 {
    let g = if groups.len() > 1 && groups[1] is Some {
        groups[1]
    } else if groups.len() > 2 {
        groups[2]
    } else {
        None
    };
    match g {
        Some(t) => match parse_i32(t) {
            Some(n) => n,
            None => 0,
        },
        None => 0,
    }
}

/// The cell with its CJS note removed and tidied up.
pub open spec fn without_cjs(cell: Seq<char>) -> Seq<char> {
    let a = regex_replace_all_of(CJS_NOTE@, cell, ""@);
    let b = without_empty_parens(a, ""@);
    let c = without_trailing_dash(b, ""@);
    trim(collapse_ws(c, " "@, false))
}

/// A cell split into its text without the Combat Jump Star note and that note's
/// phrase.
pub open spec fn cjs_split(cell: Seq<char>) -> (Seq<char>, Option<Seq<char>>) {
    match regex_captures_of(CJS_NOTE@, cell) {
        None => (cell, None),
        Some(g) => (without_cjs(cell), Some(cjs_words(cjs_count(g)))),
    }
}

pub fn extract_cjs(cell: &str) -> (r: (String, Option<String>))
    ensures
        (r.0@, opt_view(r.1)) == cjs_split(cell@),
{
    let groups = match regex_captures(CJS_NOTE, cell) {
        Some(g) => g,
        None => return (crate::text::owned(cell), None),
    };
    assert(captures_view(Some(groups)).unwrap().len() == groups@.len());
    let ghost gv = captures_view(Some(groups)).unwrap();
    let digits: Option<&String> = if groups[1].is_some() {
        groups[1].as_ref()
    } else {
        groups[2].as_ref()
    };
    let n = match digits {
        Some(t) => {
            let tv = chars_of(t.as_str());
            match parse_i32_chars(&tv) {
                Some(n) => n,
                None => 0,
            }
        },
        None => 0,
    };
    assert(n == cjs_count(gv));
    let a = regex_replace_all(CJS_NOTE, cell, "");
    let b = regex_replace_all(EMPTY_PARENS, a.as_str(), "");
    let c = regex_replace_all(TRAILING_DASH, b.as_str(), "");
    let d = regex_replace_all(WHITESPACE_RUN, c.as_str(), " ");
    let rest = trim_str(d.as_str());
    (string_of(&rest), Some(cjs_phrase(n)))
}

/// `name` with the CJS phrase folded into its trailing parenthetical (or a new one).
pub open spec fn with_cjs(name: Seq<char>, cjs: Option<Seq<char>>) -> Seq<char> {
    match cjs {
        None => name,
        Some(c) => if name.len() > 0 && name.last() == ')' && name.contains('(') {
            name.drop_last() + ", "@ + c + ")"@
        } else {
            name + " ("@ + c + ")"@
        },
    }
}

pub fn attach_cjs(name: &str, cjs: Option<&str>) -> (r: String)
    ensures
        r@ == with_cjs(
            name@,
            match cjs {
                Some(c) => Some(c@),
                None => None,
            },
        ),
{
    let c = match cjs {
        Some(c) => c,
        None => return crate::text::owned(name),
    };
    let nv = chars_of(name);
    if nv.len() > 0 && nv[nv.len() - 1] == ')' && crate::text::contains_char(&nv, '(') {
        let mut out = slice_chars(&nv, 0, nv.len() - 1);
        assert(out@ =~= nv@.drop_last());
        extend_str(&mut out, ", ");
        extend_str(&mut out, c);
        extend_str(&mut out, ")");
        string_of(&out)
    } else {
        let mut out = nv;
        extend_str(&mut out, " (");
        extend_str(&mut out, c);
        extend_str(&mut out, ")");
        string_of(&out)
    }
}

/// The award name a badge abbreviation stands for: `MC` makes it a Master badge,
/// `ESB` is the Expert Soldier Badge, anything else leaves the name.
pub open spec fn expanded_abbrev(base_name: Seq<char>, abbrev: Seq<char>) -> Seq<char> {
    let base = trim(base_name);
    let key = upper_seq(trim(abbrev));
    if key == "MC"@ {
        if starts_with(lower_seq(base), "master "@) {
            base
        } else {
            "Master "@ + base
        }
    } else if key == "ESB"@ {
        "Expert Soldier Badge"@
    } else {
        base
    }
}

pub fn expand_badge_abbrev(base_name: &str, abbrev: &str) -> (r: String)
    ensures
        r@ == expanded_abbrev(base_name@, abbrev@),
{
    let base = trim_str(base_name);
    let at = trim_str(abbrev);
    let key = upper_chars(&at);
    let mc = chars_of("MC");
    if chars_eq(&key, &mc) {
        let lb = lower_chars(&base);
        let master = chars_of("master ");
        if starts_with_chars(&lb, &master) {
            return string_of(&base);
        }
        let mut out = chars_of("Master ");
        extend_chars(&mut out, &base);
        return string_of(&out);
    }
    let esb = chars_of("ESB");
    if chars_eq(&key, &esb) {
        return crate::text::owned("Expert Soldier Badge");
    }
    string_of(&base)
}

/// Words of `s` (maximal runs of non-whitespace), continuing a word `cur`.
pub open spec fn word_pieces(s: Seq<char>, cur: Seq<char>) -> Seq<Seq<char>>
    decreases s.len(),
{
    if s.len() == 0 {
        if cur.len() == 0 {
            seq![]
        } else {
            seq![cur]
        }
    } else if is_ws(s[0]) {
        let rest = word_pieces(s.drop_first(), seq![]);
        if cur.len() == 0 {
            rest
        } else {
            seq![cur] + rest
        }
    } else {
        word_pieces(s.drop_first(), cur.push(s[0]))
    }
}

/// Pieces joined with single spaces.
pub open spec fn join_spaced(pieces: Seq<Seq<char>>) -> Seq<char>
    decreases pieces.len(),
{
    if pieces.len() == 0 {
        seq![]
    } else if pieces.len() == 1 {
        pieces[0]
    } else {
        join_spaced(pieces.drop_last()) + seq![' '] + pieces.last()
    }
}

/// `split_whitespace().collect::<Vec<_>>().join(" ")`
pub open spec fn collapse_spaces(s: Seq<char>) -> Seq<char> {
    join_spaced(word_pieces(s, seq![]))
}

pub open spec fn is_dash_or_space(c: char) -> bool {
    c == ' ' || c == '-'
}

pub open spec fn strip_dash_space_start(s: Seq<char>) -> Seq<char>
    decreases s.len(),
{
    if s.len() > 0 && is_dash_or_space(s[0]) {
        strip_dash_space_start(s.drop_first())
    } else {
        s
    }
}

pub open spec fn strip_dash_space_end(s: Seq<char>) -> Seq<char>
    decreases s.len(),
{
    if s.len() > 0 && is_dash_or_space(s.last()) {
        strip_dash_space_end(s.drop_last())
    } else {
        s
    }
}

/// `trim_matches(|c| c == ' ' || c == '-')`
pub open spec fn strip_dash_space(s: Seq<char>) -> Seq<char> {
    strip_dash_space_end(strip_dash_space_start(s))
}

/// The badge name once the cell's detail segment (after ` - `), its count and its
/// count-free label text are known.
pub open spec fn badge_from_detail(
    base: Seq<char>,
    detail: Seq<char>,
    cjs: Option<Seq<char>>,
    count: Option<i32>,
    label_raw: Seq<char>,
) -> Seq<char> {
    let label = strip_dash_space(collapse_spaces(label_raw));
    let label_upper = upper_seq(label);
    let has_comma = detail.contains(',');
    if (label_upper == "MC"@ || label_upper == "ESB"@) && !has_comma {
        let name = expanded_abbrev(base, label);
        with_cjs(
            match count {
                Some(n) => with_ordinal(name, n),
                None => name,
            },
            cjs,
        )
    } else if count is Some && !has_comma {
        let name = if label.len() > 0 && !contains_seq(lower_seq(base), lower_seq(label)) {
            if byte_len(label) <= 4 {
                expanded_abbrev(base, label)
            } else {
                base + " ("@ + label + ")"@
            }
        } else {
            base
        };
        with_cjs(with_ordinal(name, count.unwrap()), cjs)
    } else {
        with_cjs(base + " ("@ + detail + ")"@, cjs)
    }
}

/// The count a badge cell carries (`x<n>`), when its digits parse.
pub open spec fn badge_count(cell: Seq<char>) -> Option<i32> {
    match group1(AWARD_COUNT@, cell) {
        Some(d) => parse_i32(d),
        None => None,
    }
}

/// The display name of a badge cell.
pub open spec fn badge_award_name(base_name: Seq<char>, cell: Seq<char>) -> Seq<char> {
    let base = trim(base_name);
    let split = cjs_split(cell);
    let rest = split.0;
    let cjs = split.1;
    match find_seq(rest, " - "@) {
        None => with_cjs(ribbon_award_name(base, rest), cjs),
        Some(i) => {
            let detail = trim(rest.subrange(i + 3, rest.len() as int));
            if detail.len() == 0 {
                with_cjs(ribbon_award_name(base, rest), cjs)
            } else {
                badge_from_detail(
                    base,
                    detail,
                    cjs,
                    badge_count(rest),
                    regex_replace_all_of(COUNT_TOKEN@, detail, ""@),
                )
            }
        },
    }
}

fn words_of(v: &Vec<char>) -> (r: Vec<Vec<char>>)
    ensures
        crate::parse::lines_view(r@) == word_pieces(v@, seq![]),
{
    let mut out: Vec<Vec<char>> = Vec::new();
    let mut cur: Vec<char> = Vec::new();
    let mut i: usize = 0;
    assert(v@.subrange(0, v.len() as int) =~= v@);
    assert(crate::parse::lines_view(out@) =~= Seq::<Seq<char>>::empty());
    assert(cur@ =~= Seq::<char>::empty());
    while i < v.len()
        invariant
            i <= v.len(),
            word_pieces(v@, seq![]) == crate::parse::lines_view(out@) + word_pieces(
                v@.subrange(i as int, v.len() as int),
                cur@,
            ),
        decreases v.len() - i,
    {
        let c = v[i];
        let ghost rest = v@.subrange(i as int, v.len() as int);
        let ghost prev_out = out@;
        assert(rest.drop_first() =~= v@.subrange(i + 1, v.len() as int));
        assert(rest[0] == c);
        if crate::text::is_ws_char(c) {
            if cur.len() > 0 {
                let ghost cv = cur@;
                out.push(cur);
                assert(crate::parse::lines_view(out@) =~= crate::parse::lines_view(prev_out).push(cv));
                assert(crate::parse::lines_view(prev_out).push(cv) + word_pieces(rest.drop_first(), seq![])
                    =~= crate::parse::lines_view(prev_out) + (seq![cv] + word_pieces(rest.drop_first(), seq![])));
                cur = Vec::new();
                assert(cur@ =~= Seq::<char>::empty());
            } else {
                assert(cur@ =~= Seq::<char>::empty());
            }
        } else {
            cur.push(c);
        }
        i += 1;
    }
    assert(v@.subrange(i as int, v.len() as int) =~= Seq::<char>::empty());
    if cur.len() > 0 {
        let ghost prev_out = out@;
        let ghost cv = cur@;
        out.push(cur);
        assert(crate::parse::lines_view(out@) =~= crate::parse::lines_view(prev_out) + seq![cv]);
    } else {
        assert(crate::parse::lines_view(out@) + Seq::<Seq<char>>::empty() =~= crate::parse::lines_view(out@));
    }
    out
}

fn join_with_spaces(words: &Vec<Vec<char>>) -> (r: Vec<char>)
    ensures
        r@ == join_spaced(crate::parse::lines_view(words@)),
{
    let mut out: Vec<char> = Vec::new();
    let mut i: usize = 0;
    let ghost wv = crate::parse::lines_view(words@);
    while i < words.len()
        invariant
            i <= words.len(),
            wv == crate::parse::lines_view(words@),
            out@ == join_spaced(wv.subrange(0, i as int)),
        decreases words.len() - i,
    {
        let ghost sub = wv.subrange(0, i + 1);
        assert(sub.drop_last() =~= wv.subrange(0, i as int));
        assert(sub.last() == words@[i as int]@);
        if i > 0 {
            out.push(' ');
        } else {
            assert(out@ =~= Seq::<char>::empty());
        }
        extend_chars(&mut out, &words[i]);
        if i == 0 {
            assert(out@ =~= sub[0]);
        }
        i += 1;
    }
    assert(wv.subrange(0, words.len() as int) =~= wv);
    out
}

proof fn lemma_strip_start_step(s: Seq<char>, i: int)
    requires
        0 <= i < s.len(),
        is_dash_or_space(s[i]),
    ensures
        strip_dash_space_start(s.subrange(i, s.len() as int)) == strip_dash_space_start(
            s.subrange(i + 1, s.len() as int),
        ),
{
    assert(s.subrange(i, s.len() as int).drop_first() =~= s.subrange(i + 1, s.len() as int));
}

proof fn lemma_strip_end_step(s: Seq<char>, lo: int, j: int)
    requires
        0 <= lo < j <= s.len(),
        is_dash_or_space(s[j - 1]),
    ensures
        strip_dash_space_end(s.subrange(lo, j)) == strip_dash_space_end(s.subrange(lo, j - 1)),
{
    assert(s.subrange(lo, j).drop_last() =~= s.subrange(lo, j - 1));
}

fn strip_dash_space_chars(v: &Vec<char>) -> (r: Vec<char>)
    ensures
        r@ == strip_dash_space(v@),
{
    let n = v.len();
    let mut lo: usize = 0;
    assert(v@.subrange(0, n as int) =~= v@);
    while lo < n && (v[lo] == ' ' || v[lo] == '-')
        invariant
            lo <= n == v.len(),
            strip_dash_space_start(v@) == strip_dash_space_start(v@.subrange(lo as int, n as int)),
        decreases n - lo,
    {
        proof {
            lemma_strip_start_step(v@, lo as int);
        }
        lo += 1;
    }
    let ghost ts = v@.subrange(lo as int, n as int);
    let mut hi: usize = n;
    while hi > lo && (v[hi - 1] == ' ' || v[hi - 1] == '-')
        invariant
            lo <= hi <= n == v.len(),
            strip_dash_space_end(ts) == strip_dash_space_end(v@.subrange(lo as int, hi as int)),
            ts == v@.subrange(lo as int, n as int),
        decreases hi - lo,
    {
        proof {
            lemma_strip_end_step(v@, lo as int, hi as int);
        }
        hi -= 1;
    }
    slice_chars(v, lo, hi)
}

/// The badge name from the parts the cell's patterns produced (see
/// `badge_from_detail`).
pub fn badge_name_from_detail(
    base: &str,
    detail: &str,
    cjs: Option<&str>,
    count: Option<i32>,
    label_raw: &str,
) -> (r: String)
    ensures
        r@ == badge_from_detail(
            base@,
            detail@,
            match cjs {
                Some(c) => Some(c@),
                None => None,
            },
            count,
            label_raw@,
        ),
{
    let lr = chars_of(label_raw);
    let words = words_of(&lr);
    let collapsed = join_with_spaces(&words);
    let label = strip_dash_space_chars(&collapsed);
    let label_upper = upper_chars(&label);
    let dv = chars_of(detail);
    let has_comma = crate::text::contains_char(&dv, ',');
    let mc = chars_of("MC");
    let esb = chars_of("ESB");
    let label_s = string_of(&label);
    if (chars_eq(&label_upper, &mc) || chars_eq(&label_upper, &esb)) && !has_comma {
        let name = expand_badge_abbrev(base, label_s.as_str());
        let mut nv = chars_of(name.as_str());
        match count {
            Some(n) => push_ordinal(&mut nv, n),
            None => {},
        }
        let ns = string_of(&nv);
        return attach_cjs(ns.as_str(), cjs);
    }
    match count {
        Some(n) => {
            if !has_comma {
                let bv = chars_of(base);
                let mut name = bv.clone();
                assert(name@ == bv@);
                if label.len() > 0 {
                    let lb = lower_chars(&bv);
                    let ll = lower_chars(&label);
                    if !contains_chars(&lb, &ll) {
                        if crate::parse::byte_len_of(&label) <= 4 {
                            let e = expand_badge_abbrev(base, label_s.as_str());
                            name = chars_of(e.as_str());
                        } else {
                            extend_str(&mut name, " (");
                            extend_chars(&mut name, &label);
                            extend_str(&mut name, ")");
                        }
                    }
                }
                push_ordinal(&mut name, n);
                let ns = string_of(&name);
                return attach_cjs(ns.as_str(), cjs);
            }
        },
        None => {},
    }
    let mut out = chars_of(base);
    extend_str(&mut out, " (");
    extend_chars(&mut out, &dv);
    extend_str(&mut out, ")");
    let os = string_of(&out);
    attach_cjs(os.as_str(), cjs)
}

pub fn format_badge_award(base_name: &str, cell: &str) -> (r: String)
    ensures
        r@ == badge_award_name(base_name@, cell@),
{
    let base_v = trim_str(base_name);
    let base = string_of(&base_v);
    let (rest, cjs) = extract_cjs(cell);
    let cjs_ref = match &cjs {
        Some(c) => Some(c.as_str()),
        None => None,
    };
    let rv = chars_of(rest.as_str());
    let sep = chars_of(" - ");
    proof {
        reveal_strlit(" - ");
        crate::text::lemma_find_from_some(rv@, sep@, 0);
    }
    let dash = match find_chars(&rv, &sep) {
        Some(d) => d,
        None => {
            let ribbon = format_ribbon_award(base.as_str(), rest.as_str());
            return attach_cjs(ribbon.as_str(), cjs_ref);
        },
    };
    assert(sep@.len() == 3);
    assert(crate::text::occurs_at(rv@, sep@, dash as int));
    assert(dash + 3 <= rv.len());
    let tail = slice_chars(&rv, dash + 3, rv.len());
    let detail_v = trim_chars(&tail);
    if detail_v.len() == 0 {
        let ribbon = format_ribbon_award(base.as_str(), rest.as_str());
        return attach_cjs(ribbon.as_str(), cjs_ref);
    }
    let detail = string_of(&detail_v);
    let count = match capture_group1(AWARD_COUNT, rest.as_str()) {
        Some(d) => {
            let dv = chars_of(d.as_str());
            parse_i32_chars(&dv)
        },
        None => None,
    };
    let label_raw = regex_replace_all(COUNT_TOKEN, detail.as_str(), "");
    badge_name_from_detail(base.as_str(), detail.as_str(), cjs_ref, count, label_raw.as_str())
}

/// The display name of a cell in a column named `base_name` of `category`.
pub open spec fn award_display_name(category: Seq<char>, base_name: Option<Seq<char>>, cell: Seq<char>) -> Option<
    Seq<char>,
> {
    match base_name {
        None => None,
        Some(b) => {
            let base = trim(b);
            if base.len() == 0 {
                None
            } else if category == "badges"@ {
                Some(badge_award_name(base, cell))
            } else {
                Some(ribbon_award_name(base, cell))
            }
        },
    }
}

pub fn format_award_name(category: &str, base_name: Option<&str>, cell: &str) -> (r: Option<String>)
    ensures
        opt_view(r) == award_display_name(
            category@,
            match base_name {
                Some(b) => Some(b@),
                None => None,
            },
            cell@,
        ),
{
    let b = match base_name {
        Some(b) => b,
        None => return None,
    };
    let bv = trim_str(b);
    if bv.len() == 0 {
        return None;
    }
    let base = string_of(&bv);
    if str_eq(category, "badges") {
        Some(format_badge_award(base.as_str(), cell))
    } else {
        Some(format_ribbon_award(base.as_str(), cell))
    }
}

} // verus!
