//! Calls into `regex`, `strsim`, `csv`, `urlencoding`, `tui_input` and std formatting. Every item here is
//! trusted: its contract is believed, not proved.
use vstd::prelude::*;
use crate::browser::{EditKey, KeyKind};
use crate::text::{all_word, is_word, is_ws, trim_end};
use crossterm::event::{Event as TermEvent, KeyCode as TermCode, KeyEvent, KeyEventKind, KeyModifiers};
use tui_input::backend::crossterm::EventHandler;

verus! {

/// Leading username of a cell: an optional `@`, then a run of `[A-Za-z0-9_]`.
pub const USERNAME_PREFIX: &'static str = "^@?([A-Za-z0-9_]+)";

/// A bare username and nothing else.
pub const BARE_USERNAME: &'static str = "^@?([A-Za-z0-9_]+)$";

/// A word character directly followed by a dash (`name- detail`).
pub const DASH_AFTER_WORD: &'static str = "[A-Za-z0-9_]-";

/// A quoted ribbon device after a dash: `- "Bronze Oak Leaf"`.
pub const RIBBON_DEVICE: &'static str = "-\\s*\"([^\"]+)\"";

/// An award count token such as `x2`.
pub const AWARD_COUNT: &'static str = "(?i)\\bx(\\d+)\\b";

/// A Combat Jump Star note such as `(3x CJS)` or `(x1 CJS)`.
pub const CJS_NOTE: &'static str = "(?i)\\(?\\s*(?:(\\d+)\\s*x|x\\s*(\\d+))\\s*CJS\\s*\\)?";

/// An empty pair of parentheses.
pub const EMPTY_PARENS: &'static str = "\\(\\s*\\)";

/// A dash left dangling at the end of the text.
pub const TRAILING_DASH: &'static str = "\\s*-\\s*$";

/// A run of whitespace.
pub const WHITESPACE_RUN: &'static str = "\\s+";

/// A count token with the whitespace before it.
pub const COUNT_TOKEN: &'static str = "(?i)\\s*x\\d+\\b";

/// The patterns this library compiles; each is a valid regular expression.
pub open spec fn supported_pattern(p: Seq<char>) -> bool {
    ||| p == USERNAME_PREFIX@
    ||| p == BARE_USERNAME@
    ||| p == DASH_AFTER_WORD@
    ||| p == RIBBON_DEVICE@
    ||| p == AWARD_COUNT@
    ||| p == CJS_NOTE@
    ||| p == EMPTY_PARENS@
    ||| p == TRAILING_DASH@
    ||| p == WHITESPACE_RUN@
    ||| p == COUNT_TOKEN@
}

/// Capture groups of the leftmost match of `pattern` in `text` (group 0 is the
/// whole match; `None` for a group that did not take part), or `None` when there
/// is no match.
pub uninterp spec fn regex_captures_of(pattern: Seq<char>, text: Seq<char>) -> Option<
    Seq<Option<Seq<char>>>,
>;

/// `text` with every non-overlapping match of `pattern` replaced by `rep`.
pub uninterp spec fn regex_replace_all_of(pattern: Seq<char>, text: Seq<char>, rep: Seq<char>) -> Seq<char>;

/// Whether `pattern` matches somewhere in `text`.
pub uninterp spec fn regex_is_match_of(pattern: Seq<char>, text: Seq<char>) -> bool;

/// Length of the run of word characters that starts `s`.
pub open spec fn word_run_len(s: Seq<char>) -> nat
    decreases s.len(),
{
    if s.len() > 0 && is_word(s[0]) {
        1 + word_run_len(s.drop_first())
    } else {
        0
    }
}

/// `s` without one leading `@`.
pub open spec fn drop_at_sign(s: Seq<char>) -> Seq<char> {
    if s.len() > 0 && s[0] == '@' {
        s.drop_first()
    } else {
        s
    }
}

/// What `USERNAME_PREFIX` captures in `t`: the whole match and the username run.
pub open spec fn username_prefix_captures(t: Seq<char>) -> Option<Seq<Option<Seq<char>>>> {
    let body = drop_at_sign(t);
    let n = word_run_len(body);
    if n == 0 {
        None
    } else {
        Some(seq![Some(t.subrange(0, (t.len() - body.len()) + n)), Some(body.subrange(0, n as int))])
    }
}

/// What `BARE_USERNAME` captures in `t`: all of `t`, and `t` without its `@`.
pub open spec fn bare_username_captures(t: Seq<char>) -> Option<Seq<Option<Seq<char>>>> {
    let body = drop_at_sign(t);
    if body.len() > 0 && all_word(body) {
        Some(seq![Some(t), Some(body)])
    } else {
        None
    }
}

/// Whether `DASH_AFTER_WORD` matches `t`.
pub open spec fn dash_after_word(t: Seq<char>) -> bool {
    exists|i: int| 0 <= i && i + 1 < t.len() && is_word(#[trigger] t[i]) && t[i + 1] == '-'
}

pub open spec fn captures_view(c: Option<Vec<Option<String>>>) -> Option<Seq<Option<Seq<char>>>> {
    match c {
        Some(v) => Some(
            v@.map_values(
                |g: Option<String>|
                    match g {
                        Some(s) => Some(s@),
                        None => None,
                    },
            ),
        ),
        None => None,
    }
}

/// `regex::Regex::captures` on `pattern` (compiled with `Regex::new`): the capture
/// groups of the leftmost match, as owned strings. For the three username/dash
/// patterns the result is the one the regex syntax documentation defines.
#[verifier::external_body]
pub(crate) fn regex_captures(pattern: &str, text: &str) -> (r: Option<Vec<Option<String>>>)
    requires
        supported_pattern(pattern@),
    ensures
        captures_view(r) == regex_captures_of(pattern@, text@),
        pattern@ == USERNAME_PREFIX@ ==> captures_view(r) == username_prefix_captures(text@),
        pattern@ == BARE_USERNAME@ ==> captures_view(r) == bare_username_captures(text@),
        (pattern@ == RIBBON_DEVICE@ || pattern@ == AWARD_COUNT@) && r is Some ==> r.unwrap()@.len()
            == 2 && r.unwrap()@[1] is Some,
        pattern@ == CJS_NOTE@ && r is Some ==> r.unwrap()@.len() == 3,
{
    let re = regex::Regex::new(pattern).unwrap();
    re.captures(text).map(|caps| caps.iter().map(|m| m.map(|m| m.as_str().to_string())).collect())
}

/// Length of the run of whitespace that starts `s`.
pub open spec fn ws_run_len(s: Seq<char>) -> nat
    decreases s.len(),
{
    if s.len() > 0 && is_ws(s[0]) {
        1 + ws_run_len(s.drop_first())
    } else {
        0
    }
}

/// `s` with each maximal run of whitespace replaced by `rep` (what
/// `WHITESPACE_RUN` replaces); `in_run` says the text before `s` ended in such
/// a run.
pub open spec fn collapse_ws(s: Seq<char>, rep: Seq<char>, in_run: bool) -> Seq<char>
    decreases s.len(),
{
    if s.len() == 0 {
        s
    } else if is_ws(s[0]) {
        (if in_run {
            Seq::empty()
        } else {
            rep
        }) + collapse_ws(s.drop_first(), rep, true)
    } else {
        seq![s[0]] + collapse_ws(s.drop_first(), rep, false)
    }
}

/// `s` with each `(`, whitespace, `)` replaced by `rep`, scanning from the left
/// (what `EMPTY_PARENS` replaces).
pub open spec fn without_empty_parens(s: Seq<char>, rep: Seq<char>) -> Seq<char>
    decreases s.len(),
{
    if s.len() == 0 {
        s
    } else if s[0] == '(' && 1 + ws_run_len(s.drop_first()) < s.len() && s[1 + ws_run_len(s.drop_first()) as int]
        == ')' {
        rep + without_empty_parens(s.subrange(2 + ws_run_len(s.drop_first()) as int, s.len() as int), rep)
    } else {
        seq![s[0]] + without_empty_parens(s.drop_first(), rep)
    }
}

/// `s` with a final dash, and the whitespace around it, replaced by `rep`
/// (what `TRAILING_DASH` replaces).
pub open spec fn without_trailing_dash(s: Seq<char>, rep: Seq<char>) -> Seq<char> {
    let t = trim_end(s);
    if t.len() > 0 && t.last() == '-' {
        trim_end(t.drop_last()) + rep
    } else {
        s
    }
}

/// `regex::Regex::replace_all` on `pattern` with the literal replacement `rep`:
/// every non-overlapping match, leftmost first, is replaced. For the
/// whitespace-run, empty-parentheses and trailing-dash patterns the result is
/// the one the regex syntax documentation defines (`\s` is Unicode
/// whitespace, `$` the end of the text).
#[verifier::external_body]
pub(crate) fn regex_replace_all(pattern: &str, text: &str, rep: &str) -> (r: String)
    requires
        supported_pattern(pattern@),
    ensures
        r@ == regex_replace_all_of(pattern@, text@, rep@),
        pattern@ == WHITESPACE_RUN@ ==> r@ == collapse_ws(text@, rep@, false),
        pattern@ == EMPTY_PARENS@ ==> r@ == without_empty_parens(text@, rep@),
        pattern@ == TRAILING_DASH@ ==> r@ == without_trailing_dash(text@, rep@),
{
    let re = regex::Regex::new(pattern).unwrap();
    re.replace_all(text, regex::NoExpand(rep)).into_owned()
}

/// `regex::Regex::is_match` on `pattern`. For `DASH_AFTER_WORD` the result is
/// whether some word character is directly followed by `-`.
#[verifier::external_body]
pub(crate) fn regex_is_match(pattern: &str, text: &str) -> (r: bool)
    requires
        supported_pattern(pattern@),
    ensures
        r == regex_is_match_of(pattern@, text@),
        pattern@ == DASH_AFTER_WORD@ ==> r == dash_after_word(text@),
{
    let re = regex::Regex::new(pattern).unwrap();
    re.is_match(text)
}

pub open spec fn min3(x: nat, y: nat, z: nat) -> nat {
    if x <= y && x <= z {
        x
    } else if y <= z {
        y
    } else {
        z
    }
}

/// Levenshtein edit distance over the characters of `a` and `b`: the fewest
/// single-character insertions, deletions and substitutions turning `a` into
/// `b`, by the usual recurrence on the last characters.
pub open spec fn edit_distance(a: Seq<char>, b: Seq<char>) -> nat
    decreases a.len() + b.len(),
{
    if a.len() == 0 {
        b.len()
    } else if b.len() == 0 {
        a.len()
    } else {
        min3(
            edit_distance(a.drop_last(), b) + 1,
            edit_distance(a, b.drop_last()) + 1,
            edit_distance(a.drop_last(), b.drop_last()) + if a.last() == b.last() {
                0nat
            } else {
                1nat
            },
        )
    }
}

/// `strsim::levenshtein`: the Levenshtein distance between the characters of
/// `a` and `b` (`edit_distance`).
#[verifier::external_body]
pub(crate) fn levenshtein(a: &str, b: &str) -> (r: usize)
    ensures
        r == edit_distance(a@, b@),
{
    strsim::levenshtein(a, b)
}

/// `format!("{:?}", s)`: the quoted, escaped debug rendering of a string.
pub uninterp spec fn debug_text_of(s: Seq<char>) -> Seq<char>;

/// std's `Debug` for `str` (`format!("{s:?}")`).
#[verifier::external_body]
pub(crate) fn debug_text(s: &str) -> (r: String)
    ensures
        r@ == debug_text_of(s@),
{
    format!("{s:?}")
}

/// `csv::Error`, carried from the reader to its message.
#[verifier::external_type_specification]
#[verifier::external_body]
pub struct ExCsvError(csv::Error);

/// The records of a CSV document read with no header row and records of any
/// width, or `None` when the reader reports an error.
pub uninterp spec fn csv_records_of(text: Seq<char>) -> Option<Seq<Seq<Seq<char>>>>;

/// `csv::ReaderBuilder` (`has_headers(false)`, `flexible(true)`) over `text`:
/// every record as its fields, stopping at the first error.
#[verifier::external_body]
pub(crate) fn csv_records(text: &str) -> (r: Result<Vec<Vec<String>>, csv::Error>)
    ensures
        match r {
            Ok(rows) => csv_records_of(text@) == Some(crate::types::rows_view(rows@)),
            Err(_) => csv_records_of(text@) is None,
        },
{
    let mut reader = csv::ReaderBuilder::new().has_headers(false).flexible(true).from_reader(text.as_bytes());
    let mut rows = Vec::new();
    for result in reader.records() {
        let record = result?;
        rows.push(record.iter().map(|s| s.to_string()).collect());
    }
    Ok(rows)
}

/// The `Display` text of a CSV error.
#[verifier::external_body]
pub(crate) fn csv_error_text(e: &csv::Error) -> (r: String) {
    format!("{e}")
}

/// What `urlencoding::decode` gives for `text`: the percent-decoded text, or
/// `None` when the decoded bytes are not UTF-8.
pub uninterp spec fn url_decoded_of(text: Seq<char>) -> Option<Seq<char>>;

/// `urlencoding::decode`, with its error dropped. A text without `%` comes back
/// as it is (the crate returns its input unchanged then).
#[verifier::external_body]
pub(crate) fn url_decode(text: &str) -> (r: Option<String>)
    ensures
        crate::types::opt_view(r) == url_decoded_of(text@),
        !text@.contains('%') ==> crate::types::opt_view(r) == Some(text@),
{
    urlencoding::decode(text).ok().map(|s| s.into_owned())
}

/// What a `tui_input` text field holding `value`, with its cursor at `cursor`,
/// holds after a key: its text and cursor.
pub uninterp spec fn input_after_key_of(value: Seq<char>, cursor: nat, key: EditKey, modifiers: u8, kind: KeyKind) -> (
    Seq<char>,
    nat,
);

/// `tui_input::Input::handle_event` for one key event: the field is built with
/// `value` and `cursor` (`Input::new`, `with_cursor`), handed the key with the
/// `crossterm` modifier bits `modifiers`, and read back.
#[verifier::external_body]
pub(crate) fn input_after_key(value: &str, cursor: usize, key: EditKey, modifiers: u8, kind: KeyKind) -> (r: (String, usize))
    ensures
        (r.0@, r.1 as nat) == input_after_key_of(value@, cursor as nat, key, modifiers, kind),
{
    let code = match key {
        EditKey::Char(c) => TermCode::Char(c), EditKey::Backspace => TermCode::Backspace,
        EditKey::Delete => TermCode::Delete, EditKey::Left => TermCode::Left, EditKey::Right => TermCode::Right,
        EditKey::Home => TermCode::Home, EditKey::End => TermCode::End, EditKey::Other => TermCode::Null,
    };
    let kind = match kind {
        KeyKind::Press => KeyEventKind::Press, KeyKind::Repeat => KeyEventKind::Repeat, KeyKind::Release => KeyEventKind::Release,
    };
    let mut input = tui_input::Input::new(value.to_string()).with_cursor(cursor);
    input.handle_event(&TermEvent::Key(KeyEvent::new_with_kind(code, KeyModifiers::from_bits_truncate(modifiers), kind)));
    (input.value().to_string(), input.cursor())
}

/// The instant an RFC 3339 timestamp names, in milliseconds since the Unix
/// epoch, or `None` when the text is not such a timestamp.
pub uninterp spec fn rfc3339_millis_of(text: Seq<char>) -> Option<i64>;

/// `chrono::DateTime::parse_from_rfc3339`, read as milliseconds since the epoch
/// (`rfc3339_millis_of`).
#[verifier::external_body]
pub(crate) fn rfc3339_millis(text: &str) -> (r: Option<i64>)
    ensures
        r == rfc3339_millis_of(text@),
{
    chrono::DateTime::parse_from_rfc3339(text).ok().map(|dt| dt.timestamp_millis())
}

/// The instant `text` names when read with the `strftime`-style format `fmt`
/// (which must give the offset), in milliseconds since the epoch, or `None`
/// when it does not parse.
pub uninterp spec fn formatted_millis_of(text: Seq<char>, fmt: Seq<char>) -> Option<i64>;

/// `chrono::DateTime::parse_from_str`, read as milliseconds since the epoch
/// (`formatted_millis_of`).
#[verifier::external_body]
pub(crate) fn formatted_millis(text: &str, fmt: &str) -> (r: Option<i64>)
    ensures
        r == formatted_millis_of(text@, fmt@),
{
    chrono::DateTime::parse_from_str(text, fmt).ok().map(|dt| dt.timestamp_millis())
}

/// A character `urlencoding` leaves as it is: an ASCII letter or digit, or one
/// of `-`, `_`, `.`, `~`.
pub open spec fn url_unreserved(c: char) -> bool {
    ('0' <= c && c <= '9') || ('A' <= c && c <= 'Z') || ('a' <= c && c <= 'z') || c == '-' || c == '_' || c == '.'
        || c == '~'
}

/// `text` percent-encoded as `urlencoding::encode` does it.
pub uninterp spec fn url_encoded_of(text: Seq<char>) -> Seq<char>;

/// `urlencoding::encode`: every UTF-8 byte of `text` other than those of
/// `url_unreserved` characters written as `%XX` (`url_encoded_of`); text made
/// only of such characters comes back unchanged.
#[verifier::external_body]
pub(crate) fn url_encode(text: &str) -> (r: String)
    ensures
        r@ == url_encoded_of(text@),
        (forall|i: int| 0 <= i < text@.len() ==> url_unreserved(#[trigger] text@[i])) ==> r@ == text@,
{
    urlencoding::encode(text).into_owned()
}

} // verus!
