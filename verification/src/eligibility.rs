//! Clerk assist: whether a requested Master combat badge may be granted, decided
//! from a member's award list alone.
//!
//! A Master combat badge (MCAB / MCIB / MCMB) needs the matching expert badge and
//! a combat badge row; the grant rewrites that row's cell to `user - MC`.
use vstd::prelude::*;
use crate::text::{
    all_digits, all_digits_chars, chars_eq, chars_of, contains_chars, contains_seq, eq_ignore_case, extend_str, find_chars, find_seq, is_ws, join, join_strings, lower_chars,
    lower_seq, rfind_chars, rfind_seq, slice_chars, split_nonempty, split_state, starts_with,
    starts_with_chars, strings_view, strip_leading, strip_leading_chars, string_of, trim,
    trim_chars, trim_str, upper_chars, upper_seq,
};
use crate::parse::{
    build_cell_value, cell_value, clean, clean_chars, lines_view, normalize_username, username_key,
};
use crate::trusted::{debug_text, debug_text_of};
use crate::types::{awards_view, Award, AwardView};

verus! {

// ---------------------------------------------------------------------------
// Award kinds and their rules
// ---------------------------------------------------------------------------

/// The clerk requests this module knows how to check.
#[derive(Debug, Clone, Copy, PartialEq, Eq, Structural)]
pub enum AssistAward {
    /// Master Combat Action Badge: Expert Soldier Badge + Combat Action Badge.
    MasterCab,
    /// Master Combat Infantryman Badge: Expert Infantryman Badge + Combat Infantryman Badge.
    MasterCib,
    /// Master Combat Medical Badge: Expert Field Medical Badge + Combat Medical Badge.
    MasterCmb,
}

pub open spec fn award_id(a: AssistAward) -> Seq<char> {
    match a {
        AssistAward::MasterCab => "MCAB"@,
        AssistAward::MasterCib => "MCIB"@,
        AssistAward::MasterCmb => "MCMB"@,
    }
}

pub open spec fn award_display(a: AssistAward) -> Seq<char> {
    match a {
        AssistAward::MasterCab => "Master Combat Action Badge"@,
        AssistAward::MasterCib => "Master Combat Infantryman Badge"@,
        AssistAward::MasterCmb => "Master Combat Medical Badge"@,
    }
}

pub open spec fn award_short(a: AssistAward) -> Seq<char> {
    match a {
        AssistAward::MasterCab => "Master CAB"@,
        AssistAward::MasterCib => "Master CIB"@,
        AssistAward::MasterCmb => "Master CMB"@,
    }
}

/// The combat badge a Master badge upgrades.
pub open spec fn combat_base(a: AssistAward) -> Seq<char> {
    match a {
        AssistAward::MasterCab => "Combat Action Badge"@,
        AssistAward::MasterCib => "Combat Infantryman Badge"@,
        AssistAward::MasterCmb => "Combat Medical Badge"@,
    }
}

pub open spec fn combat_short(a: AssistAward) -> Seq<char> {
    match a {
        AssistAward::MasterCab => "CAB"@,
        AssistAward::MasterCib => "CIB"@,
        AssistAward::MasterCmb => "CMB"@,
    }
}

/// The expert badge a Master badge requires.
pub open spec fn expert_base(a: AssistAward) -> Seq<char> {
    match a {
        AssistAward::MasterCab => "Expert Soldier Badge"@,
        AssistAward::MasterCib => "Expert Infantryman Badge"@,
        AssistAward::MasterCmb => "Expert Field Medical Badge"@,
    }
}

/// Short name of the expert badge; it is also the cell tag that proves it.
pub open spec fn expert_short(a: AssistAward) -> Seq<char> {
    match a {
        AssistAward::MasterCab => "ESB"@,
        AssistAward::MasterCib => "EIB"@,
        AssistAward::MasterCmb => "EFMB"@,
    }
}

impl AssistAward {
    pub fn id(self) -> (r: &'static str)
        ensures
            r@ == award_id(self),
    {
        match self {
            AssistAward::MasterCab => "MCAB",
            AssistAward::MasterCib => "MCIB",
            AssistAward::MasterCmb => "MCMB",
        }
    }

    pub fn display_name(self) -> (r: &'static str)
        ensures
            r@ == award_display(self),
    {
        match self {
            AssistAward::MasterCab => "Master Combat Action Badge",
            AssistAward::MasterCib => "Master Combat Infantryman Badge",
            AssistAward::MasterCmb => "Master Combat Medical Badge",
        }
    }

    fn short_name(self) -> (r: &'static str)
        ensures
            r@ == award_short(self),
    {
        match self {
            AssistAward::MasterCab => "Master CAB",
            AssistAward::MasterCib => "Master CIB",
            AssistAward::MasterCmb => "Master CMB",
        }
    }

    fn rule(self) -> (r: MasterCombatRule)
        ensures
            r.award == self,
            r.combat_base@ == combat_base(self),
            r.combat_short@ == combat_short(self),
            r.expert_base@ == expert_base(self),
            r.expert_short@ == expert_short(self),
            r.expert_cell_tag@ == expert_short(self),
    {
        match self {
            AssistAward::MasterCab => MasterCombatRule {
                award: self,
                combat_base: "Combat Action Badge",
                combat_short: "CAB",
                expert_base: "Expert Soldier Badge",
                expert_short: "ESB",
                expert_cell_tag: "ESB",
            },
            AssistAward::MasterCib => MasterCombatRule {
                award: self,
                combat_base: "Combat Infantryman Badge",
                combat_short: "CIB",
                expert_base: "Expert Infantryman Badge",
                expert_short: "EIB",
                expert_cell_tag: "EIB",
            },
            AssistAward::MasterCmb => MasterCombatRule {
                award: self,
                combat_base: "Combat Medical Badge",
                combat_short: "CMB",
                expert_base: "Expert Field Medical Badge",
                expert_short: "EFMB",
                expert_cell_tag: "EFMB",
            },
        }
    }
}

struct MasterCombatRule {
    award: AssistAward,
    combat_base: &'static str,
    combat_short: &'static str,
    expert_base: &'static str,
    expert_short: &'static str,
    expert_cell_tag: &'static str,
}

// ---------------------------------------------------------------------------
// Verdicts
// ---------------------------------------------------------------------------

/// How an approved grant is applied on the sheet: the member's row of
/// `base_name` gets the cell `new_cell`.
#[derive(Debug, Clone, PartialEq, Eq)]
pub enum GrantPlan {
    UpgradeCell { base_name: String, new_cell: String },
}

impl View for GrantPlan {
    /// `(base_name, new_cell)`
    type V = (Seq<char>, Seq<char>);

    open spec fn view(&self) -> (Seq<char>, Seq<char>) {
        match self {
            GrantPlan::UpgradeCell { base_name, new_cell } => (base_name@, new_cell@),
        }
    }
}

/// Manual Discord steps that go with a verdict.
#[derive(Debug, Clone, PartialEq, Eq)]
pub struct AssistReminders {
    pub forward_to_clerks_entries: bool,
    pub forward_to_pending_approvals: bool,
    pub denial_channel: &'static str,
}

pub struct RemindersView {
    pub clerks: bool,
    pub pending: bool,
    pub channel: Seq<char>,
}

impl View for AssistReminders {
    type V = RemindersView;

    open spec fn view(&self) -> RemindersView {
        RemindersView {
            clerks: self.forward_to_clerks_entries,
            pending: self.forward_to_pending_approvals,
            channel: self.denial_channel@,
        }
    }
}

/// The reminders every Master combat request gets.
pub open spec fn reminders_for(a: AssistAward) -> RemindersView {
    RemindersView { clerks: true, pending: false, channel: "request-denial"@ }
}

/// The reminder lines for an approval (`approved`) or a denial.
pub open spec fn reminder_lines(r: RemindersView, approved: bool) -> Seq<Seq<char>> {
    if approved {
        (if r.clerks {
            seq!["Forward the original request to #logistics-clerks-entries as proof."@]
        } else {
            seq![]
        }) + (if r.pending {
            seq!["Also forward to #pending-approvals before granting."@]
        } else {
            seq![]
        })
    } else {
        seq!["Ping the requester in #"@ + r.channel + " with the denial reason."@]
    }
}

impl AssistReminders {
    fn for_award(award: AssistAward) -> (r: AssistReminders)
        ensures
            r@ == reminders_for(award),
    {
        AssistReminders {
            forward_to_clerks_entries: true,
            forward_to_pending_approvals: false,
            denial_channel: "request-denial",
        }
    }

    pub fn lines(&self, approved: bool) -> (r: Vec<String>)
        ensures
            strings_view(r@) == reminder_lines(self@, approved),
    {
        let mut out: Vec<String> = Vec::new();
        if approved {
            if self.forward_to_clerks_entries {
                out.push(crate::text::owned("Forward the original request to #logistics-clerks-entries as proof."));
            }
            if self.forward_to_pending_approvals {
                out.push(crate::text::owned("Also forward to #pending-approvals before granting."));
            }
        } else {
            let mut v: Vec<char> = Vec::new();
            extend_str(&mut v, "Ping the requester in #");
            extend_str(&mut v, self.denial_channel);
            extend_str(&mut v, " with the denial reason.");
            out.push(string_of(&v));
        }
        assert(strings_view(out@) =~= reminder_lines(self@, approved));
        out
    }
}

/// The outcome of a clerk assist check.
#[derive(Debug, Clone, PartialEq, Eq)]
pub enum AssistVerdict {
    Approve { award: AssistAward, grant: GrantPlan, reminders: AssistReminders },
    Deny {
        award: AssistAward,
        reasons: Vec<String>,
        /// Draft Discord denial text (without the @mention).
        denial_message: String,
        reminders: AssistReminders,
    },
    AlreadyHas { award: AssistAward, cell: String },
    Unknown { query: String },
}

pub enum VerdictView {
    Approve { award: AssistAward, grant: (Seq<char>, Seq<char>), reminders: RemindersView },
    Deny {
        award: AssistAward,
        reasons: Seq<Seq<char>>,
        denial_message: Seq<char>,
        reminders: RemindersView,
    },
    AlreadyHas { award: AssistAward, cell: Seq<char> },
    Unknown { query: Seq<char> },
}

impl View for AssistVerdict {
    type V = VerdictView;

    open spec fn view(&self) -> VerdictView {
        match self {
            AssistVerdict::Approve { award, grant, reminders } => VerdictView::Approve {
                award: *award,
                grant: grant@,
                reminders: reminders@,
            },
            AssistVerdict::Deny { award, reasons, denial_message, reminders } => VerdictView::Deny {
                award: *award,
                reasons: strings_view(reasons@),
                denial_message: denial_message@,
                reminders: reminders@,
            },
            AssistVerdict::AlreadyHas { award, cell } => VerdictView::AlreadyHas {
                award: *award,
                cell: cell@,
            },
            AssistVerdict::Unknown { query } => VerdictView::Unknown { query: query@ },
        }
    }
}

/// Each tip as a bullet line.
pub open spec fn bullets(tips: Seq<Seq<char>>) -> Seq<Seq<char>> {
    tips.map_values(|t: Seq<char>| "  • "@ + t)
}

/// The text report of a verdict for `username`.
pub open spec fn report_text(v: VerdictView, username: Seq<char>) -> Seq<char> {
    match v {
        VerdictView::Approve { award, grant, reminders } => join(
            seq![
                "APPROVE @"@ + username + " → "@ + award_display(award),
                Seq::<char>::empty(),
                "Prerequisites: satisfied."@,
                "Grant plan: edit `"@ + grant.0 + "` → `"@ + grant.1 + "`"@,
                Seq::<char>::empty(),
                "Next (manual Discord):"@,
            ] + bullets(reminder_lines(reminders, true)),
            "\n"@,
        ),
        VerdictView::Deny { award, reasons, denial_message, reminders } => join(
            seq![
                "DENY @"@ + username + " → "@ + award_display(award),
                Seq::<char>::empty(),
                "Missing / failed:"@,
            ] + bullets(reasons) + seq![
                Seq::<char>::empty(),
                "Draft denial: "@ + denial_message,
                Seq::<char>::empty(),
                "Next (manual Discord):"@,
            ] + bullets(reminder_lines(reminders, false)),
            "\n"@,
        ),
        VerdictView::AlreadyHas { award, cell } => "ALREADY HAS @"@ + username + " → "@
            + award_display(award) + "\nCurrent cell: "@ + cell + "\nNo sheet write needed."@,
        VerdictView::Unknown { query } => "Unknown award request "@ + debug_text_of(query)
            + ".\nKnown: MCAB, MCIB, MCMB (Master CAB/CIB/CMB)."@,
    }
}

fn text3(a: &str, b: &str, c: &str) -> (r: Vec<char>)
    ensures
        r@ == a@ + b@ + c@,
{
    let mut v: Vec<char> = Vec::new();
    extend_str(&mut v, a);
    extend_str(&mut v, b);
    extend_str(&mut v, c);
    v
}

/// Appends each tip as a bullet line.
fn push_bullets(lines: &mut Vec<String>, tips: &Vec<String>)
    ensures
        strings_view(final(lines)@) == strings_view(old(lines)@) + bullets(strings_view(tips@)),
{
    let ghost start = strings_view(lines@);
    let mut i: usize = 0;
    while i < tips.len()
        invariant
            i <= tips.len(),
            strings_view(lines@) == start + bullets(strings_view(tips@)).subrange(0, i as int),
        decreases tips.len() - i,
    {
        let ghost prev = lines@;
        let v = text3("  • ", tips[i].as_str(), "");
        proof {
            reveal_strlit("");
        }
        assert(v@ =~= "  • "@ + tips@[i as int]@);
        assert(bullets(strings_view(tips@))[i as int] == v@);
        lines.push(string_of(&v));
        assert(strings_view(lines@) =~= strings_view(prev).push(v@));
        assert(bullets(strings_view(tips@)).subrange(0, i + 1) =~= bullets(strings_view(tips@)).subrange(0, i as int).push(v@));
        i += 1;
    }
    assert(bullets(strings_view(tips@)).subrange(0, tips.len() as int) =~= bullets(strings_view(tips@)));
}

impl AssistVerdict {
    pub fn approved(&self) -> (r: bool)
        ensures
            r == (self@ is Approve),
    {
        match self {
            AssistVerdict::Approve { .. } => true,
            _ => false,
        }
    }

    pub fn format_report(&self, username: &str) -> (r: String)
        ensures
            r@ == report_text(self@, username@),
    {
        match self {
            AssistVerdict::Approve { award, grant, reminders } => {
                let mut lines: Vec<String> = Vec::new();
                let mut head = text3("APPROVE @", username, " → ");
                extend_str(&mut head, award.display_name());
                lines.push(string_of(&head));
                lines.push(String::new());
                lines.push(crate::text::owned("Prerequisites: satisfied."));
                match grant {
                    GrantPlan::UpgradeCell { base_name, new_cell } => {
                        let mut plan = text3("Grant plan: edit `", base_name.as_str(), "` → `");
                        extend_str(&mut plan, new_cell.as_str());
                        extend_str(&mut plan, "`");
                        lines.push(string_of(&plan));
                    },
                }
                lines.push(String::new());
                lines.push(crate::text::owned("Next (manual Discord):"));
                let ghost fixed = strings_view(lines@);
                let tips = reminders.lines(true);
                push_bullets(&mut lines, &tips);
                proof {
                    reveal_strlit("");
                }
                assert(strings_view(lines@) =~= seq![
                    "APPROVE @"@ + username@ + " → "@ + award_display(*award),
                    Seq::<char>::empty(),
                    "Prerequisites: satisfied."@,
                    "Grant plan: edit `"@ + grant@.0 + "` → `"@ + grant@.1 + "`"@,
                    Seq::<char>::empty(),
                    "Next (manual Discord):"@,
                ] + bullets(reminder_lines(reminders@, true)));
                join_strings(&lines, "\n")
            },
            AssistVerdict::Deny { award, reasons, denial_message, reminders } => {
                let mut lines: Vec<String> = Vec::new();
                let mut head = text3("DENY @", username, " → ");
                extend_str(&mut head, award.display_name());
                lines.push(string_of(&head));
                lines.push(String::new());
                lines.push(crate::text::owned("Missing / failed:"));
                let ghost first = strings_view(lines@);
                push_bullets(&mut lines, reasons);
                let ghost second = strings_view(lines@);
                lines.push(String::new());
                let draft = text3("Draft denial: ", denial_message.as_str(), "");
                lines.push(string_of(&draft));
                lines.push(String::new());
                lines.push(crate::text::owned("Next (manual Discord):"));
                let ghost third = strings_view(lines@);
                let tips = reminders.lines(false);
                push_bullets(&mut lines, &tips);
                proof {
                    reveal_strlit("");
                }
                assert(third =~= second + seq![
                    Seq::<char>::empty(),
                    "Draft denial: "@ + denial_message@,
                    Seq::<char>::empty(),
                    "Next (manual Discord):"@,
                ]);
                assert(strings_view(lines@) =~= seq![
                    "DENY @"@ + username@ + " → "@ + award_display(*award),
                    Seq::<char>::empty(),
                    "Missing / failed:"@,
                ] + bullets(strings_view(reasons@)) + seq![
                    Seq::<char>::empty(),
                    "Draft denial: "@ + denial_message@,
                    Seq::<char>::empty(),
                    "Next (manual Discord):"@,
                ] + bullets(reminder_lines(reminders@, false)));
                join_strings(&lines, "\n")
            },
            AssistVerdict::AlreadyHas { award, cell } => {
                let mut v = text3("ALREADY HAS @", username, " → ");
                extend_str(&mut v, award.display_name());
                extend_str(&mut v, "\nCurrent cell: ");
                extend_str(&mut v, cell.as_str());
                extend_str(&mut v, "\nNo sheet write needed.");
                string_of(&v)
            },
            AssistVerdict::Unknown { query } => {
                let q = debug_text(query.as_str());
                let v = text3("Unknown award request ", q.as_str(), ".\nKnown: MCAB, MCIB, MCMB (Master CAB/CIB/CMB).");
                string_of(&v)
            },
        }
    }
}

// ---------------------------------------------------------------------------
// Reading the request
// ---------------------------------------------------------------------------

/// `s` without whitespace characters.
pub open spec fn without_ws(s: Seq<char>) -> Seq<char>
    decreases s.len(),
{
    if s.len() == 0 {
        s
    } else if is_ws(s.last()) {
        without_ws(s.drop_last())
    } else {
        without_ws(s.drop_last()).push(s.last())
    }
}

/// The assist award a clerk's request names, if any: exact aliases (ignoring case
/// and whitespace) first, then key words.
pub open spec fn assist_query(query: Seq<char>) -> Option<AssistAward> {
    let q = lower_seq(trim(query));
    let compact = without_ws(q);
    if compact == "mcab"@ || compact == "mastercab"@ || compact == "mastercombatactionbadge"@
        || compact == "mastercombataction"@ {
        Some(AssistAward::MasterCab)
    } else if compact == "mcib"@ || compact == "mastercib"@ || compact
        == "mastercombatinfantrymanbadge"@ || compact == "mastercombatinfantryman"@ {
        Some(AssistAward::MasterCib)
    } else if compact == "mcmb"@ || compact == "mastercmb"@ || compact == "mastercombatmedicalbadge"@
        || compact == "mastercombatmedical"@ {
        Some(AssistAward::MasterCmb)
    } else if contains_seq(q, "master"@) && contains_seq(q, "combat"@) && contains_seq(q, "action"@) {
        Some(AssistAward::MasterCab)
    } else if contains_seq(q, "master"@) && contains_seq(q, "infantryman"@) {
        Some(AssistAward::MasterCib)
    } else if contains_seq(q, "master"@) && contains_seq(q, "medical"@) && contains_seq(q, "combat"@) {
        Some(AssistAward::MasterCmb)
    } else if starts_with(q, "master cab"@) {
        Some(AssistAward::MasterCab)
    } else if starts_with(q, "master cib"@) {
        Some(AssistAward::MasterCib)
    } else if starts_with(q, "master cmb"@) {
        Some(AssistAward::MasterCmb)
    } else {
        None
    }
}

fn without_ws_chars(v: &Vec<char>) -> (r: Vec<char>)
    ensures
        r@ == without_ws(v@),
{
    let mut r: Vec<char> = Vec::new();
    let mut i: usize = 0;
    while i < v.len()
        invariant
            i <= v.len(),
            r@ == without_ws(v@.subrange(0, i as int)),
        decreases v.len() - i,
    {
        assert(v@.subrange(0, i + 1).drop_last() =~= v@.subrange(0, i as int));
        if !crate::text::is_ws_char(v[i]) {
            r.push(v[i]);
        }
        i += 1;
    }
    assert(v@.subrange(0, v.len() as int) =~= v@);
    r
}

fn is_one_of(v: &Vec<char>, a: &str, b: &str, c: &str, d: &str) -> (r: bool)
    ensures
        r == (v@ == a@ || v@ == b@ || v@ == c@ || v@ == d@),
{
    chars_eq(v, &chars_of(a)) || chars_eq(v, &chars_of(b)) || chars_eq(v, &chars_of(c))
        || chars_eq(v, &chars_of(d))
}

fn has_word(v: &Vec<char>, w: &str) -> (r: bool)
    ensures
        r == contains_seq(v@, w@),
{
    contains_chars(v, &chars_of(w))
}

/// Resolve common clerk aliases to a known assist award.
pub fn parse_assist_award(query: &str) -> (r: Option<AssistAward>)
    ensures
        r == assist_query(query@),
{
    let t = trim_str(query);
    let q = lower_chars(&t);
    let compact = without_ws_chars(&q);
    if is_one_of(&compact, "mcab", "mastercab", "mastercombatactionbadge", "mastercombataction") {
        Some(AssistAward::MasterCab)
    } else if is_one_of(&compact, "mcib", "mastercib", "mastercombatinfantrymanbadge", "mastercombatinfantryman") {
        Some(AssistAward::MasterCib)
    } else if is_one_of(&compact, "mcmb", "mastercmb", "mastercombatmedicalbadge", "mastercombatmedical") {
        Some(AssistAward::MasterCmb)
    } else if has_word(&q, "master") && has_word(&q, "combat") && has_word(&q, "action") {
        Some(AssistAward::MasterCab)
    } else if has_word(&q, "master") && has_word(&q, "infantryman") {
        Some(AssistAward::MasterCib)
    } else if has_word(&q, "master") && has_word(&q, "medical") && has_word(&q, "combat") {
        Some(AssistAward::MasterCmb)
    } else if starts_with_chars(&q, &chars_of("master cab")) {
        Some(AssistAward::MasterCab)
    } else if starts_with_chars(&q, &chars_of("master cib")) {
        Some(AssistAward::MasterCib)
    } else if starts_with_chars(&q, &chars_of("master cmb")) {
        Some(AssistAward::MasterCmb)
    } else {
        None
    }
}

// ---------------------------------------------------------------------------
// Reading cells
// ---------------------------------------------------------------------------

/// Separators between detail tokens.
pub open spec fn is_token_sep(c: char) -> bool {
    is_ws(c) || c == ',' || c == '/'
}

pub open spec fn is_paren(c: char) -> bool {
    c == '(' || c == ')'
}

pub open spec fn trim_parens_start(s: Seq<char>) -> Seq<char>
    decreases s.len(),
{
    if s.len() > 0 && is_paren(s[0]) {
        trim_parens_start(s.drop_first())
    } else {
        s
    }
}

pub open spec fn trim_parens_end(s: Seq<char>) -> Seq<char>
    decreases s.len(),
{
    if s.len() > 0 && is_paren(s.last()) {
        trim_parens_end(s.drop_last())
    } else {
        s
    }
}

/// `str::trim_matches` on `(` and `)`.
pub open spec fn trim_parens(s: Seq<char>) -> Seq<char> {
    trim_parens_end(trim_parens_start(s))
}

/// Upper-cased pieces with their parentheses trimmed, empty results dropped.
pub open spec fn tag_tokens(pieces: Seq<Seq<char>>) -> Seq<Seq<char>>
    decreases pieces.len(),
{
    if pieces.len() == 0 {
        seq![]
    } else {
        let prev = tag_tokens(pieces.drop_last());
        let t = upper_seq(trim_parens(pieces.last()));
        if t.len() > 0 {
            prev.push(t)
        } else {
            prev
        }
    }
}

/// Tokens in the detail after ` - ` (`User - MC x2` gives `MC`, `X2`).
pub open spec fn detail_tokens(cell: Seq<char>) -> Seq<Seq<char>> {
    let t = clean(cell);
    match find_seq(t, " - "@) {
        None => seq![],
        Some(d) => tag_tokens(split_nonempty(t.subrange(d + 3, t.len() as int), |c: char| is_token_sep(c))),
    }
}

/// The cell's detail holds `tag` as a whole token (case-insensitive).
pub open spec fn has_tag(cell: Seq<char>, tag: Seq<char>) -> bool {
    let want = upper_seq(trim(tag));
    want.len() > 0 && detail_tokens(cell).contains(want)
}

fn split_tokens(s: &Vec<char>) -> (r: Vec<Vec<char>>)
    ensures
        lines_view(r@) == split_nonempty(s@, |c: char| is_token_sep(c)),
{
    let ghost sep = |c: char| is_token_sep(c);
    let mut done: Vec<Vec<char>> = Vec::new();
    let mut cur: Vec<char> = Vec::new();
    let mut i: usize = 0;
    assert(lines_view(done@) =~= Seq::<Seq<char>>::empty());
    assert(cur@ =~= Seq::<char>::empty());
    while i < s.len()
        invariant
            i <= s.len(),
            sep == (|c: char| is_token_sep(c)),
            (lines_view(done@), cur@) == split_state(s@.subrange(0, i as int), sep),
        decreases s.len() - i,
    {
        let c = s[i];
        assert(s@.subrange(0, i + 1).drop_last() =~= s@.subrange(0, i as int));
        assert(s@.subrange(0, i + 1).last() == c);
        if crate::text::is_ws_char(c) || c == ',' || c == '/' {
            if cur.len() > 0 {
                let ghost prev = done@;
                done.push(cur);
                assert(lines_view(done@) =~= lines_view(prev).push(cur@));
                cur = Vec::new();
                assert(cur@ =~= Seq::<char>::empty());
            }
        } else {
            cur.push(c);
        }
        i += 1;
    }
    assert(s@.subrange(0, s.len() as int) =~= s@);
    if cur.len() > 0 {
        let ghost prev = done@;
        done.push(cur);
        assert(lines_view(done@) =~= lines_view(prev).push(cur@));
    }
    done
}

proof fn lemma_trim_parens_start(s: Seq<char>, i: int)
    requires
        0 <= i <= s.len(),
        forall|k: int| 0 <= k < i ==> is_paren(#[trigger] s[k]),
    ensures
        trim_parens_start(s) == trim_parens_start(s.subrange(i, s.len() as int)),
    decreases i,
{
    if i > 0 {
        assert(s.drop_first().subrange(i - 1, s.len() - 1) =~= s.subrange(i, s.len() as int));
        assert(forall|k: int| 0 <= k < i - 1 ==> #[trigger] s.drop_first()[k] == s[k + 1]);
        lemma_trim_parens_start(s.drop_first(), i - 1);
    } else {
        assert(s.subrange(0, s.len() as int) =~= s);
    }
}

proof fn lemma_trim_parens_end(s: Seq<char>, j: int)
    requires
        0 <= j <= s.len(),
        forall|k: int| j <= k < s.len() ==> is_paren(#[trigger] s[k]),
    ensures
        trim_parens_end(s) == trim_parens_end(s.subrange(0, j)),
    decreases s.len() - j,
{
    if j < s.len() {
        assert(s.drop_last().subrange(0, j) =~= s.subrange(0, j));
        lemma_trim_parens_end(s.drop_last(), j);
    } else {
        assert(s.subrange(0, s.len() as int) =~= s);
    }
}

fn trim_parens_chars(v: &Vec<char>) -> (r: Vec<char>)
    ensures
        r@ == trim_parens(v@),
{
    let mut lo: usize = 0;
    while lo < v.len() && (v[lo] == '(' || v[lo] == ')')
        invariant
            lo <= v.len(),
            forall|k: int| 0 <= k < lo ==> is_paren(#[trigger] v@[k]),
        decreases v.len() - lo,
    {
        lo += 1;
    }
    proof {
        lemma_trim_parens_start(v@, lo as int);
    }
    let mid = slice_chars(v, lo, v.len());
    assert(mid@ == trim_parens_start(v@)) by {
        if lo < v.len() {
            assert(!is_paren(v@[lo as int]));
        }
    }
    let mut hi: usize = mid.len();
    while hi > 0 && (mid[hi - 1] == '(' || mid[hi - 1] == ')')
        invariant
            hi <= mid.len(),
            forall|k: int| hi <= k < mid.len() ==> is_paren(#[trigger] mid@[k]),
        decreases hi,
    {
        hi -= 1;
    }
    proof {
        lemma_trim_parens_end(mid@, hi as int);
    }
    slice_chars(&mid, 0, hi)
}

fn detail_tokens_of(cell: &str) -> (r: Vec<Vec<char>>)
    ensures
        lines_view(r@) == detail_tokens(cell@),
{
    let text = clean_chars(cell);
    let dash = chars_of(" - ");
    match find_chars(&text, &dash) {
        None => {
            let r: Vec<Vec<char>> = Vec::new();
            assert(lines_view(r@) =~= Seq::<Seq<char>>::empty());
            r
        },
        Some(d) => {
            proof {
                reveal_strlit(" - ");
            }
            let n = text.len();
            assert(dash@.len() == 3);
            assert(d + 3 <= n);
            let rest = slice_chars(&text, d + 3, n);
            let pieces = split_tokens(&rest);
            let ghost pv = lines_view(pieces@);
            let mut out: Vec<Vec<char>> = Vec::new();
            let mut i: usize = 0;
            assert(lines_view(out@) =~= tag_tokens(pv.subrange(0, 0)));
            while i < pieces.len()
                invariant
                    i <= pieces.len(),
                    pv == lines_view(pieces@),
                    lines_view(out@) == tag_tokens(pv.subrange(0, i as int)),
                decreases pieces.len() - i,
            {
                assert(pv.subrange(0, i + 1).drop_last() =~= pv.subrange(0, i as int));
                assert(pv.subrange(0, i + 1).last() == pieces@[i as int]@);
                let trimmed = trim_parens_chars(&pieces[i]);
                let t = upper_chars(&trimmed);
                if t.len() > 0 {
                    let ghost prev = out@;
                    out.push(t);
                    assert(lines_view(out@) =~= lines_view(prev).push(t@));
                }
                i += 1;
            }
            assert(pv.subrange(0, pieces.len() as int) =~= pv);
            out
        },
    }
}

fn cell_has_exact_tag(cell: &str, tag: &str) -> (r: bool)
    ensures
        r == has_tag(cell@, tag@),
{
    let t = trim_str(tag);
    let want = upper_chars(&t);
    if want.len() == 0 {
        return false;
    }
    let tokens = detail_tokens_of(cell);
    let mut i: usize = 0;
    while i < tokens.len()
        invariant
            i <= tokens.len(),
            lines_view(tokens@) == detail_tokens(cell@),
            want@ == upper_seq(trim(tag@)),
            want@.len() > 0,
            forall|k: int| 0 <= k < i ==> lines_view(tokens@)[k] != want@,
        decreases tokens.len() - i,
    {
        if chars_eq(&tokens[i], &want) {
            assert(lines_view(tokens@)[i as int] == want@);
            assert(detail_tokens(cell@).contains(want@));
            return true;
        }
        i += 1;
    }
    false
}

// ---------------------------------------------------------------------------
// Reading a member's awards
// ---------------------------------------------------------------------------

/// The first element satisfying `p`.
pub open spec fn first_match<A>(s: Seq<A>, p: spec_fn(A) -> bool) -> Option<int>
    decreases s.len(),
{
    if s.len() == 0 {
        None
    } else {
        match first_match(s.drop_last(), p) {
            Some(i) => Some(i),
            None => if p(s.last()) {
                Some(s.len() - 1)
            } else {
                None
            },
        }
    }
}

/// How many elements satisfy `p`.
pub open spec fn count_where<A>(s: Seq<A>, p: spec_fn(A) -> bool) -> nat
    decreases s.len(),
{
    if s.len() == 0 {
        0
    } else {
        count_where(s.drop_last(), p) + if p(s.last()) {
            1nat
        } else {
            0nat
        }
    }
}

proof fn lemma_first_match_some<A>(s: Seq<A>, p: spec_fn(A) -> bool, i: int)
    requires
        first_match(s, p) == Some(i),
    ensures
        0 <= i < s.len(),
        p(s[i]),
        forall|k: int| 0 <= k < i ==> !p(#[trigger] s[k]),
    decreases s.len(),
{
    if first_match(s.drop_last(), p) == Some(i) {
        lemma_first_match_some(s.drop_last(), p, i);
        assert forall|k: int| 0 <= k < i implies !p(#[trigger] s[k]) by {
            assert(s.drop_last()[k] == s[k]);
        }
        assert(s.drop_last()[i] == s[i]);
    } else {
        lemma_first_match_none(s.drop_last(), p);
        assert forall|k: int| 0 <= k < i implies !p(#[trigger] s[k]) by {
            assert(s.drop_last()[k] == s[k]);
        }
    }
}

proof fn lemma_first_match_none<A>(s: Seq<A>, p: spec_fn(A) -> bool)
    requires
        first_match(s, p) is None,
    ensures
        forall|k: int| 0 <= k < s.len() ==> !p(#[trigger] s[k]),
    decreases s.len(),
{
    if s.len() > 0 {
        lemma_first_match_none(s.drop_last(), p);
        assert forall|k: int| 0 <= k < s.len() implies !p(#[trigger] s[k]) by {
            if k < s.len() - 1 {
                assert(s.drop_last()[k] == s[k]);
            }
        }
    }
}

/// Nothing matches when there is no first match.
proof fn lemma_count_zero<A>(s: Seq<A>, p: spec_fn(A) -> bool)
    requires
        first_match(s, p) is None,
    ensures
        count_where(s, p) == 0,
    decreases s.len(),
{
    if s.len() > 0 {
        lemma_count_zero(s.drop_last(), p);
    }
}

pub open spec fn base_is(a: AwardView, want: Seq<char>) -> bool {
    lower_seq(a.base_name) == lower_seq(want)
}

pub open spec fn name_is(a: AwardView, want: Seq<char>) -> bool {
    lower_seq(a.name) == lower_seq(want)
}

/// The row already shows the Master badge.
pub open spec fn is_master(a: AwardView, m: AssistAward) -> bool {
    name_is(a, award_display(m)) || starts_with(lower_seq(a.name), lower_seq(award_display(m)))
        || has_tag(a.cell, "MC"@)
}

/// A Master badge already sits on a combat row.
pub open spec fn is_master_row(a: AwardView, m: AssistAward) -> bool {
    base_is(a, combat_base(m)) && is_master(a, m)
}

/// A combat row that can be upgraded: not Master already, and not an expert tag
/// written on the combat column.
pub open spec fn is_grantable(a: AwardView, m: AssistAward) -> bool {
    base_is(a, combat_base(m)) && !is_master(a, m) && !has_tag(a.cell, expert_short(m))
}

/// The member holds the expert badge (as a row, or as a tag on some cell).
pub open spec fn has_expert(awards: Seq<AwardView>, m: AssistAward) -> bool {
    exists|i: int|
        0 <= i < awards.len() && (base_is(#[trigger] awards[i], expert_base(m)) || name_is(
            awards[i],
            expert_base(m),
        ) || has_tag(awards[i].cell, expert_short(m)))
}

/// The member name to write into the upgraded cell: the casing on the sheet cell
/// when it has one, else `fallback`.
pub open spec fn sheet_user_display(cell: Seq<char>, fallback: Seq<char>) -> Seq<char> {
    let t = clean(cell);
    if t.len() == 0 {
        fallback
    } else {
        match find_seq(t, " - "@) {
            Some(d) => trim(t.subrange(0, d)),
            None => match rfind_seq(lower_seq(t), " x"@) {
                Some(idx) => if all_digits(t.subrange(idx + 2, t.len() as int)) {
                    trim(t.subrange(0, idx))
                } else {
                    t
                },
                None => t,
            },
        }
    }
}

pub open spec fn missing_line(base: Seq<char>, short: Seq<char>) -> Seq<char> {
    "Missing "@ + base + " ("@ + short + ")"@
}

/// The verdict for a Master combat request by `username`.
pub open spec fn master_verdict(username: Seq<char>, awards: Seq<AwardView>, m: AssistAward) -> VerdictView {
    let reminders = reminders_for(m);
    let grantable = |a: AwardView| is_grantable(a, m);
    match first_match(awards, |a: AwardView| is_master_row(a, m)) {
        Some(i) => VerdictView::AlreadyHas { award: m, cell: awards[i].cell },
        None => {
            let expert_missing = !has_expert(awards, m);
            let combat_missing = count_where(awards, grantable) == 0;
            if expert_missing || combat_missing {
                VerdictView::Deny {
                    award: m,
                    reasons: (if expert_missing {
                        seq![missing_line(expert_base(m), expert_short(m))]
                    } else {
                        seq![]
                    }) + (if combat_missing {
                        seq![missing_line(combat_base(m), combat_short(m))]
                    } else {
                        seq![]
                    }),
                    denial_message: if expert_missing && combat_missing {
                        "Request requires both "@ + expert_base(m) + " and "@ + combat_base(m)
                            + " before "@ + award_short(m) + "."@
                    } else {
                        "Request "@ + award_short(m) + " after obtaining "@ + (if expert_missing {
                            expert_base(m)
                        } else {
                            combat_base(m)
                        }) + "."@
                    },
                    reminders,
                }
            } else if count_where(awards, grantable) > 1 {
                VerdictView::Deny {
                    award: m,
                    reasons: seq![
                        "Multiple "@ + combat_base(m)
                            + " rows found; resolve duplicates before granting Master"@,
                    ],
                    denial_message: "Resolve duplicate "@ + combat_short(m) + " entries before requesting "@
                        + award_short(m) + "."@,
                    reminders,
                }
            } else {
                let t = first_match(awards, grantable).unwrap();
                VerdictView::Approve {
                    award: m,
                    grant: (combat_base(m), cell_value(sheet_user_display(awards[t].cell, username), "MC"@)),
                    reminders,
                }
            }
        },
    }
}

/// The verdict of a clerk assist request.
pub open spec fn assist_verdict(username: Seq<char>, awards: Seq<AwardView>, query: Seq<char>) -> VerdictView {
    match assist_query(query) {
        None => VerdictView::Unknown { query: trim(query) },
        Some(m) => master_verdict(strip_leading(trim(username), '@'), awards, m),
    }
}

fn base_eq(award: &Award, want: &str) -> (r: bool)
    ensures
        r == base_is(award@, want@),
{
    eq_ignore_case(&chars_of(award.base_name.as_str()), &chars_of(want))
}

fn name_eq(award: &Award, want: &str) -> (r: bool)
    ensures
        r == name_is(award@, want@),
{
    eq_ignore_case(&chars_of(award.name.as_str()), &chars_of(want))
}

fn is_master_on_combat(award: &Award, m: AssistAward) -> (r: bool)
    ensures
        r == is_master(award@, m),
{
    let display = m.display_name();
    name_eq(award, display) || starts_with_chars(
        &lower_chars(&chars_of(award.name.as_str())),
        &lower_chars(&chars_of(display)),
    ) || cell_has_exact_tag(award.cell.as_str(), "MC")
}

fn is_grantable_combat(award: &Award, rule: &MasterCombatRule) -> (r: bool)
    requires
        rule.combat_base@ == combat_base(rule.award),
        rule.expert_cell_tag@ == expert_short(rule.award),
    ensures
        r == is_grantable(award@, rule.award),
{
    if !base_eq(award, rule.combat_base) {
        return false;
    }
    if is_master_on_combat(award, rule.award) {
        return false;
    }
    if cell_has_exact_tag(award.cell.as_str(), rule.expert_cell_tag) {
        return false;
    }
    true
}

fn has_expert_badge(awards: &[Award], rule: &MasterCombatRule) -> (r: bool)
    requires
        rule.expert_base@ == expert_base(rule.award),
        rule.expert_cell_tag@ == expert_short(rule.award),
    ensures
        r == has_expert(awards_view(awards@), rule.award),
{
    let ghost av = awards_view(awards@);
    let mut i: usize = 0;
    while i < awards.len()
        invariant
            i <= awards.len(),
            av == awards_view(awards@),
            rule.expert_base@ == expert_base(rule.award),
            rule.expert_cell_tag@ == expert_short(rule.award),
            forall|k: int|
                0 <= k < i ==> !(base_is(#[trigger] av[k], expert_base(rule.award)) || name_is(
                    av[k],
                    expert_base(rule.award),
                ) || has_tag(av[k].cell, expert_short(rule.award))),
        decreases awards.len() - i,
    {
        let a = &awards[i];
        assert(av[i as int] == a@);
        if base_eq(a, rule.expert_base) || name_eq(a, rule.expert_base) || cell_has_exact_tag(
            a.cell.as_str(),
            rule.expert_cell_tag,
        ) {
            return true;
        }
        i += 1;
    }
    false
}

/// Index of the first combat row already showing the Master badge.
fn first_master_row(awards: &[Award], rule: &MasterCombatRule) -> (r: Option<usize>)
    requires
        rule.combat_base@ == combat_base(rule.award),
    ensures
        match r {
            Some(i) => first_match(awards_view(awards@), |a: AwardView| is_master_row(a, rule.award))
                == Some(i as int),
            None => first_match(awards_view(awards@), |a: AwardView| is_master_row(a, rule.award)) is None,
        },
{
    let ghost av = awards_view(awards@);
    let ghost p = |a: AwardView| is_master_row(a, rule.award);
    let mut i: usize = 0;
    while i < awards.len()
        invariant
            i <= awards.len(),
            av == awards_view(awards@),
            rule.combat_base@ == combat_base(rule.award),
            p == (|a: AwardView| is_master_row(a, rule.award)),
            first_match(av.subrange(0, i as int), p) is None,
        decreases awards.len() - i,
    {
        let a = &awards[i];
        assert(av.subrange(0, i + 1).drop_last() =~= av.subrange(0, i as int));
        assert(av.subrange(0, i + 1).last() == a@);
        if base_eq(a, rule.combat_base) && is_master_on_combat(a, rule.award) {
            assert(first_match(av.subrange(0, i + 1), p) == Some(i as int));
            proof {
                lemma_first_match_prefix(av, p, i as int + 1);
            }
            return Some(i);
        }
        i += 1;
    }
    assert(av.subrange(0, awards.len() as int) =~= av);
    None
}

/// A match found in a prefix is the match of the whole sequence.
proof fn lemma_first_match_prefix<A>(s: Seq<A>, p: spec_fn(A) -> bool, n: int)
    requires
        0 <= n <= s.len(),
        first_match(s.subrange(0, n), p) is Some,
    ensures
        first_match(s, p) == first_match(s.subrange(0, n), p),
    decreases s.len() - n,
{
    if n < s.len() {
        assert(s.subrange(0, n + 1).drop_last() =~= s.subrange(0, n));
        lemma_first_match_prefix(s, p, n + 1);
    } else {
        assert(s.subrange(0, n) =~= s);
    }
}

/// The number of grantable combat rows and the first of them.
fn grantable_rows(awards: &[Award], rule: &MasterCombatRule) -> (r: (usize, Option<usize>))
    requires
        rule.combat_base@ == combat_base(rule.award),
        rule.expert_cell_tag@ == expert_short(rule.award),
    ensures
        r.0 == count_where(awards_view(awards@), |a: AwardView| is_grantable(a, rule.award)),
        match r.1 {
            Some(i) => first_match(awards_view(awards@), |a: AwardView| is_grantable(a, rule.award))
                == Some(i as int),
            None => first_match(awards_view(awards@), |a: AwardView| is_grantable(a, rule.award)) is None,
        },
{
    let ghost av = awards_view(awards@);
    let ghost p = |a: AwardView| is_grantable(a, rule.award);
    let mut count: usize = 0;
    let mut first: Option<usize> = None;
    let mut i: usize = 0;
    while i < awards.len()
        invariant
            i <= awards.len(),
            av == awards_view(awards@),
            rule.combat_base@ == combat_base(rule.award),
            rule.expert_cell_tag@ == expert_short(rule.award),
            p == (|a: AwardView| is_grantable(a, rule.award)),
            count == count_where(av.subrange(0, i as int), p),
            count <= i,
            match first {
                Some(f) => first_match(av.subrange(0, i as int), p) == Some(f as int),
                None => first_match(av.subrange(0, i as int), p) is None,
            },
        decreases awards.len() - i,
    {
        let a = &awards[i];
        assert(av.subrange(0, i + 1).drop_last() =~= av.subrange(0, i as int));
        assert(av.subrange(0, i + 1).last() == a@);
        if is_grantable_combat(a, rule) {
            count += 1;
            if first.is_none() {
                first = Some(i);
            }
        }
        i += 1;
    }
    assert(av.subrange(0, awards.len() as int) =~= av);
    (count, first)
}

fn sheet_username_display(cell: &str, fallback: &str) -> (r: String)
    ensures
        r@ == sheet_user_display(cell@, fallback@),
{
    let text = clean_chars(cell);
    if text.len() == 0 {
        return crate::text::owned(fallback);
    }
    proof {
        reveal_strlit(" - ");
        reveal_strlit(" x");
    }
    match find_chars(&text, &chars_of(" - ")) {
        Some(d) => {
            let head = slice_chars(&text, 0, d);
            string_of(&trim_chars(&head))
        },
        None => {
            let low = lower_chars(&text);
            match rfind_chars(&low, &chars_of(" x")) {
                Some(idx) => {
                    proof {
                        crate::text::lemma_rfind_found(low@, " x"@, idx as int);
                    }
                    let rest = slice_chars(&text, idx + 2, text.len());
                    if all_digits_chars(&rest) {
                        let head = slice_chars(&text, 0, idx);
                        string_of(&trim_chars(&head))
                    } else {
                        string_of(&text)
                    }
                },
                None => string_of(&text),
            }
        },
    }
}

fn check_master_combat(username: &str, awards: &[Award], rule: MasterCombatRule, reminders: AssistReminders) -> (r: AssistVerdict)
    requires
        rule.combat_base@ == combat_base(rule.award),
        rule.combat_short@ == combat_short(rule.award),
        rule.expert_base@ == expert_base(rule.award),
        rule.expert_short@ == expert_short(rule.award),
        rule.expert_cell_tag@ == expert_short(rule.award),
        reminders@ == reminders_for(rule.award),
    ensures
        r@ == master_verdict(username@, awards_view(awards@), rule.award),
{
    let ghost av = awards_view(awards@);
    let m = rule.award;
    if let Some(i) = first_master_row(awards, &rule) {
        proof {
            lemma_first_match_some(av, |a: AwardView| is_master_row(a, m), i as int);
        }
        return AssistVerdict::AlreadyHas { award: m, cell: awards[i].cell.clone() };
    }
    let (count, first) = grantable_rows(awards, &rule);
    let expert_missing = !has_expert_badge(awards, &rule);
    let combat_missing = count == 0;
    if expert_missing || combat_missing {
        let mut reasons: Vec<String> = Vec::new();
        if expert_missing {
            let mut v = text3("Missing ", rule.expert_base, " (");
            extend_str(&mut v, rule.expert_short);
            extend_str(&mut v, ")");
            reasons.push(string_of(&v));
        }
        if combat_missing {
            let mut v = text3("Missing ", rule.combat_base, " (");
            extend_str(&mut v, rule.combat_short);
            extend_str(&mut v, ")");
            reasons.push(string_of(&v));
        }
        let denial = if expert_missing && combat_missing {
            let mut v = text3("Request requires both ", rule.expert_base, " and ");
            extend_str(&mut v, rule.combat_base);
            extend_str(&mut v, " before ");
            extend_str(&mut v, m.short_name());
            extend_str(&mut v, ".");
            v
        } else {
            let need = if expert_missing { rule.expert_base } else { rule.combat_base };
            let mut v = text3("Request ", m.short_name(), " after obtaining ");
            extend_str(&mut v, need);
            extend_str(&mut v, ".");
            v
        };
        let ghost want = master_verdict(username@, av, m);
        assert(strings_view(reasons@) =~= want->Deny_reasons);
        return AssistVerdict::Deny { award: m, reasons, denial_message: string_of(&denial), reminders };
    }
    if count > 1 {
        let mut reasons: Vec<String> = Vec::new();
        let v = text3("Multiple ", rule.combat_base, " rows found; resolve duplicates before granting Master");
        reasons.push(string_of(&v));
        let mut d = text3("Resolve duplicate ", rule.combat_short, " entries before requesting ");
        extend_str(&mut d, m.short_name());
        extend_str(&mut d, ".");
        let ghost want = master_verdict(username@, av, m);
        assert(strings_view(reasons@) =~= want->Deny_reasons);
        return AssistVerdict::Deny { award: m, reasons, denial_message: string_of(&d), reminders };
    }
    proof {
        if first is None {
            lemma_count_zero(av, |a: AwardView| is_grantable(a, m));
        }
    }
    let t = first.unwrap();
    proof {
        lemma_first_match_some(av, |a: AwardView| is_grantable(a, m), t as int);
    }
    let target = &awards[t];
    let sheet_user = sheet_username_display(target.cell.as_str(), username);
    let new_cell = build_cell_value(sheet_user.as_str(), "MC");
    AssistVerdict::Approve {
        award: m,
        grant: GrantPlan::UpgradeCell { base_name: crate::text::owned(rule.combat_base), new_cell },
        reminders,
    }
}

/// Check a clerk assist request against the member's awards.
pub fn check_assist(username: &str, awards: &[Award], query: &str) -> (r: AssistVerdict)
    ensures
        r@ == assist_verdict(username@, awards_view(awards@), query@),
{
    let award = match parse_assist_award(query) {
        Some(a) => a,
        None => {
            return AssistVerdict::Unknown { query: crate::text::trimmed_string(query) };
        },
    };
    let reminders = AssistReminders::for_award(award);
    let t = trim_str(username);
    let display_user = string_of(&strip_leading_chars(&t, '@'));
    check_master_combat(display_user.as_str(), awards, award.rule(), reminders)
}

// ---------------------------------------------------------------------------
// Applying a grant
// ---------------------------------------------------------------------------

/// The row is one of `base_name` and its cell belongs to the member `w`.
pub open spec fn owns_row(a: AwardView, base_name: Seq<char>, w: Seq<char>) -> bool {
    lower_seq(a.base_name) == lower_seq(base_name) && username_key(a.cell) == Some(w)
}

/// An owned row with no Master or expert tag.
pub open spec fn plain_row(a: AwardView, base_name: Seq<char>, w: Seq<char>) -> bool {
    owns_row(a, base_name, w) && !has_tag(a.cell, "MC"@) && !has_tag(a.cell, "ESB"@) && !has_tag(
        a.cell,
        "EIB"@,
    ) && !has_tag(a.cell, "EFMB"@)
}

/// The row a grant rewrites: among the rows of `base_name` owned by `username`
/// itself, the first without a Master or expert tag, else the first.
pub open spec fn grant_target(awards: Seq<AwardView>, base_name: Seq<char>, username: Seq<char>) -> Option<int> {
    match username_key(username) {
        None => None,
        Some(w) => match first_match(awards, |a: AwardView| plain_row(a, base_name, w)) {
            Some(i) => Some(i),
            None => first_match(awards, |a: AwardView| owns_row(a, base_name, w)),
        },
    }
}

/// Find the sheet award to upgrade for a [`GrantPlan::UpgradeCell`].
pub fn find_grant_target<'a>(awards: &'a [Award], plan: &GrantPlan, username: &str) -> (r: Option<&'a Award>)
    ensures
        match grant_target(awards_view(awards@), plan@.0, username@) {
            Some(i) => r matches Some(a) && 0 <= i < awards@.len() && a@ == awards_view(awards@)[i],
            None => r is None,
        },
{
    let want = match normalize_username(Some(username)) {
        Some(w) => w,
        None => return None,
    };
    let base = match plan {
        GrantPlan::UpgradeCell { base_name, .. } => base_name,
    };
    let ghost av = awards_view(awards@);
    let mut first_owned: Option<usize> = None;
    let mut i: usize = 0;
    while i < awards.len()
        invariant
            i <= awards.len(),
            av == awards_view(awards@),
            base@ == plan@.0,
            username_key(username@) == Some(want@),
            first_match(av.subrange(0, i as int), |a: AwardView| plain_row(a, base@, want@)) is None,
            match first_owned {
                Some(f) => first_match(av.subrange(0, i as int), |a: AwardView| owns_row(a, base@, want@))
                    == Some(f as int),
                None => first_match(av.subrange(0, i as int), |a: AwardView| owns_row(a, base@, want@)) is None,
            },
        decreases awards.len() - i,
    {
        let a = &awards[i];
        assert(av.subrange(0, i + 1).drop_last() =~= av.subrange(0, i as int));
        assert(av.subrange(0, i + 1).last() == a@);
        let is_owned = eq_ignore_case(&chars_of(a.base_name.as_str()), &chars_of(base.as_str())) && match normalize_username(Some(a.cell.as_str())) {
            Some(u) => crate::text::str_eq(u.as_str(), want.as_str()),
            None => false,
        };
        assert(is_owned == owns_row(a@, base@, want@));
        if is_owned && !cell_has_exact_tag(a.cell.as_str(), "MC") && !cell_has_exact_tag(a.cell.as_str(), "ESB")
            && !cell_has_exact_tag(a.cell.as_str(), "EIB") && !cell_has_exact_tag(a.cell.as_str(), "EFMB") {
            assert(first_match(av.subrange(0, i + 1), |a: AwardView| plain_row(a, base@, want@)) == Some(i as int));
            proof {
                lemma_first_match_prefix(av, |a: AwardView| plain_row(a, base@, want@), i as int + 1);
            }
            return Some(a);
        }
        if is_owned && first_owned.is_none() {
            first_owned = Some(i);
        }
        i += 1;
    }
    assert(av.subrange(0, awards.len() as int) =~= av);
    match first_owned {
        Some(f) => {
            proof {
                lemma_first_match_some(av, |a: AwardView| owns_row(a, base@, want@), f as int);
            }
            Some(&awards[f])
        },
        None => None,
    }
}

} // verus!
