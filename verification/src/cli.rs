//! The choices the one-shot command line makes: which catalog entry or owned
//! award a typed name picks, and the audit summary counts.
use vstd::prelude::*;
use crate::audit::{groups_of_kind, AuditReport};
use crate::text::{chars_of, contains_chars, contains_seq, lower_chars, lower_seq, str_eq};
use crate::types::{awards_view, defs_view, Award, AwardDef, AwardDefView, AwardView};

verus! {

/// `query` occurs in `text`, ignoring ASCII case.
pub open spec fn mentions(text: Seq<char>, query: Seq<char>) -> bool {
    contains_seq(lower_seq(text), lower_seq(query))
}

/// The catalog entries whose award name mentions `query`, in catalog order.
pub open spec fn defs_named(defs: Seq<AwardDefView>, query: Seq<char>) -> Seq<AwardDefView>
    decreases defs.len(),
{
    if defs.len() == 0 {
        defs
    } else if mentions(defs.last().base_name, query) {
        defs_named(defs.drop_last(), query).push(defs.last())
    } else {
        defs_named(defs.drop_last(), query)
    }
}

/// The awards whose shown name or award name mentions `query`, in order.
pub open spec fn awards_named(awards: Seq<AwardView>, query: Seq<char>) -> Seq<AwardView>
    decreases awards.len(),
{
    if awards.len() == 0 {
        awards
    } else if mentions(awards.last().name, query) || mentions(awards.last().base_name, query) {
        awards_named(awards.drop_last(), query).push(awards.last())
    } else {
        awards_named(awards.drop_last(), query)
    }
}

fn mentions_exec(text: &str, query_lower: &Vec<char>, Ghost(query): Ghost<Seq<char>>) -> (r: bool)
    requires
        query_lower@ == lower_seq(query),
    ensures
        r == mentions(text@, query),
{
    let t = lower_chars(&chars_of(text));
    contains_chars(&t, query_lower)
}

/// The catalog entries a typed award name could mean.
pub fn catalog_matches(catalog: &[AwardDef], query: &str) -> (r: Vec<AwardDef>)
    ensures
        defs_view(r@) == defs_named(defs_view(catalog@), query@),
{
    let q = lower_chars(&chars_of(query));
    let ghost dv = defs_view(catalog@);
    let mut out: Vec<AwardDef> = Vec::new();
    let mut i: usize = 0;
    while i < catalog.len()
        invariant
            i <= catalog.len(),
            q@ == lower_seq(query@),
            dv == defs_view(catalog@),
            defs_view(out@) == defs_named(dv.subrange(0, i as int), query@),
        decreases catalog.len() - i,
    {
        assert(dv.subrange(0, i + 1).drop_last() =~= dv.subrange(0, i as int));
        assert(dv[i as int] == catalog@[i as int]@);
        if mentions_exec(catalog[i].base_name.as_str(), &q, Ghost(query@)) {
            let ghost before = defs_view(out@);
            out.push(catalog[i].clone());
            assert(defs_view(out@) =~= before.push(dv[i as int]));
        }
        i += 1;
    }
    assert(dv.subrange(0, catalog.len() as int) =~= dv);
    out
}

/// The member's awards a typed award name could mean.
pub fn owned_award_matches(awards: &[Award], query: &str) -> (r: Vec<Award>)
    ensures
        awards_view(r@) == awards_named(awards_view(awards@), query@),
{
    let q = lower_chars(&chars_of(query));
    let ghost av = awards_view(awards@);
    let mut out: Vec<Award> = Vec::new();
    let mut i: usize = 0;
    while i < awards.len()
        invariant
            i <= awards.len(),
            q@ == lower_seq(query@),
            av == awards_view(awards@),
            awards_view(out@) == awards_named(av.subrange(0, i as int), query@),
        decreases awards.len() - i,
    {
        assert(av.subrange(0, i + 1).drop_last() =~= av.subrange(0, i as int));
        assert(av[i as int] == awards@[i as int]@);
        if mentions_exec(awards[i].name.as_str(), &q, Ghost(query@)) || mentions_exec(
            awards[i].base_name.as_str(),
            &q,
            Ghost(query@),
        ) {
            let ghost before = awards_view(out@);
            out.push(awards[i].clone());
            assert(awards_view(out@) =~= before.push(av[i as int]));
        }
        i += 1;
    }
    assert(av.subrange(0, awards.len() as int) =~= av);
    out
}

/// How many duplicate groups of the report are of `kind` (`identical` or
/// `conflict`).
pub fn count_groups_of_kind(report: &AuditReport, kind: &str) -> (r: usize)
    ensures
        r == groups_of_kind(report@.groups, kind@).len(),
{
    let ghost gs = report@.groups;
    let mut n: usize = 0;
    let mut i: usize = 0;
    while i < report.duplicate_groups.len()
        invariant
            i <= report.duplicate_groups.len(),
            gs == report@.groups,
            gs.len() == report.duplicate_groups.len(),
            n == groups_of_kind(gs.subrange(0, i as int), kind@).len(),
            n <= i,
        decreases report.duplicate_groups.len() - i,
    {
        assert(gs.subrange(0, i + 1).drop_last() =~= gs.subrange(0, i as int));
        assert(gs[i as int] == report.duplicate_groups@[i as int]@);
        if str_eq(report.duplicate_groups[i].kind.as_str(), kind) {
            n += 1;
        }
        i += 1;
    }
    assert(gs.subrange(0, report.duplicate_groups.len() as int) =~= gs);
    n
}

} // verus!
