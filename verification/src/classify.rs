//! Classification of reference source files: which pages document a command,
//! under which canonical identifier, and with which flag record.
use vstd::prelude::*;
use vstd::string::StringExecFns;
use crate::props::Properties;
use crate::props::spec_from;
use crate::table::Table;
use crate::text::contains_pat;
use crate::text::match_at;
use crate::text::lower;
use crate::text::str_contains;
use crate::text::str_eq;
use crate::text::push_char;

verus! {

/// A page documents a command when it carries the first category sentinel,
/// or the second one together with the required marker and without the
/// excluding marker.
pub open spec fn spec_is_command(s: Seq<char>) -> bool {
    contains_pat(s, "100-6957482"@) || (contains_pat(s, "100-6993921"@) && contains_pat(
        s,
        "ak_700.png"@,
    ) && !contains_pat(s, "ak_610.png"@))
}

/// Decides whether a page text documents a command.
pub fn is_command(in_content: &str) -> (r: bool)
    ensures
        r == spec_is_command(in_content@),
{
    str_contains(in_content, "100-6957482") || (str_contains(in_content, "100-6993921")
        && str_contains(in_content, "ak_700.png") && !str_contains(in_content, "ak_610.png"))
}

/// A page with the first sentinel is selected whatever else it holds.
pub proof fn lemma_first_sentinel_selects(s: Seq<char>)
    requires
        contains_pat(s, "100-6957482"@),
    ensures
        spec_is_command(s),
{
}

/// A page with the second sentinel and the required marker, but without the
/// excluding marker, is selected.
pub proof fn lemma_second_sentinel_selects(s: Seq<char>)
    requires
        contains_pat(s, "100-6993921"@),
        contains_pat(s, "ak_700.png"@),
        !contains_pat(s, "ak_610.png"@),
    ensures
        spec_is_command(s),
{
}

/// With the excluding marker present the second sentinel does not select,
/// even beside the required marker: only the first sentinel then could.
pub proof fn lemma_excluded_marker_blocks(s: Seq<char>)
    requires
        contains_pat(s, "100-6993921"@),
        contains_pat(s, "ak_700.png"@),
        contains_pat(s, "ak_610.png"@),
        !contains_pat(s, "100-6957482"@),
    ensures
        !spec_is_command(s),
{
}

/// End of the leading dot-segment: the first index holding `'.'`, or the
/// length when there is none.
pub open spec fn seg_end(s: Seq<char>, j: int) -> int
    decreases s.len() - j,
{
    if j < s.len() && s[j] != '.' {
        seg_end(s, j + 1)
    } else {
        j
    }
}

/// The identifier drawn from a file stem: the text before the first dot,
/// lowercased.
pub open spec fn spec_command_name(stem: Seq<char>) -> Seq<char> {
    lower(stem.subrange(0, seg_end(stem, 0)))
}

/// Derives the command identifier from a file stem.
pub fn command_name_of(stem: &str) -> (r: String)
    ensures
        r@ == spec_command_name(stem@),
{
    let cs = crate::text::chars_of(stem);
    let n: usize = cs.len();
    let mut r = String::new();
    let mut i: usize = 0;
    while i < n && cs[i] != '.'
        invariant
            n == cs@.len(),
            cs@ == stem@,
            0 <= i <= n,
            seg_end(stem@, 0) == seg_end(stem@, i as int),
            r@ == lower(stem@.subrange(0, i as int)),
        decreases n - i,
    {
        assert(seg_end(stem@, i as int) == seg_end(stem@, i + 1));
        let c = cs[i];
        if 'A' <= c && c <= 'Z' {
            push_char(&mut r, ((c as u8) + 32) as char);
        } else {
            push_char(&mut r, c);
        }
        assert(r@ =~= lower(stem@.subrange(0, i + 1)));
        i = i + 1;
    }
    proof {
        assert(seg_end(stem@, i as int) == i);
    }
    r
}

/// The fixed rename table: display names whose canonical slug diverged.
/// Unmapped names pass through unchanged.
pub open spec fn spec_canonical(n: Seq<char>) -> Seq<char> {
    if n == "get-action-info"@ {
        "action-info"@
    } else if n == "get-activity-snapshot"@ {
        "activity-snapshot"@
    } else if n == "get-application-info"@ {
        "application-info"@
    } else if n == "get-backup-information"@ {
        "backup-info"@
    } else if n == "get-call-chain"@ {
        "call-chain"@
    } else if n == "get-database-measures"@ {
        "database-measures"@
    } else if n == "get-last-field-number"@ {
        "last-field-number"@
    } else if n == "get-last-query-path"@ {
        "last-query-path"@
    } else if n == "get-last-query-plan"@ {
        "last-query-plan"@
    } else if n == "get-last-table-number"@ {
        "last-table-number"@
    } else if n == "get-license-info"@ {
        "license-info"@
    } else if n == "get-license-usage"@ {
        "license-usage"@
    } else if n == "get-localized-document-path"@ {
        "localized-document-path"@
    } else if n == "get-localized-string"@ {
        "localized-string"@
    } else if n == "get-locked-records-info"@ {
        "locked-records-info"@
    } else if n == "get-memory-statistics"@ {
        "memory-statistics"@
    } else if n == "get-monitored-activity"@ {
        "monitored-activity"@
    } else if n == "get-mouse"@ {
        "mouse-position"@
    } else if n == "get-restore-information"@ {
        "restore-info"@
    } else if n == "get-system-info"@ {
        "system-info"@
    } else if n == "get-table-fragmentation"@ {
        "table-fragmentation"@
    } else if n == "session-storage-by-id"@ {
        "session-storage"@
    } else {
        n
    }
}

/// Applies the fixed rename table to an identifier.
pub fn canonical_name(n: &str) -> (r: String)
    ensures
        r@ == spec_canonical(n@),
{
    if str_eq(n, "get-action-info") {
        String::from_str("action-info")
    } else if str_eq(n, "get-activity-snapshot") {
        String::from_str("activity-snapshot")
    } else if str_eq(n, "get-application-info") {
        String::from_str("application-info")
    } else if str_eq(n, "get-backup-information") {
        String::from_str("backup-info")
    } else if str_eq(n, "get-call-chain") {
        String::from_str("call-chain")
    } else if str_eq(n, "get-database-measures") {
        String::from_str("database-measures")
    } else if str_eq(n, "get-last-field-number") {
        String::from_str("last-field-number")
    } else if str_eq(n, "get-last-query-path") {
        String::from_str("last-query-path")
    } else if str_eq(n, "get-last-query-plan") {
        String::from_str("last-query-plan")
    } else if str_eq(n, "get-last-table-number") {
        String::from_str("last-table-number")
    } else if str_eq(n, "get-license-info") {
        String::from_str("license-info")
    } else if str_eq(n, "get-license-usage") {
        String::from_str("license-usage")
    } else if str_eq(n, "get-localized-document-path") {
        String::from_str("localized-document-path")
    } else if str_eq(n, "get-localized-string") {
        String::from_str("localized-string")
    } else if str_eq(n, "get-locked-records-info") {
        String::from_str("locked-records-info")
    } else if str_eq(n, "get-memory-statistics") {
        String::from_str("memory-statistics")
    } else if str_eq(n, "get-monitored-activity") {
        String::from_str("monitored-activity")
    } else if str_eq(n, "get-mouse") {
        String::from_str("mouse-position")
    } else if str_eq(n, "get-restore-information") {
        String::from_str("restore-info")
    } else if str_eq(n, "get-system-info") {
        String::from_str("system-info")
    } else if str_eq(n, "get-table-fragmentation") {
        String::from_str("table-fragmentation")
    } else if str_eq(n, "session-storage-by-id") {
        String::from_str("session-storage")
    } else {
        String::from_str(n)
    }
}

/// The stem names the default reference language and is not an obsolete
/// duplicate.
pub open spec fn spec_stem_included(stem: Seq<char>) -> bool {
    &&& stem.len() >= 2 && match_at(stem, "en"@, stem.len() - 2)
    &&& !match_at(stem, "o-"@, 0)
}

/// What one source file contributes to the metadata mapping: nothing, or a
/// canonical identifier with an optional flag record.
pub open spec fn spec_classify_entry(stem: Seq<char>, content: Seq<char>) -> Option<
    (Seq<char>, Option<Properties>),
> {
    if spec_is_command(content) && spec_stem_included(stem) {
        Some((spec_canonical(spec_command_name(stem)), spec_from(content)))
    } else {
        None
    }
}

/// Classifies one source file, given its file stem and its text.
pub fn classify_entry(stem: &str, content: &str) -> (r: Option<(String, Option<Properties>)>)
    ensures
        match r {
            Some(p) => spec_classify_entry(stem@, content@) == Some((p.0@, p.1)),
            None => spec_classify_entry(stem@, content@) is None,
        },
{
    if !is_command(content) {
        return None;
    }
    let cs = crate::text::chars_of(stem);
    let en = crate::text::chars_of("en");
    let op = crate::text::chars_of("o-");
    proof {
        reveal_strlit("en");
        reveal_strlit("o-");
    }
    let included: bool;
    if cs.len() >= 2 {
        let ends = crate::text::match_at_exec(&cs, &en, cs.len() - 2);
        let starts = crate::text::match_at_exec(&cs, &op, 0);
        included = ends && !starts;
    } else {
        proof {
            reveal_strlit("en");
        }
        included = false;
    }
    if !included {
        return None;
    }
    let name = command_name_of(stem);
    let canonical = canonical_name(name.as_str());
    let record = Properties::from(content);
    Some((canonical, record))
}

/// The record that a corpus assigns to identifier `k`, later files
/// overwriting earlier ones.  Each corpus entry is a file stem with the
/// file's text.
pub open spec fn spec_corpus_lookup(entries: Seq<(String, String)>, k: Seq<char>) -> Option<
    Option<Properties>,
> decreases entries.len(),
{
    if entries.len() == 0 {
        None
    } else {
        match spec_classify_entry(entries.last().0@, entries.last().1@) {
            Some(p) => {
                if p.0 == k {
                    Some(p.1)
                } else {
                    spec_corpus_lookup(entries.drop_last(), k)
                }
            },
            None => spec_corpus_lookup(entries.drop_last(), k),
        }
    }
}

/// Builds the metadata mapping of a corpus: each entry is one file's stem and
/// text, in traversal order.
pub fn classify_corpus(entries: &Vec<(String, String)>) -> (r: Table<Option<Properties>>)
    ensures
        r.well_formed(),
        forall|k: Seq<char>| r.spec_get(k) == spec_corpus_lookup(entries@, k),
{
    let n: usize = entries.len();
    let mut t: Table<Option<Properties>> = Table::new();
    let mut i: usize = 0;
    while i < n
        invariant
            n == entries@.len(),
            0 <= i <= n,
            t.well_formed(),
            forall|k: Seq<char>|
                #[trigger] t.spec_get(k) == spec_corpus_lookup(entries@.subrange(0, i as int), k),
        decreases n - i,
    {
        let ghost pre = entries@.subrange(0, i as int);
        let ghost post = entries@.subrange(0, i + 1);
        proof {
            assert(post.drop_last() =~= pre);
            assert(post.last() == entries@[i as int]);
        }
        match classify_entry(entries[i].0.as_str(), entries[i].1.as_str()) {
            Some(p) => {
                let ghost key = p.0@;
                t.insert(p.0, p.1);
                assert forall|k: Seq<char>| #[trigger]
                    t.spec_get(k) == spec_corpus_lookup(post, k) by {
                        if k != key {
                            assert(t.spec_get(k) == spec_corpus_lookup(pre, k));
                        }
                    }
            },
            None => {
                assert forall|k: Seq<char>| #[trigger]
                    t.spec_get(k) == spec_corpus_lookup(post, k) by {
                        assert(t.spec_get(k) == spec_corpus_lookup(pre, k));
                    }
            },
        }
        i = i + 1;
        proof {
            assert(entries@.subrange(0, i as int) == post);
        }
    }
    proof {
        assert(entries@.subrange(0, n as int) =~= entries@);
    }
    t
}

} // verus!
