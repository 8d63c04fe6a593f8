//! In-place update of documentation pages: stripping a previously injected
//! properties block, detecting the page language from its path, and the
//! per-file update step.
//!
//! A previously injected block is recognized by its two structural markers:
//! the heading opener (a blank line followed by a level-four heading) and the
//! table skeleton (the blank header row and the separator row).  Stripping
//! truncates the page at the last position where both match, so appending a
//! fresh block right after stripping is idempotent.
use vstd::prelude::*;
use vstd::string::StringExecFns;
use crate::props::Properties;
use crate::render::Translation;
use crate::render::spec_display;
use crate::table::Table;
use crate::text::match_at;

verus! {

/// The heading opener of an injected block.
pub open spec fn heading_marker() -> Seq<char> {
    "\n\n#### "@
}

/// The table skeleton of an injected block: the blank header row and the
/// separator row.
pub open spec fn skeleton_marker() -> Seq<char> {
    "|  |  |\n| --- | --- |\n"@
}

/// First index at or after `j` that holds a newline, or the length.
pub open spec fn line_end(s: Seq<char>, j: int) -> int
    decreases s.len() - j,
{
    if j < s.len() && s[j] != '\n' {
        line_end(s, j + 1)
    } else {
        j
    }
}

/// An injected block starts at `i`: the heading opener, one heading line,
/// a blank line, and the table skeleton.
pub open spec fn block_start_at(s: Seq<char>, i: int) -> bool {
    &&& match_at(s, heading_marker(), i)
    &&& {
        let h = line_end(s, i + 7);
        match_at(s, "\n\n"@, h) && match_at(s, skeleton_marker(), h + 2)
    }
}

/// The last block start at or before `j`, if any.
pub open spec fn last_block_start_from(s: Seq<char>, j: int) -> Option<int>
    decreases j + 1,
{
    if j < 0 {
        None
    } else if block_start_at(s, j) {
        Some(j)
    } else {
        last_block_start_from(s, j - 1)
    }
}

/// The page with any previously injected block removed: everything from the
/// last block start on is cut off.
pub open spec fn spec_strip(s: Seq<char>) -> Seq<char> {
    match last_block_start_from(s, s.len() - 1) {
        Some(i) => s.subrange(0, i),
        None => s,
    }
}

proof fn lemma_lbs_none(s: Seq<char>, j: int)
    requires
        forall|k: int| 0 <= k <= j ==> !block_start_at(s, k),
    ensures
        last_block_start_from(s, j) is None,
    decreases j + 1,
{
    if j >= 0 {
        lemma_lbs_none(s, j - 1);
    }
}

proof fn lemma_lbs_some(s: Seq<char>, j: int, i: int)
    requires
        0 <= i <= j,
        block_start_at(s, i),
        forall|k: int| i < k <= j ==> !block_start_at(s, k),
    ensures
        last_block_start_from(s, j) == Some(i),
    decreases j + 1,
{
    if j > i {
        lemma_lbs_some(s, j - 1, i);
    }
}

/// A page without any block start is left alone by stripping.
pub proof fn lemma_strip_of_clean(s: Seq<char>)
    requires
        forall|i: int| !block_start_at(s, i),
    ensures
        spec_strip(s) == s,
{
    lemma_lbs_none(s, s.len() - 1);
}

/// Whether an injected block starts at `i`, checked on the characters.
fn block_start_at_exec(
    s: &Vec<char>,
    hdr: &Vec<char>,
    skel: &Vec<char>,
    nn: &Vec<char>,
    i: usize,
) -> (r: bool)
    requires
        hdr@ == heading_marker(),
        skel@ == skeleton_marker(),
        nn@ == "\n\n"@,
        i < s@.len(),
    ensures
        r == block_start_at(s@, i as int),
{
    proof {
        reveal_strlit("\n\n#### ");
        reveal_strlit("|  |  |\n| --- | --- |\n");
        reveal_strlit("\n\n");
    }
    let n: usize = s.len();
    if n - i < 7 {
        return false;
    }
    if !crate::text::match_at_exec(s, hdr, i) {
        return false;
    }
    let mut h: usize = i + 7;
    while h < n && s[h] != '\n'
        invariant
            n == s@.len(),
            i + 7 <= h <= n,
            line_end(s@, i + 7) == line_end(s@, h as int),
        decreases n - h,
    {
        assert(line_end(s@, h as int) == line_end(s@, h + 1));
        h = h + 1;
    }
    assert(line_end(s@, h as int) == h);
    if n - h < 2 {
        return false;
    }
    if !crate::text::match_at_exec(s, nn, h) {
        return false;
    }
    if n - (h + 2) < 22 {
        return false;
    }
    crate::text::match_at_exec(s, skel, h + 2)
}

proof fn lemma_match_at_shift(c: Seq<char>, b: Seq<char>, pat: Seq<char>, i: int)
    requires
        c.len() <= i,
    ensures
        match_at(c + b, pat, i) == match_at(b, pat, i - c.len()),
{
    let s = c + b;
    let off = c.len() as int;
    if match_at(s, pat, i) {
        assert forall|j: int| 0 <= j < pat.len() implies b[i - off + j] == pat[j] by {
            assert(s[i + j] == pat[j]);
        }
    }
    if match_at(b, pat, i - off) {
        assert forall|j: int| 0 <= j < pat.len() implies s[i + j] == pat[j] by {
            assert(b[i - off + j] == pat[j]);
        }
    }
}

proof fn lemma_line_end_ge(s: Seq<char>, j: int)
    ensures
        line_end(s, j) >= j,
        j <= s.len() ==> line_end(s, j) <= s.len(),
    decreases s.len() - j,
{
    if j < s.len() && s[j] != '\n' {
        lemma_line_end_ge(s, j + 1);
    }
}

proof fn lemma_line_end_shift(c: Seq<char>, b: Seq<char>, j: int)
    requires
        c.len() <= j <= c.len() + b.len(),
    ensures
        line_end(c + b, j) == c.len() + line_end(b, j - c.len()),
    decreases c.len() + b.len() - j,
{
    let s = c + b;
    let off = c.len() as int;
    if j < s.len() {
        assert(s[j] == b[j - off]);
        if s[j] != '\n' {
            lemma_line_end_shift(c, b, j + 1);
        }
    }
}

proof fn lemma_block_start_shift(c: Seq<char>, b: Seq<char>, i: int)
    requires
        c.len() <= i,
    ensures
        block_start_at(c + b, i) == block_start_at(b, i - c.len()),
{
    let s = c + b;
    let off = c.len() as int;
    lemma_match_at_shift(c, b, heading_marker(), i);
    if match_at(b, heading_marker(), i - off) {
        reveal_strlit("\n\n#### ");
        assert(i + 7 <= s.len());
        lemma_line_end_shift(c, b, i + 7);
        let h = line_end(s, i + 7);
        lemma_line_end_ge(b, i - off + 7);
        assert(h == off + line_end(b, i - off + 7));
        lemma_match_at_shift(c, b, "\n\n"@, h);
        lemma_match_at_shift(c, b, skeleton_marker(), h + 2);
    }
}

/// A block in the injected shape: the stripper recognizes it at its start
/// and nowhere inside it.
pub open spec fn wf_block(b: Seq<char>) -> bool {
    &&& block_start_at(b, 0)
    &&& forall|i: int| i >= 1 ==> !block_start_at(b, i)
}

/// Stripping takes back exactly the well-formed block that was appended.
pub proof fn lemma_strip_extracts(c: Seq<char>, b: Seq<char>)
    requires
        wf_block(b),
    ensures
        spec_strip(c + b) == c,
{
    let s = c + b;
    reveal_strlit("\n\n#### ");
    assert(b.len() >= 7);
    lemma_block_start_shift(c, b, c.len() as int);
    assert(block_start_at(s, c.len() as int));
    assert forall|k: int| c.len() < k <= s.len() - 1 implies !block_start_at(s, k) by {
        lemma_block_start_shift(c, b, k);
    }
    lemma_lbs_some(s, s.len() - 1, c.len() as int);
    assert(s.subrange(0, c.len() as int) =~= c);
}

proof fn lemma_line_end_at(s: Seq<char>, j: int, h: int)
    requires
        0 <= j <= h <= s.len(),
        forall|m: int| j <= m < h ==> s[m] != '\n',
        h == s.len() || s[h] == '\n',
    ensures
        line_end(s, j) == h,
    decreases h - j,
{
    if j < h {
        lemma_line_end_at(s, j + 1, h);
    }
}

/// A block made of the heading opener, one newline-free heading line, a blank
/// line, a run of table rows opening with the skeleton, and a closing blank
/// line is recognized by the stripper at its start.
proof fn lemma_block_shape_start(heading: Seq<char>, body: Seq<char>)
    requires
        crate::render::newline_free(heading),
        crate::render::line_block(body),
        match_at(body, skeleton_marker(), 0),
    ensures
        block_start_at(heading_marker() + heading + "\n\n"@ + body + "\n\n"@, 0),
{
    reveal_strlit("\n\n#### ");
    reveal_strlit("\n\n");
    reveal_strlit("|  |  |\n| --- | --- |\n");
    let hdr = heading_marker();
    let nn = "\n\n"@;
    let b = hdr + heading + nn + body + nn;
    let hl = heading.len() as int;
    let bl = body.len() as int;
    let q = 7 + hl;
    let r0 = q + 2;
    let r1 = r0 + bl;
    assert(b.len() == r1 + 2);
    assert forall|m: int| 0 <= m < 7 implies b[m] == hdr[m] by {}
    assert forall|m: int| 7 <= m < q implies b[m] == heading[m - 7] by {}
    assert(b[q] == nn[0]);
    assert(b[q + 1] == nn[1]);
    assert(match_at(b, hdr, 0));
    lemma_line_end_at(b, 7, q);
    assert(match_at(b, nn, q));
    assert forall|j: int| 0 <= j < 22 implies b[r0 + j] == skeleton_marker()[j] by {
        assert(b[r0 + j] == body[j]);
        assert(body[j] == skeleton_marker()[j]);
    }
    assert(match_at(b, skeleton_marker(), r0));
}

/// Inside a block of the injected shape no position after the start looks
/// like the heading opener: nowhere stand two newlines followed by a hash.
#[verifier::rlimit(100)]
proof fn lemma_no_inner_hdr(heading: Seq<char>, body: Seq<char>, i: int)
    requires
        crate::render::newline_free(heading),
        crate::render::line_block(body),
        i >= 1,
        i + 7 <= (heading_marker() + heading + "\n\n"@ + body + "\n\n"@).len(),
    ensures
        !((heading_marker() + heading + "\n\n"@ + body + "\n\n"@)[i] == '\n' && (heading_marker()
            + heading + "\n\n"@ + body + "\n\n"@)[i + 1] == '\n' && (heading_marker() + heading
            + "\n\n"@ + body + "\n\n"@)[i + 2] == '#'),
{
    reveal_strlit("\n\n#### ");
    reveal_strlit("\n\n");
    let hdr = heading_marker();
    let nn = "\n\n"@;
    let b = hdr + heading + nn + body + nn;
    let hl = heading.len() as int;
    let bl = body.len() as int;
    let q = 7 + hl;
    let r0 = q + 2;
    let r1 = r0 + bl;
    assert(b.len() == r1 + 2);
    if b[i] == '\n' && b[i + 1] == '\n' && b[i + 2] == '#' {
        if i < 7 {
            if i == 1 {
                assert(b[2] == hdr[2]);
            } else {
                assert(b[i] == hdr[i]);
            }
        } else if i < q {
            assert(b[i] == heading[i - 7]);
            assert(heading[i - 7] != '\n');
        } else if i == q {
            assert(b[i + 2] == body[0]);
            assert(body[0] == '|');
        } else if i == q + 1 {
            assert(b[i + 1] == body[0]);
            assert(body[0] == '|');
        } else if i < r1 {
            let m = i - r0;
            assert(b[i] == body[m]);
            assert(body[m] == '\n');
            assert(crate::render::nl_at(body, m));
            if m == bl - 1 {
                assert(b[i + 2] == nn[1]);
            } else {
                assert(body[m + 1] == '|');
                assert(b[i + 1] == body[m + 1]);
            }
        } else {
            assert(false);
        }
    }
}

proof fn lemma_no_inner_start(heading: Seq<char>, body: Seq<char>, i: int)
    requires
        crate::render::newline_free(heading),
        crate::render::line_block(body),
        i >= 1,
    ensures
        !block_start_at(heading_marker() + heading + "\n\n"@ + body + "\n\n"@, i),
{
    let hdr = heading_marker();
    let nn = "\n\n"@;
    let b = hdr + heading + nn + body + nn;
    if block_start_at(b, i) {
        reveal_strlit("\n\n#### ");
        assert(match_at(b, hdr, i));
        assert(i + 7 <= b.len());
        assert(b[i + 0] == hdr[0] && b[i + 1] == hdr[1] && b[i + 2] == hdr[2]);
        assert(b[i] == '\n' && b[i + 1] == '\n' && b[i + 2] == '#');
        lemma_no_inner_hdr(heading, body, i);
    }
}

/// And the stripper recognizes such a block nowhere inside it.
proof fn lemma_block_shape_unique(heading: Seq<char>, body: Seq<char>)
    requires
        crate::render::newline_free(heading),
        crate::render::line_block(body),
    ensures
        forall|i: int|
            i >= 1 ==> !block_start_at(heading_marker() + heading + "\n\n"@ + body + "\n\n"@, i),
{
    assert forall|i: int| i >= 1 implies !block_start_at(
        heading_marker() + heading + "\n\n"@ + body + "\n\n"@,
        i,
    ) by {
        lemma_no_inner_start(heading, body, i);
    }
}

/// A block rendered from well-formed labels is recognized by the stripper
/// exactly at its start.
pub proof fn lemma_rendered_block_wf(p: Properties, t: Translation)
    requires
        t.well_formed(),
    ensures
        wf_block(crate::render::spec_block(p, t)),
{
    crate::render::lemma_table_body_line_block(p, t);
    lemma_block_shape_start(t.properties@, crate::render::spec_table_body(p, t));
    lemma_block_shape_unique(t.properties@, crate::render::spec_table_body(p, t));
    assert(crate::render::spec_block(p, t) == heading_marker() + t.properties@ + "\n\n"@
        + crate::render::spec_table_body(p, t) + "\n\n"@);
}

/// Stripping then injecting is idempotent: a page updated twice with the same
/// record and labels reads exactly as a page updated once.
pub proof fn lemma_update_idempotent(content: Seq<char>, p: Properties, t: Translation)
    requires
        t.well_formed(),
    ensures
        spec_strip(spec_strip(content) + crate::render::spec_block(p, t))
            + crate::render::spec_block(p, t) == spec_strip(content) + crate::render::spec_block(
            p,
            t,
        ),
{
    lemma_rendered_block_wf(p, t);
    lemma_strip_extracts(spec_strip(content), crate::render::spec_block(p, t));
}

/// Removes a previously injected block: the page is truncated at the last
/// block start, and left alone when there is none.
pub fn strip_block(content: &str) -> (r: String)
    ensures
        r@ == spec_strip(content@),
{
    let mut cs = crate::text::chars_of(content);
    let hdr = crate::text::chars_of("\n\n#### ");
    let skel = crate::text::chars_of("|  |  |\n| --- | --- |\n");
    let nn = crate::text::chars_of("\n\n");
    let n: usize = cs.len();
    let mut found: Option<usize> = None;
    let mut i: usize = 0;
    while i < n
        invariant
            n == cs@.len(),
            cs@ == content@,
            hdr@ == heading_marker(),
            skel@ == skeleton_marker(),
            nn@ == "\n\n"@,
            0 <= i <= n,
            match found {
                Some(f) => f < i && block_start_at(content@, f as int) && forall|k: int|
                    f < k < i ==> !block_start_at(content@, k),
                None => forall|k: int| 0 <= k < i ==> !block_start_at(content@, k),
            },
        decreases n - i,
    {
        if block_start_at_exec(&cs, &hdr, &skel, &nn, i) {
            found = Some(i);
        }
        i = i + 1;
    }
    match found {
        Some(f) => {
            proof {
                lemma_lbs_some(content@, content@.len() - 1, f as int);
            }
            cs.truncate(f);
            crate::text::string_of(&cs)
        },
        None => {
            proof {
                lemma_lbs_none(content@, content@.len() - 1);
            }
            crate::text::string_of(&cs)
        },
    }
}

/// The language code found in a path: the two characters sitting five
/// positions after the start of the first localization-root marker, when the
/// marker is there and the path is long enough.
pub open spec fn spec_detected_language(path: Seq<char>) -> Option<Seq<char>> {
    match crate::text::first_match_from(path, "i18n"@, 0) {
        Some(p) => if p + 7 <= path.len() {
            Some(path.subrange(p + 5, p + 7))
        } else {
            None
        },
        None => None,
    }
}

/// The language assumed for a page: the one its path names, or the one
/// carried over from the previous page of the same pattern expansion.
pub open spec fn spec_new_language(path: Seq<char>, current: Seq<char>) -> Seq<char> {
    match spec_detected_language(path) {
        Some(l) => l,
        None => current,
    }
}

/// Reads the language code off a path, if the localization-root marker is
/// there.
pub fn detect_language(path: &str) -> (r: Option<String>)
    ensures
        match r {
            Some(l) => spec_detected_language(path@) == Some(l@),
            None => spec_detected_language(path@) is None,
        },
{
    let cs = crate::text::chars_of(path);
    let marker = crate::text::chars_of("i18n");
    match crate::text::find_first(&cs, &marker) {
        Some(p) => {
            proof {
                reveal_strlit("i18n");
                crate::text::lemma_first_match_some(path@, "i18n"@, 0, p as int);
            }
            let n: usize = cs.len();
            if n - p >= 7 {
                let mut l = String::new();
                crate::text::push_char(&mut l, cs[p + 5]);
                crate::text::push_char(&mut l, cs[p + 6]);
                assert(l@ =~= path@.subrange(p + 5, p + 7));
                Some(l)
            } else {
                None
            }
        },
        None => {
            proof {
                reveal_strlit("i18n");
                crate::text::lemma_first_match_none(path@, "i18n"@, 0);
            }
            None
        },
    }
}

/// The content a page is rewritten with: the page is stripped of any earlier
/// block, and the freshly rendered block (or nothing, for an unknown language
/// or an identifier without a record) is appended.
pub open spec fn spec_new_content(
    path: Seq<char>,
    stem: Seq<char>,
    content: Seq<char>,
    language: Seq<char>,
    translations: Table<Translation>,
    properties: Table<Option<Properties>>,
) -> Seq<char> {
    let lang = spec_new_language(path, language);
    let name = crate::classify::spec_command_name(stem);
    match spec_display(lang, name, translations, properties) {
        Some(d) => spec_strip(content) + d,
        None => spec_strip(content),
    }
}

/// Updates one page: detects its language (falling back on the carried one),
/// strips any earlier block, and appends the freshly rendered block when its
/// command has a record.  Yields the language to carry over and the new page
/// content.
pub fn process_file(
    path: &str,
    stem: &str,
    content: &str,
    language: &str,
    translations: &Table<Translation>,
    properties: &Table<Option<Properties>>,
) -> (r: (String, String))
    requires
        translations.well_formed(),
        properties.well_formed(),
    ensures
        r.0@ == spec_new_language(path@, language@),
        r.1@ == spec_new_content(
            path@,
            stem@,
            content@,
            language@,
            *translations,
            *properties,
        ),
{
    let lang: String = match detect_language(path) {
        Some(l) => l,
        None => String::from_str(language),
    };
    let name = crate::classify::command_name_of(stem);
    let mut stripped = strip_block(content);
    match crate::render::build_property_to_display(
        lang.as_str(),
        name.as_str(),
        translations,
        properties,
    ) {
        Some(d) => {
            stripped.append(d.as_str());
            (lang, stripped)
        },
        None => (lang, stripped),
    }
}

} // verus!
