//! Rendering of a flag record as a localized two-column markdown table, and
//! the lookup that decides what a documentation page gets appended.
use vstd::prelude::*;
use vstd::string::StringExecFns;
use crate::props::Properties;
use crate::table::Table;
use crate::text::match_at;

verus! {

/// One language's labels, one per rendered table row.
#[derive(Clone, Debug)]
pub struct Translation {
    pub command_number: String,
    pub thread_safe: String,
    pub modifies_variables: String,
    pub changes_current_record: String,
    pub changes_current_selection: String,
    pub forbidden_on_server: String,
    pub comma: String,
    pub properties: String,
}

/// No newline anywhere in `s`.
pub open spec fn newline_free(s: Seq<char>) -> bool {
    forall|i: int| 0 <= i < s.len() ==> s[i] != '\n'
}

impl Translation {
    /// Labels fit on one table row: none of them holds a newline.
    pub open spec fn well_formed(&self) -> bool {
        &&& newline_free(self.command_number@)
        &&& newline_free(self.thread_safe@)
        &&& newline_free(self.modifies_variables@)
        &&& newline_free(self.changes_current_record@)
        &&& newline_free(self.changes_current_selection@)
        &&& newline_free(self.forbidden_on_server@)
        &&& newline_free(self.comma@)
        &&& newline_free(self.properties@)
    }
}

/// A table row with a label and a value cell.
pub open spec fn row2(label: Seq<char>, value: Seq<char>) -> Seq<char> {
    "| "@ + label + " | "@ + value + " |\n"@
}

/// A table row with a label and an empty second cell.
pub open spec fn row1(label: Seq<char>) -> Seq<char> {
    "| "@ + label + " ||\n"@
}

/// The thread-safety glyph: a checkmark or a cross.
pub open spec fn check_glyph(preemptive: bool) -> Seq<char> {
    if preemptive {
        "&check;"@
    } else {
        "&cross;"@
    }
}

/// The names of the modified variables, joined by the language's separator.
pub open spec fn spec_var_list(p: Properties, comma: Seq<char>) -> Seq<char> {
    let l0: Seq<char> = if p.modify_ok {
        "OK"@
    } else {
        Seq::empty()
    };
    let l1: Seq<char> = if p.modify_document {
        if l0.len() > 0 {
            l0 + comma + "Document"@
        } else {
            "Document"@
        }
    } else {
        l0
    };
    if p.modify_error {
        if l1.len() > 0 {
            l1 + comma + "error"@
        } else {
            "error"@
        }
    } else {
        l1
    }
}

/// The rendered table: a blank header, the separator line, the always-present
/// id and thread-safety rows, and one conditional row per remaining flag.
pub open spec fn spec_table_body(p: Properties, t: Translation) -> Seq<char> {
    "|  |  |\n"@ + "| --- | --- |\n"@ + row2(
        t.command_number@,
        crate::text::dec_digits(p.command_id as nat),
    ) + row2(t.thread_safe@, check_glyph(p.preemptive)) + (if p.modify_ok || p.modify_document
        || p.modify_error {
        row2(t.modifies_variables@, spec_var_list(p, t.comma@))
    } else {
        Seq::empty()
    }) + (if p.modify_record {
        row1(t.changes_current_record@)
    } else {
        Seq::empty()
    }) + (if p.modify_selection {
        row1(t.changes_current_selection@)
    } else {
        Seq::empty()
    }) + (if p.not_for_server {
        row1(t.forbidden_on_server@)
    } else {
        Seq::empty()
    })
}

/// The block injected into a documentation page: a level-four heading with
/// the localized section title, then the rendered table, framed by blank
/// lines.
pub open spec fn spec_block(p: Properties, t: Translation) -> Seq<char> {
    "\n\n#### "@ + t.properties@ + "\n\n"@ + spec_table_body(p, t) + "\n\n"@
}

fn append_row2(out: &mut String, label: &str, value: &str)
    ensures
        final(out)@ == old(out)@ + row2(label@, value@),
{
    out.append("| ");
    out.append(label);
    out.append(" | ");
    out.append(value);
    out.append(" |\n");
    assert(out@ =~= old(out)@ + row2(label@, value@));
}

fn append_row1(out: &mut String, label: &str)
    ensures
        final(out)@ == old(out)@ + row1(label@),
{
    out.append("| ");
    out.append(label);
    out.append(" ||\n");
    assert(out@ =~= old(out)@ + row1(label@));
}

fn var_list(p: &Properties, comma: &str) -> (r: String)
    ensures
        r@ == spec_var_list(*p, comma@),
{
    let mut r = String::new();
    if p.modify_ok {
        r.append("OK");
    }
    if p.modify_document {
        if r.unicode_len() > 0 {
            r.append(comma);
        }
        r.append("Document");
        proof {
            reveal_strlit("OK");
        }
    }
    if p.modify_error {
        if r.unicode_len() > 0 {
            r.append(comma);
        }
        r.append("error");
        proof {
            reveal_strlit("OK");
            reveal_strlit("Document");
        }
    }
    assert(r@ =~= spec_var_list(*p, comma@));
    r
}

impl Properties {
    /// Renders the record as a localized markdown table.
    pub fn to_string(&self, translation: &Translation) -> (r: String)
        ensures
            r@ == spec_table_body(*self, *translation),
    {
        let mut out = String::new();
        out.append("|  |  |\n");
        out.append("| --- | --- |\n");
        let id_str = crate::text::usize_to_string(self.command_id);
        append_row2(&mut out, translation.command_number.as_str(), id_str.as_str());
        if self.preemptive {
            append_row2(&mut out, translation.thread_safe.as_str(), "&check;");
        } else {
            append_row2(&mut out, translation.thread_safe.as_str(), "&cross;");
        }
        if self.modify_ok || self.modify_document || self.modify_error {
            let vars = var_list(self, translation.comma.as_str());
            append_row2(&mut out, translation.modifies_variables.as_str(), vars.as_str());
        }
        if self.modify_record {
            append_row1(&mut out, translation.changes_current_record.as_str());
        }
        if self.modify_selection {
            append_row1(&mut out, translation.changes_current_selection.as_str());
        }
        if self.not_for_server {
            append_row1(&mut out, translation.forbidden_on_server.as_str());
        }
        assert(out@ =~= spec_table_body(*self, *translation));
        out
    }
}

/// Builds the full injected block for one record.
pub fn render_block(p: &Properties, t: &Translation) -> (r: String)
    ensures
        r@ == spec_block(*p, *t),
{
    let mut out = String::new();
    out.append("\n\n#### ");
    out.append(t.properties.as_str());
    out.append("\n\n");
    let body = p.to_string(t);
    out.append(body.as_str());
    out.append("\n\n");
    assert(out@ =~= spec_block(*p, *t));
    out
}

/// The character at `m` is a newline.
pub open spec fn nl_at(x: Seq<char>, m: int) -> bool {
    x[m] == '\n'
}

/// A run of full table rows: it opens with a cell bar, closes with a newline,
/// and every newline is final or followed by the next row's cell bar.
pub open spec fn line_block(x: Seq<char>) -> bool {
    &&& x.len() >= 2
    &&& x[0] == '|'
    &&& x[x.len() - 1] == '\n'
    &&& forall|m: int|
        0 <= m < x.len() && #[trigger] nl_at(x, m) ==> (m == x.len() - 1 || x[m + 1] == '|')
}

proof fn lemma_nl_free_concat(a: Seq<char>, b: Seq<char>)
    requires
        newline_free(a),
        newline_free(b),
    ensures
        newline_free(a + b),
{
    assert forall|i: int| 0 <= i < (a + b).len() implies (a + b)[i] != '\n' by {
        if i < a.len() {
            assert((a + b)[i] == a[i]);
        } else {
            assert((a + b)[i] == b[i - a.len()]);
        }
    }
}

proof fn lemma_line_block_concat(a: Seq<char>, b: Seq<char>)
    requires
        line_block(a),
        line_block(b),
    ensures
        line_block(a + b),
{
    let x = a + b;
    assert(x[0] == a[0]);
    assert(x[x.len() - 1] == b[b.len() - 1]);
    assert forall|m: int| 0 <= m < x.len() && #[trigger] nl_at(x, m) implies (m == x.len() - 1
        || x[m + 1] == '|') by {
        if m < a.len() {
            assert(x[m] == a[m]);
            assert(nl_at(a, m));
            if m == a.len() - 1 {
                assert(x[m + 1] == b[0]);
            } else {
                assert(x[m + 1] == a[m + 1]);
            }
        } else {
            assert(x[m] == b[m - a.len()]);
            assert(nl_at(b, m - a.len()));
            if m < x.len() - 1 {
                assert(x[m + 1] == b[m - a.len() + 1]);
            }
        }
    }
}

proof fn lemma_row2_line_block(label: Seq<char>, value: Seq<char>)
    requires
        newline_free(label),
        newline_free(value),
    ensures
        line_block(row2(label, value)),
{
    reveal_strlit("| ");
    reveal_strlit(" | ");
    reveal_strlit(" |\n");
    let x = row2(label, value);
    let p0 = "| "@;
    let p1 = " | "@;
    let p2 = " |\n"@;
    assert(x.len() == label.len() + value.len() + 8);
    assert(x[0] == p0[0]);
    assert(x[x.len() - 1] == p2[2]);
    assert forall|m: int| 0 <= m < x.len() && #[trigger] nl_at(x, m) implies (m == x.len() - 1
        || x[m + 1] == '|') by {
        assert(x[m] == '\n');
        if m < 2 {
            assert(x[m] == p0[m]);
        } else if m < 2 + label.len() {
            assert(x[m] == label[m - 2]);
        } else if m < 5 + label.len() {
            assert(x[m] == p1[m - 2 - label.len()]);
        } else if m < 5 + label.len() + value.len() {
            assert(x[m] == value[m - 5 - label.len()]);
        } else {
            assert(x[m] == p2[m - 5 - label.len() - value.len()]);
        }
    }
}

proof fn lemma_row1_line_block(label: Seq<char>)
    requires
        newline_free(label),
    ensures
        line_block(row1(label)),
{
    reveal_strlit("| ");
    reveal_strlit(" ||\n");
    let x = row1(label);
    let p0 = "| "@;
    let p2 = " ||\n"@;
    assert(x.len() == label.len() + 6);
    assert(x[0] == p0[0]);
    assert(x[x.len() - 1] == p2[3]);
    assert forall|m: int| 0 <= m < x.len() && #[trigger] nl_at(x, m) implies (m == x.len() - 1
        || x[m + 1] == '|') by {
        assert(x[m] == '\n');
        if m < 2 {
            assert(x[m] == p0[m]);
        } else if m < 2 + label.len() {
            assert(x[m] == label[m - 2]);
        } else {
            assert(x[m] == p2[m - 2 - label.len()]);
        }
    }
}

proof fn lemma_dec_digits_nl_free(n: nat)
    ensures
        newline_free(crate::text::dec_digits(n)),
    decreases n,
{
    if n >= 10 {
        lemma_dec_digits_nl_free(n / 10);
    }
}

proof fn lemma_var_list_nl_free(p: Properties, comma: Seq<char>)
    requires
        newline_free(comma),
    ensures
        newline_free(spec_var_list(p, comma)),
{
    reveal_strlit("OK");
    reveal_strlit("Document");
    reveal_strlit("error");
    let l0: Seq<char> = if p.modify_ok {
        "OK"@
    } else {
        Seq::empty()
    };
    assert(newline_free(l0));
    let l1: Seq<char> = if p.modify_document {
        if l0.len() > 0 {
            l0 + comma + "Document"@
        } else {
            "Document"@
        }
    } else {
        l0
    };
    if p.modify_document && l0.len() > 0 {
        lemma_nl_free_concat(l0, comma);
        lemma_nl_free_concat(l0 + comma, "Document"@);
    }
    assert(newline_free(l1));
    if p.modify_error && l1.len() > 0 {
        lemma_nl_free_concat(l1, comma);
        lemma_nl_free_concat(l1 + comma, "error"@);
    }
    assert(newline_free(spec_var_list(p, comma)));
}

/// A rendered table is a run of full rows, opening with the skeleton.
pub proof fn lemma_table_body_line_block(p: Properties, t: Translation)
    requires
        t.well_formed(),
    ensures
        line_block(spec_table_body(p, t)),
        match_at(spec_table_body(p, t), "|  |  |\n| --- | --- |\n"@, 0),
{
    reveal_strlit("|  |  |\n");
    reveal_strlit("| --- | --- |\n");
    reveal_strlit("&check;");
    reveal_strlit("&cross;");
    reveal_strlit("|  |  |\n| --- | --- |\n");
    let l1 = "|  |  |\n"@;
    let l2 = "| --- | --- |\n"@;
    assert(line_block(l1)) by {
        assert forall|m: int| 0 <= m < l1.len() && #[trigger] nl_at(l1, m) implies m == l1.len()
            - 1 by {
            assert(l1[m] == '\n');
        }
    }
    assert(line_block(l2)) by {
        assert forall|m: int| 0 <= m < l2.len() && #[trigger] nl_at(l2, m) implies m == l2.len()
            - 1 by {
            assert(l2[m] == '\n');
        }
    }
    lemma_line_block_concat(l1, l2);
    lemma_dec_digits_nl_free(p.command_id as nat);
    lemma_row2_line_block(t.command_number@, crate::text::dec_digits(p.command_id as nat));
    let r_id = row2(t.command_number@, crate::text::dec_digits(p.command_id as nat));
    lemma_line_block_concat(l1 + l2, r_id);
    assert(newline_free(check_glyph(p.preemptive)));
    lemma_row2_line_block(t.thread_safe@, check_glyph(p.preemptive));
    let r_ts = row2(t.thread_safe@, check_glyph(p.preemptive));
    lemma_line_block_concat(l1 + l2 + r_id, r_ts);
    let w0 = l1 + l2 + r_id + r_ts;
    let seg_vars: Seq<char> = if p.modify_ok || p.modify_document || p.modify_error {
        row2(t.modifies_variables@, spec_var_list(p, t.comma@))
    } else {
        Seq::empty()
    };
    if p.modify_ok || p.modify_document || p.modify_error {
        lemma_var_list_nl_free(p, t.comma@);
        lemma_row2_line_block(t.modifies_variables@, spec_var_list(p, t.comma@));
        lemma_line_block_concat(w0, seg_vars);
    } else {
        assert(w0 + seg_vars =~= w0);
    }
    let w1 = w0 + seg_vars;
    assert(line_block(w1));
    let seg_rec: Seq<char> = if p.modify_record {
        row1(t.changes_current_record@)
    } else {
        Seq::empty()
    };
    if p.modify_record {
        lemma_row1_line_block(t.changes_current_record@);
        lemma_line_block_concat(w1, seg_rec);
    } else {
        assert(w1 + seg_rec =~= w1);
    }
    let w2 = w1 + seg_rec;
    assert(line_block(w2));
    let seg_sel: Seq<char> = if p.modify_selection {
        row1(t.changes_current_selection@)
    } else {
        Seq::empty()
    };
    if p.modify_selection {
        lemma_row1_line_block(t.changes_current_selection@);
        lemma_line_block_concat(w2, seg_sel);
    } else {
        assert(w2 + seg_sel =~= w2);
    }
    let w3 = w2 + seg_sel;
    assert(line_block(w3));
    let seg_srv: Seq<char> = if p.not_for_server {
        row1(t.forbidden_on_server@)
    } else {
        Seq::empty()
    };
    if p.not_for_server {
        lemma_row1_line_block(t.forbidden_on_server@);
        lemma_line_block_concat(w3, seg_srv);
    } else {
        assert(w3 + seg_srv =~= w3);
    }
    let w4 = w3 + seg_srv;
    assert(line_block(w4));
    assert(spec_table_body(p, t) == w4);
    let skel = "|  |  |\n| --- | --- |\n"@;
    assert forall|j: int| 0 <= j < skel.len() implies w4[j] == skel[j] by {
        assert(w4[j] == (l1 + l2)[j]);
        if j < l1.len() {
            assert((l1 + l2)[j] == l1[j]);
        } else {
            assert((l1 + l2)[j] == l2[j - l1.len()]);
        }
    }
    assert(match_at(w4, skel, 0));
}

/// What a documentation page gets appended: the localized block when the
/// identifier has a record and the language has labels; the empty text when
/// the identifier has no record; nothing at all when a record exists but the
/// language is unknown.
pub open spec fn spec_display(
    lang: Seq<char>,
    name: Seq<char>,
    translations: Table<Translation>,
    properties: Table<Option<Properties>>,
) -> Option<Seq<char>> {
    match properties.spec_get(name) {
        Some(Some(p)) => match translations.spec_get(lang) {
            Some(t) => Some(spec_block(p, t)),
            None => None,
        },
        _ => Some(Seq::<char>::empty()),
    }
}

/// Renders the block for one documentation page, by language and command
/// identifier.
pub fn build_property_to_display(
    language: &str,
    command_name: &str,
    list_translations: &Table<Translation>,
    list_properties: &Table<Option<Properties>>,
) -> (r: Option<String>)
    requires
        list_translations.well_formed(),
        list_properties.well_formed(),
    ensures
        match r {
            Some(s) => spec_display(language@, command_name@, *list_translations, *list_properties)
                == Some(s@),
            None => spec_display(language@, command_name@, *list_translations, *list_properties)
                is None,
        },
{
    match list_properties.get(command_name) {
        Some(rec) => match rec {
            Some(p) => {
                let p = *p;
                match list_translations.get(language) {
                    Some(t) => {
                        let block = render_block(&p, t);
                        Some(block)
                    },
                    None => None,
                }
            },
            None => {
                let r = String::new();
                assert(r@ =~= Seq::<char>::empty());
                Some(r)
            },
        },
        None => {
            let r = String::new();
            assert(r@ =~= Seq::<char>::empty());
            Some(r)
        },
    }
}

} // verus!
