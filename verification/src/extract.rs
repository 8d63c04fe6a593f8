//! Extraction of the numeric command id from loosely structured text.
//!
//! The id is introduced by the fixed label `Number`, followed by at most one
//! whitespace character, a colon, any run of whitespace, and a run of decimal
//! digits.  The leftmost such occurrence wins and the digit run is read
//! greedily.  A digit run whose value does not fit in `usize` counts as
//! unparseable and yields 0, as does text without any labelled number.
use vstd::prelude::*;
use crate::text::match_at;

verus! {

/// Whitespace, as the extraction grammar understands it.
pub open spec fn is_space(c: char) -> bool {
    c == ' ' || c == '\t' || c == '\n' || c == '\r' || c == '\u{b}' || c == '\u{c}'
}

/// A decimal digit.
pub open spec fn is_digit(c: char) -> bool {
    '0' <= c && c <= '9'
}

/// Index of the colon of a label occurrence starting at `i`: right after the
/// label, or one position later when a single whitespace character intervenes.
pub open spec fn colon_of(s: Seq<char>, i: int) -> int {
    if i + 6 < s.len() && s[i + 6] == ':' {
        i + 6
    } else {
        i + 7
    }
}

/// First index at or after `j` that does not hold whitespace.
pub open spec fn skip_spaces(s: Seq<char>, j: int) -> int
    decreases s.len() - j,
{
    if j < s.len() && is_space(s[j]) {
        skip_spaces(s, j + 1)
    } else {
        j
    }
}

/// Index of the first digit of the number labelled at `i`.
pub open spec fn digit_start(s: Seq<char>, i: int) -> int {
    skip_spaces(s, colon_of(s, i) + 1)
}

/// First index at or after `j` that does not hold a digit.
pub open spec fn digit_end(s: Seq<char>, j: int) -> int
    decreases s.len() - j,
{
    if j < s.len() && is_digit(s[j]) {
        digit_end(s, j + 1)
    } else {
        j
    }
}

/// A full occurrence of the labelled-number pattern starts at `i`.
pub open spec fn id_match_at(s: Seq<char>, i: int) -> bool {
    &&& match_at(s, "Number"@, i)
    &&& {
        let c = colon_of(s, i);
        &&& c < s.len()
        &&& s[c] == ':'
        &&& (c == i + 6 || (i + 6 < s.len() && is_space(s[i + 6])))
        &&& {
            let d = digit_start(s, i);
            d < s.len() && is_digit(s[d])
        }
    }
}

/// The start of the leftmost occurrence at or after `j`, if any.
pub open spec fn first_id_match_from(s: Seq<char>, j: int) -> Option<int>
    decreases s.len() - j,
{
    if j >= s.len() {
        None
    } else if id_match_at(s, j) {
        Some(j)
    } else {
        first_id_match_from(s, j + 1)
    }
}

/// Value of a digit sequence read in base ten.
pub open spec fn dec_value(w: Seq<char>) -> nat
    decreases w.len(),
{
    if w.len() == 0 {
        0
    } else {
        (dec_value(w.drop_last()) * 10 + (w.last() as int - 48)) as nat
    }
}

/// The extracted command id of `s`: the value of the digit run of the
/// leftmost labelled number, or 0 when there is none or the value does not
/// fit in `usize`.
pub open spec fn spec_command_id(s: Seq<char>) -> nat {
    match first_id_match_from(s, 0) {
        None => 0,
        Some(i) => {
            let d = digit_start(s, i);
            let v = dec_value(s.subrange(d, digit_end(s, d)));
            if v > usize::MAX as nat {
                0
            } else {
                v
            }
        },
    }
}

/// Without any occurrence of the pattern there is no leftmost one.
pub proof fn lemma_first_none(s: Seq<char>, j: int)
    requires
        forall|k: int| j <= k < s.len() ==> !id_match_at(s, k),
    ensures
        first_id_match_from(s, j) is None,
    decreases s.len() - j,
{
    if j < s.len() {
        lemma_first_none(s, j + 1);
    }
}

proof fn lemma_first_some(s: Seq<char>, j: int, i: int)
    requires
        0 <= j <= i < s.len(),
        id_match_at(s, i),
        forall|k: int| j <= k < i ==> !id_match_at(s, k),
    ensures
        first_id_match_from(s, j) == Some(i),
    decreases s.len() - j,
{
    if j < i {
        lemma_first_some(s, j + 1, i);
    }
}

/// Checks for a labelled number starting at `i` and returns the index of its
/// first digit.
fn try_label_at(s: &Vec<char>, pat_number: &Vec<char>, i: usize) -> (r: Option<usize>)
    requires
        pat_number@ == "Number"@,
        i < s@.len(),
    ensures
        match r {
            Some(d) => id_match_at(s@, i as int) && d as int == digit_start(s@, i as int) && (i as int)
                + 6 < d <= s@.len() && d < s@.len(),
            None => !id_match_at(s@, i as int),
        },
{
    proof {
        reveal_strlit("Number");
    }
    let n: usize = s.len();
    if n - i < 6 {
        assert(!match_at(s@, "Number"@, i as int));
        return None;
    }
    if !crate::text::match_at_exec(s, pat_number, i) {
        return None;
    }
    let c: usize;
    if i + 6 < n && s[i + 6] == ':' {
        c = i + 6;
    } else if i + 6 < n && is_space_exec(s[i + 6]) && i + 7 < n && s[i + 7] == ':' {
        c = i + 7;
    } else {
        return None;
    }
    assert(c as int == colon_of(s@, i as int));
    let mut j: usize = c + 1;
    while j < n && is_space_exec(s[j])
        invariant
            n == s@.len(),
            c + 1 <= j <= n,
            skip_spaces(s@, c + 1) == skip_spaces(s@, j as int),
        decreases n - j,
    {
        assert(skip_spaces(s@, j as int) == skip_spaces(s@, j + 1));
        j = j + 1;
    }
    assert(skip_spaces(s@, j as int) == j);
    if j < n && is_digit_exec(s[j]) {
        Some(j)
    } else {
        None
    }
}

fn is_space_exec(c: char) -> (r: bool)
    ensures
        r == is_space(c),
{
    c == ' ' || c == '\t' || c == '\n' || c == '\r' || c == '\u{b}' || c == '\u{c}'
}

fn is_digit_exec(c: char) -> (r: bool)
    ensures
        r == is_digit(c),
{
    '0' <= c && c <= '9'
}

/// Reads the digit run starting at `d` and yields its value, or 0 when the
/// value does not fit in `usize`.
fn read_digits(s: &Vec<char>, d: usize) -> (v: usize)
    requires
        d < s@.len(),
        is_digit(s@[d as int]),
    ensures
        v as nat == ({
            let w = dec_value(s@.subrange(d as int, digit_end(s@, d as int)));
            if w > usize::MAX as nat {
                0
            } else {
                w
            }
        }),
{
    let n: usize = s.len();
    let mut j: usize = d;
    let mut v: usize = 0;
    let mut over: bool = false;
    while j < n && is_digit_exec(s[j])
        invariant
            n == s@.len(),
            d <= j <= n,
            digit_end(s@, d as int) == digit_end(s@, j as int),
            !over ==> v as nat == dec_value(s@.subrange(d as int, j as int)),
            over ==> dec_value(s@.subrange(d as int, j as int)) > usize::MAX as nat,
        decreases n - j,
    {
        let dig: usize = ((s[j] as u32) - 48) as usize;
        assert(dig <= 9);
        proof {
            assert(s@.subrange(d as int, j + 1).drop_last() =~= s@.subrange(d as int, j as int));
            assert(dec_value(s@.subrange(d as int, j + 1)) == dec_value(
                s@.subrange(d as int, j as int),
            ) * 10 + dig);
        }
        if !over {
            if v > (usize::MAX - dig) / 10 {
                proof {
                    let m = (usize::MAX - dig) as int;
                    assert(v * 10 > m) by (nonlinear_arith)
                        requires
                            v > m / 10,
                            m >= 0,
                    ;
                }
                over = true;
            } else {
                proof {
                    let m = (usize::MAX - dig) as int;
                    assert(v * 10 <= m) by (nonlinear_arith)
                        requires
                            v <= m / 10,
                            m >= 0,
                    ;
                }
                v = v * 10 + dig;
            }
        }
        assert(digit_end(s@, j as int) == digit_end(s@, j + 1));
        j = j + 1;
    }
    assert(digit_end(s@, j as int) == j);
    if over {
        0
    } else {
        v
    }
}

/// Extracts the command id of `s`: the leftmost labelled number, read
/// greedily, with 0 standing for "none found or out of range".
pub fn extract_command_id(s: &Vec<char>) -> (id: usize)
    ensures
        id as nat == spec_command_id(s@),
{
    let pat_number = crate::text::chars_of("Number");
    let n: usize = s.len();
    let mut i: usize = 0;
    while i < n
        invariant
            n == s@.len(),
            pat_number@ == "Number"@,
            0 <= i <= n,
            forall|k: int| 0 <= k < i ==> !id_match_at(s@, k),
        decreases n - i,
    {
        match try_label_at(s, &pat_number, i) {
            Some(d) => {
                proof {
                    lemma_first_some(s@, 0, i as int);
                }
                let v = read_digits(s, d);
                return v;
            },
            None => {
            },
        }
        i = i + 1;
    }
    proof {
        lemma_first_none(s@, 0);
    }
    0
}

} // verus!
