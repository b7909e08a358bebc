//! The build-tool diagnostics provider.
//!
//! The external tool is run in dry-run mode against a transient copy of the
//! buffer; that invocation happens outside this crate. Here stands the
//! provider's whole decision logic: classifying the outcome and parsing the
//! tool's free-text error output into structured diagnostics.
//!
//! The grammar of the error output is this crate's contract:
//! - the first line reads `<severity-word>: <message-text>`, the severity
//!   word a bare identifier followed by a colon and one blank;
//! - a later line carries the arrow marker and ends with
//!   `:<line-number>:<column-number>`, both one-based;
//! - the resulting range spans exactly one column, `(line-1, col-1)` to
//!   `(line-1, col)`, to underline a single character; that single-character
//!   span is intentional;
//! - if no such pair of lines exists, the output parses to no diagnostics
//!   rather than to a failure;
//! - a number too large for the position type reads as zero, and the
//!   one-based to zero-based shift saturates at zero.

use vstd::prelude::*;

use crate::caps::{CapabilitySet, CapabilitySetView};
use crate::diag::{Diagnostic, DiagnosticView, Position, Severity};
use crate::handlers::Handler;
use crate::text::{
    blank_char, cap_u32, digit_char, digit_suffix_len, digits_val, is_blank_char, is_digit_char,
    is_word_char, lemma_digit_suffix_len_is, lemma_word_prefix_len_is, parse_u32_digits,
    spec_lines, split_lines, str_eq, word_char, word_prefix_len,
};

verus! {

/// The first line of an error report: a word, a colon, one blank, then the
/// message.
pub open spec fn sev_header_ok(l: Seq<char>) -> bool {
    let k = word_prefix_len(l) as int;
    0 < k && k + 1 < l.len() && l[k] == ':' && is_blank_char(l[k + 1])
}

pub open spec fn header_severity(l: Seq<char>) -> Seq<char> {
    l.take(word_prefix_len(l) as int)
}

pub open spec fn header_message(l: Seq<char>) -> Seq<char> {
    l.skip(word_prefix_len(l) as int + 2)
}

/// The three-character arrow marker stands at position `i`.
pub open spec fn marker_at(l: Seq<char>, i: int) -> bool {
    0 <= i && i + 3 <= l.len() && l[i] == '—' && l[i + 1] == '—' && l[i + 2] == '▶'
}

pub open spec fn has_marker(l: Seq<char>) -> bool {
    exists|i: int| marker_at(l, i)
}

/// A location line: it carries the arrow marker and ends with
/// `:<digits>:<digits>`.
pub open spec fn loc_line_ok(l: Seq<char>) -> bool {
    has_marker(l) && {
        let c1 = digit_suffix_len(l) as int;
        0 < c1 && c1 < l.len() && l[l.len() - c1 - 1] == ':' && {
            let m = l.take(l.len() - c1 - 1);
            let c2 = digit_suffix_len(m) as int;
            0 < c2 && c2 < m.len() && m[m.len() - c2 - 1] == ':'
        }
    }
}

/// The one-based line number a location line ends with.
pub open spec fn loc_line_num(l: Seq<char>) -> nat {
    let c1 = digit_suffix_len(l) as int;
    let m = l.take(l.len() - c1 - 1);
    let c2 = digit_suffix_len(m) as int;
    cap_u32(digits_val(m.skip(m.len() - c2)))
}

/// The one-based column number a location line ends with.
pub open spec fn loc_col_num(l: Seq<char>) -> nat {
    let c1 = digit_suffix_len(l) as int;
    cap_u32(digits_val(l.skip(l.len() - c1)))
}

/// The first location line at or after index `from`, or the number of
/// lines when there is none.
pub open spec fn first_loc_line(lines: Seq<Seq<char>>, from: int) -> int
    decreases lines.len() - from when 0 <= from <= lines.len()
{
    if from >= lines.len() {
        lines.len() as int
    } else if loc_line_ok(lines[from]) {
        from
    } else {
        first_loc_line(lines, from + 1)
    }
}

proof fn lemma_first_loc_line_is(lines: Seq<Seq<char>>, from: int, j: int)
    requires
        0 <= from <= j <= lines.len(),
        forall|j2: int| from <= j2 < j ==> !loc_line_ok(lines[j2]),
        j < lines.len() ==> loc_line_ok(lines[j]),
    ensures
        first_loc_line(lines, from) == j,
    decreases j - from,
{
    if from == j {
    } else {
        assert(!loc_line_ok(lines[from]));
        lemma_first_loc_line_is(lines, from + 1, j);
    }
}

/// The severity a severity word maps to: `error` is an error, any other
/// word falls back to `Unknown`.
pub open spec fn spec_severity(w: Seq<char>) -> Severity {
    if w == "error"@ {
        Severity::Error
    } else {
        Severity::Unknown
    }
}

pub fn parse_severity(word: &str) -> (r: Severity)
    ensures
        r == spec_severity(word@),
{
    if str_eq(word, "error") {
        Severity::Error
    } else {
        Severity::Unknown
    }
}

/// The one-based to zero-based shift, saturating at zero.
pub open spec fn sub_one(n: nat) -> nat {
    if n == 0 {
        0
    } else {
        (n - 1) as nat
    }
}

/// The one diagnostic built from the header line and the location line.
pub open spec fn diag_of(h: Seq<char>, l: Seq<char>) -> DiagnosticView {
    let ln = sub_one(loc_line_num(l));
    let col = loc_col_num(l);
    DiagnosticView {
        start: Position { line: ln as u32, character: sub_one(col) as u32 },
        end: Position { line: ln as u32, character: col as u32 },
        severity: spec_severity(header_severity(h)),
        message: header_message(h),
        source: None,
    }
}

/// What the tool's error output parses to: one diagnostic when the
/// header and a location line are found, none otherwise.
pub open spec fn spec_parse_stderr(s: Seq<char>) -> Seq<DiagnosticView> {
    let lines = spec_lines(s);
    if !sev_header_ok(lines[0]) {
        Seq::empty()
    } else {
        let j = first_loc_line(lines, 1);
        if j >= lines.len() {
            Seq::empty()
        } else {
            seq![diag_of(lines[0], lines[j])]
        }
    }
}

/// The parse-miss law: error output none of whose lines carries the arrow
/// marker parses to no diagnostics at all — never to a failure.
pub proof fn lemma_no_marker_no_diagnostics(s: Seq<char>)
    requires
        forall|j: int| 0 <= j < spec_lines(s).len() ==> !has_marker(#[trigger] spec_lines(s)[j]),
    ensures
        spec_parse_stderr(s).len() == 0,
{
    let lines = spec_lines(s);
    if sev_header_ok(lines[0]) {
        assert(forall|j: int| 1 <= j < lines.len() ==> !loc_line_ok(#[trigger] lines[j]));
        lemma_first_loc_line_is(lines, 1, lines.len() as int);
    }
}

/// Whether the line holds the arrow marker anywhere.
fn find_marker(l: &str) -> (r: bool)
    ensures
        r == has_marker(l@),
{
    let n = l.unicode_len();
    if n < 3 {
        return false;
    }
    let mut i: usize = 0;
    while i <= n - 3
        invariant
            3 <= n == l@.len(),
            0 <= i <= n - 2,
            forall|i2: int| 0 <= i2 < i ==> !marker_at(l@, i2),
        decreases n - i,
    {
        if l.get_char(i) == '—' && l.get_char(i + 1) == '—' && l.get_char(i + 2) == '▶' {
            assert(marker_at(l@, i as int));
            return true;
        }
        i = i + 1;
    }
    false
}

/// Checks a line for the marker and the trailing `:<line>:<col>` location,
/// and reads the two numbers.
fn check_loc_line(l: &str) -> (r: Option<(u32, u32)>)
    ensures
        r is Some <==> loc_line_ok(l@),
        r matches Some(p) ==> p.0 == loc_line_num(l@) && p.1 == loc_col_num(l@),
{
    if !find_marker(l) {
        return None;
    }
    let n = l.unicode_len();
    let mut c1: usize = 0;
    while c1 < n && digit_char(l.get_char(n - 1 - c1))
        invariant
            n == l@.len(),
            0 <= c1 <= n,
            forall|j: int| n - c1 <= j < n ==> is_digit_char(l@[j]),
        decreases n - c1,
    {
        c1 = c1 + 1;
    }
    proof {
        lemma_digit_suffix_len_is(l@, c1 as int);
    }
    if c1 == 0 || c1 >= n {
        return None;
    }
    if l.get_char(n - c1 - 1) != ':' {
        return None;
    }
    let m = l.substring_char(0, n - c1 - 1);
    proof {
        assert(m@ =~= l@.take(n - c1 - 1));
    }
    let mn = m.unicode_len();
    let mut c2: usize = 0;
    while c2 < mn && digit_char(m.get_char(mn - 1 - c2))
        invariant
            mn == m@.len(),
            0 <= c2 <= mn,
            forall|j: int| mn - c2 <= j < mn ==> is_digit_char(m@[j]),
        decreases mn - c2,
    {
        c2 = c2 + 1;
    }
    proof {
        lemma_digit_suffix_len_is(m@, c2 as int);
    }
    if c2 == 0 || c2 >= mn {
        return None;
    }
    if m.get_char(mn - c2 - 1) != ':' {
        return None;
    }
    let line_digits = m.substring_char(mn - c2, mn);
    let col_digits = l.substring_char(n - c1, n);
    proof {
        assert(line_digits@ =~= m@.skip(mn - c2));
        assert(col_digits@ =~= l@.skip(n - c1));
    }
    let ln = parse_u32_digits(line_digits);
    let col = parse_u32_digits(col_digits);
    Some((ln, col))
}

/// Parses the first line as `<severity-word>: <message>`.
fn parse_header(h: &str) -> (r: Option<(String, String)>)
    ensures
        r is Some <==> sev_header_ok(h@),
        r matches Some(p) ==> p.0@ == header_severity(h@) && p.1@ == header_message(h@),
{
    let n = h.unicode_len();
    let mut k: usize = 0;
    while k < n && word_char(h.get_char(k))
        invariant
            n == h@.len(),
            0 <= k <= n,
            forall|j: int| 0 <= j < k ==> is_word_char(h@[j]),
        decreases n - k,
    {
        k = k + 1;
    }
    proof {
        lemma_word_prefix_len_is(h@, k as int);
    }
    if k == 0 || k >= n - 1 {
        return None;
    }
    if h.get_char(k) != ':' || !blank_char(h.get_char(k + 1)) {
        return None;
    }
    let sev = h.substring_char(0, k).to_owned();
    let msg = h.substring_char(k + 2, n).to_owned();
    proof {
        assert(sev@ =~= header_severity(h@));
        assert(msg@ =~= header_message(h@));
    }
    Some((sev, msg))
}

/// The build-tool provider. The probed tool version is handed in by the
/// caller that ran the probe; absence of the tool means the provider is
/// never constructed at all.
#[derive(Debug)]
pub struct Just {
    version: String,
}

pub ghost struct JustView {
    pub version: Seq<char>,
}

impl View for Just {
    type V = JustView;

    closed spec fn view(&self) -> JustView {
        JustView { version: self.version@ }
    }
}

impl Just {
    pub fn new(version: String) -> (r: Just)
        ensures
            r@.version == version@,
    {
        Just { version }
    }

    /// The tool version recorded at construction.
    pub fn version(&self) -> (r: &String)
        ensures
            r@ == self@.version,
    {
        &self.version
    }

    /// Parses the tool's standard error into diagnostics: one report when
    /// the two-line pattern is present, none otherwise — an unparseable
    /// output is no diagnostics, never a failure.
    pub fn parse_stderr(contents: &str) -> (r: Vec<Diagnostic>)
        ensures
            r@.map_values(|d: Diagnostic| d@) == spec_parse_stderr(contents@),
            r@.len() <= 1,
    {
        let lines = split_lines(contents);
        let ghost lviews = lines@.map_values(|l: String| l@);
        let header = parse_header(lines[0].as_str());
        match header {
            None => {
                let r: Vec<Diagnostic> = Vec::new();
                proof {
                    assert(r@.map_values(|d: Diagnostic| d@) =~= spec_parse_stderr(contents@));
                }
                r
            },
            Some((sev_word, msg)) => {
                let severity = parse_severity(sev_word.as_str());
                let mut j: usize = 1;
                while j < lines.len()
                    invariant
                        1 <= j <= lines.len(),
                        lviews == lines@.map_values(|l: String| l@),
                        lviews == spec_lines(contents@),
                        forall|j2: int| 1 <= j2 < j ==> !loc_line_ok(lviews[j2]),
                        sev_header_ok(lviews[0]),
                        severity == spec_severity(header_severity(lviews[0])),
                        msg@ == header_message(lviews[0]),
                    decreases lines.len() - j,
                {
                    if let Some((ln, col)) = check_loc_line(lines[j].as_str()) {
                        let line0: u32 = if ln == 0 {
                            0
                        } else {
                            ln - 1
                        };
                        let col0: u32 = if col == 0 {
                            0
                        } else {
                            col - 1
                        };
                        let d = Diagnostic::new(
                            Position::new(line0, col0),
                            Position::new(line0, col),
                            severity,
                            msg,
                        );
                        let mut r: Vec<Diagnostic> = Vec::new();
                        r.push(d);
                        proof {
                            lemma_first_loc_line_is(lviews, 1, j as int);
                            assert(r@.map_values(|x: Diagnostic| x@) =~= seq![d@]);
                            assert(d@ == diag_of(lviews[0], lviews[j as int]));
                        }
                        return r;
                    }
                    j = j + 1;
                }
                let r: Vec<Diagnostic> = Vec::new();
                proof {
                    lemma_first_loc_line_is(lviews, 1, lines@.len() as int);
                    assert(r@.map_values(|d: Diagnostic| d@) =~= spec_parse_stderr(contents@));
                }
                r
            },
        }
    }

    /// On a successful dry run the tool's informational output carries no
    /// diagnosable findings: the list is empty whatever the output holds.
    pub fn parse_stdout(_contents: &str) -> (r: Vec<Diagnostic>)
        ensures
            r@.len() == 0,
    {
        Vec::new()
    }

    /// Classifies a finished tool invocation: a successful exit parses the
    /// standard output (always to no diagnostics), a failing one parses the
    /// standard error.
    pub fn diagnostics_from_output(success: bool, stdout: &str, stderr: &str) -> (r: Vec<
        Diagnostic,
    >)
        ensures
            success ==> r@.len() == 0,
            !success ==> r@.map_values(|d: Diagnostic| d@) == spec_parse_stderr(stderr@),
    {
        if success {
            Self::parse_stdout(stdout)
        } else {
            Self::parse_stderr(stderr)
        }
    }
}

impl Handler for Just {
    open spec fn spec_supports(&self, filetype: Seq<char>) -> bool {
        filetype == "just"@ || filetype == "justfile"@
    }

    open spec fn spec_capabilities(&self) -> CapabilitySetView {
        CapabilitySetView {
            position_encoding: None,
            text_document_sync: None,
            hover_provider: None,
            completion_provider: None,
            diagnostic_provider: Some("options"@),
        }
    }

    fn filetype_supported(&self, filetype: &str) -> (r: bool)
        ensures
            r == self.spec_supports(filetype@),
    {
        str_eq(filetype, "just") || str_eq(filetype, "justfile")
    }

    fn get_capabilities(&self) -> (r: CapabilitySet)
        ensures
            r@ == self.spec_capabilities(),
    {
        CapabilitySet {
            position_encoding: None,
            text_document_sync: None,
            hover_provider: None,
            completion_provider: None,
            diagnostic_provider: Some("options".to_owned()),
        }
    }
}

} // verus!
