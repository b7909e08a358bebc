//! The property-file definition provider.
//!
//! The provider is built once from a point-in-time snapshot of property
//! files (the filesystem walk that collects them lives outside this crate)
//! and serves hover requests: given buffer text and a UTF-16 position it
//! resolves the identifier token covering that position and renders every
//! definition of that name, in file order.
//!
//! Parsing policy: lines are trimmed of surrounding ASCII whitespace; a
//! line without `=` defines nothing; a line with one splits at the first
//! `=` into a trimmed name and a trimmed value. Duplicate names are kept,
//! never deduplicated or shadowed.

use vstd::prelude::*;

use crate::caps::{opt_view, CapabilitySet, CapabilitySetView};
use crate::diag::Position;
use crate::handlers::{Handler, HandlerError};
use crate::text::{
    is_word_char, spec_lines, spec_trim, split_lines, str_eq, trim_str,
    until_char_len, utf16_units, utf16_units_of, word_char, lemma_until_char_len_is,
};

verus! {

/// One name/value pair found in a property file.
#[derive(Debug, Clone, PartialEq)]
pub struct Definition {
    pub from_path: String,
    pub name: String,
    pub value: String,
}

pub ghost struct DefinitionView {
    pub from_path: Seq<char>,
    pub name: Seq<char>,
    pub value: Seq<char>,
}

impl View for Definition {
    type V = DefinitionView;

    open spec fn view(&self) -> DefinitionView {
        DefinitionView { from_path: self.from_path@, name: self.name@, value: self.value@ }
    }
}

/// A property file handed in as a snapshot: its path and its text.
#[derive(Debug, Clone)]
pub struct PropFile {
    pub path: String,
    pub contents: String,
}

pub ghost struct PropFileView {
    pub path: Seq<char>,
    pub contents: Seq<char>,
}

impl View for PropFile {
    type V = PropFileView;

    open spec fn view(&self) -> PropFileView {
        PropFileView { path: self.path@, contents: self.contents@ }
    }
}

/// The definitions one line contributes: none without `=`, else the pair
/// split at the first `=`, both sides trimmed.
pub open spec fn defs_of_line(path: Seq<char>, l: Seq<char>) -> Seq<DefinitionView> {
    let t = spec_trim(l);
    let k = until_char_len(t, '=') as int;
    if k >= t.len() {
        Seq::empty()
    } else {
        seq![
            DefinitionView {
                from_path: path,
                name: spec_trim(t.take(k)),
                value: spec_trim(t.skip(k + 1)),
            },
        ]
    }
}

pub open spec fn defs_of_lines(path: Seq<char>, lines: Seq<Seq<char>>) -> Seq<DefinitionView>
    decreases lines.len(),
{
    if lines.len() == 0 {
        Seq::empty()
    } else {
        defs_of_line(path, lines[0]) + defs_of_lines(path, lines.skip(1))
    }
}

/// Every definition in one property file, in line order.
pub open spec fn defs_of_file(f: PropFileView) -> Seq<DefinitionView> {
    defs_of_lines(f.path, spec_lines(f.contents))
}

/// Every definition across the files, in file order then line order.
pub open spec fn defs_of_files(fs: Seq<PropFileView>) -> Seq<DefinitionView>
    decreases fs.len(),
{
    if fs.len() == 0 {
        Seq::empty()
    } else {
        defs_of_file(fs[0]) + defs_of_files(fs.skip(1))
    }
}

/// The definitions bearing the given name, in collection order.
pub open spec fn defs_named(defs: Seq<DefinitionView>, name: Seq<char>) -> Seq<DefinitionView>
    decreases defs.len(),
{
    if defs.len() == 0 {
        Seq::empty()
    } else {
        (if defs[0].name == name {
            seq![defs[0]]
        } else {
            Seq::empty()
        }) + defs_named(defs.skip(1), name)
    }
}

/// One definition rendered for hover text.
pub open spec fn render_def(d: DefinitionView) -> Seq<char> {
    d.from_path + "\n"@ + d.name + " = "@ + d.value
}

pub open spec fn rest_render(defs: Seq<DefinitionView>) -> Seq<char>
    decreases defs.len(),
{
    if defs.len() == 0 {
        Seq::empty()
    } else {
        "\n\n"@ + render_def(defs[0]) + rest_render(defs.skip(1))
    }
}

/// The definitions rendered one per block, blocks joined by a blank line.
pub open spec fn spec_render(defs: Seq<DefinitionView>) -> Seq<char> {
    if defs.len() == 0 {
        Seq::empty()
    } else {
        render_def(defs[0]) + rest_render(defs.skip(1))
    }
}

/// Index of the first character of the given zero-based line: the position
/// just past that line's count of newlines, or the text's end when it has
/// fewer lines.
pub open spec fn start_of_line(s: Seq<char>, line: nat) -> nat
    decreases line, s.len(),
{
    if line == 0 || s.len() == 0 {
        0
    } else if s[0] == '\n' {
        (1 + start_of_line(s.skip(1), (line - 1) as nat)) as nat
    } else {
        (1 + start_of_line(s.skip(1), line)) as nat
    }
}

/// The token scan over the slice from the target line onward. From index
/// `i`, with `fv` the candidate token start, `units` the UTF-16 code units
/// seen so far and `col` the target column, it yields the final candidate
/// start, the index the scan stopped at, and the units seen: the scan stops
/// at the first non-token character at or past the target column, moving
/// the candidate start past every non-token character seen before it.
pub open spec fn scan_token(t: Seq<char>, i: nat, fv: nat, units: nat, col: nat) -> (nat, nat, nat)
    decreases t.len() - i,
{
    if i >= t.len() {
        (fv, i, units)
    } else if !is_word_char(t[i as int]) {
        if units >= col {
            (fv, i, units)
        } else {
            scan_token(t, i + 1, i + 1, units + utf16_units(t[i as int]), col)
        }
    } else {
        scan_token(t, i + 1, fv, units + utf16_units(t[i as int]), col)
    }
}

/// The token covering the target position, if any: the scan must stop on a
/// nonempty span and the target column must fall inside the scanned text.
pub open spec fn spec_token(s: Seq<char>, line: nat, col: nat) -> Option<Seq<char>> {
    let t = s.skip(start_of_line(s, line) as int);
    let r = scan_token(t, 0, 0, 0, col);
    if r.0 < r.1 && r.2 > col {
        Some(t.subrange(r.0 as int, r.1 as int))
    } else {
        None
    }
}

/// What hover answers: the rendered definitions of the token under the
/// position, or nothing when there is no token or no definition.
pub open spec fn spec_hover(
    defs: Seq<DefinitionView>,
    s: Seq<char>,
    line: nat,
    col: nat,
) -> Option<Seq<char>> {
    match spec_token(s, line, col) {
        None => None,
        Some(name) => {
            let ms = defs_named(defs, name);
            if ms.len() == 0 {
                None
            } else {
                Some(spec_render(ms))
            }
        },
    }
}

/// Index of the first character of the target line, by scanning for
/// newlines; the text's end when it has fewer lines.
fn line_start(s: &str, line: u32) -> (r: usize)
    ensures
        r == start_of_line(s@, line as nat),
        r <= s@.len(),
{
    let n = s.unicode_len();
    let mut i: usize = 0;
    let mut cur: u32 = 0;
    proof {
        assert(s@.skip(0) =~= s@);
    }
    while i < n && cur < line
        invariant
            0 <= i <= n,
            n == s@.len(),
            cur <= line,
            start_of_line(s@, line as nat) == i + start_of_line(
                s@.skip(i as int),
                (line - cur) as nat,
            ),
        decreases n - i,
    {
        proof {
            assert(s@.skip(i as int)[0] == s@[i as int]);
            assert(s@.skip(i as int).skip(1) =~= s@.skip(i + 1));
        }
        let c = s.get_char(i);
        if c == '\n' {
            cur = cur + 1;
        }
        i = i + 1;
    }
    i
}

/// Runs the token scan; yields the candidate start, the stop index, and a
/// unit count capped just above the target column (the cap keeps the count
/// in machine range and preserves every comparison with the column).
fn scan_token_exec(t: &str, col: u32) -> (r: (usize, usize, u64))
    ensures
        ({
            let res = scan_token(t@, 0, 0, 0, col as nat);
            r.0 == res.0 && r.1 == res.1 && r.0 <= r.1 <= t@.len() && ((r.2 > col as u64) == (res.2
                > col as nat))
        }),
{
    let n = t.unicode_len();
    let colp1: u64 = col as u64 + 1;
    let mut i: usize = 0;
    let mut fv: usize = 0;
    let mut units: u64 = 0;
    let ghost mut units_full: nat = 0;
    while i < n && (word_char(t.get_char(i)) || units < col as u64)
        invariant
            0 <= fv <= i <= n,
            n == t@.len(),
            colp1 == col as u64 + 1,
            scan_token(t@, 0, 0, 0, col as nat) == scan_token(
                t@,
                i as nat,
                fv as nat,
                units_full,
                col as nat,
            ),
            units_full <= colp1 ==> units == units_full,
            units_full > colp1 ==> units == colp1,
        decreases n - i,
    {
        let c = t.get_char(i);
        let u = utf16_units_of(c);
        if !word_char(c) {
            fv = i + 1;
        }
        proof {
            units_full = units_full + utf16_units(t@[i as int]);
        }
        if units + u as u64 > colp1 {
            units = colp1;
        } else {
            units = units + u as u64;
        }
        i = i + 1;
    }
    (fv, i, units)
}

fn clone_def(d: &Definition) -> (r: Definition)
    ensures
        r@ == d@,
{
    Definition {
        from_path: d.from_path.clone(),
        name: d.name.clone(),
        value: d.value.clone(),
    }
}

/// Appends one rendered definition: its source path, a line break, then
/// `name = value`.
fn append_def(r: &mut String, d: &Definition)
    ensures
        final (r)@ == old(r)@ + render_def(d@),
{
    r.append(d.from_path.as_str());
    r.append("\n");
    r.append(d.name.as_str());
    r.append(" = ");
    r.append(d.value.as_str());
    proof {
        assert(r@ =~= old(r)@ + render_def(d@));
    }
}

/// Renders the definitions one per block, blocks joined by a blank line.
fn render(defs: &Vec<Definition>) -> (r: String)
    requires
        defs@.len() > 0,
    ensures
        r@ == spec_render(defs@.map_values(|d: Definition| d@)),
{
    let ghost dviews = defs@.map_values(|d: Definition| d@);
    let mut r = String::new();
    append_def(&mut r, &defs[0]);
    proof {
        assert(r@ =~= render_def(dviews[0]));
    }
    let mut i: usize = 1;
    while i < defs.len()
        invariant
            1 <= i <= defs.len(),
            dviews == defs@.map_values(|d: Definition| d@),
            spec_render(dviews) =~= r@ + rest_render(dviews.skip(i as int)),
        decreases defs.len() - i,
    {
        proof {
            assert(dviews.skip(i as int)[0] == dviews[i as int]);
            assert(dviews.skip(i as int).skip(1) =~= dviews.skip(i + 1));
        }
        r.append("\n\n");
        append_def(&mut r, &defs[i]);
        i = i + 1;
    }
    proof {
        assert(rest_render(dviews.skip(i as int)).len() == 0);
        assert(spec_render(dviews) =~= r@);
    }
    r
}

/// Parses one line of a property file.
fn parse_line(path: &String, l: &str) -> (r: Option<Definition>)
    ensures
        match r {
            Some(d) => seq![d@] == defs_of_line(path@, l@),
            None => defs_of_line(path@, l@).len() == 0,
        },
{
    let t = trim_str(l);
    let n = t.unicode_len();
    let mut k: usize = 0;
    while k < n && t.get_char(k) != '='
        invariant
            n == t@.len(),
            0 <= k <= n,
            forall|j: int| 0 <= j < k ==> t@[j] != '=',
        decreases n - k,
    {
        k = k + 1;
    }
    proof {
        lemma_until_char_len_is(t@, '=', k as int);
    }
    if k >= n {
        None
    } else {
        let name = trim_str(t.substring_char(0, k)).to_owned();
        let value = trim_str(t.substring_char(k + 1, n)).to_owned();
        proof {
            assert(t@.subrange(0, k as int) =~= t@.take(k as int));
            assert(t@.subrange(k + 1, n as int) =~= t@.skip(k + 1));
        }
        Some(Definition { from_path: path.clone(), name, value })
    }
}

/// Parses every file's lines into definitions, in file order then line
/// order, duplicates kept.
fn parse_files(files: &Vec<PropFile>) -> (r: Vec<Definition>)
    ensures
        r@.map_values(|d: Definition| d@) == defs_of_files(files@.map_values(|f: PropFile| f@)),
{
    let ghost fviews = files@.map_values(|f: PropFile| f@);
    let mut r: Vec<Definition> = Vec::new();
    let mut i: usize = 0;
    proof {
        assert(fviews.skip(0) =~= fviews);
        assert(r@.map_values(|d: Definition| d@) =~= Seq::<DefinitionView>::empty());
    }
    while i < files.len()
        invariant
            0 <= i <= files.len(),
            fviews == files@.map_values(|f: PropFile| f@),
            defs_of_files(fviews) =~= r@.map_values(|d: Definition| d@) + defs_of_files(
                fviews.skip(i as int),
            ),
        decreases files.len() - i,
    {
        proof {
            assert(fviews.skip(i as int).skip(1) =~= fviews.skip(i + 1));
        }
        let file = &files[i];
        let lines = split_lines(file.contents.as_str());
        let ghost lviews = lines@.map_values(|l: String| l@);
        let mut j: usize = 0;
        proof {
            assert(lviews.skip(0) =~= lviews);
        }
        while j < lines.len()
            invariant
                0 <= j <= lines.len(),
                lviews == lines@.map_values(|l: String| l@),
                lviews == spec_lines(files@.map_values(|f: PropFile| f@)[i as int].contents),
                0 <= i < files.len(),
                fviews == files@.map_values(|f: PropFile| f@),
                defs_of_files(fviews) =~= r@.map_values(|d: Definition| d@) + defs_of_lines(
                    fviews[i as int].path,
                    lviews.skip(j as int),
                ) + defs_of_files(fviews.skip(i + 1)),
                files@[i as int].path@ == fviews[i as int].path,
                file.path@ == fviews[i as int].path,
            decreases lines.len() - j,
        {
            proof {
                assert(lviews.skip(j as int).skip(1) =~= lviews.skip(j + 1));
            }
            if let Some(d) = parse_line(&file.path, lines[j].as_str()) {
                proof {
                    assert((r@.push(d)).map_values(|x: Definition| x@) =~= r@.map_values(
                        |x: Definition| x@,
                    ) + seq![d@]);
                    assert(seq![d@] == defs_of_line(fviews[i as int].path, lviews[j as int]));
                }
                r.push(d);
            }
            proof {
                let p = fviews[i as int].path;
                assert(lviews.skip(j as int)[0] == lviews[j as int]);
                assert(defs_of_lines(p, lviews.skip(j as int)) =~= defs_of_line(
                    p,
                    lviews[j as int],
                ) + defs_of_lines(p, lviews.skip(j + 1)));
                assert(lviews[j as int] == lines@[j as int]@);
                assert(p == files@[i as int].path@);
                assert(defs_of_files(fviews) =~= r@.map_values(|d: Definition| d@)
                    + defs_of_lines(p, lviews.skip(j + 1)) + defs_of_files(fviews.skip(i + 1)));
            }
            j = j + 1;
        }
        proof {
            assert(defs_of_lines(fviews[i as int].path, lviews.skip(lines@.len() as int)).len()
                == 0);
        }
        i = i + 1;
    }
    proof {
        assert(defs_of_files(fviews.skip(i as int)).len() == 0);
        assert(defs_of_files(fviews) =~= r@.map_values(|d: Definition| d@));
    }
    r
}

/// The provider: the paths it was built from and every definition they
/// hold, in file order.
#[derive(Debug)]
pub struct PropsHandler {
    prop_files: Vec<String>,
    definitions: Vec<Definition>,
}

pub ghost struct PropsHandlerView {
    pub prop_files: Seq<Seq<char>>,
    pub definitions: Seq<DefinitionView>,
}

impl View for PropsHandler {
    type V = PropsHandlerView;

    closed spec fn view(&self) -> PropsHandlerView {
        PropsHandlerView {
            prop_files: self.prop_files@.map_values(|p: String| p@),
            definitions: self.definitions@.map_values(|d: Definition| d@),
        }
    }
}

impl Default for PropsHandler {
    /// A provider over no files and no definitions.
    fn default() -> (r: PropsHandler)
        ensures
            r@.prop_files.len() == 0,
            r@.definitions.len() == 0,
    {
        let r = PropsHandler { prop_files: Vec::new(), definitions: Vec::new() };
        proof {
            assert(r@.prop_files =~= Seq::<Seq<char>>::empty());
            assert(r@.definitions =~= Seq::<DefinitionView>::empty());
        }
        r
    }
}

impl PropsHandler {
    /// Builds the index from a snapshot of property files: every
    /// `name=value` line of every file becomes a definition, duplicates
    /// kept in file order.
    pub fn new(files: Vec<PropFile>) -> (r: PropsHandler)
        ensures
            r@.prop_files == files@.map_values(|f: PropFile| f@.path),
            r@.definitions == defs_of_files(files@.map_values(|f: PropFile| f@)),
    {
        let definitions = parse_files(&files);
        let mut prop_files: Vec<String> = Vec::new();
        let mut i: usize = 0;
        while i < files.len()
            invariant
                0 <= i <= files.len(),
                prop_files@.map_values(|p: String| p@) =~= files@.take(i as int).map_values(
                    |f: PropFile| f@.path,
                ),
            decreases files.len() - i,
        {
            proof {
                assert(files@.take(i + 1).map_values(|f: PropFile| f@.path) =~= files@.take(
                    i as int,
                ).map_values(|f: PropFile| f@.path) + seq![files@[i as int].path@]);
                assert((prop_files@ + seq![files@[i as int].path]).map_values(|p: String| p@)
                    =~= prop_files@.map_values(|p: String| p@) + seq![files@[i as int].path@]);
            }
            prop_files.push(files[i].path.clone());
            i = i + 1;
        }
        proof {
            assert(files@.take(files@.len() as int) =~= files@);
        }
        let r = PropsHandler { prop_files, definitions };
        r
    }

    /// The definitions bearing the given name, in collection order.
    pub fn lookup(&self, name: &str) -> (r: Vec<Definition>)
        ensures
            r@.map_values(|d: Definition| d@) == defs_named(self@.definitions, name@),
    {
        let ghost dviews = self.definitions@.map_values(|d: Definition| d@);
        let mut r: Vec<Definition> = Vec::new();
        let mut i: usize = 0;
        proof {
            assert(dviews.skip(0) =~= dviews);
            assert(r@.map_values(|d: Definition| d@) =~= Seq::<DefinitionView>::empty());
        }
        while i < self.definitions.len()
            invariant
                0 <= i <= self.definitions.len(),
                dviews == self.definitions@.map_values(|d: Definition| d@),
                defs_named(dviews, name@) =~= r@.map_values(|d: Definition| d@) + defs_named(
                    dviews.skip(i as int),
                    name@,
                ),
            decreases self.definitions.len() - i,
        {
            proof {
                assert(dviews.skip(i as int).skip(1) =~= dviews.skip(i + 1));
            }
            let d = &self.definitions[i];
            if str_eq(d.name.as_str(), name) {
                let c = clone_def(d);
                proof {
                    assert((r@ + seq![c]).map_values(|x: Definition| x@) =~= r@.map_values(
                        |x: Definition| x@,
                    ) + seq![c@]);
                }
                r.push(c);
            }
            i = i + 1;
        }
        proof {
            assert(defs_named(dviews.skip(i as int), name@).len() == 0);
            assert(defs_named(dviews, name@) =~= r@.map_values(|d: Definition| d@));
        }
        r
    }

    /// Resolves the identifier token covering the position (a zero-based
    /// line and a UTF-16 column) and renders every definition of it; no
    /// token or no definition is no hover, never an error.
    pub fn hover(&self, contents: &str, position: Position) -> (r: Result<
        Option<String>,
        HandlerError,
    >)
        ensures
            r is Ok,
            match r {
                Ok(o) => opt_view(o) == spec_hover(
                    self@.definitions,
                    contents@,
                    position.line as nat,
                    position.character as nat,
                ),
                Err(_) => false,
            },
    {
        let start = line_start(contents, position.line);
        let n = contents.unicode_len();
        let t = contents.substring_char(start, n);
        proof {
            assert(t@ =~= contents@.skip(start as int));
        }
        let (fv, end, units) = scan_token_exec(t, position.character);
        if fv >= end || units <= position.character as u64 {
            return Ok(None);
        }
        let name = t.substring_char(fv, end);
        let ms = self.lookup(name);
        if ms.len() == 0 {
            proof {
                assert(defs_named(self@.definitions, name@).len() == 0);
            }
            Ok(None)
        } else {
            let text = render(&ms);
            Ok(Some(text))
        }
    }
}

impl Handler for PropsHandler {
    /// The definition provider has no filetype restriction: it serves
    /// every document.
    open spec fn spec_supports(&self, filetype: Seq<char>) -> bool {
        true
    }

    open spec fn spec_capabilities(&self) -> CapabilitySetView {
        CapabilitySetView {
            position_encoding: None,
            text_document_sync: None,
            hover_provider: Some("simple"@),
            completion_provider: Some("label-details"@),
            diagnostic_provider: None,
        }
    }

    fn filetype_supported(&self, _filetype: &str) -> (r: bool)
        ensures
            r == self.spec_supports(_filetype@),
    {
        true
    }

    fn get_capabilities(&self) -> (r: CapabilitySet)
        ensures
            r@ == self.spec_capabilities(),
    {
        CapabilitySet {
            position_encoding: None,
            text_document_sync: None,
            hover_provider: Some("simple".to_owned()),
            completion_provider: Some("label-details".to_owned()),
            diagnostic_provider: None,
        }
    }
}

} // verus!
