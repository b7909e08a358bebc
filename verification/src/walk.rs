//! The upward directory walk that collects property files.
//!
//! The filesystem is read outside this crate: the caller lists, for the
//! root directory and each parent in turn, the entries it could read (an
//! unreadable level contributes an empty listing rather than aborting the
//! walk). Here stands the walk's whole decision logic: which entries are
//! collected, and where the walk stops.
//!
//! A level that holds a stop-marker name (a repository-root indicator) is
//! the last level scanned: its own recognized files are still collected,
//! but no parent level past it contributes anything. The walk is also
//! bounded by an explicit maximum depth.

use vstd::prelude::*;

use crate::text::str_eq;

verus! {

/// One directory entry as the caller listed it.
#[derive(Debug, Clone)]
pub struct DirEntryInfo {
    pub name: String,
    pub is_file: bool,
}

pub ghost struct DirEntryInfoView {
    pub name: Seq<char>,
    pub is_file: bool,
}

impl View for DirEntryInfo {
    type V = DirEntryInfoView;

    open spec fn view(&self) -> DirEntryInfoView {
        DirEntryInfoView { name: self.name@, is_file: self.is_file }
    }
}

/// One directory level of the walk: its path and its entries, the root
/// first, each parent after it.
#[derive(Debug, Clone)]
pub struct DirLevel {
    pub path: String,
    pub entries: Vec<DirEntryInfo>,
}

pub ghost struct DirLevelView {
    pub path: Seq<char>,
    pub entries: Seq<DirEntryInfoView>,
}

impl View for DirLevel {
    type V = DirLevelView;

    open spec fn view(&self) -> DirLevelView {
        DirLevelView { path: self.path@, entries: self.entries@.map_values(|e: DirEntryInfo| e@) }
    }
}

pub open spec fn in_names(n: Seq<char>, names: Seq<Seq<char>>) -> bool {
    exists|i: int| 0 <= i < names.len() && names[i] == n
}

pub open spec fn joined_path(dir: Seq<char>, name: Seq<char>) -> Seq<char> {
    dir + "/"@ + name
}

/// An entry is collected when it is a file with a recognized name; an
/// entry bearing a stop-marker name is never collected, whatever else
/// holds of it.
pub open spec fn entry_collected(
    e: DirEntryInfoView,
    stops: Seq<Seq<char>>,
    files: Seq<Seq<char>>,
) -> bool {
    !in_names(e.name, stops) && e.is_file && in_names(e.name, files)
}

/// The full paths of the collected entries of one level, in listing order.
pub open spec fn level_files(
    entries: Seq<DirEntryInfoView>,
    dir: Seq<char>,
    stops: Seq<Seq<char>>,
    files: Seq<Seq<char>>,
) -> Seq<Seq<char>>
    decreases entries.len(),
{
    if entries.len() == 0 {
        Seq::empty()
    } else {
        (if entry_collected(entries[0], stops, files) {
            seq![joined_path(dir, entries[0].name)]
        } else {
            Seq::empty()
        }) + level_files(entries.skip(1), dir, stops, files)
    }
}

/// Whether a level holds a stop marker.
pub open spec fn level_has_stop(level: DirLevelView, stops: Seq<Seq<char>>) -> bool {
    exists|i: int| 0 <= i < level.entries.len() && in_names(level.entries[i].name, stops)
}

/// Every path the walk yields: the levels' collected files in level order,
/// ending with the first stop-marker level (inclusive) or after `max`
/// levels, whichever comes first.
pub open spec fn spec_walk(
    levels: Seq<DirLevelView>,
    stops: Seq<Seq<char>>,
    files: Seq<Seq<char>>,
    max: nat,
) -> Seq<Seq<char>>
    decreases levels.len(),
{
    if levels.len() == 0 || max == 0 {
        Seq::empty()
    } else {
        let f = level_files(levels[0].entries, levels[0].path, stops, files);
        if level_has_stop(levels[0], stops) {
            f
        } else {
            f + spec_walk(levels.skip(1), stops, files, (max - 1) as nat)
        }
    }
}

/// The stop law: levels above the first stop-marker level contribute
/// nothing — the walk over all levels equals the walk over the levels up
/// to and including that one.
pub proof fn lemma_walk_stops_at_marker(
    levels: Seq<DirLevelView>,
    stops: Seq<Seq<char>>,
    files: Seq<Seq<char>>,
    max: nat,
    j: int,
)
    requires
        0 <= j < levels.len(),
        j < max,
        level_has_stop(levels[j], stops),
        forall|k: int| 0 <= k < j ==> !level_has_stop(levels[k], stops),
    ensures
        spec_walk(levels, stops, files, max) == spec_walk(
            levels.take(j + 1),
            stops,
            files,
            max,
        ),
    decreases j,
{
    let short = levels.take(j + 1);
    if j == 0 {
        assert(short[0] == levels[0]);
    } else {
        assert(short[0] == levels[0]);
        assert(!level_has_stop(levels[0], stops));
        assert(levels.skip(1).take(j) =~= short.skip(1));
        lemma_walk_stops_at_marker(levels.skip(1), stops, files, (max - 1) as nat, j - 1);
    }
}

/// The recognized property-file names: a fixed, closed set.
pub fn prop_file_names() -> (r: Vec<String>)
    ensures
        r@.map_values(|s: String| s@) =~= seq![".env"@, ".env.example"@],
{
    let mut r: Vec<String> = Vec::new();
    r.push(".env".to_owned());
    r.push(".env.example".to_owned());
    r
}

/// The recognized stop-marker names: a fixed, closed set.
pub fn stop_marker_names() -> (r: Vec<String>)
    ensures
        r@.map_values(|s: String| s@) =~= seq![".git"@],
{
    let mut r: Vec<String> = Vec::new();
    r.push(".git".to_owned());
    r
}

fn name_in(name: &str, names: &Vec<String>) -> (r: bool)
    ensures
        r == in_names(name@, names@.map_values(|s: String| s@)),
{
    let ghost nviews = names@.map_values(|s: String| s@);
    let mut i: usize = 0;
    while i < names.len()
        invariant
            0 <= i <= names.len(),
            nviews == names@.map_values(|s: String| s@),
            forall|k: int| 0 <= k < i ==> nviews[k] != name@,
        decreases names.len() - i,
    {
        if str_eq(names[i].as_str(), name) {
            proof {
                assert(nviews[i as int] == name@);
            }
            return true;
        }
        i = i + 1;
    }
    false
}

/// Scans one level: appends the collected file paths and says whether the
/// level holds a stop marker.
fn collect_level(
    level: &DirLevel,
    stops: &Vec<String>,
    files: &Vec<String>,
    out: &mut Vec<String>,
) -> (stop: bool)
    ensures
        final (out)@.map_values(|s: String| s@) == old(out)@.map_values(|s: String| s@)
            + level_files(
            level@.entries,
            level@.path,
            stops@.map_values(|s: String| s@),
            files@.map_values(|s: String| s@),
        ),
        stop == level_has_stop(level@, stops@.map_values(|s: String| s@)),
{
    let ghost eviews = level.entries@.map_values(|e: DirEntryInfo| e@);
    let ghost sviews = stops@.map_values(|s: String| s@);
    let ghost fviews = files@.map_values(|s: String| s@);
    let ghost dir = level.path@;
    let mut stop = false;
    let mut k: usize = 0;
    proof {
        assert(eviews.skip(0) =~= eviews);
    }
    while k < level.entries.len()
        invariant
            0 <= k <= level.entries.len(),
            eviews == level.entries@.map_values(|e: DirEntryInfo| e@),
            sviews == stops@.map_values(|s: String| s@),
            fviews == files@.map_values(|s: String| s@),
            dir == level.path@,
            stop == exists|i: int| 0 <= i < k && in_names(eviews[i].name, sviews),
            old(out)@.map_values(|s: String| s@) + level_files(eviews, dir, sviews, fviews)
                =~= out@.map_values(|s: String| s@) + level_files(
                eviews.skip(k as int),
                dir,
                sviews,
                fviews,
            ),
        decreases level.entries.len() - k,
    {
        proof {
            assert(eviews.skip(k as int)[0] == eviews[k as int]);
            assert(eviews.skip(k as int).skip(1) =~= eviews.skip(k + 1));
        }
        let e = &level.entries[k];
        if name_in(e.name.as_str(), stops) {
            stop = true;
            proof {
                assert(in_names(eviews[k as int].name, sviews));
            }
        } else if e.is_file && name_in(e.name.as_str(), files) {
            let mut p = level.path.clone();
            p.append("/");
            p.append(e.name.as_str());
            proof {
                assert(p@ =~= joined_path(dir, eviews[k as int].name));
                assert((out@.push(p)).map_values(|s: String| s@) =~= out@.map_values(
                    |s: String| s@,
                ) + seq![p@]);
            }
            out.push(p);
        }
        k = k + 1;
    }
    proof {
        assert(level_files(eviews.skip(k as int), dir, sviews, fviews).len() == 0);
        assert(out@.map_values(|s: String| s@) =~= old(out)@.map_values(|s: String| s@)
            + level_files(eviews, dir, sviews, fviews));
    }
    stop
}

/// The walk over the listed levels, the root first: collects each level's
/// recognized files in order and stops after the first stop-marker level,
/// or after `max_depth` levels.
pub fn traverse_parents(
    levels: &Vec<DirLevel>,
    stop_at_names: &Vec<String>,
    file_names: &Vec<String>,
    max_depth: usize,
) -> (r: Vec<String>)
    ensures
        r@.map_values(|s: String| s@) == spec_walk(
            levels@.map_values(|l: DirLevel| l@),
            stop_at_names@.map_values(|s: String| s@),
            file_names@.map_values(|s: String| s@),
            max_depth as nat,
        ),
{
    let ghost lviews = levels@.map_values(|l: DirLevel| l@);
    let ghost sviews = stop_at_names@.map_values(|s: String| s@);
    let ghost fviews = file_names@.map_values(|s: String| s@);
    let mut r: Vec<String> = Vec::new();
    let mut i: usize = 0;
    proof {
        assert(lviews.skip(0) =~= lviews);
        assert(r@.map_values(|s: String| s@) =~= Seq::<Seq<char>>::empty());
    }
    while i < levels.len() && i < max_depth
        invariant
            0 <= i <= levels.len(),
            i <= max_depth,
            lviews == levels@.map_values(|l: DirLevel| l@),
            sviews == stop_at_names@.map_values(|s: String| s@),
            fviews == file_names@.map_values(|s: String| s@),
            spec_walk(lviews, sviews, fviews, max_depth as nat) =~= r@.map_values(|s: String| s@)
                + spec_walk(lviews.skip(i as int), sviews, fviews, (max_depth - i) as nat),
        decreases levels.len() - i,
    {
        proof {
            assert(lviews.skip(i as int)[0] == lviews[i as int]);
            assert(lviews.skip(i as int).skip(1) =~= lviews.skip(i + 1));
        }
        let stop = collect_level(&levels[i], stop_at_names, file_names, &mut r);
        if stop {
            return r;
        }
        i = i + 1;
    }
    proof {
        if i < levels@.len() {
            assert((max_depth - i) as nat == 0);
        } else {
            assert(lviews.skip(i as int).len() == 0);
        }
    }
    r
}

} // verus!
