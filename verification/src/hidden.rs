//! Which names are hidden, and what a walk over a tree does with each
//! entry that it meets.
//!
//! The patterns of the hidden list are shell globs. What a glob matches is
//! left to the crate `glob`, so that a pattern means here what it means to
//! every other tool that reads such patterns.

use vstd::prelude::*;
use crate::path::{is_here, is_up, segments, seg_views, split_segments};
use crate::text::{
    chars_of, contains_chars, contains_seq, lowercased, slice_chars, string_of, to_lowercase,
};

verus! {

/// Whether a glob pattern is valid and matches a name, as the crate `glob`
/// has it with its default options.
pub uninterp spec fn glob_matches(pattern: Seq<char>, name: Seq<char>) -> bool;

/// `glob::Pattern::new(pattern)` and, where that succeeds, `matches(target)`
/// on it; false for a pattern that is not valid.
#[verifier::external_body]
fn glob(pattern: &str, target: &str) -> (r: bool)
    ensures
        r == glob_matches(pattern@, target@),
{
    match glob::Pattern::new(pattern) {
        Ok(p) => p.matches(target),
        Err(_) => false,
    }
}

/// The glob that a pattern of the hidden list stands for when it is held
/// against an entry: for a directory, a pattern that ends in `/` stands for
/// what is before the slash; every other pattern stands for itself.
pub open spec fn pattern_for(pattern: Seq<char>, is_dir: bool) -> Seq<char> {
    if is_dir && pattern.len() > 0 && pattern.last() == '/' {
        pattern.drop_last()
    } else {
        pattern
    }
}

/// Whether the rule on dot files hides a name.
pub open spec fn hidden_by_dot(posix_hidden: bool, name: Seq<char>) -> bool {
    posix_hidden && name.len() > 0 && name[0] == '.'
}

/// Whether a pattern is for directories only: it ends in `/`.
pub open spec fn for_directories(pattern: Seq<char>) -> bool {
    pattern.len() > 0 && pattern.last() == '/'
}

/// Whether one pattern hides a name. A pattern for directories hides a
/// directory whose name matches what is before the slash, and never hides
/// a file; any other pattern hides what it matches.
pub open spec fn pattern_hides(pattern: Seq<char>, name: Seq<char>, is_dir: bool) -> bool {
    if for_directories(pattern) {
        is_dir && glob_matches(pattern.drop_last(), name)
    } else {
        glob_matches(pattern, name)
    }
}

/// Whether one of the patterns hides a name.
pub open spec fn hidden_by_pattern(hidden: Seq<String>, name: Seq<char>, is_dir: bool) -> bool {
    exists|i: int| 0 <= i < hidden.len() && pattern_hides(#[trigger] hidden[i]@, name, is_dir)
}

/// Whether a name is hidden: by the rule on dot files, or by a pattern.
pub open spec fn hidden_name(
    hidden: Seq<String>,
    posix_hidden: bool,
    name: Seq<char>,
    is_dir: bool,
) -> bool {
    hidden_by_dot(posix_hidden, name) || hidden_by_pattern(hidden, name, is_dir)
}

/// The glob that a pattern of the hidden list stands for.
pub fn glob_of(pattern: &str, is_dir_type: bool) -> (r: String)
    ensures
        r@ == pattern_for(pattern@, is_dir_type),
{
    let chars = chars_of(pattern);
    if is_dir_type && chars.len() > 0 && chars[chars.len() - 1] == '/' {
        let body = slice_chars(chars.as_slice(), 0, chars.len() - 1);
        assert(body@ =~= pattern@.drop_last());
        string_of(body.as_slice())
    } else {
        pattern.to_owned()
    }
}

/// Whether the rule on dot files hides a name.
pub fn starts_with_dot(posix_hidden: bool, file_name: &str) -> (r: bool)
    ensures
        r == hidden_by_dot(posix_hidden, file_name@),
{
    if !posix_hidden {
        return false;
    }
    let chars = chars_of(file_name);
    chars.len() > 0 && chars[0] == '.'
}

/// Whether a pattern is for directories only.
pub fn is_for_directories(pattern: &str) -> (r: bool)
    ensures
        r == for_directories(pattern@),
{
    let chars = chars_of(pattern);
    chars.len() > 0 && chars[chars.len() - 1] == '/'
}

/// Whether a name is hidden.
pub fn is_hidden(hidden: &[String], posix_hidden: bool, file_name: &str, is_dir_type: bool) -> (r:
    bool)
    ensures
        r == hidden_name(hidden@, posix_hidden, file_name@, is_dir_type),
        hidden@.len() == 0 && !posix_hidden ==> !r,
{
    if starts_with_dot(posix_hidden, file_name) {
        return true;
    }
    let mut i: usize = 0;
    while i < hidden.len()
        invariant
            i <= hidden.len(),
            forall|k: int| 0 <= k < i ==> !pattern_hides(#[trigger] hidden@[k]@, file_name@, is_dir_type),
        decreases hidden.len() - i,
    {
        if is_dir_type || !is_for_directories(hidden[i].as_str()) {
            let pattern = glob_of(hidden[i].as_str(), is_dir_type);
            if glob(pattern.as_str(), file_name) {
                assert(pattern_hides(hidden@[i as int]@, file_name@, is_dir_type));
                return true;
            }
        }
        i += 1;
    }
    false
}

/// A name that is hidden stays hidden when a pattern is added to the list.
pub proof fn lemma_more_patterns_hide_more(
    hidden: Seq<String>,
    more: String,
    posix_hidden: bool,
    name: Seq<char>,
    is_dir: bool,
)
    requires
        hidden_name(hidden, posix_hidden, name, is_dir),
    ensures
        hidden_name(hidden.push(more), posix_hidden, name, is_dir),
{
    if !hidden_by_dot(posix_hidden, name) {
        let i = choose|i: int| 0 <= i < hidden.len() && pattern_hides(#[trigger] hidden[i]@, name, is_dir);
        assert(hidden.push(more)[i] == hidden[i]);
    }
}

/// Whether a segment of a path is a name: it is neither empty nor one of
/// `.` and `..`.
pub open spec fn is_name(seg: Seq<char>) -> bool {
    !is_here(seg) && !is_up(seg)
}

/// Whether one of the names along the segments of a path is hidden. Every
/// name but the last segment is held against the rule as a directory, the
/// last segment as what the path names.
pub open spec fn hidden_on_the_way(
    hidden: Seq<String>,
    posix_hidden: bool,
    segs: Seq<Seq<char>>,
    target_is_dir: bool,
) -> bool {
    exists|k: int|
        0 <= k < segs.len() && is_name(#[trigger] segs[k]) && hidden_name(
            hidden,
            posix_hidden,
            segs[k],
            k + 1 < segs.len() || target_is_dir,
        )
}

/// Whether an internal path has a hidden name on its way.
pub open spec fn hidden_path(
    hidden: Seq<String>,
    posix_hidden: bool,
    rel: Seq<char>,
    target_is_dir: bool,
) -> bool {
    hidden_on_the_way(hidden, posix_hidden, segments(rel), target_is_dir)
}

fn names_something(seg: &Vec<char>) -> (r: bool)
    ensures
        r == is_name(seg@),
{
    if seg.len() == 0 {
        false
    } else if seg.len() == 1 && seg[0] == '.' {
        assert(seg@ =~= seq!['.']);
        false
    } else if seg.len() == 2 && seg[0] == '.' && seg[1] == '.' {
        assert(seg@ =~= seq!['.', '.']);
        false
    } else {
        true
    }
}

/// Whether an internal path has a hidden name on its way.
pub fn hides_path(hidden: &[String], posix_hidden: bool, rel: &str, target_is_dir: bool) -> (r:
    bool)
    ensures
        r == hidden_path(hidden@, posix_hidden, rel@, target_is_dir),
{
    let chars = chars_of(rel);
    let segs = split_segments(chars.as_slice());
    let ghost all = segments(rel@);
    let mut i: usize = 0;
    while i < segs.len()
        invariant
            i <= segs.len(),
            all == segments(rel@),
            all == seg_views(segs@),
            forall|k: int|
                0 <= k < i ==> !(is_name(#[trigger] all[k]) && hidden_name(
                    hidden@,
                    posix_hidden,
                    all[k],
                    k + 1 < all.len() || target_is_dir,
                )),
        decreases segs.len() - i,
    {
        assert(all[i as int] == segs@[i as int]@);
        if names_something(&segs[i]) {
            let name = string_of(segs[i].as_slice());
            let as_dir = i + 1 < segs.len() || target_is_dir;
            if is_hidden(hidden, posix_hidden, name.as_str(), as_dir) {
                assert(is_name(all[i as int]) && hidden_name(
                    hidden@,
                    posix_hidden,
                    all[i as int],
                    i + 1 < all.len() || target_is_dir,
                ));
                return true;
            }
        }
        i += 1;
    }
    false
}

/// What a walk knows of an entry that it meets.
#[derive(Clone, Debug, PartialEq, Eq)]
pub struct WalkEntry {
    /// The name of the entry, without the directories above it.
    pub name: String,
    /// Whether the entry itself is a directory.
    pub is_dir: bool,
    /// Whether the entry itself is a regular file.
    pub is_file: bool,
    /// Whether the entry is a symbolic link.
    pub is_symlink: bool,
    /// For a link: whether what the link leads to is a directory; nothing
    /// when that cannot be found out.
    pub link_is_dir: Option<bool>,
    /// Whether the entry's own metadata can be read.
    pub readable: bool,
    /// Whether the entry is where the walk starts. Its name is not held
    /// against the hidden rule: what the caller asked for is walked.
    pub is_root: bool,
}

/// What a walk does with an entry.
#[derive(Clone, Copy, Debug, PartialEq, Eq, Structural)]
pub enum WalkStep {
    /// End the walk: the server is shutting down.
    Stop,
    /// Pass over the entry.
    Skip,
    /// Pass over the entry and everything below it.
    Prune,
    /// Take the entry into the result.
    Take,
}

/// What a walk does with an entry before it looks at what the walk is for:
/// it stops when the server no longer runs, passes over a link whose
/// target cannot be told and over a hidden entry, and with a hidden
/// directory over all that is below. Where the walk starts, the name is not
/// held against the hidden rule. `None` lets the entry through.
pub open spec fn walk_filter(
    hidden: Seq<String>,
    posix_hidden: bool,
    running: bool,
    entry: WalkEntry,
) -> Option<WalkStep> {
    if !running {
        Some(WalkStep::Stop)
    } else if entry.is_symlink && entry.link_is_dir is None {
        Some(WalkStep::Skip)
    } else if !entry.is_root && hidden_name(
        hidden,
        posix_hidden,
        entry.name@,
        if entry.is_symlink {
            entry.link_is_dir->0
        } else {
            entry.is_dir
        },
    ) {
        if entry.is_dir {
            Some(WalkStep::Prune)
        } else {
            Some(WalkStep::Skip)
        }
    } else {
        None
    }
}

/// What a search for `query`, given in lower case, does with an entry: it
/// takes the entries that get through the filter and whose name, in lower
/// case, holds the query.
pub open spec fn search_walk(
    hidden: Seq<String>,
    posix_hidden: bool,
    running: bool,
    entry: WalkEntry,
    query: Seq<char>,
) -> WalkStep {
    match walk_filter(hidden, posix_hidden, running, entry) {
        Some(step) => step,
        None => if contains_seq(lowercased(entry.name@), query) {
            WalkStep::Take
        } else {
            WalkStep::Skip
        },
    }
}

/// What the making of an archive does with an entry: it takes the regular
/// files that get through the filter and whose metadata can be read. A
/// link is never taken.
pub open spec fn zip_walk(
    hidden: Seq<String>,
    posix_hidden: bool,
    running: bool,
    entry: WalkEntry,
) -> WalkStep {
    match walk_filter(hidden, posix_hidden, running, entry) {
        Some(step) => step,
        None => if entry.readable && entry.is_file && !entry.is_symlink {
            WalkStep::Take
        } else {
            WalkStep::Skip
        },
    }
}

fn filter_entry(hidden: &[String], posix_hidden: bool, running: bool, entry: &WalkEntry) -> (r:
    Option<WalkStep>)
    ensures
        r == walk_filter(hidden@, posix_hidden, running, *entry),
{
    if !running {
        return Some(WalkStep::Stop);
    }
    let mut is_dir_type = entry.is_dir;
    if entry.is_symlink {
        match entry.link_is_dir {
            Some(d) => {
                is_dir_type = d;
            },
            None => {
                return Some(WalkStep::Skip);
            },
        }
    }
    if !entry.is_root && is_hidden(hidden, posix_hidden, entry.name.as_str(), is_dir_type) {
        if entry.is_dir {
            return Some(WalkStep::Prune);
        }
        return Some(WalkStep::Skip);
    }
    None
}

/// Whether a name holds a query, given its lower-case form.
pub fn name_matches(lower_name: &str, query: &str) -> (r: bool)
    ensures
        r == contains_seq(lower_name@, query@),
{
    let hay = chars_of(lower_name);
    let needle = chars_of(query);
    contains_chars(hay.as_slice(), needle.as_slice())
}

/// What a search for `query`, given in lower case, does with an entry.
pub fn search_step(
    hidden: &[String],
    posix_hidden: bool,
    running: bool,
    entry: &WalkEntry,
    query: &str,
) -> (r: WalkStep)
    ensures
        r == search_walk(hidden@, posix_hidden, running, *entry, query@),
        (!entry.is_root && hidden_name(
            hidden@,
            posix_hidden,
            entry.name@,
            if entry.is_symlink && entry.link_is_dir is Some {
                entry.link_is_dir->0
            } else {
                entry.is_dir
            },
        )) ==> r != WalkStep::Take,
{
    match filter_entry(hidden, posix_hidden, running, entry) {
        Some(step) => step,
        None => {
            let lower = to_lowercase(entry.name.as_str());
            if name_matches(lower.as_str(), query) {
                WalkStep::Take
            } else {
                WalkStep::Skip
            }
        },
    }
}

/// What the making of an archive does with an entry.
pub fn zip_step(hidden: &[String], posix_hidden: bool, running: bool, entry: &WalkEntry) -> (r:
    WalkStep)
    ensures
        r == zip_walk(hidden@, posix_hidden, running, *entry),
        entry.is_symlink ==> r != WalkStep::Take,
        (!entry.is_root && hidden_name(
            hidden@,
            posix_hidden,
            entry.name@,
            if entry.is_symlink && entry.link_is_dir is Some {
                entry.link_is_dir->0
            } else {
                entry.is_dir
            },
        )) ==> r != WalkStep::Take,
{
    match filter_entry(hidden, posix_hidden, running, entry) {
        Some(step) => step,
        None => {
            if entry.readable && entry.is_file && !entry.is_symlink {
                WalkStep::Take
            } else {
                WalkStep::Skip
            }
        },
    }
}

/// What the writer of an archive does next.
#[derive(Clone, Copy, Debug, PartialEq, Eq, Structural)]
pub enum ArchiveStep {
    /// Write the next file.
    Write,
    /// Close the archive: it is complete.
    Close,
    /// Give up and leave the archive unfinished, so that nobody takes it
    /// for complete.
    Abort,
}

/// What the writer of an archive does next: it gives up when the walk was
/// stopped or the server no longer runs, writes while files are left, and
/// closes the archive when none is.
pub open spec fn archive_next(stopped: bool, running: bool, left: usize) -> ArchiveStep {
    if stopped || !running {
        ArchiveStep::Abort
    } else if left > 0 {
        ArchiveStep::Write
    } else {
        ArchiveStep::Close
    }
}

/// What the writer of an archive does next, given whether the walk that
/// found the files was stopped, whether the server still runs, and how many
/// files are left to write.
pub fn archive_step(stopped: bool, running: bool, left: usize) -> (r: ArchiveStep)
    ensures
        r == archive_next(stopped, running, left),
        r == ArchiveStep::Close ==> !stopped && running && left == 0,
{
    if stopped || !running {
        ArchiveStep::Abort
    } else if left > 0 {
        ArchiveStep::Write
    } else {
        ArchiveStep::Close
    }
}

} // verus!
