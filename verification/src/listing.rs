//! The entries of a directory as the server shows them.

use vstd::prelude::*;
use crate::cache::{timestamp, to_timestamp, FileTime};
use crate::config::Args;
use crate::content::Failure;
use crate::hidden::{hidden_name, is_hidden};
use crate::path::{file_name, get_file_name, join, joined, relative_to, strip_root};
use crate::server::{contained, Server};
use crate::text::{chars_of, last_segment, last_segment_of, lemma_last_segment_is_suffix};
use crate::access::AccessPaths;

verus! {

/// What kind of entry a path names, links told apart.
#[derive(Clone, Copy, Debug, PartialEq, Eq, Structural)]
pub enum PathType {
    Dir,
    SymlinkDir,
    File,
    SymlinkFile,
}

/// The kind of an entry that is or is not a link and that is or is not a
/// directory.
pub open spec fn path_type_of(is_symlink: bool, is_dir: bool) -> PathType {
    if is_dir {
        if is_symlink {
            PathType::SymlinkDir
        } else {
            PathType::Dir
        }
    } else {
        if is_symlink {
            PathType::SymlinkFile
        } else {
            PathType::File
        }
    }
}

/// One entry of a listing.
#[derive(Clone, Debug, PartialEq, Eq)]
pub struct PathItem {
    pub path_type: PathType,
    /// The path of the entry below the listed tree, with `/` between its
    /// parts.
    pub name: String,
    /// Milliseconds since 1970 of the last modification.
    pub mtime: u64,
    /// The size in bytes; directories have none.
    pub size: Option<u64>,
}

pub struct PathItemView {
    pub path_type: PathType,
    pub name: Seq<char>,
    pub mtime: u64,
    pub size: Option<u64>,
}

impl View for PathItem {
    type V = PathItemView;

    open spec fn view(&self) -> PathItemView {
        PathItemView {
            path_type: self.path_type,
            name: self.name@,
            mtime: self.mtime,
            size: self.size,
        }
    }
}

impl PathItemView {
    /// Whether the entry is a directory, or a link to one.
    pub open spec fn is_dir(&self) -> bool {
        self.path_type == PathType::Dir || self.path_type == PathType::SymlinkDir
    }
}

/// The entries of a list, each by its view.
pub open spec fn items_view(items: Seq<PathItem>) -> Seq<PathItemView> {
    Seq::new(items.len(), |i: int| items[i]@)
}

impl PathItem {
    /// Whether the entry is a directory, or a link to one.
    pub fn is_dir(&self) -> (r: bool)
        ensures
            r == self@.is_dir(),
    {
        matches!(self.path_type, PathType::Dir) || matches!(self.path_type, PathType::SymlinkDir)
    }

    /// The last part of the entry's name.
    pub fn base_name(&self) -> (r: &str)
        ensures
            r@ == last_segment(self.name@, '/'),
    {
        let chars = chars_of(self.name.as_str());
        let tail = last_segment_of(chars.as_slice(), '/');
        proof {
            lemma_last_segment_is_suffix(chars@, '/');
        }
        let from = chars.len() - tail.len();
        self.name.as_str().substring_char(from, chars.len())
    }
}

/// What the file system tells about an entry: the entry itself may be a
/// link; kind, time and size are those of what it leads to.
#[derive(Clone, Debug, PartialEq, Eq)]
pub struct EntryStat {
    pub is_symlink: bool,
    pub is_dir: bool,
    pub modified: FileTime,
    pub size: u64,
    /// The path of the entry with every link resolved, where that succeeded.
    pub canonical: Option<String>,
}

/// An entry of a directory with what could be found out about it; nothing
/// when nothing can be read at its path.
#[derive(Clone, Debug, PartialEq, Eq)]
pub struct StatEntry {
    pub path: String,
    pub stat: Option<EntryStat>,
}

/// The entry of a listing of `base` that the file at `path` makes. A link
/// that leads out of the served directory makes none when links are not
/// allowed. It is a failure when `path` does not lie below `base`.
pub open spec fn pathitem_of(args: Args, path: Seq<char>, base: Seq<char>, stat: EntryStat) -> Result<
    Option<PathItemView>,
    Failure,
> {
    if !args.allow_symlink && stat.is_symlink && !contained(stat.canonical, args.path@) {
        Ok(None)
    } else {
        match relative_to(path, base) {
            None => Err(Failure::OutsideRoot),
            Some(rel) => Ok(
                Some(
                    PathItemView {
                        path_type: path_type_of(stat.is_symlink, stat.is_dir),
                        name: rel,
                        mtime: timestamp(stat.modified),
                        size: if stat.is_dir {
                            None
                        } else {
                            Some(stat.size)
                        },
                    },
                ),
            ),
        }
    }
}

/// The entry that a listing of `base` keeps for an entry of a directory:
/// the one that the file makes, unless nothing can be read there or its
/// name is hidden.
pub open spec fn kept_item(args: Args, base: Seq<char>, entry: StatEntry) -> Option<PathItemView> {
    match entry.stat {
        None => None,
        Some(stat) => match pathitem_of(args, entry.path@, base, stat) {
            Ok(Some(item)) => if hidden_name(
                args.hidden@,
                args.posix_hidden,
                match file_name(entry.path@) {
                    Some(n) => n,
                    None => Seq::<char>::empty(),
                },
                item.is_dir(),
            ) {
                None
            } else {
                Some(item)
            },
            _ => None,
        },
    }
}

/// The listing of `base` that the entries of a directory make, in their
/// order.
pub open spec fn listed(args: Args, base: Seq<char>, entries: Seq<StatEntry>) -> Seq<PathItemView>
    decreases entries.len(),
{
    if entries.len() == 0 {
        Seq::<PathItemView>::empty()
    } else {
        let front = listed(args, base, entries.drop_last());
        match kept_item(args, base, entries.last()) {
            Some(item) => front.push(item),
            None => front,
        }
    }
}

/// The paths of the names in `children` below `dir`, in order; a name that
/// cannot lie below `dir` is left out.
pub open spec fn child_paths_below(dir: Seq<char>, children: Seq<Seq<char>>) -> Seq<Seq<char>>
    decreases children.len(),
{
    if children.len() == 0 {
        Seq::<Seq<char>>::empty()
    } else {
        let front = child_paths_below(dir, children.drop_last());
        match joined(dir, children.last()) {
            Some(p) => front.push(p),
            None => front,
        }
    }
}

/// The entries that a caller with index-only permission sees in `dir`: the
/// named children. Any other caller sees what the directory holds, which
/// this function cannot tell: it then gives nothing.
pub fn listing_targets(dir: &str, access: &AccessPaths) -> (r: Option<Vec<String>>)
    ensures
        r is Some <==> access.perm.is_indexonly(),
        r matches Some(paths) ==> paths.deep_view() == child_paths_below(
            dir@,
            access.children.deep_view(),
        ),
{
    if !access.perm().indexonly() {
        return None;
    }
    let mut out: Vec<String> = Vec::new();
    let mut i: usize = 0;
    assert(out.deep_view() =~= Seq::<Seq<char>>::empty());
    assert(access.children.deep_view().take(0) =~= Seq::<Seq<char>>::empty());
    while i < access.children.len()
        invariant
            i <= access.children.len(),
            out.deep_view() == child_paths_below(dir@, access.children.deep_view().take(i as int)),
        decreases access.children.len() - i,
    {
        proof {
            let all = access.children.deep_view();
            let t = all.take(i + 1);
            assert(t.drop_last() =~= all.take(i as int));
            assert(t.last() == access.children@[i as int]@);
        }
        let ghost before = out.deep_view();
        match join(dir, access.children[i].as_str()) {
            Some(p) => {
                out.push(p);
                assert(out.deep_view() =~= before.push(p@));
            },
            None => {},
        }
        i += 1;
    }
    assert(access.children.deep_view().take(access.children@.len() as int)
        =~= access.children.deep_view());
    Some(out)
}

/// Whether an outcome is the one wanted.
pub open spec fn item_agrees(
    r: Result<Option<PathItem>, Failure>,
    want: Result<Option<PathItemView>, Failure>,
) -> bool {
    match want {
        Ok(Some(v)) => r matches Ok(Some(item)) && item@ == v,
        Ok(None) => r matches Ok(None),
        Err(e) => r matches Err(f) && f == e,
    }
}

impl Server {
    /// The entry of a listing of `base_path` that the file at `path` makes.
    /// Where links are not allowed, a link that leads out of the served
    /// directory makes none.
    pub fn to_pathitem(&self, path: &str, base_path: &str, stat: &EntryStat) -> (r: Result<
        Option<PathItem>,
        Failure,
    >)
        ensures
            item_agrees(r, pathitem_of(self.args(), path@, base_path@, *stat)),
            !self.args().allow_symlink && stat.is_symlink && !contained(
                stat.canonical,
                self.args().path@,
            ) ==> r matches Ok(None),
    {
        let is_symlink = stat.is_symlink;
        if !self.config().allow_symlink && is_symlink && !self.is_root_contained(&stat.canonical) {
            return Ok(None);
        }
        let is_dir = stat.is_dir;
        let path_type = if is_dir {
            if is_symlink {
                PathType::SymlinkDir
            } else {
                PathType::Dir
            }
        } else {
            if is_symlink {
                PathType::SymlinkFile
            } else {
                PathType::File
            }
        };
        let mtime = to_timestamp(&stat.modified);
        let size = if is_dir {
            None
        } else {
            Some(stat.size)
        };
        let name = match strip_root(path, base_path) {
            Some(rel) => rel,
            None => {
                return Err(Failure::OutsideRoot);
            },
        };
        Ok(Some(PathItem { path_type, name, mtime, size }))
    }

    /// Adds to `paths` the entry that a listing of `base_path` keeps for
    /// `entry`, if it keeps one.
    pub fn add_pathitem(&self, paths: &mut Vec<PathItem>, base_path: &str, entry: &StatEntry)
        ensures
            items_view(final(paths)@) == (match kept_item(self.args(), base_path@, *entry) {
                Some(item) => items_view(old(paths)@).push(item),
                None => items_view(old(paths)@),
            }),
    {
        let base_name = get_file_name(entry.path.as_str());
        let stat = match &entry.stat {
            Some(s) => s,
            None => {
                return ;
            },
        };
        match self.to_pathitem(entry.path.as_str(), base_path, stat) {
            Ok(Some(item)) => {
                if is_hidden(
                    self.config().hidden.as_slice(),
                    self.config().posix_hidden,
                    base_name.as_str(),
                    item.is_dir(),
                ) {
                    return ;
                }
                paths.push(item);
                assert(items_view(paths@) =~= items_view(old(paths)@).push(item@));
            },
            _ => {},
        }
    }

    /// The listing of `base_path` that the entries of a directory make:
    /// each entry that can be read and is not hidden, in the given order.
    pub fn list_dir(&self, base_path: &str, entries: &Vec<StatEntry>) -> (r: Vec<PathItem>)
        ensures
            items_view(r@) == listed(self.args(), base_path@, entries@),
    {
        let mut paths: Vec<PathItem> = Vec::new();
        let mut i: usize = 0;
        assert(items_view(paths@) =~= Seq::<PathItemView>::empty());
        assert(entries@.take(0) =~= Seq::<StatEntry>::empty());
        while i < entries.len()
            invariant
                i <= entries.len(),
                items_view(paths@) == listed(self.args(), base_path@, entries@.take(i as int)),
            decreases entries.len() - i,
        {
            proof {
                let t = entries@.take(i + 1);
                assert(t.drop_last() =~= entries@.take(i as int));
                assert(t.last() == entries@[i as int]);
            }
            self.add_pathitem(&mut paths, base_path, &entries[i]);
            i += 1;
        }
        assert(entries@.take(entries@.len() as int) =~= entries@);
        paths
    }
}

} // verus!
