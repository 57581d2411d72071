//! What holds of the server as a whole.

use vstd::prelude::*;
use crate::access::{AccessPerm, Guard};
use crate::config::Args;
use crate::dav::propfind_perm;
use crate::handlers::found_item;
use crate::hidden::{
    hidden_name, hidden_path, is_name, search_walk, zip_walk, WalkEntry, WalkStep,
};
use crate::listing::{kept_item, listed, pathitem_of, StatEntry};
use crate::path::{
    descends_from, file_name, joined, lemma_joined_descends, lemma_joined_lies_below,
    lemma_segments_concat, lemma_segments_nonempty, lemma_segments_of_name, lies_below, segments, stays_below,
};
use crate::request::{Request, Target, TargetKind};
use crate::server::{contained, resolved, Action, Server};

verus! {

/// Every request path that resolves names a path in the file system that,
/// its detours by way of `.` and `..` taken out, is the served directory or
/// lies below it; as it is written, the path begins with the served
/// directory. A path that would climb above the served directory names
/// nothing.
pub proof fn lemma_resolved_paths_are_rooted(args: Args, uri_path: Seq<char>)
    ensures
        match resolved(args.path_prefix@, uri_path) {
            Some(rel) => match joined(args.path@, rel) {
                Some(path) => lies_below(path, args.path@) && descends_from(path, args.path@),
                None => rel.len() > 0 && (rel[0] == '/' || !stays_below(segments(rel))),
            },
            None => true,
        },
{
    match resolved(args.path_prefix@, uri_path) {
        Some(rel) => {
            if joined(args.path@, rel) is Some {
                lemma_joined_descends(args.path@, rel);
                lemma_joined_lies_below(args.path@, rel);
            }
        },
        None => {},
    }
}

/// The name of an entry of a directory, as the listing holds it against the
/// hidden rule.
pub open spec fn entry_name(entry: StatEntry) -> Seq<char> {
    match file_name(entry.path@) {
        Some(n) => n,
        None => Seq::<char>::empty(),
    }
}

/// The kind that a walk takes an entry for when it holds its name against
/// the hidden rule.
pub open spec fn walk_kind(entry: WalkEntry) -> bool {
    if entry.is_symlink && entry.link_is_dir is Some {
        entry.link_is_dir->0
    } else {
        entry.is_dir
    }
}

/// A name that the hidden rule hides is kept out of every listing, and so
/// out of every property listing, and, below where a walk starts, is taken
/// neither by a search nor into an archive.
pub proof fn lemma_hidden_everywhere(
    args: Args,
    base: Seq<char>,
    entry: StatEntry,
    is_dir: bool,
    walked: WalkEntry,
    running: bool,
    query: Seq<char>,
)
    requires
        hidden_name(args.hidden@, args.posix_hidden, entry_name(entry), is_dir),
        walked.name@ == entry_name(entry),
        walk_kind(walked) == is_dir,
        !walked.is_root,
    ensures
        (entry.stat matches Some(stat) && pathitem_of(args, entry.path@, base, stat) matches Ok(
            Some(item),
        ) && item.is_dir() == is_dir) ==> kept_item(args, base, entry) is None,
        search_walk(args.hidden@, args.posix_hidden, running, walked, query) != WalkStep::Take,
        zip_walk(args.hidden@, args.posix_hidden, running, walked) != WalkStep::Take,
{
}

/// Every entry of a listing is the entry that the listing keeps for one of
/// the entries of the directory: nothing that is hidden, or that cannot be
/// read, is shown.
pub proof fn lemma_listing_shows_kept_entries(
    args: Args,
    base: Seq<char>,
    entries: Seq<StatEntry>,
    k: int,
)
    requires
        0 <= k < listed(args, base, entries).len(),
    ensures
        exists|j: int|
            0 <= j < entries.len() && kept_item(args, base, #[trigger] entries[j]) == Some(
                listed(args, base, entries)[k],
            ),
    decreases entries.len(),
{
    let front = listed(args, base, entries.drop_last());
    let last = entries.len() - 1;
    if k < front.len() {
        lemma_listing_shows_kept_entries(args, base, entries.drop_last(), k);
        let j = choose|j: int|
            0 <= j < entries.drop_last().len() && kept_item(
                args,
                base,
                #[trigger] entries.drop_last()[j],
            ) == Some(front[k]);
        assert(entries[j] == entries.drop_last()[j]);
    } else {
        assert(kept_item(args, base, entries[last]) == Some(listed(args, base, entries)[k]));
    }
}

/// The actions that do not touch the file that a request names.
pub open spec fn leaves_target_alone(action: Action) -> bool {
    ||| action == Action::Asset
    ||| action == Action::Forbidden
    ||| action == Action::Unauthorized
    ||| action == Action::Done
    ||| action == Action::SendServedFile
    ||| action == Action::NotFound
}

/// Where links are not allowed, a request whose target leads out of the
/// served directory is never answered from that target, and an entry that
/// is a link out of the served directory makes no entry of a listing, of a
/// property listing or of the results of a search.
pub proof fn lemma_symlink_containment(
    server: Server,
    req: &Request,
    guard: &Guard,
    target: &Target,
    base: Seq<char>,
    entry: StatEntry,
)
    requires
        !server.args().allow_symlink,
    ensures
        (target.kind != TargetKind::Missing && !contained(target.canonical, server.args().path@))
            ==> leaves_target_alone(server.dispatch(req, guard, target)),
        (entry.stat matches Some(stat) && stat.is_symlink && !contained(
            stat.canonical,
            server.args().path@,
        )) ==> {
            &&& pathitem_of(server.args(), entry.path@, base, entry.stat->0) == Ok::<
                Option<crate::listing::PathItemView>,
                crate::content::Failure,
            >(None)
            &&& kept_item(server.args(), base, entry) is None
            &&& found_item(server.args(), base, entry) is None
        },
{
}

/// No link goes into an archive, wherever it leads and whatever else is
/// told of it: what lies outside the served directory is not reached by
/// way of one.
pub proof fn lemma_no_link_is_archived(
    hidden: Seq<String>,
    posix_hidden: bool,
    running: bool,
    entry: WalkEntry,
)
    requires
        entry.is_symlink,
    ensures
        zip_walk(hidden, posix_hidden, running, entry) != WalkStep::Take,
{
}

/// The actions that send a file.
pub open spec fn sends_a_file(action: Action) -> bool {
    ||| action == Action::SendFile
    ||| action == Action::SendServedFile
    ||| action == Action::Edit
}

/// A caller who may only list directories is never sent a file that a
/// request names: GET and HEAD of a file are refused.
pub proof fn lemma_index_only_reads_no_file(
    server: Server,
    req: &Request,
    guard: &Guard,
    target: &Target,
)
    requires
        guard.access is Some,
        guard.access->0.perm == AccessPerm::IndexOnly,
    ensures
        !sends_a_file(server.dispatch(req, guard, target)),
{
}

/// A caller who may only list directories is sent the same way as one who
/// may read wherever no file is to be sent: such a caller may list, and a
/// property query on a directory is answered as it is for a reader, with
/// the permission counted as permission to read.
pub proof fn lemma_index_only_lists_like_a_reader(
    server: Server,
    req: &Request,
    guard: &Guard,
    other: &Guard,
    target: &Target,
)
    requires
        guard.access is Some,
        other.access is Some,
        guard.access->0.perm == AccessPerm::IndexOnly,
        other.access->0.perm == AccessPerm::ReadOnly,
        !sends_a_file(server.dispatch(req, other, target)),
    ensures
        server.dispatch(req, guard, target) == server.dispatch(req, other, target),
        propfind_perm(guard.access->0.perm) == AccessPerm::ReadOnly,
{
}

/// A request whose path has a hidden name on its way is never answered
/// from what the path names.
pub proof fn lemma_hidden_target_is_left_alone(
    server: Server,
    req: &Request,
    guard: &Guard,
    target: &Target,
)
    requires
        resolved(server.args().path_prefix@, req.path@) matches Some(rel) && hidden_path(
            server.args().hidden@,
            server.args().posix_hidden,
            rel,
            target.kind == TargetKind::Dir,
        ),
    ensures
        leaves_target_alone(server.dispatch(req, guard, target)),
{
}

/// A name that the hidden rule hides, standing at the end of an internal
/// path, hides the path.
pub proof fn lemma_hidden_name_hides_its_path(
    args: Args,
    front: Seq<char>,
    name: Seq<char>,
    is_dir: bool,
)
    requires
        is_name(name),
        forall|i: int| 0 <= i < name.len() ==> name[i] != '/',
        hidden_name(args.hidden@, args.posix_hidden, name, is_dir),
    ensures
        hidden_path(args.hidden@, args.posix_hidden, front + seq!['/'] + name, is_dir),
        hidden_path(args.hidden@, args.posix_hidden, name, is_dir),
{
    lemma_segments_of_name(name);
    lemma_segments_nonempty(front);
    let x = front + seq!['/'];
    assert(x.drop_last() =~= front);
    assert(segments(x) == segments(front).push(Seq::<char>::empty()));
    lemma_segments_concat(x, name);
    let segs = segments(x + name);
    assert(front + seq!['/'] + name =~= x + name);
    assert(segs =~= segments(front).push(name));
    assert(segs[segs.len() - 1] == name);
    assert(segments(name)[0] == name);
}

} // verus!
