//! Paths of the served tree, as strings with `/` as the separator.

use vstd::prelude::*;
use crate::text::{
    chars_of, last_segment, last_segment_of, lemma_last_segment_is_suffix, push_chars, slice_chars, starts_with, string_of,
    trim, trim_end, trim_end_matches, trim_matches,
};

verus! {

/// The segments of a path: the runs of characters between its slashes.
pub open spec fn segments(s: Seq<char>) -> Seq<Seq<char>>
    decreases s.len(),
{
    if s.len() == 0 {
        seq![Seq::<char>::empty()]
    } else if s.last() == '/' {
        segments(s.drop_last()).push(Seq::<char>::empty())
    } else {
        let init = segments(s.drop_last());
        init.drop_last().push(init.last().push(s.last()))
    }
}

/// Whether a segment names the directory above.
pub open spec fn is_up(seg: Seq<char>) -> bool {
    seg == seq!['.', '.']
}

/// Whether a segment leads nowhere: it is empty or a single dot.
pub open spec fn is_here(seg: Seq<char>) -> bool {
    seg.len() == 0 || seg == seq!['.']
}

/// How many directories below its start a walk along the segments ends.
pub open spec fn depth(segs: Seq<Seq<char>>) -> int
    decreases segs.len(),
{
    if segs.len() == 0 {
        0
    } else {
        depth(segs.drop_last()) + (if is_here(segs.last()) {
            0int
        } else if is_up(segs.last()) {
            -1int
        } else {
            1int
        })
    }
}

/// Whether a walk along the segments never climbs above its start.
pub open spec fn stays_below(segs: Seq<Seq<char>>) -> bool
    decreases segs.len(),
{
    segs.len() == 0 || (stays_below(segs.drop_last()) && depth(segs) >= 0)
}

/// The names from the top down to where a walk along the segments ends,
/// begun at the directory that `stack` names: a name goes down, `..` goes
/// up, empty segments and single dots stay.
pub open spec fn walk_from(stack: Seq<Seq<char>>, segs: Seq<Seq<char>>) -> Seq<Seq<char>>
    decreases segs.len(),
{
    if segs.len() == 0 {
        stack
    } else {
        let before = walk_from(stack, segs.drop_last());
        if is_here(segs.last()) {
            before
        } else if is_up(segs.last()) {
            if before.len() > 0 {
                before.drop_last()
            } else {
                before
            }
        } else {
            before.push(segs.last())
        }
    }
}

/// A path without its detours: the names from the top down to what it
/// names.
pub open spec fn normal_form(path: Seq<char>) -> Seq<Seq<char>> {
    walk_from(Seq::empty(), segments(path))
}

/// Whether `path`, its detours taken out, is `root` or lies below it.
pub open spec fn lies_below(path: Seq<char>, root: Seq<char>) -> bool {
    normal_form(root).is_prefix_of(normal_form(path))
}

/// The path of `rel` below `root`. An empty `rel` names `root` itself. A
/// `rel` that begins with `/`, or that climbs above where it starts by way
/// of `..`, names nothing below `root`.
pub open spec fn joined(root: Seq<char>, rel: Seq<char>) -> Option<Seq<char>> {
    if rel.len() == 0 {
        Some(root)
    } else if rel[0] == '/' || !stays_below(segments(rel)) {
        None
    } else if root.len() > 0 && root.last() == '/' {
        Some(root + rel)
    } else {
        Some(root + seq!['/'] + rel)
    }
}

/// Whether `path` is `root` or lies below it, both taken as written.
pub open spec fn descends_from(path: Seq<char>, root: Seq<char>) -> bool {
    &&& root.is_prefix_of(path)
    &&& (path.len() == root.len() || (root.len() > 0 && root.last() == '/') || path[root.len() as int]
        == '/')
}

/// What is left of `path` below `root`, without slashes at its ends.
pub open spec fn relative_to(path: Seq<char>, root: Seq<char>) -> Option<Seq<char>> {
    if descends_from(path, root) {
        Some(trim(path.skip(root.len() as int), '/'))
    } else {
        None
    }
}

/// The last segment of `path`, trailing slashes aside.
pub open spec fn last_name(path: Seq<char>) -> Seq<char> {
    last_segment(trim_end(path, '/'), '/')
}

/// The name of the file or directory that `path` ends in: its last segment,
/// unless that is empty or `..`.
pub open spec fn file_name(path: Seq<char>) -> Option<Seq<char>> {
    let name = last_name(path);
    if name.len() == 0 || name == seq!['.', '.'] {
        None
    } else {
        Some(name)
    }
}

/// Whether `name` holds a dot that is not its first character.
pub open spec fn has_inner_dot(name: Seq<char>) -> bool {
    exists|i: int| 0 < i < name.len() && #[trigger] name[i] == '.'
}

/// Whether the file name of `path` has an extension: a dot that is not its
/// first character.
pub open spec fn has_extension(path: Seq<char>) -> bool {
    match file_name(path) {
        Some(name) => has_inner_dot(name),
        None => false,
    }
}

/// `path` with every `separator` written as `/`.
pub open spec fn normalized(path: Seq<char>, separator: char) -> Seq<char> {
    Seq::new(
        path.len(),
        |i: int|
            if path[i] == separator {
                '/'
            } else {
                path[i]
            },
    )
}

/// Joins a relative path to a root.
pub fn join(root: &str, rel: &str) -> (r: Option<String>)
    ensures
        r is Some <==> joined(root@, rel@) is Some,
        r matches Some(p) ==> p@ == joined(root@, rel@)->0,
{
    let rel_chars = chars_of(rel);
    let mut out = chars_of(root);
    if rel_chars.len() == 0 {
        return Some(string_of(out.as_slice()));
    }
    if rel_chars[0] == '/' {
        return None;
    }
    let segs = split_segments(rel_chars.as_slice());
    if climbs_out(&segs) {
        return None;
    }
    if !(out.len() > 0 && out[out.len() - 1] == '/') {
        out.push('/');
    }
    push_chars(&mut out, rel_chars.as_slice());
    Some(string_of(out.as_slice()))
}

/// Whether `path` is `root` or lies below it.
pub fn path_descends_from(path: &str, root: &str) -> (r: bool)
    ensures
        r == descends_from(path@, root@),
{
    let p = chars_of(path);
    let base = chars_of(root);
    chars_descend_from(p.as_slice(), base.as_slice())
}

fn chars_descend_from(p: &[char], base: &[char]) -> (r: bool)
    ensures
        r == descends_from(p@, base@),
{
    if !starts_with(p, base) {
        return false;
    }
    p.len() == base.len() || (base.len() > 0 && base[base.len() - 1] == '/') || p[base.len()]
        == '/'
}

/// What is left of `path` below `root`.
pub fn strip_root(path: &str, root: &str) -> (r: Option<String>)
    ensures
        r is Some <==> relative_to(path@, root@) is Some,
        r matches Some(p) ==> p@ == relative_to(path@, root@)->0,
{
    let p = chars_of(path);
    let base = chars_of(root);
    if !chars_descend_from(p.as_slice(), base.as_slice()) {
        return None;
    }
    let rest = slice_chars(p.as_slice(), base.len(), p.len());
    assert(rest@ =~= p@.skip(base@.len() as int));
    let rel = trim_matches(rest.as_slice(), '/');
    Some(string_of(rel.as_slice()))
}

fn last_name_of(path: &str) -> (r: Vec<char>)
    ensures
        r@ == last_name(path@),
{
    let p = chars_of(path);
    let body = trim_end_matches(p.as_slice(), '/');
    last_segment_of(body.as_slice(), '/')
}

fn is_dot_dot(name: &[char]) -> (r: bool)
    ensures
        r == (name@ == seq!['.', '.']),
{
    if name.len() == 2 && name[0] == '.' && name[1] == '.' {
        assert(name@ =~= seq!['.', '.']);
        true
    } else {
        false
    }
}

/// The file name of `path`, if it has one.
pub fn try_get_file_name(path: &str) -> (r: Option<String>)
    ensures
        r is Some <==> file_name(path@) is Some,
        r matches Some(n) ==> n@ == file_name(path@)->0,
{
    let name = last_name_of(path);
    if name.len() == 0 || is_dot_dot(name.as_slice()) {
        None
    } else {
        Some(string_of(name.as_slice()))
    }
}

/// The file name of `path`, or the empty string when it has none.
pub fn get_file_name(path: &str) -> (r: String)
    ensures
        r@ == (match file_name(path@) {
            Some(n) => n,
            None => Seq::<char>::empty(),
        }),
{
    match try_get_file_name(path) {
        Some(n) => n,
        None => String::new(),
    }
}

/// Whether the file name of `path` has an extension.
pub fn path_has_extension(path: &str) -> (r: bool)
    ensures
        r == has_extension(path@),
{
    let name = last_name_of(path);
    if name.len() == 0 || is_dot_dot(name.as_slice()) {
        return false;
    }
    let mut i: usize = 1;
    while i < name.len()
        invariant
            1 <= i,
            file_name(path@) == Some(name@),
            forall|k: int| 0 < k < i && k < name@.len() ==> name@[k] != '.',
        decreases name.len() - i,
    {
        if name[i] == '.' {
            assert(0 < i < name@.len() && name@[i as int] == '.');
            assert(has_inner_dot(name@));
            return true;
        }
        i += 1;
    }
    false
}

/// `path` with every `separator` written as `/`.
pub fn normalize_path(path: &str, separator: char) -> (r: String)
    ensures
        r@ == normalized(path@, separator),
{
    let p = chars_of(path);
    let mut out: Vec<char> = Vec::new();
    let mut i: usize = 0;
    while i < p.len()
        invariant
            i <= p.len(),
            out@ == normalized(p@.take(i as int), separator),
        decreases p.len() - i,
    {
        let c = if p[i] == separator {
            '/'
        } else {
            p[i]
        };
        out.push(c);
        assert(out@ =~= normalized(p@.take(i + 1), separator));
        i += 1;
    }
    assert(p@.take(p@.len() as int) =~= p@);
    string_of(out.as_slice())
}

/// A path joined below a root descends from that root.
pub proof fn lemma_joined_descends(root: Seq<char>, rel: Seq<char>)
    requires
        joined(root, rel) is Some,
    ensures
        descends_from(joined(root, rel)->0, root),
{
    let p = joined(root, rel)->0;
    if rel.len() == 0 {
        assert(p.subrange(0, root.len() as int) =~= root);
    } else if root.len() > 0 && root.last() == '/' {
        assert(p.subrange(0, root.len() as int) =~= root);
    } else {
        assert(p.subrange(0, root.len() as int) =~= root);
        assert(p[root.len() as int] == '/');
    }
}

/// The directory that holds `path`: what stands before its last segment,
/// slashes at the end aside. A path without a file name has none.
pub open spec fn parent(path: Seq<char>) -> Option<Seq<char>> {
    match file_name(path) {
        None => None,
        Some(name) => {
            let body = trim_end(path, '/');
            let front = body.take(body.len() - name.len());
            if front.len() > 0 && trim_end(front, '/').len() == 0 {
                Some(seq!['/'])
            } else {
                Some(trim_end(front, '/'))
            }
        },
    }
}

/// The directory that holds `path`.
pub fn parent_of(path: &str) -> (r: Option<String>)
    ensures
        r is Some <==> parent(path@) is Some,
        r matches Some(p) ==> p@ == parent(path@)->0,
{
    let p = chars_of(path);
    let body = trim_end_matches(p.as_slice(), '/');
    let name = last_segment_of(body.as_slice(), '/');
    if name.len() == 0 || is_dot_dot(name.as_slice()) {
        return None;
    }
    proof {
        lemma_last_segment_is_suffix(body@, '/');
    }
    let front = slice_chars(body.as_slice(), 0, body.len() - name.len());
    assert(front@ =~= body@.take(body@.len() - name@.len()));
    let dir = trim_end_matches(front.as_slice(), '/');
    if front.len() > 0 && dir.len() == 0 {
        let mut root: Vec<char> = Vec::new();
        root.push('/');
        assert(root@ =~= seq!['/']);
        return Some(string_of(root.as_slice()));
    }
    Some(string_of(dir.as_slice()))
}

/// The segments of a list, each by its characters.
pub open spec fn seg_views(segs: Seq<Vec<char>>) -> Seq<Seq<char>> {
    Seq::new(segs.len(), |k: int| segs[k]@)
}

/// The segments of a path.
pub fn split_segments(s: &[char]) -> (r: Vec<Vec<char>>)
    ensures
        seg_views(r@) == segments(s@),
{
    let mut done: Vec<Vec<char>> = Vec::new();
    let mut current: Vec<char> = Vec::new();
    let mut i: usize = 0;
    proof {
        assert(s@.take(0) =~= Seq::<char>::empty());
        assert(seg_views(done@).push(current@) =~= seq![Seq::<char>::empty()]);
    }
    while i < s.len()
        invariant
            i <= s.len(),
            seg_views(done@).push(current@) == segments(s@.take(i as int)),
        decreases s.len() - i,
    {
        let ghost before = seg_views(done@).push(current@);
        proof {
            let t = s@.take(i + 1);
            assert(t.drop_last() =~= s@.take(i as int));
            assert(t.last() == s@[i as int]);
        }
        if s[i] == '/' {
            done.push(current);
            current = Vec::new();
            assert(seg_views(done@).push(current@) =~= before.push(Seq::<char>::empty()));
        } else {
            let ghost last = current@;
            current.push(s[i]);
            assert(before.last() == last);
            assert(seg_views(done@).push(current@) =~= before.drop_last().push(
                last.push(s@[i as int]),
            ));
        }
        i += 1;
    }
    assert(s@.take(s@.len() as int) =~= s@);
    let ghost before = seg_views(done@).push(current@);
    done.push(current);
    assert(seg_views(done@) =~= before);
    done
}

fn is_up_segment(seg: &Vec<char>) -> (r: bool)
    ensures
        r == is_up(seg@),
{
    is_dot_dot(seg.as_slice())
}

fn is_here_segment(seg: &Vec<char>) -> (r: bool)
    ensures
        r == is_here(seg@),
{
    if seg.len() == 1 && seg[0] == '.' {
        assert(seg@ =~= seq!['.']);
        true
    } else {
        seg.len() == 0
    }
}

/// A walk that never climbs above its start does not do so on the way.
pub proof fn lemma_stays_below_prefix(segs: Seq<Seq<char>>, k: int)
    requires
        0 <= k <= segs.len(),
        stays_below(segs),
    ensures
        stays_below(segs.take(k)),
    decreases segs.len(),
{
    if k == segs.len() {
        assert(segs.take(k) =~= segs);
    } else {
        lemma_stays_below_prefix(segs.drop_last(), k);
        assert(segs.drop_last().take(k) =~= segs.take(k));
    }
}

/// Whether a walk along the segments climbs above where it starts.
pub fn climbs_out(segs: &Vec<Vec<char>>) -> (r: bool)
    ensures
        r == !stays_below(seg_views(segs@)),
{
    let ghost all = seg_views(segs@);
    let mut level: usize = 0;
    let mut i: usize = 0;
    assert(all.take(0) =~= Seq::<Seq<char>>::empty());
    while i < segs.len()
        invariant
            i <= segs.len(),
            all == seg_views(segs@),
            level <= i,
            level == depth(all.take(i as int)),
            stays_below(all.take(i as int)),
        decreases segs.len() - i,
    {
        proof {
            let t = all.take(i + 1);
            assert(t.drop_last() =~= all.take(i as int));
            assert(t.last() == segs@[i as int]@);
        }
        if is_here_segment(&segs[i]) {
        } else if is_up_segment(&segs[i]) {
            if level == 0 {
                proof {
                    if stays_below(all) {
                        lemma_stays_below_prefix(all, i + 1);
                    }
                }
                return true;
            }
            level -= 1;
        } else {
            level += 1;
        }
        i += 1;
    }
    assert(all.take(all.len() as int) =~= all);
    false
}

/// A path has at least one segment.
pub proof fn lemma_segments_nonempty(s: Seq<char>)
    ensures
        segments(s).len() >= 1,
    decreases s.len(),
{
    if s.len() > 0 {
        lemma_segments_nonempty(s.drop_last());
    }
}

/// The segments of two texts put together: the last segment of the first
/// and the first segment of the second are one.
pub proof fn lemma_segments_concat(x: Seq<char>, b: Seq<char>)
    ensures
        segments(x + b) == segments(x).drop_last() + seq![segments(x).last() + segments(b)[0]]
            + segments(b).drop_first(),
    decreases b.len(),
{
    lemma_segments_nonempty(x);
    lemma_segments_nonempty(b);
    if b.len() == 0 {
        assert(x + b =~= x);
        assert(segments(x).last() + segments(b)[0] =~= segments(x).last());
        assert(segments(x).drop_last() + seq![segments(x).last()] + segments(b).drop_first()
            =~= segments(x));
    } else {
        let b0 = b.drop_last();
        lemma_segments_concat(x, b0);
        lemma_segments_nonempty(b0);
        lemma_segments_nonempty(x + b0);
        assert((x + b).drop_last() =~= x + b0);
        assert((x + b).last() == b.last());
        let head = segments(x).drop_last();
        let joint = segments(x).last() + segments(b0)[0];
        if b.last() == '/' {
            assert(segments(b) == segments(b0).push(Seq::<char>::empty()));
            assert(segments(b)[0] == segments(b0)[0]);
            assert(segments(b).drop_first() =~= segments(b0).drop_first().push(
                Seq::<char>::empty(),
            ));
            assert(segments(x + b) =~= head + seq![segments(x).last() + segments(b)[0]] + segments(
                b,
            ).drop_first());
        } else {
            let init = segments(b0);
            assert(segments(b) == init.drop_last().push(init.last().push(b.last())));
            if init.len() == 1 {
                assert(segments(b)[0] =~= init[0].push(b.last()));
                assert(segments(b).drop_first() =~= Seq::<Seq<char>>::empty());
                assert(init.drop_first() =~= Seq::<Seq<char>>::empty());
                assert(segments(x + b0).last() == joint);
                assert(joint.push(b.last()) =~= segments(x).last() + segments(b)[0]);
                assert(segments(x + b) =~= head + seq![segments(x).last() + segments(b)[0]]
                    + segments(b).drop_first());
            } else {
                assert(segments(b)[0] == init[0]);
                assert(segments(x + b0).last() == init.last());
                assert(segments(b).drop_first() =~= init.drop_first().drop_last().push(
                    init.last().push(b.last()),
                ));
                assert(segments(x + b) =~= head + seq![segments(x).last() + segments(b)[0]]
                    + segments(b).drop_first());
            }
        }
    }
}

/// A walk along two runs of segments is the walk along the second, begun
/// where the walk along the first ends.
pub proof fn lemma_walk_concat(stack: Seq<Seq<char>>, a: Seq<Seq<char>>, b: Seq<Seq<char>>)
    ensures
        walk_from(stack, a + b) == walk_from(walk_from(stack, a), b),
    decreases b.len(),
{
    if b.len() == 0 {
        assert(a + b =~= a);
    } else {
        lemma_walk_concat(stack, a, b.drop_last());
        assert((a + b).drop_last() =~= a + b.drop_last());
        assert((a + b).last() == b.last());
    }
}

/// A walk that never climbs above its start ends at or below its start.
pub proof fn lemma_walk_stays(stack: Seq<Seq<char>>, segs: Seq<Seq<char>>)
    requires
        stays_below(segs),
    ensures
        stack.is_prefix_of(walk_from(stack, segs)),
        walk_from(stack, segs).len() == stack.len() + depth(segs),
    decreases segs.len(),
{
    if segs.len() == 0 {
        assert(stack =~= walk_from(stack, segs).subrange(0, stack.len() as int));
    } else {
        lemma_walk_stays(stack, segs.drop_last());
        let before = walk_from(stack, segs.drop_last());
        let after = walk_from(stack, segs);
        assert(stack =~= before.subrange(0, stack.len() as int));
        assert(stack =~= after.subrange(0, stack.len() as int));
    }
}

/// A path joined below a root, its detours taken out, is the root or lies
/// below it.
pub proof fn lemma_joined_lies_below(root: Seq<char>, rel: Seq<char>)
    requires
        joined(root, rel) is Some,
    ensures
        lies_below(joined(root, rel)->0, root),
{
    let p = joined(root, rel)->0;
    let base = normal_form(root);
    if rel.len() == 0 {
        assert(base =~= base.subrange(0, base.len() as int));
    } else {
        lemma_segments_nonempty(rel);
        lemma_segments_nonempty(root);
        let tail = segments(rel);
        assert(seq![Seq::<char>::empty() + tail[0]] + tail.drop_first() =~= tail);
        if root.len() > 0 && root.last() == '/' {
            let front = segments(root.drop_last());
            assert(segments(root) == front.push(Seq::<char>::empty()));
            lemma_segments_concat(root, rel);
            assert(segments(p) =~= front + tail);
            lemma_walk_concat(Seq::empty(), front, tail);
            assert(segments(root).drop_last() =~= front);
            assert(base == walk_from(Seq::empty(), front));
            lemma_walk_stays(base, tail);
        } else {
            let x = root + seq!['/'];
            assert(x.drop_last() =~= root);
            assert(segments(x) == segments(root).push(Seq::<char>::empty()));
            lemma_segments_concat(x, rel);
            assert(segments(x).drop_last() =~= segments(root));
            assert(p =~= x + rel);
            assert(segments(p) =~= segments(root) + tail);
            lemma_walk_concat(Seq::empty(), segments(root), tail);
            lemma_walk_stays(base, tail);
        }
    }
}

/// A text without a slash is one segment.
pub proof fn lemma_segments_of_name(s: Seq<char>)
    requires
        forall|i: int| 0 <= i < s.len() ==> s[i] != '/',
    ensures
        segments(s) == seq![s],
    decreases s.len(),
{
    if s.len() == 0 {
        assert(s =~= Seq::<char>::empty());
    } else {
        lemma_segments_of_name(s.drop_last());
        assert(s.drop_last().push(s.last()) =~= s);
        assert(segments(s) =~= seq![s]);
    }
}

/// A name that is joined to a root names something below it.
pub proof fn lemma_name_joins(root: Seq<char>, name: Seq<char>)
    requires
        name.len() > 0,
        forall|i: int| 0 <= i < name.len() ==> name[i] != '/',
        !is_up(name),
    ensures
        joined(root, name) is Some,
{
    lemma_segments_of_name(name);
    let segs = segments(name);
    assert(segs.drop_last() =~= Seq::<Seq<char>>::empty());
    assert(depth(segs.drop_last()) == 0);
    assert(stays_below(segs.drop_last()));
}

} // verus!
