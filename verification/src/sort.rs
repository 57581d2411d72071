//! The order in which a listing shows its entries.

use vstd::prelude::*;
use crate::listing::{items_view, PathItem, PathItemView, PathType};
use crate::natural::{natural_order, natural_order_of};
use crate::request::{Query, QueryView};
use crate::text::{chars_of, lowercased, str_eq, to_lowercase};

verus! {

/// What a listing is ordered by.
#[derive(Clone, Copy, Debug, PartialEq, Eq, Structural)]
pub enum SortKey {
    /// By kind, then by name in natural order and without regard to case:
    /// the order of a request that names none.
    Default,
    /// By name, in natural order, without regard to case.
    Name,
    /// By modification time.
    Mtime,
    /// By size, directories counting as 0.
    Size,
    /// Not at all: the request names an order that is not known.
    Unsorted,
}

/// The order that a query asks for.
pub open spec fn sort_key_of(query: QueryView) -> SortKey {
    match query.sort {
        None => SortKey::Default,
        Some(s) => if s == "name"@ {
            SortKey::Name
        } else if s == "mtime"@ {
            SortKey::Mtime
        } else if s == "size"@ {
            SortKey::Size
        } else {
            SortKey::Unsorted
        },
    }
}

/// Whether a query asks for the reverse of its order: it names an order,
/// and `desc` as the direction.
pub open spec fn is_descending(query: QueryView) -> bool {
    query.sort is Some && query.order == Some("desc"@)
}

/// The rank of a kind of entry in the default order.
pub open spec fn kind_rank(t: PathType) -> int {
    match t {
        PathType::Dir => 0,
        PathType::SymlinkDir => 1,
        PathType::File => 2,
        PathType::SymlinkFile => 3,
    }
}

/// Whether text `a` comes before text `b`, character by character.
pub open spec fn text_less(a: Seq<char>, b: Seq<char>) -> bool
    decreases a.len(),
{
    if b.len() == 0 {
        false
    } else if a.len() == 0 {
        true
    } else if a[0] != b[0] {
        a[0] < b[0]
    } else {
        text_less(a.drop_first(), b.drop_first())
    }
}

/// Whether size `a` comes before size `b`: no size comes before any size.
pub open spec fn size_less(a: Option<u64>, b: Option<u64>) -> bool {
    match (a, b) {
        (None, Some(_)) => true,
        (Some(x), Some(y)) => x < y,
        _ => false,
    }
}

/// The size of an entry, 0 for one without.
pub open spec fn size_or_zero(size: Option<u64>) -> u64 {
    match size {
        Some(s) => s,
        None => 0,
    }
}

/// How the natural order, without regard to case, holds the name of entry
/// `a` against that of entry `b`: negative when it comes first, 0 when
/// neither comes first.
pub open spec fn name_order(a: PathItemView, b: PathItemView) -> int {
    natural_order(lowercased(a.name), lowercased(b.name))
}

/// Whether entry `a` comes before entry `b` where kind and natural order of
/// the names do not tell them apart: by the name as it is written, then by
/// time, then by size.
pub open spec fn breaks_tie(a: PathItemView, b: PathItemView) -> bool {
    ||| text_less(a.name, b.name)
    ||| (a.name == b.name && a.mtime < b.mtime)
    ||| (a.name == b.name && a.mtime == b.mtime && size_less(a.size, b.size))
}

/// Whether entry `a` comes strictly before entry `b` in an order. The
/// default order goes by kind; entries of one kind go by name, in natural
/// order and without regard to case.
pub open spec fn precedes(key: SortKey, a: PathItemView, b: PathItemView) -> bool {
    match key {
        SortKey::Default => {
            ||| kind_rank(a.path_type) < kind_rank(b.path_type)
            ||| (a.path_type == b.path_type && name_order(a, b) < 0)
            ||| (a.path_type == b.path_type && name_order(a, b) == 0 && breaks_tie(a, b))
        },
        SortKey::Name => name_order(a, b) < 0,
        SortKey::Mtime => a.mtime < b.mtime,
        SortKey::Size => size_or_zero(a.size) < size_or_zero(b.size),
        SortKey::Unsorted => false,
    }
}

/// An ordered list with one more entry: `x` stands behind the entries at
/// the front that come strictly before it.
pub open spec fn insert_left(key: SortKey, x: PathItemView, s: Seq<PathItemView>) -> Seq<
    PathItemView,
>
    decreases s.len(),
{
    if s.len() > 0 && precedes(key, s[0], x) {
        seq![s[0]] + insert_left(key, x, s.drop_first())
    } else {
        seq![x] + s
    }
}

/// A list in order: each entry, from the last to the first, is put into
/// the ordered list of those behind it. Entries of which neither comes
/// before the other keep the order that they had.
pub open spec fn sorted_by(key: SortKey, s: Seq<PathItemView>) -> Seq<PathItemView>
    decreases s.len(),
{
    if s.len() == 0 {
        s
    } else {
        insert_left(key, s[0], sorted_by(key, s.drop_first()))
    }
}

/// The listing that a query asks for: in its order, reversed where it asks
/// for that.
pub open spec fn arranged(query: QueryView, s: Seq<PathItemView>) -> Seq<PathItemView> {
    let sorted = sorted_by(sort_key_of(query), s);
    if is_descending(query) {
        sorted.reverse()
    } else {
        sorted
    }
}

/// Where `x` goes into an ordered list.
pub proof fn lemma_insert_left(key: SortKey, x: PathItemView, s: Seq<PathItemView>, p: int)
    requires
        0 <= p <= s.len(),
        forall|j: int| 0 <= j < p ==> precedes(key, #[trigger] s[j], x),
        p == s.len() || !precedes(key, s[p], x),
    ensures
        insert_left(key, x, s) == s.insert(p, x),
    decreases s.len(),
{
    if p == 0 {
        assert(seq![x] + s =~= s.insert(0, x));
    } else {
        let t = s.drop_first();
        assert forall|j: int| 0 <= j < p - 1 implies precedes(key, #[trigger] t[j], x) by {
            assert(t[j] == s[j + 1]);
        }
        lemma_insert_left(key, x, t, p - 1);
        assert(seq![s[0]] + t.insert(p - 1, x) =~= s.insert(p, x));
    }
}

/// Putting an entry into a list keeps every entry: the result holds what
/// the list held, and the entry once more.
pub proof fn lemma_insert_left_multiset(key: SortKey, x: PathItemView, s: Seq<PathItemView>)
    ensures
        insert_left(key, x, s).to_multiset() == s.to_multiset().insert(x),
    decreases s.len(),
{
    broadcast use vstd::seq_lib::group_to_multiset_ensures;

    if s.len() > 0 && precedes(key, s[0], x) {
        let t = s.drop_first();
        lemma_insert_left_multiset(key, x, t);
        let r = insert_left(key, x, t);
        assert(seq![s[0]] + r =~= r.insert(0, s[0]));
        assert(s =~= t.insert(0, s[0]));
        assert(r.insert(0, s[0]).to_multiset() =~= r.to_multiset().insert(s[0]));
        assert(t.insert(0, s[0]).to_multiset() =~= t.to_multiset().insert(s[0]));
        assert(insert_left(key, x, s).to_multiset() =~= s.to_multiset().insert(x));
    } else {
        assert(seq![x] + s =~= s.insert(0, x));
    }
}

/// Ordering a list neither drops nor adds an entry.
pub proof fn lemma_sorted_is_permutation(key: SortKey, s: Seq<PathItemView>)
    ensures
        sorted_by(key, s).to_multiset() == s.to_multiset(),
        sorted_by(key, s).len() == s.len(),
    decreases s.len(),
{
    broadcast use vstd::seq_lib::group_to_multiset_ensures;

    if s.len() > 0 {
        let t = s.drop_first();
        lemma_sorted_is_permutation(key, t);
        lemma_insert_left_multiset(key, s[0], sorted_by(key, t));
        assert(s =~= t.insert(0, s[0]));
        assert(t.insert(0, s[0]).to_multiset() =~= t.to_multiset().insert(s[0]));
        sorted_by(key, s).to_multiset_ensures();
        s.to_multiset_ensures();
    }
}

/// Whether no entry of a list comes strictly before an earlier one.
pub open spec fn is_ordered(key: SortKey, s: Seq<PathItemView>) -> bool {
    forall|i: int, j: int| 0 <= i < j < s.len() ==> !precedes(key, #[trigger] s[j], #[trigger] s[i])
}

/// Whether an order is a strict weak order: of two entries at most one
/// comes before the other, and an entry that comes before another comes
/// before a third or has the third come before the other.
pub open spec fn is_strict_weak(key: SortKey) -> bool {
    &&& forall|a: PathItemView, b: PathItemView| #[trigger]
        precedes(key, a, b) ==> !precedes(key, b, a)
    &&& forall|a: PathItemView, b: PathItemView, c: PathItemView|
        !#[trigger] precedes(key, a, b) && !#[trigger] precedes(key, b, c) ==> !precedes(key, a, c)
}

/// Putting an entry into a list that is in order leaves it in order, and
/// every entry of the result is the new one or one that the list held.
proof fn lemma_insert_left_ordered(key: SortKey, x: PathItemView, s: Seq<PathItemView>)
    requires
        is_strict_weak(key),
        is_ordered(key, s),
    ensures
        is_ordered(key, insert_left(key, x, s)),
        insert_left(key, x, s).len() == s.len() + 1,
        forall|k: int|
            0 <= k < s.len() + 1 ==> (#[trigger] insert_left(key, x, s)[k] == x || exists|m: int|
                0 <= m < s.len() && s[m] == insert_left(key, x, s)[k]),
    decreases s.len(),
{
    let r = insert_left(key, x, s);
    if s.len() > 0 && precedes(key, s[0], x) {
        let t = s.drop_first();
        assert forall|i: int, j: int| 0 <= i < j < t.len() implies !precedes(
            key,
            #[trigger] t[j],
            #[trigger] t[i],
        ) by {
            assert(t[i] == s[i + 1] && t[j] == s[j + 1]);
        }
        lemma_insert_left_ordered(key, x, t);
        let rt = insert_left(key, x, t);
        assert(r =~= seq![s[0]] + rt);
        assert forall|k: int| 0 <= k < s.len() + 1 implies (#[trigger] r[k] == x || exists|m: int|
            0 <= m < s.len() && s[m] == r[k]) by {
            if k == 0 {
                assert(s[0] == r[0]);
            } else {
                assert(r[k] == rt[k - 1]);
                if rt[k - 1] != x {
                    let m = choose|m: int| 0 <= m < t.len() && t[m] == rt[k - 1];
                    assert(s[m + 1] == r[k]);
                }
            }
        }
        assert forall|i: int, j: int| 0 <= i < j < r.len() implies !precedes(
            key,
            #[trigger] r[j],
            #[trigger] r[i],
        ) by {
            if i == 0 {
                assert(r[j] == rt[j - 1]);
                if rt[j - 1] != x {
                    let m = choose|m: int| 0 <= m < t.len() && t[m] == rt[j - 1];
                    assert(s[m + 1] == r[j]);
                    assert(!precedes(key, s[m + 1], s[0]));
                } else {
                    assert(precedes(key, s[0], x));
                }
            } else {
                assert(r[i] == rt[i - 1] && r[j] == rt[j - 1]);
            }
        }
    } else {
        assert(r =~= seq![x] + s);
        assert forall|k: int| 0 <= k < s.len() + 1 implies (#[trigger] r[k] == x || exists|m: int|
            0 <= m < s.len() && s[m] == r[k]) by {
            if k > 0 {
                assert(s[k - 1] == r[k]);
            }
        }
        assert forall|i: int, j: int| 0 <= i < j < r.len() implies !precedes(
            key,
            #[trigger] r[j],
            #[trigger] r[i],
        ) by {
            assert(r[j] == s[j - 1]);
            if i == 0 {
                assert(!precedes(key, s[0], x));
                if j - 1 > 0 {
                    assert(!precedes(key, s[j - 1], s[0]));
                }
            } else {
                assert(r[i] == s[i - 1]);
            }
        }
    }
}

/// A list put in order by a strict weak order is in order: no entry comes
/// strictly before one that stands before it.
pub proof fn lemma_sorted_is_ordered(key: SortKey, s: Seq<PathItemView>)
    requires
        is_strict_weak(key),
    ensures
        is_ordered(key, sorted_by(key, s)),
    decreases s.len(),
{
    if s.len() > 0 {
        lemma_sorted_is_ordered(key, s.drop_first());
        lemma_insert_left_ordered(key, s[0], sorted_by(key, s.drop_first()));
    }
}

/// Of two texts either one comes before the other or they are the same, and
/// only one of the three.
pub proof fn lemma_text_less_trichotomy(a: Seq<char>, b: Seq<char>)
    ensures
        text_less(a, b) || text_less(b, a) || a == b,
        !(text_less(a, b) && text_less(b, a)),
        !(text_less(a, b) && a == b),
    decreases a.len(),
{
    if a.len() == 0 || b.len() == 0 {
        if a.len() == 0 && b.len() == 0 {
            assert(a =~= b);
        }
    } else if a[0] == b[0] {
        lemma_text_less_trichotomy(a.drop_first(), b.drop_first());
        if a.drop_first() == b.drop_first() {
            assert(a =~= seq![a[0]] + a.drop_first());
            assert(b =~= seq![b[0]] + b.drop_first());
        }
        if a == b {
            assert(a.drop_first() == b.drop_first());
        }
    }
}

/// A text that comes before one that comes before a third comes before the
/// third.
pub proof fn lemma_text_less_transitive(a: Seq<char>, b: Seq<char>, c: Seq<char>)
    requires
        text_less(a, b),
        text_less(b, c),
    ensures
        text_less(a, c),
    decreases a.len(),
{
    if a.len() > 0 && b.len() > 0 && c.len() > 0 {
        if a[0] == b[0] && b[0] == c[0] {
            lemma_text_less_transitive(a.drop_first(), b.drop_first(), c.drop_first());
        }
    }
}

/// How three texts stand to each other: any two are the same or one comes
/// before the other, never both, and coming before carries over.
proof fn lemma_text_order(a: Seq<char>, b: Seq<char>, c: Seq<char>)
    ensures
        text_less(a, b) || text_less(b, a) || a == b,
        text_less(b, c) || text_less(c, b) || b == c,
        text_less(a, c) || text_less(c, a) || a == c,
        !(text_less(a, b) && text_less(b, a)),
        !(text_less(b, c) && text_less(c, b)),
        !(text_less(a, c) && text_less(c, a)),
        !text_less(a, a) && !text_less(b, b) && !text_less(c, c),
        text_less(a, b) && text_less(b, c) ==> text_less(a, c),
        text_less(a, c) && text_less(c, b) ==> text_less(a, b),
        text_less(b, a) && text_less(a, c) ==> text_less(b, c),
        text_less(b, c) && text_less(c, a) ==> text_less(b, a),
        text_less(c, a) && text_less(a, b) ==> text_less(c, b),
        text_less(c, b) && text_less(b, a) ==> text_less(c, a),
{
    lemma_text_less_trichotomy(a, b);
    lemma_text_less_trichotomy(b, c);
    lemma_text_less_trichotomy(a, c);
    lemma_text_less_irreflexive(a);
    lemma_text_less_irreflexive(b);
    lemma_text_less_irreflexive(c);
    if text_less(a, b) && text_less(b, c) {
        lemma_text_less_transitive(a, b, c);
    }
    if text_less(a, c) && text_less(c, b) {
        lemma_text_less_transitive(a, c, b);
    }
    if text_less(b, a) && text_less(a, c) {
        lemma_text_less_transitive(b, a, c);
    }
    if text_less(b, c) && text_less(c, a) {
        lemma_text_less_transitive(b, c, a);
    }
    if text_less(c, a) && text_less(a, b) {
        lemma_text_less_transitive(c, a, b);
    }
    if text_less(c, b) && text_less(b, a) {
        lemma_text_less_transitive(c, b, a);
    }
}

/// The orders by time and by size, and the order that leaves a list as it
/// is, are strict weak orders.
pub proof fn lemma_own_orders_are_strict_weak(key: SortKey)
    requires
        key != SortKey::Name,
        key != SortKey::Default,
    ensures
        is_strict_weak(key),
{
}

/// Whether the natural order is an order of texts: held the other way
/// round it gives the opposite, and a text that does not come after a
/// second, which does not come after a third, does not come after the
/// third.
pub open spec fn natural_order_is_sound() -> bool {
    &&& forall|x: Seq<char>, y: Seq<char>| #[trigger]
        natural_order(x, y) < 0 <==> natural_order(y, x) > 0
    &&& forall|x: Seq<char>, y: Seq<char>, z: Seq<char>|
        #[trigger] natural_order(x, y) <= 0 && #[trigger] natural_order(y, z) <= 0
            ==> natural_order(x, z) <= 0
}

/// Where the natural order is an order of texts, the order by name and the
/// default order are strict weak orders.
pub proof fn lemma_name_orders_are_strict_weak(key: SortKey)
    requires
        natural_order_is_sound(),
        key == SortKey::Name || key == SortKey::Default,
    ensures
        is_strict_weak(key),
{
    assert forall|a: PathItemView, b: PathItemView| #[trigger]
        precedes(key, a, b) implies !precedes(key, b, a) by {
        lemma_text_order(a.name, b.name, a.name);
        let x = lowercased(a.name);
        let y = lowercased(b.name);
        assert(natural_order(x, y) < 0 <==> natural_order(y, x) > 0);
        assert(natural_order(y, x) < 0 <==> natural_order(x, y) > 0);
    }
    assert forall|a: PathItemView, b: PathItemView, c: PathItemView|
        !#[trigger] precedes(key, a, b) && !#[trigger] precedes(key, b, c) implies !precedes(
        key,
        a,
        c,
    ) by {
        lemma_text_order(a.name, b.name, c.name);
        let x = lowercased(a.name);
        let y = lowercased(b.name);
        let z = lowercased(c.name);
        assert(natural_order(x, y) < 0 <==> natural_order(y, x) > 0);
        assert(natural_order(y, x) < 0 <==> natural_order(x, y) > 0);
        assert(natural_order(y, z) < 0 <==> natural_order(z, y) > 0);
        assert(natural_order(z, y) < 0 <==> natural_order(y, z) > 0);
        assert(natural_order(x, z) < 0 <==> natural_order(z, x) > 0);
        assert(natural_order(z, x) < 0 <==> natural_order(x, z) > 0);
        assert(natural_order(z, y) <= 0 && natural_order(y, x) <= 0 ==> natural_order(z, x) <= 0);
        assert(natural_order(x, z) <= 0 && natural_order(z, y) <= 0 ==> natural_order(x, y) <= 0);
        assert(natural_order(y, x) <= 0 && natural_order(x, z) <= 0 ==> natural_order(y, z) <= 0);
        assert(natural_order(x, y) <= 0 && natural_order(y, z) <= 0 ==> natural_order(x, z) <= 0);
        assert(natural_order(y, z) <= 0 && natural_order(z, x) <= 0 ==> natural_order(y, x) <= 0);
        assert(natural_order(z, x) <= 0 && natural_order(x, y) <= 0 ==> natural_order(z, y) <= 0);
    }
}

/// No text comes before itself.
pub proof fn lemma_text_less_irreflexive(s: Seq<char>)
    ensures
        !text_less(s, s),
    decreases s.len(),
{
    if s.len() > 0 {
        lemma_text_less_irreflexive(s.drop_first());
    }
}

fn text_precedes(a: &str, b: &str) -> (r: bool)
    ensures
        r == text_less(a@, b@),
{
    let x = chars_of(a);
    let y = chars_of(b);
    let mut i: usize = 0;
    assert(x@.skip(0) =~= x@ && y@.skip(0) =~= y@);
    while i < x.len() && i < y.len()
        invariant
            i <= x.len(),
            i <= y.len(),
            x@ == a@,
            y@ == b@,
            text_less(x@, y@) == text_less(x@.skip(i as int), y@.skip(i as int)),
        decreases x.len() - i,
    {
        proof {
            assert(x@.skip(i as int)[0] == x@[i as int]);
            assert(y@.skip(i as int)[0] == y@[i as int]);
            assert(x@.skip(i as int).drop_first() =~= x@.skip(i + 1));
            assert(y@.skip(i as int).drop_first() =~= y@.skip(i + 1));
        }
        if x[i] != y[i] {
            return x[i] < y[i];
        }
        i += 1;
    }
    i < y.len()
}

fn comes_before(key: SortKey, a: &PathItem, b: &PathItem) -> (r: bool)
    ensures
        r == precedes(key, a@, b@),
{
    match key {
        SortKey::Default => {
            let ra = rank_of(a.path_type);
            let rb = rank_of(b.path_type);
            if ra != rb {
                return ra < rb;
            }
            let x = to_lowercase(a.name.as_str());
            let y = to_lowercase(b.name.as_str());
            let by_name = natural_order_of(x.as_str(), y.as_str());
            if by_name != 0 {
                return by_name < 0;
            }
            if !str_eq(a.name.as_str(), b.name.as_str()) {
                let less = text_precedes(a.name.as_str(), b.name.as_str());
                return less;
            }
            proof {
                lemma_text_less_irreflexive(a.name@);
            }
            if a.mtime != b.mtime {
                return a.mtime < b.mtime;
            }
            match (a.size, b.size) {
                (None, Some(_)) => true,
                (Some(x), Some(y)) => x < y,
                _ => false,
            }
        },
        SortKey::Name => {
            let x = to_lowercase(a.name.as_str());
            let y = to_lowercase(b.name.as_str());
            natural_order_of(x.as_str(), y.as_str()) < 0
        },
        SortKey::Mtime => a.mtime < b.mtime,
        SortKey::Size => {
            let x = match a.size {
                Some(s) => s,
                None => 0,
            };
            let y = match b.size {
                Some(s) => s,
                None => 0,
            };
            x < y
        },
        SortKey::Unsorted => false,
    }
}

fn rank_of(t: PathType) -> (r: u8)
    ensures
        r == kind_rank(t),
{
    match t {
        PathType::Dir => 0,
        PathType::SymlinkDir => 1,
        PathType::File => 2,
        PathType::SymlinkFile => 3,
    }
}

/// The order that a query asks for.
pub fn sort_key(query: &Query) -> (r: SortKey)
    ensures
        r == sort_key_of(query@),
{
    match &query.sort {
        None => SortKey::Default,
        Some(s) => {
            if str_eq(s.as_str(), "name") {
                SortKey::Name
            } else if str_eq(s.as_str(), "mtime") {
                SortKey::Mtime
            } else if str_eq(s.as_str(), "size") {
                SortKey::Size
            } else {
                SortKey::Unsorted
            }
        },
    }
}

/// Whether a query asks for the reverse of its order.
pub fn descending(query: &Query) -> (r: bool)
    ensures
        r == is_descending(query@),
{
    if query.sort.is_none() {
        return false;
    }
    match &query.order {
        Some(o) => str_eq(o.as_str(), "desc"),
        None => false,
    }
}

/// Puts a listing in order.
pub fn sort_paths(paths: Vec<PathItem>, key: SortKey) -> (r: Vec<PathItem>)
    ensures
        items_view(r@) == sorted_by(key, items_view(paths@)),
{
    let ghost all = items_view(paths@);
    let mut input = paths;
    let mut out: Vec<PathItem> = Vec::new();
    proof {
        assert(all.skip(all.len() as int) =~= Seq::<PathItemView>::empty());
        assert(items_view(out@) =~= Seq::<PathItemView>::empty());
    }
    while input.len() > 0
        invariant
            input@.len() <= all.len(),
            items_view(input@) == all.take(input@.len() as int),
            items_view(out@) == sorted_by(key, all.skip(input@.len() as int)),
        decreases input.len(),
    {
        let ghost n = input@.len() as int;
        let ghost tail = all.skip(n - 1);
        let ghost done = items_view(out@);
        let ghost before = items_view(input@);
        let x = input.pop().unwrap();
        proof {
            assert(x@ == before[n - 1]);
            assert(x@ == all[n - 1]);
            assert(tail[0] == x@);
            assert(tail.drop_first() =~= all.skip(n));
            assert(items_view(input@) =~= all.take(n - 1));
        }
        let mut p: usize = 0;
        while p < out.len() && comes_before(key, &out[p], &x)
            invariant
                p <= out.len(),
                done == items_view(out@),
                forall|j: int| 0 <= j < p ==> precedes(key, #[trigger] done[j], x@),
            decreases out.len() - p,
        {
            p += 1;
        }
        proof {
            lemma_insert_left(key, x@, done, p as int);
        }
        out.insert(p, x);
        assert(items_view(out@) =~= done.insert(p as int, x@));
    }
    assert(all.skip(0) =~= all);
    out
}

/// Turns a listing round.
pub fn reverse_paths(paths: Vec<PathItem>) -> (r: Vec<PathItem>)
    ensures
        items_view(r@) == items_view(paths@).reverse(),
{
    let ghost all = items_view(paths@);
    let mut input = paths;
    let mut out: Vec<PathItem> = Vec::new();
    while input.len() > 0
        invariant
            input@.len() + out@.len() == all.len(),
            items_view(input@) == all.take(input@.len() as int),
            forall|k: int| 0 <= k < out@.len() ==> out@[k]@ == all[all.len() - 1 - k],
        decreases input.len(),
    {
        let ghost n = input@.len() as int;
        let ghost before = items_view(input@);
        let x = input.pop().unwrap();
        proof {
            assert(x@ == before[n - 1]);
            assert(items_view(input@) =~= all.take(n - 1));
        }
        out.push(x);
    }
    assert(items_view(out@) =~= all.reverse());
    out
}

/// Arranges a listing as a query asks.
pub fn arrange(paths: Vec<PathItem>, query: &Query) -> (r: Vec<PathItem>)
    ensures
        items_view(r@) == arranged(query@, items_view(paths@)),
{
    let sorted = sort_paths(paths, sort_key(query));
    if descending(query) {
        reverse_paths(sorted)
    } else {
        sorted
    }
}

} // verus!
