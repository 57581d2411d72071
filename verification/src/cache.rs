//! Validators of a file (entity tag and modification date), what the
//! conditional headers of a request make of them, and byte ranges.

use vstd::prelude::*;
use headers::Header;
use crate::path::seg_views;
use crate::text::{
    chars_of, chars_eq, decimal, find_char, first_index_of, is_digit, parse_u64, parsed_u64,
    push_chars, push_decimal, slice_chars, string_of,
};

verus! {

/// The last second that an HTTP date can name: the end of the year 9999.
pub const MAX_HTTP_SECS: u64 = 253402300799;

/// A point in time as the file system reports it.
#[derive(Clone, Copy, Debug, PartialEq, Eq, Structural)]
pub enum FileTime {
    /// Some time before 1970.
    BeforeEpoch,
    /// Seconds and nanoseconds since the start of 1970, UTC.
    Since { secs: u64, nanos: u32 },
}

/// What the file system tells about a file.
#[derive(Clone, Copy, Debug, PartialEq, Eq, Structural)]
pub struct FileMeta {
    /// When the file was last modified, where that is known.
    pub modified: Option<FileTime>,
    /// Size in bytes.
    pub size: u64,
}

/// One byte range of a `Range` header: from `start` to `end`, both
/// included, or to the end of the file.
#[derive(Clone, Copy, Debug, PartialEq, Eq, Structural)]
pub struct RangeValue {
    pub start: u64,
    pub end: Option<u64>,
}

/// Milliseconds since 1970 of a point in time, cut to 64 bits; 0 for a time
/// before 1970.
pub open spec fn timestamp(time: FileTime) -> u64 {
    match time {
        FileTime::BeforeEpoch => 0,
        FileTime::Since { secs, nanos } => ((secs * 1000 + nanos / 1000000)
            % 0x1_0000_0000_0000_0000) as u64,
    }
}

/// Milliseconds since 1970 of a point in time.
pub fn to_timestamp(time: &FileTime) -> (r: u64)
    ensures
        r == timestamp(*time),
{
    match time {
        FileTime::BeforeEpoch => 0,
        FileTime::Since { secs, nanos } => {
            let millis: u128 = (*secs as u128) * 1000 + ((*nanos / 1000000) as u128);
            (millis % 0x1_0000_0000_0000_0000u128) as u64
        },
    }
}

/// The entity tag of a file: its modification time in milliseconds, a
/// hyphen and its size, between double quotes.
pub open spec fn etag_text(mtime_ms: u64, size: u64) -> Seq<char> {
    seq!['"'] + decimal(mtime_ms as nat) + seq!['-'] + decimal(size as nat) + seq!['"']
}

/// The entity tag of a file.
pub fn etag_of(mtime_ms: u64, size: u64) -> (r: String)
    ensures
        r@ == etag_text(mtime_ms, size),
{
    let mut out: Vec<char> = Vec::new();
    out.push('"');
    push_decimal(&mut out, mtime_ms);
    out.push('-');
    push_decimal(&mut out, size);
    out.push('"');
    assert(out@ =~= etag_text(mtime_ms, size));
    string_of(out.as_slice())
}

/// The validators of a file, if it has any: its entity tag and the second
/// of its last modification. A file has none when its modification time is
/// unknown or lies outside the years that an HTTP date can name.
pub open spec fn cache_headers(meta: FileMeta) -> Option<(Seq<char>, u64)> {
    match meta.modified {
        Some(FileTime::Since { secs, nanos }) => if secs <= MAX_HTTP_SECS {
            Some((etag_text(timestamp(FileTime::Since { secs, nanos }), meta.size), secs))
        } else {
            None
        },
        _ => None,
    }
}

/// The validators of a file, if it has any.
pub fn extract_cache_headers(meta: &FileMeta) -> (r: Option<(String, u64)>)
    ensures
        r is Some <==> cache_headers(*meta) is Some,
        r matches Some(v) ==> cache_headers(*meta) == Some((v.0@, v.1)) && v.1 <= MAX_HTTP_SECS,
{
    match meta.modified {
        Some(FileTime::Since { secs, nanos }) => {
            if secs <= MAX_HTTP_SECS {
                let time = FileTime::Since { secs, nanos };
                Some((etag_of(to_timestamp(&time), meta.size), secs))
            } else {
                None
            }
        },
        _ => None,
    }
}

/// An entity tag of the plain kind that this server makes: digits and
/// hyphens between double quotes.
pub open spec fn is_plain_etag(s: Seq<char>) -> bool {
    &&& s.len() >= 2
    &&& s[0] == '"'
    &&& s.last() == '"'
    &&& forall|i: int| 0 < i < s.len() - 1 ==> is_digit(#[trigger] s[i]) || s[i] == '-'
}

/// What an `If-None-Match` header makes of an entity tag: whether the
/// precondition passes, that is, whether none of the tags that the header
/// lists matches the given one. There is no verdict when the header or the
/// tag cannot be read.
pub uninterp spec fn none_match_passes(header: Seq<char>, etag: Seq<char>) -> Option<bool>;

/// What an `If-Modified-Since` header makes of a modification second:
/// whether the file was modified after the date in the header. There is no
/// verdict when the header cannot be read.
pub uninterp spec fn modified_since(header: Seq<char>, secs: int) -> Option<bool>;

/// What an `If-Range` header makes of the validators of a file: whether the
/// file differs from what the header names. There is no verdict when the
/// header or the tag cannot be read.
pub uninterp spec fn range_modified(header: Seq<char>, etag: Seq<char>, secs: int) -> Option<
    bool,
>;

/// The date of a second since 1970 as HTTP headers write it.
pub uninterp spec fn http_date(secs: int) -> Seq<char>;

/// Whether a text holds a space or a tab between double quotes, where
/// quotes open and close in turn and `inside` tells whether one is open at
/// the start.
pub open spec fn blank_in_quotes(s: Seq<char>, inside: bool) -> bool
    decreases s.len(),
{
    if s.len() == 0 {
        false
    } else if s[0] == '"' {
        blank_in_quotes(s.drop_first(), !inside)
    } else if inside && (s[0] == ' ' || s[0] == '\t') {
        true
    } else {
        blank_in_quotes(s.drop_first(), inside)
    }
}

/// Whether the entity tags of a text can be read: no space and no tab
/// stands between a pair of quotes.
pub open spec fn tags_are_clean(s: Seq<char>) -> bool {
    !blank_in_quotes(s, false)
}

/// Whether the entity tags of a text can be read.
pub fn clean_tags(s: &str) -> (r: bool)
    ensures
        r == tags_are_clean(s@),
{
    let chars = chars_of(s);
    clean_chars(chars.as_slice())
}

fn clean_chars(chars: &[char]) -> (r: bool)
    ensures
        r == tags_are_clean(chars@),
{
    let mut inside = false;
    let mut i: usize = 0;
    assert(chars@.skip(0) =~= chars@);
    while i < chars.len()
        invariant
            i <= chars.len(),
            blank_in_quotes(chars@, false) == blank_in_quotes(chars@.skip(i as int), inside),
        decreases chars.len() - i,
    {
        proof {
            assert(chars@.skip(i as int)[0] == chars@[i as int]);
            assert(chars@.skip(i as int).drop_first() =~= chars@.skip(i + 1));
        }
        let c = chars[i];
        if c == '"' {
            inside = !inside;
        } else if inside && (c == ' ' || c == '\t') {
            return false;
        }
        i += 1;
    }
    true
}

/// A text without a space or a tab has none between quotes.
pub proof fn lemma_no_blank_is_clean(s: Seq<char>, inside: bool)
    requires
        forall|i: int| 0 <= i < s.len() ==> s[i] != ' ' && s[i] != '\t',
    ensures
        !blank_in_quotes(s, inside),
    decreases s.len(),
{
    if s.len() > 0 {
        let t = s.drop_first();
        assert forall|i: int| 0 <= i < t.len() implies t[i] != ' ' && t[i] != '\t' by {
            assert(t[i] == s[i + 1]);
        }
        lemma_no_blank_is_clean(t, inside);
        lemma_no_blank_is_clean(t, !inside);
    }
}

/// How long the first item of a list is: it ends before the first comma
/// that does not stand between quotes, or with the text.
pub open spec fn item_end(s: Seq<char>, inside: bool) -> int
    decreases s.len(),
{
    if s.len() == 0 {
        0
    } else if s[0] == ',' && !inside {
        0
    } else if s[0] == '"' {
        1 + item_end(s.drop_first(), !inside)
    } else {
        1 + item_end(s.drop_first(), inside)
    }
}

/// The items of a list, separated by commas outside quotes, whose tags can
/// be read, in their order.
pub open spec fn clean_items(s: Seq<char>) -> Seq<Seq<char>>
    decreases s.len(),
{
    let k = item_end(s, false);
    let head = if tags_are_clean(s.take(k)) {
        seq![s.take(k)]
    } else {
        Seq::<Seq<char>>::empty()
    };
    if k < 0 || k >= s.len() {
        head
    } else {
        head + clean_items(s.skip(k + 1))
    }
}

/// Items put together with a comma between each two.
pub open spec fn comma_joined(items: Seq<Seq<char>>) -> Seq<char>
    decreases items.len(),
{
    if items.len() == 0 {
        Seq::<char>::empty()
    } else if items.len() == 1 {
        items[0]
    } else {
        comma_joined(items.drop_last()) + seq![','] + items.last()
    }
}

/// A list of entity tags without the items that cannot be read.
pub open spec fn readable_tags(s: Seq<char>) -> Seq<char> {
    comma_joined(clean_items(s))
}

/// A text without a comma is one item.
pub proof fn lemma_item_without_comma(s: Seq<char>, inside: bool)
    requires
        forall|i: int| 0 <= i < s.len() ==> s[i] != ',',
    ensures
        item_end(s, inside) == s.len(),
    decreases s.len(),
{
    if s.len() > 0 {
        let t = s.drop_first();
        assert forall|i: int| 0 <= i < t.len() implies t[i] != ',' by {
            assert(t[i] == s[i + 1]);
        }
        lemma_item_without_comma(t, inside);
        lemma_item_without_comma(t, !inside);
    }
}

/// A plain tag is a list of one item that can be read: itself.
pub proof fn lemma_plain_etag_is_readable(s: Seq<char>)
    requires
        is_plain_etag(s),
    ensures
        readable_tags(s) == s,
        tags_are_clean(s),
{
    lemma_no_blank_is_clean(s, false);
    lemma_item_without_comma(s, false);
    assert(s.take(s.len() as int) =~= s);
}

/// Whether a quote is open at the end of a text, where quotes open and
/// close in turn and `inside` tells whether one is open at the start.
pub open spec fn ends_inside(s: Seq<char>, inside: bool) -> bool
    decreases s.len(),
{
    if s.len() == 0 {
        inside
    } else if s[0] == '"' {
        ends_inside(s.drop_first(), !inside)
    } else {
        ends_inside(s.drop_first(), inside)
    }
}

/// Two texts put together: a blank stands between quotes in the first, or
/// in the second as it is read behind the first; and a quote is open at
/// the end as it is in the second read behind the first.
pub proof fn lemma_quotes_concat(a: Seq<char>, b: Seq<char>, inside: bool)
    ensures
        blank_in_quotes(a + b, inside) == (blank_in_quotes(a, inside) || blank_in_quotes(
            b,
            ends_inside(a, inside),
        )),
        ends_inside(a + b, inside) == ends_inside(b, ends_inside(a, inside)),
    decreases a.len(),
{
    if a.len() == 0 {
        assert(a + b =~= b);
    } else {
        assert((a + b).drop_first() =~= a.drop_first() + b);
        assert((a + b)[0] == a[0]);
        lemma_quotes_concat(a.drop_first(), b, inside);
        lemma_quotes_concat(a.drop_first(), b, !inside);
    }
}

/// An item lies within its text, and behind an item that a comma ends no
/// quote is open.
pub proof fn lemma_item_ends_outside(s: Seq<char>, inside: bool)
    ensures
        0 <= item_end(s, inside) <= s.len(),
        item_end(s, inside) < s.len() ==> !ends_inside(s.take(item_end(s, inside)), inside),
    decreases s.len(),
{
    if s.len() > 0 {
        let t = s.drop_first();
        if s[0] == ',' && !inside {
            assert(s.take(0) =~= Seq::<char>::empty());
        } else {
            let next = if s[0] == '"' {
                !inside
            } else {
                inside
            };
            lemma_item_ends_outside(t, next);
            let k = item_end(t, next);
            assert(s.take(k + 1).drop_first() =~= t.take(k));
            assert(s.take(k + 1)[0] == s[0]);
        }
    }
}

/// Whether every item can be read, and no quote is open at the end of any
/// item but the last.
pub open spec fn items_fit(items: Seq<Seq<char>>) -> bool {
    &&& forall|i: int| 0 <= i < items.len() ==> tags_are_clean(#[trigger] items[i])
    &&& forall|i: int| 0 <= i < items.len() - 1 ==> !ends_inside(#[trigger] items[i], false)
}

/// The items of a list that can be read fit together.
pub proof fn lemma_clean_items_fit(s: Seq<char>)
    ensures
        items_fit(clean_items(s)),
    decreases s.len(),
{
    lemma_item_ends_outside(s, false);
    let k = item_end(s, false);
    if k < s.len() {
        let rest = clean_items(s.skip(k + 1));
        lemma_clean_items_fit(s.skip(k + 1));
        let all = clean_items(s);
        if tags_are_clean(s.take(k)) {
            assert(all =~= seq![s.take(k)] + rest);
            assert forall|i: int| 0 <= i < all.len() implies tags_are_clean(
                #[trigger] all[i],
            ) by {
                if i > 0 {
                    assert(all[i] == rest[i - 1]);
                }
            }
            assert forall|i: int| 0 <= i < all.len() - 1 implies !ends_inside(
                #[trigger] all[i],
                false,
            ) by {
                if i > 0 {
                    assert(all[i] == rest[i - 1]);
                }
            }
        } else {
            assert(all =~= rest);
        }
    }
}

/// Items that fit together make a list that can be read.
pub proof fn lemma_fitting_items_join_clean(items: Seq<Seq<char>>)
    requires
        items_fit(items),
    ensures
        tags_are_clean(comma_joined(items)),
        items.len() > 0 ==> ends_inside(comma_joined(items), false) == ends_inside(
            items.last(),
            false,
        ),
    decreases items.len(),
{
    if items.len() > 1 {
        let init = items.drop_last();
        assert(items_fit(init)) by {
            assert forall|i: int| 0 <= i < init.len() implies tags_are_clean(
                #[trigger] init[i],
            ) by {
                assert(init[i] == items[i]);
            }
            assert forall|i: int| 0 <= i < init.len() - 1 implies !ends_inside(
                #[trigger] init[i],
                false,
            ) by {
                assert(init[i] == items[i]);
            }
        }
        lemma_fitting_items_join_clean(init);
        assert(init.last() == items[items.len() - 2]);
        let front = comma_joined(init);
        lemma_quotes_concat(front, seq![','], false);
        lemma_quotes_concat(front + seq![','], items.last(), false);
        let comma = seq![','];
        let none = Seq::<char>::empty();
        assert(!blank_in_quotes(none, false));
        assert(!ends_inside(none, false));
        assert(comma.drop_first() =~= none);
        assert(comma[0] == ',');
        assert(!blank_in_quotes(comma, false));
        assert(!ends_inside(comma, false));
    }
}

/// A list of entity tags without the items that cannot be read can be
/// read.
pub proof fn lemma_readable_tags_are_clean(s: Seq<char>)
    ensures
        tags_are_clean(readable_tags(s)),
{
    lemma_clean_items_fit(s);
    lemma_fitting_items_join_clean(clean_items(s));
}

fn first_item_end(s: &[char], start: usize) -> (r: usize)
    requires
        start <= s.len(),
    ensures
        start <= r <= s.len(),
        r - start == item_end(s@.skip(start as int), false),
{
    let mut i: usize = start;
    let mut inside = false;
    while i < s.len() && !(s[i] == ',' && !inside)
        invariant
            start <= i <= s.len(),
            item_end(s@.skip(start as int), false) == (i - start) + item_end(
                s@.skip(i as int),
                inside,
            ),
        decreases s.len() - i,
    {
        proof {
            assert(s@.skip(i as int)[0] == s@[i as int]);
            assert(s@.skip(i as int).drop_first() =~= s@.skip(i + 1));
        }
        if s[i] == '"' {
            inside = !inside;
        }
        i += 1;
    }
    proof {
        if i < s.len() {
            assert(s@.skip(i as int)[0] == s@[i as int]);
        }
    }
    i
}

/// A list of entity tags without the items that cannot be read.
pub fn readable_tags_of(header: &str) -> (r: String)
    ensures
        r@ == readable_tags(header@),
{
    let s = chars_of(header);
    let mut kept: Vec<Vec<char>> = Vec::new();
    let mut start: usize = 0;
    let mut finished = false;
    proof {
        assert(s@.skip(0) =~= s@);
        assert(seg_views(kept@) + clean_items(s@) =~= clean_items(s@));
    }
    while !finished
        invariant
            start <= s.len(),
            s@ == header@,
            !finished ==> clean_items(s@) == seg_views(kept@) + clean_items(s@.skip(start as int)),
            finished ==> clean_items(s@) == seg_views(kept@),
        decreases
                (if finished {
                    0
                } else {
                    s.len() - start + 1
                }),
    {
        let ghost rest = s@.skip(start as int);
        let ghost before = seg_views(kept@);
        let end = first_item_end(s.as_slice(), start);
        let item = slice_chars(s.as_slice(), start, end);
        assert(item@ =~= rest.take(end - start));
        if clean_chars(item.as_slice()) {
            kept.push(item);
            assert(seg_views(kept@) =~= before + seq![rest.take(end - start)]);
        } else {
            assert(seg_views(kept@) =~= before + Seq::<Seq<char>>::empty());
        }
        if end >= s.len() {
            finished = true;
        } else {
            assert(rest.skip(end - start + 1) =~= s@.skip(end + 1));
            start = end + 1;
        }
    }
    let mut out: Vec<char> = Vec::new();
    let mut j: usize = 0;
    let ghost items = seg_views(kept@);
    assert(items.take(0) =~= Seq::<Seq<char>>::empty());
    while j < kept.len()
        invariant
            j <= kept.len(),
            items == seg_views(kept@),
            out@ == comma_joined(items.take(j as int)),
        decreases kept.len() - j,
    {
        proof {
            let t = items.take(j + 1);
            assert(t.drop_last() =~= items.take(j as int));
            assert(t.last() == kept@[j as int]@);
        }
        if j > 0 {
            out.push(',');
        }
        push_chars(&mut out, kept[j].as_slice());
        proof {
            if j == 0 {
                assert(out@ =~= items.take(1)[0]);
            }
        }
        j += 1;
    }
    assert(items.take(items.len() as int) =~= items);
    string_of(out.as_slice())
}

/// `headers::IfNoneMatch::precondition_passes`, on the header decoded from
/// `header` and the entity tag parsed from `etag`. Neither text may hold a
/// space or a tab between quotes: the crate does not read such a tag. A
/// header that repeats a plain tag literally matches it, so the
/// precondition fails.
#[verifier::external_body]
fn if_none_match_passes(header: &str, etag: &str) -> (r: Option<bool>)
    requires
        tags_are_clean(header@),
        tags_are_clean(etag@),
    ensures
        r == none_match_passes(header@, etag@),
        header@ == etag@ && is_plain_etag(etag@) ==> r == Some(false),
{
    let value = headers::HeaderValue::from_str(header).ok()?;
    let parsed = headers::IfNoneMatch::decode(&mut std::iter::once(&value)).ok()?;
    let tag = etag.parse::<headers::ETag>().ok()?;
    Some(parsed.precondition_passes(&tag))
}

/// `headers::IfModifiedSince::is_modified`, on the header decoded from
/// `header` and the time `secs` seconds after the start of 1970.
#[verifier::external_body]
fn if_modified_since(header: &str, secs: u64) -> (r: Option<bool>)
    requires
        secs <= MAX_HTTP_SECS,
    ensures
        r == modified_since(header@, secs as int),
{
    let value = headers::HeaderValue::from_str(header).ok()?;
    let parsed = headers::IfModifiedSince::decode(&mut std::iter::once(&value)).ok()?;
    let time = std::time::UNIX_EPOCH + std::time::Duration::from_secs(secs);
    Some(parsed.is_modified(time))
}

/// `headers::IfRange::is_modified`, on the header decoded from `header`,
/// the entity tag parsed from `etag` and the modification date `secs`
/// seconds after the start of 1970. Neither text may hold a space or a tab
/// between quotes: the crate does not read such a tag.
#[verifier::external_body]
fn if_range_modified(header: &str, etag: &str, secs: u64) -> (r: Option<bool>)
    requires
        secs <= MAX_HTTP_SECS,
        tags_are_clean(header@),
        tags_are_clean(etag@),
    ensures
        r == range_modified(header@, etag@, secs as int),
{
    let value = headers::HeaderValue::from_str(header).ok()?;
    let parsed = headers::IfRange::decode(&mut std::iter::once(&value)).ok()?;
    let tag = etag.parse::<headers::ETag>().ok()?;
    let time = std::time::UNIX_EPOCH + std::time::Duration::from_secs(secs);
    Some(parsed.is_modified(Some(&tag), Some(&headers::LastModified::from(time))))
}

/// The value that `headers::LastModified` encodes for the time `secs`
/// seconds after the start of 1970.
#[verifier::external_body]
pub(crate) fn last_modified_value(secs: u64) -> (r: String)
    requires
        secs <= MAX_HTTP_SECS,
    ensures
        r@ == http_date(secs as int),
{
    let time = std::time::UNIX_EPOCH + std::time::Duration::from_secs(secs);
    let mut values: Vec<headers::HeaderValue> = Vec::new();
    headers::LastModified::from(time).encode(&mut values);
    String::from_utf8_lossy(values[0].as_bytes()).into_owned()
}

/// The conditional headers of a request, each as it was sent.
#[derive(Clone, Debug, PartialEq, Eq)]
pub struct Conditions {
    pub if_none_match: Option<String>,
    pub if_modified_since: Option<String>,
    pub if_range: Option<String>,
    pub range: Option<String>,
}

/// What the conditional headers of a request make of a file's validators.
#[derive(Clone, Copy, Debug, PartialEq, Eq, Structural)]
pub struct Verdicts {
    /// Whether the `If-None-Match` precondition passes.
    pub none_match: Option<bool>,
    /// Whether the file was modified after the `If-Modified-Since` date.
    pub modified_since: Option<bool>,
    /// Whether the file differs from what `If-Range` names.
    pub range_modified: Option<bool>,
}

/// The verdicts of the headers in `cond` on the validators `etag` and
/// `secs`; a header that is absent gives none. The tag of the file is held
/// against those items of `If-None-Match` that can be read. `If-Range`
/// gives no verdict when its tag cannot be read, and neither header does
/// when the tag of the file cannot.
pub open spec fn verdicts_of(cond: Conditions, etag: Seq<char>, secs: int) -> Verdicts {
    Verdicts {
        none_match: match cond.if_none_match {
            Some(h) => if tags_are_clean(etag) {
                none_match_passes(readable_tags(h@), etag)
            } else {
                None
            },
            None => None,
        },
        modified_since: match cond.if_modified_since {
            Some(h) => modified_since(h@, secs),
            None => None,
        },
        range_modified: match cond.if_range {
            Some(h) => if tags_are_clean(h@) && tags_are_clean(etag) {
                range_modified(h@, etag, secs)
            } else {
                None
            },
            None => None,
        },
    }
}

impl Verdicts {
    /// No verdict at all.
    pub fn none() -> (r: Verdicts)
        ensures
            r == (Verdicts { none_match: None, modified_since: None, range_modified: None }),
    {
        Verdicts { none_match: None, modified_since: None, range_modified: None }
    }

    /// The verdicts of the conditional headers on a file's validators. A
    /// request that repeats the file's own tag in `If-None-Match` gets the
    /// verdict that the precondition fails.
    pub fn evaluate(cond: &Conditions, etag: &str, secs: u64) -> (r: Verdicts)
        requires
            secs <= MAX_HTTP_SECS,
        ensures
            r == verdicts_of(*cond, etag@, secs as int),
            cond.if_none_match matches Some(h) && h@ == etag@ && is_plain_etag(etag@)
                ==> r.none_match == Some(false),
    {
        let clean = clean_tags(etag);
        proof {
            if is_plain_etag(etag@) {
                lemma_plain_etag_is_readable(etag@);
            }
        }
        Verdicts {
            none_match: match &cond.if_none_match {
                Some(h) => {
                    let tags = readable_tags_of(h.as_str());
                    proof {
                        lemma_readable_tags_are_clean(h@);
                    }
                    if clean {
                        if_none_match_passes(tags.as_str(), etag)
                    } else {
                        None
                    }
                },
                None => None,
            },
            modified_since: match &cond.if_modified_since {
                Some(h) => if_modified_since(h.as_str(), secs),
                None => None,
            },
            range_modified: match &cond.if_range {
                Some(h) => if clean && clean_tags(h.as_str()) {
                    if_range_modified(h.as_str(), etag, secs)
                } else {
                    None
                },
                None => None,
            },
        }
    }
}

/// The first byte range that a `Range` header names. The header reads
/// `bytes=`, then ranges separated by commas; a range is a start, a hyphen
/// and optionally an end. There is none when the unit is not `bytes`, or
/// when the start or the end of the first range is not a number.
pub open spec fn parsed_range(header: Seq<char>) -> Option<RangeValue> {
    let eq = first_index_of(header, '=');
    if eq >= header.len() || header.take(eq) != "bytes"@ {
        None
    } else {
        let set = header.skip(eq + 1);
        let first = set.take(first_index_of(set, ','));
        let dash = first_index_of(first, '-');
        match parsed_u64(first.take(dash)) {
            None => None,
            Some(start) => if dash + 1 >= first.len() {
                Some(RangeValue { start, end: None })
            } else {
                match parsed_u64(first.skip(dash + 1)) {
                    Some(end) => Some(RangeValue { start, end: Some(end) }),
                    None => None,
                }
            },
        }
    }
}

/// Reads the first byte range of a `Range` header.
pub fn parse_range(header: &str) -> (r: Option<RangeValue>)
    ensures
        r == parsed_range(header@),
{
    let h = chars_of(header);
    let eq = find_char(h.as_slice(), '=');
    if eq >= h.len() {
        return None;
    }
    let units = slice_chars(h.as_slice(), 0, eq);
    assert(units@ =~= h@.take(eq as int));
    let bytes = chars_of("bytes");
    if !chars_eq(units.as_slice(), bytes.as_slice()) {
        return None;
    }
    let set = slice_chars(h.as_slice(), eq + 1, h.len());
    assert(set@ =~= h@.skip(eq + 1));
    let comma = find_char(set.as_slice(), ',');
    let first = slice_chars(set.as_slice(), 0, comma);
    assert(first@ =~= set@.take(comma as int));
    let dash = find_char(first.as_slice(), '-');
    let head = slice_chars(first.as_slice(), 0, dash);
    assert(head@ =~= first@.take(dash as int));
    let start = match parse_u64(head.as_slice()) {
        Some(v) => v,
        None => {
            return None;
        },
    };
    if dash >= first.len() || dash + 1 >= first.len() {
        return Some(RangeValue { start, end: None });
    }
    let tail = slice_chars(first.as_slice(), dash + 1, first.len());
    assert(tail@ =~= first@.skip(dash + 1));
    match parse_u64(tail.as_slice()) {
        Some(end) => Some(RangeValue { start, end: Some(end) }),
        None => None,
    }
}

/// What part of a file of `size` bytes a request gets.
#[derive(Clone, Copy, Debug, PartialEq, Eq, Structural)]
pub enum Span {
    /// The whole file.
    Whole,
    /// The bytes from `start` to `end`, both included.
    Part { start: u64, end: u64 },
    /// Nothing: the range lies outside the file.
    Unsatisfiable,
}

/// The part of a file of `size` bytes that a range names. A range can be
/// met when it starts inside the file and does not end before its start;
/// its end is then cut to the last byte of the file.
pub open spec fn span_of(range: Option<RangeValue>, size: u64) -> Span {
    match range {
        None => Span::Whole,
        Some(r) => if r.start < size && (r.end is None || r.end->0 >= r.start) {
            Span::Part {
                start: r.start,
                end: if r.end is Some && r.end->0 < size - 1 {
                    r.end->0
                } else {
                    (size - 1) as u64
                },
            }
        } else {
            Span::Unsatisfiable
        },
    }
}

/// The part of a file of `size` bytes that a range names.
pub fn resolve_range(range: Option<RangeValue>, size: u64) -> (r: Span)
    ensures
        r == span_of(range, size),
        r matches Span::Part { start, end } ==> start <= end < size,
{
    match range {
        None => Span::Whole,
        Some(r) => {
            let satisfiable = r.start < size && match r.end {
                Some(e) => e >= r.start,
                None => true,
            };
            if satisfiable {
                let last = size - 1;
                let end = match r.end {
                    Some(e) => if e < last {
                        e
                    } else {
                        last
                    },
                    None => last,
                };
                Span::Part { start: r.start, end }
            } else {
                Span::Unsatisfiable
            }
        },
    }
}

/// The `Content-Range` value of a part: `bytes`, the first and last byte
/// and the size of the file.
pub open spec fn content_range_text(start: u64, end: u64, size: u64) -> Seq<char> {
    "bytes "@ + decimal(start as nat) + seq!['-'] + decimal(end as nat) + seq!['/'] + decimal(
        size as nat,
    )
}

/// The `Content-Range` value that tells the size of a file whose range
/// could not be met.
pub open spec fn unsatisfied_range_text(size: u64) -> Seq<char> {
    "bytes */"@ + decimal(size as nat)
}

/// The `Content-Range` value of a part.
pub fn content_range_of(start: u64, end: u64, size: u64) -> (r: String)
    ensures
        r@ == content_range_text(start, end, size),
{
    let mut out = chars_of("bytes ");
    push_decimal(&mut out, start);
    out.push('-');
    push_decimal(&mut out, end);
    out.push('/');
    push_decimal(&mut out, size);
    assert(out@ =~= content_range_text(start, end, size));
    string_of(out.as_slice())
}

/// The `Content-Range` value for a range that could not be met.
pub fn unsatisfied_range_of(size: u64) -> (r: String)
    ensures
        r@ == unsatisfied_range_text(size),
{
    let mut out = chars_of("bytes */");
    push_decimal(&mut out, size);
    string_of(out.as_slice())
}

} // verus!
