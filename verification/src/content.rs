//! The `Content-Type` and `Content-Disposition` of a file.

use vstd::prelude::*;
use vstd::string::*;
use crate::response::{HeadersView, Response, ResponseView};
use crate::text::chars_of;
use crate::uri::{encode_uri, uri_encoded};

verus! {

/// Why a request could not be answered by the rules: the caller answers
/// with 500 and logs the reason.
#[derive(Clone, Copy, Debug, PartialEq, Eq, Structural)]
pub enum Failure {
    /// A path has no file name.
    NoFileName,
    /// A header value would hold a control character.
    HeaderValue,
    /// A path does not lie below the served directory.
    OutsideRoot,
    /// No challenge is there to send to a caller without credentials.
    Challenge,
    /// The search lacks its query.
    InvalidQuery,
}

impl Failure {
    /// The failure in words, for the log.
    pub fn message(&self) -> (r: String)
        ensures
            r@ == (match *self {
                Failure::NoFileName => "Failed to get file name"@,
                Failure::HeaderValue => "failed to parse header value"@,
                Failure::OutsideRoot => "prefix not found"@,
                Failure::Challenge => "Failed to make the challenge"@,
                Failure::InvalidQuery => "invalid q"@,
            }),
    {
        match self {
            Failure::NoFileName => "Failed to get file name".to_owned(),
            Failure::HeaderValue => "failed to parse header value".to_owned(),
            Failure::OutsideRoot => "prefix not found".to_owned(),
            Failure::Challenge => "Failed to make the challenge".to_owned(),
            Failure::InvalidQuery => "invalid q".to_owned(),
        }
    }
}

/// Whether a text can be the value of a header: it holds no control
/// character but the tab.
pub open spec fn is_field_value(s: Seq<char>) -> bool {
    forall|i: int| 0 <= i < s.len() ==> is_field_char(#[trigger] s[i])
}

/// Whether a character may stand in the value of a header.
pub open spec fn is_field_char(c: char) -> bool {
    (c >= ' ' && c != '\x7f') || c == '\t'
}

/// Whether a text can be the value of a header.
pub fn valid_header_value(s: &str) -> (r: bool)
    ensures
        r == is_field_value(s@),
{
    let chars = chars_of(s);
    let mut i: usize = 0;
    while i < chars.len()
        invariant
            i <= chars.len(),
            chars@ == s@,
            forall|k: int| 0 <= k < i ==> is_field_char(#[trigger] chars@[k]),
        decreases chars.len() - i,
    {
        let c = chars[i];
        if !((c >= ' ' && c != '\x7f') || c == '\t') {
            assert(!is_field_char(s@[i as int]));
            return false;
        }
        i += 1;
    }
    true
}

/// The media type that `mime_guess` knows for the extension of a path, if
/// it knows one.
pub uninterp spec fn mime_of_path(path: Seq<char>) -> Option<Seq<char>>;

/// The encoding that `chardetng` guesses for a text, by name, and whether
/// it is confident of it. `last` tells that the bytes are the whole text.
pub uninterp spec fn charset_guess(bytes: Seq<u8>, last: bool) -> (Seq<char>, bool);

/// Whether a buffer begins with one of the byte order marks of UTF-8,
/// UTF-16 and UTF-32.
pub open spec fn has_byte_order_mark(b: Seq<u8>) -> bool {
    ||| seq![0xEFu8, 0xBBu8, 0xBFu8].is_prefix_of(b)
    ||| seq![0x00u8, 0x00u8, 0xFEu8, 0xFFu8].is_prefix_of(b)
    ||| seq![0xFEu8, 0xFFu8].is_prefix_of(b)
    ||| seq![0xFFu8, 0xFEu8].is_prefix_of(b)
}

/// Whether a buffer begins with the magic number of a PDF or PNG file.
pub open spec fn has_binary_magic(b: Seq<u8>) -> bool {
    ||| seq![0x25u8, 0x50u8, 0x44u8, 0x46u8].is_prefix_of(b)
    ||| seq![0x89u8, 0x50u8, 0x4Eu8, 0x47u8].is_prefix_of(b)
}

/// Whether the head of a file looks like text: it begins with a byte order
/// mark, or it holds no zero byte among its first 1024 bytes and does not
/// begin with the magic number of a PDF or PNG file.
pub open spec fn looks_textual(b: Seq<u8>) -> bool {
    has_byte_order_mark(b) || (!has_binary_magic(b) && forall|i: int|
        0 <= i < b.len() && i < 1024 ==> #[trigger] b[i] != 0)
}

/// `mime_guess::from_path(path).first()`, written out as text.
#[verifier::external_body]
fn guess_mime(path: &str) -> (r: Option<String>)
    ensures
        r is Some <==> mime_of_path(path@) is Some,
        r matches Some(m) ==> m@ == mime_of_path(path@)->0,
{
    match mime_guess::from_path(path).first() {
        Some(m) => Some(m.to_string()),
        None => None,
    }
}

/// `content_inspector::inspect(buffer).is_text()`: byte order marks make a
/// buffer text; otherwise a zero byte among the first 1024 bytes, or the
/// magic number of a PDF or PNG file, makes it binary.
#[verifier::external_body]
pub(crate) fn inspect_is_text(buffer: &[u8]) -> (r: bool)
    ensures
        r == looks_textual(buffer@),
{
    content_inspector::inspect(buffer).is_text()
}

/// A fresh `chardetng::EncodingDetector`, fed with `buffer` once, and its
/// `guess_assess` without a top-level domain and with UTF-8 allowed: the
/// name of the guessed encoding and whether the guess is confident.
#[verifier::external_body]
fn detect_charset(buffer: &[u8], last: bool) -> (r: (String, bool))
    ensures
        (r.0@, r.1) == charset_guess(buffer@, last),
{
    let mut detector = chardetng::EncodingDetector::new();
    detector.feed(buffer, last);
    let (encoding, confident) = detector.guess_assess(None, true);
    (encoding.name().to_string(), confident)
}

/// The content type of a file, from the media type of its extension,
/// whether its head looks like text, and the encoding guessed for it. Text
/// gets the media type, `text/plain` by default, and the encoding where the
/// guess is confident; anything else gets the media type,
/// `application/octet-stream` by default.
pub open spec fn content_type_of(
    mime: Option<Seq<char>>,
    is_text: bool,
    charset: (Seq<char>, bool),
) -> Seq<char> {
    if is_text {
        let base = match mime {
            Some(m) => m,
            None => "text/plain"@,
        };
        if charset.1 {
            base + "; charset="@ + charset.0
        } else {
            base
        }
    } else {
        match mime {
            Some(m) => m,
            None => "application/octet-stream"@,
        }
    }
}

/// The content type of a file, from what was found out about it.
pub fn content_type_from(mime: Option<String>, is_text: bool, charset: &str, confident: bool) -> (r:
    String)
    ensures
        r@ == content_type_of(
            match mime {
                Some(m) => Some(m@),
                None => None,
            },
            is_text,
            (charset@, confident),
        ),
{
    if is_text {
        let mut out = match mime {
            Some(m) => m,
            None => "text/plain".to_owned(),
        };
        if confident {
            out.append("; charset=");
            out.append(charset);
        }
        out
    } else {
        match mime {
            Some(m) => m,
            None => "application/octet-stream".to_owned(),
        }
    }
}

/// The content type of the file at `path` whose first bytes are `head`:
/// all of the file when it is shorter than 1024 bytes, else its first 1024.
pub fn get_content_type(path: &str, head: &[u8]) -> (r: String)
    ensures
        r@ == content_type_of(
            mime_of_path(path@),
            looks_textual(head@),
            charset_guess(head@, head@.len() < 1024),
        ),
{
    let mime = guess_mime(path);
    let is_text = inspect_is_text(head);
    let (charset, confident) = detect_charset(head, head.len() < 1024);
    content_type_from(mime, is_text, charset.as_str(), confident)
}

/// The `Content-Disposition` value for a file name: the kind, the name
/// between quotes and, for a name that is not ASCII, its encoded form.
pub open spec fn disposition_text(inline: bool, filename: Seq<char>) -> Seq<char> {
    let kind = if inline {
        "inline"@
    } else {
        "attachment"@
    };
    let plain = kind + "; filename=\""@ + filename + "\""@;
    if vstd::utf8::is_ascii_chars(filename) {
        plain
    } else {
        plain + "; filename*=UTF-8''"@ + uri_encoded(filename)
    }
}

/// `res` with the given `Content-Disposition`.
pub open spec fn with_disposition(res: ResponseView, value: Seq<char>) -> ResponseView {
    ResponseView {
        headers: HeadersView { content_disposition: Some(value), ..res.headers },
        ..res
    }
}

/// Sets the `Content-Disposition` of `res` for a file name. Fails, and
/// leaves `res` as it is, when the name holds a control character.
pub fn set_content_disposition(res: &mut Response, inline: bool, filename: &str) -> (r: Result<
    (),
    Failure,
>)
    ensures
        r is Ok <==> is_field_value(disposition_text(inline, filename@)),
        r is Ok ==> final(res)@ == with_disposition(old(res)@, disposition_text(inline, filename@)),
        r is Err ==> r == Err::<(), Failure>(Failure::HeaderValue) && final(res)@ == old(res)@,
{
    let mut value = if inline {
        "inline".to_owned()
    } else {
        "attachment".to_owned()
    };
    value.append("; filename=\"");
    value.append(filename);
    value.append("\"");
    if !filename.is_ascii() {
        value.append("; filename*=UTF-8''");
        let encoded = encode_uri(filename);
        value.append(encoded.as_str());
    }
    if !valid_header_value(value.as_str()) {
        return Err(Failure::HeaderValue);
    }
    res.headers.content_disposition = Some(value);
    Ok(())
}

} // verus!
