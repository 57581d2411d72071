//! What the dispatcher reads of one request and of the file that it names.

use vstd::prelude::*;
use crate::text::{pairs_text, str_eq};

verus! {

/// The request method.
#[derive(Clone, Copy, Debug, PartialEq, Eq, Structural)]
pub enum Method {
    Get,
    Head,
    Options,
    Put,
    Delete,
    Propfind,
    Proppatch,
    Mkcol,
    Copy,
    Move,
    Lock,
    Unlock,
    /// The probe by which a client asks whether it may write.
    Writeable,
    /// Any other method.
    Other,
}

/// The method that a name, in upper case, stands for.
pub open spec fn method_named(name: Seq<char>) -> Method {
    if name == "GET"@ {
        Method::Get
    } else if name == "HEAD"@ {
        Method::Head
    } else if name == "OPTIONS"@ {
        Method::Options
    } else if name == "PUT"@ {
        Method::Put
    } else if name == "DELETE"@ {
        Method::Delete
    } else if name == "PROPFIND"@ {
        Method::Propfind
    } else if name == "PROPPATCH"@ {
        Method::Proppatch
    } else if name == "MKCOL"@ {
        Method::Mkcol
    } else if name == "COPY"@ {
        Method::Copy
    } else if name == "MOVE"@ {
        Method::Move
    } else if name == "LOCK"@ {
        Method::Lock
    } else if name == "UNLOCK"@ {
        Method::Unlock
    } else if name == "WRITEABLE"@ {
        Method::Writeable
    } else {
        Method::Other
    }
}

impl Method {
    /// The method that `name` stands for; names are case-sensitive.
    pub fn from_name(name: &str) -> (r: Method)
        ensures
            r == method_named(name@),
    {
        if str_eq(name, "GET") {
            Method::Get
        } else if str_eq(name, "HEAD") {
            Method::Head
        } else if str_eq(name, "OPTIONS") {
            Method::Options
        } else if str_eq(name, "PUT") {
            Method::Put
        } else if str_eq(name, "DELETE") {
            Method::Delete
        } else if str_eq(name, "PROPFIND") {
            Method::Propfind
        } else if str_eq(name, "PROPPATCH") {
            Method::Proppatch
        } else if str_eq(name, "MKCOL") {
            Method::Mkcol
        } else if str_eq(name, "COPY") {
            Method::Copy
        } else if str_eq(name, "MOVE") {
            Method::Move
        } else if str_eq(name, "LOCK") {
            Method::Lock
        } else if str_eq(name, "UNLOCK") {
            Method::Unlock
        } else if str_eq(name, "WRITEABLE") {
            Method::Writeable
        } else {
            Method::Other
        }
    }

    pub open spec fn is_head(&self) -> bool {
        *self == Method::Head
    }

    /// Whether only the headers are to be sent.
    #[verifier::when_used_as_spec(is_head)]
    pub fn head_only(&self) -> (r: bool)
        ensures
            r == self.is_head(),
    {
        matches!(self, Method::Head)
    }
}

/// The value of the last pair named `key`, if there is one.
pub open spec fn lookup(pairs: Seq<(Seq<char>, Seq<char>)>, key: Seq<char>) -> Option<Seq<char>>
    decreases pairs.len(),
{
    if pairs.len() == 0 {
        None
    } else if pairs.last().0 == key {
        Some(pairs.last().1)
    } else {
        lookup(pairs.drop_last(), key)
    }
}

/// What `form_urlencoded::parse` yields for a query string: its pairs of
/// name and value, decoded, in the order in which they stand.
pub uninterp spec fn form_pairs(query: Seq<char>) -> Seq<(Seq<char>, Seq<char>)>;

/// `form_urlencoded::parse` on the bytes of `query`, with every pair that it
/// yields collected as owned strings.
#[verifier::external_body]
fn parse_form(query: &str) -> (r: Vec<(String, String)>)
    ensures
        pairs_text(r@) == form_pairs(query@),
{
    form_urlencoded::parse(query.as_bytes()).into_owned().collect()
}

/// The parameters of a query string that the server reads.
#[derive(Clone, Debug, PartialEq, Eq)]
pub struct Query {
    /// `zip` is present.
    pub zip: bool,
    /// The value of `q`.
    pub q: Option<String>,
    /// `edit` is present.
    pub edit: bool,
    /// `simple` is present.
    pub simple: bool,
    /// `json` is present.
    pub json: bool,
    /// The value of `sort`.
    pub sort: Option<String>,
    /// The value of `order`.
    pub order: Option<String>,
}

pub struct QueryView {
    pub zip: bool,
    pub q: Option<Seq<char>>,
    pub edit: bool,
    pub simple: bool,
    pub json: bool,
    pub sort: Option<Seq<char>>,
    pub order: Option<Seq<char>>,
}

impl View for Query {
    type V = QueryView;

    open spec fn view(&self) -> QueryView {
        QueryView {
            zip: self.zip,
            q: match self.q {
                Some(s) => Some(s@),
                None => None,
            },
            edit: self.edit,
            simple: self.simple,
            json: self.json,
            sort: match self.sort {
                Some(s) => Some(s@),
                None => None,
            },
            order: match self.order {
                Some(s) => Some(s@),
                None => None,
            },
        }
    }
}

/// The parameters that a list of pairs gives; of two pairs with one name the
/// later one counts.
pub open spec fn query_of(pairs: Seq<(Seq<char>, Seq<char>)>) -> QueryView {
    QueryView {
        zip: lookup(pairs, "zip"@) is Some,
        q: lookup(pairs, "q"@),
        edit: lookup(pairs, "edit"@) is Some,
        simple: lookup(pairs, "simple"@) is Some,
        json: lookup(pairs, "json"@) is Some,
        sort: lookup(pairs, "sort"@),
        order: lookup(pairs, "order"@),
    }
}

fn find_pair(pairs: &Vec<(String, String)>, key: &str) -> (r: Option<String>)
    ensures
        r is Some <==> lookup(pairs_text(pairs@), key@) is Some,
        r matches Some(v) ==> v@ == lookup(pairs_text(pairs@), key@)->0,
{
    let mut i: usize = pairs.len();
    let ghost all = pairs_text(pairs@);
    assert(all.take(all.len() as int) =~= all);
    while i > 0
        invariant
            i <= pairs.len(),
            all == pairs_text(pairs@),
            lookup(all, key@) == lookup(all.take(i as int), key@),
        decreases i,
    {
        proof {
            let t = all.take(i as int);
            assert(t.last() == (pairs@[i - 1].0@, pairs@[i - 1].1@));
            assert(t.drop_last() =~= all.take(i - 1));
        }
        if str_eq(pairs[i - 1].0.as_str(), key) {
            return Some(pairs[i - 1].1.clone());
        }
        i -= 1;
    }
    None
}

impl Query {
    /// No parameter at all.
    pub fn empty() -> (r: Query)
        ensures
            r@ == query_of(Seq::empty()),
    {
        Query { zip: false, q: None, edit: false, simple: false, json: false, sort: None, order: None }
    }

    /// The parameters among decoded pairs of name and value.
    pub fn from_pairs(pairs: &Vec<(String, String)>) -> (r: Query)
        ensures
            r@ == query_of(pairs_text(pairs@)),
    {
        Query {
            zip: find_pair(pairs, "zip").is_some(),
            q: find_pair(pairs, "q"),
            edit: find_pair(pairs, "edit").is_some(),
            simple: find_pair(pairs, "simple").is_some(),
            json: find_pair(pairs, "json").is_some(),
            sort: find_pair(pairs, "sort"),
            order: find_pair(pairs, "order"),
        }
    }

    /// The parameters of a raw query string.
    pub fn parse(raw: &str) -> (r: Query)
        ensures
            r@ == query_of(form_pairs(raw@)),
    {
        let pairs = parse_form(raw);
        Query::from_pairs(&pairs)
    }
}

/// One request, as far as the dispatcher reads it.
#[derive(Clone, Debug, PartialEq, Eq)]
pub struct Request {
    pub method: Method,
    /// The path of the request URI, still encoded.
    pub path: String,
    pub query: Query,
    /// Whether the request carries an `Authorization` header.
    pub authorization: bool,
}

/// What kind of file a path names.
#[derive(Clone, Copy, Debug, PartialEq, Eq, Structural)]
pub enum TargetKind {
    /// Nothing can be read at the path.
    Missing,
    Dir,
    File,
    /// Something that is neither a directory nor a regular file.
    Other,
}

/// What a look at the file system told about the requested path.
#[derive(Clone, Debug, PartialEq, Eq)]
pub struct Target {
    pub kind: TargetKind,
    /// Size in bytes; 0 when the path names nothing.
    pub size: u64,
    /// The path with every link on the way resolved, where that succeeded.
    pub canonical: Option<String>,
}

} // verus!
