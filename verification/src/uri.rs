//! URLs, read through the `url` crate's parser.
use vstd::prelude::*;

verus! {

/// The parts of a parsed URL that the library reads.
pub struct UrlParts {
    pub host: Option<String>,
    pub port: Option<u16>,
    pub known_port: Option<u16>,
    pub username: String,
    pub path: String,
    pub query: Option<String>,
    pub fragment: Option<String>,
    pub query_pairs: Vec<(String, String)>,
}

/// Whether `Url::parse` accepts the text.
pub uninterp spec fn url_parses(s: Seq<char>) -> bool;

/// `Url::host_str` of the parsed text.
pub uninterp spec fn url_host(s: Seq<char>) -> Option<Seq<char>>;

/// `Url::port` of the parsed text: the port written in it, if any.
pub uninterp spec fn url_port(s: Seq<char>) -> Option<u16>;

/// `Url::port_or_known_default` of the parsed text.
pub uninterp spec fn url_known_port(s: Seq<char>) -> Option<u16>;

/// `Url::username` of the parsed text.
pub uninterp spec fn url_username(s: Seq<char>) -> Seq<char>;

/// `Url::path` of the parsed text.
pub uninterp spec fn url_path(s: Seq<char>) -> Seq<char>;

/// `Url::query` of the parsed text.
pub uninterp spec fn url_query(s: Seq<char>) -> Option<Seq<char>>;

/// `Url::fragment` of the parsed text.
pub uninterp spec fn url_fragment(s: Seq<char>) -> Option<Seq<char>>;

/// `Url::query_pairs` of the parsed text, decoded, in order.
pub uninterp spec fn url_query_pairs(s: Seq<char>) -> Seq<(Seq<char>, Seq<char>)>;

pub open spec fn opt_text(o: Option<String>) -> Option<Seq<char>> {
    match o {
        Some(t) => Some(t@),
        None => None,
    }
}

pub open spec fn pair_views(v: Seq<(String, String)>) -> Seq<(Seq<char>, Seq<char>)> {
    v.map_values(|p: (String, String)| (p.0@, p.1@))
}

/// The parts of `p` are those that the parser gives for `s`.
pub open spec fn parts_of(p: UrlParts, s: Seq<char>) -> bool {
    &&& opt_text(p.host) == url_host(s)
    &&& p.port == url_port(s)
    &&& p.known_port == url_known_port(s)
    &&& p.username@ == url_username(s)
    &&& p.path@ == url_path(s)
    &&& opt_text(p.query) == url_query(s)
    &&& opt_text(p.fragment) == url_fragment(s)
    &&& pair_views(p.query_pairs@) == url_query_pairs(s)
}

/// `url::Url::parse`, with the parts of the result read out through its
/// accessors. Claimed: the result is present exactly when the parser accepts
/// the text, and each part is what the accessor of that name returns; the
/// parts themselves are left to the parser and not stated here.
#[verifier::external_body]
pub(crate) fn parse_url(s: &str) -> (r: Option<UrlParts>)
    ensures
        r is Some <==> url_parses(s@),
        r matches Some(p) ==> opt_text(p.host) == url_host(s@),
        r matches Some(p) ==> p.port == url_port(s@),
        r matches Some(p) ==> p.known_port == url_known_port(s@),
        r matches Some(p) ==> p.username@ == url_username(s@),
        r matches Some(p) ==> p.path@ == url_path(s@),
        r matches Some(p) ==> opt_text(p.query) == url_query(s@),
        r matches Some(p) ==> opt_text(p.fragment) == url_fragment(s@),
        r matches Some(p) ==> pair_views(p.query_pairs@) == url_query_pairs(s@),
{
    let u = ::url::Url::parse(s).ok()?;
    Some(UrlParts {
        host: u.host_str().map(String::from),
        port: u.port(),
        known_port: u.port_or_known_default(),
        username: u.username().to_string(),
        path: u.path().to_string(),
        query: u.query().map(String::from),
        fragment: u.fragment().map(String::from),
        query_pairs: u.query_pairs().into_owned().collect(),
    })
}

} // verus!
