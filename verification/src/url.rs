//! Parses a URL into a normalized data structure for downstream marshalling.
//!
//! ```text
//! scheme://hostname[:port]/path
//! ```
//!
//! The whole URL is lowercased first; a missing path becomes `/`, and a
//! missing port becomes the scheme's default (80 for HTTP, 443 for HTTPS).

use vstd::prelude::*;
use vstd::string::*;
use crate::schemes::http::{HttpRequest, HttpVersion};
use crate::schemes::https::HttpsRequest;
use crate::schemes::PreparedRequest;
use crate::text::{
    ascii_lower, chars_of, has_no_ascii_upper, lemma_lower_has_no_upper, lemma_split_once_append,
    lemma_split_once_char, lemma_split_once_first_char, lemma_split_once_pieces, parse_usize, parse_usize_exec,
    same_chars, split_once, split_once_exec, string_of, to_lower,
};

verus! {

/// Why a URL could not be parsed.
#[derive(Debug, PartialEq, Eq, Structural)]
pub enum UrlParseError {
    UnsupportedScheme,
    UnrecognizedStructure,
}

/// The message that describes a URL parse error.
pub open spec fn url_error_message(e: UrlParseError) -> Seq<char> {
    match e {
        UrlParseError::UnsupportedScheme => "Unsupported URL scheme"@,
        UrlParseError::UnrecognizedStructure => "Unrecognized URL structure"@,
    }
}

impl UrlParseError {
    /// The message that describes the error.
    pub fn to_string(&self) -> (s: String)
        ensures
            s@ == url_error_message(*self),
    {
        match self {
            UrlParseError::UnsupportedScheme => String::from_str("Unsupported URL scheme"),
            UrlParseError::UnrecognizedStructure => String::from_str("Unrecognized URL structure"),
        }
    }
}

/// The protocol used to fetch the resource.
#[derive(Debug, Clone, Copy, PartialEq, Eq, Structural)]
pub enum Scheme {
    Http,
    Https,
}

/// `http`
pub open spec fn http_name() -> Seq<char> {
    seq!['h', 't', 't', 'p']
}

/// `https`
pub open spec fn https_name() -> Seq<char> {
    seq!['h', 't', 't', 'p', 's']
}

/// The scheme named exactly `s`.
pub open spec fn parse_scheme(s: Seq<char>) -> Result<Scheme, UrlParseError> {
    if s == http_name() {
        Ok(Scheme::Http)
    } else if s == https_name() {
        Ok(Scheme::Https)
    } else {
        Err(UrlParseError::UnsupportedScheme)
    }
}

/// The port used when a URL names none.
pub open spec fn default_port(scheme: Scheme) -> usize {
    match scheme {
        Scheme::Http => 80,
        Scheme::Https => 443,
    }
}

impl Scheme {
    fn from_chars(s: &Vec<char>) -> (r: Result<Scheme, UrlParseError>)
        ensures
            r == parse_scheme(s@),
    {
        let http = vec!['h', 't', 't', 'p'];
        let https = vec!['h', 't', 't', 'p', 's'];
        assert(http@ =~= http_name());
        assert(https@ =~= https_name());
        if same_chars(s, &http) {
            Ok(Scheme::Http)
        } else if same_chars(s, &https) {
            Ok(Scheme::Https)
        } else {
            Err(UrlParseError::UnsupportedScheme)
        }
    }

    /// The scheme named exactly `s` (`FromStr`).
    pub fn from_str(s: &str) -> (r: Result<Scheme, UrlParseError>)
        ensures
            r == parse_scheme(s@),
    {
        Scheme::from_chars(&chars_of(s))
    }

    /// The port used when a URL names none.
    pub fn default_port(&self) -> (p: usize)
        ensures
            p == default_port(*self),
    {
        match self {
            Scheme::Http => 80,
            Scheme::Https => 443,
        }
    }
}

/// A normalized URL.
#[derive(Debug)]
pub struct Url {
    pub scheme: Scheme,
    pub host: String,
    pub port: usize,
    pub path: String,
}

/// A URL, as plain values.
pub struct UrlView {
    pub scheme: Scheme,
    pub host: Seq<char>,
    pub port: usize,
    pub path: Seq<char>,
}

impl View for Url {
    type V = UrlView;

    open spec fn view(&self) -> UrlView {
        UrlView { scheme: self.scheme, host: self.host@, port: self.port, path: self.path@ }
    }
}

/// `://`
pub open spec fn scheme_separator() -> Seq<char> {
    seq![':', '/', '/']
}

/// The pieces of a URL, read from its lowercased text: the scheme, the
/// host, the port text if there is a colon after the host, and the path
/// with its leading `/` (added when the URL has no path).
pub open spec fn url_pieces(s: Seq<char>) -> Result<
    (Scheme, Seq<char>, Option<Seq<char>>, Seq<char>),
    UrlParseError,
> {
    match split_once(ascii_lower(s), scheme_separator()) {
        None => Err(UrlParseError::UnrecognizedStructure),
        Some((raw_scheme, rest)) => match parse_scheme(raw_scheme) {
            Err(e) => Err(e),
            Ok(scheme) => {
                let (authority, path) = match split_once(rest, seq!['/']) {
                    Some((authority, path)) => (authority, path),
                    None => (rest, Seq::empty()),
                };
                match split_once(authority, seq![':']) {
                    Some((host, port)) => Ok((scheme, host, Some(port), seq!['/'] + path)),
                    None => Ok((scheme, authority, None, seq!['/'] + path)),
                }
            },
        },
    }
}

/// The URL names no port, or one that reads as a `usize`. (On other URLs the
/// parse panics.)
pub open spec fn url_port_readable(s: Seq<char>) -> bool {
    match url_pieces(s) {
        Ok((_, _, Some(port), _)) => parse_usize(port) is Some,
        _ => true,
    }
}

/// The normalized URL that `s` stands for.
pub open spec fn parse_url(s: Seq<char>) -> Result<UrlView, UrlParseError> {
    match url_pieces(s) {
        Err(e) => Err(e),
        Ok((scheme, host, port, path)) => Ok(
            UrlView {
                scheme,
                host,
                port: match port {
                    Some(p) => parse_usize(p).unwrap(),
                    None => default_port(scheme),
                },
                path,
            },
        ),
    }
}

/// The view of an optional character vector.
pub open spec fn opt_view(o: Option<Vec<char>>) -> Option<Seq<char>> {
    match o {
        Some(v) => Some(v@),
        None => None,
    }
}

/// The pieces of a URL (see `url_pieces`), as character vectors.
fn pieces(s: &str) -> (r: Result<(Scheme, Vec<char>, Option<Vec<char>>, Vec<char>), UrlParseError>)
    ensures
        match r {
            Ok((scheme, host, port, path)) => url_pieces(s@) == Ok::<
                (Scheme, Seq<char>, Option<Seq<char>>, Seq<char>),
                UrlParseError,
            >((scheme, host@, opt_view(port), path@)),
            Err(e) => url_pieces(s@) == Err::<
                (Scheme, Seq<char>, Option<Seq<char>>, Seq<char>),
                UrlParseError,
            >(e),
        },
{
    let normalized = to_lower(&chars_of(s));
    let separator = vec![':', '/', '/'];
    let slash = vec!['/'];
    let colon = vec![':'];
    assert(separator@ =~= scheme_separator());
    assert(slash@ =~= seq!['/']);
    assert(colon@ =~= seq![':']);
    let (raw_scheme, rest) = match split_once_exec(&normalized, &separator) {
        Some(parts) => parts,
        None => {
            return Err(UrlParseError::UnrecognizedStructure);
        },
    };
    let scheme = match Scheme::from_chars(&raw_scheme) {
        Ok(scheme) => scheme,
        Err(e) => {
            return Err(e);
        },
    };
    let (authority, path) = match split_once_exec(&rest, &slash) {
        Some(parts) => parts,
        None => (rest, Vec::new()),
    };
    let mut full_path: Vec<char> = Vec::new();
    full_path.push('/');
    let mut i: usize = 0;
    while i < path.len()
        invariant
            i <= path.len(),
            full_path@ == seq!['/'] + path@.take(i as int),
        decreases path.len() - i,
    {
        full_path.push(path[i]);
        i += 1;
        assert(full_path@ =~= seq!['/'] + path@.take(i as int));
    }
    assert(path@.take(path@.len() as int) =~= path@);
    match split_once_exec(&authority, &colon) {
        Some((host, port)) => Ok((scheme, host, Some(port), full_path)),
        None => Ok((scheme, authority, None, full_path)),
    }
}

impl Url {
    /// Parses and normalizes a URL (`FromStr`). Panics where the original
    /// does: on a port that does not read as a `usize`.
    pub fn from_str(s: &str) -> (r: Result<Url, UrlParseError>)
        requires
            url_port_readable(s@),
        ensures
            match r {
                Ok(url) => parse_url(s@) == Ok::<UrlView, UrlParseError>(url@),
                Err(e) => parse_url(s@) == Err::<UrlView, UrlParseError>(e),
            },
    {
        let (scheme, host, port_text, path) = match pieces(s) {
            Ok(found) => found,
            Err(e) => {
                return Err(e);
            },
        };
        let port = match port_text {
            Some(text) => parse_usize_exec(&text).unwrap(),
            None => scheme.default_port(),
        };
        Ok(Url { scheme, host: string_of(&host), port, path: string_of(&path) })
    }

    /// Whether `s` names no port or one that reads as a `usize`: the
    /// condition under which `from_str` does not panic.
    pub fn port_is_readable(s: &str) -> (r: bool)
        ensures
            r == url_port_readable(s@),
    {
        match pieces(s) {
            Ok((_, _, Some(text), _)) => parse_usize_exec(&text).is_some(),
            _ => true,
        }
    }

    /// The request that fetches this URL: HTTP/1.0 over TCP or over TLS,
    /// according to the scheme.
    pub fn request(&self) -> (r: PreparedRequest<'_>)
        ensures
            match r {
                PreparedRequest::Http(q) => self.scheme == Scheme::Http && q.version
                    == HttpVersion::Http10 && q.host@ == self.host@ && q.port == self.port
                    && q.path@ == self.path@,
                PreparedRequest::Https(q) => self.scheme == Scheme::Https && q.version
                    == HttpVersion::Http10 && q.host@ == self.host@ && q.port == self.port
                    && q.path@ == self.path@,
            },
    {
        match self.scheme {
            Scheme::Http => PreparedRequest::Http(
                HttpRequest {
                    version: HttpVersion::Http10,
                    host: self.host.as_str(),
                    port: self.port,
                    path: self.path.as_str(),
                },
            ),
            Scheme::Https => PreparedRequest::Https(
                HttpsRequest {
                    version: HttpVersion::Http10,
                    host: self.host.as_str(),
                    port: self.port,
                    path: self.path.as_str(),
                },
            ),
        }
    }
}

/// Parsing ignores ASCII case: two URLs that are equal once lowercased
/// resolve the same way.
pub proof fn lemma_url_case_insensitive(s: Seq<char>, t: Seq<char>)
    requires
        ascii_lower(s) == ascii_lower(t),
    ensures
        parse_url(s) == parse_url(t),
        url_port_readable(s) == url_port_readable(t),
{
}

/// A trailing slash is added when the URL has no path, so that
/// `http://example.org` and `http://example.org/` resolve the same way.
pub proof fn lemma_url_trailing_slash(s: Seq<char>)
    requires
        split_once(ascii_lower(s), scheme_separator()) matches Some((_, rest)) && !rest.contains(
            '/',
        ),
    ensures
        parse_url(s.push('/')) == parse_url(s),
        url_port_readable(s.push('/')) == url_port_readable(s),
{
    let n = ascii_lower(s);
    assert(ascii_lower(s.push('/')) =~= n + seq!['/']);
    lemma_split_once_append(n, seq!['/'], scheme_separator());
    let (raw, rest) = split_once(n, scheme_separator()).unwrap();
    assert(split_once(n + seq!['/'], scheme_separator()) == Some((raw, rest + seq!['/'])));
    lemma_split_once_char(rest, '/');
    lemma_split_once_char(rest + seq!['/'], '/');
    assert((rest + seq!['/'])[rest.len() as int] == '/');
    let f = split_once(rest + seq!['/'], seq!['/']).unwrap();
    assert(f.0.len() == rest.len()) by {
        if f.0.len() < rest.len() {
            assert(rest[f.0.len() as int] == (rest + seq!['/'])[f.0.len() as int]);
        }
    }
    assert forall|i: int| 0 <= i < rest.len() implies f.0[i] == rest[i] by {
        assert((rest + seq!['/'])[i] == rest[i]);
        assert((f.0.push('/') + f.1)[i] == f.0[i]);
    }
    assert(f.0 =~= rest);
    assert(f.1 =~= Seq::<char>::empty());
}

/// A parsed URL is normalized: its host is lowercase and holds neither `:`
/// nor `/`, and its path starts with `/`.
pub proof fn lemma_url_normalized(s: Seq<char>)
    requires
        parse_url(s) is Ok,
    ensures
        ({
            let u = parse_url(s)->Ok_0;
            &&& has_no_ascii_upper(u.host)
            &&& !u.host.contains(':')
            &&& !u.host.contains('/')
            &&& u.path.len() > 0
            &&& u.path[0] == '/'
        }),
{
    let n = ascii_lower(s);
    lemma_lower_has_no_upper(s);
    lemma_split_once_pieces(n, scheme_separator());
    let (raw, rest) = split_once(n, scheme_separator()).unwrap();
    assert(has_no_ascii_upper(rest)) by {
        assert forall|i: int| 0 <= i < rest.len() implies !('A' <= #[trigger] rest[i] && rest[i]
            <= 'Z') by {
            assert(rest[i] == n[n.len() - rest.len() + i]);
        }
    }
    lemma_split_once_char(rest, '/');
    lemma_split_once_pieces(rest, seq!['/']);
    let authority = match split_once(rest, seq!['/']) {
        Some((a, _)) => a,
        None => rest,
    };
    assert(has_no_ascii_upper(authority) && !authority.contains('/')) by {
        if let Some((a, _)) = split_once(rest, seq!['/']) {
            assert forall|i: int| 0 <= i < a.len() implies !('A' <= #[trigger] a[i] && a[i] <= 'Z') by {
                assert(a[i] == rest[i]);
            }
        }
    }
    lemma_split_once_char(authority, ':');
    lemma_split_once_pieces(authority, seq![':']);
    let u = parse_url(s)->Ok_0;
    assert(has_no_ascii_upper(u.host) && !u.host.contains('/')) by {
        if let Some((h, _)) = split_once(authority, seq![':']) {
            assert forall|i: int| 0 <= i < h.len() implies !('A' <= #[trigger] h[i] && h[i] <= 'Z')
                && h[i] != '/' by {
                assert(h[i] == authority[i]);
            }
        }
    }
    assert(u.path[0] == '/');
}

/// The names `http` and `https` hold no `:`.
proof fn lemma_scheme_name_has_no_colon(name: Seq<char>)
    requires
        name == http_name() || name == https_name(),
    ensures
        !name.contains(':'),
{
    assert forall|i: int| 0 <= i < name.len() implies name[i] != ':' by {
        if name == http_name() {
            assert(http_name()[i] != ':');
        } else {
            assert(https_name()[i] != ':');
        }
    }
}

/// A URL `scheme://authority/p`, once lowercased, has the path `/p`: all
/// of the text after the first `/` that follows `://`, query and fragment
/// included. When the authority holds no `:`, it is the host and the port is
/// the scheme's default.
pub proof fn lemma_url_path(s: Seq<char>, scheme: Seq<char>, authority: Seq<char>, p: Seq<char>)
    requires
        ascii_lower(s) == scheme + scheme_separator() + authority + seq!['/'] + p,
        scheme == http_name() || scheme == https_name(),
        !authority.contains('/'),
    ensures
        parse_url(s) is Ok,
        parse_url(s)->Ok_0.scheme == (if scheme == http_name() {
            Scheme::Http
        } else {
            Scheme::Https
        }),
        parse_url(s)->Ok_0.path == seq!['/'] + p,
        !authority.contains(':') ==> parse_url(s)->Ok_0.host == authority && parse_url(
            s,
        )->Ok_0.port == default_port(parse_url(s)->Ok_0.scheme),
{
    let rest = authority + seq!['/'] + p;
    assert(ascii_lower(s) =~= scheme + scheme_separator() + rest);
    lemma_scheme_name_has_no_colon(scheme);
    lemma_split_once_first_char(scheme, scheme_separator(), rest);
    lemma_split_once_first_char(authority, seq!['/'], p);
    lemma_split_once_char(authority, ':');
}

/// A URL `scheme://` with nothing but a host after it has the path `/`
/// and the scheme's default port.
pub proof fn lemma_url_without_path(s: Seq<char>, scheme: Seq<char>, host: Seq<char>)
    requires
        ascii_lower(s) == scheme + scheme_separator() + host,
        scheme == http_name() || scheme == https_name(),
        !host.contains('/'),
        !host.contains(':'),
    ensures
        parse_url(s) is Ok,
        parse_url(s)->Ok_0.host == host,
        parse_url(s)->Ok_0.path == seq!['/'],
        parse_url(s)->Ok_0.port == default_port(parse_url(s)->Ok_0.scheme),
{
    lemma_scheme_name_has_no_colon(scheme);
    lemma_split_once_first_char(scheme, scheme_separator(), host);
    lemma_split_once_char(host, '/');
    lemma_split_once_char(host, ':');
    assert(seq!['/'] + Seq::<char>::empty() =~= seq!['/']);
}

/// A URL `scheme://host:port/p` has that host, the port that the port text
/// reads as, and the path `/p`.
pub proof fn lemma_url_explicit_port(
    s: Seq<char>,
    scheme: Seq<char>,
    host: Seq<char>,
    port: Seq<char>,
    p: Seq<char>,
)
    requires
        ascii_lower(s) == scheme + scheme_separator() + host + seq![':'] + port + seq!['/'] + p,
        scheme == http_name() || scheme == https_name(),
        !host.contains('/'),
        !host.contains(':'),
        !port.contains('/'),
    ensures
        parse_url(s) is Ok,
        parse_url(s)->Ok_0.host == host,
        parse_url(s)->Ok_0.path == seq!['/'] + p,
        parse_usize(port) matches Some(n) ==> parse_url(s)->Ok_0.port == n,
        url_port_readable(s) == parse_usize(port) is Some,
{
    let authority = host + seq![':'] + port;
    assert(!authority.contains('/')) by {
        assert forall|i: int| 0 <= i < authority.len() implies authority[i] != '/' by {
            if i < host.len() {
                assert(authority[i] == host[i]);
            } else if i > host.len() {
                assert(authority[i] == port[i - host.len() - 1]);
            }
        }
    }
    let rest = authority + seq!['/'] + p;
    assert(ascii_lower(s) =~= scheme + scheme_separator() + rest);
    lemma_scheme_name_has_no_colon(scheme);
    lemma_split_once_first_char(scheme, scheme_separator(), rest);
    lemma_split_once_first_char(authority, seq!['/'], p);
    lemma_split_once_first_char(host, seq![':'], port);
}

/// A URL without `://` is refused as unrecognized; one whose text before
/// the first `://` is neither `http` nor `https` (in any case) is refused as
/// an unsupported scheme.
pub proof fn lemma_url_refusals(s: Seq<char>, raw: Seq<char>, rest: Seq<char>)
    ensures
        !ascii_lower(s).contains(':') ==> parse_url(s) == Err::<UrlView, UrlParseError>(
            UrlParseError::UnrecognizedStructure,
        ),
        ascii_lower(s) == raw + scheme_separator() + rest && !raw.contains(':') && raw
            != http_name() && raw != https_name() ==> parse_url(s) == Err::<
            UrlView,
            UrlParseError,
        >(UrlParseError::UnsupportedScheme),
{
    let n = ascii_lower(s);
    if !n.contains(':') {
        crate::text::lemma_find_from_found(n, scheme_separator(), 0);
        if let Some(k) = crate::text::find(n, scheme_separator()) {
            assert(n.subrange(k, k + 3)[0] == n[k]);
        }
    }
    if n == raw + scheme_separator() + rest && !raw.contains(':') {
        lemma_split_once_first_char(raw, scheme_separator(), rest);
    }
}

} // verus!
