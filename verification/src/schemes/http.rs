//! HTTP/1.0 over plain TCP: the request text and the parsing of responses.

use vstd::prelude::*;
use vstd::string::*;
use crate::headers::Headers;
use crate::resources::{Resource, WebResource};
use crate::schemes::{web_resource_of, BuildResource};
use crate::text::{
    has_no_ascii_lower, has_no_ascii_upper, lemma_lower_has_no_upper, lemma_upper_has_no_lower,
    lemma_concat_is_flatten, lemma_decimal_round_trip, lemma_split_once_first_char, parse_usize,
    ascii_lower, ascii_upper, chars_of, concat, concat_from, decimal, lines, lines_exec,
    push_char, push_decimal, same_chars, slice_of, split_once, split_once_exec, string_of,
    to_lower, to_upper, views,
};

verus! {

/// Why a response could not be parsed.
#[derive(Debug)]
pub enum ResponseParseError {
    EmptyResponse,
    BadVersion(String),
    BadStatus(String),
    BadExplanation(String),
    BadHeaders,
    BadHeader(String),
}

/// A response parse error, as plain values.
pub enum ResponseFault {
    EmptyResponse,
    BadVersion(Seq<char>),
    BadStatus(Seq<char>),
    BadExplanation(Seq<char>),
    BadHeaders,
    BadHeader(Seq<char>),
}

impl View for ResponseParseError {
    type V = ResponseFault;

    open spec fn view(&self) -> ResponseFault {
        match self {
            ResponseParseError::EmptyResponse => ResponseFault::EmptyResponse,
            ResponseParseError::BadVersion(s) => ResponseFault::BadVersion(s@),
            ResponseParseError::BadStatus(s) => ResponseFault::BadStatus(s@),
            ResponseParseError::BadExplanation(s) => ResponseFault::BadExplanation(s@),
            ResponseParseError::BadHeaders => ResponseFault::BadHeaders,
            ResponseParseError::BadHeader(s) => ResponseFault::BadHeader(s@),
        }
    }
}

/// The message that describes a response parse error.
pub open spec fn fault_message(f: ResponseFault) -> Seq<char> {
    match f {
        ResponseFault::EmptyResponse => "Received an empty response"@,
        ResponseFault::BadVersion(s) => "Could not interpret HTTP version: "@ + s,
        ResponseFault::BadStatus(s) => "Could not interpret HTTP status code from status line: "@
            + s,
        ResponseFault::BadExplanation(s) => "Could not interpret HTTP explanation from status line: "@
            + s,
        ResponseFault::BadHeaders => "Could not parse HTTP response headers"@,
        ResponseFault::BadHeader(s) => "Could not parse header: "@ + s,
    }
}

impl ResponseParseError {
    /// The message that describes the error.
    pub fn to_string(&self) -> (s: String)
        ensures
            s@ == fault_message(self@),
    {
        match self {
            ResponseParseError::EmptyResponse => String::from_str("Received an empty response"),
            ResponseParseError::BadVersion(v) => {
                let mut s = String::from_str("Could not interpret HTTP version: ");
                s.append(v.as_str());
                s
            },
            ResponseParseError::BadStatus(v) => {
                let mut s = String::from_str(
                    "Could not interpret HTTP status code from status line: ",
                );
                s.append(v.as_str());
                s
            },
            ResponseParseError::BadExplanation(v) => {
                let mut s = String::from_str(
                    "Could not interpret HTTP explanation from status line: ",
                );
                s.append(v.as_str());
                s
            },
            ResponseParseError::BadHeaders => String::from_str(
                "Could not parse HTTP response headers",
            ),
            ResponseParseError::BadHeader(v) => {
                let mut s = String::from_str("Could not parse header: ");
                s.append(v.as_str());
                s
            },
        }
    }
}

/// The HTTP versions this browser speaks.
#[derive(Debug, Clone, Copy, PartialEq, Eq, Structural)]
pub enum HttpVersion {
    Http10,
    Http11,
}

/// The name of an HTTP version as written on the wire.
pub open spec fn version_text(v: HttpVersion) -> Seq<char> {
    match v {
        HttpVersion::Http10 => seq!['H', 'T', 'T', 'P', '/', '1', '.', '0'],
        HttpVersion::Http11 => seq!['H', 'T', 'T', 'P', '/', '1', '.', '1'],
    }
}

/// Reads an HTTP version, ignoring ASCII case; the error carries the
/// uppercased text.
pub open spec fn parse_version(t: Seq<char>) -> Result<HttpVersion, ResponseFault> {
    let u = ascii_upper(t);
    if u == version_text(HttpVersion::Http10) {
        Ok(HttpVersion::Http10)
    } else if u == version_text(HttpVersion::Http11) {
        Ok(HttpVersion::Http11)
    } else {
        Err(ResponseFault::BadVersion(u))
    }
}

impl HttpVersion {
    /// The name of the version as a character vector.
    fn text_chars(&self) -> (r: Vec<char>)
        ensures
            r@ == version_text(*self),
    {
        match self {
            HttpVersion::Http10 => vec!['H', 'T', 'T', 'P', '/', '1', '.', '0'],
            HttpVersion::Http11 => vec!['H', 'T', 'T', 'P', '/', '1', '.', '1'],
        }
    }

    /// Reads an HTTP version from characters.
    fn from_chars(t: &Vec<char>) -> (r: Result<HttpVersion, ResponseParseError>)
        ensures
            match r {
                Ok(v) => parse_version(t@) == Ok::<HttpVersion, ResponseFault>(v),
                Err(e) => parse_version(t@) == Err::<HttpVersion, ResponseFault>(e@),
            },
    {
        let u = to_upper(t);
        if same_chars(&u, &HttpVersion::Http10.text_chars()) {
            Ok(HttpVersion::Http10)
        } else if same_chars(&u, &HttpVersion::Http11.text_chars()) {
            Ok(HttpVersion::Http11)
        } else {
            Err(ResponseParseError::BadVersion(string_of(&u)))
        }
    }

    /// Reads an HTTP version, ignoring ASCII case (`FromStr`).
    pub fn from_str(s: &str) -> (r: Result<HttpVersion, ResponseParseError>)
        ensures
            match r {
                Ok(v) => parse_version(s@) == Ok::<HttpVersion, ResponseFault>(v),
                Err(e) => parse_version(s@) == Err::<HttpVersion, ResponseFault>(e@),
            },
    {
        HttpVersion::from_chars(&chars_of(s))
    }

    /// The name of the version as written on the wire (`Display`).
    pub fn as_str(&self) -> (r: &'static str)
        ensures
            r@ == version_text(*self),
    {
        match self {
            HttpVersion::Http10 => {
                proof {
                    reveal_strlit("HTTP/1.0");
                }
                assert("HTTP/1.0"@ =~= version_text(HttpVersion::Http10));
                "HTTP/1.0"
            },
            HttpVersion::Http11 => {
                proof {
                    reveal_strlit("HTTP/1.1");
                }
                assert("HTTP/1.1"@ =~= version_text(HttpVersion::Http11));
                "HTTP/1.1"
            },
        }
    }
}

/// The request that fetches `path` from `host`.
pub open spec fn request_message(version: HttpVersion, host: Seq<char>, path: Seq<char>) -> Seq<
    char,
> {
    "GET "@ + path + " "@ + version_text(version) + "\r\nHost: "@ + host + "\r\n\r\n"@
}

/// The address to connect to: the host, a colon, and the port in decimal.
pub open spec fn socket_address(host: Seq<char>, port: usize) -> Seq<char> {
    host + seq![':'] + decimal(port as nat)
}

/// Builds the text of a GET request.
pub fn request_message_exec(version: HttpVersion, host: &str, path: &str) -> (r: String)
    ensures
        r@ == request_message(version, host@, path@),
{
    let mut r = String::from_str("GET ");
    r.append(path);
    r.append(" ");
    r.append(version.as_str());
    r.append("\r\nHost: ");
    r.append(host);
    r.append("\r\n\r\n");
    r
}

/// Builds the socket address `host:port`.
pub fn socket_address_exec(host: &str, port: usize) -> (r: String)
    ensures
        r@ == socket_address(host@, port),
{
    let mut r = String::from_str(host);
    push_char(&mut r, ':');
    push_decimal(&mut r, port);
    r
}

/// A GET request for `path` on `host:port`, over plain TCP.
pub struct HttpRequest<'a> {
    pub version: HttpVersion,
    pub host: &'a str,
    pub port: usize,
    pub path: &'a str,
}

impl<'a> HttpRequest<'a> {
    /// The address to connect to.
    pub fn socket_addr(&self) -> (r: String)
        ensures
            r@ == socket_address(self.host@, self.port),
    {
        socket_address_exec(self.host, self.port)
    }

    /// The text to send.
    pub fn message(&self) -> (r: String)
        ensures
            r@ == request_message(self.version, self.host@, self.path@),
    {
        request_message_exec(self.version, self.host, self.path)
    }
}

/// A parsed response, as plain values.
pub struct ResponseView {
    pub version: HttpVersion,
    pub status: Seq<char>,
    pub explanation: Seq<char>,
    pub headers: Map<Seq<char>, Seq<char>>,
    pub body: Seq<char>,
}

/// The header lines from `ls[i]` on, read into `acc`: on success, the
/// headers and the index of the empty line that ends them.
pub open spec fn header_fields(ls: Seq<Seq<char>>, i: int, acc: Map<Seq<char>, Seq<char>>) -> Result<
    (Map<Seq<char>, Seq<char>>, int),
    ResponseFault,
>
    decreases ls.len() - i,
{
    if i < 0 || i >= ls.len() {
        Err(ResponseFault::BadHeaders)
    } else if ls[i].len() == 0 {
        Ok((acc, i))
    } else {
        match split_once(ls[i], seq![':', ' ']) {
            None => Err(ResponseFault::BadHeader(ls[i])),
            Some((name, value)) => header_fields(ls, i + 1, acc.insert(ascii_lower(name), value)),
        }
    }
}

/// The three parts of a status line split at its first two spaces; the
/// third part keeps any further spaces.
pub open spec fn status_parts(line: Seq<char>) -> (Seq<char>, Option<Seq<char>>, Option<Seq<char>>) {
    match split_once(line, seq![' ']) {
        None => (line, None, None),
        Some((first, rest)) => match split_once(rest, seq![' ']) {
            None => (first, Some(rest), None),
            Some((second, third)) => (first, Some(second), Some(third)),
        },
    }
}

/// The parse of an HTTP response: a status line `VERSION STATUS EXPLANATION`,
/// header lines `Name: value` up to an empty line, then the body, whose lines
/// are joined without their line endings. Version, status and explanation
/// are uppercased and header names lowercased; a later header replaces an
/// earlier one of the same name.
pub open spec fn parse_response(s: Seq<char>) -> Result<ResponseView, ResponseFault> {
    let ls = lines(s);
    if ls.len() == 0 {
        Err(ResponseFault::EmptyResponse)
    } else {
        let (first, second, third) = status_parts(ls[0]);
        match parse_version(first) {
            Err(e) => Err(e),
            Ok(version) => match second {
                None => Err(ResponseFault::BadStatus(ls[0])),
                Some(status) => match third {
                    None => Err(ResponseFault::BadExplanation(ls[0])),
                    Some(explanation) => match header_fields(ls, 1, Map::empty()) {
                        Err(e) => Err(e),
                        Ok((headers, end)) => Ok(
                            ResponseView {
                                version,
                                status: ascii_upper(status),
                                explanation: ascii_upper(explanation),
                                headers,
                                body: concat(ls.skip(end + 1)),
                            },
                        ),
                    },
                },
            },
        }
    }
}

/// Reads the header lines of `ls` from `start` on.
pub(crate) fn read_headers(ls: &Vec<Vec<char>>, start: usize) -> (r: Result<
    (Headers, usize),
    ResponseParseError,
>)
    ensures
        match r {
            Ok((h, end)) => end < ls@.len() && header_fields(
                views(ls@),
                start as int,
                Map::empty(),
            ) == Ok::<(Map<Seq<char>, Seq<char>>, int), ResponseFault>((h@, end as int)),
            Err(e) => header_fields(views(ls@), start as int, Map::empty()) == Err::<
                (Map<Seq<char>, Seq<char>>, int),
                ResponseFault,
            >(e@),
        },
{
    let ghost v = views(ls@);
    let mut headers = Headers::new();
    let sep = vec![':', ' '];
    let mut i = start;
    if i >= ls.len() {
        return Err(ResponseParseError::BadHeaders);
    }
    while i < ls.len()
        invariant
            start <= i <= ls@.len(),
            v == views(ls@),
            sep@ == seq![':', ' '],
            header_fields(v, start as int, Map::empty()) == header_fields(
                v,
                i as int,
                headers@,
            ),
        decreases ls.len() - i,
    {
        let line = &ls[i];
        assert(v[i as int] == line@);
        if line.len() == 0 {
            return Ok((headers, i));
        }
        match split_once_exec(line, &sep) {
            None => {
                return Err(ResponseParseError::BadHeader(string_of(line)));
            },
            Some((name, value)) => {
                headers.insert(string_of(&to_lower(&name)), string_of(&value));
            },
        }
        i += 1;
    }
    Err(ResponseParseError::BadHeaders)
}

/// A response read from the server.
pub struct HttpResponse {
    pub version: HttpVersion,
    pub status: String,
    pub explanation: String,
    pub headers: Headers,
    pub body: String,
}

impl View for HttpResponse {
    type V = ResponseView;

    open spec fn view(&self) -> ResponseView {
        ResponseView {
            version: self.version,
            status: self.status@,
            explanation: self.explanation@,
            headers: self.headers@,
            body: self.body@,
        }
    }
}

/// Parses the text of a response into its parts (`FromStr`).
pub(crate) fn parse_response_exec(s: &str) -> (r: Result<
    (HttpVersion, String, String, Headers, String),
    ResponseParseError,
>)
    ensures
        match r {
            Ok((version, status, explanation, headers, body)) => parse_response(s@) == Ok::<
                ResponseView,
                ResponseFault,
            >(
                ResponseView {
                    version,
                    status: status@,
                    explanation: explanation@,
                    headers: headers@,
                    body: body@,
                },
            ),
            Err(e) => parse_response(s@) == Err::<ResponseView, ResponseFault>(e@),
        },
{
    let chars = chars_of(s);
    let ls = lines_exec(&chars);
    let ghost v = views(ls@);
    if ls.len() == 0 {
        return Err(ResponseParseError::EmptyResponse);
    }
    let statusline = &ls[0];
    assert(v[0] == statusline@);
    let space = vec![' '];
    assert(space@ =~= seq![' ']);
    let (first, rest) = match split_once_exec(statusline, &space) {
        Some((a, b)) => (a, Some(b)),
        None => (slice_of(statusline, 0, statusline.len()), None),
    };
    assert(statusline@.subrange(0, statusline@.len() as int) =~= statusline@);
    assert(v == lines(s@));
    assert(status_parts(v[0]).0 == first@);
    let version = match HttpVersion::from_chars(&first) {
        Ok(version) => version,
        Err(e) => {
            assert(parse_response(s@) == Err::<ResponseView, ResponseFault>(e@));
            return Err(e);
        },
    };
    let rest = match rest {
        Some(rest) => rest,
        None => {
            return Err(ResponseParseError::BadStatus(string_of(statusline)));
        },
    };
    let (second, third) = match split_once_exec(&rest, &space) {
        Some((a, b)) => (a, Some(b)),
        None => (rest, None),
    };
    let third = match third {
        Some(third) => third,
        None => {
            return Err(ResponseParseError::BadExplanation(string_of(statusline)));
        },
    };
    let status = string_of(&to_upper(&second));
    let explanation = string_of(&to_upper(&third));
    assert(status_parts(v[0]) == (first@, Some(second@), Some(third@)));
    let (headers, end) = match read_headers(&ls, 1) {
        Ok(found) => found,
        Err(e) => {
            assert(parse_response(s@) == Err::<ResponseView, ResponseFault>(e@));
            return Err(e);
        },
    };
    let body = concat_from(&ls, end + 1);
    Ok((version, status, explanation, headers, body))
}

impl HttpResponse {
    /// Parses the text of a response (`FromStr`).
    pub fn from_str(s: &str) -> (r: Result<HttpResponse, ResponseParseError>)
        ensures
            match r {
                Ok(resp) => parse_response(s@) == Ok::<ResponseView, ResponseFault>(resp@),
                Err(e) => parse_response(s@) == Err::<ResponseView, ResponseFault>(e@),
            },
    {
        match parse_response_exec(s) {
            Ok((version, status, explanation, headers, body)) => Ok(
                HttpResponse { version, status, explanation, headers, body },
            ),
            Err(e) => Err(e),
        }
    }

    /// The body of the response (`Display`).
    pub fn to_string(&self) -> (s: String)
        ensures
            s@ == self.body@,
    {
        self.body.clone()
    }
}

impl BuildResource for HttpResponse {
    fn build_resource(&self) -> (r: Resource) {
        Resource::Web(
            WebResource {
                response_status: self.status.clone(),
                response_explanation: self.explanation.clone(),
                response_headers: self.headers.clone(),
                response_body: self.body.clone(),
            },
        )
    }
}

/// Reading back the name of a version gives that version.
pub proof fn lemma_version_round_trip(v: HttpVersion)
    ensures
        parse_version(version_text(v)) == Ok::<HttpVersion, ResponseFault>(v),
{
    assert(ascii_upper(version_text(v)) =~= version_text(v));
    assert(version_text(HttpVersion::Http10)[7] != version_text(HttpVersion::Http11)[7]);
}

proof fn lemma_header_fields_names(
    ls: Seq<Seq<char>>,
    i: int,
    acc: Map<Seq<char>, Seq<char>>,
)
    requires
        forall|k: Seq<char>| #[trigger] acc.contains_key(k) ==> has_no_ascii_upper(k),
    ensures
        header_fields(ls, i, acc) matches Ok((h, _)) ==> forall|k: Seq<char>| #[trigger]
            h.contains_key(k) ==> has_no_ascii_upper(k),
    decreases ls.len() - i,
{
    if !(i < 0 || i >= ls.len()) && ls[i].len() != 0 {
        if let Some((name, value)) = split_once(ls[i], seq![':', ' ']) {
            lemma_lower_has_no_upper(name);
            lemma_header_fields_names(ls, i + 1, acc.insert(ascii_lower(name), value));
        }
    }
}

/// In a parsed response, header names are lowercase, and the status and
/// the explanation are uppercase.
pub proof fn lemma_response_normalized(s: Seq<char>)
    requires
        parse_response(s) is Ok,
    ensures
        ({
            let r = parse_response(s)->Ok_0;
            &&& forall|k: Seq<char>| #[trigger] r.headers.contains_key(k) ==> has_no_ascii_upper(k)
            &&& has_no_ascii_lower(r.status)
            &&& has_no_ascii_lower(r.explanation)
        }),
{
    let ls = lines(s);
    let (first, second, third) = status_parts(ls[0]);
    lemma_header_fields_names(ls, 1, Map::empty());
    lemma_upper_has_no_lower(second.unwrap());
    lemma_upper_has_no_lower(third.unwrap());
}

/// The request text lays out, in order and with nothing left out: `GET `,
/// every character of the path, a space, the version name, `\r\nHost: `,
/// the host, and `\r\n\r\n`.
pub proof fn lemma_request_message_layout(v: HttpVersion, host: Seq<char>, path: Seq<char>)
    ensures
        ({
            let m = request_message(v, host, path);
            let p = path.len() as int;
            let h = host.len() as int;
            &&& m.len() == p + h + 25
            &&& m.subrange(0, 4) == seq!['G', 'E', 'T', ' ']
            &&& m.subrange(4, 4 + p) == path
            &&& m[4 + p] == ' '
            &&& m.subrange(5 + p, 13 + p) == version_text(v)
            &&& m.subrange(13 + p, 21 + p) == seq!['\r', '\n', 'H', 'o', 's', 't', ':', ' ']
            &&& m.subrange(21 + p, 21 + p + h) == host
            &&& m.subrange(21 + p + h, 25 + p + h) == seq!['\r', '\n', '\r', '\n']
        }),
{
    reveal_strlit("GET ");
    reveal_strlit(" ");
    reveal_strlit("\r\nHost: ");
    reveal_strlit("\r\n\r\n");
    let m = request_message(v, host, path);
    let p = path.len() as int;
    let h = host.len() as int;
    assert(m.subrange(0, 4) =~= seq!['G', 'E', 'T', ' ']);
    assert(m.subrange(4, 4 + p) =~= path);
    assert(m.subrange(5 + p, 13 + p) =~= version_text(v));
    assert(m.subrange(13 + p, 21 + p) =~= seq!['\r', '\n', 'H', 'o', 's', 't', ':', ' ']);
    assert(m.subrange(21 + p, 21 + p + h) =~= host);
    assert(m.subrange(21 + p + h, 25 + p + h) =~= seq!['\r', '\n', '\r', '\n']);
}

/// The socket address is the host, a colon, and text that reads back as the
/// port.
pub proof fn lemma_socket_address_layout(host: Seq<char>, port: usize)
    ensures
        ({
            let a = socket_address(host, port);
            &&& a.subrange(0, host.len() as int) == host
            &&& a[host.len() as int] == ':'
            &&& parse_usize(a.skip(host.len() as int + 1)) == Some(port)
        }),
{
    let a = socket_address(host, port);
    assert(a.subrange(0, host.len() as int) =~= host);
    assert(a.skip(host.len() as int + 1) =~= decimal(port as nat));
    lemma_decimal_round_trip(port);
}

/// The lowercased name of a header line: the text before its first `: `.
pub open spec fn header_name(line: Seq<char>) -> Seq<char> {
    ascii_lower(split_once(line, seq![':', ' ']).unwrap().0)
}

/// The value of a header line: all of the text after its first `: `.
pub open spec fn header_value(line: Seq<char>) -> Seq<char> {
    split_once(line, seq![':', ' ']).unwrap().1
}

/// No line of `ls` in `(m, e)` names the header that line `m` names.
pub open spec fn last_of_its_name(ls: Seq<Seq<char>>, m: int, e: int) -> bool {
    forall|j: int| m < j < e ==> header_name(#[trigger] ls[j]) != header_name(ls[m])
}

proof fn lemma_header_fields_walk(
    ls: Seq<Seq<char>>,
    i: int,
    acc: Map<Seq<char>, Seq<char>>,
    e: int,
)
    requires
        1 <= i <= e < ls.len(),
        ls[e].len() == 0,
        forall|m: int| i <= m < e ==> (#[trigger] ls[m]).len() > 0,
        header_fields(ls, i, acc) is Ok,
    ensures
        ({
            let (h, end) = header_fields(ls, i, acc)->Ok_0;
            &&& end == e
            &&& forall|m: int| i <= m < e ==> split_once(#[trigger] ls[m], seq![':', ' ']) is Some
            &&& forall|k: Seq<char>|
                #[trigger] h.contains_key(k) <==> acc.contains_key(k) || exists|m: int|
                    i <= m < e && header_name(#[trigger] ls[m]) == k
            &&& forall|m: int|
                i <= m < e && last_of_its_name(ls, m, e) ==> h[header_name(#[trigger] ls[m])]
                    == header_value(ls[m])
            &&& forall|k: Seq<char>|
                acc.contains_key(k) && (forall|m: int| i <= m < e ==> header_name(#[trigger] ls[m])
                    != k) ==> #[trigger] h[k] == acc[k]
        }),
    decreases e - i,
{
    if i < e {
        let (n, v) = split_once(ls[i], seq![':', ' ']).unwrap();
        let acc2 = acc.insert(ascii_lower(n), v);
        lemma_header_fields_walk(ls, i + 1, acc2, e);
        let (h, end) = header_fields(ls, i, acc)->Ok_0;
        assert(header_fields(ls, i, acc) == header_fields(ls, i + 1, acc2));
        assert(header_name(ls[i]) == ascii_lower(n));
        assert forall|k: Seq<char>| #[trigger] h.contains_key(k) <==> acc.contains_key(k) || exists|
            m: int,
        | i <= m < e && header_name(#[trigger] ls[m]) == k by {
            if h.contains_key(k) && !acc.contains_key(k) && k != ascii_lower(n) {
                assert(acc2.contains_key(k) == acc.contains_key(k));
            }
            if exists|m: int| i <= m < e && header_name(#[trigger] ls[m]) == k {
                let m = choose|m: int| i <= m < e && header_name(#[trigger] ls[m]) == k;
                if m > i {
                    assert(i + 1 <= m < e && header_name(ls[m]) == k);
                }
            }
        }
        assert forall|m: int| i <= m < e && last_of_its_name(ls, m, e) implies h[header_name(
            #[trigger] ls[m],
        )] == header_value(ls[m]) by {
            if m == i {
                assert forall|j: int| i + 1 <= j < e implies header_name(#[trigger] ls[j])
                    != ascii_lower(n) by {
                    assert(header_name(ls[j]) != header_name(ls[i]));
                }
                assert(acc2.contains_key(ascii_lower(n)));
            } else {
                assert(last_of_its_name(ls, m, e));
            }
        }
        assert forall|k: Seq<char>|
            acc.contains_key(k) && (forall|m: int| i <= m < e ==> header_name(#[trigger] ls[m])
                != k) implies #[trigger] h[k] == acc[k] by {
            assert(header_name(ls[i]) != k);
            assert forall|m: int| i + 1 <= m < e implies header_name(#[trigger] ls[m]) != k by {
                assert(i <= m < e);
            }
        }
    }
}

/// The headers of a parsed response come from the lines between the status
/// line and the first empty line `e`: each such line holds `: `, its
/// lowercased name is a key, every key is such a name, and the value under
/// a name is all of the text after the first `: ` of the last line with that
/// name, unchanged.
pub proof fn lemma_response_headers(s: Seq<char>, e: int)
    requires
        parse_response(s) is Ok,
        1 <= e < lines(s).len(),
        lines(s)[e].len() == 0,
        forall|m: int| 1 <= m < e ==> (#[trigger] lines(s)[m]).len() > 0,
    ensures
        ({
            let ls = lines(s);
            let h = parse_response(s)->Ok_0.headers;
            &&& forall|m: int| 1 <= m < e ==> split_once(#[trigger] ls[m], seq![':', ' ']) is Some
            &&& forall|k: Seq<char>|
                #[trigger] h.contains_key(k) <==> exists|m: int|
                    1 <= m < e && header_name(#[trigger] ls[m]) == k
            &&& forall|m: int|
                1 <= m < e && last_of_its_name(ls, m, e) ==> h[header_name(#[trigger] ls[m])]
                    == header_value(ls[m])
        }),
{
    let ls = lines(s);
    assert(header_fields(ls, 1, Map::empty()) is Ok);
    lemma_header_fields_walk(ls, 1, Map::empty(), e);
}

/// A header line `name: value`, with no `:` in the name, stores exactly
/// `value` under the lowercased name, unless a later header line before the
/// first empty line `e` names the same header.
pub proof fn lemma_response_header_value(
    s: Seq<char>,
    e: int,
    i: int,
    name: Seq<char>,
    value: Seq<char>,
)
    requires
        parse_response(s) is Ok,
        1 <= i < e < lines(s).len(),
        lines(s)[e].len() == 0,
        forall|m: int| 1 <= m < e ==> (#[trigger] lines(s)[m]).len() > 0,
        lines(s)[i] == name + seq![':', ' '] + value,
        !name.contains(':'),
        forall|j: int| i < j < e ==> header_name(#[trigger] lines(s)[j]) != ascii_lower(name),
    ensures
        parse_response(s)->Ok_0.headers.contains_key(ascii_lower(name)),
        parse_response(s)->Ok_0.headers[ascii_lower(name)] == value,
{
    let ls = lines(s);
    lemma_split_once_first_char(name, seq![':', ' '], value);
    assert(header_name(ls[i]) == ascii_lower(name));
    assert(last_of_its_name(ls, i, e));
    lemma_response_headers(s, e);
}

/// The body of a parsed response is every line after the first empty line
/// `e`, through the last line, joined without line endings.
pub proof fn lemma_response_body(s: Seq<char>, e: int)
    requires
        parse_response(s) is Ok,
        1 <= e < lines(s).len(),
        lines(s)[e].len() == 0,
        forall|m: int| 1 <= m < e ==> (#[trigger] lines(s)[m]).len() > 0,
    ensures
        parse_response(s)->Ok_0.body == lines(s).skip(e + 1).flatten(),
{
    let ls = lines(s);
    assert(header_fields(ls, 1, Map::empty()) is Ok);
    lemma_header_fields_walk(ls, 1, Map::empty(), e);
    lemma_concat_is_flatten(ls.skip(e + 1));
}

/// A status line `a b c`, with no space in `a` or `b`, is read as the
/// version `a`, the status `b` and the explanation `c` (spaces in `c`
/// included), all uppercased; a version other than HTTP/1.0 or HTTP/1.1 is
/// refused with its uppercased text.
pub proof fn lemma_response_status_line(s: Seq<char>, a: Seq<char>, b: Seq<char>, c: Seq<char>)
    requires
        lines(s).len() > 0,
        lines(s)[0] == a + seq![' '] + b + seq![' '] + c,
        !a.contains(' '),
        !b.contains(' '),
    ensures
        ascii_upper(a) != version_text(HttpVersion::Http10) && ascii_upper(a) != version_text(
            HttpVersion::Http11,
        ) ==> parse_response(s) == Err::<ResponseView, ResponseFault>(
            ResponseFault::BadVersion(ascii_upper(a)),
        ),
        parse_response(s) matches Ok(r) ==> ascii_upper(a) == version_text(r.version) && r.status
            == ascii_upper(b) && r.explanation == ascii_upper(c),
{
    lemma_split_once_first_char(a, seq![' '], b + seq![' '] + c);
    assert(lines(s)[0] =~= a + seq![' '] + (b + seq![' '] + c));
    lemma_split_once_first_char(b, seq![' '], c);
}

/// Empty text is an empty response. A status line whose version reads but
/// that has no space after it lacks a status; one with a single space
/// lacks an explanation; either is refused with the whole status line.
pub proof fn lemma_response_short_status_line(s: Seq<char>, a: Seq<char>, b: Seq<char>)
    requires
        !a.contains(' '),
        !b.contains(' '),
        ascii_upper(a) == version_text(HttpVersion::Http10) || ascii_upper(a) == version_text(
            HttpVersion::Http11,
        ),
    ensures
        parse_response(Seq::empty()) == Err::<ResponseView, ResponseFault>(
            ResponseFault::EmptyResponse,
        ),
        lines(s).len() > 0 && lines(s)[0] == a ==> parse_response(s) == Err::<
            ResponseView,
            ResponseFault,
        >(ResponseFault::BadStatus(a)),
        lines(s).len() > 0 && lines(s)[0] == a + seq![' '] + b ==> parse_response(s) == Err::<
            ResponseView,
            ResponseFault,
        >(ResponseFault::BadExplanation(a + seq![' '] + b)),
{
    crate::text::lemma_lines_first_line(Seq::empty(), Seq::empty());
    crate::text::lemma_split_once_char(a, ' ');
    crate::text::lemma_split_once_char(b, ' ');
    lemma_split_once_first_char(a, seq![' '], b);
}

proof fn lemma_header_fields_refused(
    ls: Seq<Seq<char>>,
    i: int,
    acc: Map<Seq<char>, Seq<char>>,
    e: int,
)
    requires
        1 <= i <= e <= ls.len(),
        forall|m: int|
            i <= m < e ==> (#[trigger] ls[m]).len() > 0 && split_once(ls[m], seq![':', ' ']) is Some,
    ensures
        e == ls.len() ==> header_fields(ls, i, acc) == Err::<
            (Map<Seq<char>, Seq<char>>, int),
            ResponseFault,
        >(ResponseFault::BadHeaders),
        e < ls.len() && ls[e].len() > 0 && split_once(ls[e], seq![':', ' ']) is None
            ==> header_fields(ls, i, acc) == Err::<(Map<Seq<char>, Seq<char>>, int), ResponseFault>(
            ResponseFault::BadHeader(ls[e]),
        ),
    decreases e - i,
{
    if i < e {
        let (n, v) = split_once(ls[i], seq![':', ' ']).unwrap();
        assert(ls[i].len() > 0);
        lemma_header_fields_refused(ls, i + 1, acc.insert(ascii_lower(n), v), e);
    }
}

/// After a good status line, header lines run up to the first empty line.
/// If no empty line comes, the headers are refused; the first nonempty line
/// before it without `: ` is refused as a bad header, with its text.
pub proof fn lemma_response_header_errors(
    s: Seq<char>,
    a: Seq<char>,
    b: Seq<char>,
    c: Seq<char>,
    e: int,
)
    requires
        lines(s).len() > 0,
        lines(s)[0] == a + seq![' '] + b + seq![' '] + c,
        !a.contains(' '),
        !b.contains(' '),
        ascii_upper(a) == version_text(HttpVersion::Http10) || ascii_upper(a) == version_text(
            HttpVersion::Http11,
        ),
        1 <= e <= lines(s).len(),
        forall|m: int|
            1 <= m < e ==> (#[trigger] lines(s)[m]).len() > 0 && split_once(
                lines(s)[m],
                seq![':', ' '],
            ) is Some,
    ensures
        e == lines(s).len() ==> parse_response(s) == Err::<ResponseView, ResponseFault>(
            ResponseFault::BadHeaders,
        ),
        e < lines(s).len() && lines(s)[e].len() > 0 && split_once(lines(s)[e], seq![':', ' '])
            is None ==> parse_response(s) == Err::<ResponseView, ResponseFault>(
            ResponseFault::BadHeader(lines(s)[e]),
        ),
{
    lemma_split_once_first_char(a, seq![' '], b + seq![' '] + c);
    assert(lines(s)[0] =~= a + seq![' '] + (b + seq![' '] + c));
    lemma_split_once_first_char(b, seq![' '], c);
    lemma_header_fields_refused(lines(s), 1, Map::empty(), e);
}

/// Only the two version names are read, in any ASCII case; anything else
/// is refused with its uppercased text.
pub proof fn lemma_version_names(t: Seq<char>)
    ensures
        parse_version(t) matches Ok(v) ==> ascii_upper(t) == version_text(v),
        parse_version(t) is Err ==> parse_version(t) == Err::<HttpVersion, ResponseFault>(
            ResponseFault::BadVersion(ascii_upper(t)),
        ) && ascii_upper(t) != version_text(HttpVersion::Http10) && ascii_upper(t)
            != version_text(HttpVersion::Http11),
{
}

} // verus!
