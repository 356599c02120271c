//! The HTTP data model: requests parsed from raw text, responses serialized
//! to bytes, and the canned response constructors.

pub mod content_type;

use vstd::prelude::*;
use vstd::string::*;
use vstd::utf8::encode_utf8;
use crate::dict::Dict;
use crate::dict::dict_find;
use crate::dict::dict_insert;
use crate::dict::lemma_dict_find_none;
use crate::strutil::dec_val;
use crate::strutil::lemma_dec_chars_val;
use crate::strutil::chop_cr;
use crate::strutil::dec_chars;
use crate::strutil::dec_int_chars;
use crate::strutil::find_char;
use crate::strutil::find_in;
use crate::strutil::i32_to_string;
use crate::strutil::join_char;
use crate::strutil::join_slash;
use crate::strutil::lemma_find_char_from_witness;
use crate::strutil::lemma_find_char_none;
use crate::strutil::split_chars;
use crate::strutil::split_str;
use crate::strutil::strip_cr;
use crate::strutil::trim_left_chars;
use crate::strutil::trim_start_str;
use crate::strutil::usize_to_string;
use crate::strutil::ws_tokens;
use crate::strutil::ws_tokens_of;
use self::content_type::ContentType;
use self::content_type::ct_chars;

verus! {

/// The canonical lookup key of a request: `method`, one space, `route`.
pub open spec fn route_key(method: Seq<char>, route: Seq<char>) -> Seq<char> {
    method + " "@ + route
}

/// Response struct that contains everything returned to the client.  Built
/// using the builder pattern: `Response::new().with_status(200)...`.
#[derive(Debug, PartialEq, Eq)]
pub struct Response {
    pub status: i32,
    pub content_type: ContentType,
    pub body: Vec<u8>,
    pub headers: Option<Dict>,
}

/// The header bindings a response carries before serialization injects the
/// computed ones; an unset header map counts as empty.
pub open spec fn opt_headers(h: Option<Dict>) -> Seq<(Seq<char>, Seq<char>)> {
    match h {
        Some(d) => d@,
        None => Seq::<(Seq<char>, Seq<char>)>::empty(),
    }
}

/// The headers that serialization writes: the response's own, with
/// `Content-Type` and `Content-Length` always injected, overwriting any
/// bindings of those names.
pub open spec fn wire_headers(r: Response) -> Seq<(Seq<char>, Seq<char>)> {
    dict_insert(
        dict_insert(opt_headers(r.headers), "Content-Type"@, ct_chars(r.content_type)),
        "Content-Length"@,
        dec_chars(r.body@.len() as nat),
    )
}

/// One `Name: value` line per header binding, each ended by CRLF.
pub open spec fn header_lines(s: Seq<(Seq<char>, Seq<char>)>) -> Seq<char>
    decreases s.len(),
{
    if s.len() == 0 {
        Seq::<char>::empty()
    } else {
        header_lines(s.drop_last()) + s.last().0 + ": "@ + s.last().1 + "\r\n"@
    }
}

/// The textual head of a serialized response: status line, header lines,
/// and the blank line that separates the head from the body.
pub open spec fn response_head(r: Response) -> Seq<char> {
    "HTTP/1.1 "@ + dec_int_chars(r.status as int) + "\r\n"@ + header_lines(wire_headers(r))
        + "\r\n"@
}

/// The full wire form of a response: the UTF-8 bytes of the head followed
/// by the body bytes verbatim.
pub open spec fn response_bytes(r: Response) -> Seq<u8> {
    encode_utf8(response_head(r)) + r.body@
}

proof fn lemma_header_lines_take_step(s: Seq<(Seq<char>, Seq<char>)>, i: int)
    requires
        0 <= i < s.len(),
    ensures
        header_lines(s.take(i + 1)) =~= header_lines(s.take(i)) + s[i].0 + ": "@ + s[i].1
            + "\r\n"@,
{
    assert(s.take(i + 1).drop_last() =~~= s.take(i));
    assert(s.take(i + 1).last() == s[i]);
}

impl Response {
    /// Creates a new response with status 0, content type `text/html`, an
    /// empty body and no headers.
    pub fn new() -> (r: Response)
        ensures
            r.status == 0,
            r.content_type == ContentType::TextHtml,
            r.body@ == Seq::<u8>::empty(),
            r.headers is None,
    {
        let r = Response {
            status: 0i32,
            content_type: ContentType::TextHtml,
            body: Vec::new(),
            headers: None,
        };
        proof {
            assert(r.body@ =~= Seq::<u8>::empty());
        }
        r
    }

    pub fn get_status(&self) -> (r: i32)
        ensures
            r == self.status,
    {
        self.status
    }

    pub fn get_content_type(&self) -> (r: ContentType)
        ensures
            r == self.content_type,
    {
        self.content_type
    }

    pub fn get_body(&self) -> (r: Vec<u8>)
        ensures
            r@ == self.body@,
    {
        let n = self.body.len();
        let mut out: Vec<u8> = Vec::new();
        let mut i: usize = 0;
        while i < n
            invariant
                0 <= i <= n,
                n == self.body@.len(),
                out@ =~= self.body@.take(i as int),
            decreases n - i,
        {
            out.push(self.body[i]);
            i = i + 1;
        }
        proof {
            assert(out@ =~= self.body@);
        }
        out
    }

    pub fn get_headers(&self) -> (r: Option<Dict>)
        ensures
            match r {
                Some(d) => self.headers matches Some(o) && d@ == o@,
                None => self.headers is None,
            },
    {
        match &self.headers {
            Some(d) => Some(d.clone()),
            None => None,
        }
    }

    pub fn with_status(self, res_status: i32) -> (r: Response)
        ensures
            r == (Response { status: res_status, ..self }),
    {
        Response { status: res_status, ..self }
    }

    pub fn with_content_type(self, res_content: ContentType) -> (r: Response)
        ensures
            r == (Response { content_type: res_content, ..self }),
    {
        Response { content_type: res_content, ..self }
    }

    pub fn with_body(self, res_body: Vec<u8>) -> (r: Response)
        ensures
            r == (Response { body: res_body, ..self }),
    {
        Response { body: res_body, ..self }
    }

    /// Replaces the current headers with the given map.  Used in the
    /// builder pattern.
    pub fn with_headers(self, res_headers: Dict) -> (r: Response)
        ensures
            r.status == self.status,
            r.content_type == self.content_type,
            r.body == self.body,
            r.headers == Some(res_headers),
    {
        Response { headers: Some(res_headers), ..self }
    }

    /// Adds a single header binding.  Used in the builder pattern.
    pub fn with_header(self, key: &str, value: &str) -> (r: Response)
        ensures
            r.status == self.status,
            r.content_type == self.content_type,
            r.body == self.body,
            r.headers matches Some(d) && d@ == dict_insert(
                opt_headers(self.headers),
                key@,
                value@,
            ),
    {
        let mut r = self;
        r.add_header(key, value);
        r
    }

    /// Adds a single header binding in place, creating the header map when
    /// none is set yet.
    pub fn add_header(&mut self, key: &str, value: &str)
        ensures
            final(self).status == old(self).status,
            final(self).content_type == old(self).content_type,
            final(self).body == old(self).body,
            final(self).headers matches Some(d) && d@ == dict_insert(
                opt_headers(old(self).headers),
                key@,
                value@,
            ),
    {
        let mut h: Option<Dict> = None;
        std::mem::swap(&mut h, &mut self.headers);
        let mut d = match h {
            Some(d) => d,
            None => Dict::new(),
        };
        d.insert(key.to_owned(), value.to_owned());
        self.headers = Some(d);
    }

    /// Converts the response head (status line, headers with `Content-Type`
    /// and `Content-Length` injected, and the closing blank line) to a
    /// string.  The body is left to [`Response::byteify`], since it need
    /// not be text.
    pub fn stringify(&self) -> (r: String)
        ensures
            r@ == response_head(*self),
    {
        let mut hs: Dict = match &self.headers {
            Some(d) => d.clone(),
            None => Dict::new(),
        };
        hs.insert(String::from_str("Content-Type"), self.content_type.stringify());
        hs.insert(String::from_str("Content-Length"), usize_to_string(self.body.len()));
        proof {
            assert(hs@ == wire_headers(*self));
        }
        let mut out = String::from_str("HTTP/1.1 ");
        out.append(i32_to_string(self.status).as_str());
        out.append("\r\n");
        let ghost status_line = "HTTP/1.1 "@ + dec_int_chars(self.status as int) + "\r\n"@;
        let n = hs.len();
        let mut i: usize = 0;
        proof {
            assert(hs@.take(0) =~~= Seq::<(Seq<char>, Seq<char>)>::empty());
        }
        while i < n
            invariant
                0 <= i <= n,
                n == hs@.len(),
                hs@ == wire_headers(*self),
                out@ == status_line + header_lines(hs@.take(i as int)),
                status_line == "HTTP/1.1 "@ + dec_int_chars(self.status as int) + "\r\n"@,
            decreases n - i,
        {
            out.append(hs.key_at(i).as_str());
            out.append(": ");
            out.append(hs.value_at(i).as_str());
            out.append("\r\n");
            proof {
                lemma_header_lines_take_step(hs@, i as int);
            }
            i = i + 1;
        }
        proof {
            assert(hs@.take(n as int) =~~= hs@);
        }
        out.append("\r\n");
        out
    }

    /// Transforms the whole response into its wire bytes: the head followed
    /// by the body verbatim.
    pub fn byteify(self) -> (r: Vec<u8>)
        ensures
            r@ == response_bytes(self),
    {
        let head = self.stringify();
        let mut out = head.as_str().as_bytes_vec();
        let Response { body, .. } = self;
        let mut body = body;
        out.append(&mut body);
        out
    }
}

/// Round trip between a response body and its serialized length: a
/// response whose headers were never set (as the canned constructors build
/// them) serializes to a head holding exactly a `Content-Type` line and a
/// `Content-Length` line, and the `Content-Length` value is the decimal
/// rendering of the body length — reading it back gives the length itself,
/// for any body, empty or arbitrarily large.
pub proof fn lemma_content_length_round_trip(r: Response)
    requires
        r.headers is None,
    ensures
        response_head(r) == "HTTP/1.1 "@ + dec_int_chars(r.status as int) + "\r\n"@
            + "Content-Type"@ + ": "@ + ct_chars(r.content_type) + "\r\n"@ + "Content-Length"@
            + ": "@ + dec_chars(r.body@.len() as nat) + "\r\n"@ + "\r\n"@,
        dec_val(dec_chars(r.body@.len() as nat)) == r.body@.len(),
{
    let e = Seq::<(Seq<char>, Seq<char>)>::empty();
    let ctk = "Content-Type"@;
    let clk = "Content-Length"@;
    let ctv = ct_chars(r.content_type);
    let clv = dec_chars(r.body@.len() as nat);
    reveal_strlit("Content-Type");
    reveal_strlit("Content-Length");
    assert(ctk.len() == 12);
    assert(clk.len() == 14);
    assert(ctk != clk);
    assert(opt_headers(r.headers) == e);
    let d1 = dict_insert(e, ctk, ctv);
    assert(dict_find(e, ctk) is None);
    assert(d1 == e.push((ctk, ctv)));
    let d2 = dict_insert(d1, clk, clv);
    assert(d1[0].0 == ctk);
    lemma_dict_find_none(d1, clk);
    assert(dict_find(d1, clk) is None);
    assert(d2 == d1.push((clk, clv)));
    assert(wire_headers(r) == d2);
    assert(d2.drop_last() =~~= d1);
    assert(d1.drop_last() =~~= e);
    assert(header_lines(e) == Seq::<char>::empty());
    assert(header_lines(d1) =~= ctk + ": "@ + ctv + "\r\n"@);
    assert(header_lines(d2) =~= (ctk + ": "@ + ctv + "\r\n"@) + clk + ": "@ + clv + "\r\n"@);
    assert(response_head(r) =~= "HTTP/1.1 "@ + dec_int_chars(r.status as int) + "\r\n"@ + ctk
        + ": "@ + ctv + "\r\n"@ + clk + ": "@ + clv + "\r\n"@ + "\r\n"@);
    lemma_dec_chars_val(r.body@.len() as nat);
}

/// Copies a string's bytes into a fresh byte vector.
fn string_bytes(s: &str) -> (r: Vec<u8>)
    ensures
        r@ == encode_utf8(s@),
{
    s.as_bytes_vec()
}

/// Builds a response from a given body and content type with status 200.
pub fn ok(body: String, content_type: ContentType) -> (r: Response)
    ensures
        r.status == 200,
        r.content_type == content_type,
        r.body@ == encode_utf8(body@),
        r.headers is None,
{
    Response::new().with_status(200).with_content_type(content_type).with_body(
        string_bytes(body.as_str()),
    )
}

/// Builds a response from a given body and content type with status 404.
pub fn not_found(body: String, content_type: ContentType) -> (r: Response)
    ensures
        r.status == 404,
        r.content_type == content_type,
        r.body@ == encode_utf8(body@),
        r.headers is None,
{
    Response::new().with_status(404).with_content_type(content_type).with_body(
        string_bytes(body.as_str()),
    )
}

/// Builds a response from a given body (already bytes) and content type
/// with status 200.
pub fn ok_file(body: Vec<u8>, content_type: ContentType) -> (r: Response)
    ensures
        r.status == 200,
        r.content_type == content_type,
        r.body == body,
        r.headers is None,
{
    Response::new().with_status(200).with_content_type(content_type).with_body(body)
}

/// Builds a response from a given body and content type with status 505.
/// The status is 505 rather than the conventional 500: callers that need
/// wire compatibility rely on it, so it is kept as is.
pub fn server_error(body: String, content_type: ContentType) -> (r: Response)
    ensures
        r.status == 505,
        r.content_type == content_type,
        r.body@ == encode_utf8(body@),
        r.headers is None,
{
    Response::new().with_status(505).with_content_type(content_type).with_body(
        string_bytes(body.as_str()),
    )
}

/// Request struct that contains the elements of the request given to the
/// server.  `url_args` holds the arguments captured by a wildcard route;
/// `query_params` the parameters passed by the client after a `?`.
#[derive(Debug, PartialEq, Eq)]
pub struct Request {
    pub method: String,
    pub route: String,
    pub headers: Dict,
    pub url_args: Vec<String>,
    pub query_params: Dict,
}

/// The lines of a raw request: leading whitespace dropped, split at `'\n'`,
/// each line with one trailing `'\r'` removed.
pub open spec fn request_lines(raw: Seq<char>) -> Seq<Seq<char>> {
    split_chars(trim_left_chars(raw), '\n').map_values(|l: Seq<char>| strip_cr(l))
}

/// The whitespace-separated tokens of the request line.
pub open spec fn request_line_tokens(raw: Seq<char>) -> Seq<Seq<char>> {
    ws_tokens(request_lines(raw)[0])
}

/// A raw request is well formed when its first line has at least a method
/// token and a route token.
pub open spec fn well_formed_request(raw: Seq<char>) -> bool {
    request_line_tokens(raw).len() >= 2
}

/// Route normalization: one trailing slash is stripped, except from the
/// bare root route `"/"`.
pub open spec fn normalize_route(route: Seq<char>) -> Seq<char> {
    if route.len() > 1 && route.last() == '/' {
        route.drop_last()
    } else {
        route
    }
}

/// The method token of a well-formed raw request.
pub open spec fn parsed_method(raw: Seq<char>) -> Seq<char> {
    request_line_tokens(raw)[0]
}

/// The route token of a well-formed raw request, normalized.
pub open spec fn parsed_route(raw: Seq<char>) -> Seq<char> {
    normalize_route(request_line_tokens(raw)[1])
}

/// The header bindings collected from a sequence of lines: each line with a
/// colon binds what precedes its first colon to what follows it, left
/// trimmed; lines without a colon are ignored; later lines win.
pub open spec fn header_pairs(ls: Seq<Seq<char>>) -> Seq<(Seq<char>, Seq<char>)>
    decreases ls.len(),
{
    if ls.len() == 0 {
        Seq::<(Seq<char>, Seq<char>)>::empty()
    } else {
        let d = header_pairs(ls.drop_last());
        let line = ls.last();
        match find_char(line, ':') {
            Some(i) => dict_insert(d, line.take(i), trim_left_chars(line.skip(i + 1))),
            None => d,
        }
    }
}

/// The header bindings of a raw request: all lines after the first.
pub open spec fn parsed_headers(raw: Seq<char>) -> Seq<(Seq<char>, Seq<char>)> {
    header_pairs(request_lines(raw).skip(1))
}

/// The query section of a route: what follows the last `'?'`, or the whole
/// route when it has none.
pub open spec fn query_section(route: Seq<char>) -> Seq<char> {
    split_chars(route, '?').last()
}

/// The query bindings of a sequence of `&`-separated parts: a part with
/// exactly one `'='` binds its left side to its right side; every other
/// part is dropped.
pub open spec fn query_pairs_of(parts: Seq<Seq<char>>) -> Seq<(Seq<char>, Seq<char>)>
    decreases parts.len(),
{
    if parts.len() == 0 {
        Seq::<(Seq<char>, Seq<char>)>::empty()
    } else {
        let d = query_pairs_of(parts.drop_last());
        let ps = split_chars(parts.last(), '=');
        if ps.len() == 2 {
            dict_insert(d, ps[0], ps[1])
        } else {
            d
        }
    }
}

/// The query parameters carried by a route.
pub open spec fn query_params_of(route: Seq<char>) -> Seq<(Seq<char>, Seq<char>)> {
    query_pairs_of(split_chars(query_section(route), '&'))
}

/// The error a malformed raw request parses to.
#[derive(Clone, Copy, Debug, PartialEq, Eq, Structural)]
pub enum ParseError {
    MalformedRequestLine,
}

impl Request {
    /// Creates a new request with an empty route and GET method.
    pub fn new() -> (r: Request)
        ensures
            r.method@ == "GET"@,
            r.route@ == Seq::<char>::empty(),
            r.headers@ == Seq::<(Seq<char>, Seq<char>)>::empty(),
            r.url_args@ == Seq::<String>::empty(),
            r.query_params@ == Seq::<(Seq<char>, Seq<char>)>::empty(),
    {
        let r = Request {
            method: String::from_str("GET"),
            route: String::new(),
            headers: Dict::new(),
            url_args: Vec::new(),
            query_params: Dict::new(),
        };
        proof {
            assert(r.url_args@ =~= Seq::<String>::empty());
        }
        r
    }

    pub fn get_method(&self) -> (r: String)
        ensures
            r@ == self.method@,
    {
        self.method.clone()
    }

    /// Returns the route including the method, as it indexes the route
    /// table: `method`, one space, `route`.
    pub fn get_route(&self) -> (r: String)
        ensures
            r@ == route_key(self.method@, self.route@),
    {
        let mut r = self.method.clone();
        r.append(" ");
        r.append(self.route.as_str());
        r
    }

    pub fn get_headers(&self) -> (r: Dict)
        ensures
            r@ == self.headers@,
    {
        self.headers.clone()
    }

    /// The wildcard captures joined back into a path fragment with `'/'`.
    pub fn get_url_args(&self) -> (r: String)
        ensures
            r@ == join_char(self.url_args.deep_view(), '/'),
    {
        join_slash(&self.url_args)
    }

    pub fn get_query_params(&self) -> (r: Dict)
        ensures
            r@ == self.query_params@,
    {
        self.query_params.clone()
    }

    pub fn with_method(self, req_method: String) -> (r: Request)
        ensures
            r == (Request { method: req_method, ..self }),
    {
        Request { method: req_method, ..self }
    }

    pub fn with_route(self, res_route: String) -> (r: Request)
        ensures
            r == (Request { route: res_route, ..self }),
    {
        Request { route: res_route, ..self }
    }

    /// Replaces the current headers with the given map.  Used in the
    /// builder pattern.
    pub fn with_headers(self, req_headers: Dict) -> (r: Request)
        ensures
            r.method == self.method,
            r.route == self.route,
            r.headers == req_headers,
            r.url_args == self.url_args,
            r.query_params == self.query_params,
    {
        Request { headers: req_headers, ..self }
    }

    /// Adds one header binding.  Used in the builder pattern.
    pub fn with_header(self, req_header: (String, String)) -> (r: Request)
        ensures
            r.method == self.method,
            r.route == self.route,
            r.headers@ == dict_insert(self.headers@, req_header.0@, req_header.1@),
            r.url_args == self.url_args,
            r.query_params == self.query_params,
    {
        let mut r = self;
        let (key, value) = req_header;
        r.headers.insert(key, value);
        r
    }

    pub fn with_url_args(self, req_args: Vec<String>) -> (r: Request)
        ensures
            r == (Request { url_args: req_args, ..self }),
    {
        Request { url_args: req_args, ..self }
    }

    pub fn with_url_arg(self, req_param: String) -> (r: Request)
        ensures
            r.method == self.method,
            r.route == self.route,
            r.headers == self.headers,
            r.url_args@ == self.url_args@.push(req_param),
            r.query_params == self.query_params,
    {
        let mut r = self;
        r.url_args.push(req_param);
        r
    }

    pub fn with_query_params(self, req_params: Dict) -> (r: Request)
        ensures
            r.method == self.method,
            r.route == self.route,
            r.headers == self.headers,
            r.url_args == self.url_args,
            r.query_params == req_params,
    {
        Request { query_params: req_params, ..self }
    }

    pub fn with_query_param(self, req_param: (String, String)) -> (r: Request)
        ensures
            r.method == self.method,
            r.route == self.route,
            r.headers == self.headers,
            r.url_args == self.url_args,
            r.query_params@ == dict_insert(self.query_params@, req_param.0@, req_param.1@),
    {
        let mut r = self;
        let (key, value) = req_param;
        r.query_params.insert(key, value);
        r
    }

    /// Re-reads the query parameters from the route: the section after the
    /// last `'?'` is split at `'&'`, and every `key=value` part with
    /// exactly one `'='` is bound.
    pub fn query_params_from_route(self) -> (r: Request)
        ensures
            r.method == self.method,
            r.route == self.route,
            r.headers == self.headers,
            r.url_args == self.url_args,
            r.query_params@ == query_params_of(self.route@),
    {
        let params = parse_query(self.route.as_str());
        Request { query_params: params, ..self }
    }

    /// Creates a request from raw HTTP request text.  The text must be well
    /// formed: [`parse_request`] is the total variant that rejects
    /// malformed text instead.
    pub fn from(request: &str) -> (r: Request)
        requires
            well_formed_request(request@),
        ensures
            r.method@ == parsed_method(request@),
            r.route@ == parsed_route(request@),
            r.headers@ == parsed_headers(request@),
            r.url_args@ == Seq::<String>::empty(),
            r.query_params@ == query_params_of(parsed_route(request@)),
    {
        match parse_request(request) {
            Ok(r) => r,
            Err(_) => vstd::pervasive::unreached(),
        }
    }
}

/// The query parameters of a route, as a fresh map.
fn parse_query(route: &str) -> (r: Dict)
    ensures
        r@ == query_params_of(route@),
{
    let pieces = split_str(route, '?');
    let q = &pieces[pieces.len() - 1];
    proof {
        assert(pieces.deep_view().last() == q@);
    }
    let parts = split_str(q.as_str(), '&');
    let ghost pv = parts.deep_view();
    let n = parts.len();
    let mut params = Dict::new();
    let mut i: usize = 0;
    proof {
        assert(pv.take(0) =~~= Seq::<Seq<char>>::empty());
    }
    while i < n
        invariant
            0 <= i <= n,
            n == pv.len(),
            pv == parts.deep_view(),
            params@ == query_pairs_of(pv.take(i as int)),
        decreases n - i,
    {
        let ps = split_str(parts[i].as_str(), '=');
        proof {
            assert(pv.take(i + 1).drop_last() =~~= pv.take(i as int));
            assert(pv.take(i + 1).last() == pv[i as int]);
        }
        if ps.len() == 2 {
            let value = ps[1].clone();
            let key = ps[0].clone();
            params.insert(key, value);
        }
        i = i + 1;
    }
    proof {
        assert(pv.take(n as int) =~~= pv);
    }
    params
}

/// Parses raw HTTP request text into a request.  Fails exactly when the
/// first line lacks a method token and a route token; otherwise the method
/// and normalized route are taken from the first line, headers from the
/// remaining lines, and query parameters from the route.
pub fn parse_request(raw: &str) -> (r: Result<Request, ParseError>)
    ensures
        match r {
            Ok(req) => well_formed_request(raw@) && req.method@ == parsed_method(raw@)
                && req.route@ == parsed_route(raw@) && req.headers@ == parsed_headers(raw@)
                && req.url_args@ == Seq::<String>::empty() && req.query_params@ == query_params_of(
                parsed_route(raw@),
            ),
            Err(e) => !well_formed_request(raw@) && e == ParseError::MalformedRequestLine,
        },
{
    let trimmed = trim_start_str(raw);
    let pieces = split_str(trimmed.as_str(), '\n');
    let ghost piece_views = pieces.deep_view();
    let n = pieces.len();
    let mut lines: Vec<String> = Vec::new();
    let mut i: usize = 0;
    proof {
        assert(request_lines(raw@) =~~= piece_views.map_values(|l: Seq<char>| strip_cr(l)));
    }
    while i < n
        invariant
            0 <= i <= n,
            n == piece_views.len(),
            piece_views == pieces.deep_view(),
            lines.deep_view() =~~= request_lines(raw@).take(i as int),
            request_lines(raw@) == piece_views.map_values(|l: Seq<char>| strip_cr(l)),
        decreases n - i,
    {
        let ghost before = lines.deep_view();
        lines.push(chop_cr(pieces[i].as_str()));
        proof {
            assert(lines.deep_view() =~~= before.push(strip_cr(piece_views[i as int])));
            assert(request_lines(raw@)[i as int] == strip_cr(piece_views[i as int]));
            assert(before.push(strip_cr(piece_views[i as int])) =~~= request_lines(raw@).take(
                i + 1,
            ));
        }
        i = i + 1;
    }
    proof {
        assert(lines.deep_view() =~~= request_lines(raw@));
    }
    let ghost line_views = request_lines(raw@);
    let toks = ws_tokens_of(lines[0].as_str());
    if toks.len() < 2 {
        return Err(ParseError::MalformedRequestLine);
    }
    let method = toks[0].clone();
    let route_tok = &toks[1];
    let rl = route_tok.unicode_len();
    let route: String = if rl > 1 && route_tok.as_str().get_char(rl - 1) == '/' {
        proof {
            assert(route_tok@.subrange(0, route_tok@.len() - 1) =~= route_tok@.drop_last());
        }
        route_tok.as_str().substring_char(0, rl - 1).to_owned()
    } else {
        route_tok.clone()
    };
    let mut headers = Dict::new();
    let ln = lines.len();
    let mut i: usize = 1;
    proof {
        assert(line_views.skip(1).take(0) =~~= Seq::<Seq<char>>::empty());
    }
    while i < ln
        invariant
            1 <= i <= ln,
            ln == lines.deep_view().len(),
            lines.deep_view() == line_views,
            headers@ == header_pairs(line_views.skip(1).take(i - 1)),
        decreases ln - i,
    {
        let line = &lines[i];
        let llen = line.unicode_len();
        proof {
            assert(line_views.skip(1).take(i as int).drop_last() =~~= line_views.skip(1).take(
                i - 1,
            ));
            assert(line_views.skip(1).take(i as int).last() == line@);
        }
        match find_in(line.as_str(), 0, ':') {
            Some(j) => {
                proof {
                    lemma_find_char_from_witness(line@, ':', j as int);
                }
                let key = line.as_str().substring_char(0, j).to_owned();
                let value = trim_start_str(line.as_str().substring_char(j + 1, llen));
                proof {
                    assert(key@ =~= line@.take(j as int));
                    assert(line@.subrange(j + 1, line@.len() as int) =~= line@.skip(j + 1));
                }
                headers.insert(key, value);
            },
            None => {
                proof {
                    lemma_find_char_none(line@, ':');
                }
            },
        }
        i = i + 1;
    }
    proof {
        assert(line_views.skip(1).take(ln - 1) =~~= line_views.skip(1));
    }
    let params = parse_query(route.as_str());
    Ok(
        Request {
            method,
            route,
            headers,
            url_args: Vec::new(),
            query_params: params,
        },
    )
}

} // verus!
