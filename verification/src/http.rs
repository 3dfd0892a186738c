use vstd::prelude::*;

use crate::decimal::{
    append_decimal, decimal_chars, decimal_digits, is_ascii_digit, lemma_decimal_digits,
};
use crate::errors::{ServerError, ServerErrorView};
use crate::range::{
    invalid_range_message, lemma_open_end_takes_end_default, lemma_open_start_takes_start_default,
    parse_byte_range_request, spec_parse_byte_range,
};
use vstd::string::StringSliceAdditionalSpecFns;
use vstd::utf8::{
    encode_utf8_decode_utf8, is_leading_byte_width_1, partial_valid_utf8,
    partial_valid_utf8_extend_ascii_block, valid_utf8,
};

verus! {

/// `httparse::Error`, the reason a request could not be parsed.
#[verifier::external_type_specification]
#[verifier::external_body]
pub struct ExHttparseError(httparse::Error);

/// `std::str::Utf8Error`, the reason bytes are not a string.
#[verifier::external_type_specification]
#[verifier::external_body]
pub struct ExUtf8Error(std::str::Utf8Error);

/// One header of a request: its name and its value, as bytes.
pub struct HeaderField {
    pub name: Vec<u8>,
    pub value: Vec<u8>,
}

/// The parts of an HTTP request that the server reads.
pub struct ParsedRequest {
    /// The request method, such as `GET`, where the request line got that far.
    pub method: Option<String>,
    /// The request path, such as `/instructor`, where the request line got that far.
    pub path: Option<String>,
    /// The header slots that the parser hands back, in order.
    pub headers: Vec<HeaderField>,
}

/// A parsed request as mathematical values.
pub struct RequestView {
    pub method: Option<Seq<char>>,
    pub path: Option<Seq<char>>,
    pub headers: Seq<(Seq<u8>, Seq<u8>)>,
}

pub open spec fn option_string_view(s: Option<String>) -> Option<Seq<char>> {
    match s {
        Some(v) => Some(v@),
        None => None,
    }
}

impl View for ParsedRequest {
    type V = RequestView;

    open spec fn view(&self) -> RequestView {
        RequestView {
            method: option_string_view(self.method),
            path: option_string_view(self.path),
            headers: self.headers@.map_values(|h: HeaderField| (h.name@, h.value@)),
        }
    }
}

/// What `httparse::Request::parse` makes of `buf` with `header_slots` header slots:
/// `None` where it returns an error, else the method, path and header slots of the request
/// after the call, whether the request was complete or partial.
pub uninterp spec fn httparse_request(buf: Seq<u8>, header_slots: nat) -> Option<RequestView>;

/// Parses `buf` with `httparse::Request::parse` into `header_slots` empty header slots.
/// The contract claims only that the outcome is the one `httparse_request` names, the same
/// for the same bytes and slot count; what httparse accepts is not stated.
#[verifier::external_body]
fn parse_http_request(buf: &[u8], header_slots: usize) -> (res: Result<ParsedRequest, httparse::Error>)
    ensures
        res is Ok <==> httparse_request(buf@, header_slots as nat) is Some,
        res matches Ok(r) ==> httparse_request(buf@, header_slots as nat) == Some(r@),
{
    let mut headers = vec![httparse::EMPTY_HEADER; header_slots];
    let mut req = httparse::Request::new(&mut headers);
    req.parse(buf)?;
    Ok(ParsedRequest {
        method: req.method.map(|m| m.to_string()),
        path: req.path.map(|p| p.to_string()),
        headers: req.headers.iter().map(|h| HeaderField { name: h.name.as_bytes().to_vec(), value: h.value.to_vec() }).collect(),
    })
}

/// `std::str::from_utf8`: the bytes as a string slice where they are valid UTF-8, which the
/// documentation promises, and an error otherwise.
#[verifier::external_body]
fn str_from_utf8(v: &[u8]) -> (res: Result<&str, std::str::Utf8Error>)
    ensures
        res is Ok <==> valid_utf8(v@),
        res matches Ok(s) ==> s.spec_bytes() == v@,
{
    std::str::from_utf8(v)
}

/// Two strings hold the same characters.
fn str_eq(a: &str, b: &str) -> (eq: bool)
    ensures
        eq == (a@ == b@),
{
    let x = a.as_bytes();
    let y = b.as_bytes();
    proof {
        encode_utf8_decode_utf8(a@);
        encode_utf8_decode_utf8(b@);
    }
    if x.len() != y.len() {
        return false;
    }
    let mut i: usize = 0;
    while i < x.len()
        invariant
            x@.len() == y@.len(),
            i <= x@.len(),
            x@ == a.spec_bytes(),
            y@ == b.spec_bytes(),
            forall|j: int| 0 <= j < i ==> x@[j] == y@[j],
        decreases x@.len() - i,
    {
        if x[i] != y[i] {
            return false;
        }
        i = i + 1;
    }
    assert(x@ =~= y@);
    true
}

/// The number of header slots offered to the parser.
pub const HEADER_SLOTS: usize = 64;

/// The path that marks an instructor's connection.
pub open spec fn instructor_path() -> Seq<char> {
    "/instructor"@
}

/// The method that is answered with the video.
pub open spec fn get_method() -> Seq<char> {
    "GET"@
}

/// `b` with an ASCII capital letter turned into its small letter.
pub open spec fn ascii_lower(b: u8) -> u8 {
    if 65 <= b <= 90 {
        (b + 32) as u8
    } else {
        b
    }
}

/// `range`, the name of the header that asks for part of the video.
pub open spec fn range_header_name() -> Seq<u8> {
    seq![114u8, 97u8, 110u8, 103u8, 101u8]
}

/// A header name that reads `range` once lowercased. Lowercasing maps no non-ASCII
/// character to `r`, `a`, `n`, `g` or `e`, so comparing ASCII letters without regard
/// to case decides it.
pub open spec fn is_range_header(name: Seq<u8>) -> bool {
    &&& name.len() == 5
    &&& forall|i: int| 0 <= i < 5 ==> ascii_lower(#[trigger] name[i]) == range_header_name()[i]
}

/// Header `i` is the first whose name is `range`.
pub open spec fn first_range_header(headers: Seq<(Seq<u8>, Seq<u8>)>, i: int) -> bool {
    &&& 0 <= i < headers.len()
    &&& is_range_header(headers[i].0)
    &&& forall|j: int| 0 <= j < i ==> !is_range_header(#[trigger] headers[j].0)
}

/// What the server decides for a connection before it sends the video.
#[derive(Clone, Copy, Debug)]
pub struct ConnectionPlan {
    /// The request came to the instructor's path, which earns a larger time quantum.
    pub instructor: bool,
    /// The method is `GET`, answered with `206 Partial Content`; any other with `404`.
    pub partial_content: bool,
    /// The range that a `range` header asked for, if the request had one.
    pub range: Option<(u64, u64)>,
}

/// The text of the error for a `range` header whose value is not UTF-8.
pub open spec fn range_encoding_message() -> Seq<char> {
    "Range header is not valid UTF-8"@
}

/// The text of the error for a request that cannot be parsed.
pub open spec fn request_parse_message() -> Seq<char> {
    "Failed to parse HTTP request"@
}

/// What the server decides for a parsed request with a video of `content_length` bytes:
/// instructor for the instructor's path, partial content for `GET`, and the range of the
/// first `range` header, read with defaults 0 and `content_length`; an error where that
/// header's value is not UTF-8 or not two parts joined by `-`.
pub open spec fn spec_plan(req: RequestView, content_length: u64) -> Result<ConnectionPlan, ServerErrorView> {
    let instructor = req.path == Some(instructor_path());
    let partial_content = req.method == Some(get_method());
    if exists|i: int| first_range_header(req.headers, i) {
        let i = choose|i: int| first_range_header(req.headers, i);
        let value = req.headers[i].1;
        if !valid_utf8(value) {
            Err(ServerErrorView::Critical(range_encoding_message()))
        } else {
            match spec_parse_byte_range(value, 0, content_length) {
                None => Err(ServerErrorView::CustomError(invalid_range_message())),
                Some(r) => Ok(ConnectionPlan { instructor, partial_content, range: Some(r) }),
            }
        }
    } else {
        Ok(ConnectionPlan { instructor, partial_content, range: None })
    }
}

/// A plan or an error, as mathematical values.
pub open spec fn plan_result_view(res: Result<ConnectionPlan, ServerError>) -> Result<ConnectionPlan, ServerErrorView> {
    match res {
        Ok(p) => Ok(p),
        Err(e) => Err(e@),
    }
}

/// The name is `range`, whatever the case of its letters.
fn header_is_range(name: &Vec<u8>) -> (r: bool)
    ensures
        r == is_range_header(name@),
{
    if name.len() != 5 {
        return false;
    }
    let mut i: usize = 0;
    while i < 5
        invariant
            name@.len() == 5,
            i <= 5,
            forall|j: int| 0 <= j < i ==> ascii_lower(#[trigger] name@[j]) == range_header_name()[j],
        decreases 5 - i,
    {
        let b = name[i];
        let lower = if 65 <= b && b <= 90 {
            b + 32
        } else {
            b
        };
        let want: u8 = if i == 0 {
            114
        } else if i == 1 {
            97
        } else if i == 2 {
            110
        } else if i == 3 {
            103
        } else {
            101
        };
        assert(want == range_header_name()[i as int]);
        if lower != want {
            assert(ascii_lower(name@[i as int]) != range_header_name()[i as int]);
            return false;
        }
        i = i + 1;
    }
    true
}

/// Decides a connection from its parsed request and the length of the video.
pub fn plan_parsed_request(req: &ParsedRequest, content_length: u64) -> (res: Result<ConnectionPlan, ServerError>)
    ensures
        plan_result_view(res) == spec_plan(req@, content_length),
{
    let ghost rv = req@;
    let instructor = match &req.path {
        Some(p) => str_eq(p.as_str(), "/instructor"),
        None => false,
    };
    let partial_content = match &req.method {
        Some(m) => str_eq(m.as_str(), "GET"),
        None => false,
    };
    let n = req.headers.len();
    let mut i: usize = 0;
    while i < n
        invariant
            n == req.headers@.len(),
            rv == req@,
            i <= n,
            instructor == (rv.path == Some(instructor_path())),
            partial_content == (rv.method == Some(get_method())),
            forall|j: int| 0 <= j < i ==> !is_range_header(#[trigger] rv.headers[j].0),
        decreases n - i,
    {
        assert(rv.headers[i as int] == (req.headers@[i as int].name@, req.headers@[i as int].value@));
        if header_is_range(&req.headers[i].name) {
            assert(first_range_header(rv.headers, i as int));
            let ghost c = choose|c: int| first_range_header(rv.headers, c);
            assert(c == i) by {
                if c < i {
                    assert(!is_range_header(rv.headers[c].0));
                } else if c > i {
                    assert(!is_range_header(rv.headers[i as int].0));
                }
            }
            let value = &req.headers[i].value;
            assert(value@ == rv.headers[i as int].1);
            return match str_from_utf8(value.as_slice()) {
                Err(_) => Err(ServerError::Critical(String::from_str("Range header is not valid UTF-8"))),
                Ok(text) => match parse_byte_range_request(text, 0, content_length) {
                    Err(e) => Err(e),
                    Ok(r) => Ok(ConnectionPlan { instructor, partial_content, range: Some(r) }),
                },
            };
        }
        i = i + 1;
    }
    assert forall|c: int| !first_range_header(rv.headers, c) by {
        if 0 <= c < rv.headers.len() {
            assert(!is_range_header(rv.headers[c].0));
        }
    }
    Ok(ConnectionPlan { instructor, partial_content, range: None })
}

/// Decides a connection from the bytes read from the client and the length of the video:
/// the request is parsed with httparse, with `HEADER_SLOTS` header slots; a request it
/// refuses gives `Critical("Failed to parse HTTP request")`.
pub fn plan_connection(buf: &[u8], content_length: u64) -> (res: Result<ConnectionPlan, ServerError>)
    ensures
        match httparse_request(buf@, HEADER_SLOTS as nat) {
            None => res matches Err(e) && e@ == ServerErrorView::Critical(request_parse_message()),
            Some(rv) => plan_result_view(res) == spec_plan(rv, content_length),
        },
{
    match parse_http_request(buf, HEADER_SLOTS) {
        Err(_) => Err(ServerError::Critical(String::from_str("Failed to parse HTTP request"))),
        Ok(req) => plan_parsed_request(&req, content_length),
    }
}

/// A request without a `range` header is always answered: its plan has no range, and
/// marks the instructor's path and the `GET` method.
pub proof fn lemma_request_without_range_is_answered(req: RequestView, content_length: u64)
    requires
        forall|i: int| 0 <= i < req.headers.len() ==> !is_range_header(#[trigger] req.headers[i].0),
    ensures
        spec_plan(req, content_length) == Ok::<ConnectionPlan, ServerErrorView>(
            ConnectionPlan {
                instructor: req.path == Some(instructor_path()),
                partial_content: req.method == Some(get_method()),
                range: None,
            },
        ),
{
    assert forall|c: int| !first_range_header(req.headers, c) by {
        if 0 <= c < req.headers.len() {
            assert(!is_range_header(req.headers[c].0));
        }
    }
}

/// Bytes below 0x80 form valid UTF-8.
proof fn lemma_ascii_is_utf8(bytes: Seq<u8>)
    requires
        forall|i: int| 0 <= i < bytes.len() ==> bytes[i] < 128,
    ensures
        valid_utf8(bytes),
{
    assert(bytes.subrange(0, 0) =~= Seq::<u8>::empty());
    assert(partial_valid_utf8(bytes, 0));
    assert forall|i: int| 0 <= 0 <= i < bytes.len() <= bytes.len() implies #[trigger] is_leading_byte_width_1(bytes[i]) by {}
    partial_valid_utf8_extend_ascii_block(bytes, 0, bytes.len() as int);
    assert(bytes.subrange(0, bytes.len() as int) =~= bytes);
}

/// There is at most one first `range` header.
proof fn lemma_first_range_header_unique(headers: Seq<(Seq<u8>, Seq<u8>)>, i: int, j: int)
    requires
        first_range_header(headers, i),
        first_range_header(headers, j),
    ensures
        i == j,
{
    if i < j {
        assert(!is_range_header(headers[i].0));
    } else if j < i {
        assert(!is_range_header(headers[j].0));
    }
}

/// Whether a client is an instructor depends on its path alone, and whether it gets the video
/// on its method alone: a request to `/instructor` and no other is an instructor's, and a `GET`
/// and no other method is answered with partial content, whatever headers the request carries.
pub proof fn lemma_plan_flags_follow_path_and_method(req: RequestView, content_length: u64)
    ensures
        spec_plan(req, content_length) matches Ok(p) ==> {
            &&& p.instructor == (req.path == Some("/instructor"@))
            &&& p.partial_content == (req.method == Some("GET"@))
        },
{
}

/// The plan of a request whose first `range` header has a UTF-8 value takes its range from
/// that value, read with start default 0 and end default `content_length`: the plan is given
/// exactly when the value is a well-formed range, and then has that range.
pub proof fn lemma_plan_reads_first_range_header(req: RequestView, i: int, content_length: u64)
    requires
        first_range_header(req.headers, i),
        valid_utf8(req.headers[i].1),
    ensures
        spec_plan(req, content_length) is Ok <==> spec_parse_byte_range(req.headers[i].1, 0, content_length) is Some,
        spec_parse_byte_range(req.headers[i].1, 0, content_length) matches Some(r) ==> (spec_plan(req, content_length) matches Ok(p) && p.range == Some(r)),
{
    let c = choose|c: int| first_range_header(req.headers, c);
    lemma_first_range_header_unique(req.headers, i, c);
}

/// A header whose name is not five bytes long is never taken for the `range` header: adding
/// one anywhere to a request leaves its plan as it was.
pub proof fn lemma_other_header_names_are_ignored(
    req: RequestView,
    at: int,
    name: Seq<u8>,
    value: Seq<u8>,
    content_length: u64,
)
    requires
        0 <= at <= req.headers.len(),
        name.len() != 5,
    ensures
        spec_plan(
            RequestView { method: req.method, path: req.path, headers: req.headers.insert(at, (name, value)) },
            content_length,
        ) == spec_plan(req, content_length),
{
    let hs = req.headers;
    let hs2 = hs.insert(at, (name, value));
    let req2 = RequestView { method: req.method, path: req.path, headers: hs2 };
    assert(!is_range_header(name));
    assert forall|c: int| first_range_header(hs, c) implies first_range_header(hs2, if c < at { c } else { c + 1 }) by {
        let c2 = if c < at { c } else { c + 1 };
        assert(hs2[c2] == hs[c]);
        assert forall|j: int| 0 <= j < c2 implies !is_range_header(#[trigger] hs2[j].0) by {
            if j < at {
                assert(hs2[j] == hs[j]);
            } else if j > at {
                assert(hs2[j] == hs[j - 1]);
            }
        }
    }
    assert forall|c2: int| first_range_header(hs2, c2) implies c2 != at && first_range_header(hs, if c2 < at { c2 } else { c2 - 1 }) by {
        let c = if c2 < at { c2 } else { c2 - 1 };
        assert(c2 != at);
        assert(hs2[c2] == hs[c]);
        assert forall|j: int| 0 <= j < c implies !is_range_header(#[trigger] hs[j].0) by {
            if j < at {
                assert(hs2[j] == hs[j]);
                assert(!is_range_header(hs2[j].0));
            } else {
                assert(hs2[j + 1] == hs[j]);
                assert(!is_range_header(hs2[j + 1].0));
            }
        }
    }
    if exists|c: int| first_range_header(hs, c) {
        let c = choose|c: int| first_range_header(hs, c);
        let c2 = if c < at { c } else { c + 1 };
        assert(first_range_header(hs2, c2));
        let d2 = choose|d: int| first_range_header(hs2, d);
        lemma_first_range_header_unique(hs2, c2, d2);
        assert(hs2[c2] == hs[c]);
    } else {
        assert forall|c2: int| !first_range_header(hs2, c2) by {
            if first_range_header(hs2, c2) {
                assert(first_range_header(hs, if c2 < at { c2 } else { c2 - 1 }));
            }
        }
    }
}

/// A `Range` header of the shape `bytes=a-` asks for the video from `a` to its length, and one
/// of the shape `bytes=-b` for the video from 0 to `b`.
pub proof fn lemma_open_range_headers(
    method: Option<Seq<char>>,
    path: Option<Seq<char>>,
    a: u64,
    b: u64,
    content_length: u64,
)
    ensures
        spec_plan(
            RequestView {
                method,
                path,
                headers: seq![(seq![82u8, 97u8, 110u8, 103u8, 101u8],
                    seq![98u8, 121u8, 116u8, 101u8, 115u8, 61u8] + decimal_digits(a as nat) + seq![45u8])],
            },
            content_length,
        ) matches Ok(p) && p.range == Some((a, content_length)),
        spec_plan(
            RequestView {
                method,
                path,
                headers: seq![(seq![82u8, 97u8, 110u8, 103u8, 101u8],
                    seq![98u8, 121u8, 116u8, 101u8, 115u8, 61u8, 45u8] + decimal_digits(b as nat))],
            },
            content_length,
        ) matches Ok(p) && p.range == Some((0u64, b)),
{
    let name = seq![82u8, 97u8, 110u8, 103u8, 101u8];
    assert(is_range_header(name)) by {
        assert forall|i: int| 0 <= i < 5 implies ascii_lower(#[trigger] name[i]) == range_header_name()[i] by {}
    }
    let va = seq![98u8, 121u8, 116u8, 101u8, 115u8, 61u8] + decimal_digits(a as nat) + seq![45u8];
    let vb = seq![98u8, 121u8, 116u8, 101u8, 115u8, 61u8, 45u8] + decimal_digits(b as nat);
    lemma_decimal_digits(a as nat);
    lemma_decimal_digits(b as nat);
    let da = decimal_digits(a as nat);
    let db = decimal_digits(b as nat);
    assert forall|i: int| 0 <= i < va.len() implies va[i] < 128 by {
        if 6 <= i < 6 + da.len() {
            assert(va[i] == da[i - 6]);
            assert(is_ascii_digit(da[i - 6]));
        }
    }
    assert forall|i: int| 0 <= i < vb.len() implies vb[i] < 128 by {
        if 7 <= i {
            assert(vb[i] == db[i - 7]);
            assert(is_ascii_digit(db[i - 7]));
        }
    }
    lemma_ascii_is_utf8(va);
    lemma_ascii_is_utf8(vb);
    lemma_open_end_takes_end_default(a, 0, content_length);
    lemma_open_start_takes_start_default(b, 0, content_length);
    let ha = seq![(name, va)];
    let hb = seq![(name, vb)];
    assert(first_range_header(ha, 0));
    assert(first_range_header(hb, 0));
    let ra = RequestView { method, path, headers: ha };
    let rb = RequestView { method, path, headers: hb };
    lemma_plan_reads_first_range_header(ra, 0, content_length);
    lemma_plan_reads_first_range_header(rb, 0, content_length);
}

/// The status line of the answer.
pub open spec fn status_line(partial_content: bool) -> Seq<char> {
    if partial_content {
        "HTTP/1.1 206 Partial Content"@
    } else {
        "HTTP/1.1 404 NOT FOUND"@
    }
}

/// The header of the answer that carries a video of `content_length` bytes, which it
/// announces whole: the range from 0 to `content_length - 1`.
pub open spec fn spec_response_header(partial_content: bool, content_length: u64) -> Seq<char> {
    status_line(partial_content) + "\r\nAccept-Ranges: bytes \r\nContent-Range: bytes "@
        + decimal_chars(0) + "-"@ + decimal_chars((content_length - 1) as nat) + "/"@
        + decimal_chars(content_length as nat)
        + " \r\nContent-Type: application/octet-stream \r\nContent-Length: "@
        + decimal_chars(content_length as nat) + " \r\nAccess-Control-Allow-Origin: * \r\n\r\n"@
}

/// Writes the header of the answer.
pub fn response_header(partial_content: bool, content_length: u64) -> (text: String)
    requires
        content_length > 0,
    ensures
        text@ == spec_response_header(partial_content, content_length),
{
    let mut text = if partial_content {
        String::from_str("HTTP/1.1 206 Partial Content")
    } else {
        String::from_str("HTTP/1.1 404 NOT FOUND")
    };
    text.append("\r\nAccept-Ranges: bytes \r\nContent-Range: bytes ");
    append_decimal(&mut text, 0);
    text.append("-");
    append_decimal(&mut text, content_length - 1);
    text.append("/");
    append_decimal(&mut text, content_length);
    text.append(" \r\nContent-Type: application/octet-stream \r\nContent-Length: ");
    append_decimal(&mut text, content_length);
    text.append(" \r\nAccess-Control-Allow-Origin: * \r\n\r\n");
    text
}

/// The answers to a `GET` and to any other method differ in their status line alone: the
/// fields that follow it are the same.
pub proof fn lemma_response_differs_in_status_only(content_length: u64)
    requires
        content_length > 0,
    ensures
        exists|rest: Seq<char>|
            spec_response_header(true, content_length) == "HTTP/1.1 206 Partial Content"@ + rest
            && spec_response_header(false, content_length) == "HTTP/1.1 404 NOT FOUND"@ + rest,
{
    let n = content_length;
    let rest = "\r\nAccept-Ranges: bytes \r\nContent-Range: bytes "@ + decimal_chars(0) + "-"@
        + decimal_chars((n - 1) as nat) + "/"@ + decimal_chars(n as nat)
        + " \r\nContent-Type: application/octet-stream \r\nContent-Length: "@
        + decimal_chars(n as nat) + " \r\nAccess-Control-Allow-Origin: * \r\n\r\n"@;
    assert(spec_response_header(true, n) =~= "HTTP/1.1 206 Partial Content"@ + rest);
    assert(spec_response_header(false, n) =~= "HTTP/1.1 404 NOT FOUND"@ + rest);
}

/// `field` occurs in `text`.
pub open spec fn text_contains(text: Seq<char>, field: Seq<char>) -> bool {
    exists|p: Seq<char>, q: Seq<char>| #[trigger] (p + field + q) == text
}

/// Whatever the status, the answer announces the whole video: a `Content-Range` field from
/// byte 0 to `content_length - 1` of `content_length`, and a `Content-Length` field of
/// `content_length`, each ending its line.
pub proof fn lemma_response_announces_whole_video(partial_content: bool, content_length: u64)
    requires
        content_length > 0,
    ensures
        text_contains(
            spec_response_header(partial_content, content_length),
            "Content-Range: bytes 0-"@ + decimal_chars((content_length - 1) as nat) + "/"@
                + decimal_chars(content_length as nat) + " \r\n"@,
        ),
        text_contains(
            spec_response_header(partial_content, content_length),
            "Content-Length: "@ + decimal_chars(content_length as nat) + " \r\n"@,
        ),
{
    let n = content_length;
    reveal_strlit("\r\nAccept-Ranges: bytes \r\nContent-Range: bytes ");
    reveal_strlit("\r\nAccept-Ranges: bytes \r\n");
    reveal_strlit("Content-Range: bytes ");
    reveal_strlit("Content-Range: bytes 0-");
    reveal_strlit("-");
    reveal_strlit(" \r\nContent-Type: application/octet-stream \r\nContent-Length: ");
    reveal_strlit(" \r\n");
    reveal_strlit("Content-Type: application/octet-stream \r\n");
    reveal_strlit("Content-Length: ");
    reveal_strlit(" \r\nAccess-Control-Allow-Origin: * \r\n\r\n");
    reveal_strlit("Access-Control-Allow-Origin: * \r\n\r\n");
    assert(decimal_digits(0) =~= seq![48u8]);
    assert(decimal_chars(0) =~= seq!['0']);
    assert("\r\nAccept-Ranges: bytes \r\nContent-Range: bytes "@ =~= "\r\nAccept-Ranges: bytes \r\n"@
        + "Content-Range: bytes "@);
    assert("Content-Range: bytes "@ + decimal_chars(0) + "-"@ =~= "Content-Range: bytes 0-"@);
    assert(" \r\nContent-Type: application/octet-stream \r\nContent-Length: "@ =~= " \r\n"@
        + "Content-Type: application/octet-stream \r\n"@ + "Content-Length: "@);
    assert(" \r\nAccess-Control-Allow-Origin: * \r\n\r\n"@ =~= " \r\n"@
        + "Access-Control-Allow-Origin: * \r\n\r\n"@);
    let h = spec_response_header(partial_content, n);
    let p1 = status_line(partial_content) + "\r\nAccept-Ranges: bytes \r\n"@;
    let q1 = "Content-Type: application/octet-stream \r\n"@ + "Content-Length: "@ + decimal_chars(n as nat)
        + " \r\nAccess-Control-Allow-Origin: * \r\n\r\n"@;
    let f1 = "Content-Range: bytes 0-"@ + decimal_chars((n - 1) as nat) + "/"@ + decimal_chars(n as nat)
        + " \r\n"@;
    assert(h =~= p1 + f1 + q1);
    let p2 = p1 + "Content-Range: bytes 0-"@ + decimal_chars((n - 1) as nat) + "/"@
        + decimal_chars(n as nat) + " \r\n"@ + "Content-Type: application/octet-stream \r\n"@;
    let q2 = "Access-Control-Allow-Origin: * \r\n\r\n"@;
    let f2 = "Content-Length: "@ + decimal_chars(n as nat) + " \r\n"@;
    assert(h =~= p2 + f2 + q2);
}

} // verus!
