//! The request parser: one pass over the bytes a connection delivered,
//! yielding a request or a classified error. Lines are LF-terminated (a
//! trailing CR counts as whitespace); the request line gives method and
//! target; header lines run to the first blank line; `Content-Length` then
//! says how many body bytes must remain, exactly.

use vstd::prelude::*;
use crate::HttpMethod;
use crate::pairs::{Pairs, Entries, raw_view, entries_get, entries_insert_all, bytes_eq};
use crate::kv::{spec_kv_from, parse_kv_pairs};
use crate::scan::{
    scan_byte, scan_ws, scan_non_ws, find_byte, find_ws, find_non_ws, copy_range, trim, trim_seq,
};
use crate::http_request::{HttpRequest, RequestView};
use crate::lit::{
    spec_tok_get, spec_tok_post, spec_tok_put, spec_tok_delete, spec_tok_patch, spec_tok_head,
    spec_tok_options, spec_tok_trace, spec_tok_connect, spec_hdr_content_length, tok_get,
    tok_post, tok_put, tok_delete, tok_patch, tok_head, tok_options, tok_trace, tok_connect,
    hdr_content_length,
};

verus! {

/// Why parsing failed. Every variant ends the connection; none is answered
/// with a response.
#[derive(Clone, Copy, Debug, PartialEq, Eq, Structural)]
pub enum ParseError {
    /// An I/O fault on the stream, as opposed to a clean close. The byte
    /// parser itself never raises it; the caller reading the socket does.
    StreamError,
    /// The request is structurally invalid: missing tokens, a query pair or
    /// header line without its separator, or the stream ended inside the
    /// header block.
    MalformedRequest,
    /// The method token is not one of the nine methods.
    InvalidMethod,
    /// Fewer body bytes than `Content-Length` declared.
    ContentTooSmall,
    /// More body bytes than `Content-Length` declared.
    ContentTooLarge,
    /// Any other failure; kept for callers, never produced here.
    GenericError,
}

/// Position of the LF ending the line that starts at `i`, or `s.len()`.
pub open spec fn line_end(s: Seq<u8>, i: int) -> int {
    scan_byte(s, i, 10)
}

/// Position right after the line that starts at `i`: past its LF, or the end.
pub open spec fn next_pos(s: Seq<u8>, i: int) -> int {
    if line_end(s, i) < s.len() {
        line_end(s, i) + 1
    } else {
        s.len() as int
    }
}

/// The line that starts at `i`, without its LF.
pub open spec fn line_at(s: Seq<u8>, i: int) -> Seq<u8> {
    s.subrange(i, line_end(s, i))
}

/// The method a token names, or `None` for any other token.
pub open spec fn spec_method_of(t: Seq<u8>) -> Option<HttpMethod> {
    if t == spec_tok_get() {
        Some(HttpMethod::Get)
    } else if t == spec_tok_post() {
        Some(HttpMethod::Post)
    } else if t == spec_tok_put() {
        Some(HttpMethod::Put)
    } else if t == spec_tok_delete() {
        Some(HttpMethod::Delete)
    } else if t == spec_tok_patch() {
        Some(HttpMethod::Patch)
    } else if t == spec_tok_head() {
        Some(HttpMethod::Head)
    } else if t == spec_tok_options() {
        Some(HttpMethod::Options)
    } else if t == spec_tok_trace() {
        Some(HttpMethod::Trace)
    } else if t == spec_tok_connect() {
        Some(HttpMethod::Connect)
    } else {
        None
    }
}

/// What the request line yields: its first whitespace-delimited token read as
/// a method, and its second token as the target; a missing token is
/// `MalformedRequest`, an unrecognized method `InvalidMethod`.
pub open spec fn spec_request_line(line: Seq<u8>) -> Result<(HttpMethod, Seq<u8>), ParseError> {
    let ms = scan_non_ws(line, 0);
    if ms == line.len() {
        Err(ParseError::MalformedRequest)
    } else {
        let me = scan_ws(line, ms);
        match spec_method_of(line.subrange(ms, me)) {
            None => Err(ParseError::InvalidMethod),
            Some(m) => {
                let ts = scan_non_ws(line, me);
                if ts == line.len() {
                    Err(ParseError::MalformedRequest)
                } else {
                    Ok((m, line.subrange(ts, scan_ws(line, ts))))
                }
            },
        }
    }
}

/// The target up to its first `?`: the path.
pub open spec fn spec_path_of(target: Seq<u8>) -> Seq<u8> {
    target.subrange(0, scan_byte(target, 0, 63))
}

/// The query pairs after the target's first `?`, in order; an empty sequence
/// when the target has no `?`; `None` when a pair has no `=`.
pub open spec fn spec_query_pairs(target: Seq<u8>) -> Option<Seq<(Seq<u8>, Seq<u8>)>> {
    let q = scan_byte(target, 0, 63);
    if q == target.len() {
        Some(Seq::empty())
    } else {
        spec_kv_from(target, q + 1)
    }
}

/// The header pairs from position `i` to the first line that is blank after
/// trimming, with the position right after that blank line. `None` when the
/// bytes end before the blank line or a header line has no `:`. A header's
/// key is everything before the line's first `:`, untouched; its value is
/// everything after, trimmed of surrounding whitespace.
pub open spec fn spec_headers_from(s: Seq<u8>, i: int) -> Option<(Seq<(Seq<u8>, Seq<u8>)>, int)>
    decreases s.len() - i,
{
    if !(0 <= i < s.len()) {
        None
    } else {
        let line = line_at(s, i);
        let ni = next_pos(s, i);
        if !(i < ni <= s.len()) {
            None
        } else if scan_non_ws(line, 0) == line.len() {
            Some((Seq::empty(), ni))
        } else {
            let c = scan_byte(line, 0, 58);
            if c == line.len() {
                None
            } else {
                let pair = (line.subrange(0, c), trim_seq(
                    line.subrange(c + 1, line.len() as int),
                ));
                match spec_headers_from(s, ni) {
                    None => None,
                    Some((rest, end)) => Some((seq![pair] + rest, end)),
                }
            }
        }
    }
}

/// The value of a decimal digit string, most significant first.
pub open spec fn spec_digits_val(v: Seq<u8>) -> int
    decreases v.len(),
{
    if v.len() == 0 {
        0
    } else {
        spec_digits_val(v.drop_last()) * 10 + (v.last() - 48)
    }
}

/// Nonempty and nothing but decimal digits.
pub open spec fn spec_all_digits(v: Seq<u8>) -> bool {
    v.len() > 0 && forall|i: int| 0 <= i < v.len() ==> (48 <= #[trigger] v[i] && v[i] <= 57)
}

/// The number a byte string parses to as a `usize`: an optional leading `+`,
/// then digits only, and a value that fits; `None` otherwise.
pub open spec fn spec_usize_of(v: Seq<u8>) -> Option<int> {
    let d = if v.len() > 0 && v[0] == 43 {
        v.drop_first()
    } else {
        v
    };
    if spec_all_digits(d) && spec_digits_val(d) <= usize::MAX as int {
        Some(spec_digits_val(d))
    } else {
        None
    }
}

/// The declared body length: the `Content-Length` header's value as a number,
/// with an absent or unparseable header counting as 0.
pub open spec fn spec_content_length(headers: Entries) -> int {
    match entries_get(headers, spec_hdr_content_length()) {
        None => 0,
        Some(v) => match spec_usize_of(v) {
            None => 0,
            Some(n) => n,
        },
    }
}

/// What one connection's bytes parse to: the request with its method, path,
/// query map, header map and body, or the error that ends the connection.
/// The body is `None` when the declared length is 0; otherwise exactly the
/// declared count of bytes must remain after the header block, fewer being
/// `ContentTooSmall` and more `ContentTooLarge`.
pub open spec fn spec_parse(s: Seq<u8>) -> Result<RequestView, ParseError> {
    match spec_request_line(line_at(s, 0)) {
        Err(e) => Err(e),
        Ok((m, target)) => match spec_query_pairs(target) {
            None => Err(ParseError::MalformedRequest),
            Some(qps) => match spec_headers_from(s, next_pos(s, 0)) {
                None => Err(ParseError::MalformedRequest),
                Some((hps, hend)) => {
                    let headers = entries_insert_all(Seq::empty(), hps);
                    let query = entries_insert_all(Seq::empty(), qps);
                    let cl = spec_content_length(headers);
                    if cl == 0 {
                        Ok(
                            RequestView {
                                method: m,
                                path: spec_path_of(target),
                                query,
                                headers,
                                body: None,
                            },
                        )
                    } else if s.len() - hend < cl {
                        Err(ParseError::ContentTooSmall)
                    } else if s.len() - hend > cl {
                        Err(ParseError::ContentTooLarge)
                    } else {
                        Ok(
                            RequestView {
                                method: m,
                                path: spec_path_of(target),
                                query,
                                headers,
                                body: Some(s.subrange(hend, hend + cl)),
                            },
                        )
                    }
                },
            },
        },
    }
}

/// The method `t` names, as `spec_method_of` gives it.
pub fn method_of_token(t: &Vec<u8>) -> (r: Option<HttpMethod>)
    ensures
        r == spec_method_of(t@),
{
    if bytes_eq(t, &tok_get()) {
        Some(HttpMethod::Get)
    } else if bytes_eq(t, &tok_post()) {
        Some(HttpMethod::Post)
    } else if bytes_eq(t, &tok_put()) {
        Some(HttpMethod::Put)
    } else if bytes_eq(t, &tok_delete()) {
        Some(HttpMethod::Delete)
    } else if bytes_eq(t, &tok_patch()) {
        Some(HttpMethod::Patch)
    } else if bytes_eq(t, &tok_head()) {
        Some(HttpMethod::Head)
    } else if bytes_eq(t, &tok_options()) {
        Some(HttpMethod::Options)
    } else if bytes_eq(t, &tok_trace()) {
        Some(HttpMethod::Trace)
    } else if bytes_eq(t, &tok_connect()) {
        Some(HttpMethod::Connect)
    } else {
        None
    }
}

/// Digit strings value prefixes no higher than the whole.
proof fn lemma_digits_val_grows(v: Seq<u8>, j: int)
    requires
        0 <= j <= v.len(),
        forall|i: int| 0 <= i < v.len() ==> (48 <= #[trigger] v[i] && v[i] <= 57),
    ensures
        spec_digits_val(v) >= spec_digits_val(v.subrange(0, j)),
        spec_digits_val(v.subrange(0, j)) >= 0,
    decreases v.len() - j,
{
    if j == v.len() {
        assert(v.subrange(0, j) =~= v);
        lemma_digits_val_nonneg(v.subrange(0, j));
    } else {
        lemma_digits_val_grows(v, j + 1);
        lemma_digits_val_nonneg(v.subrange(0, j));
        assert(v.subrange(0, j + 1).drop_last() =~= v.subrange(0, j));
        assert(spec_digits_val(v.subrange(0, j + 1)) == spec_digits_val(v.subrange(0, j)) * 10 + (
        v[j] - 48));
    }
}

/// A digit string's value is never negative.
proof fn lemma_digits_val_nonneg(v: Seq<u8>)
    requires
        forall|i: int| 0 <= i < v.len() ==> (48 <= #[trigger] v[i] && v[i] <= 57),
    ensures
        spec_digits_val(v) >= 0,
    decreases v.len(),
{
    if v.len() > 0 {
        lemma_digits_val_nonneg(v.drop_last());
    }
}

/// The number `v` parses to as a `usize`, as `spec_usize_of` gives it.
pub fn parse_usize(v: &Vec<u8>) -> (r: Option<usize>)
    ensures
        match r {
            Some(n) => spec_usize_of(v@) == Some(n as int),
            None => spec_usize_of(v@) is None,
        },
{
    let start: usize = if v.len() > 0 && v[0] == 43 {
        1
    } else {
        0
    };
    let ghost d = if v@.len() > 0 && v@[0] == 43 {
        v@.drop_first()
    } else {
        v@
    };
    proof {
        assert(d =~= v@.subrange(start as int, v@.len() as int));
    }
    if start == v.len() {
        assert(!spec_all_digits(d));
        return None;
    }
    let mut n: usize = 0;
    let mut i = start;
    while i < v.len()
        invariant
            start <= i <= v@.len(),
            start < v@.len(),
            start as int == (if v@.len() > 0 && v@[0] == 43 { 1int } else { 0int }),
            d == (if v@.len() > 0 && v@[0] == 43 { v@.drop_first() } else { v@ }),
            d == v@.subrange(start as int, v@.len() as int),
            forall|j: int| start <= j < i ==> (48 <= #[trigger] v@[j] && v@[j] <= 57),
            n as int == spec_digits_val(v@.subrange(start as int, i as int)),
        decreases v@.len() - i,
    {
        let b = v[i];
        if b < 48 || b > 57 {
            assert(d[i - start] == v@[i as int]);
            assert(!spec_all_digits(d));
            return None;
        }
        let dd = (b - 48) as usize;
        if n > (usize::MAX - dd) / 10 {
            proof {
                assert(forall|j: int| 0 <= j < (i + 1 - start as int) ==> (48 <= #[trigger] d[j] && d[j] <= 57));
                if spec_all_digits(d) {
                    lemma_digits_val_grows(d, i + 1 - start as int);
                    assert(d.subrange(0, i + 1 - start as int) =~= v@.subrange(
                        start as int,
                        i + 1,
                    ));
                    assert(v@.subrange(start as int, i + 1).drop_last() =~= v@.subrange(
                        start as int,
                        i as int,
                    ));
                    assert(spec_digits_val(v@.subrange(start as int, i + 1)) == n * 10 + dd);
                    assert(n * 10 + dd > usize::MAX as int) by (nonlinear_arith)
                        requires
                            n > (usize::MAX - dd) / 10,
                            0 <= dd < 10,
                    ;
                    assert(spec_digits_val(d) > usize::MAX as int);
                }
            }
            return None;
        }
        proof {
            assert(n * 10 + dd <= usize::MAX as int) by (nonlinear_arith)
                requires
                    n <= (usize::MAX - dd) / 10,
                    0 <= dd < 10,
            ;
            assert(v@.subrange(start as int, i + 1).drop_last() =~= v@.subrange(
                start as int,
                i as int,
            ));
        }
        n = n * 10 + dd;
        i = i + 1;
    }
    proof {
        assert(v@.subrange(start as int, i as int) =~= d);
        assert(spec_all_digits(d)) by {
            assert(d.len() > 0);
            assert(forall|j: int| 0 <= j < d.len() ==> (48 <= #[trigger] d[j] && d[j] <= 57));
        }
    }
    Some(n)
}

/// The header block of `v` starting at `from`, as `spec_headers_from` gives
/// it: the raw header pairs in order and the position right after the blank
/// line, or `MalformedRequest` where the spec has no answer.
fn parse_headers(v: &Vec<u8>, from: usize) -> (r: Result<(Vec<(Vec<u8>, Vec<u8>)>, usize),
    ParseError>)
    requires
        from <= v@.len(),
    ensures
        match r {
            Ok((ps, end)) => spec_headers_from(v@, from as int) == Some(
                (raw_view(ps@), end as int),
            ) && from <= end <= v@.len(),
            Err(e) => spec_headers_from(v@, from as int) is None
                && e == ParseError::MalformedRequest,
        },
{
    let mut out: Vec<(Vec<u8>, Vec<u8>)> = Vec::new();
    let mut i = from;
    loop
        invariant
            from <= i <= v@.len(),
            spec_headers_from(v@, from as int) == (match spec_headers_from(v@, i as int) {
                None => None::<(Seq<(Seq<u8>, Seq<u8>)>, int)>,
                Some((rest, end)) => Some((raw_view(out@) + rest, end)),
            }),
        decreases v@.len() - i,
    {
        if i == v.len() {
            assert(spec_headers_from(v@, i as int) is None);
            return Err(ParseError::MalformedRequest);
        }
        let le = find_byte(v, i, 10);
        let ni = if le < v.len() {
            le + 1
        } else {
            v.len()
        };
        let line = copy_range(v, i, le);
        proof {
            assert(line@ == line_at(v@, i as int));
            assert(ni as int == next_pos(v@, i as int));
        }
        if find_non_ws(&line, 0) == line.len() {
            proof {
                assert(spec_headers_from(v@, i as int) == Some(
                    (Seq::<(Seq<u8>, Seq<u8>)>::empty(), ni as int),
                ));
                assert(raw_view(out@) + Seq::<(Seq<u8>, Seq<u8>)>::empty() =~= raw_view(out@));
            }
            return Ok((out, ni));
        }
        let c = find_byte(&line, 0, 58);
        if c == line.len() {
            assert(spec_headers_from(v@, i as int) is None);
            return Err(ParseError::MalformedRequest);
        }
        let key = copy_range(&line, 0, c);
        let raw_val = copy_range(&line, c + 1, line.len());
        let value = trim(&raw_val);
        let ghost out0 = raw_view(out@);
        let ghost pair = (key@, value@);
        out.push((key, value));
        proof {
            assert(raw_view(out@) =~= out0 + seq![pair]);
            assert(spec_headers_from(v@, i as int) == (match spec_headers_from(v@, ni as int) {
                None => None::<(Seq<(Seq<u8>, Seq<u8>)>, int)>,
                Some((rest, end)) => Some((seq![pair] + rest, end)),
            }));
            assert(forall|rest: Seq<(Seq<u8>, Seq<u8>)>|
                (out0 + seq![pair]) + rest =~= out0 + (seq![pair] + rest));
        }
        i = ni;
    }
}

/// A parser over the bytes one connection delivered, up to its close.
pub struct RequestParser {
    input: Vec<u8>,
}

impl View for RequestParser {
    type V = Seq<u8>;

    closed spec fn view(&self) -> Seq<u8> {
        self.input@
    }
}

impl RequestParser {
    /// A parser over the given connection bytes.
    pub fn new(input: Vec<u8>) -> (r: RequestParser)
        ensures
            r@ == input@,
    {
        RequestParser { input }
    }

    /// The one request these bytes hold, or the error that ends the
    /// connection, exactly as `spec_parse` classifies them.
    pub fn parse(&self) -> (r: Result<HttpRequest, ParseError>)
        ensures
            match r {
                Ok(req) => spec_parse(self@) == Ok::<RequestView, ParseError>(req@) && req.wf(),
                Err(e) => spec_parse(self@) == Err::<RequestView, ParseError>(e),
            },
    {
        let v = &self.input;
        let le0 = find_byte(v, 0, 10);
        let after_line = if le0 < v.len() {
            le0 + 1
        } else {
            v.len()
        };
        let line0 = copy_range(v, 0, le0);
        proof {
            assert(line0@ == line_at(v@, 0));
            assert(after_line as int == next_pos(v@, 0));
        }
        let ms = find_non_ws(&line0, 0);
        if ms == line0.len() {
            assert(spec_request_line(line_at(v@, 0)) == Err::<(HttpMethod, Seq<u8>), ParseError>(ParseError::MalformedRequest));
            return Err(ParseError::MalformedRequest);
        }
        let me = find_ws(&line0, ms);
        let mtok = copy_range(&line0, ms, me);
        let method = match method_of_token(&mtok) {
            None => {
                assert(spec_request_line(line_at(v@, 0)) == Err::<(HttpMethod, Seq<u8>), ParseError>(ParseError::InvalidMethod));
                return Err(ParseError::InvalidMethod);
            },
            Some(m) => m,
        };
        let ts = find_non_ws(&line0, me);
        if ts == line0.len() {
            assert(spec_request_line(line_at(v@, 0)) == Err::<(HttpMethod, Seq<u8>), ParseError>(ParseError::MalformedRequest));
            return Err(ParseError::MalformedRequest);
        }
        let te = find_ws(&line0, ts);
        let target = copy_range(&line0, ts, te);
        proof {
            assert(spec_request_line(line_at(v@, 0)) == Ok::<(HttpMethod, Seq<u8>), ParseError>((method, target@)));
        }
        let qp = find_byte(&target, 0, 63);
        let path = copy_range(&target, 0, qp);
        let ghost qps: Seq<(Seq<u8>, Seq<u8>)>;
        let query: Pairs;
        if qp == target.len() {
            query = Pairs::new();
            proof {
                qps = Seq::empty();
                assert(spec_query_pairs(target@) == Some::<Seq<(Seq<u8>, Seq<u8>)>>(qps));
                assert(entries_insert_all(Seq::<(Seq<u8>, Seq<u8>)>::empty(), qps) == query@);
            }
        } else {
            match parse_kv_pairs(&target, qp + 1) {
                None => {
                    assert(spec_query_pairs(target@) is None);
                    return Err(ParseError::MalformedRequest);
                },
                Some(ps) => {
                    proof {
                        qps = raw_view(ps@);
                        assert(spec_query_pairs(target@) == Some::<Seq<(Seq<u8>, Seq<u8>)>>(qps));
                    }
                    query = Pairs::from_raw(ps);
                },
            }
        }
        let (hraw, hend) = match parse_headers(v, after_line) {
            Err(e) => {
                assert(spec_parse(v@) == Err::<RequestView, ParseError>(ParseError::MalformedRequest));
                return Err(e);
            },
            Ok(pair) => pair,
        };
        let ghost hps = raw_view(hraw@);
        let headers = Pairs::from_raw(hraw);
        let cl: usize = match headers.get(&hdr_content_length()) {
            None => 0,
            Some(value) => match parse_usize(value) {
                Some(n) => n,
                None => 0,
            },
        };
        proof {
            assert(cl as int == spec_content_length(headers@));
        }
        if cl == 0 {
            let req = HttpRequest::new(method, path, query, headers, None);
            proof {
                let expected = RequestView {
                    method,
                    path: spec_path_of(target@),
                    query: entries_insert_all(Seq::<(Seq<u8>, Seq<u8>)>::empty(), qps),
                    headers: entries_insert_all(Seq::<(Seq<u8>, Seq<u8>)>::empty(), hps),
                    body: None,
                };
                assert(spec_parse(v@) == Ok::<RequestView, ParseError>(expected));
                assert(req@ =~= expected);
            }
            return Ok(req);
        }
        let rem = v.len() - hend;
        if rem < cl {
            assert(spec_parse(v@) == Err::<RequestView, ParseError>(ParseError::ContentTooSmall));
            return Err(ParseError::ContentTooSmall);
        }
        if rem > cl {
            assert(spec_parse(v@) == Err::<RequestView, ParseError>(ParseError::ContentTooLarge));
            return Err(ParseError::ContentTooLarge);
        }
        let body = copy_range(v, hend, hend + cl);
        let req = HttpRequest::new(method, path, query, headers, Some(body));
        proof {
            let expected = RequestView {
                method,
                path: spec_path_of(target@),
                query: entries_insert_all(Seq::<(Seq<u8>, Seq<u8>)>::empty(), qps),
                headers: entries_insert_all(Seq::<(Seq<u8>, Seq<u8>)>::empty(), hps),
                body: Some(v@.subrange(hend as int, hend as int + cl as int)),
            };
            assert(spec_parse(v@) == Ok::<RequestView, ParseError>(expected));
            assert(req@ =~= expected);
        }
        Ok(req)
    }
}

} // verus!
