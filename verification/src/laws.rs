//! Laws relating the parser's pieces across a whole request: writing a
//! well-formed request line and parsing it back recovers the method, the
//! path with the query stripped, and the query pairs, for all nine methods.

use vstd::prelude::*;
use crate::HttpMethod;
use crate::pairs::{entries_insert_all, entries_insert};
use crate::scan::{
    is_ws, scan_byte, scan_ws, scan_non_ws, trim_seq, last_non_ws_before, lemma_scan_byte_pin,
    lemma_scan_ws_pin, lemma_scan_non_ws_pin, lemma_last_non_ws_before,
};
use crate::kv::spec_kv_from;
use crate::request_parser::{
    spec_parse, spec_request_line, spec_method_of, spec_path_of, spec_query_pairs,
    spec_headers_from, spec_content_length, spec_usize_of, spec_digits_val, spec_all_digits,
    line_at, line_end, next_pos, ParseError,
};
use crate::http_request::RequestView;
use crate::http_response::spec_dec;
use crate::lit::{
    spec_tok_get, spec_tok_post, spec_tok_put, spec_tok_delete, spec_tok_patch, spec_tok_head,
    spec_tok_options, spec_tok_trace, spec_tok_connect, spec_hdr_content_length,
};

verus! {

/// The token that names `m` on a request line.
pub open spec fn spec_method_token(m: HttpMethod) -> Seq<u8> {
    match m {
        HttpMethod::Get => spec_tok_get(),
        HttpMethod::Post => spec_tok_post(),
        HttpMethod::Put => spec_tok_put(),
        HttpMethod::Delete => spec_tok_delete(),
        HttpMethod::Patch => spec_tok_patch(),
        HttpMethod::Head => spec_tok_head(),
        HttpMethod::Options => spec_tok_options(),
        HttpMethod::Trace => spec_tok_trace(),
        HttpMethod::Connect => spec_tok_connect(),
    }
}

/// Each method's token is nonempty, free of whitespace, and names exactly
/// that method.
pub proof fn lemma_method_token(m: HttpMethod)
    ensures
        spec_method_token(m).len() > 0,
        forall|j: int|
            0 <= j < spec_method_token(m).len() ==> !is_ws(#[trigger] spec_method_token(m)[j]),
        spec_method_of(spec_method_token(m)) == Some(m),
{
    assert(spec_tok_get()[0] == 71);
    assert(spec_tok_post()[0] == 80);
    assert(spec_tok_put()[0] == 80);
    assert(spec_tok_head()[0] == 72);
    assert(spec_tok_patch()[0] == 80);
    assert(spec_tok_trace()[0] == 84);
    assert(spec_tok_options()[0] == 79);
    assert(spec_tok_connect()[0] == 67);
    assert(spec_tok_put() != spec_tok_get());
    assert(spec_tok_head() != spec_tok_post());
    assert(spec_tok_trace() != spec_tok_patch());
    assert(spec_tok_connect() != spec_tok_options());
}

/// Whether a pair may stand in a query string: its key free of `=`, `&` and
/// whitespace, its value free of `&` and whitespace.
pub open spec fn spec_query_pair_wf(p: (Seq<u8>, Seq<u8>)) -> bool {
    (forall|j: int|
        0 <= j < p.0.len() ==> (#[trigger] p.0[j] != 61 && p.0[j] != 38 && !is_ws(p.0[j])))
        && (forall|j: int| 0 <= j < p.1.len() ==> (#[trigger] p.1[j] != 38 && !is_ws(p.1[j])))
}

/// The query string that writes `ps`: `k=v` segments joined by `&`.
pub open spec fn spec_render_query(ps: Seq<(Seq<u8>, Seq<u8>)>) -> Seq<u8>
    decreases ps.len(),
{
    if ps.len() == 0 {
        Seq::empty()
    } else if ps.len() == 1 {
        ps[0].0 + seq![61u8] + ps[0].1
    } else {
        ps[0].0 + seq![61u8] + ps[0].1 + seq![38u8] + spec_render_query(ps.drop_first())
    }
}

/// A rendered query holds no whitespace.
pub proof fn lemma_render_query_non_ws(ps: Seq<(Seq<u8>, Seq<u8>)>)
    requires
        forall|t: int| 0 <= t < ps.len() ==> spec_query_pair_wf(#[trigger] ps[t]),
    ensures
        forall|j: int|
            0 <= j < spec_render_query(ps).len() ==> !is_ws(#[trigger] spec_render_query(ps)[j]),
    decreases ps.len(),
{
    let r = spec_render_query(ps);
    if ps.len() == 0 {
    } else {
        assert(spec_query_pair_wf(ps[0]));
        let k = ps[0].0;
        let v = ps[0].1;
        let kl = k.len() as int;
        let vl = v.len() as int;
        if ps.len() == 1 {
            assert forall|j: int| 0 <= j < r.len() implies !is_ws(r[j]) by {
                if j < kl {
                    assert(r[j] == k[j]);
                } else if j == kl {
                    assert(r[j] == 61);
                } else {
                    assert(r[j] == v[j - kl - 1]);
                }
            }
        } else {
            assert(forall|t: int|
                0 <= t < ps.drop_first().len() ==> spec_query_pair_wf(
                    #[trigger] ps.drop_first()[t],
                ));
            lemma_render_query_non_ws(ps.drop_first());
            let rr = spec_render_query(ps.drop_first());
            assert forall|j: int| 0 <= j < r.len() implies !is_ws(r[j]) by {
                if j < kl {
                    assert(r[j] == k[j]);
                } else if j == kl {
                    assert(r[j] == 61);
                } else if j < kl + 1 + vl {
                    assert(r[j] == v[j - kl - 1]);
                } else if j == kl + 1 + vl {
                    assert(r[j] == 38);
                } else {
                    assert(r[j] == rr[j - kl - vl - 2]);
                    assert(!is_ws(rr[j - kl - vl - 2]));
                }
            }
        }
    }
}

/// Parsing a rendered query recovers its pairs exactly: when the bytes of
/// `s` from `i` on are `spec_render_query(ps)`, the pair scan yields `ps`.
pub proof fn lemma_kv_roundtrip(s: Seq<u8>, i: int, ps: Seq<(Seq<u8>, Seq<u8>)>)
    requires
        ps.len() > 0,
        forall|t: int| 0 <= t < ps.len() ==> spec_query_pair_wf(#[trigger] ps[t]),
        0 <= i <= s.len(),
        s.subrange(i, s.len() as int) == spec_render_query(ps),
    ensures
        spec_kv_from(s, i) == Some(ps),
    decreases ps.len(),
{
    assert(spec_query_pair_wf(ps[0]));
    let k = ps[0].0;
    let v = ps[0].1;
    let kl = k.len() as int;
    let vl = v.len() as int;
    let r = spec_render_query(ps);
    assert(r.len() == s.len() - i) by {
        assert(s.subrange(i, s.len() as int).len() == s.len() - i);
    }
    let qpos = i + kl;
    assert(s[qpos] == 61) by {
        assert(r[kl] == 61);
        assert(s.subrange(i, s.len() as int)[kl] == s[i + kl]);
    }
    assert forall|j: int| i <= j < qpos implies s[j] != 61 by {
        assert(r[j - i] == k[j - i]);
        assert(s.subrange(i, s.len() as int)[j - i] == s[j]);
    }
    lemma_scan_byte_pin(s, i, qpos, 61);
    let epos = if ps.len() == 1 {
        s.len() as int
    } else {
        i + kl + 1 + vl
    };
    if ps.len() > 1 {
        assert(s[epos] == 38) by {
            assert(r[kl + 1 + vl] == 38);
            assert(s.subrange(i, s.len() as int)[kl + 1 + vl] == s[epos]);
        }
    }
    assert forall|j: int| i <= j < epos implies s[j] != 38 by {
        assert(s.subrange(i, s.len() as int)[j - i] == s[j]);
        if j - i < kl {
            assert(r[j - i] == k[j - i]);
        } else if j - i == kl {
            assert(r[j - i] == 61);
        } else {
            assert(r[j - i] == v[j - i - kl - 1]);
        }
    }
    lemma_scan_byte_pin(s, i, epos, 38);
    assert(s.subrange(i, qpos) =~= k) by {
        assert forall|x: int| 0 <= x < kl implies s.subrange(i, qpos)[x] == k[x] by {
            assert(s.subrange(i, s.len() as int)[x] == s[i + x]);
            assert(r[x] == k[x]);
        }
    }
    assert(s.subrange(qpos + 1, epos) =~= v) by {
        assert forall|x: int| 0 <= x < vl implies s.subrange(qpos + 1, epos)[x] == v[x] by {
            assert(s.subrange(i, s.len() as int)[kl + 1 + x] == s[i + kl + 1 + x]);
            assert(r[kl + 1 + x] == v[x]);
        }
    }
    assert(ps[0] == (k, v));
    if ps.len() == 1 {
        assert(spec_kv_from(s, i) == Some(seq![(k, v)]));
        assert(seq![(k, v)] =~= ps);
    } else {
        let rest = ps.drop_first();
        assert(forall|t: int| 0 <= t < rest.len() ==> spec_query_pair_wf(#[trigger] rest[t]));
        let rr = spec_render_query(rest);
        assert(s.subrange(epos + 1, s.len() as int) =~= rr) by {
            assert(r.len() == kl + 1 + vl + 1 + rr.len());
            assert forall|x: int| 0 <= x < rr.len() implies s.subrange(
                epos + 1,
                s.len() as int,
            )[x] == rr[x] by {
                assert(s.subrange(i, s.len() as int)[kl + 1 + vl + 1 + x] == s[epos + 1 + x]);
                assert(r[kl + 1 + vl + 1 + x] == rr[x]);
            }
        }
        lemma_kv_roundtrip(s, epos + 1, rest);
        assert(spec_kv_from(s, i) == Some(seq![(k, v)] + rest));
        assert(seq![(k, v)] + rest =~= ps);
    }
}

/// Whether `path` may stand on a request line: nonempty, free of `?` and of
/// whitespace.
pub open spec fn spec_path_wf(path: Seq<u8>) -> bool {
    path.len() > 0 && (forall|j: int|
        0 <= j < path.len() ==> (#[trigger] path[j] != 63 && !is_ws(path[j])))
}

/// The target that writes `path` and the query pairs `ps`: the path alone,
/// or the path, `?`, and the rendered query.
pub open spec fn spec_render_target(path: Seq<u8>, ps: Seq<(Seq<u8>, Seq<u8>)>) -> Seq<u8> {
    if ps.len() == 0 {
        path
    } else {
        path + seq![63u8] + spec_render_query(ps)
    }
}

/// The request line that writes method `m`, `path` and query pairs `ps`.
pub open spec fn spec_render_request_line(
    m: HttpMethod,
    path: Seq<u8>,
    ps: Seq<(Seq<u8>, Seq<u8>)>,
) -> Seq<u8> {
    spec_method_token(m) + seq![32u8] + spec_render_target(path, ps)
}

/// A rendered request line splits back into its method and target, the
/// target back into its path and query pairs, and the line holds no
/// whitespace but its separating space.
pub proof fn lemma_render_line_parses(m: HttpMethod, path: Seq<u8>, ps: Seq<(Seq<u8>, Seq<u8>)>)
    requires
        spec_path_wf(path),
        forall|t: int| 0 <= t < ps.len() ==> spec_query_pair_wf(#[trigger] ps[t]),
    ensures
        spec_request_line(spec_render_request_line(m, path, ps)) == Ok::<
            (HttpMethod, Seq<u8>),
            ParseError,
        >((m, spec_render_target(path, ps))),
        spec_path_of(spec_render_target(path, ps)) == path,
        spec_query_pairs(spec_render_target(path, ps)) == Some(ps),
        forall|j: int|
            0 <= j < spec_render_request_line(m, path, ps).len() ==> (!is_ws(
                #[trigger] spec_render_request_line(m, path, ps)[j],
            ) || spec_render_request_line(m, path, ps)[j] == 32),
{
    lemma_method_token(m);
    lemma_render_query_non_ws(ps);
    let tok = spec_method_token(m);
    let target = spec_render_target(path, ps);
    let line = spec_render_request_line(m, path, ps);
    let ll = line.len() as int;
    let tl = tok.len() as int;
    let pl = path.len() as int;
    assert(forall|j: int| 0 <= j < target.len() ==> !is_ws(#[trigger] target[j]));
    // the line splits into the method token and the target
    lemma_scan_non_ws_pin(line, 0, 0);
    assert(scan_non_ws(line, 0) == 0);
    lemma_scan_ws_pin(line, 0, tl);
    assert(scan_ws(line, 0) == tl);
    assert(line.subrange(0, tl) =~= tok);
    lemma_scan_non_ws_pin(line, tl, tl + 1);
    lemma_scan_ws_pin(line, tl + 1, ll);
    assert(line.subrange(tl + 1, ll) =~= target);
    assert(spec_request_line(line) == Ok::<(HttpMethod, Seq<u8>), ParseError>((m, target)));
    // the target splits into the path and the query pairs
    if ps.len() == 0 {
        lemma_scan_byte_pin(target, 0, target.len() as int, 63);
        assert(spec_path_of(target) =~= path);
        assert(spec_query_pairs(target) == Some(Seq::<(Seq<u8>, Seq<u8>)>::empty()));
    } else {
        assert(forall|x: int|
            0 <= x < target.len() ==> #[trigger] target[x] == (path + seq![63u8]
                + spec_render_query(ps))[x]);
        assert(target[pl] == 63);
        lemma_scan_byte_pin(target, 0, pl, 63);
        assert(spec_path_of(target) =~= path);
        assert(target.subrange(pl + 1, target.len() as int) =~= spec_render_query(ps));
        lemma_kv_roundtrip(target, pl + 1, ps);
        assert(spec_query_pairs(target) == Some(ps));
    }
}

/// For any well-formed request line, parsing the request made of that line
/// and an empty header block recovers the method, the path with the query
/// component stripped, and the query pairs as a map where the last pair for
/// a key wins - for all nine methods.
pub proof fn lemma_request_line_recovery(
    m: HttpMethod,
    path: Seq<u8>,
    ps: Seq<(Seq<u8>, Seq<u8>)>,
)
    requires
        spec_path_wf(path),
        forall|t: int| 0 <= t < ps.len() ==> spec_query_pair_wf(#[trigger] ps[t]),
    ensures
        spec_parse(spec_render_request_line(m, path, ps) + seq![10u8, 13u8, 10u8]) == Ok::<
            RequestView,
            ParseError,
        >(
            RequestView {
                method: m,
                path: path,
                query: entries_insert_all(Seq::empty(), ps),
                headers: Seq::empty(),
                body: None,
            },
        ),
{
    lemma_render_line_parses(m, path, ps);
    let line = spec_render_request_line(m, path, ps);
    let s = line + seq![10u8, 13u8, 10u8];
    let ll = line.len() as int;
    assert(forall|j: int| 0 <= j < ll ==> #[trigger] s[j] == line[j]);
    assert(s[ll] == 10);
    assert(s[ll + 1] == 13);
    assert(s[ll + 2] == 10);
    assert(s.len() == ll + 3);
    // the request line runs to the first LF
    assert(forall|j: int| 0 <= j < ll ==> s[j] != 10) by {
        assert(forall|j: int| 0 <= j < ll ==> !is_ws(#[trigger] line[j]) || line[j] == 32);
    }
    lemma_scan_byte_pin(s, 0, ll, 10);
    assert(line_end(s, 0) == ll);
    assert(line_at(s, 0) =~= line);
    assert(next_pos(s, 0) == ll + 1);
    // the header block is one blank line
    let h = ll + 1;
    assert(s[h] == 13 && s[h] != 10);
    lemma_scan_byte_pin(s, h, h + 1, 10);
    assert(line_end(s, h) == h + 1);
    assert(next_pos(s, h) == h + 2);
    assert(h + 2 == s.len());
    let hline = line_at(s, h);
    assert(hline =~= seq![13u8]);
    assert(is_ws(hline[0]));
    lemma_scan_non_ws_pin(hline, 0, hline.len() as int);
    assert(spec_headers_from(s, h) == Some((Seq::<(Seq<u8>, Seq<u8>)>::empty(), h + 2)));
    // no headers: no Content-Length, no body
    let headers = entries_insert_all(
        Seq::<(Seq<u8>, Seq<u8>)>::empty(),
        Seq::<(Seq<u8>, Seq<u8>)>::empty(),
    );
    assert(headers =~= Seq::<(Seq<u8>, Seq<u8>)>::empty());
    assert(spec_content_length(headers) == 0);
    let expected = RequestView {
        method: m,
        path: path,
        query: entries_insert_all(Seq::empty(), ps),
        headers: Seq::empty(),
        body: None,
    };
    assert(spec_parse(s) == Ok::<RequestView, ParseError>(expected));
}

/// The serializer's decimal digits parse back to the number they were
/// written from: they are digits throughout and their value is the number.
pub proof fn lemma_dec_digits(n: nat)
    ensures
        spec_all_digits(spec_dec(n)),
        spec_digits_val(spec_dec(n)) == n,
    decreases n,
{
    if n < 10 {
        let d = spec_dec(n);
        assert(d == seq![(48 + n) as u8]);
        assert(d.drop_last() =~= Seq::<u8>::empty());
        assert(spec_digits_val(Seq::<u8>::empty()) == 0);
        assert(spec_digits_val(d) == (48 + n) as u8 - 48);
    } else {
        lemma_dec_digits(n / 10);
        let p = spec_dec(n / 10);
        let d = spec_dec(n);
        assert(d == p.push((48 + n % 10) as u8));
        assert(d.drop_last() =~= p);
        assert(spec_digits_val(d) == spec_digits_val(p) * 10 + ((48 + n % 10) as u8 - 48));
        assert(forall|j: int| 0 <= j < d.len() ==> (48 <= #[trigger] d[j] && d[j] <= 57)) by {
            assert(forall|j: int| 0 <= j < p.len() ==> (48 <= #[trigger] p[j] && p[j] <= 57));
            assert(d.last() == (48 + n % 10) as u8);
        }
    }
}

/// The header block that declares a body of `n` bytes: a `Content-Length`
/// line and the blank terminator line, CRLF-ended.
pub open spec fn spec_render_cl_header(n: int) -> Seq<u8> {
    spec_hdr_content_length() + seq![58u8, 32u8] + spec_dec(n as nat) + seq![13u8, 10u8]
}

/// The request that writes a request line, a `Content-Length` header of `n`,
/// and then `body` as the bytes remaining on the connection.
pub open spec fn spec_render_request_with_body(
    m: HttpMethod,
    path: Seq<u8>,
    ps: Seq<(Seq<u8>, Seq<u8>)>,
    n: int,
    body: Seq<u8>,
) -> Seq<u8> {
    spec_render_request_line(m, path, ps) + seq![10u8] + spec_render_cl_header(n) + seq![
        13u8,
        10u8,
    ] + body
}

/// A header block that is one `Content-Length` line and the blank
/// terminator yields exactly that one header, bound to the written digits,
/// and a declared length of `n`.
pub proof fn lemma_cl_header_block(s: Seq<u8>, h0: int, n: int)
    requires
        0 < n <= usize::MAX,
        0 <= h0,
        h0 + spec_render_cl_header(n).len() + 2 <= s.len(),
        s.subrange(h0, h0 + spec_render_cl_header(n).len() + 2) == spec_render_cl_header(n)
            + seq![13u8, 10u8],
    ensures
        spec_headers_from(s, h0) == Some(
            (
                seq![(spec_hdr_content_length(), spec_dec(n as nat))],
                h0 + spec_render_cl_header(n).len() + 2,
            ),
        ),
        spec_content_length(
            entries_insert_all(
                Seq::<(Seq<u8>, Seq<u8>)>::empty(),
                seq![(spec_hdr_content_length(), spec_dec(n as nat))],
            ),
        ) == n,
        entries_insert_all(
            Seq::<(Seq<u8>, Seq<u8>)>::empty(),
            seq![(spec_hdr_content_length(), spec_dec(n as nat))],
        ) == seq![(spec_hdr_content_length(), spec_dec(n as nat))],
{
    lemma_dec_digits(n as nat);
    let cl_name = spec_hdr_content_length();
    let dn = spec_dec(n as nat);
    let cll = cl_name.len() as int;
    let dl = dn.len() as int;
    let region = spec_render_cl_header(n) + seq![13u8, 10u8];
    let rl = region.len() as int;
    assert(rl == cll + 2 + dl + 2 + 2);
    let q0 = h0 + cll + 2 + dl;
    let t0 = q0 + 2;
    let hend = t0 + 2;
    assert(forall|x: int| 0 <= x < rl ==> #[trigger] s[h0 + x] == region[x]) by {
        assert(forall|x: int|
            0 <= x < rl ==> s.subrange(h0, h0 + rl)[x] == #[trigger] region[x]);
    }
    assert(forall|j: int| 0 <= j < cll ==> (#[trigger] cl_name[j] != 10 && cl_name[j] != 58
        && !is_ws(cl_name[j])));
    assert(forall|j: int| 0 <= j < dl ==> (48 <= #[trigger] dn[j] && dn[j] <= 57));
    assert forall|x: int| 0 <= x < cll implies s[h0 + x] == cl_name[x] by {
        assert(region[x] == cl_name[x]);
    }
    assert(s[h0 + cll] == 58) by {
        assert(region[cll] == 58);
    }
    assert(s[h0 + cll + 1] == 32) by {
        assert(region[cll + 1] == 32);
    }
    assert forall|x: int| 0 <= x < dl implies s[h0 + cll + 2 + x] == dn[x] by {
        assert(region[cll + 2 + x] == dn[x]);
    }
    assert(s[q0] == 13) by {
        assert(region[cll + 2 + dl] == 13);
    }
    assert(s[q0 + 1] == 10) by {
        assert(region[cll + 2 + dl + 1] == 10);
    }
    assert(s[t0] == 13) by {
        assert(region[cll + 2 + dl + 2] == 13);
    }
    assert(s[t0 + 1] == 10) by {
        assert(region[cll + 2 + dl + 3] == 10);
    }
    // the Content-Length line runs from h0 to the LF at q0 + 1
    assert forall|j: int| h0 <= j < q0 + 1 implies s[j] != 10 by {
        if j < h0 + cll {
            assert(s[j] == cl_name[j - h0]);
        } else if h0 + cll + 2 <= j < q0 {
            assert(s[j] == dn[j - (h0 + cll + 2)]);
        }
    }
    lemma_scan_byte_pin(s, h0, q0 + 1, 10);
    assert(line_end(s, h0) == q0 + 1);
    assert(next_pos(s, h0) == t0);
    let hline = line_at(s, h0);
    assert(hline.len() == cll + 2 + dl + 1);
    assert(forall|x: int| 0 <= x < hline.len() ==> #[trigger] hline[x] == s[h0 + x]);
    // it is not blank, and its first colon sits right after the header name
    assert(!is_ws(hline[0]));
    lemma_scan_non_ws_pin(hline, 0, 0);
    assert forall|x: int| 0 <= x < cll implies hline[x] != 58 by {
        assert(hline[x] == cl_name[x]);
    }
    assert(hline[cll] == 58);
    lemma_scan_byte_pin(hline, 0, cll, 58);
    assert(hline.subrange(0, cll) =~= cl_name);
    // the raw value is a space, the digits, and the carriage return
    let raw = hline.subrange(cll + 1, hline.len() as int);
    assert(raw.len() == 1 + dl + 1);
    assert(raw[0] == 32);
    assert(forall|x: int| 0 <= x < dl ==> #[trigger] raw[1 + x] == dn[x]);
    assert(raw[1 + dl] == 13);
    // trimming it leaves exactly the digits
    assert(!is_ws(raw[1])) by {
        assert(raw[1] == dn[0]);
    }
    lemma_scan_non_ws_pin(raw, 0, 1);
    lemma_last_non_ws_before(raw, raw.len() as int);
    let lastp = last_non_ws_before(raw, raw.len() as int);
    assert(lastp == dl) by {
        if lastp < dl {
            assert(is_ws(raw[dl])) by {
                assert(raw[dl] == dn[dl - 1]);
            }
            assert(false);
        }
        if lastp == dl + 1 {
            assert(!is_ws(raw[dl + 1]));
            assert(false);
        }
    }
    assert(trim_seq(raw) =~= dn);
    // the blank line ends the header block
    assert(s[t0] != 10);
    lemma_scan_byte_pin(s, t0, t0 + 1, 10);
    assert(line_end(s, t0) == t0 + 1);
    assert(next_pos(s, t0) == hend);
    let tline = line_at(s, t0);
    assert(tline =~= seq![13u8]);
    assert(is_ws(tline[0]));
    lemma_scan_non_ws_pin(tline, 0, tline.len() as int);
    assert(t0 < s.len());
    assert(spec_headers_from(s, t0) == Some((Seq::<(Seq<u8>, Seq<u8>)>::empty(), hend)));
    let pair = (cl_name, dn);
    assert(spec_headers_from(s, h0) == Some(
        (seq![pair] + Seq::<(Seq<u8>, Seq<u8>)>::empty(), hend),
    ));
    assert(seq![pair] + Seq::<(Seq<u8>, Seq<u8>)>::empty() =~= seq![pair]);
    // the one header binds Content-Length to the digits, whose value is n
    let hmap = entries_insert_all(Seq::<(Seq<u8>, Seq<u8>)>::empty(), seq![pair]);
    let inner = entries_insert(Seq::<(Seq<u8>, Seq<u8>)>::empty(), cl_name, dn);
    assert(seq![pair][0] == pair);
    assert(hmap == entries_insert_all(inner, seq![pair].drop_first()));
    assert(seq![pair].drop_first() =~= Seq::<(Seq<u8>, Seq<u8>)>::empty());
    assert(entries_insert_all(inner, Seq::<(Seq<u8>, Seq<u8>)>::empty()) == inner);
    assert(!crate::pairs::has_key(Seq::<(Seq<u8>, Seq<u8>)>::empty(), cl_name));
    assert(hmap =~= seq![pair]);
    assert(crate::pairs::entries_get(hmap, cl_name) == Some(dn));
    assert(dn[0] != 43);
    assert(spec_usize_of(dn) == Some(n));
    assert(spec_content_length(hmap) == n);
}

/// A request that declares `Content-Length: n` parses to a body of exactly
/// the `n` bytes that follow the header block when exactly `n` remain;
/// fewer remaining bytes are `ContentTooSmall`, more are `ContentTooLarge`.
pub proof fn lemma_content_length_body(
    m: HttpMethod,
    path: Seq<u8>,
    ps: Seq<(Seq<u8>, Seq<u8>)>,
    n: int,
    body: Seq<u8>,
)
    requires
        spec_path_wf(path),
        forall|t: int| 0 <= t < ps.len() ==> spec_query_pair_wf(#[trigger] ps[t]),
        0 < n <= usize::MAX,
    ensures
        body.len() == n ==> spec_parse(spec_render_request_with_body(m, path, ps, n, body))
            == Ok::<RequestView, ParseError>(
            RequestView {
                method: m,
                path: path,
                query: entries_insert_all(Seq::empty(), ps),
                headers: seq![(spec_hdr_content_length(), spec_dec(n as nat))],
                body: Some(body),
            },
        ),
        body.len() < n ==> spec_parse(spec_render_request_with_body(m, path, ps, n, body))
            == Err::<RequestView, ParseError>(ParseError::ContentTooSmall),
        body.len() > n ==> spec_parse(spec_render_request_with_body(m, path, ps, n, body))
            == Err::<RequestView, ParseError>(ParseError::ContentTooLarge),
{
    lemma_render_line_parses(m, path, ps);
    let line = spec_render_request_line(m, path, ps);
    let hdr = spec_render_cl_header(n);
    let s = spec_render_request_with_body(m, path, ps, n, body);
    let ll = line.len() as int;
    let bl = body.len() as int;
    let h0 = ll + 1;
    let hend = h0 + hdr.len() + 2;
    assert(s.len() == hend + bl);
    assert(forall|j: int| 0 <= j < ll ==> #[trigger] s[j] == line[j]);
    assert(s[ll] == 10);
    // the request line runs to the first LF
    assert(forall|j: int| 0 <= j < ll ==> s[j] != 10) by {
        assert(forall|j: int| 0 <= j < ll ==> !is_ws(#[trigger] line[j]) || line[j] == 32);
    }
    lemma_scan_byte_pin(s, 0, ll, 10);
    assert(line_at(s, 0) =~= line);
    assert(next_pos(s, 0) == h0);
    // the header block declares n body bytes
    assert(s.subrange(h0, hend) =~= hdr + seq![13u8, 10u8]);
    lemma_cl_header_block(s, h0, n);
    // exactly the remaining bytes are the body
    if bl == n {
        assert(s.subrange(hend, hend + n) =~= body);
        let expected = RequestView {
            method: m,
            path: path,
            query: entries_insert_all(Seq::empty(), ps),
            headers: seq![(spec_hdr_content_length(), spec_dec(n as nat))],
            body: Some(body),
        };
        assert(spec_parse(s) == Ok::<RequestView, ParseError>(expected));
    }
}

} // verus!
