//! The response value and its serializer: status line, headers, the computed
//! `Content-Length` and `Content-Type` lines, a blank line, then the body.

use vstd::prelude::*;
use crate::pairs::{Pairs, Entries, entries_wf, entries_insert};
use crate::helpers::{path_to_mimetype, spec_mime_of};
use crate::lit::{
    spec_status_line_prefix, spec_header_sep, spec_crlf, spec_hdr_content_length,
    spec_hdr_content_type, spec_mime_plain, spec_mime_json, status_line_prefix, header_sep, crlf,
    hdr_content_length, hdr_content_type, mime_plain, mime_json,
};
use crate::jsonio::{json_dump, json_text_of};

verus! {

/// The abstract value of a response: what the serializer renders.
pub ghost struct ResponseView {
    pub status: u16,
    pub headers: Entries,
    pub content_type: Option<Seq<u8>>,
    pub body: Seq<u8>,
}

/// A response under construction: a status, caller-set headers, an optional
/// declared content type, and the body bytes. `Content-Length` and
/// `Content-Type` are never stored as headers; the serializer computes them.
pub struct HttpResponse {
    status: u16,
    headers: Pairs,
    content_type: Option<Vec<u8>>,
    body: Vec<u8>,
}

impl View for HttpResponse {
    type V = ResponseView;

    closed spec fn view(&self) -> ResponseView {
        ResponseView {
            status: self.status,
            headers: self.headers@,
            content_type: match self.content_type {
                Some(c) => Some(c@),
                None => None,
            },
            body: self.body@,
        }
    }
}

/// The decimal digits of `n`, most significant first.
pub open spec fn spec_dec(n: nat) -> Seq<u8>
    decreases n,
{
    if n < 10 {
        seq![(48 + n) as u8]
    } else {
        spec_dec(n / 10).push((48 + n % 10) as u8)
    }
}

/// One rendered header line: `key: value` followed by CRLF.
pub open spec fn spec_header_line(key: Seq<u8>, value: Seq<u8>) -> Seq<u8> {
    key + spec_header_sep() + value + spec_crlf()
}

/// The rendered header lines from position `i` on, in map order.
pub open spec fn spec_render_headers_from(hs: Entries, i: int) -> Seq<u8>
    decreases hs.len() - i,
{
    if i < 0 || i >= hs.len() {
        Seq::empty()
    } else {
        spec_header_line(hs[i].0, hs[i].1) + spec_render_headers_from(hs, i + 1)
    }
}

/// The exact bytes a response serializes to: the status line `HTTP/1.1 <status>`,
/// the caller-set headers in map order, a computed `Content-Length`, the
/// declared content type or the `text/plain` fallback, a blank line, then the
/// body verbatim.
pub open spec fn spec_serialize(r: ResponseView) -> Seq<u8> {
    spec_status_line_prefix() + spec_dec(r.status as nat) + spec_crlf()
        + spec_render_headers_from(r.headers, 0) + spec_hdr_content_length() + spec_header_sep()
        + spec_dec(r.body.len()) + spec_crlf() + spec_hdr_content_type() + spec_header_sep() + (
    match r.content_type {
        Some(c) => c,
        None => spec_mime_plain(),
    }) + spec_crlf() + spec_crlf() + r.body
}

/// Append all of `s` to `out`.
pub fn push_all(out: &mut Vec<u8>, s: &Vec<u8>)
    ensures
        final(out)@ == old(out)@ + s@,
{
    let mut i: usize = 0;
    while i < s.len()
        invariant
            0 <= i <= s@.len(),
            out@ == old(out)@ + s@.subrange(0, i as int),
        decreases s@.len() - i,
    {
        out.push(s[i]);
        assert(out@ =~= old(out)@ + s@.subrange(0, i + 1));
        i = i + 1;
    }
    assert(out@ =~= old(out)@ + s@);
}

/// Append the decimal digits of `n` to `out`.
pub fn push_dec(out: &mut Vec<u8>, n: u64)
    ensures
        final(out)@ == old(out)@ + spec_dec(n as nat),
    decreases n,
{
    if n < 10 {
        out.push(48 + n as u8);
        assert(out@ =~= old(out)@ + spec_dec(n as nat));
    } else {
        push_dec(out, n / 10);
        out.push(48 + (n % 10) as u8);
        assert(out@ =~= old(out)@ + spec_dec(n as nat));
    }
}

impl HttpResponse {
    /// The header map's keys are distinct.
    pub open spec fn wf(&self) -> bool {
        entries_wf(self@.headers)
    }

    /// A response from its four fields.
    pub fn new(status: u16, headers: Pairs, content_type: Option<Vec<u8>>, body: Vec<u8>) -> (r:
        HttpResponse)
        requires
            headers.wf(),
        ensures
            r@.status == status,
            r@.headers == headers@,
            r@.content_type == (match content_type {
                Some(c) => Some(c@),
                None => None::<Seq<u8>>,
            }),
            r@.body == body@,
            r.wf(),
    {
        HttpResponse { status, headers, content_type, body }
    }

    /// Bind a header key to a value; a repeated key keeps its position and
    /// takes the new value.
    pub fn set_header(&mut self, key: Vec<u8>, value: Vec<u8>)
        requires
            old(self).wf(),
        ensures
            final(self).wf(),
            final(self)@.headers == entries_insert(old(self)@.headers, key@, value@),
            final(self)@.status == old(self)@.status,
            final(self)@.content_type == old(self)@.content_type,
            final(self)@.body == old(self)@.body,
    {
        self.headers.insert(key, value);
    }

    /// Replace the body wholesale.
    pub fn set_body(&mut self, body: Vec<u8>)
        ensures
            final(self)@.body == body@,
            final(self)@.status == old(self)@.status,
            final(self)@.headers == old(self)@.headers,
            final(self)@.content_type == old(self)@.content_type,
    {
        self.body = body;
    }

    /// Set the status code.
    pub fn set_status(&mut self, status: u16)
        ensures
            final(self)@.status == status,
            final(self)@.headers == old(self)@.headers,
            final(self)@.content_type == old(self)@.content_type,
            final(self)@.body == old(self)@.body,
    {
        self.status = status;
    }

    /// Declare the content type.
    pub fn set_content_type(&mut self, content_type: Vec<u8>)
        ensures
            final(self)@.content_type == Some(content_type@),
            final(self)@.status == old(self)@.status,
            final(self)@.headers == old(self)@.headers,
            final(self)@.body == old(self)@.body,
    {
        self.content_type = Some(content_type);
    }

    /// The body bytes.
    pub fn get_body(&self) -> (r: &Vec<u8>)
        ensures
            r@ == self@.body,
    {
        &self.body
    }

    /// The status code.
    pub fn get_status(&self) -> (r: u16)
        ensures
            r == self@.status,
    {
        self.status
    }

    /// The caller-set headers.
    pub fn get_headers(&self) -> (r: &Pairs)
        ensures
            r@ == self@.headers,
    {
        &self.headers
    }

    /// The declared content type, if any.
    pub fn get_content_type(&self) -> (r: &Option<Vec<u8>>)
        ensures
            match r {
                Some(c) => self@.content_type == Some(c@),
                None => self@.content_type is None,
            },
    {
        &self.content_type
    }

    /// Replace the body with the given text bytes and declare `text/plain`.
    pub fn write_from_string(stored_response: &mut HttpResponse, text: Vec<u8>)
        ensures
            final(stored_response)@.body == text@,
            final(stored_response)@.content_type == Some(spec_mime_plain()),
            final(stored_response)@.status == old(stored_response)@.status,
            final(stored_response)@.headers == old(stored_response)@.headers,
    {
        stored_response.set_body(text);
        stored_response.set_content_type(mime_plain());
    }

    /// Replace the body wholesale with the textual JSON form of `value` and
    /// declare `application/json`.
    pub fn write_from_json(stored_response: &mut HttpResponse, value: &json::JsonValue)
        ensures
            final(stored_response)@.body == json_text_of(*value),
            final(stored_response)@.content_type == Some(spec_mime_json()),
            final(stored_response)@.status == old(stored_response)@.status,
            final(stored_response)@.headers == old(stored_response)@.headers,
    {
        let text = json_dump(value);
        stored_response.set_body(text);
        stored_response.set_content_type(mime_json());
    }

    /// Replace the body with a file's contents and declare the content type
    /// that the file path's extension implies. The caller reads the file;
    /// this is the serving decision on its bytes.
    pub fn write_from_file_bytes(stored_response: &mut HttpResponse, path: &Vec<u8>, contents: Vec<
        u8,
    >)
        ensures
            final(stored_response)@.body == contents@,
            final(stored_response)@.content_type == Some(spec_mime_of(path@)),
            final(stored_response)@.status == old(stored_response)@.status,
            final(stored_response)@.headers == old(stored_response)@.headers,
    {
        stored_response.set_body(contents);
        stored_response.set_content_type(path_to_mimetype(path));
    }

    /// The full frame this response writes to the wire, exactly as
    /// `spec_serialize` lays it out.
    pub fn serialize(&self) -> (r: Vec<u8>)
        ensures
            r@ == spec_serialize(self@),
    {
        let mut out: Vec<u8> = Vec::new();
        let ghost mut base = out@;
        push_all(&mut out, &status_line_prefix());
        push_dec(&mut out, self.status as u64);
        push_all(&mut out, &crlf());
        let ghost after_status = out@;
        proof {
            assert(after_status =~= spec_status_line_prefix() + spec_dec(self@.status as nat)
                + spec_crlf());
        }
        let ghost hs = self@.headers;
        let mut i: usize = 0;
        while i < self.headers.len()
            invariant
                0 <= i <= hs.len(),
                hs == self@.headers,
                out@ + spec_render_headers_from(hs, i as int) == after_status
                    + spec_render_headers_from(hs, 0),
            decreases hs.len() - i,
        {
            let ghost before = out@;
            push_all(&mut out, self.headers.key_at(i));
            push_all(&mut out, &header_sep());
            push_all(&mut out, self.headers.value_at(i));
            push_all(&mut out, &crlf());
            proof {
                assert(out@ =~= before + spec_header_line(hs[i as int].0, hs[i as int].1));
                assert(out@ + spec_render_headers_from(hs, i + 1) =~= before
                    + spec_render_headers_from(hs, i as int));
            }
            i = i + 1;
        }
        let ghost after_headers = out@;
        proof {
            assert(after_headers =~= after_status + spec_render_headers_from(hs, 0));
        }
        push_all(&mut out, &hdr_content_length());
        push_all(&mut out, &header_sep());
        push_dec(&mut out, self.body.len() as u64);
        push_all(&mut out, &crlf());
        push_all(&mut out, &hdr_content_type());
        push_all(&mut out, &header_sep());
        match &self.content_type {
            Some(c) => push_all(&mut out, c),
            None => push_all(&mut out, &mime_plain()),
        }
        push_all(&mut out, &crlf());
        push_all(&mut out, &crlf());
        push_all(&mut out, &self.body);
        proof {
            assert(out@ =~= spec_serialize(self@));
        }
        out
    }
}

} // verus!
