//! The parsed request value: method, path, query map, header map and body,
//! with the two content-negotiated body accessors (JSON and form).

use vstd::prelude::*;
use crate::HttpMethod;
use crate::pairs::{Pairs, Entries, entries_wf, entries_get, entries_insert_all, bytes_eq};
use crate::kv::{spec_kv_from, parse_kv_pairs};
use crate::jsonio::{json_parse, json_accepts};
use crate::http_response::{HttpResponse, push_all};
use crate::lit::{
    spec_hdr_content_type, spec_mime_json, spec_mime_form, spec_mime_plain,
    spec_msg_invalid_content_type, spec_msg_empty_body, spec_msg_malformed_body,
    spec_msg_json_error_prefix, hdr_content_type, mime_json, mime_form,
    msg_invalid_content_type, msg_empty_body, msg_malformed_body, msg_json_error_prefix,
};

verus! {

/// The abstract value of a parsed request.
#[verifier::ext_equal]
pub ghost struct RequestView {
    pub method: HttpMethod,
    pub path: Seq<u8>,
    pub query: Entries,
    pub headers: Entries,
    pub body: Option<Seq<u8>>,
}

/// A parsed request: read-only once constructed.
pub struct HttpRequest {
    method: HttpMethod,
    path: Vec<u8>,
    query: Pairs,
    headers: Pairs,
    body: Option<Vec<u8>>,
}

impl View for HttpRequest {
    type V = RequestView;

    closed spec fn view(&self) -> RequestView {
        RequestView {
            method: self.method,
            path: self.path@,
            query: self.query@,
            headers: self.headers@,
            body: match self.body {
                Some(b) => Some(b@),
                None => None,
            },
        }
    }
}

/// Why a body accessor refused the request's body.
pub enum RequestError {
    /// The `Content-Type` header is not the one the accessor asks for.
    InvalidContentType,
    /// The content type matches but the request carries no body.
    EmptyBody,
    /// A form body has a segment without `=`.
    MalformedBody,
    /// The body is not valid JSON; the payload is the JSON parser's message.
    JsonError(Vec<u8>),
}

/// Whether the headers declare exactly the content type `ct`.
pub open spec fn spec_declares_content_type(headers: Entries, ct: Seq<u8>) -> bool {
    entries_get(headers, spec_hdr_content_type()) == Some(ct)
}

impl HttpRequest {
    /// The two maps have distinct keys.
    pub open spec fn wf(&self) -> bool {
        entries_wf(self@.query) && entries_wf(self@.headers)
    }

    /// A request from its five fields.
    pub fn new(
        method: HttpMethod,
        path: Vec<u8>,
        query: Pairs,
        headers: Pairs,
        body: Option<Vec<u8>>,
    ) -> (r: HttpRequest)
        requires
            query.wf(),
            headers.wf(),
        ensures
            r@.method == method,
            r@.path == path@,
            r@.query == query@,
            r@.headers == headers@,
            r@.body == (match body {
                Some(b) => Some(b@),
                None => None::<Seq<u8>>,
            }),
            r.wf(),
    {
        HttpRequest { method, path, query, headers, body }
    }

    /// The request's method.
    pub fn get_method(&self) -> (r: &HttpMethod)
        ensures
            *r == self@.method,
    {
        &self.method
    }

    /// The request's path, query stripped.
    pub fn get_path(&self) -> (r: &Vec<u8>)
        ensures
            r@ == self@.path,
    {
        &self.path
    }

    /// The query map.
    pub fn get_query(&self) -> (r: &Pairs)
        ensures
            r@ == self@.query,
    {
        &self.query
    }

    /// The header map.
    pub fn get_headers(&self) -> (r: &Pairs)
        ensures
            r@ == self@.headers,
    {
        &self.headers
    }

    /// The body bytes, when a body was declared and read.
    pub fn get_body(&self) -> (r: Option<&Vec<u8>>)
        ensures
            match r {
                Some(b) => self@.body == Some(b@),
                None => self@.body is None,
            },
    {
        self.body.as_ref()
    }

    /// The body parsed as JSON. Refused unless `Content-Type` is exactly
    /// `application/json` and a body is present; a present body parses
    /// exactly when the JSON parser accepts its bytes, and a rejection is
    /// surfaced as `JsonError`.
    pub fn json(&self) -> (r: Result<json::JsonValue, RequestError>)
        requires
            self.wf(),
        ensures
            (r matches Err(e) && e == RequestError::InvalidContentType) <==> !spec_declares_content_type(
                self@.headers,
                spec_mime_json(),
            ),
            (r matches Err(e) && e == RequestError::EmptyBody) <==> (spec_declares_content_type(
                self@.headers,
                spec_mime_json(),
            ) && self@.body is None),
            (spec_declares_content_type(self@.headers, spec_mime_json()) && self@.body is Some)
                ==> (r is Ok || (r matches Err(e) && e is JsonError)),
            spec_declares_content_type(self@.headers, spec_mime_json()) ==> (self@.body matches Some(
                b,
            ) ==> (r is Ok <==> json_accepts(b))),
    {
        let ct = self.headers.get(&hdr_content_type());
        let is_json = match ct {
            Some(v) => bytes_eq(v, &mime_json()),
            None => false,
        };
        if !is_json {
            return Err(RequestError::InvalidContentType);
        }
        match &self.body {
            None => Err(RequestError::EmptyBody),
            Some(b) => match json_parse(b) {
                Ok(v) => Ok(v),
                Err(m) => Err(RequestError::JsonError(m)),
            },
        }
    }

    /// The body parsed as a form. Refused unless `Content-Type` is exactly
    /// `application/x-www-form-urlencoded` and a body is present; the body is
    /// split on `&` and each segment on its first `=`, later pairs winning on
    /// a repeated key; a segment without `=` is `MalformedBody`.
    pub fn form(&self) -> (r: Result<Pairs, RequestError>)
        requires
            self.wf(),
        ensures
            (r matches Err(e) && e == RequestError::InvalidContentType) <==> !spec_declares_content_type(
                self@.headers,
                spec_mime_form(),
            ),
            (r matches Err(e) && e == RequestError::EmptyBody) <==> (spec_declares_content_type(
                self@.headers,
                spec_mime_form(),
            ) && self@.body is None),
            spec_declares_content_type(self@.headers, spec_mime_form()) ==> (self@.body matches Some(
                b,
            ) ==> (match spec_kv_from(b, 0) {
                None => r matches Err(e) && e == RequestError::MalformedBody,
                Some(ps) => r matches Ok(m) && m@ == entries_insert_all(
                    Seq::<(Seq<u8>, Seq<u8>)>::empty(),
                    ps,
                ) && m.wf(),
            })),
    {
        let ct = self.headers.get(&hdr_content_type());
        let is_form = match ct {
            Some(v) => bytes_eq(v, &mime_form()),
            None => false,
        };
        if !is_form {
            return Err(RequestError::InvalidContentType);
        }
        match &self.body {
            None => Err(RequestError::EmptyBody),
            Some(b) => match parse_kv_pairs(b, 0) {
                None => Err(RequestError::MalformedBody),
                Some(ps) => Ok(Pairs::from_raw(ps)),
            },
        }
    }
}

/// The ready-made `400` response a body-accessor failure converts to: a
/// plain-text body naming the failure, for handlers that propagate rather
/// than handle it.
pub fn response_for_request_error(err: RequestError) -> (r: HttpResponse)
    ensures
        r@.status == 400,
        r@.headers == Seq::<(Seq<u8>, Seq<u8>)>::empty(),
        r@.content_type == Some(spec_mime_plain()),
        r@.body == (match err {
            RequestError::InvalidContentType => spec_msg_invalid_content_type(),
            RequestError::EmptyBody => spec_msg_empty_body(),
            RequestError::MalformedBody => spec_msg_malformed_body(),
            RequestError::JsonError(m) => spec_msg_json_error_prefix() + m@,
        }),
        r.wf(),
{
    let mut resp = HttpResponse::new(400, Pairs::new(), None, Vec::new());
    let text = match err {
        RequestError::InvalidContentType => msg_invalid_content_type(),
        RequestError::EmptyBody => msg_empty_body(),
        RequestError::MalformedBody => msg_malformed_body(),
        RequestError::JsonError(m) => {
            let mut t = msg_json_error_prefix();
            push_all(&mut t, &m);
            t
        },
    };
    HttpResponse::write_from_string(&mut resp, text);
    resp
}

} // verus!
