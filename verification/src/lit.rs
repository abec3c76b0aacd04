//! Byte-string constants of the wire protocol: header names, content
//! types, framing pieces and method tokens, each as a spec sequence and as
//! an executable vector that holds the same bytes.

use vstd::prelude::*;

verus! {

/// The bytes of "html".
pub open spec fn spec_ext_html() -> Seq<u8> {
    seq![104u8, 116, 109, 108]
}

/// A fresh vector holding the bytes of "html".
pub fn ext_html() -> (r: Vec<u8>)
    ensures
        r@ == spec_ext_html(),
{
    let r: Vec<u8> = vec![104u8, 116, 109, 108];
    proof {
        assert(r@ =~= spec_ext_html());
    }
    r
}

/// The bytes of "css".
pub open spec fn spec_ext_css() -> Seq<u8> {
    seq![99u8, 115, 115]
}

/// A fresh vector holding the bytes of "css".
pub fn ext_css() -> (r: Vec<u8>)
    ensures
        r@ == spec_ext_css(),
{
    let r: Vec<u8> = vec![99u8, 115, 115];
    proof {
        assert(r@ =~= spec_ext_css());
    }
    r
}

/// The bytes of "js".
pub open spec fn spec_ext_js() -> Seq<u8> {
    seq![106u8, 115]
}

/// A fresh vector holding the bytes of "js".
pub fn ext_js() -> (r: Vec<u8>)
    ensures
        r@ == spec_ext_js(),
{
    let r: Vec<u8> = vec![106u8, 115];
    proof {
        assert(r@ =~= spec_ext_js());
    }
    r
}

/// The bytes of "png".
pub open spec fn spec_ext_png() -> Seq<u8> {
    seq![112u8, 110, 103]
}

/// A fresh vector holding the bytes of "png".
pub fn ext_png() -> (r: Vec<u8>)
    ensures
        r@ == spec_ext_png(),
{
    let r: Vec<u8> = vec![112u8, 110, 103];
    proof {
        assert(r@ =~= spec_ext_png());
    }
    r
}

/// The bytes of "jpg".
pub open spec fn spec_ext_jpg() -> Seq<u8> {
    seq![106u8, 112, 103]
}

/// A fresh vector holding the bytes of "jpg".
pub fn ext_jpg() -> (r: Vec<u8>)
    ensures
        r@ == spec_ext_jpg(),
{
    let r: Vec<u8> = vec![106u8, 112, 103];
    proof {
        assert(r@ =~= spec_ext_jpg());
    }
    r
}

/// The bytes of "jpeg".
pub open spec fn spec_ext_jpeg() -> Seq<u8> {
    seq![106u8, 112, 101, 103]
}

/// A fresh vector holding the bytes of "jpeg".
pub fn ext_jpeg() -> (r: Vec<u8>)
    ensures
        r@ == spec_ext_jpeg(),
{
    let r: Vec<u8> = vec![106u8, 112, 101, 103];
    proof {
        assert(r@ =~= spec_ext_jpeg());
    }
    r
}

/// The bytes of "gif".
pub open spec fn spec_ext_gif() -> Seq<u8> {
    seq![103u8, 105, 102]
}

/// A fresh vector holding the bytes of "gif".
pub fn ext_gif() -> (r: Vec<u8>)
    ensures
        r@ == spec_ext_gif(),
{
    let r: Vec<u8> = vec![103u8, 105, 102];
    proof {
        assert(r@ =~= spec_ext_gif());
    }
    r
}

/// The bytes of "ico".
pub open spec fn spec_ext_ico() -> Seq<u8> {
    seq![105u8, 99, 111]
}

/// A fresh vector holding the bytes of "ico".
pub fn ext_ico() -> (r: Vec<u8>)
    ensures
        r@ == spec_ext_ico(),
{
    let r: Vec<u8> = vec![105u8, 99, 111];
    proof {
        assert(r@ =~= spec_ext_ico());
    }
    r
}

/// The bytes of "pdf".
pub open spec fn spec_ext_pdf() -> Seq<u8> {
    seq![112u8, 100, 102]
}

/// A fresh vector holding the bytes of "pdf".
pub fn ext_pdf() -> (r: Vec<u8>)
    ensures
        r@ == spec_ext_pdf(),
{
    let r: Vec<u8> = vec![112u8, 100, 102];
    proof {
        assert(r@ =~= spec_ext_pdf());
    }
    r
}

/// The bytes of "text/html".
pub open spec fn spec_mime_html() -> Seq<u8> {
    seq![116u8, 101, 120, 116, 47, 104, 116, 109, 108]
}

/// A fresh vector holding the bytes of "text/html".
pub fn mime_html() -> (r: Vec<u8>)
    ensures
        r@ == spec_mime_html(),
{
    let r: Vec<u8> = vec![116u8, 101, 120, 116, 47, 104, 116, 109, 108];
    proof {
        assert(r@ =~= spec_mime_html());
    }
    r
}

/// The bytes of "text/css".
pub open spec fn spec_mime_css() -> Seq<u8> {
    seq![116u8, 101, 120, 116, 47, 99, 115, 115]
}

/// A fresh vector holding the bytes of "text/css".
pub fn mime_css() -> (r: Vec<u8>)
    ensures
        r@ == spec_mime_css(),
{
    let r: Vec<u8> = vec![116u8, 101, 120, 116, 47, 99, 115, 115];
    proof {
        assert(r@ =~= spec_mime_css());
    }
    r
}

/// The bytes of "text/javascript".
pub open spec fn spec_mime_js() -> Seq<u8> {
    seq![116u8, 101, 120, 116, 47, 106, 97, 118, 97, 115, 99, 114, 105, 112, 116]
}

/// A fresh vector holding the bytes of "text/javascript".
pub fn mime_js() -> (r: Vec<u8>)
    ensures
        r@ == spec_mime_js(),
{
    let r: Vec<u8> = vec![116u8, 101, 120, 116, 47, 106, 97, 118, 97, 115, 99, 114, 105, 112, 116];
    proof {
        assert(r@ =~= spec_mime_js());
    }
    r
}

/// The bytes of "image/png".
pub open spec fn spec_mime_png() -> Seq<u8> {
    seq![105u8, 109, 97, 103, 101, 47, 112, 110, 103]
}

/// A fresh vector holding the bytes of "image/png".
pub fn mime_png() -> (r: Vec<u8>)
    ensures
        r@ == spec_mime_png(),
{
    let r: Vec<u8> = vec![105u8, 109, 97, 103, 101, 47, 112, 110, 103];
    proof {
        assert(r@ =~= spec_mime_png());
    }
    r
}

/// The bytes of "image/jpeg".
pub open spec fn spec_mime_jpeg() -> Seq<u8> {
    seq![105u8, 109, 97, 103, 101, 47, 106, 112, 101, 103]
}

/// A fresh vector holding the bytes of "image/jpeg".
pub fn mime_jpeg() -> (r: Vec<u8>)
    ensures
        r@ == spec_mime_jpeg(),
{
    let r: Vec<u8> = vec![105u8, 109, 97, 103, 101, 47, 106, 112, 101, 103];
    proof {
        assert(r@ =~= spec_mime_jpeg());
    }
    r
}

/// The bytes of "image/gif".
pub open spec fn spec_mime_gif() -> Seq<u8> {
    seq![105u8, 109, 97, 103, 101, 47, 103, 105, 102]
}

/// A fresh vector holding the bytes of "image/gif".
pub fn mime_gif() -> (r: Vec<u8>)
    ensures
        r@ == spec_mime_gif(),
{
    let r: Vec<u8> = vec![105u8, 109, 97, 103, 101, 47, 103, 105, 102];
    proof {
        assert(r@ =~= spec_mime_gif());
    }
    r
}

/// The bytes of "image/x-icon".
pub open spec fn spec_mime_ico() -> Seq<u8> {
    seq![105u8, 109, 97, 103, 101, 47, 120, 45, 105, 99, 111, 110]
}

/// A fresh vector holding the bytes of "image/x-icon".
pub fn mime_ico() -> (r: Vec<u8>)
    ensures
        r@ == spec_mime_ico(),
{
    let r: Vec<u8> = vec![105u8, 109, 97, 103, 101, 47, 120, 45, 105, 99, 111, 110];
    proof {
        assert(r@ =~= spec_mime_ico());
    }
    r
}

/// The bytes of "application/pdf".
pub open spec fn spec_mime_pdf() -> Seq<u8> {
    seq![97u8, 112, 112, 108, 105, 99, 97, 116, 105, 111, 110, 47, 112, 100, 102]
}

/// A fresh vector holding the bytes of "application/pdf".
pub fn mime_pdf() -> (r: Vec<u8>)
    ensures
        r@ == spec_mime_pdf(),
{
    let r: Vec<u8> = vec![97u8, 112, 112, 108, 105, 99, 97, 116, 105, 111, 110, 47, 112, 100, 102];
    proof {
        assert(r@ =~= spec_mime_pdf());
    }
    r
}

/// The bytes of "text/plain".
pub open spec fn spec_mime_plain() -> Seq<u8> {
    seq![116u8, 101, 120, 116, 47, 112, 108, 97, 105, 110]
}

/// A fresh vector holding the bytes of "text/plain".
pub fn mime_plain() -> (r: Vec<u8>)
    ensures
        r@ == spec_mime_plain(),
{
    let r: Vec<u8> = vec![116u8, 101, 120, 116, 47, 112, 108, 97, 105, 110];
    proof {
        assert(r@ =~= spec_mime_plain());
    }
    r
}

/// The bytes of "application/json".
pub open spec fn spec_mime_json() -> Seq<u8> {
    seq![97u8, 112, 112, 108, 105, 99, 97, 116, 105, 111, 110, 47, 106, 115, 111, 110]
}

/// A fresh vector holding the bytes of "application/json".
pub fn mime_json() -> (r: Vec<u8>)
    ensures
        r@ == spec_mime_json(),
{
    let r: Vec<u8> = vec![97u8, 112, 112, 108, 105, 99, 97, 116, 105, 111, 110, 47, 106, 115, 111, 110];
    proof {
        assert(r@ =~= spec_mime_json());
    }
    r
}

/// The bytes of "application/x-www-form-urlencoded".
pub open spec fn spec_mime_form() -> Seq<u8> {
    seq![97u8, 112, 112, 108, 105, 99, 97, 116, 105, 111, 110, 47, 120, 45, 119, 119, 119, 45, 102, 111, 114, 109, 45, 117, 114, 108, 101, 110, 99, 111, 100, 101, 100]
}

/// A fresh vector holding the bytes of "application/x-www-form-urlencoded".
pub fn mime_form() -> (r: Vec<u8>)
    ensures
        r@ == spec_mime_form(),
{
    let r: Vec<u8> = vec![97u8, 112, 112, 108, 105, 99, 97, 116, 105, 111, 110, 47, 120, 45, 119, 119, 119, 45, 102, 111, 114, 109, 45, 117, 114, 108, 101, 110, 99, 111, 100, 101, 100];
    proof {
        assert(r@ =~= spec_mime_form());
    }
    r
}

/// The bytes of "Content-Length".
pub open spec fn spec_hdr_content_length() -> Seq<u8> {
    seq![67u8, 111, 110, 116, 101, 110, 116, 45, 76, 101, 110, 103, 116, 104]
}

/// A fresh vector holding the bytes of "Content-Length".
pub fn hdr_content_length() -> (r: Vec<u8>)
    ensures
        r@ == spec_hdr_content_length(),
{
    let r: Vec<u8> = vec![67u8, 111, 110, 116, 101, 110, 116, 45, 76, 101, 110, 103, 116, 104];
    proof {
        assert(r@ =~= spec_hdr_content_length());
    }
    r
}

/// The bytes of "Content-Type".
pub open spec fn spec_hdr_content_type() -> Seq<u8> {
    seq![67u8, 111, 110, 116, 101, 110, 116, 45, 84, 121, 112, 101]
}

/// A fresh vector holding the bytes of "Content-Type".
pub fn hdr_content_type() -> (r: Vec<u8>)
    ensures
        r@ == spec_hdr_content_type(),
{
    let r: Vec<u8> = vec![67u8, 111, 110, 116, 101, 110, 116, 45, 84, 121, 112, 101];
    proof {
        assert(r@ =~= spec_hdr_content_type());
    }
    r
}

/// The bytes of "HTTP/1.1 ".
pub open spec fn spec_status_line_prefix() -> Seq<u8> {
    seq![72u8, 84, 84, 80, 47, 49, 46, 49, 32]
}

/// A fresh vector holding the bytes of "HTTP/1.1 ".
pub fn status_line_prefix() -> (r: Vec<u8>)
    ensures
        r@ == spec_status_line_prefix(),
{
    let r: Vec<u8> = vec![72u8, 84, 84, 80, 47, 49, 46, 49, 32];
    proof {
        assert(r@ =~= spec_status_line_prefix());
    }
    r
}

/// The bytes of ": ".
pub open spec fn spec_header_sep() -> Seq<u8> {
    seq![58u8, 32]
}

/// A fresh vector holding the bytes of ": ".
pub fn header_sep() -> (r: Vec<u8>)
    ensures
        r@ == spec_header_sep(),
{
    let r: Vec<u8> = vec![58u8, 32];
    proof {
        assert(r@ =~= spec_header_sep());
    }
    r
}

/// The bytes of "\r\n".
pub open spec fn spec_crlf() -> Seq<u8> {
    seq![13u8, 10]
}

/// A fresh vector holding the bytes of "\r\n".
pub fn crlf() -> (r: Vec<u8>)
    ensures
        r@ == spec_crlf(),
{
    let r: Vec<u8> = vec![13u8, 10];
    proof {
        assert(r@ =~= spec_crlf());
    }
    r
}

/// The bytes of "index.html".
pub open spec fn spec_index_html() -> Seq<u8> {
    seq![105u8, 110, 100, 101, 120, 46, 104, 116, 109, 108]
}

/// A fresh vector holding the bytes of "index.html".
pub fn index_html() -> (r: Vec<u8>)
    ensures
        r@ == spec_index_html(),
{
    let r: Vec<u8> = vec![105u8, 110, 100, 101, 120, 46, 104, 116, 109, 108];
    proof {
        assert(r@ =~= spec_index_html());
    }
    r
}

/// The bytes of "Invalid Content-Type".
pub open spec fn spec_msg_invalid_content_type() -> Seq<u8> {
    seq![73u8, 110, 118, 97, 108, 105, 100, 32, 67, 111, 110, 116, 101, 110, 116, 45, 84, 121, 112, 101]
}

/// A fresh vector holding the bytes of "Invalid Content-Type".
pub fn msg_invalid_content_type() -> (r: Vec<u8>)
    ensures
        r@ == spec_msg_invalid_content_type(),
{
    let r: Vec<u8> = vec![73u8, 110, 118, 97, 108, 105, 100, 32, 67, 111, 110, 116, 101, 110, 116, 45, 84, 121, 112, 101];
    proof {
        assert(r@ =~= spec_msg_invalid_content_type());
    }
    r
}

/// The bytes of "JSON Error: ".
pub open spec fn spec_msg_json_error_prefix() -> Seq<u8> {
    seq![74u8, 83, 79, 78, 32, 69, 114, 114, 111, 114, 58, 32]
}

/// A fresh vector holding the bytes of "JSON Error: ".
pub fn msg_json_error_prefix() -> (r: Vec<u8>)
    ensures
        r@ == spec_msg_json_error_prefix(),
{
    let r: Vec<u8> = vec![74u8, 83, 79, 78, 32, 69, 114, 114, 111, 114, 58, 32];
    proof {
        assert(r@ =~= spec_msg_json_error_prefix());
    }
    r
}

/// The bytes of "Empty Body".
pub open spec fn spec_msg_empty_body() -> Seq<u8> {
    seq![69u8, 109, 112, 116, 121, 32, 66, 111, 100, 121]
}

/// A fresh vector holding the bytes of "Empty Body".
pub fn msg_empty_body() -> (r: Vec<u8>)
    ensures
        r@ == spec_msg_empty_body(),
{
    let r: Vec<u8> = vec![69u8, 109, 112, 116, 121, 32, 66, 111, 100, 121];
    proof {
        assert(r@ =~= spec_msg_empty_body());
    }
    r
}

/// The bytes of "Malformed Body".
pub open spec fn spec_msg_malformed_body() -> Seq<u8> {
    seq![77u8, 97, 108, 102, 111, 114, 109, 101, 100, 32, 66, 111, 100, 121]
}

/// A fresh vector holding the bytes of "Malformed Body".
pub fn msg_malformed_body() -> (r: Vec<u8>)
    ensures
        r@ == spec_msg_malformed_body(),
{
    let r: Vec<u8> = vec![77u8, 97, 108, 102, 111, 114, 109, 101, 100, 32, 66, 111, 100, 121];
    proof {
        assert(r@ =~= spec_msg_malformed_body());
    }
    r
}

/// The bytes of "GET".
pub open spec fn spec_tok_get() -> Seq<u8> {
    seq![71u8, 69, 84]
}

/// A fresh vector holding the bytes of "GET".
pub fn tok_get() -> (r: Vec<u8>)
    ensures
        r@ == spec_tok_get(),
{
    let r: Vec<u8> = vec![71u8, 69, 84];
    proof {
        assert(r@ =~= spec_tok_get());
    }
    r
}

/// The bytes of "POST".
pub open spec fn spec_tok_post() -> Seq<u8> {
    seq![80u8, 79, 83, 84]
}

/// A fresh vector holding the bytes of "POST".
pub fn tok_post() -> (r: Vec<u8>)
    ensures
        r@ == spec_tok_post(),
{
    let r: Vec<u8> = vec![80u8, 79, 83, 84];
    proof {
        assert(r@ =~= spec_tok_post());
    }
    r
}

/// The bytes of "PUT".
pub open spec fn spec_tok_put() -> Seq<u8> {
    seq![80u8, 85, 84]
}

/// A fresh vector holding the bytes of "PUT".
pub fn tok_put() -> (r: Vec<u8>)
    ensures
        r@ == spec_tok_put(),
{
    let r: Vec<u8> = vec![80u8, 85, 84];
    proof {
        assert(r@ =~= spec_tok_put());
    }
    r
}

/// The bytes of "DELETE".
pub open spec fn spec_tok_delete() -> Seq<u8> {
    seq![68u8, 69, 76, 69, 84, 69]
}

/// A fresh vector holding the bytes of "DELETE".
pub fn tok_delete() -> (r: Vec<u8>)
    ensures
        r@ == spec_tok_delete(),
{
    let r: Vec<u8> = vec![68u8, 69, 76, 69, 84, 69];
    proof {
        assert(r@ =~= spec_tok_delete());
    }
    r
}

/// The bytes of "PATCH".
pub open spec fn spec_tok_patch() -> Seq<u8> {
    seq![80u8, 65, 84, 67, 72]
}

/// A fresh vector holding the bytes of "PATCH".
pub fn tok_patch() -> (r: Vec<u8>)
    ensures
        r@ == spec_tok_patch(),
{
    let r: Vec<u8> = vec![80u8, 65, 84, 67, 72];
    proof {
        assert(r@ =~= spec_tok_patch());
    }
    r
}

/// The bytes of "HEAD".
pub open spec fn spec_tok_head() -> Seq<u8> {
    seq![72u8, 69, 65, 68]
}

/// A fresh vector holding the bytes of "HEAD".
pub fn tok_head() -> (r: Vec<u8>)
    ensures
        r@ == spec_tok_head(),
{
    let r: Vec<u8> = vec![72u8, 69, 65, 68];
    proof {
        assert(r@ =~= spec_tok_head());
    }
    r
}

/// The bytes of "OPTIONS".
pub open spec fn spec_tok_options() -> Seq<u8> {
    seq![79u8, 80, 84, 73, 79, 78, 83]
}

/// A fresh vector holding the bytes of "OPTIONS".
pub fn tok_options() -> (r: Vec<u8>)
    ensures
        r@ == spec_tok_options(),
{
    let r: Vec<u8> = vec![79u8, 80, 84, 73, 79, 78, 83];
    proof {
        assert(r@ =~= spec_tok_options());
    }
    r
}

/// The bytes of "TRACE".
pub open spec fn spec_tok_trace() -> Seq<u8> {
    seq![84u8, 82, 65, 67, 69]
}

/// A fresh vector holding the bytes of "TRACE".
pub fn tok_trace() -> (r: Vec<u8>)
    ensures
        r@ == spec_tok_trace(),
{
    let r: Vec<u8> = vec![84u8, 82, 65, 67, 69];
    proof {
        assert(r@ =~= spec_tok_trace());
    }
    r
}

/// The bytes of "CONNECT".
pub open spec fn spec_tok_connect() -> Seq<u8> {
    seq![67u8, 79, 78, 78, 69, 67, 84]
}

/// A fresh vector holding the bytes of "CONNECT".
pub fn tok_connect() -> (r: Vec<u8>)
    ensures
        r@ == spec_tok_connect(),
{
    let r: Vec<u8> = vec![67u8, 79, 78, 78, 69, 67, 84];
    proof {
        assert(r@ =~= spec_tok_connect());
    }
    r
}

} // verus!
