//! Content-type inference from a file path's extension: the mapping used
//! both by file-backed response bodies and by static resolution.

use vstd::prelude::*;
use crate::pairs::bytes_eq;
use crate::scan::copy_range;
use crate::lit::{
    spec_ext_html, spec_ext_css, spec_ext_js, spec_ext_png, spec_ext_jpg, spec_ext_jpeg,
    spec_ext_gif, spec_ext_ico, spec_ext_pdf, spec_mime_html, spec_mime_css, spec_mime_js,
    spec_mime_png, spec_mime_jpeg, spec_mime_gif, spec_mime_ico, spec_mime_pdf, spec_mime_plain,
    ext_html, ext_css, ext_js, ext_png, ext_jpg, ext_jpeg, ext_gif, ext_ico, ext_pdf, mime_html,
    mime_css, mime_js, mime_png, mime_jpeg, mime_gif, mime_ico, mime_pdf, mime_plain,
};

verus! {

/// Greatest position strictly below `i` holding `b`, or -1 when `b` does not
/// occur before `i`.
pub open spec fn last_byte_before(s: Seq<u8>, i: int, b: u8) -> int
    decreases i,
{
    if i <= 0 {
        -1
    } else if s[i - 1] == b {
        i - 1
    } else {
        last_byte_before(s, i - 1, b)
    }
}

/// One past the last occurrence of `b` in `v`, or 0 when `b` does not occur,
/// as `last_byte_before` gives it.
pub fn find_last_byte(v: &Vec<u8>, b: u8) -> (r: usize)
    ensures
        r as int == last_byte_before(v@, v@.len() as int, b) + 1,
{
    let mut e = v.len();
    while e > 0
        invariant
            0 <= e <= v@.len(),
            last_byte_before(v@, v@.len() as int, b) == last_byte_before(v@, e as int, b),
        decreases e,
    {
        if v[e - 1] == b {
            assert(last_byte_before(v@, e as int, b) == e - 1);
            return e;
        }
        assert(last_byte_before(v@, e as int, b) == last_byte_before(v@, e - 1, b));
        e = e - 1;
    }
    assert(last_byte_before(v@, 0, b) == -1);
    0
}

/// The extension of `path`: the bytes after the last `.`, provided that dot
/// falls after the last `/`; `None` otherwise.
pub open spec fn spec_extension(path: Seq<u8>) -> Option<Seq<u8>> {
    let dot = last_byte_before(path, path.len() as int, 46);
    let slash = last_byte_before(path, path.len() as int, 47);
    if dot > slash {
        Some(path.subrange(dot + 1, path.len() as int))
    } else {
        None
    }
}

/// The content type inferred from the extension of `path`; `text/plain` for
/// an unknown extension or none at all.
pub open spec fn spec_mime_of(path: Seq<u8>) -> Seq<u8> {
    match spec_extension(path) {
        None => spec_mime_plain(),
        Some(e) => if e == spec_ext_html() {
            spec_mime_html()
        } else if e == spec_ext_css() {
            spec_mime_css()
        } else if e == spec_ext_js() {
            spec_mime_js()
        } else if e == spec_ext_png() {
            spec_mime_png()
        } else if e == spec_ext_jpg() || e == spec_ext_jpeg() {
            spec_mime_jpeg()
        } else if e == spec_ext_gif() {
            spec_mime_gif()
        } else if e == spec_ext_ico() {
            spec_mime_ico()
        } else if e == spec_ext_pdf() {
            spec_mime_pdf()
        } else {
            spec_mime_plain()
        },
    }
}

/// The content type serving a file at `path` declares, inferred from the
/// path's extension as `spec_mime_of` gives it.
pub fn path_to_mimetype(path: &Vec<u8>) -> (r: Vec<u8>)
    ensures
        r@ == spec_mime_of(path@),
{
    proof {
        lemma_last_byte_before(path@, path@.len() as int, 46);
    }
    let dot = find_last_byte(path, 46);
    let slash = find_last_byte(path, 47);
    if dot <= slash {
        return mime_plain();
    }
    let e = copy_range(path, dot, path.len());
    if bytes_eq(&e, &ext_html()) {
        mime_html()
    } else if bytes_eq(&e, &ext_css()) {
        mime_css()
    } else if bytes_eq(&e, &ext_js()) {
        mime_js()
    } else if bytes_eq(&e, &ext_png()) {
        mime_png()
    } else if bytes_eq(&e, &ext_jpg()) {
        mime_jpeg()
    } else if bytes_eq(&e, &ext_jpeg()) {
        mime_jpeg()
    } else if bytes_eq(&e, &ext_gif()) {
        mime_gif()
    } else if bytes_eq(&e, &ext_ico()) {
        mime_ico()
    } else if bytes_eq(&e, &ext_pdf()) {
        mime_pdf()
    } else {
        mime_plain()
    }
}

/// What `last_byte_before` returns: the last position below `i` holding `b`,
/// with no occurrence of `b` after it.
pub proof fn lemma_last_byte_before(s: Seq<u8>, i: int, b: u8)
    requires
        0 <= i <= s.len(),
    ensures
        -1 <= last_byte_before(s, i, b) < i,
        last_byte_before(s, i, b) >= 0 ==> s[last_byte_before(s, i, b)] == b,
        forall|j: int| last_byte_before(s, i, b) < j < i ==> s[j] != b,
    decreases i,
{
    if i > 0 && s[i - 1] != b {
        lemma_last_byte_before(s, i - 1, b);
    }
}

} // verus!
