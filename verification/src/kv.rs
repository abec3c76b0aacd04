//! Splitting `k1=v1&k2=v2` byte strings into key/value pairs: the shape
//! shared by the request line's query string and the form body. Segments are
//! separated by `&`; each segment is split on its first `=`, and a segment
//! without `=` makes the whole string malformed.

use vstd::prelude::*;
use crate::pairs::raw_view;
use crate::scan::{scan_byte, lemma_scan_byte, find_byte, copy_range};

verus! {

/// The pairs of `s` from position `i` on, or `None` when some segment has no
/// `=`. The segment starting at `i` runs to the next `&` (or the end); its
/// key is everything before its first `=`, its value everything after.
pub open spec fn spec_kv_from(s: Seq<u8>, i: int) -> Option<Seq<(Seq<u8>, Seq<u8>)>>
    decreases s.len() - i,
{
    if !(0 <= i <= s.len()) {
        None
    } else {
        let e = scan_byte(s, i, 38);
        let q = scan_byte(s, i, 61);
        if !(i <= q && q < e && e <= s.len()) {
            None
        } else {
            let pair = (s.subrange(i, q), s.subrange(q + 1, e));
            if e == s.len() {
                Some(seq![pair])
            } else {
                match spec_kv_from(s, e + 1) {
                    None => None,
                    Some(rest) => Some(seq![pair] + rest),
                }
            }
        }
    }
}

/// The pairs of `v` from position `from` on, as `spec_kv_from` gives them,
/// or `None` exactly when `spec_kv_from` is `None`.
pub fn parse_kv_pairs(v: &Vec<u8>, from: usize) -> (r: Option<Vec<(Vec<u8>, Vec<u8>)>>)
    requires
        from <= v@.len(),
    ensures
        match r {
            Some(ps) => spec_kv_from(v@, from as int) == Some(raw_view(ps@)),
            None => spec_kv_from(v@, from as int) is None,
        },
{
    let mut out: Vec<(Vec<u8>, Vec<u8>)> = Vec::new();
    let mut i = from;
    loop
        invariant
            from <= i <= v@.len(),
            spec_kv_from(v@, from as int) == (match spec_kv_from(v@, i as int) {
                None => None::<Seq<(Seq<u8>, Seq<u8>)>>,
                Some(rest) => Some(raw_view(out@) + rest),
            }),
        decreases v@.len() - i,
    {
        let e = find_byte(v, i, 38);
        let q = find_byte(v, i, 61);
        proof {
            lemma_scan_byte(v@, i as int, 38);
            lemma_scan_byte(v@, i as int, 61);
        }
        if q >= e {
            assert(spec_kv_from(v@, i as int) is None);
            return None;
        }
        let key = copy_range(v, i, q);
        let value = copy_range(v, q + 1, e);
        let ghost out0 = raw_view(out@);
        let ghost pair = (key@, value@);
        out.push((key, value));
        proof {
            assert(raw_view(out@) =~= out0 + seq![pair]);
        }
        if e == v.len() {
            proof {
                assert(spec_kv_from(v@, i as int) == Some(seq![pair]));
                assert(out0 + seq![pair] =~= raw_view(out@));
            }
            return Some(out);
        }
        proof {
            assert(spec_kv_from(v@, i as int) == (match spec_kv_from(v@, e + 1) {
                None => None::<Seq<(Seq<u8>, Seq<u8>)>>,
                Some(rest) => Some(seq![pair] + rest),
            }));
            assert forall|rest: Seq<(Seq<u8>, Seq<u8>)>| (out0 + seq![pair]) + rest =~= out0 + (
            seq![pair] + rest) by {}
        }
        i = e + 1;
    }
}

} // verus!
