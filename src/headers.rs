use vstd::prelude::*;

use crate::bytes::copy_bytes;
use crate::intercept::ascii_lower;

verus! {

broadcast use vstd::seq_lib::group_filter_ensures;

/// The contents of a header set: each header's name and value, in order.
pub open spec fn headers_view(h: Seq<(Vec<u8>, Vec<u8>)>) -> Seq<(Seq<u8>, Seq<u8>)> {
    h.map_values(|p: (Vec<u8>, Vec<u8>)| (p.0@, p.1@))
}

/// The name `host`, in any ASCII case.
pub open spec fn is_host_name(name: Seq<u8>) -> bool {
    &&& name.len() == 4
    &&& ascii_lower(name[0]) == 104u8
    &&& ascii_lower(name[1]) == 111u8
    &&& ascii_lower(name[2]) == 115u8
    &&& ascii_lower(name[3]) == 116u8
}

/// Keeps the headers other than `Host`.
pub open spec fn not_host() -> spec_fn((Seq<u8>, Seq<u8>)) -> bool {
    |p: (Seq<u8>, Seq<u8>)| !is_host_name(p.0)
}

fn lower_byte(b: u8) -> (r: u8)
    ensures
        r == ascii_lower(b),
{
    if 65u8 <= b && b <= 90u8 {
        b + 32
    } else {
        b
    }
}

/// Whether a header name is `Host`, ignoring ASCII case.
pub fn is_host_header(name: &[u8]) -> (r: bool)
    ensures
        r == is_host_name(name@),
{
    name.len() == 4 && lower_byte(name[0]) == 104u8 && lower_byte(name[1]) == 111u8
        && lower_byte(name[2]) == 115u8 && lower_byte(name[3]) == 116u8
}

/// A copy of a header set.
pub fn copy_headers(h: &Vec<(Vec<u8>, Vec<u8>)>) -> (r: Vec<(Vec<u8>, Vec<u8>)>)
    ensures
        headers_view(r@) == headers_view(h@),
{
    let mut out: Vec<(Vec<u8>, Vec<u8>)> = Vec::new();
    let mut i: usize = 0;
    while i < h.len()
        invariant
            i <= h@.len(),
            headers_view(out@) == headers_view(h@).take(i as int),
        decreases h@.len() - i,
    {
        let name = copy_bytes(h[i].0.as_slice());
        let value = copy_bytes(h[i].1.as_slice());
        let ghost before = out@;
        out.push((name, value));
        assert(headers_view(out@) =~= headers_view(before).push(headers_view(h@)[i as int]));
        assert(headers_view(h@).take(i + 1) =~= headers_view(h@).take(i as int).push(
            headers_view(h@)[i as int],
        ));
        i += 1;
    }
    assert(headers_view(h@).take(h@.len() as int) =~= headers_view(h@));
    out
}

/// The headers that an outbound request carries: those of the inbound
/// request, in order, without `Host` (the upstream's authority stands for it).
pub fn forwarded_headers(h: &Vec<(Vec<u8>, Vec<u8>)>) -> (r: Vec<(Vec<u8>, Vec<u8>)>)
    ensures
        headers_view(r@) == headers_view(h@).filter(not_host()),
{
    let mut out: Vec<(Vec<u8>, Vec<u8>)> = Vec::new();
    let mut i: usize = 0;
    while i < h.len()
        invariant
            i <= h@.len(),
            headers_view(out@) == headers_view(h@).take(i as int).filter(not_host()),
        decreases h@.len() - i,
    {
        let host = is_host_header(h[i].0.as_slice());
        proof {
            assert(headers_view(h@).take(i + 1) =~= headers_view(h@).take(i as int).push(
                headers_view(h@)[i as int],
            ));
            headers_view(h@).take(i as int).lemma_filter_push(headers_view(h@)[i as int], not_host());
        }
        if !host {
            let name = copy_bytes(h[i].0.as_slice());
            let value = copy_bytes(h[i].1.as_slice());
            let ghost before = out@;
            out.push((name, value));
            assert(headers_view(out@) =~= headers_view(before).push(headers_view(h@)[i as int]));
        }
        i += 1;
    }
    assert(headers_view(h@).take(h@.len() as int) =~= headers_view(h@));
    out
}

} // verus!
