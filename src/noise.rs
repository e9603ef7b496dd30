//! The byte stream whose entropy tells a noise-like channel from a signal:
//! differences of quantized samples, differenced twice more.
use vstd::prelude::*;

verus! {

/// `a - b` modulo 256.
pub open spec fn byte_sub(a: u8, b: u8) -> u8 {
    ((a as int - b as int + 256) % 256) as u8
}

/// Backward difference: each element is the previous one (zero before the
/// first) minus the current one, modulo 256.
pub open spec fn diffed(v: Seq<u8>) -> Seq<u8> {
    Seq::new(v.len(), |i: int| byte_sub(if i == 0 { 0u8 } else { v[i - 1] }, v[i]))
}

/// The element-wise difference `a[i] - b[i]` modulo 256, over the shorter
/// length.
pub open spec fn zip_sub(a: Seq<u8>, b: Seq<u8>) -> Seq<u8> {
    let n = if a.len() <= b.len() { a.len() } else { b.len() };
    Seq::new(n, |i: int| byte_sub(a[i], b[i]))
}

/// The byte stream of the noise test.
pub open spec fn spec_signature(diff_quantized: Seq<u8>, quantized: Seq<u8>) -> Seq<u8> {
    diffed(diffed(zip_sub(diff_quantized, quantized)))
}

fn sub_byte(a: u8, b: u8) -> (r: u8)
    ensures
        r == byte_sub(a, b),
{
    if a >= b {
        a - b
    } else {
        (256u16 + a as u16 - b as u16) as u8
    }
}

/// The backward difference of a byte stream.
pub fn backward_diff(v: &Vec<u8>) -> (r: Vec<u8>)
    ensures
        r@ == diffed(v@),
{
    let mut r: Vec<u8> = Vec::new();
    let mut prev: u8 = 0;
    let mut i: usize = 0;
    while i < v.len()
        invariant
            i <= v@.len(),
            prev == if i == 0 { 0u8 } else { v@[i - 1] },
            r@ == diffed(v@).take(i as int),
        decreases v@.len() - i,
    {
        let x = v[i];
        r.push(sub_byte(prev, x));
        prev = x;
        i = i + 1;
        assert(r@ =~= diffed(v@).take(i as int));
    }
    assert(r@ =~= diffed(v@));
    r
}

/// The bytes whose entropy the noise test measures: the quantized twice
/// differenced samples minus the quantized samples, then differenced twice.
pub fn signature_bytes(diff_quantized: &Vec<u8>, quantized: &Vec<u8>) -> (r: Vec<u8>)
    ensures
        r@ == spec_signature(diff_quantized@, quantized@),
{
    let ghost z = zip_sub(diff_quantized@, quantized@);
    let n = if diff_quantized.len() <= quantized.len() { diff_quantized.len() } else { quantized.len() };
    let mut zs: Vec<u8> = Vec::new();
    let mut i: usize = 0;
    while i < n
        invariant
            n == z.len(),
            z == zip_sub(diff_quantized@, quantized@),
            i <= n,
            zs@ == z.take(i as int),
        decreases n - i,
    {
        zs.push(sub_byte(diff_quantized[i], quantized[i]));
        i = i + 1;
        assert(zs@ =~= z.take(i as int));
    }
    assert(zs@ =~= z);
    let once = backward_diff(&zs);
    backward_diff(&once)
}

} // verus!
