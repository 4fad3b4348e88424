//! The frame that carries a finished picture to the user interface:
//! a 4-byte little-endian length of the picture PNG, the picture PNG,
//! then the QR-code PNG.
use vstd::prelude::*;

verus! {

/// The four low bytes of `n`, least significant first: what
/// `(n as u32).to_le_bytes()` yields.
pub open spec fn le32(n: nat) -> Seq<u8> {
    seq![
        (n % 256) as u8,
        ((n / 256) % 256) as u8,
        ((n / 65536) % 256) as u8,
        ((n / 16777216) % 256) as u8,
    ]
}

/// The value that four little-endian bytes stand for.
pub open spec fn le32_value(b: Seq<u8>) -> nat {
    (b[0] as nat) + 256 * (b[1] as nat) + 65536 * (b[2] as nat) + 16777216 * (b[3] as nat)
}

/// The framed payload for a picture PNG and a QR-code PNG.
pub open spec fn payload_spec(image: Seq<u8>, qr: Seq<u8>) -> Seq<u8> {
    le32(image.len()) + image + qr
}

/// The bytes of a buffer that may not be there.
pub open spec fn bytes_view(b: Option<Vec<u8>>) -> Option<Seq<u8>> {
    match b {
        Some(v) => Some(v@),
        None => None,
    }
}

/// Appends every byte of `src` to `dst`.
fn push_all(dst: &mut Vec<u8>, src: &Vec<u8>)
    ensures
        final(dst)@ == old(dst)@ + src@,
{
    let ghost start = dst@;
    let mut i: usize = 0;
    while i < src.len()
        invariant
            i <= src.len(),
            dst@ == start + src@.subrange(0, i as int),
        decreases src.len() - i,
    {
        dst.push(src[i]);
        i = i + 1;
        assert(dst@ =~= start + src@.subrange(0, i as int));
    }
    assert(src@.subrange(0, src@.len() as int) =~= src@);
}

/// Frames a picture PNG and a QR-code PNG into one payload: the picture's
/// length as 4 little-endian bytes (wrapping at 2^32, as a `u32` cast does),
/// then the picture, then the QR code.
pub fn create_payload(image_bytes: Vec<u8>, qr_bytes: Vec<u8>) -> (combined: Vec<u8>)
    ensures
        combined@ == payload_spec(image_bytes@, qr_bytes@),
{
    let n = image_bytes.len();
    let mut combined: Vec<u8> = Vec::new();
    combined.push((n % 256) as u8);
    combined.push(((n / 256) % 256) as u8);
    combined.push(((n / 65536) % 256) as u8);
    combined.push(((n / 16777216) % 256) as u8);
    assert(combined@ =~= le32(n as nat));
    push_all(&mut combined, &image_bytes);
    push_all(&mut combined, &qr_bytes);
    combined
}

/// The low four bytes of a length below 2^32 read back as that length.
proof fn lemma_le32_value(n: nat)
    requires
        n < 0x1_0000_0000,
    ensures
        le32_value(le32(n)) == n,
{
    let b = le32(n);
    assert(b[0] as nat == n % 256);
    assert(b[1] as nat == (n / 256) % 256);
    assert(b[2] as nat == (n / 65536) % 256);
    assert(b[3] as nat == (n / 16777216) % 256);
    assert((n % 256) + 256 * ((n / 256) % 256) + 65536 * ((n / 65536) % 256) + 16777216 * ((n
        / 16777216) % 256) == n) by (nonlinear_arith)
        requires
            n < 0x1_0000_0000,
    ;
}

/// A payload can be taken apart again: its first four bytes read back as the
/// picture's length (for a picture shorter than 2^32 bytes), the picture
/// follows them, and the QR code fills the rest.
pub proof fn lemma_payload_roundtrip(image: Seq<u8>, qr: Seq<u8>)
    requires
        image.len() < 0x1_0000_0000,
    ensures
        ({
            let p = payload_spec(image, qr);
            &&& p.len() == 4 + image.len() + qr.len()
            &&& le32_value(p.take(4)) == image.len()
            &&& p.subrange(4, 4 + image.len() as int) == image
            &&& p.skip(4 + image.len() as int) == qr
        }),
{
    let p = payload_spec(image, qr);
    lemma_le32_value(image.len());
    assert(p.take(4) =~= le32(image.len()));
    assert(p.subrange(4, 4 + image.len() as int) =~= image);
    assert(p.skip(4 + image.len() as int) =~= qr);
}

} // verus!
