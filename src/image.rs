//! The header of an uncompressed true-colour TGA image.
use vstd::prelude::*;

verus! {

/// The two bytes of the low 16 bits of `v`, least significant first.
pub open spec fn le16(v: nat) -> Seq<u8> {
    seq![((v % 65536) % 256) as u8, ((v % 65536) / 256) as u8]
}

/// The 18-byte header: image type 2 (uncompressed true colour), width and
/// height as 16-bit little-endian numbers (only their low 16 bits are kept),
/// 24 bits per pixel, origin at the bottom left.
pub open spec fn tga_header_bytes(width: nat, height: nat) -> Seq<u8> {
    seq![0u8, 0, 2, 0, 0, 0, 0, 0, 0, 0, 0, 0] + le16(width) + le16(height) + seq![24u8, 0]
}

pub fn tga_header(width: usize, height: usize) -> (r: Vec<u8>)
    ensures
        r@ == tga_header_bytes(width as nat, height as nat),
{
    let w = width % 65536;
    let h = height % 65536;
    let mut r: Vec<u8> = vec![0u8, 0, 2, 0, 0, 0, 0, 0, 0, 0, 0, 0];
    r.push((w % 256) as u8);
    r.push((w / 256) as u8);
    r.push((h % 256) as u8);
    r.push((h / 256) as u8);
    r.push(24);
    r.push(0);
    assert(r@ =~= tga_header_bytes(width as nat, height as nat));
    r
}

} // verus!
