//! Unpacking of gzip-compressed model files embedded in the binary.

use vstd::prelude::*;

verus! {

/// The value of the gzip ISIZE trailer: the last four bytes, little-endian.
pub open spec fn gzip_isize(data: Seq<u8>) -> nat
    recommends
        data.len() >= 4,
{
    let n = data.len() as int;
    (data[n - 4] as nat) + (data[n - 3] as nat) * 0x100 + (data[n - 2] as nat) * 0x1_0000
        + (data[n - 1] as nat) * 0x100_0000
}

/// What zenflate's `Decompressor::gzip_decompress` leaves in an output buffer
/// of `capacity` zero bytes when it inflates the gzip member `compressed`
/// without interruption, or `None` when it reports an error.
pub uninterp spec fn gzip_inflated(compressed: Seq<u8>, capacity: nat) -> Option<Seq<u8>>;

/// Inflates `compressed` with `zenflate::Decompressor::gzip_decompress` into a
/// fresh buffer of `capacity` zero bytes, never asking it to stop.
///
/// Trusted: the result is named by `gzip_inflated` of the input and the
/// capacity, and on success it is the whole output buffer, whose length the
/// call does not change. Whether the call succeeds is left to zenflate.
#[verifier::external_body]
fn inflate_gzip(compressed: &[u8], capacity: usize) -> (r: Option<Vec<u8>>)
    ensures
        r is Some <==> gzip_inflated(compressed@, capacity as nat) is Some,
        r matches Some(out) ==> {
            &&& out@ == gzip_inflated(compressed@, capacity as nat)->0
            &&& out@.len() == capacity
        },
{
    let mut output = vec![0u8; capacity];
    let mut decompressor = zenflate::Decompressor::new();
    match decompressor.gzip_decompress(compressed, &mut output, enough::Unstoppable) {
        Ok(_) => Some(output),
        Err(_) => None,
    }
}

/// Decompress a gzip-compressed model embedded via `include_bytes!`.
///
/// Reads the original size from the gzip ISIZE trailer (last 4 bytes) and
/// inflates into a buffer of exactly that size. Returns `None` when the data
/// cannot be inflated into that buffer.
pub fn decompress_gz(compressed: &[u8]) -> (r: Option<Vec<u8>>)
    requires
        compressed@.len() >= 4,
    ensures
        r is Some <==> gzip_inflated(compressed@, gzip_isize(compressed@)) is Some,
        r matches Some(out) ==> {
            &&& out@ == gzip_inflated(compressed@, gzip_isize(compressed@))->0
            &&& out@.len() == gzip_isize(compressed@)
            &&& trailer_encodes_len(compressed@, out@.len())
        },
{
    let len = compressed.len();
    let b0 = compressed[len - 4] as u32;
    let b1 = compressed[len - 3] as u32;
    let b2 = compressed[len - 2] as u32;
    let b3 = compressed[len - 1] as u32;
    let orig_size: u32 = b0 + b1 * 0x100 + b2 * 0x1_0000 + b3 * 0x100_0000;
    proof {
        lemma_isize_is_trailer_value(compressed@);
    }
    inflate_gzip(compressed, orig_size as usize)
}

/// The last four bytes of `data` are the little-endian base-256 digits of
/// `len`: its lowest byte first, its highest byte last, and `len` has no
/// digit beyond them.
pub open spec fn trailer_encodes_len(data: Seq<u8>, len: nat) -> bool
    recommends
        data.len() >= 4,
{
    let n = data.len() as int;
    &&& len % 0x100 == data[n - 4] as nat
    &&& (len / 0x100) % 0x100 == data[n - 3] as nat
    &&& (len / 0x1_0000) % 0x100 == data[n - 2] as nat
    &&& len / 0x100_0000 == data[n - 1] as nat
}

proof fn lemma_le_digits(b0: u8, b1: u8, b2: u8, b3: u8, x: u32)
    by (bit_vector)
    requires
        x == b0 as u32 + b1 as u32 * 0x100 + b2 as u32 * 0x1_0000 + b3 as u32 * 0x100_0000,
    ensures
        x % 0x100 == b0 as u32,
        (x / 0x100) % 0x100 == b1 as u32,
        (x / 0x1_0000) % 0x100 == b2 as u32,
        x / 0x100_0000 == b3 as u32,
{
}

/// The size read from the trailer is the full 32-bit little-endian value of
/// the last four bytes: each trailer byte is the matching base-256 digit of
/// the size, so every one of the four bytes determines part of it.
pub proof fn lemma_isize_is_trailer_value(data: Seq<u8>)
    requires
        data.len() >= 4,
    ensures
        gzip_isize(data) <= u32::MAX,
        trailer_encodes_len(data, gzip_isize(data)),
        forall|len: nat| len <= u32::MAX && trailer_encodes_len(data, len) ==> len == gzip_isize(data),
{
    let n = data.len() as int;
    let b0 = data[n - 4];
    let b1 = data[n - 3];
    let b2 = data[n - 2];
    let b3 = data[n - 1];
    let v = gzip_isize(data);
    assert(v <= u32::MAX);
    let x = v as u32;
    assert(x as nat == v);
    lemma_le_digits(b0, b1, b2, b3, x);
    assert forall|len: nat| len <= u32::MAX && trailer_encodes_len(data, len) implies len == v by {
        let y = len as u32;
        lemma_digits_determine(y, b0, b1, b2, b3);
    }
}

proof fn lemma_digits_determine(y: u32, b0: u8, b1: u8, b2: u8, b3: u8)
    by (bit_vector)
    requires
        y % 0x100 == b0 as u32,
        (y / 0x100) % 0x100 == b1 as u32,
        (y / 0x1_0000) % 0x100 == b2 as u32,
        y / 0x100_0000 == b3 as u32,
    ensures
        y == b0 as u32 + b1 as u32 * 0x100 + b2 as u32 * 0x1_0000 + b3 as u32 * 0x100_0000,
{
}

} // verus!
