use vstd::prelude::*;

use crate::types::VIdList;
use vstd::bytes::{spec_u32_to_le_bytes, spec_u64_to_le_bytes};

verus! {

/// The elements of a list, each as four little-endian bytes.
pub open spec fn u32s_le(s: Seq<u32>) -> Seq<u8>
    decreases s.len(),
{
    if s.len() == 0 {
        Seq::empty()
    } else {
        u32s_le(s.drop_last()) + spec_u32_to_le_bytes(s.last())
    }
}

/// The bincode form of a list of `u32` under bincode's default options: its length as a
/// little-endian `u64`, then its elements.
pub open spec fn bincode_list(s: Seq<u32>) -> Seq<u8> {
    spec_u64_to_le_bytes(s.len() as u64) + u32s_le(s)
}

/// What LZ4 block compression, with the source length prepended, makes of `b`.
pub uninterp spec fn lz4_block(b: Seq<u8>) -> Seq<u8>;

/// Relies on `bincode::serialize` (default options: fixed-size little-endian integers,
/// a sequence prefixed by its length as `u64`) for a `Vec<u32>`, which cannot fail.
#[verifier::external_body]
fn bincode_serialize_list(list: &Vec<u32>) -> (r: Vec<u8>)
    ensures
        r@ == bincode_list(list@),
{
    bincode::serialize(list).unwrap_or_default()
}

/// Relies on `bincode::deserialize` for a `Vec<u32>`: the bincode form of a list reads back
/// as that list.
#[verifier::external_body]
fn bincode_deserialize_list(bytes: &[u8]) -> (r: Option<Vec<u32>>)
    ensures
        forall|x: Seq<u32>| bytes@ == bincode_list(x) ==> r is Some && r.unwrap()@ == x,
{
    bincode::deserialize::<Vec<u32>>(bytes).ok()
}

/// Relies on `lz4::block::compress(src, None, true)`: LZ4 block compression in the default
/// mode with the source length prepended; it fails only on a source longer than LZ4's
/// largest input, `LZ4_MAX_INPUT_SIZE` (0x7E00_0000 bytes).
#[verifier::external_body]
fn lz4_compress(bytes: &[u8]) -> (r: Option<Vec<u8>>)
    ensures
        r matches Some(c) ==> c@ == lz4_block(bytes@),
        bytes@.len() <= 0x7E00_0000 ==> r is Some,
{
    lz4::block::compress(bytes, None, true).ok()
}

/// Relies on `lz4::block::decompress(src, None)`, which reads the prepended length: what
/// `compress` made of some bytes decompresses to those bytes.
#[verifier::external_body]
fn lz4_decompress(bytes: &[u8]) -> (r: Option<Vec<u8>>)
    ensures
        forall|x: Seq<u8>| bytes@ == lz4_block(x) ==> r is Some && r.unwrap()@ == x,
{
    lz4::block::decompress(bytes, None).ok()
}

proof fn lemma_u32s_le_len(s: Seq<u32>)
    ensures
        u32s_le(s).len() == 4 * s.len(),
    decreases s.len(),
{
    vstd::bytes::lemma_auto_spec_u32_to_from_le_bytes();
    if s.len() > 0 {
        lemma_u32s_le_len(s.drop_last());
    }
}

/// The stored form of a giant vertex's neighbor list: the LZ4-compressed bincode form of
/// the list. `None` only when that form is too long for LZ4.
pub fn encode_giant_list(list: &VIdList) -> (r: Option<Vec<u8>>)
    ensures
        r matches Some(c) ==> c@ == lz4_block(bincode_list(list@)),
        8 + 4 * list@.len() <= 0x7E00_0000 ==> r is Some,
{
    let plain = bincode_serialize_list(list);
    proof {
        lemma_u32s_le_len(list@);
        vstd::bytes::lemma_auto_spec_u64_to_from_le_bytes();
    }
    lz4_compress(plain.as_slice())
}

/// Reads back a giant vertex's neighbor list from its stored form; the stored form of a
/// list reads back as exactly that list, in order.
pub fn decode_giant_list(bytes: &[u8]) -> (r: Option<VIdList>)
    ensures
        forall|x: Seq<u32>| bytes@ == lz4_block(bincode_list(x)) ==> r is Some && r.unwrap()@ == x,
{
    match lz4_decompress(bytes) {
        Some(plain) => bincode_deserialize_list(plain.as_slice()),
        None => None,
    }
}

} // verus!
