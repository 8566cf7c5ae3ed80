use vstd::prelude::*;

use crate::codec::{be16_at, be16_bytes, be32_at, be32_bytes, lemma_be16_round_trip, lemma_be32_round_trip, push_be16, push_be32, read_be16, read_be32};
use crate::types::VId;
use vstd::utf8::{decode_utf8, encode_utf8, encode_utf8_decode_utf8, encode_utf8_valid_utf8, valid_utf8};

verus! {

/// Why bytes do not decode as a property key.
#[derive(Debug, Clone, Copy, PartialEq, Eq, Structural)]
pub enum PropertyKeyError {
    /// Shorter than the fixed prefix.
    TooShort,
    /// The length does not match the name length the key announces.
    BadLength,
    /// The name is not valid UTF-8.
    BadUtf8,
}

/// Relies on std's `String::from_utf8`: it succeeds exactly on valid UTF-8 and the string
/// then holds the characters those bytes encode.
#[verifier::external_body]
fn string_from_utf8(bytes: Vec<u8>) -> (r: Option<String>)
    ensures
        r is Some <==> valid_utf8(bytes@),
        r matches Some(s) ==> s@ == decode_utf8(bytes@),
{
    String::from_utf8(bytes).ok()
}

/// Copies bytes `[start, end)` of a slice.
fn copy_range(b: &[u8], start: usize, end: usize) -> (r: Vec<u8>)
    requires
        start <= end <= b@.len(),
    ensures
        r@ == b@.subrange(start as int, end as int),
{
    let mut out: Vec<u8> = Vec::new();
    let mut i: usize = start;
    while i < end
        invariant
            start <= i <= end <= b@.len(),
            out@ == b@.subrange(start as int, i as int),
        decreases end - i,
    {
        out.push(b[i]);
        assert(out@ =~= b@.subrange(start as int, i + 1));
        i = i + 1;
    }
    out
}

/// Appends bytes to a vector.
fn append_bytes(out: &mut Vec<u8>, b: &[u8])
    ensures
        final(out)@ == old(out)@ + b@,
{
    let mut i: usize = 0;
    while i < b.len()
        invariant
            i <= b@.len(),
            out@ == old(out)@ + b@.subrange(0, i as int),
        decreases b@.len() - i,
    {
        out.push(b[i]);
        assert(out@ =~= old(out)@ + b@.subrange(0, i + 1));
        i = i + 1;
    }
    assert(b@.subrange(0, b@.len() as int) =~= b@);
}

/// Key of a named property of a vertex.
#[derive(Debug, Clone, PartialEq, Eq, Hash)]
pub struct VertexPropertyKey {
    pub vertex_id: VId,
    pub property_name: String,
}

/// The bytes of a vertex property key: vertex id, name length (both big-endian), name.
pub open spec fn vertex_key_bytes(vertex_id: u32, name: Seq<char>) -> Seq<u8> {
    be32_bytes(vertex_id) + be16_bytes(encode_utf8(name).len() as u16) + encode_utf8(name)
}

impl VertexPropertyKey {
    pub fn new(vertex_id: VId, property_name: String) -> (r: Self)
        ensures
            r.vertex_id == vertex_id,
            r.property_name@ == property_name@,
    {
        VertexPropertyKey { vertex_id, property_name }
    }

    /// The key's bytes, which sort by vertex id first.
    pub fn encode(&self) -> (r: Vec<u8>)
        requires
            encode_utf8(self.property_name@).len() <= 0xffff,
        ensures
            r@ == vertex_key_bytes(self.vertex_id, self.property_name@),
    {
        let name_bytes = self.property_name.as_str().as_bytes();
        let mut bytes: Vec<u8> = Vec::new();
        push_be32(&mut bytes, self.vertex_id);
        push_be16(&mut bytes, name_bytes.len() as u16);
        append_bytes(&mut bytes, name_bytes);
        bytes
    }

    /// Reads a key from its bytes.
    pub fn decode(bytes: &[u8]) -> (r: Result<Self, PropertyKeyError>)
        ensures
            r is Ok <==> bytes@.len() >= 6 && bytes@.len() == 6 + be16_at(bytes@, 4) && valid_utf8(
                bytes@.subrange(6, bytes@.len() as int),
            ),
            r matches Ok(k) ==> k.vertex_id == be32_at(bytes@, 0) && k.property_name@ == decode_utf8(
                bytes@.subrange(6, bytes@.len() as int),
            ),
            r matches Err(e) ==> e == (if bytes@.len() < 6 {
                PropertyKeyError::TooShort
            } else if bytes@.len() != 6 + be16_at(bytes@, 4) {
                PropertyKeyError::BadLength
            } else {
                PropertyKeyError::BadUtf8
            }),
    {
        if bytes.len() < 6 {
            return Err(PropertyKeyError::TooShort);
        }
        let vertex_id = read_be32(bytes, 0);
        let name_len = read_be16(bytes, 4) as usize;
        if bytes.len() != 6 + name_len {
            return Err(PropertyKeyError::BadLength);
        }
        let name = copy_range(bytes, 6, bytes.len());
        match string_from_utf8(name) {
            Some(property_name) => Ok(VertexPropertyKey { vertex_id, property_name }),
            None => Err(PropertyKeyError::BadUtf8),
        }
    }

    /// The bytes every key of `vertex_id` starts with.
    pub fn prefix(vertex_id: VId) -> (r: Vec<u8>)
        ensures
            r@ == be32_bytes(vertex_id),
    {
        let mut bytes: Vec<u8> = Vec::new();
        push_be32(&mut bytes, vertex_id);
        assert(bytes@ =~= be32_bytes(vertex_id));
        bytes
    }
}

/// Key of a named property of an edge.
#[derive(Debug, Clone, PartialEq, Eq, Hash)]
pub struct EdgePropertyKey {
    pub source_id: VId,
    pub destination_id: VId,
    pub property_name: String,
}

/// The bytes of an edge property key: source, destination, name length (all big-endian),
/// name.
pub open spec fn edge_key_bytes(source_id: u32, destination_id: u32, name: Seq<char>) -> Seq<u8> {
    be32_bytes(source_id) + be32_bytes(destination_id) + be16_bytes(encode_utf8(name).len() as u16)
        + encode_utf8(name)
}

impl EdgePropertyKey {
    pub fn new(source_id: VId, destination_id: VId, property_name: String) -> (r: Self)
        ensures
            r.source_id == source_id,
            r.destination_id == destination_id,
            r.property_name@ == property_name@,
    {
        EdgePropertyKey { source_id, destination_id, property_name }
    }

    /// The key's bytes, which sort by source, then destination.
    pub fn encode(&self) -> (r: Vec<u8>)
        requires
            encode_utf8(self.property_name@).len() <= 0xffff,
        ensures
            r@ == edge_key_bytes(self.source_id, self.destination_id, self.property_name@),
    {
        let name_bytes = self.property_name.as_str().as_bytes();
        let mut bytes: Vec<u8> = Vec::new();
        push_be32(&mut bytes, self.source_id);
        push_be32(&mut bytes, self.destination_id);
        push_be16(&mut bytes, name_bytes.len() as u16);
        append_bytes(&mut bytes, name_bytes);
        bytes
    }

    /// Reads a key from its bytes.
    pub fn decode(bytes: &[u8]) -> (r: Result<Self, PropertyKeyError>)
        ensures
            r is Ok <==> bytes@.len() >= 10 && bytes@.len() == 10 + be16_at(bytes@, 8) && valid_utf8(
                bytes@.subrange(10, bytes@.len() as int),
            ),
            r matches Ok(k) ==> k.source_id == be32_at(bytes@, 0) && k.destination_id == be32_at(
                bytes@,
                4,
            ) && k.property_name@ == decode_utf8(bytes@.subrange(10, bytes@.len() as int)),
            r matches Err(e) ==> e == (if bytes@.len() < 10 {
                PropertyKeyError::TooShort
            } else if bytes@.len() != 10 + be16_at(bytes@, 8) {
                PropertyKeyError::BadLength
            } else {
                PropertyKeyError::BadUtf8
            }),
    {
        if bytes.len() < 10 {
            return Err(PropertyKeyError::TooShort);
        }
        let source_id = read_be32(bytes, 0);
        let destination_id = read_be32(bytes, 4);
        let name_len = read_be16(bytes, 8) as usize;
        if bytes.len() != 10 + name_len {
            return Err(PropertyKeyError::BadLength);
        }
        let name = copy_range(bytes, 10, bytes.len());
        match string_from_utf8(name) {
            Some(property_name) => Ok(EdgePropertyKey { source_id, destination_id, property_name }),
            None => Err(PropertyKeyError::BadUtf8),
        }
    }

    /// The bytes every key of the edge `(source_id, destination_id)` starts with.
    pub fn prefix(source_id: VId, destination_id: VId) -> (r: Vec<u8>)
        ensures
            r@ == be32_bytes(source_id) + be32_bytes(destination_id),
    {
        let mut bytes: Vec<u8> = Vec::new();
        push_be32(&mut bytes, source_id);
        push_be32(&mut bytes, destination_id);
        assert(bytes@ =~= be32_bytes(source_id) + be32_bytes(destination_id));
        bytes
    }
}

/// A vertex property key reads back from its bytes as the same vertex and name, and its
/// bytes start with the vertex's prefix.
pub proof fn lemma_vertex_key_round_trip(vertex_id: u32, name: Seq<char>)
    requires
        encode_utf8(name).len() <= 0xffff,
    ensures
        ({
            let b = vertex_key_bytes(vertex_id, name);
            &&& b.len() >= 6
            &&& b.len() == 6 + be16_at(b, 4)
            &&& valid_utf8(b.subrange(6, b.len() as int))
            &&& be32_at(b, 0) == vertex_id
            &&& decode_utf8(b.subrange(6, b.len() as int)) == name
            &&& b.subrange(0, 4) == be32_bytes(vertex_id)
        }),
{
    let b = vertex_key_bytes(vertex_id, name);
    let nb = encode_utf8(name);
    lemma_be32_round_trip(vertex_id);
    lemma_be16_round_trip(nb.len() as u16);
    encode_utf8_valid_utf8(name);
    encode_utf8_decode_utf8(name);
    assert(b.subrange(6, b.len() as int) =~= nb);
    assert(b.subrange(0, 4) =~= be32_bytes(vertex_id));
    assert(be32_at(b, 0) == be32_at(be32_bytes(vertex_id), 0));
    assert(be16_at(b, 4) == be16_at(be16_bytes(nb.len() as u16), 0));
}

/// An edge property key reads back from its bytes as the same edge and name, and its bytes
/// start with the edge's prefix.
pub proof fn lemma_edge_key_round_trip(source_id: u32, destination_id: u32, name: Seq<char>)
    requires
        encode_utf8(name).len() <= 0xffff,
    ensures
        ({
            let b = edge_key_bytes(source_id, destination_id, name);
            &&& b.len() >= 10
            &&& b.len() == 10 + be16_at(b, 8)
            &&& valid_utf8(b.subrange(10, b.len() as int))
            &&& be32_at(b, 0) == source_id
            &&& be32_at(b, 4) == destination_id
            &&& decode_utf8(b.subrange(10, b.len() as int)) == name
            &&& b.subrange(0, 8) == be32_bytes(source_id) + be32_bytes(destination_id)
        }),
{
    let b = edge_key_bytes(source_id, destination_id, name);
    let nb = encode_utf8(name);
    lemma_be32_round_trip(source_id);
    lemma_be32_round_trip(destination_id);
    lemma_be16_round_trip(nb.len() as u16);
    encode_utf8_valid_utf8(name);
    encode_utf8_decode_utf8(name);
    assert(b.subrange(10, b.len() as int) =~= nb);
    assert(b.subrange(0, 8) =~= be32_bytes(source_id) + be32_bytes(destination_id));
    assert(be32_at(b, 0) == be32_at(be32_bytes(source_id), 0));
    assert(be32_at(b, 4) == be32_at(be32_bytes(destination_id), 0));
    assert(be16_at(b, 8) == be16_at(be16_bytes(nb.len() as u16), 0));
}

} // verus!
