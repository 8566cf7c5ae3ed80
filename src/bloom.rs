use vstd::prelude::*;

verus! {

/// What `farmhash::hash64` makes of bytes.
pub uninterp spec fn farm_hash64(b: Seq<u8>) -> u64;

/// Relies on `farmhash::hash64`: a 64-bit hash of the bytes, a function of them alone.
#[verifier::external_body]
fn farmhash64(bytes: &[u8]) -> (r: u64)
    ensures
        r == farm_hash64(bytes@),
{
    farmhash::hash64(bytes)
}

/// The key hash of the edge `(src, dst)`: the low 32 bits of the farmhash of the edge packed
/// as `(src << 32) | dst` in little-endian bytes.
pub open spec fn edge_hash(src: u32, dst: u32) -> u32 {
    farm_hash64(vstd::bytes::spec_u64_to_le_bytes((src as int * 0x1_0000_0000 + dst as int) as u64)) as u32
}

/// The key hash of the edge `(src, dst)`.
pub fn edge_key_hash(src: u32, dst: u32) -> (r: u32)
    ensures
        r == edge_hash(src, dst),
{
    let key = (src as u64) * 0x1_0000_0000u64 + dst as u64;
    let bytes = vstd::bytes::u64_to_le_bytes(key);
    farmhash64(bytes.as_slice()) as u32
}

/// Whether bit `b` of the filter bytes is set (bit `b % 8` of byte `b / 8`).
pub open spec fn bit_set(f: Seq<u8>, b: int) -> bool {
    (f[b / 8] >> ((b % 8) as u8)) & 1u8 == 1u8
}

/// The step between a key hash's probes: the hash rotated left by 15 bits.
pub open spec fn probe_step(h: u32) -> u32 {
    (h << 15u32) | (h >> 17u32)
}

/// The `i`-th probe hash of `h`: `h + i * step`, wrapping at 32 bits.
pub open spec fn probe_hash(h: u32, i: int) -> u32
    decreases i,
{
    if i <= 0 {
        h
    } else {
        ((probe_hash(h, i - 1) as int + probe_step(h) as int) % 0x1_0000_0000) as u32
    }
}

/// The bit that the `i`-th probe of `h` hits in a filter of `nbytes` bytes.
pub open spec fn probe_bit(h: u32, i: int, nbytes: int) -> int {
    probe_hash(h, i) as int % (nbytes * 8)
}

/// Whether every probe of `h` hits a set bit of a filter of `f.len() * 8` bits.
pub open spec fn filter_has(f: Seq<u8>, k: int, h: u32) -> bool {
    forall|i: int| 0 <= i < k ==> #[trigger] bit_set(f, probe_bit(h, i, f.len() as int))
}

/// Every bit set in `a` is set in `b`.
pub open spec fn bits_grow(a: Seq<u8>, b: Seq<u8>) -> bool {
    &&& a.len() == b.len()
    &&& forall|x: int| 0 <= x < a.len() * 8 && #[trigger] bit_set(a, x) ==> bit_set(b, x)
}

/// A bloom filter over 32-bit key hashes: no key that went in is ever reported absent.
pub struct Bloom {
    /// The filter bits, eight to a byte.
    pub filter: Vec<u8>,
    /// Number of probes per key.
    pub k: u8,
}

proof fn lemma_or_bit(x: u8, j: u8, j2: u8)
    by (bit_vector)
    requires
        j < 8,
        j2 < 8,
    ensures
        ((x | (1u8 << j)) >> j) & 1u8 == 1u8,
        (x >> j2) & 1u8 == 1u8 ==> ((x | (1u8 << j)) >> j2) & 1u8 == 1u8,
{
}

proof fn lemma_step_value(h: u32)
    ensures
        probe_step(h) == ((h << 15u32) | (h >> 17u32)),
{
}

/// Sets bit `b` of the filter; every other set bit stays set.
fn set_bit(f: &mut Vec<u8>, b: usize)
    requires
        b < old(f)@.len() * 8,
    ensures
        bits_grow(old(f)@, final(f)@),
        bit_set(final(f)@, b as int),
{
    let idx = b / 8;
    let j = (b % 8) as u8;
    let ghost before = f@;
    let old_byte = f[idx];
    f.set(idx, old_byte | (1u8 << j));
    proof {
        lemma_or_bit(old_byte, j, 0);
        assert forall|x: int| 0 <= x < before.len() * 8 && #[trigger] bit_set(before, x) implies bit_set(f@, x) by {
            if x / 8 == idx as int {
                lemma_or_bit(old_byte, j, (x % 8) as u8);
            } else {
                assert(f@[x / 8] == before[x / 8]);
            }
        }
    }
}

proof fn lemma_grow_keeps(a: Seq<u8>, b: Seq<u8>, k: int, h: u32)
    requires
        bits_grow(a, b),
        a.len() > 0,
        filter_has(a, k, h),
    ensures
        filter_has(b, k, h),
{
    assert forall|i: int| 0 <= i < k implies #[trigger] bit_set(b, probe_bit(h, i, b.len() as int)) by {
        assert(bit_set(a, probe_bit(h, i, a.len() as int)));
    }
}

impl Bloom {
    /// Whether every key put in answers present.
    pub open spec fn holds_all(&self, keys: Seq<u32>) -> bool {
        forall|q: int| 0 <= q < keys.len() ==> filter_has(self.filter@, self.k as int, #[trigger] keys[q])
    }

    /// A filter of `bits_per_key` bits per key (at least 64 bits), with a number of probes of
    /// about `0.69 * bits_per_key` (between 1 and 30), holding every key hash of `keys`.
    pub fn build_from_key_hashes(keys: &[u32], bits_per_key: usize) -> (r: Self)
        requires
            keys@.len() * bits_per_key + 71 <= usize::MAX,
        ensures
            r.filter@.len() >= 8,
            r.filter@.len() * 8 <= keys@.len() * bits_per_key + 71,
            r.holds_all(keys@),
            1 <= r.k <= 30,
    {
        let probes = if bits_per_key >= 44 { 30 } else { bits_per_key * 69 / 100 };
        let k: u8 = if probes < 1 {
            1
        } else if probes > 30 {
            30
        } else {
            probes as u8
        };
        let mut nbits = keys.len() * bits_per_key;
        if nbits < 64 {
            nbits = 64;
        }
        let nbytes = (nbits + 7) / 8;
        let nbits = nbytes * 8;
        let mut filter: Vec<u8> = Vec::new();
        let mut z: usize = 0;
        while z < nbytes
            invariant
                z <= nbytes,
                filter@.len() == z,
            decreases nbytes - z,
        {
            filter.push(0u8);
            z = z + 1;
        }
        let mut q: usize = 0;
        while q < keys.len()
            invariant
                filter@.len() == nbytes,
                nbits == nbytes * 8,
                nbytes >= 8,
                q <= keys@.len(),
                forall|p: int| 0 <= p < q ==> filter_has(filter@, k as int, #[trigger] keys@[p]),
            decreases keys@.len() - q,
        {
            let h = keys[q];
            let delta = (h << 15u32) | (h >> 17u32);
            let mut probe = h;
            let ghost start = filter@;
            let mut i: u8 = 0;
            while i < k
                invariant
                    filter@.len() == nbytes,
                    nbits == nbytes * 8,
                    nbytes >= 8,
                    i <= k,
                    delta == probe_step(h),
                    probe == probe_hash(h, i as int),
                    bits_grow(start, filter@),
                    forall|i2: int| 0 <= i2 < i ==> #[trigger] bit_set(filter@, probe_bit(h, i2, filter@.len() as int)),
                decreases k - i,
            {
                let ghost before = filter@;
                set_bit(&mut filter, (probe as usize) % nbits);
                proof {
                    assert forall|i2: int| 0 <= i2 < i + 1 implies #[trigger] bit_set(filter@, probe_bit(h, i2, filter@.len() as int)) by {
                        if i2 < i {
                            assert(bit_set(before, probe_bit(h, i2, before.len() as int)));
                        }
                    }
                    assert forall|x: int| 0 <= x < start.len() * 8 && #[trigger] bit_set(start, x) implies bit_set(filter@, x) by {
                        assert(bit_set(before, x));
                    }
                }
                probe = ((probe as u64 + delta as u64) % 0x1_0000_0000) as u32;
                i = i + 1;
            }
            proof {
                assert forall|p: int| 0 <= p < q + 1 implies filter_has(filter@, k as int, #[trigger] keys@[p]) by {
                    if p < q {
                        lemma_grow_keeps(start, filter@, k as int, keys@[p]);
                    }
                }
            }
            q = q + 1;
        }
        Bloom { filter, k }
    }

    /// Whether the key hash `h` may have been put in: `false` only for one that was not.
    pub fn may_contain(&self, h: u32) -> (r: bool)
        requires
            self.filter@.len() > 0,
            self.filter@.len() * 8 <= usize::MAX,
        ensures
            r == filter_has(self.filter@, self.k as int, h),
    {
        let nbits = self.filter.len() * 8;
        let delta = (h << 15u32) | (h >> 17u32);
        let mut probe = h;
        let mut i: u8 = 0;
        while i < self.k
            invariant
                nbits == self.filter@.len() * 8,
                nbits > 0,
                i <= self.k,
                delta == probe_step(h),
                probe == probe_hash(h, i as int),
                forall|i2: int| 0 <= i2 < i ==> #[trigger] bit_set(self.filter@, probe_bit(h, i2, self.filter@.len() as int)),
            decreases self.k - i,
        {
            let b = (probe as usize) % nbits;
            let byte = self.filter[b / 8];
            if (byte >> ((b % 8) as u8)) & 1u8 != 1u8 {
                assert(!bit_set(self.filter@, probe_bit(h, i as int, self.filter@.len() as int)));
                return false;
            }
            probe = ((probe as u64 + delta as u64) % 0x1_0000_0000) as u32;
            i = i + 1;
        }
        true
    }

    /// The filter bytes followed by the number of probes.
    pub fn encode(&self, buf: &mut Vec<u8>)
        ensures
            final(buf)@ == old(buf)@ + self.filter@ + seq![self.k],
    {
        let mut i: usize = 0;
        while i < self.filter.len()
            invariant
                i <= self.filter@.len(),
                buf@ == old(buf)@ + self.filter@.subrange(0, i as int),
            decreases self.filter@.len() - i,
        {
            buf.push(self.filter[i]);
            assert(buf@ =~= old(buf)@ + self.filter@.subrange(0, i + 1));
            i = i + 1;
        }
        buf.push(self.k);
        assert(final(buf)@ =~= old(buf)@ + self.filter@ + seq![self.k]);
    }

    /// Reads a filter written by `encode`; `None` when there is no filter byte.
    pub fn decode(bytes: &[u8]) -> (r: Option<Self>)
        ensures
            r is Some <==> bytes@.len() >= 2,
            r matches Some(b) ==> b.filter@ == bytes@.subrange(0, bytes@.len() - 1) && b.k == bytes@[bytes@.len() - 1],
    {
        if bytes.len() < 2 {
            return None;
        }
        let n = bytes.len() - 1;
        let mut filter: Vec<u8> = Vec::new();
        let mut i: usize = 0;
        while i < n
            invariant
                n == bytes@.len() - 1,
                i <= n,
                filter@ == bytes@.subrange(0, i as int),
            decreases n - i,
        {
            filter.push(bytes[i]);
            assert(filter@ =~= bytes@.subrange(0, i + 1));
            i = i + 1;
        }
        Some(Bloom { filter, k: bytes[n] })
    }
}

/// Bits per key for the adaptive false-positive rate: 1% (10 bits) below ten million
/// edges, 3% (8 bits) below a hundred million, 5% (7 bits) beyond.
pub fn calculate_bits_per_key(edge_count: usize) -> (r: usize)
    ensures
        r == (if edge_count < 10_000_000 {
            10usize
        } else if edge_count < 100_000_000 {
            8usize
        } else {
            7usize
        }),
{
    if edge_count < 10_000_000 {
        10
    } else if edge_count < 100_000_000 {
        8
    } else {
        7
    }
}

} // verus!
