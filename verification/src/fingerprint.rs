//! Metadata-derived cache keys.
//!
//! A listing row gets a stable DOM/cache identifier derived from its
//! metadata alone (no file contents are read).  The identifier is a
//! 64-bit state folded through three xorshift rounds and rendered as a
//! fixed-width lowercase hexadecimal string with a leading `i`.
//! It is a cache key only, never a security token.

use vstd::prelude::*;

verus! {

/// The metadata fields the fingerprint is derived from, as plain integers.
///
/// Signed timestamp fields are carried in two's-complement form, so the
/// folding below is plain wrapping arithmetic on `u64`.
#[derive(Clone, Copy, Debug, PartialEq, Eq, Structural)]
pub struct MetaFields {
    /// Access time, seconds.
    pub atime: u64,
    /// Modify time, seconds.
    pub mtime: u64,
    /// Change time, seconds.
    pub ctime: u64,
    /// Size in bytes.
    pub size: u64,
    /// Inode number.
    pub ino: u64,
    /// Device id.
    pub dev: u64,
    /// Sub-second component of the modify time, nanoseconds.
    pub mtime_nsec: u64,
}

/// One round of the xorshift bit mixer.
pub open spec fn spec_xorshift64(state: u64) -> u64 {
    let a = state ^ (state << 13);
    let b = a ^ (a >> 7);
    b ^ (b << 17)
}

/// One round of the xorshift bit mixer: `x ^= x<<13; x ^= x>>7; x ^= x<<17`.
pub fn xorshift64(mut state: u64) -> (r: u64)
    ensures
        r == spec_xorshift64(state),
{
    state ^= state << 13;
    state ^= state >> 7;
    state ^= state << 17;
    state
}

/// The 64-bit fingerprint state: three xorshift rounds, each folding two
/// more metadata fields into the running state.
pub open spec fn spec_fingerprint(m: MetaFields) -> u64 {
    let s1 = spec_xorshift64(m.atime.wrapping_add(m.mtime).wrapping_add(m.ctime));
    let s2 = spec_xorshift64(s1.wrapping_add(m.size).wrapping_add(m.ino));
    spec_xorshift64(s2.wrapping_add(m.dev).wrapping_add(m.mtime_nsec))
}

/// The lowercase hex digit for a nibble.
pub open spec fn spec_hex_digit(d: u64) -> u8
    recommends
        d < 16,
{
    if d < 10 {
        (48 + d) as u8
    } else {
        (87 + d) as u8
    }
}

/// The 16 hex digits of a 64-bit value, most significant nibble first.
pub open spec fn spec_hex(id: u64) -> Seq<u8> {
    Seq::new(16, |i: int| spec_hex_digit((id >> ((60 - 4 * i) as u64)) & 0xf))
}

/// The rendered fingerprint identifier: a literal `i` followed by the
/// 16 hex digits of the fingerprint state.
pub open spec fn spec_fingerprint_id(m: MetaFields) -> Seq<u8> {
    seq![105u8] + spec_hex(spec_fingerprint(m))
}

/// Derive the fingerprint identifier of one entry from its metadata.
///
/// Deterministic: the result is a function of the `MetaFields` alone.
pub fn file_hash_id(meta: &MetaFields) -> (r: Vec<u8>)
    ensures
        r@ == spec_fingerprint_id(*meta),
{
    let id = xorshift64(meta.atime.wrapping_add(meta.mtime).wrapping_add(meta.ctime));
    let id = xorshift64(id.wrapping_add(meta.size).wrapping_add(meta.ino));
    let id = xorshift64(id.wrapping_add(meta.dev).wrapping_add(meta.mtime_nsec));
    let mut out: Vec<u8> = Vec::new();
    out.push(105u8);
    let mut k: usize = 0;
    while k < 16
        invariant
            k <= 16,
            id == spec_fingerprint(*meta),
            out@ == seq![105u8] + spec_hex(id).take(k as int),
        decreases 16 - k,
    {
        let sh: u64 = 60 - 4 * (k as u64);
        let d: u64 = (id >> sh) & 0xf;
        proof {
            assert((id >> sh) & 0xf < 16) by (bit_vector);
        }
        let c: u8 = if d < 10 {
            (48 + d) as u8
        } else {
            (87 + d) as u8
        };
        out.push(c);
        proof {
            assert(c == spec_hex(id)[k as int]);
            assert(spec_hex(id).take(k + 1) == spec_hex(id).take(k as int).push(c));
        }
        k += 1;
    }
    proof {
        assert(spec_hex(id).take(16) == spec_hex(id));
    }
    out
}

/// The xorshift round is a bijection on 64-bit states.
pub proof fn lemma_xorshift64_injective(a: u64, b: u64)
    requires
        spec_xorshift64(a) == spec_xorshift64(b),
    ensures
        a == b,
{
    let a1 = a ^ (a << 13);
    let a2 = a1 ^ (a1 >> 7);
    let b1 = b ^ (b << 13);
    let b2 = b1 ^ (b1 >> 7);
    assert(a2 ^ (a2 << 17) == b2 ^ (b2 << 17));
    assert(a2 == b2) by (bit_vector)
        requires
            a2 ^ (a2 << 17) == b2 ^ (b2 << 17),
    ;
    assert(a1 == b1) by (bit_vector)
        requires
            a1 ^ (a1 >> 7) == b1 ^ (b1 >> 7),
    ;
    assert(a == b) by (bit_vector)
        requires
            a ^ (a << 13) == b ^ (b << 13),
    ;
}

/// Adding a fixed value with wraparound is a bijection on 64-bit states.
pub proof fn lemma_wrapping_add_injective(x: u64, y: u64, c: u64)
    requires
        x.wrapping_add(c) == y.wrapping_add(c),
    ensures
        x == y,
{
}

/// The fingerprint state differs between two metadata tuples that agree on
/// everything but the modify time.
pub proof fn lemma_fingerprint_mtime_sensitive(m1: MetaFields, m2: MetaFields)
    requires
        m1.atime == m2.atime,
        m1.ctime == m2.ctime,
        m1.size == m2.size,
        m1.ino == m2.ino,
        m1.dev == m2.dev,
        m1.mtime_nsec == m2.mtime_nsec,
        m1.mtime != m2.mtime,
    ensures
        spec_fingerprint(m1) != spec_fingerprint(m2),
{
    let seed1 = m1.atime.wrapping_add(m1.mtime).wrapping_add(m1.ctime);
    let seed2 = m2.atime.wrapping_add(m2.mtime).wrapping_add(m2.ctime);
    let s1a = spec_xorshift64(seed1);
    let s1b = spec_xorshift64(seed2);
    let s2a = spec_xorshift64(s1a.wrapping_add(m1.size).wrapping_add(m1.ino));
    let s2b = spec_xorshift64(s1b.wrapping_add(m2.size).wrapping_add(m2.ino));
    if spec_fingerprint(m1) == spec_fingerprint(m2) {
        lemma_xorshift64_injective(
            s2a.wrapping_add(m1.dev).wrapping_add(m1.mtime_nsec),
            s2b.wrapping_add(m2.dev).wrapping_add(m2.mtime_nsec),
        );
        lemma_wrapping_add_injective(s2a.wrapping_add(m1.dev), s2b.wrapping_add(m2.dev), m1.mtime_nsec);
        lemma_wrapping_add_injective(s2a, s2b, m1.dev);
        lemma_xorshift64_injective(
            s1a.wrapping_add(m1.size).wrapping_add(m1.ino),
            s1b.wrapping_add(m2.size).wrapping_add(m2.ino),
        );
        lemma_wrapping_add_injective(s1a.wrapping_add(m1.size), s1b.wrapping_add(m2.size), m1.ino);
        lemma_wrapping_add_injective(s1a, s1b, m1.size);
        lemma_xorshift64_injective(seed1, seed2);
        lemma_wrapping_add_injective(
            m1.atime.wrapping_add(m1.mtime),
            m2.atime.wrapping_add(m2.mtime),
            m1.ctime,
        );
        assert(m1.atime.wrapping_add(m1.mtime) != m2.atime.wrapping_add(m2.mtime));
    }
}

/// The fingerprint state differs between two metadata tuples that agree on
/// everything but the inode number.
pub proof fn lemma_fingerprint_ino_sensitive(m1: MetaFields, m2: MetaFields)
    requires
        m1.atime == m2.atime,
        m1.mtime == m2.mtime,
        m1.ctime == m2.ctime,
        m1.size == m2.size,
        m1.dev == m2.dev,
        m1.mtime_nsec == m2.mtime_nsec,
        m1.ino != m2.ino,
    ensures
        spec_fingerprint(m1) != spec_fingerprint(m2),
{
    let s1 = spec_xorshift64(m1.atime.wrapping_add(m1.mtime).wrapping_add(m1.ctime));
    let s2a = spec_xorshift64(s1.wrapping_add(m1.size).wrapping_add(m1.ino));
    let s2b = spec_xorshift64(s1.wrapping_add(m2.size).wrapping_add(m2.ino));
    if spec_fingerprint(m1) == spec_fingerprint(m2) {
        lemma_xorshift64_injective(
            s2a.wrapping_add(m1.dev).wrapping_add(m1.mtime_nsec),
            s2b.wrapping_add(m2.dev).wrapping_add(m2.mtime_nsec),
        );
        lemma_wrapping_add_injective(s2a.wrapping_add(m1.dev), s2b.wrapping_add(m2.dev), m1.mtime_nsec);
        lemma_wrapping_add_injective(s2a, s2b, m1.dev);
        lemma_xorshift64_injective(
            s1.wrapping_add(m1.size).wrapping_add(m1.ino),
            s1.wrapping_add(m2.size).wrapping_add(m2.ino),
        );
        assert(s1.wrapping_add(m1.size).wrapping_add(m1.ino)
            != s1.wrapping_add(m1.size).wrapping_add(m2.ino));
    }
}

/// Equal hex digits come from equal nibbles.
proof fn lemma_nibble_eq(x: u64, y: u64, sh: u64)
    requires
        spec_hex_digit((x >> sh) & 0xf) == spec_hex_digit((y >> sh) & 0xf),
    ensures
        (x >> sh) & 0xf == (y >> sh) & 0xf,
{
    assert((x >> sh) & 0xf < 16 && (y >> sh) & 0xf < 16) by (bit_vector);
}

/// The rendered identifiers differ wherever the fingerprint states do:
/// rendering a state as hex digits loses nothing.
pub proof fn lemma_fingerprint_id_injective(m1: MetaFields, m2: MetaFields)
    requires
        spec_fingerprint_id(m1) == spec_fingerprint_id(m2),
    ensures
        spec_fingerprint(m1) == spec_fingerprint(m2),
{
    let x = spec_fingerprint(m1);
    let y = spec_fingerprint(m2);
    let hx = spec_hex(x);
    let hy = spec_hex(y);
    assert(seq![105u8] + hx == seq![105u8] + hy);
    assert forall|k: int| 0 <= k < 16 implies hx[k] == hy[k] by {
        assert((seq![105u8] + hx)[k + 1] == hx[k]);
        assert((seq![105u8] + hy)[k + 1] == hy[k]);
    }
    assert(hx =~= hy);
    assert(spec_hex(x)[0] == spec_hex(y)[0]);
    lemma_nibble_eq(x, y, 60);
    assert(spec_hex(x)[1] == spec_hex(y)[1]);
    lemma_nibble_eq(x, y, 56);
    assert(spec_hex(x)[2] == spec_hex(y)[2]);
    lemma_nibble_eq(x, y, 52);
    assert(spec_hex(x)[3] == spec_hex(y)[3]);
    lemma_nibble_eq(x, y, 48);
    assert(spec_hex(x)[4] == spec_hex(y)[4]);
    lemma_nibble_eq(x, y, 44);
    assert(spec_hex(x)[5] == spec_hex(y)[5]);
    lemma_nibble_eq(x, y, 40);
    assert(spec_hex(x)[6] == spec_hex(y)[6]);
    lemma_nibble_eq(x, y, 36);
    assert(spec_hex(x)[7] == spec_hex(y)[7]);
    lemma_nibble_eq(x, y, 32);
    assert(spec_hex(x)[8] == spec_hex(y)[8]);
    lemma_nibble_eq(x, y, 28);
    assert(spec_hex(x)[9] == spec_hex(y)[9]);
    lemma_nibble_eq(x, y, 24);
    assert(spec_hex(x)[10] == spec_hex(y)[10]);
    lemma_nibble_eq(x, y, 20);
    assert(spec_hex(x)[11] == spec_hex(y)[11]);
    lemma_nibble_eq(x, y, 16);
    assert(spec_hex(x)[12] == spec_hex(y)[12]);
    lemma_nibble_eq(x, y, 12);
    assert(spec_hex(x)[13] == spec_hex(y)[13]);
    lemma_nibble_eq(x, y, 8);
    assert(spec_hex(x)[14] == spec_hex(y)[14]);
    lemma_nibble_eq(x, y, 4);
    assert(spec_hex(x)[15] == spec_hex(y)[15]);
    lemma_nibble_eq(x, y, 0);
    assert(x == y) by (bit_vector)
        requires
            (x >> 60u64) & 0xf == (y >> 60u64) & 0xf,
            (x >> 56u64) & 0xf == (y >> 56u64) & 0xf,
            (x >> 52u64) & 0xf == (y >> 52u64) & 0xf,
            (x >> 48u64) & 0xf == (y >> 48u64) & 0xf,
            (x >> 44u64) & 0xf == (y >> 44u64) & 0xf,
            (x >> 40u64) & 0xf == (y >> 40u64) & 0xf,
            (x >> 36u64) & 0xf == (y >> 36u64) & 0xf,
            (x >> 32u64) & 0xf == (y >> 32u64) & 0xf,
            (x >> 28u64) & 0xf == (y >> 28u64) & 0xf,
            (x >> 24u64) & 0xf == (y >> 24u64) & 0xf,
            (x >> 20u64) & 0xf == (y >> 20u64) & 0xf,
            (x >> 16u64) & 0xf == (y >> 16u64) & 0xf,
            (x >> 12u64) & 0xf == (y >> 12u64) & 0xf,
            (x >> 8u64) & 0xf == (y >> 8u64) & 0xf,
            (x >> 4u64) & 0xf == (y >> 4u64) & 0xf,
            (x >> 0u64) & 0xf == (y >> 0u64) & 0xf,
    ;
}

/// Two metadata tuples that differ only in modify time render different
/// fingerprint identifiers.
pub proof fn lemma_id_mtime_sensitive(m1: MetaFields, m2: MetaFields)
    requires
        m1.atime == m2.atime,
        m1.ctime == m2.ctime,
        m1.size == m2.size,
        m1.ino == m2.ino,
        m1.dev == m2.dev,
        m1.mtime_nsec == m2.mtime_nsec,
        m1.mtime != m2.mtime,
    ensures
        spec_fingerprint_id(m1) != spec_fingerprint_id(m2),
{
    lemma_fingerprint_mtime_sensitive(m1, m2);
    if spec_fingerprint_id(m1) == spec_fingerprint_id(m2) {
        lemma_fingerprint_id_injective(m1, m2);
    }
}

/// Two metadata tuples that differ only in inode number render different
/// fingerprint identifiers.
pub proof fn lemma_id_ino_sensitive(m1: MetaFields, m2: MetaFields)
    requires
        m1.atime == m2.atime,
        m1.mtime == m2.mtime,
        m1.ctime == m2.ctime,
        m1.size == m2.size,
        m1.dev == m2.dev,
        m1.mtime_nsec == m2.mtime_nsec,
        m1.ino != m2.ino,
    ensures
        spec_fingerprint_id(m1) != spec_fingerprint_id(m2),
{
    lemma_fingerprint_ino_sensitive(m1, m2);
    if spec_fingerprint_id(m1) == spec_fingerprint_id(m2) {
        lemma_fingerprint_id_injective(m1, m2);
    }
}

} // verus!
