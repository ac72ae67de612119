//! CRC-32 (IEEE 802.3, reflected polynomial 0xEDB88320) as used by DBPX chunks.

use vstd::prelude::*;

verus! {

/// One shift step of the reflected CRC-32 register.
pub open spec fn crc_shift(c: u32) -> u32 {
    if c & 1 == 1 {
        (c >> 1) ^ 0xEDB8_8320u32
    } else {
        c >> 1
    }
}

/// `n` shift steps of the register.
pub open spec fn crc_shifts(c: u32, n: nat) -> u32
    decreases n,
{
    if n == 0 {
        c
    } else {
        crc_shifts(crc_shift(c), (n - 1) as nat)
    }
}

/// The register after absorbing one byte.
pub open spec fn crc_byte(c: u32, b: u8) -> u32 {
    crc_shifts(c ^ (b as u32), 8)
}

/// The register after absorbing every byte of `s`, in order, starting from `c`.
pub open spec fn crc_update(c: u32, s: Seq<u8>) -> u32
    decreases s.len(),
{
    if s.len() == 0 {
        c
    } else {
        crc_byte(crc_update(c, s.drop_last()), s.last())
    }
}

/// One shift step is linear over xor and sends only zero to zero.
pub proof fn lemma_shift_linear(a: u32, b: u32)
    ensures
        crc_shift(a ^ b) == crc_shift(a) ^ crc_shift(b),
        a != 0 ==> crc_shift(a) != 0,
{
    assert(crc_shift(a ^ b) == crc_shift(a) ^ crc_shift(b)) by (bit_vector);
    assert(a != 0 ==> crc_shift(a) != 0) by (bit_vector);
}

pub proof fn lemma_shifts_linear(a: u32, b: u32, n: nat)
    ensures
        crc_shifts(a ^ b, n) == crc_shifts(a, n) ^ crc_shifts(b, n),
        a != 0 ==> crc_shifts(a, n) != 0,
    decreases n,
{
    if n > 0 {
        lemma_shift_linear(a, b);
        lemma_shift_linear(a, 0);
        lemma_shifts_linear(crc_shift(a), crc_shift(b), (n - 1) as nat);
    }
}

/// Registers that differ stay different after absorbing the same byte, and
/// a register stays different after absorbing different bytes.
pub proof fn lemma_byte_separates(x: u32, y: u32, a: u8, b: u8)
    requires
        x != y || a != b,
        x != y ==> a == b,
    ensures
        crc_byte(x, a) != crc_byte(y, b),
{
    let u = x ^ (a as u32);
    let v = y ^ (b as u32);
    assert(u ^ v != 0) by (bit_vector)
        requires
            u == x ^ (a as u32),
            v == y ^ (b as u32),
            x != y || a != b,
            x != y ==> a == b,
    ;
    lemma_shifts_linear(u ^ v, v, 8);
    assert((u ^ v) ^ v == u) by (bit_vector);
    assert(crc_shifts(u, 8) != crc_shifts(v, 8)) by {
        assert(crc_shifts(u, 8) == crc_shifts(u ^ v, 8) ^ crc_shifts(v, 8));
        let p = crc_shifts(u ^ v, 8);
        let q = crc_shifts(v, 8);
        assert(p != 0 ==> p ^ q != q) by (bit_vector);
    }
}

/// CRC-32 tells apart two byte strings of equal length that differ in
/// exactly one position.
pub proof fn lemma_crc_detects_one_byte(c: u32, s: Seq<u8>, k: int, b: u8)
    requires
        0 <= k < s.len(),
        s[k] != b,
    ensures
        crc_update(c, s) != crc_update(c, s.update(k, b)),
    decreases s.len(),
{
    let t = s.update(k, b);
    if k == s.len() - 1 {
        assert(t.drop_last() =~= s.drop_last());
        lemma_byte_separates(crc_update(c, s.drop_last()), crc_update(c, t.drop_last()), s.last(), t.last());
    } else {
        assert(t.drop_last() =~= s.drop_last().update(k, b));
        lemma_crc_detects_one_byte(c, s.drop_last(), k, b);
        lemma_byte_separates(crc_update(c, s.drop_last()), crc_update(c, t.drop_last()), s.last(), t.last());
    }
}

/// Registers that differ stay different after absorbing the same bytes.
pub proof fn lemma_regs_stay_apart(x: u32, y: u32, s: Seq<u8>)
    requires
        x != y,
    ensures
        crc_update(x, s) != crc_update(y, s),
    decreases s.len(),
{
    if s.len() > 0 {
        lemma_regs_stay_apart(x, y, s.drop_last());
        lemma_byte_separates(crc_update(x, s.drop_last()), crc_update(y, s.drop_last()), s.last(), s.last());
    }
}

/// A chunk's CRC changes when one byte of its type changes.
pub proof fn lemma_chunk_crc_detects_type(t: Seq<u8>, body: Seq<u8>, k: int, b: u8)
    requires
        0 <= k < t.len(),
        t[k] != b,
    ensures
        spec_crc_chunk(t, body) != spec_crc_chunk(t.update(k, b), body),
{
    lemma_crc_detects_one_byte(0xFFFF_FFFFu32, t, k, b);
    let x = crc_update(crc_update(0xFFFF_FFFFu32, t), body);
    let y = crc_update(crc_update(0xFFFF_FFFFu32, t.update(k, b)), body);
    lemma_regs_stay_apart(crc_update(0xFFFF_FFFFu32, t), crc_update(0xFFFF_FFFFu32, t.update(k, b)), body);
    assert(x != y ==> !x != !y) by (bit_vector);
}

/// A chunk's CRC changes when one byte of its payload changes.
pub proof fn lemma_chunk_crc_detects(t: Seq<u8>, body: Seq<u8>, k: int, b: u8)
    requires
        0 <= k < body.len(),
        body[k] != b,
    ensures
        spec_crc_chunk(t, body) != spec_crc_chunk(t, body.update(k, b)),
{
    let c = crc_update(0xFFFF_FFFFu32, t);
    lemma_crc_detects_one_byte(c, body, k, b);
    let x = crc_update(c, body);
    let y = crc_update(c, body.update(k, b));
    assert(x != y ==> !x != !y) by (bit_vector);
}

fn crc_shift_exec(c: u32) -> (r: u32)
    ensures
        r == crc_shift(c),
{
    let low = c & 1;
    assert(low == 0 || low == 1) by (bit_vector)
        requires
            low == c & 1,
    ;
    let m = 0u32.wrapping_sub(low);
    let r = (c >> 1) ^ (0xEDB8_8320u32 & m);
    assert(r == crc_shift(c)) by (bit_vector)
        requires
            low == c & 1,
            m == (if low == 1 { 0xFFFF_FFFFu32 } else { 0u32 }),
            r == (c >> 1) ^ (0xEDB8_8320u32 & m),
    ;
    r
}

/// The CRC-32 of a chunk: the type bytes followed by the payload, with the
/// usual all-ones preset and final inversion.
pub open spec fn spec_crc_chunk(t: Seq<u8>, body: Seq<u8>) -> u32 {
    !crc_update(crc_update(0xFFFF_FFFFu32, t), body)
}

fn crc_byte_exec(c: u32, b: u8) -> (r: u32)
    ensures
        r == crc_byte(c, b),
{
    let mut x = c ^ (b as u32);
    let mut k: u32 = 0;
    while k < 8
        invariant
            k <= 8,
            crc_shifts(x, (8 - k) as nat) == crc_byte(c, b),
        decreases 8 - k,
    {
        x = crc_shift_exec(x);
        k = k + 1;
    }
    x
}

/// The running CRC-32 register.
pub(crate) struct Crc32(pub(crate) u32);

impl Crc32 {
    /// Absorbs `bytes`, in order, into the register.
    pub(crate) fn update(&mut self, bytes: &[u8])
        ensures
            final(self).0 == crc_update(old(self).0, bytes@),
    {
        let mut i: usize = 0;
        while i < bytes.len()
            invariant
                i <= bytes.len(),
                self.0 == crc_update(old(self).0, bytes@.take(i as int)),
            decreases bytes.len() - i,
        {
            proof {
                assert(bytes@.take(i + 1).drop_last() =~= bytes@.take(i as int));
            }
            self.0 = crc_byte_exec(self.0, bytes[i]);
            i = i + 1;
        }
        proof {
            assert(bytes@.take(i as int) =~= bytes@);
        }
    }

    /// The final (inverted) CRC value.
    pub(crate) fn finish(self) -> (r: u32)
        ensures
            r == !self.0,
    {
        !self.0
    }
}

/// CRC-32 of a chunk's type followed by its payload.
pub fn crc_chunk(t: &[u8; 4], b: &[u8]) -> (r: u32)
    ensures
        r == spec_crc_chunk(t@, b@),
{
    let mut c = Crc32(0xFFFF_FFFF);
    c.update(t.as_slice());
    c.update(b);
    c.finish()
}

} // verus!
