//! Little-endian integers in byte strings.

use vstd::prelude::*;

verus! {

/// The `u16` stored little-endian at offset `o` of `s`.
pub open spec fn le16(s: Seq<u8>, o: int) -> u16 {
    (s[o] + 0x100 * s[o + 1]) as u16
}

/// The `u32` stored little-endian at offset `o` of `s`.
pub open spec fn le32(s: Seq<u8>, o: int) -> u32 {
    (s[o] + 0x100 * s[o + 1] + 0x1_0000 * s[o + 2] + 0x100_0000 * s[o + 3]) as u32
}

/// The `u64` stored little-endian at offset `o` of `s`.
pub open spec fn le64(s: Seq<u8>, o: int) -> u64 {
    (le32(s, o) + 0x1_0000_0000 * le32(s, o + 4)) as u64
}

/// The two bytes of `x`, least significant first.
pub open spec fn bytes16(x: u16) -> Seq<u8> {
    seq![(x % 0x100) as u8, (x / 0x100) as u8]
}

/// The four bytes of `x`, least significant first.
pub open spec fn bytes32(x: u32) -> Seq<u8> {
    seq![
        (x % 0x100) as u8,
        (x / 0x100 % 0x100) as u8,
        (x / 0x1_0000 % 0x100) as u8,
        (x / 0x100_0000) as u8,
    ]
}

/// The eight bytes of `x`, least significant first.
pub open spec fn bytes64(x: u64) -> Seq<u8> {
    bytes32((x % 0x1_0000_0000) as u32) + bytes32((x / 0x1_0000_0000) as u32)
}

/// The sum of `a` and `b`, modulo 2^64.
pub open spec fn wrapped64(a: u64, b: u64) -> u64 {
    if a + b > u64::MAX {
        (a + b - 0x1_0000_0000_0000_0000) as u64
    } else {
        (a + b) as u64
    }
}

/// `n` zero bytes.
pub open spec fn zeros(n: nat) -> Seq<u8> {
    Seq::new(n, |i: int| 0u8)
}

/// `s` with the bytes of `new` written over it from offset `o` on.
pub open spec fn overwrite(s: Seq<u8>, o: int, new: Seq<u8>) -> Seq<u8> {
    Seq::new(
        s.len(),
        |i: int|
            if o <= i < o + new.len() {
                new[i - o]
            } else {
                s[i]
            },
    )
}

/// Reading back a stored `u16` gives the value that was stored.
pub proof fn lemma_le16_of_bytes(s: Seq<u8>, o: int, x: u16)
    requires
        0 <= o,
        o + 2 <= s.len(),
        s.subrange(o, o + 2) == bytes16(x),
    ensures
        le16(s, o) == x,
{
    let t = s.subrange(o, o + 2);
    assert(t[0] == s[o] && t[1] == s[o + 1]);
}

/// Reading back a stored `u32` gives the value that was stored.
pub proof fn lemma_le32_of_bytes(s: Seq<u8>, o: int, x: u32)
    requires
        0 <= o,
        o + 4 <= s.len(),
        s.subrange(o, o + 4) == bytes32(x),
    ensures
        le32(s, o) == x,
{
    let t = s.subrange(o, o + 4);
    assert(t[0] == s[o] && t[1] == s[o + 1] && t[2] == s[o + 2] && t[3] == s[o + 3]);
}

/// Reading back a stored `u64` gives the value that was stored.
pub proof fn lemma_le64_of_bytes(s: Seq<u8>, o: int, x: u64)
    requires
        0 <= o,
        o + 8 <= s.len(),
        s.subrange(o, o + 8) == bytes64(x),
    ensures
        le64(s, o) == x,
{
    let t = s.subrange(o, o + 8);
    let lo = (x % 0x1_0000_0000) as u32;
    let hi = (x / 0x1_0000_0000) as u32;
    assert(s.subrange(o, o + 4) =~= t.subrange(0, 4));
    assert(s.subrange(o + 4, o + 8) =~= t.subrange(4, 8));
    assert(t.subrange(0, 4) =~= bytes32(lo));
    assert(t.subrange(4, 8) =~= bytes32(hi));
    lemma_le32_of_bytes(s, o, lo);
    lemma_le32_of_bytes(s, o + 4, hi);
}

/// A stored `u32` is the same in a part of a byte string and in the whole.
pub proof fn lemma_le32_in_part(s: Seq<u8>, base: int, part: Seq<u8>, o: int)
    requires
        0 <= base,
        0 <= o,
        o + 4 <= part.len(),
        base + part.len() <= s.len(),
        s.subrange(base, base + part.len()) == part,
    ensures
        le32(s, base + o) == le32(part, o),
{
    assert(part[o] == s[base + o] && part[o + 1] == s[base + o + 1] && part[o + 2] == s[base + o
        + 2] && part[o + 3] == s[base + o + 3]);
}

/// A stored `u64` is the same in a part of a byte string and in the whole.
pub proof fn lemma_le64_in_part(s: Seq<u8>, base: int, part: Seq<u8>, o: int)
    requires
        0 <= base,
        0 <= o,
        o + 8 <= part.len(),
        base + part.len() <= s.len(),
        s.subrange(base, base + part.len()) == part,
    ensures
        le64(s, base + o) == le64(part, o),
{
    lemma_le32_in_part(s, base, part, o);
    lemma_le32_in_part(s, base, part, o + 4);
}

/// Bytes that are written elsewhere leave a stored `u16` as it is.
pub proof fn lemma_overwrite_apart16(s: Seq<u8>, o: int, new: Seq<u8>, at: int)
    requires
        0 <= at,
        at + 2 <= s.len(),
        at + 2 <= o || o + new.len() <= at,
    ensures
        le16(overwrite(s, o, new), at) == le16(s, at),
{
}

/// What was written is what is read.
pub proof fn lemma_overwrite_here(s: Seq<u8>, o: int, new: Seq<u8>)
    requires
        0 <= o,
        o + new.len() <= s.len(),
    ensures
        overwrite(s, o, new).subrange(o, o + new.len()) == new,
{
    assert(overwrite(s, o, new).subrange(o, o + new.len()) =~= new);
}

/// Read the `u16` at offset `o`.
pub fn get_u16(s: &[u8], o: usize) -> (r: u16)
    requires
        o + 2 <= s.len(),
    ensures
        r == le16(s@, o as int),
{
    s[o] as u16 + 0x100 * (s[o + 1] as u16)
}

/// Read the `u32` at offset `o`.
pub fn get_u32(s: &[u8], o: usize) -> (r: u32)
    requires
        o + 4 <= s.len(),
    ensures
        r == le32(s@, o as int),
{
    s[o] as u32 + 0x100 * (s[o + 1] as u32) + 0x1_0000 * (s[o + 2] as u32) + 0x100_0000 * (s[o
        + 3] as u32)
}

/// Read the `u64` at offset `o`.
pub fn get_u64(s: &[u8], o: usize) -> (r: u64)
    requires
        o + 8 <= s.len(),
    ensures
        r == le64(s@, o as int),
{
    get_u32(s, o) as u64 + 0x1_0000_0000 * (get_u32(s, o + 4) as u64)
}

/// Append the bytes of `new`.
pub fn push_bytes(out: &mut Vec<u8>, new: &[u8])
    ensures
        final(out)@ == old(out)@ + new@,
{
    out.extend_from_slice(new);
    assert(out@ =~= old(out)@ + new@);
}

/// Append `n` zero bytes.
pub fn push_zeros(out: &mut Vec<u8>, n: usize)
    ensures
        final(out)@ == old(out)@ + zeros(n as nat),
{
    let mut i: usize = 0;
    while i < n
        invariant
            i <= n,
            out@ == old(out)@ + zeros(i as nat),
        decreases n - i,
    {
        out.push(0);
        i = i + 1;
        assert(out@ =~= old(out)@ + zeros(i as nat));
    }
}

/// Append `x` little-endian.
pub fn push_u16(out: &mut Vec<u8>, x: u16)
    ensures
        final(out)@ == old(out)@ + bytes16(x),
{
    out.push((x % 0x100) as u8);
    out.push((x / 0x100) as u8);
    assert(out@ =~= old(out)@ + bytes16(x));
}

/// Append `x` little-endian.
pub fn push_u32(out: &mut Vec<u8>, x: u32)
    ensures
        final(out)@ == old(out)@ + bytes32(x),
{
    out.push((x % 0x100) as u8);
    out.push((x / 0x100 % 0x100) as u8);
    out.push((x / 0x1_0000 % 0x100) as u8);
    out.push((x / 0x100_0000) as u8);
    assert(out@ =~= old(out)@ + bytes32(x));
}

/// Append `x` little-endian.
pub fn push_u64(out: &mut Vec<u8>, x: u64)
    ensures
        final(out)@ == old(out)@ + bytes64(x),
{
    push_u32(out, (x % 0x1_0000_0000) as u32);
    push_u32(out, (x / 0x1_0000_0000) as u32);
    assert(out@ =~= old(out)@ + bytes64(x));
}

/// Write the bytes of `new` over `out` from offset `o` on.
pub fn put_bytes(out: &mut Vec<u8>, o: usize, new: &[u8])
    requires
        o + new@.len() <= old(out).len(),
    ensures
        final(out)@ == overwrite(old(out)@, o as int, new@),
{
    let mut i: usize = 0;
    while i < new.len()
        invariant
            i <= new@.len(),
            o + new@.len() <= old(out).len(),
            out.len() == old(out).len(),
            out@ == overwrite(old(out)@, o as int, new@.subrange(0, i as int)),
        decreases new@.len() - i,
    {
        out.set(o + i, new[i]);
        i = i + 1;
        assert(out@ =~= overwrite(old(out)@, o as int, new@.subrange(0, i as int)));
    }
    assert(new@.subrange(0, new@.len() as int) =~= new@);
    assert(out@ =~= overwrite(old(out)@, o as int, new@));
}

/// Store `x` little-endian at offset `o`.
pub fn put_u64(out: &mut Vec<u8>, o: usize, x: u64)
    requires
        o + 8 <= old(out)@.len(),
    ensures
        final(out)@ == overwrite(old(out)@, o as int, bytes64(x)),
{
    let mut b: Vec<u8> = Vec::new();
    push_u64(&mut b, x);
    assert(b@ =~= bytes64(x));
    put_bytes(out, o, b.as_slice());
}

/// The number after `n`, modulo 2^64.
pub open spec fn next_number(n: u64) -> u64 {
    if n == u64::MAX {
        0
    } else {
        (n + 1) as u64
    }
}

/// The number after `n`, modulo 2^64.
pub fn following(n: u64) -> (r: u64)
    ensures
        r == next_number(n),
{
    n.wrapping_add(1)
}

/// Whether two byte strings are the same.
pub fn same_bytes(a: &[u8], b: &[u8]) -> (r: bool)
    ensures
        r == (a@ == b@),
{
    if a.len() != b.len() {
        return false;
    }
    let mut i: usize = 0;
    while i < a.len()
        invariant
            i <= a.len(),
            a.len() == b.len(),
            forall|j: int| 0 <= j < i ==> a@[j] == b@[j],
        decreases a.len() - i,
    {
        if a[i] != b[i] {
            assert(a@[i as int] != b@[i as int]);
            return false;
        }
        i = i + 1;
    }
    assert(a@ =~= b@);
    true
}

} // verus!
