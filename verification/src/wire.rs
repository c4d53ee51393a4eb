//! Little-endian integer fields on a byte buffer.
//!
//! Every multi-byte field of the protocol is an unsigned integer written
//! least significant byte first, with no padding between fields.  This module
//! gives that encoding a mathematical meaning (`le_value`, `le_bytes`) and the
//! two executable primitives that the packet codecs are built from.

use vstd::prelude::*;

verus! {

/// `256^n`.
pub open spec fn pow256(n: nat) -> nat
    decreases n,
{
    if n == 0 {
        1
    } else {
        256 * pow256((n - 1) as nat)
    }
}

/// The number that the bytes `b` spell, least significant byte first.
pub open spec fn le_value(b: Seq<u8>) -> nat
    decreases b.len(),
{
    if b.len() == 0 {
        0
    } else {
        b[0] as nat + 256 * le_value(b.drop_first())
    }
}

/// The `n` low-order bytes of `v`, least significant byte first.
pub open spec fn le_bytes(v: nat, n: nat) -> Seq<u8>
    decreases n,
{
    if n == 0 {
        Seq::empty()
    } else {
        seq![(v % 256) as u8] + le_bytes(v / 256, (n - 1) as nat)
    }
}

/// A power of 256 is at least 1.
pub proof fn lemma_pow256_positive(n: nat)
    ensures
        pow256(n) >= 1,
    decreases n,
{
    if n > 0 {
        lemma_pow256_positive((n - 1) as nat);
    }
}

/// The widths that the protocol uses, as numbers.
pub proof fn lemma_pow256_values()
    ensures
        pow256(0) == 1,
        pow256(1) == 0x100,
        pow256(2) == 0x1_0000,
        pow256(4) == 0x1_0000_0000,
        pow256(8) == 0x1_0000_0000_0000_0000,
        pow256(16) == 0x1_0000_0000_0000_0000_0000_0000_0000_0000,
{
    reveal_with_fuel(pow256, 17);
}

/// A field of `n` bytes has `n` bytes.
pub proof fn lemma_le_bytes_len(v: nat, n: nat)
    ensures
        le_bytes(v, n).len() == n,
    decreases n,
{
    if n > 0 {
        lemma_le_bytes_len(v / 256, (n - 1) as nat);
    }
}

/// A sequence of `n` bytes spells a number below `256^n`.
pub proof fn lemma_le_value_bound(b: Seq<u8>)
    ensures
        le_value(b) < pow256(b.len()),
    decreases b.len(),
{
    if b.len() > 0 {
        lemma_le_value_bound(b.drop_first());
    }
}

/// Reading back what was written gives the number, when it fits the width.
pub proof fn lemma_le_value_of_bytes(v: nat, n: nat)
    requires
        v < pow256(n),
    ensures
        le_value(le_bytes(v, n)) == v,
    decreases n,
{
    if n > 0 {
        let rest = le_bytes(v / 256, (n - 1) as nat);
        let b = le_bytes(v, n);
        assert(b.drop_first() =~= rest);
        assert(b[0] == (v % 256) as u8);
        lemma_le_value_of_bytes(v / 256, (n - 1) as nat);
    }
}

/// Writing the number that some bytes spell gives those bytes again.
pub proof fn lemma_le_bytes_of_value(b: Seq<u8>)
    ensures
        le_bytes(le_value(b), b.len()) == b,
    decreases b.len(),
{
    if b.len() > 0 {
        let v = le_value(b);
        let tail = b.drop_first();
        lemma_le_bytes_of_value(tail);
        assert(v % 256 == b[0] as nat);
        assert(v / 256 == le_value(tail));
        assert(le_bytes(v, b.len()) =~= b);
    } else {
        assert(le_bytes(le_value(b), 0) =~= b);
    }
}

/// Appending the bytes of a field one at a time gives `le_bytes`.
pub proof fn lemma_le_bytes_push(v: nat, n: nat)
    ensures
        le_bytes(v, n + 1) == le_bytes(v, n).push(((v / pow256(n)) % 256) as u8),
    decreases n,
{
    if n == 0 {
        assert(le_bytes(v / 256, 0) =~= Seq::<u8>::empty());
        assert(le_bytes(v, 1) =~= seq![(v % 256) as u8]);
        assert(le_bytes(v, 0).push(((v / 1) % 256) as u8) =~= seq![(v % 256) as u8]);
    } else {
        lemma_le_bytes_push(v / 256, (n - 1) as nat);
        lemma_pow256_positive((n - 1) as nat);
        let p = pow256((n - 1) as nat);
        assert((v / 256) / p == v / (256 * p)) by (nonlinear_arith)
            requires
                p >= 1,
        ;
        assert(le_bytes(v, n + 1) =~= seq![(v % 256) as u8] + le_bytes(v / 256, n));
        assert(le_bytes(v, n + 1) =~= le_bytes(v, n).push(((v / pow256(n)) % 256) as u8));
    }
}

/// Appends the `n` low-order bytes of `v` to `buf`, least significant first.
pub fn put_le(buf: &mut Vec<u8>, v: u128, n: usize)
    requires
        n <= 16,
    ensures
        final(buf)@ == old(buf)@ + le_bytes(v as nat, n as nat),
{
    let mut rest: u128 = v;
    let mut i: usize = 0;
    proof {
        assert(buf@ =~= old(buf)@ + le_bytes(v as nat, 0));
        assert(pow256(0) == 1);
    }
    while i < n
        invariant
            i <= n <= 16,
            rest as nat == (v as nat) / pow256(i as nat),
            buf@ == old(buf)@ + le_bytes(v as nat, i as nat),
        decreases n - i,
    {
        let low: u8 = (rest % 256) as u8;
        proof {
            lemma_le_bytes_push(v as nat, i as nat);
            lemma_pow256_positive(i as nat);
            let p = pow256(i as nat);
            assert(((v as nat) / p) / 256 == (v as nat) / (256 * p)) by (nonlinear_arith)
                requires
                    p >= 1,
            ;
            assert((old(buf)@ + le_bytes(v as nat, i as nat)).push(low) =~= old(buf)@
                + le_bytes(v as nat, i as nat).push(low));
        }
        buf.push(low);
        rest = rest / 256;
        i = i + 1;
    }
}

/// Reads the `n`-byte field that starts at `off`.
pub fn get_le(buf: &[u8], off: usize, n: usize) -> (v: u128)
    requires
        n <= 16,
        off + n <= buf@.len(),
    ensures
        v as nat == le_value(buf@.subrange(off as int, off + n)),
{
    let total: usize = buf.len();
    let mut acc: u128 = 0;
    let mut i: usize = n;
    proof {
        assert(buf@.subrange(off + n, off + n) =~= Seq::<u8>::empty());
    }
    while i > 0
        invariant
            i <= n <= 16,
            off + n <= buf@.len() == total,
            acc as nat == le_value(buf@.subrange(off + i, off + n)),
        decreases i,
    {
        i = i - 1;
        let b: u8 = buf[off + i];
        proof {
            let hi = buf@.subrange(off + i + 1, off + n);
            let cur = buf@.subrange(off + i, off + n);
            assert(cur.drop_first() =~= hi);
            assert(cur[0] == b);
            lemma_le_value_bound(hi);
            lemma_le_value_bound(cur);
            lemma_pow256_grows(cur.len(), 16);
            lemma_pow256_values();
        }
        acc = acc * 256 + (b as u128);
    }
    acc
}

/// The powers of 256 grow with the exponent.
pub proof fn lemma_pow256_grows(a: nat, b: nat)
    requires
        a <= b,
    ensures
        pow256(a) <= pow256(b),
    decreases b,
{
    if a < b {
        lemma_pow256_grows(a, (b - 1) as nat);
    }
}

/// The length of `le_bytes(v, n)`, for every use of it.
pub broadcast proof fn lemma_le_bytes_len_auto(v: nat, n: nat)
    ensures
        #[trigger] le_bytes(v, n).len() == n,
{
    lemma_le_bytes_len(v, n);
}

/// The field of `n` bytes that starts at `off` in `b`, as a number.
pub open spec fn field(b: Seq<u8>, off: int, n: int) -> nat {
    le_value(b.subrange(off, off + n))
}

/// Where the image of a number stands in a buffer, the field reads as that
/// number.
pub proof fn lemma_field(b: Seq<u8>, off: int, v: nat, n: nat)
    requires
        0 <= off,
        off + n <= b.len(),
        v < pow256(n),
        b.subrange(off, off + n) == le_bytes(v, n),
    ensures
        field(b, off, n as int) == v,
{
    lemma_le_value_of_bytes(v, n);
}

/// Two buffers that agree on a field's bytes agree on its number, and the
/// other way round.
pub proof fn lemma_field_bytes(b: Seq<u8>, off: int, n: nat)
    requires
        0 <= off,
        off + n <= b.len(),
    ensures
        le_bytes(field(b, off, n as int), n) == b.subrange(off, off + n),
        field(b, off, n as int) < pow256(n),
{
    lemma_le_bytes_of_value(b.subrange(off, off + n));
    lemma_le_value_bound(b.subrange(off, off + n));
}

/// Reads the byte at `off`.
pub fn get_u8(buf: &[u8], off: usize) -> (v: u8)
    requires
        off + 1 <= buf@.len(),
    ensures
        v as nat == field(buf@, off as int, 1),
        v == buf@[off as int],
{
    let v = buf[off];
    proof {
        let s = buf@.subrange(off as int, off + 1);
        assert(s.drop_first() =~= Seq::<u8>::empty());
        assert(le_value(s.drop_first()) == 0);
        assert(s[0] == v);
    }
    v
}

/// Reads the 16-bit field at `off`.
pub fn get_u16(buf: &[u8], off: usize) -> (v: u16)
    requires
        off + 2 <= buf@.len(),
    ensures
        v as nat == field(buf@, off as int, 2),
{
    let v = get_le(buf, off, 2);
    proof {
        lemma_le_value_bound(buf@.subrange(off as int, off + 2));
        lemma_pow256_values();
    }
    v as u16
}

/// Reads the 32-bit field at `off`.
pub fn get_u32(buf: &[u8], off: usize) -> (v: u32)
    requires
        off + 4 <= buf@.len(),
    ensures
        v as nat == field(buf@, off as int, 4),
{
    let v = get_le(buf, off, 4);
    proof {
        lemma_le_value_bound(buf@.subrange(off as int, off + 4));
        lemma_pow256_values();
    }
    v as u32
}

/// Reads the 64-bit field at `off`.
pub fn get_u64(buf: &[u8], off: usize) -> (v: u64)
    requires
        off + 8 <= buf@.len(),
    ensures
        v as nat == field(buf@, off as int, 8),
{
    let v = get_le(buf, off, 8);
    proof {
        lemma_le_value_bound(buf@.subrange(off as int, off + 8));
        lemma_pow256_values();
    }
    v as u64
}

/// Reads the 128-bit field at `off`.
pub fn get_u128(buf: &[u8], off: usize) -> (v: u128)
    requires
        off + 16 <= buf@.len(),
    ensures
        v as nat == field(buf@, off as int, 16),
{
    get_le(buf, off, 16)
}

/// Reads the four raw bytes at `off`.
pub fn get_octets(buf: &[u8], off: usize) -> (r: [u8; 4])
    requires
        off + 4 <= buf@.len(),
    ensures
        r@ == buf@.subrange(off as int, off + 4),
{
    let r: [u8; 4] = [buf[off], buf[off + 1], buf[off + 2], buf[off + 3]];
    assert(r@ =~= buf@.subrange(off as int, off + 4));
    r
}

/// Appends four raw bytes.
pub fn put_octets(buf: &mut Vec<u8>, a: &[u8; 4])
    ensures
        final(buf)@ == old(buf)@ + a@,
{
    buf.push(a[0]);
    buf.push(a[1]);
    buf.push(a[2]);
    buf.push(a[3]);
    assert(buf@ =~= old(buf)@ + a@);
}

} // verus!
