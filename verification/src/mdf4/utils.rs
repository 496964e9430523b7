//! Unsigned integers stored in a byte stream in either byte order.

use vstd::prelude::*;

verus! {

/// `256` to the power of `n`: one more than the largest value that `n` bytes hold.
pub open spec fn pow256(n: nat) -> nat
    decreases n,
{
    if n == 0 {
        1
    } else {
        256 * pow256((n - 1) as nat)
    }
}

/// The value of `s` read least significant byte first.
pub open spec fn le_value(s: Seq<u8>) -> nat
    decreases s.len(),
{
    if s.len() == 0 {
        0
    } else {
        s[0] as nat + 256 * le_value(s.drop_first())
    }
}

/// The value of `s` read most significant byte first.
pub open spec fn be_value(s: Seq<u8>) -> nat
    decreases s.len(),
{
    if s.len() == 0 {
        0
    } else {
        be_value(s.drop_last()) * 256 + s.last() as nat
    }
}

/// The value of `s` in the given byte order.
pub open spec fn uint_value(s: Seq<u8>, little_endian: bool) -> nat {
    if little_endian {
        le_value(s)
    } else {
        be_value(s)
    }
}

/// The value of the `n` bytes of `s` that start at `pos`, in the given byte order.
pub open spec fn uint_at(s: Seq<u8>, pos: int, n: int, little_endian: bool) -> nat {
    uint_value(s.subrange(pos, pos + n), little_endian)
}

/// The `n` bytes of `x`, least significant first.
pub open spec fn le_bytes(x: nat, n: nat) -> Seq<u8>
    decreases n,
{
    if n == 0 {
        Seq::empty()
    } else {
        seq![(x % 256) as u8] + le_bytes(x / 256, (n - 1) as nat)
    }
}

/// `x` with its `n` bytes in the reverse order.
pub open spec fn swapped(x: nat, n: nat) -> nat {
    le_value(le_bytes(x, n).reverse())
}

/// Writing a value read least significant byte first back into as many bytes gives the
/// same bytes.
pub proof fn lemma_le_bytes_of_value(s: Seq<u8>)
    ensures
        le_bytes(le_value(s), s.len()) == s,
    decreases s.len(),
{
    if s.len() > 0 {
        let rest = s.drop_first();
        let v = le_value(s);
        let a: int = s[0] as int;
        let b: int = le_value(rest) as int;
        assert(v == a + 256 * b);
        assert((a + 256 * b) % 256 == a && (a + 256 * b) / 256 == b) by (nonlinear_arith)
            requires
                0 <= a < 256,
                0 <= b,
        ;
        lemma_le_bytes_of_value(rest);
        assert(le_bytes(v, s.len()) =~= seq![s[0]] + rest);
        assert(seq![s[0]] + rest =~= s);
    }
}

/// Reading bytes most significant first gives what reading them in reverse order least
/// significant first gives.
pub proof fn lemma_be_value_reversed(s: Seq<u8>)
    ensures
        be_value(s) == le_value(s.reverse()),
    decreases s.len(),
{
    if s.len() > 0 {
        let init = s.drop_last();
        lemma_be_value_reversed(init);
        assert(s.reverse()[0] == s.last());
        assert(s.reverse().drop_first() =~= init.reverse());
    }
}

/// The value of bytes read in one byte order is the value read in the other order with
/// its bytes reversed.
pub proof fn lemma_byte_orders(s: Seq<u8>)
    ensures
        be_value(s) == swapped(le_value(s), s.len()),
        le_value(s) == swapped(be_value(s), s.len()),
{
    lemma_be_value_reversed(s);
    lemma_le_bytes_of_value(s);
    lemma_be_value_reversed(s.reverse());
    assert(s.reverse().reverse() =~= s);
    lemma_le_bytes_of_value(s.reverse());
}

/// The powers of 256 that integers of up to eight bytes need.
pub proof fn lemma_pow256_values()
    ensures
        pow256(0) == 1,
        pow256(1) == 0x100,
        pow256(2) == 0x1_0000,
        pow256(3) == 0x100_0000,
        pow256(4) == 0x1_0000_0000,
        pow256(5) == 0x100_0000_0000,
        pow256(6) == 0x1_0000_0000_0000,
        pow256(7) == 0x100_0000_0000_0000,
        pow256(8) == 0x1_0000_0000_0000_0000,
{
    reveal_with_fuel(pow256, 9);
}

/// A slice holds no more than `usize::MAX` bytes.
pub proof fn lemma_slice_len(bytes: &[u8])
    ensures
        bytes@.len() <= usize::MAX,
{
    assert(bytes@.len() == vstd::slice::spec_slice_len(bytes));
}

/// A value read least significant byte first is below `256` to the power of its length.
pub proof fn lemma_le_value_bound(s: Seq<u8>)
    ensures
        le_value(s) < pow256(s.len()),
    decreases s.len(),
{
    if s.len() > 0 {
        lemma_le_value_bound(s.drop_first());
    }
}

/// A value read most significant byte first is below `256` to the power of its length.
pub proof fn lemma_be_value_bound(s: Seq<u8>)
    ensures
        be_value(s) < pow256(s.len()),
    decreases s.len(),
{
    if s.len() > 0 {
        lemma_be_value_bound(s.drop_last());
    }
}

/// The value of eight bytes fits in a `u64`.
pub proof fn lemma_uint_at_u64(s: Seq<u8>, pos: int, little_endian: bool)
    requires
        0 <= pos,
        pos + 8 <= s.len(),
    ensures
        uint_at(s, pos, 8, little_endian) < 0x1_0000_0000_0000_0000,
{
    lemma_pow256_values();
    lemma_le_value_bound(s.subrange(pos, pos + 8));
    lemma_be_value_bound(s.subrange(pos, pos + 8));
}

/// Reads the unsigned integer of `n` bytes that starts at `pos`.
pub fn read_uint(bytes: &[u8], pos: usize, n: usize, little_endian: bool) -> (v: u64)
    requires
        n <= 8,
        pos + n <= bytes@.len(),
    ensures
        v == uint_at(bytes@, pos as int, n as int, little_endian),
        v < pow256(n as nat),
{
    proof {
        lemma_pow256_values();
    }
    let len: usize = bytes.len();
    let mut acc: u64 = 0;
    if little_endian {
        let mut i: usize = n;
        assert(bytes@.subrange(pos + n, pos + n) =~= Seq::<u8>::empty());
        while i > 0
            invariant
                i <= n,
                n <= 8,
                pos + n <= bytes@.len(),
                bytes@.len() == len,
                acc == le_value(bytes@.subrange(pos + i, pos + n)),
                acc < pow256((n - i) as nat),
                pow256(8) == 0x1_0000_0000_0000_0000,
                forall|k: nat| k < 8 ==> pow256(k + 1) == 256 * #[trigger] pow256(k),
                forall|k: nat| k <= 8 ==> #[trigger] pow256(k) <= pow256(8),
            decreases i,
        {
            i = i - 1;
            assert(bytes@.subrange(pos + i, pos + n).drop_first() =~= bytes@.subrange(
                pos + i + 1,
                pos + n,
            ));
            assert(pow256((n - i) as nat) == 256 * pow256((n - i - 1) as nat));
            acc = (bytes[pos + i] as u64) + 256 * acc;
        }
        assert(bytes@.subrange(pos as int, pos + n) =~= bytes@.subrange(pos + 0, pos + n));
    } else {
        let mut i: usize = 0;
        assert(bytes@.subrange(pos as int, pos as int) =~= Seq::<u8>::empty());
        while i < n
            invariant
                i <= n,
                n <= 8,
                pos + n <= bytes@.len(),
                bytes@.len() == len,
                acc == be_value(bytes@.subrange(pos as int, pos + i)),
                acc < pow256(i as nat),
                pow256(8) == 0x1_0000_0000_0000_0000,
                forall|k: nat| k < 8 ==> pow256(k + 1) == 256 * #[trigger] pow256(k),
                forall|k: nat| k <= 8 ==> #[trigger] pow256(k) <= pow256(8),
            decreases n - i,
        {
            assert(bytes@.subrange(pos as int, pos + i + 1).drop_last() =~= bytes@.subrange(
                pos as int,
                pos + i,
            ));
            assert(pow256((i + 1) as nat) == 256 * pow256(i as nat));
            acc = acc * 256 + (bytes[pos + i] as u64);
            i = i + 1;
        }
    }
    acc
}

/// Copies the `N` bytes that start at `pos`.
pub fn read_array<const N: usize>(bytes: &[u8], pos: usize) -> (a: [u8; N])
    requires
        pos + N <= bytes@.len(),
    ensures
        a@ == bytes@.subrange(pos as int, pos + N),
{
    let len: usize = bytes.len();
    let mut a: [u8; N] = [0u8; N];
    let mut i: usize = 0;
    while i < N
        invariant
            i <= N,
            pos + N <= bytes@.len(),
            bytes@.len() == len,
            a@.len() == N,
            forall|k: int| 0 <= k < i ==> a@[k] == bytes@[pos + k],
        decreases N - i,
    {
        a[i] = bytes[pos + i];
        i = i + 1;
    }
    assert(a@ =~= bytes@.subrange(pos as int, pos + N));
    a
}

/// Copies the `n` bytes that start at `pos`.
pub fn read_vec(bytes: &[u8], pos: usize, n: usize) -> (v: Vec<u8>)
    requires
        pos + n <= bytes@.len(),
    ensures
        v@ == bytes@.subrange(pos as int, pos + n),
{
    let len: usize = bytes.len();
    let end: usize = pos + n;
    vstd::slice::slice_to_vec(vstd::slice::slice_subrange(bytes, pos, end))
}

} // verus!
