//! Little-endian integers: what they look like as bytes, and how they are
//! written and read.

use vstd::prelude::*;

verus! {

/// `256` to the power of `n`.
pub open spec fn pow256(n: nat) -> nat
    decreases n,
{
    if n == 0 {
        1
    } else {
        256 * pow256((n - 1) as nat)
    }
}

/// The `n` lowest bytes of `x`, least significant first.
pub open spec fn le_bytes(x: nat, n: nat) -> Seq<u8>
    decreases n,
{
    if n == 0 {
        Seq::empty()
    } else {
        seq![(x % 256) as u8] + le_bytes(x / 256, (n - 1) as nat)
    }
}

/// The number whose little-endian bytes are `s`.
pub open spec fn le_value(s: Seq<u8>) -> nat
    decreases s.len(),
{
    if s.len() == 0 {
        0
    } else {
        s[0] as nat + 256 * le_value(s.drop_first())
    }
}

/// The encoding of `x` in `n` bytes has `n` bytes.
pub proof fn le_bytes_len(x: nat, n: nat)
    ensures
        le_bytes(x, n).len() == n,
    decreases n,
{
    if n > 0 {
        le_bytes_len(x / 256, (n - 1) as nat);
    }
}

/// Reading back what was written gives the number, as far as it fits.
pub proof fn le_round_trip(x: nat, n: nat)
    requires
        x < pow256(n),
    ensures
        le_value(le_bytes(x, n)) == x,
    decreases n,
{
    if n > 0 {
        le_bytes_len(x / 256, (n - 1) as nat);
        assert(x / 256 < pow256((n - 1) as nat)) by (nonlinear_arith)
            requires
                x < 256 * pow256((n - 1) as nat),
        ;
        le_round_trip(x / 256, (n - 1) as nat);
        assert(le_bytes(x, n).drop_first() =~= le_bytes(x / 256, (n - 1) as nat));
    }
}

/// What `n` bytes stand for is below `256` to the `n`.
pub proof fn le_value_bound(s: Seq<u8>)
    ensures
        le_value(s) < pow256(s.len()),
    decreases s.len(),
{
    if s.len() > 0 {
        le_value_bound(s.drop_first());
    }
}

/// Encoding the number that bytes stand for gives the bytes back.
pub proof fn le_value_bytes(s: Seq<u8>)
    ensures
        le_bytes(le_value(s), s.len()) == s,
    decreases s.len(),
{
    if s.len() > 0 {
        le_value_bytes(s.drop_first());
        let rest = le_value(s.drop_first());
        assert((s[0] as nat + 256 * rest) % 256 == s[0] as nat);
        assert((s[0] as nat + 256 * rest) / 256 == rest);
        assert(le_bytes(le_value(s), s.len()) =~= s);
    } else {
        assert(le_bytes(le_value(s), s.len()) =~= s);
    }
}

/// The bounds of the widths in use.
pub proof fn pow256_values()
    ensures
        pow256(1) == 0x100,
        pow256(2) == 0x1_0000,
        pow256(4) == 0x1_0000_0000,
        pow256(8) == 0x1_0000_0000_0000_0000,
{
    reveal_with_fuel(pow256, 9);
}

/// Append the `n` lowest bytes of `x` to `out`, least significant first.
pub fn put_le(out: &mut Vec<u8>, x: u64, n: usize)
    ensures
        final(out)@ == old(out)@ + le_bytes(x as nat, n as nat),
{
    let mut rest: u64 = x;
    let mut i: usize = 0;
    assert(out@ =~= out@ + Seq::<u8>::empty());
    while i < n
        invariant
            i <= n,
            old(out)@ + le_bytes(x as nat, n as nat) == out@ + le_bytes(
                rest as nat,
                (n - i) as nat,
            ),
        decreases n - i,
    {
        let ghost before = out@;
        let ghost tail = le_bytes((rest / 256) as nat, (n - i - 1) as nat);
        let byte: u8 = (rest % 256) as u8;
        out.push(byte);
        assert(before + (seq![byte] + tail) =~= before.push(byte) + tail);
        rest = rest / 256;
        i += 1;
    }
    assert(out@ + Seq::<u8>::empty() =~= out@);
}

/// The number that the `n` bytes of `b` from `pos` on stand for.
pub fn get_le(b: &[u8], pos: usize, n: usize) -> (x: u64)
    requires
        n <= 8,
        pos + n <= b@.len(),
    ensures
        x as nat == le_value(b@.subrange(pos as int, pos + n)),
{
    let mut x: u64 = 0;
    let mut i: usize = n;
    proof {
        assert(b@.subrange(pos + n, pos + n).len() == 0);
    }
    while i > 0
        invariant
            i <= n <= 8,
            pos + n <= b@.len(),
            x as nat == le_value(b@.subrange(pos + i, pos + n)),
        decreases i,
    {
        i -= 1;
        proof {
            assert(pos + i < b.len());
            let s = b@.subrange(pos + i, pos + n);
            assert(s.drop_first() =~= b@.subrange(pos + i + 1, pos + n));
            le_value_bound(s);
            pow256_values();
            pow256_monotone(s.len(), 8);
        }
        x = x * 256 + b[pos + i] as u64;
    }
    x
}

/// `pow256` does not decrease.
pub proof fn pow256_monotone(m: nat, n: nat)
    requires
        m <= n,
    ensures
        pow256(m) <= pow256(n),
    decreases n,
{
    if m < n {
        pow256_monotone(m, (n - 1) as nat);
    }
}

} // verus!
