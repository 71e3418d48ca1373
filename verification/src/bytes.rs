//! Big-endian integer fields: the mathematical value of a run of bytes and
//! a checked exec reader for it.

use vstd::prelude::*;

verus! {

broadcast use vstd::slice::axiom_spec_len;

/// 256 raised to `n`: the number of values `n` bytes can take.
pub open spec fn pow256(n: nat) -> nat
    decreases n,
{
    if n == 0 {
        1
    } else {
        256 * pow256((n - 1) as nat)
    }
}

/// The unsigned big-endian value of the `n` bytes at `pos` in `s`.
pub open spec fn be_uint(s: Seq<u8>, pos: int, n: nat) -> nat
    decreases n,
{
    if n == 0 {
        0
    } else {
        be_uint(s, pos, (n - 1) as nat) * 256 + s[pos + n - 1] as nat
    }
}

/// The two's-complement signed value of the `n` bytes at `pos` in `s`.
pub open spec fn be_sint(s: Seq<u8>, pos: int, n: nat) -> int {
    let u = be_uint(s, pos, n);
    if 2 * u >= pow256(n) {
        u - pow256(n)
    } else {
        u as int
    }
}

pub proof fn lemma_pow256_values()
    ensures
        pow256(0) == 1,
        pow256(1) == 0x100,
        pow256(2) == 0x1_0000,
        pow256(3) == 0x100_0000,
        pow256(4) == 0x1_0000_0000,
        pow256(5) == 0x100_0000_0000,
        pow256(6) == 0x1_0000_0000_0000,
        pow256(7) == 0x100_0000_0000_0000,
        pow256(8) == 0x1_0000_0000_0000_0000,
{
    reveal_with_fuel(pow256, 9);
}

pub proof fn lemma_pow256_mono(a: nat, b: nat)
    requires
        a <= b,
    ensures
        pow256(a) <= pow256(b),
    decreases b,
{
    if a < b {
        lemma_pow256_mono(a, (b - 1) as nat);
        if b >= 1 {
            assert(pow256(b) == 256 * pow256((b - 1) as nat));
        }
    }
}

/// `n` bytes hold a value below `pow256(n)`.
pub proof fn lemma_be_uint_bound(s: Seq<u8>, pos: int, n: nat)
    ensures
        be_uint(s, pos, n) < pow256(n),
    decreases n,
{
    if n > 0 {
        lemma_be_uint_bound(s, pos, (n - 1) as nat);
    }
}

/// Reads the `n`-byte (`n <= 8`) unsigned big-endian field at `pos`.
pub fn read_be_uint(data: &[u8], pos: usize, n: usize) -> (r: u64)
    requires
        n <= 8,
        pos + n <= data@.len(),
    ensures
        r == be_uint(data@, pos as int, n as nat),
{
    proof {
        lemma_pow256_values();
    }
    let dlen: usize = data.len();
    let mut acc: u64 = 0;
    let mut j: usize = 0;
    while j < n
        invariant
            0 <= j <= n <= 8,
            pos + n <= data@.len(),
            data@.len() == dlen,
            acc == be_uint(data@, pos as int, j as nat),
            acc < pow256(j as nat),
        decreases n - j,
    {
        proof {
            lemma_pow256_mono(j as nat, 7);
            lemma_pow256_values();
        }
        acc = acc * 256 + data[pos + j] as u64;
        j = j + 1;
    }
    acc
}

} // verus!
