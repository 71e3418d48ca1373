//! The variable-length integer encoding: one to nine bytes, most significant
//! first. Every byte contributes its low seven bits and a set high bit means
//! the varint continues; a ninth byte, when reached, contributes all eight
//! bits unconditionally.

use vstd::prelude::*;

use crate::errors::DbError;

verus! {

/// The low seven bits of a byte: its digit in the base-128 encoding.
pub open spec fn low7(b: u8) -> nat {
    (b % 128) as nat
}

/// 128 raised to `n`: the number of values an `n`-digit base-128 prefix can take.
pub open spec fn pow128(n: nat) -> nat
    decreases n,
{
    if n == 0 {
        1
    } else {
        128 * pow128((n - 1) as nat)
    }
}

/// Value of a varint whose bytes are exactly `bytes` (at most nine of them):
/// each byte contributes its low seven bits, most significant byte first,
/// except that a ninth byte contributes all eight of its bits.
pub open spec fn varint_decode(bytes: Seq<u8>) -> nat
    decreases bytes.len(),
{
    if bytes.len() == 0 {
        0
    } else if bytes.len() == 9 {
        varint_decode(bytes.drop_last()) * 256 + bytes.last() as nat
    } else {
        varint_decode(bytes.drop_last()) * 128 + low7(bytes.last())
    }
}

/// Whether a complete varint starts at `start` in `s`, given that its first
/// `k` bytes were already seen and all carried a set high bit.
pub open spec fn varint_complete_from(s: Seq<u8>, start: int, k: int) -> bool
    decreases 8 - k,
{
    if k >= 8 {
        start + 8 < s.len()
    } else if start + k >= s.len() {
        false
    } else if s[start + k] < 128 {
        true
    } else {
        varint_complete_from(s, start, k + 1)
    }
}

/// Whether a complete varint starts at `start` in `s`.
pub open spec fn varint_complete(s: Seq<u8>, start: int) -> bool {
    varint_complete_from(s, start, 0)
}

/// Byte count of the varint at `start`, counted from its `k`-th byte on;
/// meaningful when the varint is complete.
pub open spec fn varint_size_from(s: Seq<u8>, start: int, k: int) -> int
    decreases 8 - k,
{
    if k >= 8 {
        9
    } else if start + k >= s.len() {
        k + 1
    } else if s[start + k] < 128 {
        k + 1
    } else {
        varint_size_from(s, start, k + 1)
    }
}

/// Byte count of the varint at `start` in `s`.
pub open spec fn varint_size(s: Seq<u8>, start: int) -> int {
    varint_size_from(s, start, 0)
}

/// Value of the varint at `start` in `s`.
pub open spec fn varint_val(s: Seq<u8>, start: int) -> nat {
    varint_decode(s.subrange(start, start + varint_size(s, start)))
}

pub proof fn lemma_varint_size_from_range(s: Seq<u8>, start: int, k: int)
    requires
        0 <= k <= 8,
    ensures
        k + 1 <= varint_size_from(s, start, k) <= 9,
    decreases 8 - k,
{
    if k < 8 && start + k < s.len() && s[start + k] >= 128 {
        lemma_varint_size_from_range(s, start, k + 1);
    }
}

/// A varint occupies between one and nine bytes.
pub proof fn lemma_varint_size_range(s: Seq<u8>, start: int)
    ensures
        1 <= varint_size(s, start) <= 9,
{
    lemma_varint_size_from_range(s, start, 0);
}

pub proof fn lemma_pow128_pos(n: nat)
    ensures
        pow128(n) >= 1,
    decreases n,
{
    if n > 0 {
        lemma_pow128_pos((n - 1) as nat);
    }
}

pub proof fn lemma_pow128_mono(a: nat, b: nat)
    requires
        a <= b,
    ensures
        pow128(a) <= pow128(b),
    decreases b,
{
    if a < b {
        lemma_pow128_mono(a, (b - 1) as nat);
        lemma_pow128_pos((b - 1) as nat);
    }
}

pub proof fn lemma_pow128_values()
    ensures
        pow128(0) == 1,
        pow128(1) == 0x80,
        pow128(2) == 0x4000,
        pow128(3) == 0x20_0000,
        pow128(4) == 0x1000_0000,
        pow128(5) == 0x8_0000_0000,
        pow128(6) == 0x400_0000_0000,
        pow128(7) == 0x2_0000_0000_0000,
        pow128(8) == 0x100_0000_0000_0000,
{
    reveal_with_fuel(pow128, 9);
}

/// The base-128 digits of `v`, each with its high (continuation) bit set,
/// most significant first; empty when `v` is zero.
pub open spec fn varint_prefix(v: nat) -> Seq<u8>
    decreases v,
{
    if v == 0 {
        Seq::empty()
    } else {
        varint_prefix(v / 128) + seq![(v % 128 + 128) as u8]
    }
}

/// Exactly `n` base-128 digits of `v`, high bits set, most significant first.
pub open spec fn varint_prefix_n(v: nat, n: nat) -> Seq<u8>
    decreases n,
{
    if n == 0 {
        Seq::empty()
    } else {
        varint_prefix_n(v / 128, (n - 1) as nat) + seq![(v % 128 + 128) as u8]
    }
}

/// The canonical (shortest) encoding of `v`: minimal base-128 digits with
/// continuation bits and a terminating digit for values below `pow128(8)`;
/// otherwise eight continuation digits of the high 56 bits followed by one
/// full-width ninth byte.
pub open spec fn varint_encoding(v: nat) -> Seq<u8> {
    if v < pow128(8) {
        varint_prefix(v / 128) + seq![(v % 128) as u8]
    } else {
        varint_prefix_n(v / 256, 8) + seq![(v % 256) as u8]
    }
}

/// The documented byte count of the canonical encoding of `v`.
pub open spec fn varint_encoded_len(v: nat) -> int {
    if v < pow128(1) {
        1
    } else if v < pow128(2) {
        2
    } else if v < pow128(3) {
        3
    } else if v < pow128(4) {
        4
    } else if v < pow128(5) {
        5
    } else if v < pow128(6) {
        6
    } else if v < pow128(7) {
        7
    } else if v < pow128(8) {
        8
    } else {
        9
    }
}

proof fn lemma_div128_lt(u: nat, p: nat)
    requires
        u < 128 * p,
    ensures
        u / 128 < p,
{
    vstd::arithmetic::div_mod::lemma_fundamental_div_mod(u as int, 128);
}

proof fn lemma_div128_ge(u: nat, p: nat)
    requires
        u >= 128 * p,
    ensures
        u / 128 >= p,
{
    vstd::arithmetic::div_mod::lemma_fundamental_div_mod(u as int, 128);
}

proof fn lemma_prefix_len(v: nat, n: nat)
    requires
        v < pow128(n),
    ensures
        varint_prefix(v).len() <= n,
    decreases n,
{
    if v > 0 {
        lemma_pow128_pos(n);
        if n == 0 {
        } else {
            lemma_div128_lt(v, pow128((n - 1) as nat));
            lemma_prefix_len(v / 128, (n - 1) as nat);
        }
    }
}

proof fn lemma_prefix_len_lb(v: nat, n: nat)
    requires
        v >= pow128(n),
    ensures
        varint_prefix(v).len() >= n + 1,
    decreases n,
{
    lemma_pow128_pos(n);
    if n > 0 {
        lemma_div128_ge(v, pow128((n - 1) as nat));
        lemma_prefix_len_lb(v / 128, (n - 1) as nat);
    }
}

proof fn lemma_prefix_bytes(v: nat)
    ensures
        forall|i: int|
            0 <= i < varint_prefix(v).len() ==> #[trigger] varint_prefix(v)[i] >= 128,
    decreases v,
{
    if v > 0 {
        lemma_prefix_bytes(v / 128);
        let p = varint_prefix(v);
        assert forall|i: int| 0 <= i < p.len() implies #[trigger] p[i] >= 128 by {
            if i < p.len() - 1 {
                assert(p[i] == varint_prefix(v / 128)[i]);
            } else {
                assert(p[i] == (v % 128 + 128) as u8);
            }
        }
    }
}

proof fn lemma_prefix_n_bytes(v: nat, n: nat)
    ensures
        varint_prefix_n(v, n).len() == n,
        forall|i: int|
            0 <= i < n ==> #[trigger] varint_prefix_n(v, n)[i] >= 128,
    decreases n,
{
    if n > 0 {
        lemma_prefix_n_bytes(v / 128, (n - 1) as nat);
    }
}

proof fn lemma_decode_prefix(v: nat, n: nat)
    requires
        v < pow128(n),
        n <= 8,
    ensures
        varint_decode(varint_prefix(v)) == v,
    decreases n,
{
    if v > 0 {
        lemma_div128_lt(v, pow128((n - 1) as nat));
        lemma_prefix_len(v / 128, (n - 1) as nat);
        lemma_decode_prefix(v / 128, (n - 1) as nat);
        let whole = varint_prefix(v);
        assert(whole.drop_last() =~= varint_prefix(v / 128));
        vstd::arithmetic::div_mod::lemma_fundamental_div_mod(v as int, 128);
    }
}

proof fn lemma_decode_prefix_n(v: nat, n: nat)
    requires
        v < pow128(n),
        n <= 8,
    ensures
        varint_decode(varint_prefix_n(v, n)) == v,
    decreases n,
{
    if n > 0 {
        lemma_div128_lt(v, pow128((n - 1) as nat));
        lemma_prefix_n_bytes(v / 128, (n - 1) as nat);
        lemma_decode_prefix_n(v / 128, (n - 1) as nat);
        let whole = varint_prefix_n(v, n);
        assert(whole.drop_last() =~= varint_prefix_n(v / 128, (n - 1) as nat));
        vstd::arithmetic::div_mod::lemma_fundamental_div_mod(v as int, 128);
    }
}

proof fn lemma_decode_encoding(v: nat)
    requires
        v < 0x1_0000_0000_0000_0000,
    ensures
        varint_decode(varint_encoding(v)) == v,
        varint_encoding(v).len() == varint_encoded_len(v),
{
    lemma_pow128_values();
    let enc = varint_encoding(v);
    if v < pow128(8) {
        lemma_div128_lt(v, pow128(7));
        lemma_prefix_len(v / 128, 7);
        lemma_decode_prefix(v / 128, 7);
        assert(enc.drop_last() =~= varint_prefix(v / 128));
        vstd::arithmetic::div_mod::lemma_fundamental_div_mod(v as int, 128);
        // pin the exact prefix length for the byte count
        if v < pow128(1) {
            assert(v / 128 == 0) by {
                lemma_div128_lt(v, pow128(0));
            }
        } else if v < pow128(2) {
            lemma_div128_lt(v, pow128(1));
            lemma_prefix_len(v / 128, 1);
            lemma_div128_ge(v, pow128(0));
            lemma_prefix_len_lb(v / 128, 0);
        } else if v < pow128(3) {
            lemma_div128_lt(v, pow128(2));
            lemma_prefix_len(v / 128, 2);
            lemma_div128_ge(v, pow128(1));
            lemma_prefix_len_lb(v / 128, 1);
        } else if v < pow128(4) {
            lemma_div128_lt(v, pow128(3));
            lemma_prefix_len(v / 128, 3);
            lemma_div128_ge(v, pow128(2));
            lemma_prefix_len_lb(v / 128, 2);
        } else if v < pow128(5) {
            lemma_div128_lt(v, pow128(4));
            lemma_prefix_len(v / 128, 4);
            lemma_div128_ge(v, pow128(3));
            lemma_prefix_len_lb(v / 128, 3);
        } else if v < pow128(6) {
            lemma_div128_lt(v, pow128(5));
            lemma_prefix_len(v / 128, 5);
            lemma_div128_ge(v, pow128(4));
            lemma_prefix_len_lb(v / 128, 4);
        } else if v < pow128(7) {
            lemma_div128_lt(v, pow128(6));
            lemma_prefix_len(v / 128, 6);
            lemma_div128_ge(v, pow128(5));
            lemma_prefix_len_lb(v / 128, 5);
        } else {
            lemma_div128_lt(v, pow128(7));
            lemma_prefix_len(v / 128, 7);
            lemma_div128_ge(v, pow128(6));
            lemma_prefix_len_lb(v / 128, 6);
        }
    } else {
        assert(v / 256 < pow128(8)) by {
            vstd::arithmetic::div_mod::lemma_fundamental_div_mod(v as int, 256);
        }
        lemma_prefix_n_bytes(v / 256, 8);
        lemma_decode_prefix_n(v / 256, 8);
        assert(enc.drop_last() =~= varint_prefix_n(v / 256, 8));
        vstd::arithmetic::div_mod::lemma_fundamental_div_mod(v as int, 256);
    }
}

proof fn lemma_scan_terminated(s: Seq<u8>, start: int, k: int, m: int)
    requires
        0 <= k <= m <= 7,
        start + m < s.len(),
        forall|j: int| k <= j < m ==> #[trigger] s[start + j] >= 128,
        s[start + m] < 128,
    ensures
        varint_complete_from(s, start, k),
        varint_size_from(s, start, k) == m + 1,
    decreases m - k,
{
    if k < m {
        lemma_scan_terminated(s, start, k + 1, m);
    }
}

proof fn lemma_scan_full(s: Seq<u8>, start: int, k: int)
    requires
        0 <= k <= 8,
        start + 8 < s.len(),
        forall|j: int| k <= j < 8 ==> #[trigger] s[start + j] >= 128,
    ensures
        varint_complete_from(s, start, k),
        varint_size_from(s, start, k) == 9,
    decreases 8 - k,
{
    if k < 8 {
        lemma_scan_full(s, start, k + 1);
    }
}

/// Law: a canonically encoded varint embedded at `start` in a byte sequence
/// is complete there, spans exactly its own (documented) byte count, and
/// decodes back to the value it encodes.
pub proof fn lemma_varint_round_trip(v: u64, s: Seq<u8>, start: int)
    requires
        0 <= start,
        start + varint_encoding(v as nat).len() <= s.len(),
        s.subrange(start, start + varint_encoding(v as nat).len() as int)
            == varint_encoding(v as nat),
    ensures
        varint_complete(s, start),
        varint_size(s, start) == varint_encoded_len(v as nat),
        varint_encoding(v as nat).len() == varint_encoded_len(v as nat),
        varint_val(s, start) == v,
{
    lemma_pow128_values();
    lemma_decode_encoding(v as nat);
    let enc = varint_encoding(v as nat);
    let len = enc.len() as int;
    assert forall|j: int| 0 <= j < len implies s[start + j] == #[trigger] enc[j] by {
        assert(s.subrange(start, start + len)[j] == s[start + j]);
        assert(s.subrange(start, start + len)[j] == enc[j]);
    }
    if (v as nat) < pow128(8) {
        lemma_div128_lt(v as nat, pow128(7));
        lemma_prefix_len((v as nat) / 128, 7);
        lemma_prefix_bytes((v as nat) / 128);
        assert forall|j: int| 0 <= j < len - 1 implies #[trigger] s[start + j] >= 128 by {
            assert(enc[j] == varint_prefix((v as nat) / 128)[j]);
        }
        assert(enc[len - 1] == ((v as nat) % 128) as u8);
        assert(s[start + (len - 1)] < 128);
        lemma_scan_terminated(s, start, 0, len - 1);
    } else {
        lemma_prefix_n_bytes((v as nat) / 256, 8);
        assert forall|j: int| 0 <= j < 8 implies #[trigger] s[start + j] >= 128 by {
            assert(enc[j] == varint_prefix_n((v as nat) / 256, 8)[j]);
        }
        lemma_scan_full(s, start, 0);
    }
    assert(s.subrange(start, start + varint_size(s, start)) == enc);
}

fn push_prefix(out: &mut Vec<u8>, v: u64)
    ensures
        final(out)@ == old(out)@ + varint_prefix(v as nat),
    decreases v,
{
    if v > 0 {
        push_prefix(out, v / 128);
        out.push((v % 128 + 128) as u8);
        proof {
            assert(out@ =~= old(out)@ + varint_prefix(v as nat));
        }
    } else {
        proof {
            assert(out@ =~= old(out)@ + varint_prefix(0));
        }
    }
}

fn push_prefix_n(out: &mut Vec<u8>, v: u64, n: usize)
    ensures
        final(out)@ == old(out)@ + varint_prefix_n(v as nat, n as nat),
    decreases n,
{
    if n > 0 {
        push_prefix_n(out, v / 128, n - 1);
        out.push((v % 128 + 128) as u8);
        proof {
            assert(out@ =~= old(out)@ + varint_prefix_n(v as nat, n as nat));
        }
    } else {
        proof {
            assert(out@ =~= old(out)@ + varint_prefix_n(v as nat, 0));
        }
    }
}

/// Encodes `v` as its canonical (shortest) varint.
pub fn encode_varint(v: u64) -> (r: Vec<u8>)
    ensures
        r@ == varint_encoding(v as nat),
        r@.len() == varint_encoded_len(v as nat),
        1 <= r@.len() <= 9,
{
    proof {
        lemma_pow128_values();
        lemma_decode_encoding(v as nat);
    }
    let mut out: Vec<u8> = Vec::new();
    if v < 0x100_0000_0000_0000 {
        push_prefix(&mut out, v / 128);
        out.push((v % 128) as u8);
        proof {
            assert(out@ =~= varint_encoding(v as nat));
        }
    } else {
        push_prefix_n(&mut out, v / 256, 8);
        out.push((v % 256) as u8);
        proof {
            assert(out@ =~= varint_encoding(v as nat));
        }
    }
    out
}

/// Reads the varint at `pos` in `data`, returning its value and byte count,
/// or `ShortRead` when `data` ends inside the varint.
pub fn read_varint(data: &[u8], pos: usize) -> (r: Result<(u64, usize), DbError>)
    ensures
        match r {
            Ok(p) => {
                &&& varint_complete(data@, pos as int)
                &&& p.0 == varint_val(data@, pos as int)
                &&& p.1 == varint_size(data@, pos as int)
                &&& 1 <= p.1 <= 9
                &&& pos + p.1 <= data@.len()
            },
            Err(e) => !varint_complete(data@, pos as int) && e == DbError::ShortRead,
        },
{
    let ghost s = data@;
    if pos >= data.len() {
        return Err(DbError::ShortRead);
    }
    let mut k: usize = 0;
    let mut acc: u64 = 0;
    proof {
        assert(s.subrange(pos as int, pos as int) =~= Seq::<u8>::empty());
        lemma_pow128_values();
    }
    loop
        invariant
            0 <= k <= 8,
            pos + k <= s.len(),
            s == data@,
            acc == varint_decode(s.subrange(pos as int, pos + k)),
            acc < pow128(k as nat),
            varint_complete(s, pos as int) == varint_complete_from(s, pos as int, k as int),
            varint_size(s, pos as int) == varint_size_from(s, pos as int, k as int),
        decreases 8 - k,
    {
        if k == 8 {
            if data.len() - pos > 8 {
                let b = data[pos + 8];
                proof {
                    lemma_pow128_values();
                    let whole = s.subrange(pos as int, pos + 9);
                    assert(whole.drop_last() =~= s.subrange(pos as int, pos + 8));
                    assert(whole.last() == s[pos + 8]);
                }
                return Ok((acc * 256 + b as u64, 9));
            } else {
                return Err(DbError::ShortRead);
            }
        }
        if k >= data.len() - pos {
            return Err(DbError::ShortRead);
        }
        let b = data[pos + k];
        proof {
            lemma_pow128_values();
            lemma_pow128_mono(k as nat, 7);
            let ext = s.subrange(pos as int, pos + k + 1);
            assert(ext.drop_last() =~= s.subrange(pos as int, pos + k));
            assert(ext.last() == s[pos + k]);
        }
        if b < 128 {
            return Ok((acc * 128 + b as u64, k + 1));
        }
        acc = acc * 128 + (b - 128) as u64;
        k = k + 1;
    }
}

/// Reads the varint at the 64-bit offset `pos` in `data`; like
/// `read_varint`, but accepts offsets beyond the address range, which hold
/// no complete varint.
pub fn read_varint_at(data: &[u8], pos: u64) -> (r: Result<(u64, usize), DbError>)
    ensures
        match r {
            Ok(p) => {
                &&& varint_complete(data@, pos as int)
                &&& p.0 == varint_val(data@, pos as int)
                &&& p.1 == varint_size(data@, pos as int)
                &&& 1 <= p.1 <= 9
                &&& pos + p.1 <= data@.len()
            },
            Err(e) => !varint_complete(data@, pos as int) && e == DbError::ShortRead,
        },
{
    let dlen: usize = data.len();
    if pos >= dlen as u64 {
        return Err(DbError::ShortRead);
    }
    read_varint(data, pos as usize)
}

/// Parses the varint at the reader's position, which must hold one whole,
/// advancing the reader past it. Returns the decoded value and its byte
/// count.
pub fn parse_varint_from_reader(reader: &mut crate::reader::ByteReader) -> (r: (u64, usize))
    requires
        varint_complete(old(reader).data@, old(reader).pos as int),
    ensures
        r.0 == varint_val(old(reader).data@, old(reader).pos as int),
        r.1 == varint_size(old(reader).data@, old(reader).pos as int),
        final(reader).data@ == old(reader).data@,
        final(reader).pos == old(reader).pos + r.1,
{
    match reader.read_varint() {
        Ok(p) => p,
        Err(_) => {
            proof {
                assert(false);
            }
            (0, 0)
        },
    }
}

/// Parses the varint at the front of `stream`, which must hold one whole.
/// Returns the decoded value and how many bytes it occupied.
pub fn parse_varint(stream: &[u8]) -> (r: (u64, usize))
    requires
        varint_complete(stream@, 0),
    ensures
        r.0 == varint_val(stream@, 0),
        r.1 == varint_size(stream@, 0),
{
    match read_varint(stream, 0) {
        Ok(p) => p,
        Err(_) => {
            proof {
                assert(false);
            }
            (0, 0)
        },
    }
}

} // verus!
