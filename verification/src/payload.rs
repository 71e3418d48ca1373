//! The payload reader: a leaf cell's row id and payload, following the
//! overflow chain when the payload does not fit on the B-tree page.
//!
//! For usable page size `U` (no reserved space) and declared payload size
//! `P`: payloads of at most `X = U - 35` bytes are stored wholly inline.
//! Larger ones keep an inline prefix of `K = M + ((P - M) mod (U - 4))`
//! bytes if `K <= X`, else of `M = (U - 12) * 32 / 255 - 23` bytes, and the
//! rest lives on a chain of overflow pages, each holding a four-byte
//! next-page pointer and then payload content.

use vstd::prelude::*;

use crate::bytes::{be_uint, lemma_be_uint_bound, lemma_pow256_values};
use crate::db::{page_base, Database};
use crate::errors::DbError;
use crate::varint::{varint_complete, varint_size, varint_val};

verus! {

broadcast use vstd::std_specs::vec::axiom_spec_len;

/// `X`: the largest payload stored wholly inline on a table leaf page.
pub open spec fn spec_inline_max(page_size: nat) -> int {
    page_size - 35
}

/// `M`: the smallest inline prefix an overflowing payload keeps.
pub open spec fn spec_min_inline(page_size: nat) -> int {
    (page_size - 12) * 32 / 255 - 23
}

/// `K`: the preferred inline prefix of an overflowing payload of size `p`.
pub open spec fn spec_overflow_split(page_size: nat, p: nat) -> int {
    spec_min_inline(page_size) + ((p - spec_min_inline(page_size)) % (page_size - 4))
}

/// The inline byte count of a payload of size `p` on a page of size
/// `page_size` (meaningful when `p` exceeds `X`).
pub open spec fn spec_inline_len(page_size: nat, p: nat) -> int {
    if spec_overflow_split(page_size, p) <= spec_inline_max(page_size) {
        spec_overflow_split(page_size, p)
    } else {
        spec_min_inline(page_size)
    }
}

/// The `needed` payload bytes reached from overflow page `page`: each page
/// starts with a four-byte pointer to the next page (zero ends the chain)
/// and contributes its remaining bytes in chain order.
pub open spec fn spec_overflow_chain(
    d: Seq<u8>,
    page_size: nat,
    page_count: nat,
    page: nat,
    needed: nat,
) -> Result<Seq<u8>, DbError>
    decreases needed,
{
    if needed == 0 {
        Ok(Seq::empty())
    } else if page_size < 5 {
        Err(DbError::TruncatedOverflow)
    } else if page == 0 {
        Err(DbError::TruncatedOverflow)
    } else if page > page_count {
        Err(DbError::PageOutOfRange)
    } else {
        let base = page_base(page, page_size);
        let avail = (page_size - 4) as nat;
        let take: nat = if needed <= avail {
            needed
        } else {
            avail
        };
        if base + 4 + take > d.len() {
            Err(DbError::ShortRead)
        } else {
            let chunk = d.subrange(base + 4, base + 4 + take);
            if needed <= avail {
                Ok(chunk)
            } else {
                let next = be_uint(d, base, 4);
                match spec_overflow_chain(d, page_size, page_count, next, (needed - avail) as nat) {
                    Ok(rest) => Ok(chunk + rest),
                    Err(e) => Err(e),
                }
            }
        }
    }
}

/// The leaf cell at byte `offset` of page `page_num`: the row id and the
/// fully reconstructed payload, overflow pages already followed. Callers
/// never observe the overflow mechanism.
pub open spec fn spec_leaf_cell(
    d: Seq<u8>,
    page_size: nat,
    page_count: nat,
    page_num: nat,
    offset: nat,
) -> Result<(nat, Seq<u8>), DbError> {
    let pos = page_base(page_num, page_size) + offset;
    if !varint_complete(d, pos) {
        Err(DbError::ShortRead)
    } else {
        let n1 = varint_size(d, pos);
        let p = varint_val(d, pos);
        if !varint_complete(d, pos + n1) {
            Err(DbError::ShortRead)
        } else {
            let n2 = varint_size(d, pos + n1);
            let row_id = varint_val(d, pos + n1);
            let body = pos + n1 + n2;
            if p <= spec_inline_max(page_size) {
                if body + p > d.len() {
                    Err(DbError::ShortRead)
                } else {
                    Ok((row_id, d.subrange(body, body + p)))
                }
            } else {
                let inline = spec_inline_len(page_size, p);
                if body + inline + 4 > d.len() {
                    Err(DbError::ShortRead)
                } else {
                    let next = be_uint(d, body + inline, 4);
                    match spec_overflow_chain(d, page_size, page_count, next, (p - inline) as nat) {
                        Ok(rest) => Ok((row_id, d.subrange(body, body + inline) + rest)),
                        Err(e) => Err(e),
                    }
                }
            }
        }
    }
}

/// Copies `data[start..start + n]` into a fresh vector.
fn read_range(data: &[u8], start: usize, n: usize) -> (r: Vec<u8>)
    requires
        start + n <= data@.len(),
    ensures
        r@ == data@.subrange(start as int, start + n),
{
    let dlen: usize = data.len();
    let mut out: Vec<u8> = Vec::new();
    let mut i: usize = 0;
    while i < n
        invariant
            0 <= i <= n,
            start + n <= data@.len(),
            data@.len() == dlen,
            out@ == data@.subrange(start as int, start + i),
        decreases n - i,
    {
        out.push(data[start + i]);
        proof {
            assert(out@ =~= data@.subrange(start as int, start + i + 1));
        }
        i = i + 1;
    }
    out
}

/// The bounds `M` and `X` behave for every accepted page size:
/// `23 <= M < X`.
proof fn lemma_inline_bounds(page_size: nat)
    requires
        512 <= page_size <= 65536,
    ensures
        23 <= spec_min_inline(page_size) < spec_inline_max(page_size),
{
    let q = (page_size - 12) as int;
    vstd::arithmetic::div_mod::lemma_div_is_ordered(16000, q * 32, 255);
    assert(16000int / 255 == 62);
    vstd::arithmetic::div_mod::lemma_div_is_ordered(q * 32, 255 * (q - 1), 255);
    vstd::arithmetic::div_mod::lemma_div_multiples_vanish(q - 1, 255);
}

/// The remainder of a nonnegative value is no larger than the value, so an
/// overflowing payload's inline prefix never exceeds the payload.
proof fn lemma_mod_le(a: int, b: int)
    requires
        a >= 0,
        b > 0,
    ensures
        0 <= a % b <= a,
{
    vstd::arithmetic::div_mod::lemma_fundamental_div_mod(a, b);
    vstd::arithmetic::div_mod::lemma_div_pos_is_pos(a, b);
    assert(b * (a / b) >= 0) by (nonlinear_arith)
        requires
            b > 0,
            a / b >= 0,
    ;
}

/// Reconstructs `needed` payload bytes from the overflow chain starting at
/// page `first`.
fn read_overflow_chain(db: &Database, first: u32, needed: u64) -> (r: Result<Vec<u8>, DbError>)
    requires
        db.wf(),
    ensures
        match r {
            Ok(v) => spec_overflow_chain(
                db.data@,
                db.page_size as nat,
                db.page_count as nat,
                first as nat,
                needed as nat,
            ) == Ok::<Seq<u8>, DbError>(v@),
            Err(e) => spec_overflow_chain(
                db.data@,
                db.page_size as nat,
                db.page_count as nat,
                first as nat,
                needed as nat,
            ) == Err::<Seq<u8>, DbError>(e),
        },
{
    let ghost d = db.data@;
    let ghost ps = db.page_size as nat;
    let ghost pc = db.page_count as nat;
    let mut page: u32 = first;
    let mut remaining: u64 = needed;
    let mut acc: Vec<u8> = Vec::new();
    let dlen: usize = db.data.len();
    proof {
        lemma_pow256_values();
    }
    while remaining > 0
        invariant
            db.wf(),
            d == db.data@,
            ps == db.page_size as nat,
            pc == db.page_count as nat,
            d.len() == dlen,
            match spec_overflow_chain(d, ps, pc, page as nat, remaining as nat) {
                Ok(rest) => spec_overflow_chain(d, ps, pc, first as nat, needed as nat)
                    == Ok::<Seq<u8>, DbError>(acc@ + rest),
                Err(e) => spec_overflow_chain(d, ps, pc, first as nat, needed as nat)
                    == Err::<Seq<u8>, DbError>(e),
            },
        decreases remaining,
    {
        if page == 0 {
            return Err(DbError::TruncatedOverflow);
        }
        if page > db.page_count {
            return Err(DbError::PageOutOfRange);
        }
        proof {
            crate::db::lemma_page_base_bound(page as nat, ps);
        }
        let base: u64 = (page as u64 - 1) * db.page_size as u64;
        let avail: u64 = db.page_size as u64 - 4;
        let take: u64 = if remaining <= avail {
            remaining
        } else {
            avail
        };
        if base + 4 + take > dlen as u64 {
            return Err(DbError::ShortRead);
        }
        let ghost page0 = page as nat;
        let ghost rem0 = remaining as nat;
        let ghost acc0 = acc@;
        let mut chunk = read_range(db.data.as_slice(), base as usize + 4, take as usize);
        let next = crate::bytes::read_be_uint(db.data.as_slice(), base as usize, 4);
        proof {
            lemma_pow256_values();
            lemma_be_uint_bound(d, base as int, 4);
        }
        acc.append(&mut chunk);
        if remaining <= avail {
            remaining = 0;
            proof {
                match spec_overflow_chain(d, ps, pc, page0, rem0) {
                    Ok(rest) => {
                        assert(acc0 + rest =~= acc@);
                        assert(acc@ + Seq::<u8>::empty() =~= acc@);
                    },
                    Err(_) => {},
                }
            }
        } else {
            page = next as u32;
            remaining = remaining - avail;
            proof {
                match spec_overflow_chain(d, ps, pc, page as nat, remaining as nat) {
                    Ok(rest) => {
                        assert(spec_overflow_chain(d, ps, pc, page0, rem0)
                            == Ok::<Seq<u8>, DbError>(
                            d.subrange(
                                page_base(page0, ps) + 4,
                                page_base(page0, ps) + 4 + (ps - 4),
                            ) + rest,
                        ));
                        assert(acc0 + (d.subrange(
                            page_base(page0, ps) + 4,
                            page_base(page0, ps) + 4 + (ps - 4),
                        ) + rest) =~= acc@ + rest);
                    },
                    Err(_) => {},
                }
            }
        }
    }
    proof {
        assert(acc@ + Seq::<u8>::empty() =~= acc@);
    }
    Ok(acc)
}

/// Reads the leaf cell at byte `offset` of page `page_num`: its declared
/// payload-size and row-id varints, the inline payload, and, when the
/// payload overflows, the chained remainder, returned as one contiguous
/// buffer.
pub fn read_leaf_cell(db: &Database, page_num: u32, offset: u16) -> (r: Result<
    (u64, Vec<u8>),
    DbError,
>)
    requires
        db.wf(),
        1 <= page_num <= db.page_count,
    ensures
        match r {
            Ok(cell) => spec_leaf_cell(
                db.data@,
                db.page_size as nat,
                db.page_count as nat,
                page_num as nat,
                offset as nat,
            ) == Ok::<(nat, Seq<u8>), DbError>((cell.0 as nat, cell.1@)),
            Err(e) => spec_leaf_cell(
                db.data@,
                db.page_size as nat,
                db.page_count as nat,
                page_num as nat,
                offset as nat,
            ) == Err::<(nat, Seq<u8>), DbError>(e),
        },
{
    let ghost d = db.data@;
    let ghost ps = db.page_size as nat;
    proof {
        crate::db::lemma_page_base_bound(page_num as nat, ps);
        lemma_inline_bounds(ps);
    }
    let pos: u64 = (page_num as u64 - 1) * db.page_size as u64 + offset as u64;
    let dlen: usize = db.data.len();
    let (p, n1) = match crate::varint::read_varint_at(db.data.as_slice(), pos) {
        Ok(v) => v,
        Err(e) => {
            return Err(e);
        },
    };
    let (row_id, n2) = match crate::varint::read_varint_at(db.data.as_slice(), pos + n1 as u64) {
        Ok(v) => v,
        Err(e) => {
            return Err(e);
        },
    };
    let body: u64 = pos + n1 as u64 + n2 as u64;
    let x: u64 = db.page_size as u64 - 35;
    if p <= x {
        if body + p > dlen as u64 {
            return Err(DbError::ShortRead);
        }
        let payload = read_range(db.data.as_slice(), body as usize, p as usize);
        return Ok((row_id, payload));
    }
    let m: u64 = (db.page_size as u64 - 12) * 32 / 255 - 23;
    proof {
        lemma_mod_le(p - m, db.page_size - 4);
    }
    let k: u64 = m + ((p - m) % (db.page_size as u64 - 4));
    let inline: u64 = if k <= x {
        k
    } else {
        m
    };
    if body + inline + 4 > dlen as u64 {
        return Err(DbError::ShortRead);
    }
    let next = crate::bytes::read_be_uint(db.data.as_slice(), (body + inline) as usize, 4);
    proof {
        lemma_pow256_values();
        lemma_be_uint_bound(d, (body + inline) as int, 4);
    }
    let mut payload = read_range(db.data.as_slice(), body as usize, inline as usize);
    let mut rest = match read_overflow_chain(db, next as u32, p - inline) {
        Ok(v) => v,
        Err(e) => {
            return Err(e);
        },
    };
    let ghost rest0 = rest@;
    payload.append(&mut rest);
    proof {
        assert(payload@ =~= d.subrange(body as int, body + inline) + rest0);
    }
    Ok((row_id, payload))
}

} // verus!
