//! The table B-tree walker: a full traversal from a root page, yielding
//! every stored record in storage order.
//!
//! The walk keeps an explicit stack of pending page numbers instead of
//! recursing: an interior page replaces itself by its children in
//! left-to-right order (the right-most child last), a leaf page yields its
//! records in stored order. The walk spends one unit of fuel per visited
//! page, starting from the file's page count: a tree that visits more pages
//! than the file holds is cyclic or otherwise malformed and fails rather
//! than looping. A finished walk is checked to be in strictly ascending
//! row-id order, as the format requires of a table tree.

use vstd::prelude::*;

use crate::bytes::{be_uint, lemma_be_uint_bound, lemma_pow256_values};
use crate::db::{page_base, spec_cell_pointers, spec_page, Database, PageType};
use crate::errors::DbError;
use crate::payload::spec_leaf_cell;
use crate::record::{spec_record, Record, RecordModel};

verus! {

broadcast use vstd::std_specs::vec::axiom_spec_len;

impl vstd::view::DeepView for Record {
    type V = RecordModel;

    open spec fn deep_view(&self) -> RecordModel {
        self@
    }
}

/// The records of the table-leaf page `page_num`, one per cell pointer, in
/// stored order.
pub open spec fn spec_leaf_records(
    d: Seq<u8>,
    page_size: nat,
    page_count: nat,
    page_num: nat,
    ptrs: Seq<u16>,
) -> Result<Seq<RecordModel>, DbError>
    decreases ptrs.len(),
{
    if ptrs.len() == 0 {
        Ok(Seq::empty())
    } else {
        match spec_leaf_cell(d, page_size, page_count, page_num, ptrs[0] as nat) {
            Err(e) => Err(e),
            Ok(cell) => match spec_record(cell.1, cell.0 as u64) {
                Err(e) => Err(e),
                Ok(rec) => match spec_leaf_records(
                    d,
                    page_size,
                    page_count,
                    page_num,
                    ptrs.drop_first(),
                ) {
                    Ok(rest) => Ok(seq![rec] + rest),
                    Err(e) => Err(e),
                },
            },
        }
    }
}

/// The child pages of a table-interior page: the four-byte page number at
/// each cell pointer, in stored order, then the right-most child.
pub open spec fn spec_children(
    d: Seq<u8>,
    page_size: nat,
    page_num: nat,
    ptrs: Seq<u16>,
    rightmost: u32,
) -> Result<Seq<u32>, DbError>
    decreases ptrs.len(),
{
    if ptrs.len() == 0 {
        Ok(seq![rightmost])
    } else {
        let pos = page_base(page_num, page_size) + ptrs[0];
        if pos + 4 > d.len() {
            Err(DbError::ShortRead)
        } else {
            let child = be_uint(d, pos, 4) as u32;
            match spec_children(d, page_size, page_num, ptrs.drop_first(), rightmost) {
                Ok(rest) => Ok(seq![child] + rest),
                Err(e) => Err(e),
            }
        }
    }
}

/// The records reached from the pending `stack` of pages, left to right,
/// spending one unit of `fuel` per page: the reference model of the walk.
pub open spec fn spec_walk(
    d: Seq<u8>,
    page_size: nat,
    page_count: nat,
    stack: Seq<u32>,
    fuel: nat,
) -> Result<Seq<RecordModel>, DbError>
    decreases fuel,
{
    if stack.len() == 0 {
        Ok(Seq::empty())
    } else if fuel == 0 {
        Err(DbError::TraversalLimit)
    } else {
        let pg = stack[0];
        let rest_stack = stack.drop_first();
        match spec_page(d, page_size, page_count, pg as nat) {
            Err(e) => Err(e),
            Ok(page) => match spec_cell_pointers(d, page_size, page) {
                Err(e) => Err(e),
                Ok(ptrs) => match page.page_type {
                    PageType::TableLeaf => match spec_leaf_records(
                        d,
                        page_size,
                        page_count,
                        pg as nat,
                        ptrs,
                    ) {
                        Err(e) => Err(e),
                        Ok(recs) => match spec_walk(
                            d,
                            page_size,
                            page_count,
                            rest_stack,
                            (fuel - 1) as nat,
                        ) {
                            Ok(more) => Ok(recs + more),
                            Err(e) => Err(e),
                        },
                    },
                    PageType::TableInterior => match page.rightmost_child_page {
                        // an interior page header always carries the pointer
                        None => Err(DbError::UnknownPageType),
                        Some(rm) => match spec_children(d, page_size, pg as nat, ptrs, rm) {
                            Err(e) => Err(e),
                            Ok(kids) => spec_walk(
                                d,
                                page_size,
                                page_count,
                                kids + rest_stack,
                                (fuel - 1) as nat,
                            ),
                        },
                    },
                    _ => Err(DbError::UnsupportedPageType),
                },
            },
        }
    }
}

/// Strictly ascending row ids, every pair.
pub open spec fn row_ids_ascending(recs: Seq<RecordModel>) -> bool {
    forall|i: int, j: int| 0 <= i < j < recs.len() ==> recs[i].row_id < recs[j].row_id
}

proof fn lemma_ascending_chain(recs: Seq<RecordModel>, i: int, j: int)
    requires
        forall|k: int| 0 <= k < recs.len() - 1 ==> #[trigger] recs[k].row_id < recs[k + 1].row_id,
        0 <= i < j < recs.len(),
    ensures
        recs[i].row_id < recs[j].row_id,
    decreases j - i,
{
    if i + 1 < j {
        lemma_ascending_chain(recs, i, j - 1);
        assert(recs[j - 1].row_id < recs[j].row_id);
    }
}

/// Reads all records of the table-leaf page `page_num` with cell pointers
/// `ptrs`, in stored order.
#[verifier::loop_isolation(false)]
fn read_leaf_records(db: &Database, page_num: u32, ptrs: &Vec<u16>) -> (r: Result<
    Vec<Record>,
    DbError,
>)
    requires
        db.wf(),
        1 <= page_num <= db.page_count,
    ensures
        match r {
            Ok(v) => spec_leaf_records(
                db.data@,
                db.page_size as nat,
                db.page_count as nat,
                page_num as nat,
                ptrs@,
            ) == Ok::<Seq<RecordModel>, DbError>(v.deep_view()),
            Err(e) => spec_leaf_records(
                db.data@,
                db.page_size as nat,
                db.page_count as nat,
                page_num as nat,
                ptrs@,
            ) == Err::<Seq<RecordModel>, DbError>(e),
        },
{
    let ghost d = db.data@;
    let ghost ps = db.page_size as nat;
    let ghost pc = db.page_count as nat;
    let ghost pgn = page_num as nat;
    let mut out: Vec<Record> = Vec::new();
    let mut j: usize = 0;
    proof {
        assert(ptrs@.skip(0) =~= ptrs@);
        match spec_leaf_records(d, ps, pc, pgn, ptrs@) {
            Ok(rest) => {
                assert(out.deep_view() + rest =~= rest);
            },
            Err(_) => {},
        }
    }
    while j < ptrs.len()
        invariant
            0 <= j <= ptrs@.len(),
            out.deep_view().len() == j,
            match spec_leaf_records(d, ps, pc, pgn, ptrs@.skip(j as int)) {
                Ok(rest) => spec_leaf_records(d, ps, pc, pgn, ptrs@)
                    == Ok::<Seq<RecordModel>, DbError>(out.deep_view() + rest),
                Err(e) => spec_leaf_records(d, ps, pc, pgn, ptrs@)
                    == Err::<Seq<RecordModel>, DbError>(e),
            },
        decreases ptrs@.len() - j,
    {
        proof {
            assert(ptrs@.skip(j as int)[0] == ptrs@[j as int]);
            assert(ptrs@.skip(j as int).drop_first() =~= ptrs@.skip(j + 1));
        }
        let (row_id, payload) = match crate::payload::read_leaf_cell(db, page_num, ptrs[j]) {
            Ok(c) => c,
            Err(e) => {
                return Err(e);
            },
        };
        let rec = match Record::decode(payload, row_id) {
            Ok(rec) => rec,
            Err(e) => {
                return Err(e);
            },
        };
        let ghost dv0 = out.deep_view();
        out.push(rec);
        j = j + 1;
        proof {
            assert(out.deep_view() =~= dv0 + seq![rec@]);
            match spec_leaf_records(d, ps, pc, pgn, ptrs@.skip(j as int)) {
                Ok(rest) => {
                    assert(dv0 + (seq![rec@] + rest) =~= out.deep_view() + rest);
                },
                Err(_) => {},
            }
        }
    }
    proof {
        assert(ptrs@.skip(ptrs@.len() as int) =~= Seq::<u16>::empty());
        assert(out.deep_view() + Seq::<RecordModel>::empty() =~= out.deep_view());
    }
    Ok(out)
}

/// Reads the child page numbers of the table-interior page `page_num` with
/// cell pointers `ptrs` and right-most child `rightmost`: stored order,
/// right-most last.
#[verifier::loop_isolation(false)]
fn read_children(db: &Database, page_num: u32, ptrs: &Vec<u16>, rightmost: u32) -> (r: Result<
    Vec<u32>,
    DbError,
>)
    requires
        db.wf(),
        1 <= page_num <= db.page_count,
    ensures
        match r {
            Ok(v) => spec_children(
                db.data@,
                db.page_size as nat,
                page_num as nat,
                ptrs@,
                rightmost,
            ) == Ok::<Seq<u32>, DbError>(v@),
            Err(e) => spec_children(
                db.data@,
                db.page_size as nat,
                page_num as nat,
                ptrs@,
                rightmost,
            ) == Err::<Seq<u32>, DbError>(e),
        },
{
    let ghost d = db.data@;
    let ghost ps = db.page_size as nat;
    let ghost pgn = page_num as nat;
    proof {
        crate::db::lemma_page_base_bound(pgn, ps);
    }
    let base: u64 = (page_num as u64 - 1) * db.page_size as u64;
    let dlen: usize = db.data.len();
    let mut out: Vec<u32> = Vec::new();
    let mut j: usize = 0;
    proof {
        assert(ptrs@.skip(0) =~= ptrs@);
        match spec_children(d, ps, pgn, ptrs@, rightmost) {
            Ok(rest) => {
                assert(out@ + rest =~= rest);
            },
            Err(_) => {},
        }
    }
    while j < ptrs.len()
        invariant
            0 <= j <= ptrs@.len(),
            out@.len() == j,
            match spec_children(d, ps, pgn, ptrs@.skip(j as int), rightmost) {
                Ok(rest) => spec_children(d, ps, pgn, ptrs@, rightmost)
                    == Ok::<Seq<u32>, DbError>(out@ + rest),
                Err(e) => spec_children(d, ps, pgn, ptrs@, rightmost)
                    == Err::<Seq<u32>, DbError>(e),
            },
        decreases ptrs@.len() - j,
    {
        proof {
            assert(ptrs@.skip(j as int)[0] == ptrs@[j as int]);
            assert(ptrs@.skip(j as int).drop_first() =~= ptrs@.skip(j + 1));
        }
        let pos: u64 = base + ptrs[j] as u64;
        if pos + 4 > dlen as u64 {
            return Err(DbError::ShortRead);
        }
        let child = crate::bytes::read_be_uint(db.data.as_slice(), pos as usize, 4);
        proof {
            lemma_pow256_values();
            lemma_be_uint_bound(d, pos as int, 4);
        }
        let ghost out0 = out@;
        out.push(child as u32);
        j = j + 1;
        proof {
            match spec_children(d, ps, pgn, ptrs@.skip(j as int), rightmost) {
                Ok(rest) => {
                    assert(out0 + (seq![child as u32] + rest) =~= out@ + rest);
                },
                Err(_) => {},
            }
        }
    }
    let ghost out0 = out@;
    out.push(rightmost);
    proof {
        assert(ptrs@.skip(ptrs@.len() as int) =~= Seq::<u16>::empty());
        assert(out0 + seq![rightmost] =~= out@);
    }
    Ok(out)
}

/// Checks that the records carry strictly ascending row ids.
fn rows_ascending(recs: &Vec<Record>) -> (r: bool)
    ensures
        r == row_ids_ascending(recs.deep_view()),
{
    let n = recs.len();
    let ghost dv = recs.deep_view();
    let mut i: usize = 1;
    while i < n
        invariant
            1 <= i <= n || n == 0,
            n == dv.len(),
            dv == recs.deep_view(),
            forall|k: int| 0 <= k < i - 1 ==> #[trigger] dv[k].row_id < dv[k + 1].row_id,
        decreases n - i,
    {
        if recs[i - 1].row_id >= recs[i].row_id {
            proof {
                assert(dv[i - 1].row_id >= dv[i as int].row_id);
                assert(!row_ids_ascending(dv)) by {
                    assert(0 <= i - 1 < i < dv.len() && dv[i - 1].row_id >= dv[i as int].row_id);
                }
            }
            return false;
        }
        i = i + 1;
    }
    proof {
        if n > 0 {
            assert forall|a: int, b: int| 0 <= a < b < dv.len() implies dv[a].row_id
                < dv[b].row_id by {
                lemma_ascending_chain(dv, a, b);
            }
        }
    }
    true
}

/// Walks the table B-tree rooted at `root_page` and returns every record it
/// stores, in storage order.
///
/// On success the result is exactly what the walk model yields from the
/// root, and its row ids are strictly ascending. A walk whose records come
/// back out of row-id order fails with `NonAscendingRowIds`; every other
/// failure is the exact error of the model.
#[verifier::loop_isolation(false)]
pub fn walk_table(db: &Database, root_page: u32) -> (r: Result<Vec<Record>, DbError>)
    requires
        db.wf(),
    ensures
        match r {
            Ok(recs) => {
                &&& spec_walk(
                    db.data@,
                    db.page_size as nat,
                    db.page_count as nat,
                    seq![root_page],
                    db.page_count as nat,
                ) == Ok::<Seq<RecordModel>, DbError>(recs.deep_view())
                &&& row_ids_ascending(recs.deep_view())
            },
            Err(e) => match spec_walk(
                db.data@,
                db.page_size as nat,
                db.page_count as nat,
                seq![root_page],
                db.page_count as nat,
            ) {
                Ok(m) => e == DbError::NonAscendingRowIds && !row_ids_ascending(m),
                Err(e2) => e == e2,
            },
        },
{
    let ghost d = db.data@;
    let ghost ps = db.page_size as nat;
    let ghost pc = db.page_count as nat;
    let mut stack: Vec<u32> = Vec::new();
    stack.push(root_page);
    let mut out: Vec<Record> = Vec::new();
    let mut fuel: u32 = db.page_count;
    proof {
        assert(stack@ =~= seq![root_page]);
        match spec_walk(d, ps, pc, stack@, fuel as nat) {
            Ok(rest) => {
                assert(out.deep_view() + rest =~= rest);
            },
            Err(_) => {},
        }
    }
    while stack.len() > 0
        invariant
            match spec_walk(d, ps, pc, stack@, fuel as nat) {
                Ok(rest) => spec_walk(d, ps, pc, seq![root_page], pc)
                    == Ok::<Seq<RecordModel>, DbError>(out.deep_view() + rest),
                Err(e) => spec_walk(d, ps, pc, seq![root_page], pc)
                    == Err::<Seq<RecordModel>, DbError>(e),
            },
        decreases fuel,
    {
        let ghost stack0 = stack@;
        let ghost fuel0 = fuel as nat;
        if fuel == 0 {
            return Err(DbError::TraversalLimit);
        }
        fuel = fuel - 1;
        let pg = stack.remove(0);
        proof {
            assert(stack@ =~= stack0.drop_first());
        }
        let page = match db.seek_to_page(pg) {
            Ok(p) => p,
            Err(e) => {
                return Err(e);
            },
        };
        let ptrs = match page.fetch_cell_pointers(db) {
            Ok(p) => p,
            Err(e) => {
                return Err(e);
            },
        };
        match page.page_type {
            PageType::TableLeaf => {
                let mut recs = match read_leaf_records(db, pg, &ptrs) {
                    Ok(v) => v,
                    Err(e) => {
                        return Err(e);
                    },
                };
                let ghost out0 = out.deep_view();
                let ghost recs_dv = recs.deep_view();
                out.append(&mut recs);
                proof {
                    assert(out.deep_view() =~= out0 + recs_dv);
                    match spec_walk(d, ps, pc, stack@, fuel as nat) {
                        Ok(rest) => {
                            assert((out0 + recs_dv) + rest =~= out0 + (recs_dv + rest));
                        },
                        Err(_) => {},
                    }
                }
            },
            PageType::TableInterior => {
                let rm = match page.rightmost_child_page {
                    Some(rm) => rm,
                    None => {
                        proof {
                            assert(false);
                        }
                        return Err(DbError::UnknownPageType);
                    },
                };
                let mut kids = match read_children(db, pg, &ptrs, rm) {
                    Ok(v) => v,
                    Err(e) => {
                        return Err(e);
                    },
                };
                let ghost kids_dv = kids@;
                kids.append(&mut stack);
                stack = kids;
                proof {
                    assert(stack@ =~= kids_dv + stack0.drop_first());
                }
            },
            _ => {
                return Err(DbError::UnsupportedPageType);
            },
        }
    }
    proof {
        assert(out.deep_view() + Seq::<RecordModel>::empty() =~= out.deep_view());
    }
    if !rows_ascending(&out) {
        return Err(DbError::NonAscendingRowIds);
    }
    Ok(out)
}

} // verus!
