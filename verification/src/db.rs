//! The database image and its pages: the fixed 100-byte file header, page
//! headers, and cell pointer arrays.

use vstd::prelude::*;

use crate::bytes::{be_uint, lemma_be_uint_bound, lemma_pow256_values};
use crate::errors::DbError;

verus! {

broadcast use vstd::std_specs::vec::axiom_spec_len;

/// File offset of the first byte of page `page_num` (pages are 1-based).
pub open spec fn page_base(page_num: nat, page_size: nat) -> int {
    (page_num - 1) * page_size
}

/// File offset of the page header of `page_num`: page 1 carries the
/// 100-byte file header first.
pub open spec fn page_header_pos(page_num: nat, page_size: nat) -> int {
    page_base(page_num, page_size) + if page_num == 1 {
        100int
    } else {
        0int
    }
}

/// The raw two-byte page-size field of the file header.
pub open spec fn spec_page_size_raw(d: Seq<u8>) -> nat {
    be_uint(d, 16, 2)
}

/// The page size the header declares; the raw value 1 stands for 65536.
pub open spec fn spec_page_size(d: Seq<u8>) -> nat {
    if spec_page_size_raw(d) == 1 {
        65536
    } else {
        spec_page_size_raw(d)
    }
}

/// The page sizes this reader accepts: the powers of two from 512 to 65536.
pub open spec fn page_size_valid(n: nat) -> bool {
    n == 512 || n == 1024 || n == 2048 || n == 4096 || n == 8192 || n == 16384 || n == 32768
        || n == 65536
}

/// The four-byte page-count field of the file header.
pub open spec fn spec_page_count(d: Seq<u8>) -> nat {
    be_uint(d, 28, 4)
}

/// What opening the image yields: its page size and page count, or the
/// exact error. The image must span the 100-byte header, declare zero
/// reserved bytes per page, and declare a supported page size.
pub open spec fn spec_open(d: Seq<u8>) -> Result<(nat, nat), DbError> {
    if d.len() < 100 {
        Err(DbError::ShortRead)
    } else if d[20] != 0 {
        Err(DbError::UnsupportedReservedSpace)
    } else if !page_size_valid(spec_page_size(d)) {
        Err(DbError::InvalidPageSize)
    } else {
        Ok((spec_page_size(d), spec_page_count(d)))
    }
}

/// The byte offset of any page stays well below the 64-bit range.
pub proof fn lemma_page_base_bound(page_num: nat, page_size: nat)
    requires
        1 <= page_num <= 0xFFFF_FFFF,
        page_size <= 65536,
    ensures
        0 <= (page_num - 1) * page_size <= 0xFFFF_FFFE_0000,
{
    assert((page_num - 1) * page_size <= 0xFFFF_FFFE_0000) by (nonlinear_arith)
        requires
            1 <= page_num <= 0xFFFF_FFFF,
            page_size <= 65536,
    ;
    assert((page_num - 1) * page_size >= 0) by (nonlinear_arith)
        requires
            1 <= page_num,
            page_size >= 0,
    ;
}

/// An open, read-only database image.
#[derive(Debug)]
pub struct Database {
    pub page_size: u32,
    pub page_count: u32,
    pub data: Vec<u8>,
}

impl Database {
    /// Well-formedness: the header fields were decoded from the image.
    pub open spec fn wf(&self) -> bool {
        &&& spec_open(self.data@) == Ok::<(nat, nat), DbError>(
            (self.page_size as nat, self.page_count as nat),
        )
        &&& 512 <= self.page_size <= 65536
    }

    /// Opens a database image by decoding its file header: the page size
    /// (raw value 1 meaning 65536) at offset 16, the reserved-space byte at
    /// offset 20 (nonzero is unsupported and fails before any page is
    /// read), and the page count at offset 28.
    pub fn open(data: Vec<u8>) -> (r: Result<Database, DbError>)
        ensures
            match r {
                Ok(db) => {
                    &&& spec_open(data@) == Ok::<(nat, nat), DbError>(
                        (db.page_size as nat, db.page_count as nat),
                    )
                    &&& db.data@ == data@
                    &&& db.wf()
                },
                Err(e) => spec_open(data@) == Err::<(nat, nat), DbError>(e),
            },
    {
        proof {
            lemma_pow256_values();
        }
        if data.len() < 100 {
            return Err(DbError::ShortRead);
        }
        if data[20] != 0 {
            return Err(DbError::UnsupportedReservedSpace);
        }
        let raw = crate::bytes::read_be_uint(data.as_slice(), 16, 2);
        proof {
            lemma_be_uint_bound(data@, 16, 2);
        }
        let page_size: u32 = if raw == 1 {
            65536
        } else {
            raw as u32
        };
        if !(page_size == 512 || page_size == 1024 || page_size == 2048 || page_size == 4096
            || page_size == 8192 || page_size == 16384 || page_size == 32768
            || page_size == 65536) {
            return Err(DbError::InvalidPageSize);
        }
        let count = crate::bytes::read_be_uint(data.as_slice(), 28, 4);
        proof {
            lemma_be_uint_bound(data@, 28, 4);
        }
        Ok(Database { page_size, page_count: count as u32, data })
    }
}

/// A page's type tag.
#[derive(Debug, PartialEq, Eq, Structural, Clone, Copy)]
pub enum PageType {
    TableLeaf,
    TableInterior,
    IndexLeaf,
    IndexInterior,
}

/// The page type a tag byte denotes; `None` for unknown tags.
pub open spec fn page_type_of(tag: u8) -> Option<PageType> {
    if tag == 13 {
        Some(PageType::TableLeaf)
    } else if tag == 5 {
        Some(PageType::TableInterior)
    } else if tag == 10 {
        Some(PageType::IndexLeaf)
    } else if tag == 2 {
        Some(PageType::IndexInterior)
    } else {
        None
    }
}

impl PageType {
    pub open spec fn spec_is_interior(self) -> bool {
        self == PageType::TableInterior || self == PageType::IndexInterior
    }

    pub fn is_interior(&self) -> (r: bool)
        ensures
            r == self.spec_is_interior(),
    {
        match self {
            PageType::TableInterior | PageType::IndexInterior => true,
            _ => false,
        }
    }
}

/// Byte length of the page header: interior pages carry a four-byte
/// right-most child pointer after the common eight bytes.
pub open spec fn spec_header_size(t: PageType) -> int {
    if t.spec_is_interior() {
        12
    } else {
        8
    }
}

/// The decoded header of one page.
pub struct PageModel {
    pub page_num: u32,
    pub page_type: PageType,
    pub first_freeblock_offset: u16,
    pub cell_count: u16,
    pub content_area_start: u32,
    pub fragmented_free_bytes: u8,
    pub rightmost_child_page: Option<u32>,
}

/// The header of page `page_num` in the image, or the exact error: the
/// page number must lie in `1..=page_count`, the header must fit in the
/// image, and the type tag must be known.
pub open spec fn spec_page(d: Seq<u8>, page_size: nat, page_count: nat, page_num: nat) -> Result<
    PageModel,
    DbError,
> {
    if page_num < 1 || page_num > page_count {
        Err(DbError::PageOutOfRange)
    } else {
        let h = page_header_pos(page_num, page_size);
        if h + 8 > d.len() {
            Err(DbError::ShortRead)
        } else {
            match page_type_of(d[h]) {
                None => Err(DbError::UnknownPageType),
                Some(t) => {
                    if t.spec_is_interior() && h + 12 > d.len() {
                        Err(DbError::ShortRead)
                    } else {
                        Ok(
                            PageModel {
                                page_num: page_num as u32,
                                page_type: t,
                                first_freeblock_offset: be_uint(d, h + 1, 2) as u16,
                                cell_count: be_uint(d, h + 3, 2) as u16,
                                content_area_start: if be_uint(d, h + 5, 2) == 0 {
                                    65536u32
                                } else {
                                    be_uint(d, h + 5, 2) as u32
                                },
                                fragmented_free_bytes: d[h + 7],
                                rightmost_child_page: if t.spec_is_interior() {
                                    Some(be_uint(d, h + 8, 4) as u32)
                                } else {
                                    None
                                },
                            },
                        )
                    }
                },
            }
        }
    }
}

/// One page's decoded header.
#[derive(Debug)]
pub struct Page {
    pub page_num: u32,
    pub page_type: PageType,
    pub first_freeblock_offset: u16,
    pub cell_count: u16,
    pub content_area_start: u32,
    pub fragmented_free_bytes: u8,
    pub rightmost_child_page: Option<u32>,
}

impl View for Page {
    type V = PageModel;

    open spec fn view(&self) -> PageModel {
        PageModel {
            page_num: self.page_num,
            page_type: self.page_type,
            first_freeblock_offset: self.first_freeblock_offset,
            cell_count: self.cell_count,
            content_area_start: self.content_area_start,
            fragmented_free_bytes: self.fragmented_free_bytes,
            rightmost_child_page: self.rightmost_child_page,
        }
    }
}

impl Database {
    /// Decodes the header of page `page_num`, skipping the 100-byte file
    /// header on page 1.
    pub fn seek_to_page(&self, page_num: u32) -> (r: Result<Page, DbError>)
        requires
            self.wf(),
        ensures
            match r {
                Ok(p) => spec_page(
                    self.data@,
                    self.page_size as nat,
                    self.page_count as nat,
                    page_num as nat,
                ) == Ok::<PageModel, DbError>(p@),
                Err(e) => spec_page(
                    self.data@,
                    self.page_size as nat,
                    self.page_count as nat,
                    page_num as nat,
                ) == Err::<PageModel, DbError>(e),
            },
    {
        proof {
            lemma_pow256_values();
        }
        if page_num < 1 || page_num > self.page_count {
            return Err(DbError::PageOutOfRange);
        }
        proof {
            lemma_page_base_bound(page_num as nat, self.page_size as nat);
        }
        let mut h: u64 = (page_num as u64 - 1) * self.page_size as u64;
        if page_num == 1 {
            h = h + 100;
        }
        let dlen: usize = self.data.len();
        if h + 8 > dlen as u64 {
            return Err(DbError::ShortRead);
        }
        let hp = h as usize;
        let tag = self.data[hp];
        let page_type = if tag == 13 {
            PageType::TableLeaf
        } else if tag == 5 {
            PageType::TableInterior
        } else if tag == 10 {
            PageType::IndexLeaf
        } else if tag == 2 {
            PageType::IndexInterior
        } else {
            return Err(DbError::UnknownPageType);
        };
        let interior = page_type.is_interior();
        if interior && h + 12 > dlen as u64 {
            return Err(DbError::ShortRead);
        }
        let slice = self.data.as_slice();
        let first_freeblock_offset = crate::bytes::read_be_uint(slice, hp + 1, 2) as u16;
        let cell_count = crate::bytes::read_be_uint(slice, hp + 3, 2) as u16;
        let content_raw = crate::bytes::read_be_uint(slice, hp + 5, 2);
        let content_area_start: u32 = if content_raw == 0 {
            65536
        } else {
            content_raw as u32
        };
        let fragmented_free_bytes = self.data[hp + 7];
        let rightmost_child_page: Option<u32> = if interior {
            Some(crate::bytes::read_be_uint(slice, hp + 8, 4) as u32)
        } else {
            None
        };
        proof {
            lemma_be_uint_bound(self.data@, hp + 1, 2);
            lemma_be_uint_bound(self.data@, hp + 3, 2);
            lemma_be_uint_bound(self.data@, hp + 5, 2);
            lemma_be_uint_bound(self.data@, hp + 8, 4);
        }
        Ok(
            Page {
                page_num,
                page_type,
                first_freeblock_offset,
                cell_count,
                content_area_start,
                fragmented_free_bytes,
                rightmost_child_page,
            },
        )
    }
}

/// The cell pointer array of `page`: `cell_count` big-endian u16 offsets
/// immediately after the page header, each an offset into the page.
pub open spec fn spec_cell_pointers(d: Seq<u8>, page_size: nat, page: PageModel) -> Result<
    Seq<u16>,
    DbError,
> {
    let start = page_header_pos(page.page_num as nat, page_size) + spec_header_size(
        page.page_type,
    );
    if start + 2 * page.cell_count > d.len() {
        Err(DbError::ShortRead)
    } else {
        Ok(Seq::new(page.cell_count as nat, |i: int| be_uint(d, start + 2 * i, 2) as u16))
    }
}

impl Page {
    /// Reads the page's cell pointer array from the image.
    pub fn fetch_cell_pointers(&self, db: &Database) -> (r: Result<Vec<u16>, DbError>)
        requires
            db.wf(),
            spec_page(db.data@, db.page_size as nat, db.page_count as nat, self.page_num as nat)
                == Ok::<PageModel, DbError>(self@),
        ensures
            match r {
                Ok(ptrs) => spec_cell_pointers(db.data@, db.page_size as nat, self@)
                    == Ok::<Seq<u16>, DbError>(ptrs@),
                Err(e) => spec_cell_pointers(db.data@, db.page_size as nat, self@)
                    == Err::<Seq<u16>, DbError>(e),
            },
    {
        proof {
            lemma_pow256_values();
        }
        proof {
            lemma_page_base_bound(self.page_num as nat, db.page_size as nat);
        }
        let mut h: u64 = (self.page_num as u64 - 1) * db.page_size as u64;
        if self.page_num == 1 {
            h = h + 100;
        }
        let hsize: u64 = if self.page_type.is_interior() {
            12
        } else {
            8
        };
        let start: u64 = h + hsize;
        let dlen: usize = db.data.len();
        if start + 2 * self.cell_count as u64 > dlen as u64 {
            return Err(DbError::ShortRead);
        }
        let ghost gstart = start as int;
        let n = self.cell_count as usize;
        let mut out: Vec<u16> = Vec::new();
        let mut i: usize = 0;
        while i < n
            invariant
                out@.len() == i,
                0 <= i <= n,
                db.data@.len() <= usize::MAX,
                gstart == page_header_pos(self.page_num as nat, db.page_size as nat)
                    + spec_header_size(self.page_type),
                gstart + 2 * n <= db.data@.len(),
                start == gstart,
                n == self@.cell_count,
                forall|j: int|
                    0 <= j < i ==> out@[j] == be_uint(db.data@, gstart + 2 * j, 2) as u16,
            decreases n - i,
        {
            proof {
                lemma_pow256_values();
            }
            let v = crate::bytes::read_be_uint(db.data.as_slice(), start as usize + 2 * i, 2);
            proof {
                lemma_be_uint_bound(db.data@, gstart + 2 * i, 2);
            }
            let ghost out0 = out@;
            out.push(v as u16);
            i = i + 1;
            proof {
                assert forall|j: int|
                    0 <= j < i implies out@[j] == be_uint(db.data@, gstart + 2 * j, 2) as u16 by {
                    if j < i - 1 {
                        assert(out@[j] == out0[j]);
                    } else {
                        assert(out@[j] == v as u16);
                    }
                }
            }
        }
        proof {
            assert(out@ =~= Seq::new(
                self@.cell_count as nat,
                |j: int| be_uint(db.data@, gstart + 2 * j, 2) as u16,
            ));
        }
        Ok(out)
    }
}

} // verus!
