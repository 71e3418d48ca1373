use sqlite_reader::db::{Database, PageType};
use sqlite_reader::errors::{DbError, ErrorKind};

fn header_only(page_size_raw: u16, reserved: u8, page_count: u32) -> Vec<u8> {
    let mut data = vec![0u8; 100];
    data[16..18].copy_from_slice(&page_size_raw.to_be_bytes());
    data[20] = reserved;
    data[28..32].copy_from_slice(&page_count.to_be_bytes());
    data
}

#[test]
fn open_reads_header_fields() {
    let db = Database::open(header_only(512, 0, 9)).unwrap();
    assert_eq!(db.page_size, 512);
    assert_eq!(db.page_count, 9);
}

#[test]
fn open_page_size_one_means_65536() {
    let db = Database::open(header_only(1, 0, 2)).unwrap();
    assert_eq!(db.page_size, 65536);
}

#[test]
fn open_nonzero_reserved_space_fails_before_any_page_is_read() {
    // the image even lacks any page body: the reserved-space byte alone
    // decides, before a page could be touched
    let err = Database::open(header_only(512, 17, 1)).unwrap_err();
    assert_eq!(err, DbError::UnsupportedReservedSpace);
    assert_eq!(err.kind(), ErrorKind::Format);
}

#[test]
fn open_short_header_fails() {
    let err = Database::open(vec![0u8; 40]).unwrap_err();
    assert_eq!(err, DbError::ShortRead);
    assert_eq!(err.kind(), ErrorKind::Io);
}

#[test]
fn open_unsupported_page_size_fails() {
    let err = Database::open(header_only(300, 0, 1)).unwrap_err();
    assert_eq!(err, DbError::InvalidPageSize);
}

#[test]
fn seek_to_page_bounds() {
    let mut data = header_only(512, 0, 1);
    data.resize(512, 0);
    data[100] = 13; // table leaf, page 1 header sits after the file header
    let db = Database::open(data).unwrap();
    assert_eq!(db.seek_to_page(0).unwrap_err(), DbError::PageOutOfRange);
    assert_eq!(db.seek_to_page(2).unwrap_err(), DbError::PageOutOfRange);
    let page = db.seek_to_page(1).unwrap();
    assert_eq!(page.page_type, PageType::TableLeaf);
    assert_eq!(page.cell_count, 0);
    assert_eq!(page.rightmost_child_page, None);
}

#[test]
fn seek_to_page_unknown_tag_fails() {
    let mut data = header_only(512, 0, 1);
    data.resize(512, 0);
    data[100] = 99;
    let db = Database::open(data).unwrap();
    assert_eq!(db.seek_to_page(1).unwrap_err(), DbError::UnknownPageType);
}

#[test]
fn seek_to_page_interior_header() {
    let mut data = header_only(512, 0, 2);
    data.resize(1024, 0);
    data[512] = 5; // interior table page at page 2
    data[512 + 3..512 + 5].copy_from_slice(&0u16.to_be_bytes());
    data[512 + 8..512 + 12].copy_from_slice(&7u32.to_be_bytes());
    let db = Database::open(data).unwrap();
    let page = db.seek_to_page(2).unwrap();
    assert_eq!(page.page_type, PageType::TableInterior);
    assert_eq!(page.rightmost_child_page, Some(7));
}

#[test]
fn fetch_cell_pointers_reads_offsets() {
    let mut data = header_only(512, 0, 2);
    data.resize(1024, 0);
    data[512] = 13;
    data[512 + 3..512 + 5].copy_from_slice(&2u16.to_be_bytes());
    data[512 + 8..512 + 10].copy_from_slice(&500u16.to_be_bytes());
    data[512 + 10..512 + 12].copy_from_slice(&480u16.to_be_bytes());
    let db = Database::open(data).unwrap();
    let page = db.seek_to_page(2).unwrap();
    let ptrs = page.fetch_cell_pointers(&db).unwrap();
    assert_eq!(ptrs, vec![500, 480]);
}
