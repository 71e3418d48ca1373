use sqlite_reader::btree::walk_table;
use sqlite_reader::db::{Database, PageType};
use sqlite_reader::errors::DbError;
use sqlite_reader::payload::read_leaf_cell;
use sqlite_reader::types::SerialValue;
use sqlite_reader::varint::encode_varint;

const PAGE_SIZE: usize = 512;

/// Assembles a record payload from (serial-type code, content bytes) pairs.
fn record_bytes(cols: &[(u64, Vec<u8>)]) -> Vec<u8> {
    let mut codes: Vec<u8> = Vec::new();
    for (code, _) in cols {
        codes.extend(encode_varint(*code));
    }
    let hlen = codes.len() as u64 + 1;
    assert!(hlen < 128);
    let mut out = vec![hlen as u8];
    out.extend(codes);
    for (_, content) in cols {
        out.extend(content.iter());
    }
    out
}

fn text_col(s: &str) -> (u64, Vec<u8>) {
    (13 + 2 * s.len() as u64, s.as_bytes().to_vec())
}

fn leaf_cell(row_id: u64, payload: &[u8]) -> Vec<u8> {
    let mut out = encode_varint(payload.len() as u64);
    out.extend(encode_varint(row_id));
    out.extend_from_slice(payload);
    out
}

fn interior_cell(child: u32, key: u64) -> Vec<u8> {
    let mut out = child.to_be_bytes().to_vec();
    out.extend(encode_varint(key));
    out
}

/// A full page: type tag and cell count in the header (at `header_at`),
/// cells packed at the page's end, the pointer array in stored order.
fn page_with_cells(
    header_at: usize,
    page_type: u8,
    cells: &[Vec<u8>],
    rightmost: Option<u32>,
) -> Vec<u8> {
    let mut page = vec![0u8; PAGE_SIZE];
    let hsize = if rightmost.is_some() { 12 } else { 8 };
    page[header_at] = page_type;
    page[header_at + 3..header_at + 5].copy_from_slice(&(cells.len() as u16).to_be_bytes());
    if let Some(rm) = rightmost {
        page[header_at + 8..header_at + 12].copy_from_slice(&rm.to_be_bytes());
    }
    let mut top = PAGE_SIZE;
    let mut ptrs: Vec<u16> = Vec::new();
    for cell in cells {
        top -= cell.len();
        page[top..top + cell.len()].copy_from_slice(cell);
        ptrs.push(top as u16);
    }
    page[header_at + 5..header_at + 7].copy_from_slice(&(top as u16).to_be_bytes());
    let mut p = header_at + hsize;
    for off in ptrs {
        page[p..p + 2].copy_from_slice(&off.to_be_bytes());
        p += 2;
    }
    page
}

/// A whole database image: page 1 gets the file header written over its
/// first 100 bytes.
fn db_image(mut pages: Vec<Vec<u8>>) -> Vec<u8> {
    let count = pages.len() as u32;
    pages[0][16..18].copy_from_slice(&(PAGE_SIZE as u16).to_be_bytes());
    pages[0][20] = 0;
    pages[0][28..32].copy_from_slice(&count.to_be_bytes());
    pages.concat()
}

fn simple_row(row_id: u64, text: &str) -> Vec<u8> {
    leaf_cell(row_id, &record_bytes(&[text_col(text)]))
}

#[test]
fn walk_multi_level_tree_ascending_exactly_once() {
    // page 1: schema page (left empty), page 2: interior root,
    // pages 3 and 4: its leaf children
    let page1 = page_with_cells(100, 13, &[], None);
    let root = page_with_cells(0, 5, &[interior_cell(3, 2)], Some(4));
    let left = page_with_cells(
        0,
        13,
        &[simple_row(1, "ant"), simple_row(2, "bee")],
        None,
    );
    let right = page_with_cells(
        0,
        13,
        &[simple_row(3, "cat"), simple_row(4, "dog")],
        None,
    );
    let data = db_image(vec![page1, root, left, right]);
    let db = Database::open(data).unwrap();
    let records = walk_table(&db, 2).unwrap();

    let row_ids: Vec<u64> = records.iter().map(|r| r.row_id).collect();
    assert_eq!(row_ids, vec![1, 2, 3, 4]);
    let texts: Vec<&SerialValue> = records.iter().map(|r| &r.serial_values[0]).collect();
    assert_eq!(
        texts,
        vec![
            &SerialValue::Text("ant".to_string()),
            &SerialValue::Text("bee".to_string()),
            &SerialValue::Text("cat".to_string()),
            &SerialValue::Text("dog".to_string()),
        ]
    );
}

#[test]
fn walk_rejects_non_ascending_row_ids() {
    let page1 = page_with_cells(100, 13, &[], None);
    let leaf = page_with_cells(0, 13, &[simple_row(5, "x"), simple_row(2, "y")], None);
    let data = db_image(vec![page1, leaf]);
    let db = Database::open(data).unwrap();
    assert_eq!(walk_table(&db, 2).unwrap_err(), DbError::NonAscendingRowIds);
}

#[test]
fn walk_rejects_index_pages() {
    let page1 = page_with_cells(100, 13, &[], None);
    let index_leaf = page_with_cells(0, 10, &[], None);
    let data = db_image(vec![page1, index_leaf]);
    let db = Database::open(data).unwrap();
    assert_eq!(walk_table(&db, 2).unwrap_err(), DbError::UnsupportedPageType);
}

#[test]
fn walk_rejects_cyclic_tree() {
    let page1 = page_with_cells(100, 13, &[], None);
    // the interior page names itself as its right-most child
    let cyclic = page_with_cells(0, 5, &[], Some(2));
    let data = db_image(vec![page1, cyclic]);
    let db = Database::open(data).unwrap();
    assert_eq!(walk_table(&db, 2).unwrap_err(), DbError::TraversalLimit);
}

#[test]
fn walk_rejects_out_of_range_page() {
    let page1 = page_with_cells(100, 13, &[], None);
    let data = db_image(vec![page1]);
    let db = Database::open(data).unwrap();
    assert_eq!(walk_table(&db, 9).unwrap_err(), DbError::PageOutOfRange);
}

#[test]
fn overflow_payload_reconstructs_bit_identical() {
    // PAGE_SIZE 512: X = 477, M = 39. A 600-byte payload overflows:
    // K = 39 + (600 - 39) % 508 = 92 <= X, so 92 bytes stay inline and the
    // remaining 508 fill exactly one overflow page.
    let payload: Vec<u8> = (0..600u32).map(|i| (i % 251) as u8).collect();
    let mut cell = encode_varint(600);
    cell.extend(encode_varint(42));
    cell.extend_from_slice(&payload[..92]);
    cell.extend_from_slice(&3u32.to_be_bytes());

    let page1 = page_with_cells(100, 13, &[], None);
    let leaf = page_with_cells(0, 13, &[cell], None);
    let mut overflow = vec![0u8; PAGE_SIZE];
    overflow[0..4].copy_from_slice(&0u32.to_be_bytes());
    overflow[4..512].copy_from_slice(&payload[92..600]);

    let data = db_image(vec![page1, leaf, overflow]);
    let db = Database::open(data).unwrap();
    let page = db.seek_to_page(2).unwrap();
    assert_eq!(page.page_type, PageType::TableLeaf);
    let ptrs = page.fetch_cell_pointers(&db).unwrap();
    assert_eq!(ptrs.len(), 1);

    let (row_id, rebuilt) = read_leaf_cell(&db, 2, ptrs[0]).unwrap();
    assert_eq!(row_id, 42);
    assert_eq!(rebuilt, payload);
}

#[test]
fn overflow_chain_of_two_pages() {
    // a 1200-byte payload: K = 39 + (1200 - 39) % 508 = 39 + 145 = 184
    // inline, 1016 = 2 * 508 bytes across two overflow pages
    let payload: Vec<u8> = (0..1200u32).map(|i| (i % 241) as u8).collect();
    let mut cell = encode_varint(1200);
    cell.extend(encode_varint(7));
    cell.extend_from_slice(&payload[..184]);
    cell.extend_from_slice(&3u32.to_be_bytes());

    let page1 = page_with_cells(100, 13, &[], None);
    let leaf = page_with_cells(0, 13, &[cell], None);
    let mut ov1 = vec![0u8; PAGE_SIZE];
    ov1[0..4].copy_from_slice(&4u32.to_be_bytes());
    ov1[4..512].copy_from_slice(&payload[184..692]);
    let mut ov2 = vec![0u8; PAGE_SIZE];
    ov2[0..4].copy_from_slice(&0u32.to_be_bytes());
    ov2[4..512].copy_from_slice(&payload[692..1200]);

    let data = db_image(vec![page1, leaf, ov1, ov2]);
    let db = Database::open(data).unwrap();
    let page = db.seek_to_page(2).unwrap();
    let ptrs = page.fetch_cell_pointers(&db).unwrap();
    let (row_id, rebuilt) = read_leaf_cell(&db, 2, ptrs[0]).unwrap();
    assert_eq!(row_id, 7);
    assert_eq!(rebuilt, payload);
}

#[test]
fn truncated_overflow_chain_fails() {
    // the cell claims 600 bytes but the overflow pointer ends the chain
    let payload: Vec<u8> = vec![9u8; 92];
    let mut cell = encode_varint(600);
    cell.extend(encode_varint(1));
    cell.extend_from_slice(&payload);
    cell.extend_from_slice(&0u32.to_be_bytes());

    let page1 = page_with_cells(100, 13, &[], None);
    let leaf = page_with_cells(0, 13, &[cell], None);
    let data = db_image(vec![page1, leaf]);
    let db = Database::open(data).unwrap();
    let page = db.seek_to_page(2).unwrap();
    let ptrs = page.fetch_cell_pointers(&db).unwrap();
    assert_eq!(
        read_leaf_cell(&db, 2, ptrs[0]).unwrap_err(),
        DbError::TruncatedOverflow
    );
}

#[test]
fn overflow_pointer_out_of_range_fails() {
    let payload: Vec<u8> = vec![9u8; 92];
    let mut cell = encode_varint(600);
    cell.extend(encode_varint(1));
    cell.extend_from_slice(&payload);
    cell.extend_from_slice(&77u32.to_be_bytes());

    let page1 = page_with_cells(100, 13, &[], None);
    let leaf = page_with_cells(0, 13, &[cell], None);
    let data = db_image(vec![page1, leaf]);
    let db = Database::open(data).unwrap();
    let page = db.seek_to_page(2).unwrap();
    let ptrs = page.fetch_cell_pointers(&db).unwrap();
    assert_eq!(
        read_leaf_cell(&db, 2, ptrs[0]).unwrap_err(),
        DbError::PageOutOfRange
    );
}
