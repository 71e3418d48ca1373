use sqlite_reader::errors::DbError;
use sqlite_reader::query_parser::{parse_query, Function, FunctionArgument, Query, Selection};
use sqlite_reader::session::{QueryExecError, QueryResult, Session};
use sqlite_reader::types::SerialValue;
use sqlite_reader::varint::encode_varint;

const PAGE_SIZE: usize = 512;

fn record_bytes(cols: &[(u64, Vec<u8>)]) -> Vec<u8> {
    let mut codes: Vec<u8> = Vec::new();
    for (code, _) in cols {
        codes.extend(encode_varint(*code));
    }
    let hlen = codes.len() as u64 + 1;
    assert!(hlen < 128);
    let mut out = vec![hlen as u8];
    out.extend(codes);
    for (_, content) in cols {
        out.extend(content.iter());
    }
    out
}

fn text_col(s: &str) -> (u64, Vec<u8>) {
    (13 + 2 * s.len() as u64, s.as_bytes().to_vec())
}

fn int8_col(x: i8) -> (u64, Vec<u8>) {
    (1, vec![x as u8])
}

fn leaf_cell(row_id: u64, payload: &[u8]) -> Vec<u8> {
    let mut out = encode_varint(payload.len() as u64);
    out.extend(encode_varint(row_id));
    out.extend_from_slice(payload);
    out
}

fn page_with_cells(header_at: usize, page_type: u8, cells: &[Vec<u8>]) -> Vec<u8> {
    let mut page = vec![0u8; PAGE_SIZE];
    page[header_at] = page_type;
    page[header_at + 3..header_at + 5].copy_from_slice(&(cells.len() as u16).to_be_bytes());
    let mut top = PAGE_SIZE;
    let mut ptrs: Vec<u16> = Vec::new();
    for cell in cells {
        top -= cell.len();
        page[top..top + cell.len()].copy_from_slice(cell);
        ptrs.push(top as u16);
    }
    page[header_at + 5..header_at + 7].copy_from_slice(&(top as u16).to_be_bytes());
    let mut p = header_at + 8;
    for off in ptrs {
        page[p..p + 2].copy_from_slice(&off.to_be_bytes());
        p += 2;
    }
    page
}

fn db_image(mut pages: Vec<Vec<u8>>) -> Vec<u8> {
    let count = pages.len() as u32;
    pages[0][16..18].copy_from_slice(&(PAGE_SIZE as u16).to_be_bytes());
    pages[0][20] = 0;
    pages[0][28..32].copy_from_slice(&count.to_be_bytes());
    pages.concat()
}

fn schema_cell(row_id: u64, name: &str, root_page: i8, sql: &str) -> Vec<u8> {
    leaf_cell(
        row_id,
        &record_bytes(&[
            text_col("table"),
            text_col(name),
            text_col(name),
            int8_col(root_page),
            text_col(sql),
        ]),
    )
}

/// A database with two tables: `apples(name, color)` with three rows and
/// `carrots(name, color)` with four.
fn orchard_db() -> Vec<u8> {
    let page1 = page_with_cells(
        100,
        13,
        &[
            schema_cell(1, "apples", 2, "CREATE TABLE apples (name text, color text)"),
            schema_cell(2, "carrots", 3, "CREATE TABLE carrots (name text, color text)"),
        ],
    );
    let apples = page_with_cells(
        0,
        13,
        &[
            leaf_cell(1, &record_bytes(&[text_col("Granny Smith"), text_col("Green")])),
            leaf_cell(2, &record_bytes(&[text_col("Fuji"), text_col("Red")])),
            leaf_cell(3, &record_bytes(&[text_col("Golden"), text_col("Yellow")])),
        ],
    );
    let carrots = page_with_cells(
        0,
        13,
        &[
            leaf_cell(1, &record_bytes(&[text_col("Nantes"), text_col("Orange")])),
            leaf_cell(2, &record_bytes(&[text_col("Lunar White"), text_col("White")])),
            leaf_cell(3, &record_bytes(&[text_col("Solar Yellow"), text_col("Yellow")])),
            leaf_cell(4, &record_bytes(&[text_col("Amarillo"), text_col("Yellow")])),
        ],
    );
    db_image(vec![page1, apples, carrots])
}

#[test]
fn count_star_counts_rows() {
    let session = Session::open(orchard_db()).unwrap();
    let (_, query) = parse_query("SELECT COUNT(*) FROM apples").unwrap();
    let result = session.run_query(&query).unwrap();
    assert_eq!(result, QueryResult::Count(3));
}

#[test]
fn where_filters_and_projects_in_row_order() {
    let session = Session::open(orchard_db()).unwrap();
    let (_, query) = parse_query("SELECT name, color FROM carrots WHERE color = 'Yellow'").unwrap();
    let result = session.run_query(&query).unwrap();
    assert_eq!(
        result,
        QueryResult::Rows(vec![
            vec![
                SerialValue::Text("Solar Yellow".to_string()),
                SerialValue::Text("Yellow".to_string()),
            ],
            vec![
                SerialValue::Text("Amarillo".to_string()),
                SerialValue::Text("Yellow".to_string()),
            ],
        ])
    );
}

#[test]
fn projection_reorders_columns() {
    let session = Session::open(orchard_db()).unwrap();
    let (_, query) = parse_query("SELECT color, name FROM apples WHERE name = 'Fuji'").unwrap();
    let result = session.run_query(&query).unwrap();
    assert_eq!(
        result,
        QueryResult::Rows(vec![vec![
            SerialValue::Text("Red".to_string()),
            SerialValue::Text("Fuji".to_string()),
        ]])
    );
}

#[test]
fn count_with_condition() {
    let session = Session::open(orchard_db()).unwrap();
    let (_, query) = parse_query("SELECT COUNT(*) FROM carrots WHERE color = 'Yellow'").unwrap();
    assert_eq!(session.run_query(&query).unwrap(), QueryResult::Count(2));
}

#[test]
fn unknown_table_is_reported() {
    let session = Session::open(orchard_db()).unwrap();
    let (_, query) = parse_query("SELECT COUNT(*) FROM pears").unwrap();
    assert_eq!(session.run_query(&query).unwrap_err(), QueryExecError::TableNotFound);
}

#[test]
fn unknown_column_is_reported() {
    let session = Session::open(orchard_db()).unwrap();
    let (_, query) = parse_query("SELECT taste FROM apples").unwrap();
    assert_eq!(session.run_query(&query).unwrap_err(), QueryExecError::UnknownColumn);

    let (_, query) = parse_query("SELECT name FROM apples WHERE taste = 'sweet'").unwrap();
    assert_eq!(session.run_query(&query).unwrap_err(), QueryExecError::UnknownColumn);
}

#[test]
fn list_tables_and_page_size() {
    let session = Session::open(orchard_db()).unwrap();
    assert_eq!(session.page_size(), 512);
    assert_eq!(session.list_tables(), vec!["apples".to_string(), "carrots".to_string()]);
}

#[test]
fn session_open_rejects_reserved_space() {
    let mut data = orchard_db();
    data[20] = 1;
    assert_eq!(Session::open(data).unwrap_err(), DbError::UnsupportedReservedSpace);
}

#[test]
fn conditions_on_non_text_columns_never_match() {
    // a table whose second column holds integers: the text comparison
    // never matches an integer column
    let page1 = page_with_cells(
        100,
        13,
        &[schema_cell(1, "pears", 2, "CREATE TABLE pears (name text, grade int)")],
    );
    let pears = page_with_cells(
        0,
        13,
        &[leaf_cell(1, &record_bytes(&[text_col("Bosc"), int8_col(5)]))],
    );
    let session = Session::open(db_image(vec![page1, pears])).unwrap();
    let (_, query) = parse_query("SELECT COUNT(*) FROM pears WHERE grade = '5'").unwrap();
    assert_eq!(session.run_query(&query).unwrap(), QueryResult::Count(0));
}

#[test]
fn schema_record_with_too_few_columns_is_malformed() {
    // a catalog record of two columns cannot be a schema row
    let cell = leaf_cell(1, &record_bytes(&[text_col("table"), text_col("apples")]));
    let page1 = page_with_cells(100, 13, &[cell]);
    assert_eq!(
        Session::open(db_image(vec![page1])).unwrap_err(),
        DbError::MalformedSchema
    );
}

#[test]
fn aggregate_beside_columns_is_unsupported() {
    let session = Session::open(orchard_db()).unwrap();
    let query = Query {
        selection_list: vec![
            Selection::ColumnName("name".to_string()),
            Selection::AggregateFunction(Function::Count(FunctionArgument::All)),
        ],
        from_table: "apples".to_string(),
        and_conditions: None,
    };
    assert_eq!(
        session.run_query(&query).unwrap_err(),
        QueryExecError::UnsupportedSelection
    );
}

#[test]
fn broken_table_root_reports_storage_error() {
    // the catalog names a root page the file does not have
    let page1 = page_with_cells(
        100,
        13,
        &[schema_cell(1, "ghosts", 9, "CREATE TABLE ghosts (name text)")],
    );
    let session = Session::open(db_image(vec![page1])).unwrap();
    let (_, query) = parse_query("SELECT COUNT(*) FROM ghosts").unwrap();
    assert_eq!(
        session.run_query(&query).unwrap_err(),
        QueryExecError::Storage(DbError::PageOutOfRange)
    );
}
