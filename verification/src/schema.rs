//! The schema catalog: the table of tables stored in the B-tree rooted at
//! page 1, whose records are read positionally as (object type, name, table
//! name, root page, definition text).

use vstd::prelude::*;
use vstd::string::StrSliceExecFns;

use crate::btree::{row_ids_ascending, spec_walk, walk_table};
use crate::db::Database;
use crate::errors::DbError;
use crate::record::{Record, RecordModel};
use crate::text::{ident_end, skip_spaces, spec_ident_end, spec_skip_spaces, str_to_chars};
use crate::types::{SerialValue, SpecValue};

verus! {

broadcast use vstd::std_specs::vec::axiom_spec_len;

/// The integer a column value holds, if it holds one.
pub open spec fn spec_integer_value(v: SpecValue) -> Option<int> {
    match v {
        SpecValue::Int8(x) => Some(x),
        SpecValue::Int16(x) => Some(x),
        SpecValue::Int24(x) => Some(x),
        SpecValue::Int32(x) => Some(x),
        SpecValue::Int48(x) => Some(x),
        SpecValue::Int64(x) => Some(x),
        SpecValue::Zero => Some(0int),
        SpecValue::One => Some(1int),
        _ => None,
    }
}

/// The text a column value holds, if it holds text.
pub open spec fn spec_text_value(v: SpecValue) -> Option<Seq<char>> {
    match v {
        SpecValue::Text(s) => Some(s),
        _ => None,
    }
}

/// One catalog row.
#[derive(Debug)]
pub struct SchemaEntry {
    pub object_type: String,
    pub name: String,
    pub table_name: String,
    pub root_page: u32,
    pub definition_sql: String,
}

/// The mathematical content of a catalog row.
pub struct SchemaEntryModel {
    pub object_type: Seq<char>,
    pub name: Seq<char>,
    pub table_name: Seq<char>,
    pub root_page: u32,
    pub definition_sql: Seq<char>,
}

impl View for SchemaEntry {
    type V = SchemaEntryModel;

    open spec fn view(&self) -> SchemaEntryModel {
        SchemaEntryModel {
            object_type: self.object_type@,
            name: self.name@,
            table_name: self.table_name@,
            root_page: self.root_page,
            definition_sql: self.definition_sql@,
        }
    }
}

impl vstd::view::DeepView for SchemaEntry {
    type V = SchemaEntryModel;

    open spec fn deep_view(&self) -> SchemaEntryModel {
        self@
    }
}

/// The catalog entry a schema record describes: five columns, read
/// positionally, the first three and the fifth text, the fourth an integer
/// that fits a page number.
pub open spec fn spec_schema_entry(rec: RecordModel) -> Result<SchemaEntryModel, DbError> {
    if rec.values.len() < 5 {
        Err(DbError::MalformedSchema)
    } else {
        match spec_text_value(rec.values[0]) {
            None => Err(DbError::MalformedSchema),
            Some(object_type) => match spec_text_value(rec.values[1]) {
                None => Err(DbError::MalformedSchema),
                Some(name) => match spec_text_value(rec.values[2]) {
                    None => Err(DbError::MalformedSchema),
                    Some(table_name) => match spec_integer_value(rec.values[3]) {
                        None => Err(DbError::MalformedSchema),
                        Some(root) => {
                            if root < 0 || root >= 0x1_0000_0000 {
                                Err(DbError::MalformedSchema)
                            } else {
                                match spec_text_value(rec.values[4]) {
                                    None => Err(DbError::MalformedSchema),
                                    Some(definition_sql) => Ok(
                                        SchemaEntryModel {
                                            object_type,
                                            name,
                                            table_name,
                                            root_page: root as u32,
                                            definition_sql,
                                        },
                                    ),
                                }
                            }
                        },
                    },
                },
            },
        }
    }
}

/// The catalog entries the schema records describe, in record order.
pub open spec fn spec_schema_entries(recs: Seq<RecordModel>) -> Result<
    Seq<SchemaEntryModel>,
    DbError,
>
    decreases recs.len(),
{
    if recs.len() == 0 {
        Ok(Seq::empty())
    } else {
        match spec_schema_entry(recs[0]) {
            Err(e) => Err(e),
            Ok(entry) => match spec_schema_entries(recs.drop_first()) {
                Ok(rest) => Ok(seq![entry] + rest),
                Err(e) => Err(e),
            },
        }
    }
}

/// The whole catalog of the image: the walk of the tree rooted at page 1,
/// checked for ascending row ids, its records read as catalog rows.
pub open spec fn spec_catalog(d: Seq<u8>, page_size: nat, page_count: nat) -> Result<
    Seq<SchemaEntryModel>,
    DbError,
> {
    match spec_walk(d, page_size, page_count, seq![1u32], page_count) {
        Err(e) => Err(e),
        Ok(recs) => {
            if !row_ids_ascending(recs) {
                Err(DbError::NonAscendingRowIds)
            } else {
                spec_schema_entries(recs)
            }
        },
    }
}

fn text_value(v: &SerialValue) -> (r: Result<String, DbError>)
    ensures
        match r {
            Ok(s) => spec_text_value(v@) == Some(s@),
            Err(e) => spec_text_value(v@) is None && e == DbError::MalformedSchema,
        },
{
    match v {
        SerialValue::Text(s) => Ok(s.clone()),
        _ => Err(DbError::MalformedSchema),
    }
}

fn integer_value(v: &SerialValue) -> (r: Result<i64, DbError>)
    ensures
        match r {
            Ok(x) => spec_integer_value(v@) == Some(x as int),
            Err(e) => spec_integer_value(v@) is None && e == DbError::MalformedSchema,
        },
{
    match v {
        SerialValue::Int8(x) => Ok(*x as i64),
        SerialValue::Int16(x) => Ok(*x as i64),
        SerialValue::Int24(x) => Ok(*x as i64),
        SerialValue::Int32(x) => Ok(*x as i64),
        SerialValue::Int48(x) => Ok(*x),
        SerialValue::Int64(x) => Ok(*x),
        SerialValue::Zero => Ok(0),
        SerialValue::One => Ok(1),
        _ => Err(DbError::MalformedSchema),
    }
}

fn schema_entry_of(rec: &Record) -> (r: Result<SchemaEntry, DbError>)
    ensures
        match r {
            Ok(entry) => spec_schema_entry(rec@) == Ok::<SchemaEntryModel, DbError>(entry@),
            Err(e) => spec_schema_entry(rec@) == Err::<SchemaEntryModel, DbError>(e),
        },
{
    if rec.serial_values.len() < 5 {
        return Err(DbError::MalformedSchema);
    }
    let object_type = text_value(&rec.serial_values[0])?;
    let name = text_value(&rec.serial_values[1])?;
    let table_name = text_value(&rec.serial_values[2])?;
    let root = integer_value(&rec.serial_values[3])?;
    if root < 0 || root >= 0x1_0000_0000 {
        return Err(DbError::MalformedSchema);
    }
    let definition_sql = text_value(&rec.serial_values[4])?;
    Ok(
        SchemaEntry {
            object_type,
            name,
            table_name,
            root_page: root as u32,
            definition_sql,
        },
    )
}

/// Reads the catalog: walks the schema tree at page 1 and decodes each of
/// its records as one catalog row.
#[verifier::loop_isolation(false)]
pub fn read_schema(db: &Database) -> (r: Result<Vec<SchemaEntry>, DbError>)
    requires
        db.wf(),
    ensures
        match r {
            Ok(entries) => spec_catalog(db.data@, db.page_size as nat, db.page_count as nat)
                == Ok::<Seq<SchemaEntryModel>, DbError>(entries.deep_view()),
            Err(e) => spec_catalog(db.data@, db.page_size as nat, db.page_count as nat)
                == Err::<Seq<SchemaEntryModel>, DbError>(e),
        },
{
    let recs = match walk_table(db, 1) {
        Ok(v) => v,
        Err(e) => {
            return Err(e);
        },
    };
    let ghost recs_dv = recs.deep_view();
    let mut out: Vec<SchemaEntry> = Vec::new();
    let mut i: usize = 0;
    proof {
        assert(recs_dv.skip(0) =~= recs_dv);
        match spec_schema_entries(recs_dv) {
            Ok(rest) => {
                assert(out.deep_view() + rest =~= rest);
            },
            Err(_) => {},
        }
    }
    while i < recs.len()
        invariant
            0 <= i <= recs@.len(),
            recs.deep_view() == recs_dv,
            out.deep_view().len() == i,
            match spec_schema_entries(recs_dv.skip(i as int)) {
                Ok(rest) => spec_schema_entries(recs_dv)
                    == Ok::<Seq<SchemaEntryModel>, DbError>(out.deep_view() + rest),
                Err(e) => spec_schema_entries(recs_dv)
                    == Err::<Seq<SchemaEntryModel>, DbError>(e),
            },
        decreases recs@.len() - i,
    {
        proof {
            assert(recs_dv.skip(i as int)[0] == recs_dv[i as int]);
            assert(recs_dv.skip(i as int).drop_first() =~= recs_dv.skip(i + 1));
        }
        let entry = match schema_entry_of(&recs[i]) {
            Ok(entry) => entry,
            Err(e) => {
                return Err(e);
            },
        };
        let ghost dv0 = out.deep_view();
        out.push(entry);
        i = i + 1;
        proof {
            assert(out.deep_view() =~= dv0 + seq![entry@]);
            match spec_schema_entries(recs_dv.skip(i as int)) {
                Ok(rest) => {
                    assert(dv0 + (seq![entry@] + rest) =~= out.deep_view() + rest);
                },
                Err(_) => {},
            }
        }
    }
    proof {
        assert(recs_dv.skip(recs_dv.len() as int) =~= Seq::<RecordModel>::empty());
        assert(out.deep_view() + Seq::<SchemaEntryModel>::empty() =~= out.deep_view());
    }
    Ok(out)
}

/// The word that marks a catalog row as a table object.
pub open spec fn table_keyword() -> Seq<char> {
    "table"@
}

/// The first catalog entry that names `table` as a table object.
pub open spec fn spec_find_table(entries: Seq<SchemaEntryModel>, table: Seq<char>) -> Option<
    SchemaEntryModel,
>
    decreases entries.len(),
{
    if entries.len() == 0 {
        None
    } else if entries[0].object_type == table_keyword() && entries[0].table_name == table {
        Some(entries[0])
    } else {
        spec_find_table(entries.drop_first(), table)
    }
}

/// The names of the table objects of the catalog, in catalog order.
pub open spec fn spec_table_names(entries: Seq<SchemaEntryModel>) -> Seq<Seq<char>>
    decreases entries.len(),
{
    if entries.len() == 0 {
        Seq::empty()
    } else {
        let rest = spec_table_names(entries.drop_first());
        if entries[0].object_type == table_keyword() {
            seq![entries[0].name] + rest
        } else {
            rest
        }
    }
}

/// Finds the catalog entry of the table named `table`: the first entry
/// whose object type is `table` and whose table name matches.
#[verifier::loop_isolation(false)]
pub fn find_table(entries: &Vec<SchemaEntry>, table: &String) -> (r: Option<SchemaEntry>)
    ensures
        match r {
            Some(entry) => spec_find_table(entries.deep_view(), table@) == Some(entry@),
            None => spec_find_table(entries.deep_view(), table@) is None,
        },
{
    let kw: String = "table".to_owned();
    let ghost dv = entries.deep_view();
    let mut i: usize = 0;
    proof {
        assert(dv.skip(0) =~= dv);
    }
    while i < entries.len()
        invariant
            0 <= i <= entries@.len(),
            spec_find_table(dv.skip(i as int), table@) == spec_find_table(dv, table@),
        decreases entries@.len() - i,
    {
        proof {
            assert(dv.skip(i as int)[0] == dv[i as int]);
            assert(dv.skip(i as int).drop_first() =~= dv.skip(i + 1));
        }
        let e = &entries[i];
        let is_table = e.object_type == kw;
        let name_match = e.table_name == *table;
        if is_table && name_match {
            return Some(
                SchemaEntry {
                    object_type: e.object_type.clone(),
                    name: e.name.clone(),
                    table_name: e.table_name.clone(),
                    root_page: e.root_page,
                    definition_sql: e.definition_sql.clone(),
                },
            );
        }
        i = i + 1;
    }
    proof {
        assert(dv.skip(dv.len() as int) =~= Seq::<SchemaEntryModel>::empty());
    }
    None
}

/// The names of all table objects, in catalog order.
#[verifier::loop_isolation(false)]
pub fn list_table_names(entries: &Vec<SchemaEntry>) -> (r: Vec<String>)
    ensures
        r.deep_view() == spec_table_names(entries.deep_view()),
{
    let kw: String = "table".to_owned();
    let ghost dv = entries.deep_view();
    let mut out: Vec<String> = Vec::new();
    let mut i: usize = 0;
    proof {
        assert(dv.skip(0) =~= dv);
        assert(out.deep_view() + spec_table_names(dv) =~= spec_table_names(dv));
    }
    while i < entries.len()
        invariant
            0 <= i <= entries@.len(),
            spec_table_names(dv) == out.deep_view() + spec_table_names(dv.skip(i as int)),
        decreases entries@.len() - i,
    {
        proof {
            assert(dv.skip(i as int)[0] == dv[i as int]);
            assert(dv.skip(i as int).drop_first() =~= dv.skip(i + 1));
        }
        let e = &entries[i];
        let ghost out0 = out.deep_view();
        if e.object_type == kw {
            out.push(e.name.clone());
            proof {
                assert(out.deep_view() =~= out0 + seq![dv[i as int].name]);
                assert(out0 + (seq![dv[i as int].name] + spec_table_names(dv.skip(i + 1)))
                    =~= out.deep_view() + spec_table_names(dv.skip(i + 1)));
            }
        }
        i = i + 1;
    }
    proof {
        assert(dv.skip(dv.len() as int) =~= Seq::<SchemaEntryModel>::empty());
        assert(out.deep_view() + Seq::<Seq<char>>::empty() =~= out.deep_view());
    }
    out
}

/// Position of the first opening parenthesis at or after `i`, or the
/// length of `s` when there is none.
pub open spec fn spec_find_open(s: Seq<char>, i: int) -> int
    decreases s.len() - i,
{
    if i >= s.len() {
        s.len() as int
    } else if s[i] == '(' {
        i
    } else {
        spec_find_open(s, i + 1)
    }
}

/// End of the current column segment: the next comma or closing parenthesis
/// at nesting depth one, scanning from `i` at nesting `depth`.
pub open spec fn spec_segment_end(s: Seq<char>, i: int, depth: int) -> int
    decreases s.len() - i,
{
    if i < 0 || i >= s.len() {
        s.len() as int
    } else if depth == 1 && (s[i] == ',' || s[i] == ')') {
        i
    } else if s[i] == '(' {
        spec_segment_end(s, i + 1, depth + 1)
    } else if s[i] == ')' {
        spec_segment_end(s, i + 1, depth - 1)
    } else {
        spec_segment_end(s, i + 1, depth)
    }
}

proof fn lemma_segment_end_bounds(s: Seq<char>, i: int, depth: int)
    requires
        0 <= i <= s.len(),
    ensures
        i <= spec_segment_end(s, i, depth) <= s.len(),
    decreases s.len() - i,
{
    if i < s.len() && !(depth == 1 && (s[i] == ',' || s[i] == ')')) {
        if s[i] == '(' {
            lemma_segment_end_bounds(s, i + 1, depth + 1);
        } else if s[i] == ')' {
            lemma_segment_end_bounds(s, i + 1, depth - 1);
        } else {
            lemma_segment_end_bounds(s, i + 1, depth);
        }
    }
}

/// The column names from `i`, the start of a column segment at nesting
/// depth one: each segment contributes its leading identifier.
pub open spec fn spec_columns_from(s: Seq<char>, i: int) -> Seq<Seq<char>>
    decreases s.len() - i
        via spec_columns_from_decreases
{
    if i < 0 || i > s.len() {
        Seq::empty()
    } else {
        let a = spec_skip_spaces(s, i);
        let b = spec_ident_end(s, a);
        let name = s.subrange(a, b);
        let e = spec_segment_end(s, i, 1);
        if e >= s.len() || s[e] == ')' {
            seq![name]
        } else {
            seq![name] + spec_columns_from(s, e + 1)
        }
    }
}

#[via_fn]
proof fn spec_columns_from_decreases(s: Seq<char>, i: int) {
    if 0 <= i <= s.len() {
        lemma_segment_end_bounds(s, i, 1);
    }
}

/// The declared column names of a stored table definition: the
/// comma-separated segments between the first opening parenthesis and its
/// matching closer, each read as its leading identifier after whitespace.
/// This is a deliberate simplification of the column-definition grammar:
/// names are plain identifiers and quoting is not interpreted.
pub open spec fn spec_column_names(sql: Seq<char>) -> Seq<Seq<char>> {
    let open = spec_find_open(sql, 0);
    if open >= sql.len() {
        Seq::empty()
    } else {
        spec_columns_from(sql, open + 1)
    }
}

#[verifier::loop_isolation(false)]
fn find_open(chars: &Vec<char>, from: usize) -> (r: usize)
    requires
        from <= chars@.len(),
    ensures
        r == spec_find_open(chars@, from as int),
        from <= r <= chars@.len(),
    decreases chars@.len() - from,
{
    let mut i: usize = from;
    while i < chars.len()
        invariant
            from <= i <= chars@.len(),
            spec_find_open(chars@, from as int) == spec_find_open(chars@, i as int),
        decreases chars@.len() - i,
    {
        if chars[i] == '(' {
            return i;
        }
        i = i + 1;
    }
    i
}

#[verifier::loop_isolation(false)]
fn segment_end(chars: &Vec<char>, from: usize) -> (r: usize)
    requires
        1 <= from <= chars@.len(),
    ensures
        r == spec_segment_end(chars@, from as int, 1),
        from <= r <= chars@.len(),
{
    let n: usize = chars.len();
    let mut i: usize = from;
    let mut depth: usize = 1;
    proof {
        lemma_segment_end_bounds(chars@, from as int, 1);
    }
    while i < n
        invariant
            from <= i <= chars@.len(),
            1 <= from,
            n == chars@.len(),
            1 <= depth <= i - from + 1,
            spec_segment_end(chars@, from as int, 1) == spec_segment_end(
                chars@,
                i as int,
                depth as int,
            ),
        decreases chars@.len() - i,
    {
        let c = chars[i];
        if depth == 1 && (c == ',' || c == ')') {
            return i;
        }
        if c == '(' {
            depth = depth + 1;
        } else if c == ')' {
            proof {
                assert(depth >= 2);
            }
            depth = depth - 1;
        }
        i = i + 1;
    }
    i
}

/// The declared column names of the stored definition text `sql`.
fn columns_from(sql: &str, chars: &Vec<char>, from: usize) -> (r: Vec<String>)
    requires
        chars@ == sql@,
        1 <= from <= chars@.len(),
    ensures
        r.deep_view() == spec_columns_from(chars@, from as int),
    decreases chars@.len() - from,
{
    let a = skip_spaces(chars, from);
    let b = ident_end(chars, a);
    let name: String = sql.substring_char(a, b).to_owned();
    let e = segment_end(chars, from);
    let mut out: Vec<String> = Vec::new();
    out.push(name);
    if e >= chars.len() || chars[e] == ')' {
        proof {
            assert(out.deep_view() =~= spec_columns_from(chars@, from as int));
        }
        out
    } else {
        proof {
            lemma_segment_end_bounds(chars@, from as int, 1);
        }
        let mut rest = columns_from(sql, chars, e + 1);
        let ghost rest_dv = rest.deep_view();
        out.append(&mut rest);
        proof {
            assert(out.deep_view() =~= seq![chars@.subrange(
                spec_skip_spaces(chars@, from as int),
                spec_ident_end(chars@, spec_skip_spaces(chars@, from as int)),
            )] + rest_dv);
        }
        out
    }
}

/// The declared column names of a table's stored definition: used to
/// resolve a column name to its ordinal in each row.
pub fn column_names(sql: &String) -> (r: Vec<String>)
    ensures
        r.deep_view() == spec_column_names(sql@),
{
    let chars = str_to_chars(sql.as_str());
    let open = find_open(&chars, 0);
    if open >= chars.len() {
        Vec::new()
    } else {
        columns_from(sql.as_str(), &chars, open + 1)
    }
}

} // verus!
