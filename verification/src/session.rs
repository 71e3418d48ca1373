//! The query executor: a session owning one open database image and its
//! cached schema catalog, answering the restricted `SELECT` queries.
//!
//! Conditions compare a column's text against the literal: a condition on a
//! column that holds anything but text never matches — the consistent,
//! documented choice for type-mismatched comparisons. A projected column
//! that a (short) row does not carry comes back as `Null`.

use vstd::prelude::*;

use crate::btree::{row_ids_ascending, spec_walk, walk_table};
use crate::db::{spec_open, Database};
use crate::errors::DbError;
use crate::query_parser::{ConditionModel, Query, QueryModel, Selection, SelectionModel};
use crate::record::{Record, RecordModel};
use crate::schema::{
    column_names, find_table, list_table_names, read_schema, spec_catalog, spec_column_names,
    spec_find_table, spec_table_names, spec_text_value, SchemaEntry, SchemaEntryModel,
};
use crate::types::{SerialValue, SpecValue};

verus! {

broadcast use vstd::std_specs::vec::axiom_spec_len;

/// What a query returns: a bare count for `COUNT(*)`, otherwise the
/// projected rows in ascending row-id order.
#[derive(Debug, PartialEq)]
pub enum QueryResult {
    Count(u64),
    Rows(Vec<Vec<SerialValue>>),
}

/// The mathematical content of a query result.
pub enum QueryResultModel {
    Count(nat),
    Rows(Seq<Seq<SpecValue>>),
}

impl View for QueryResult {
    type V = QueryResultModel;

    open spec fn view(&self) -> QueryResultModel {
        match self {
            QueryResult::Count(n) => QueryResultModel::Count(*n as nat),
            QueryResult::Rows(rows) => QueryResultModel::Rows(rows.deep_view()),
        }
    }
}

/// Why a query could not be answered.
#[derive(Debug, PartialEq, Eq, Structural, Clone, Copy)]
pub enum QueryExecError {
    /// The catalog holds no table of the requested name.
    TableNotFound,
    /// A selected or filtered column is not among the table's columns.
    UnknownColumn,
    /// An aggregate stands beside other selections.
    UnsupportedSelection,
    /// Reading the table failed at the storage layer.
    Storage(DbError),
}

/// First index of `name` among the columns, if any.
pub open spec fn spec_index_of(cols: Seq<Seq<char>>, name: Seq<char>) -> Option<usize>
    decreases cols.len(),
{
    if cols.len() == 0 {
        None
    } else if cols[0] == name {
        Some(0usize)
    } else {
        match spec_index_of(cols.drop_first(), name) {
            None => None,
            Some(k) => Some((k + 1) as usize),
        }
    }
}

/// The ordinals of the selected columns; an aggregate among them is
/// refused, and so is a name the table does not declare.
pub open spec fn spec_resolve_selections(cols: Seq<Seq<char>>, sels: Seq<SelectionModel>) -> Result<
    Seq<usize>,
    QueryExecError,
>
    decreases sels.len(),
{
    if sels.len() == 0 {
        Ok(Seq::empty())
    } else {
        match sels[0] {
            SelectionModel::CountAll => Err(QueryExecError::UnsupportedSelection),
            SelectionModel::ColumnName(nm) => match spec_index_of(cols, nm) {
                None => Err(QueryExecError::UnknownColumn),
                Some(k) => match spec_resolve_selections(cols, sels.drop_first()) {
                    Ok(rest) => Ok(seq![k] + rest),
                    Err(e) => Err(e),
                },
            },
        }
    }
}

/// One condition with its column resolved to an ordinal.
pub struct ResolvedCondition {
    pub column: usize,
    pub value: String,
}

/// The mathematical content of a resolved condition.
pub struct ResolvedConditionModel {
    pub column: usize,
    pub value: Seq<char>,
}

impl View for ResolvedCondition {
    type V = ResolvedConditionModel;

    open spec fn view(&self) -> ResolvedConditionModel {
        ResolvedConditionModel { column: self.column, value: self.value@ }
    }
}

impl vstd::view::DeepView for ResolvedCondition {
    type V = ResolvedConditionModel;

    open spec fn deep_view(&self) -> ResolvedConditionModel {
        self@
    }
}

/// The conditions with their columns resolved to ordinals.
pub open spec fn spec_resolve_conditions(cols: Seq<Seq<char>>, conds: Seq<ConditionModel>) -> Result<
    Seq<ResolvedConditionModel>,
    QueryExecError,
>
    decreases conds.len(),
{
    if conds.len() == 0 {
        Ok(Seq::empty())
    } else {
        match spec_index_of(cols, conds[0].column_name) {
            None => Err(QueryExecError::UnknownColumn),
            Some(k) => match spec_resolve_conditions(cols, conds.drop_first()) {
                Ok(rest) => Ok(
                    seq![ResolvedConditionModel { column: k, value: conds[0].value }] + rest,
                ),
                Err(e) => Err(e),
            },
        }
    }
}

/// Whether a row satisfies one condition: the column exists in the row,
/// holds text, and that text equals the literal.
pub open spec fn spec_condition_holds(rec: RecordModel, c: ResolvedConditionModel) -> bool {
    c.column < rec.values.len() && spec_text_value(rec.values[c.column as int]) == Some(c.value)
}

/// Whether a row satisfies every condition.
pub open spec fn spec_row_matches(rec: RecordModel, conds: Seq<ResolvedConditionModel>) -> bool {
    forall|k: int| 0 <= k < conds.len() ==> spec_condition_holds(rec, #[trigger] conds[k])
}

/// The projection of a row: the value at each ordinal, `Null` where the row
/// is shorter.
pub open spec fn spec_project(rec: RecordModel, ords: Seq<usize>) -> Seq<SpecValue> {
    Seq::new(
        ords.len(),
        |k: int|
            if ords[k] < rec.values.len() {
                rec.values[ords[k] as int]
            } else {
                SpecValue::Null
            },
    )
}

/// How many records satisfy the conditions.
pub open spec fn spec_match_count(recs: Seq<RecordModel>, conds: Seq<ResolvedConditionModel>) -> nat
    decreases recs.len(),
{
    if recs.len() == 0 {
        0
    } else {
        let rest = spec_match_count(recs.drop_first(), conds);
        if spec_row_matches(recs[0], conds) {
            rest + 1
        } else {
            rest
        }
    }
}

/// The projected rows of the records that satisfy the conditions, in
/// record order.
pub open spec fn spec_result_rows(
    recs: Seq<RecordModel>,
    conds: Seq<ResolvedConditionModel>,
    ords: Seq<usize>,
) -> Seq<Seq<SpecValue>>
    decreases recs.len(),
{
    if recs.len() == 0 {
        Seq::empty()
    } else {
        let rest = spec_result_rows(recs.drop_first(), conds, ords);
        if spec_row_matches(recs[0], conds) {
            seq![spec_project(recs[0], ords)] + rest
        } else {
            rest
        }
    }
}

/// The records of the table rooted at `root`: the walk, which must come
/// back in strictly ascending row-id order.
pub open spec fn spec_table_records(d: Seq<u8>, page_size: nat, page_count: nat, root: u32) -> Result<
    Seq<RecordModel>,
    DbError,
> {
    match spec_walk(d, page_size, page_count, seq![root], page_count) {
        Err(e) => Err(e),
        Ok(recs) => {
            if !row_ids_ascending(recs) {
                Err(DbError::NonAscendingRowIds)
            } else {
                Ok(recs)
            }
        },
    }
}

/// What running `q` against the image yields: the reference model of the
/// executor. The table is resolved in the catalog, column names against the
/// table's declared column list; `COUNT(*)` yields the number of matching
/// rows, a column selection their projections in storage (row-id) order.
pub open spec fn spec_run_query(
    d: Seq<u8>,
    page_size: nat,
    page_count: nat,
    schema: Seq<SchemaEntryModel>,
    q: QueryModel,
) -> Result<QueryResultModel, QueryExecError> {
    match spec_find_table(schema, q.from_table) {
        None => Err(QueryExecError::TableNotFound),
        Some(entry) => {
            let cols = spec_column_names(entry.definition_sql);
            let cond_list = match q.and_conditions {
                None => Seq::<ConditionModel>::empty(),
                Some(cs) => cs,
            };
            match spec_resolve_conditions(cols, cond_list) {
                Err(e) => Err(e),
                Ok(conds) => {
                    if q.selection_list.len() == 1 && q.selection_list[0] is CountAll {
                        match spec_table_records(d, page_size, page_count, entry.root_page) {
                            Err(e) => Err(QueryExecError::Storage(e)),
                            Ok(recs) => Ok(QueryResultModel::Count(spec_match_count(recs, conds))),
                        }
                    } else {
                        match spec_resolve_selections(cols, q.selection_list) {
                            Err(e) => Err(e),
                            Ok(ords) => match spec_table_records(
                                d,
                                page_size,
                                page_count,
                                entry.root_page,
                            ) {
                                Err(e) => Err(QueryExecError::Storage(e)),
                                Ok(recs) => Ok(
                                    QueryResultModel::Rows(spec_result_rows(recs, conds, ords)),
                                ),
                            },
                        }
                    }
                },
            }
        },
    }
}

proof fn lemma_index_of_bound(cols: Seq<Seq<char>>, name: Seq<char>)
    requires
        cols.len() <= usize::MAX,
    ensures
        match spec_index_of(cols, name) {
            Some(k) => k < cols.len(),
            None => true,
        },
    decreases cols.len(),
{
    if cols.len() > 0 && cols[0] != name {
        lemma_index_of_bound(cols.drop_first(), name);
    }
}

/// First index of `name` among the columns.
#[verifier::loop_isolation(false)]
fn index_of(cols: &Vec<String>, name: &String) -> (r: Option<usize>)
    ensures
        match r {
            Some(k) => spec_index_of(cols.deep_view(), name@) == Some(k),
            None => spec_index_of(cols.deep_view(), name@) is None,
        },
{
    let ghost dv = cols.deep_view();
    let mut i: usize = 0;
    proof {
        assert(dv.skip(0) =~= dv);
    }
    while i < cols.len()
        invariant
            0 <= i <= cols@.len(),
            match spec_index_of(dv.skip(i as int), name@) {
                Some(k) => spec_index_of(dv, name@) == Some((k + i) as usize),
                None => spec_index_of(dv, name@) is None,
            },
        decreases cols@.len() - i,
    {
        proof {
            assert(dv.skip(i as int)[0] == dv[i as int]);
            assert(dv.skip(i as int).drop_first() =~= dv.skip(i + 1));
            lemma_index_of_bound(dv.skip(i + 1), name@);
        }
        if cols[i] == *name {
            return Some(i);
        }
        i = i + 1;
    }
    proof {
        assert(dv.skip(dv.len() as int) =~= Seq::<Seq<char>>::empty());
    }
    None
}

/// The ordinals of the selected columns.
#[verifier::loop_isolation(false)]
fn resolve_selections(cols: &Vec<String>, sels: &Vec<Selection>) -> (r: Result<
    Vec<usize>,
    QueryExecError,
>)
    ensures
        match r {
            Ok(ords) => spec_resolve_selections(cols.deep_view(), sels.deep_view())
                == Ok::<Seq<usize>, QueryExecError>(ords@),
            Err(e) => spec_resolve_selections(cols.deep_view(), sels.deep_view())
                == Err::<Seq<usize>, QueryExecError>(e),
        },
{
    let ghost sdv = sels.deep_view();
    let mut out: Vec<usize> = Vec::new();
    let mut i: usize = 0;
    proof {
        assert(sdv.skip(0) =~= sdv);
        match spec_resolve_selections(cols.deep_view(), sdv) {
            Ok(rest) => {
                assert(out@ + rest =~= rest);
            },
            Err(_) => {},
        }
    }
    while i < sels.len()
        invariant
            0 <= i <= sels@.len(),
            out@.len() == i,
            match spec_resolve_selections(cols.deep_view(), sdv.skip(i as int)) {
                Ok(rest) => spec_resolve_selections(cols.deep_view(), sdv)
                    == Ok::<Seq<usize>, QueryExecError>(out@ + rest),
                Err(e) => spec_resolve_selections(cols.deep_view(), sdv)
                    == Err::<Seq<usize>, QueryExecError>(e),
            },
        decreases sels@.len() - i,
    {
        proof {
            assert(sdv.skip(i as int)[0] == sdv[i as int]);
            assert(sdv.skip(i as int).drop_first() =~= sdv.skip(i + 1));
        }
        let ord = match &sels[i] {
            Selection::AggregateFunction(_) => {
                return Err(QueryExecError::UnsupportedSelection);
            },
            Selection::ColumnName(nm) => match index_of(cols, nm) {
                None => {
                    return Err(QueryExecError::UnknownColumn);
                },
                Some(k) => k,
            },
        };
        let ghost out0 = out@;
        out.push(ord);
        i = i + 1;
        proof {
            match spec_resolve_selections(cols.deep_view(), sdv.skip(i as int)) {
                Ok(rest) => {
                    assert(out0 + (seq![ord] + rest) =~= out@ + rest);
                },
                Err(_) => {},
            }
        }
    }
    proof {
        assert(sdv.skip(sdv.len() as int) =~= Seq::<SelectionModel>::empty());
        assert(out@ + Seq::<usize>::empty() =~= out@);
    }
    Ok(out)
}

/// The conditions with their columns resolved to ordinals.
#[verifier::loop_isolation(false)]
fn resolve_conditions(cols: &Vec<String>, conds: &Vec<crate::query_parser::AndCondition>) -> (r:
    Result<Vec<ResolvedCondition>, QueryExecError>)
    ensures
        match r {
            Ok(rc) => spec_resolve_conditions(cols.deep_view(), conds.deep_view())
                == Ok::<Seq<ResolvedConditionModel>, QueryExecError>(rc.deep_view()),
            Err(e) => spec_resolve_conditions(cols.deep_view(), conds.deep_view())
                == Err::<Seq<ResolvedConditionModel>, QueryExecError>(e),
        },
{
    let ghost cdv = conds.deep_view();
    let mut out: Vec<ResolvedCondition> = Vec::new();
    let mut i: usize = 0;
    proof {
        assert(cdv.skip(0) =~= cdv);
        match spec_resolve_conditions(cols.deep_view(), cdv) {
            Ok(rest) => {
                assert(out.deep_view() + rest =~= rest);
            },
            Err(_) => {},
        }
    }
    while i < conds.len()
        invariant
            0 <= i <= conds@.len(),
            out.deep_view().len() == i,
            match spec_resolve_conditions(cols.deep_view(), cdv.skip(i as int)) {
                Ok(rest) => spec_resolve_conditions(cols.deep_view(), cdv)
                    == Ok::<Seq<ResolvedConditionModel>, QueryExecError>(out.deep_view() + rest),
                Err(e) => spec_resolve_conditions(cols.deep_view(), cdv)
                    == Err::<Seq<ResolvedConditionModel>, QueryExecError>(e),
            },
        decreases conds@.len() - i,
    {
        proof {
            assert(cdv.skip(i as int)[0] == cdv[i as int]);
            assert(cdv.skip(i as int).drop_first() =~= cdv.skip(i + 1));
        }
        let k = match index_of(cols, &conds[i].column_name) {
            None => {
                return Err(QueryExecError::UnknownColumn);
            },
            Some(k) => k,
        };
        let rc = ResolvedCondition { column: k, value: conds[i].value.clone() };
        let ghost out0 = out.deep_view();
        let ghost rc_model = rc@;
        out.push(rc);
        i = i + 1;
        proof {
            assert(out.deep_view() =~= out0 + seq![rc_model]);
            match spec_resolve_conditions(cols.deep_view(), cdv.skip(i as int)) {
                Ok(rest) => {
                    assert(out0 + (seq![rc_model] + rest) =~= out.deep_view() + rest);
                },
                Err(_) => {},
            }
        }
    }
    proof {
        assert(cdv.skip(cdv.len() as int) =~= Seq::<ConditionModel>::empty());
        assert(out.deep_view() + Seq::<ResolvedConditionModel>::empty() =~= out.deep_view());
    }
    Ok(out)
}

/// Whether the record satisfies every condition.
#[verifier::loop_isolation(false)]
fn row_matches(rec: &Record, conds: &Vec<ResolvedCondition>) -> (r: bool)
    ensures
        r == spec_row_matches(rec@, conds.deep_view()),
{
    let ghost cdv = conds.deep_view();
    let mut k: usize = 0;
    while k < conds.len()
        invariant
            0 <= k <= conds@.len(),
            forall|j: int| 0 <= j < k ==> spec_condition_holds(rec@, #[trigger] cdv[j]),
        decreases conds@.len() - k,
    {
        let c = &conds[k];
        let holds: bool = if c.column >= rec.serial_values.len() {
            false
        } else {
            match &rec.serial_values[c.column] {
                SerialValue::Text(s) => *s == c.value,
                _ => false,
            }
        };
        if !holds {
            proof {
                assert(!spec_condition_holds(rec@, cdv[k as int]));
            }
            return false;
        }
        k = k + 1;
    }
    true
}

/// The projection of the record onto the resolved ordinals.
#[verifier::loop_isolation(false)]
fn project(rec: &Record, ords: &Vec<usize>) -> (r: Vec<SerialValue>)
    ensures
        r.deep_view() == spec_project(rec@, ords@),
{
    let mut out: Vec<SerialValue> = Vec::new();
    let mut k: usize = 0;
    while k < ords.len()
        invariant
            0 <= k <= ords@.len(),
            out.deep_view().len() == k,
            forall|j: int|
                0 <= j < k ==> out.deep_view()[j] == #[trigger] spec_project(rec@, ords@)[j],
        decreases ords@.len() - k,
    {
        let ord = ords[k];
        let ghost dv0 = out.deep_view();
        if ord < rec.serial_values.len() {
            out.push(rec.serial_values[ord].duplicate());
        } else {
            out.push(SerialValue::Null);
        }
        proof {
            assert(out.deep_view() =~= dv0.push(out.deep_view()[k as int]));
        }
        k = k + 1;
    }
    proof {
        assert(out.deep_view() =~= spec_project(rec@, ords@));
    }
    out
}

/// A session: one open database image and its schema catalog, read once.
#[derive(Debug)]
pub struct Session {
    pub db: Database,
    pub schema: Vec<SchemaEntry>,
}

impl Session {
    /// Well-formedness: the header fields and the cached catalog were
    /// decoded from the image.
    pub open spec fn wf(&self) -> bool {
        &&& self.db.wf()
        &&& spec_catalog(self.db.data@, self.db.page_size as nat, self.db.page_count as nat)
            == Ok::<Seq<SchemaEntryModel>, DbError>(self.schema.deep_view())
    }

    /// Opens a session over a database image: decodes the file header, then
    /// reads the schema catalog once; both live for the session's lifetime.
    pub fn open(data: Vec<u8>) -> (r: Result<Session, DbError>)
        ensures
            match r {
                Ok(s) => {
                    &&& s.wf()
                    &&& s.db.data@ == data@
                    &&& spec_open(data@) == Ok::<(nat, nat), DbError>(
                        (s.db.page_size as nat, s.db.page_count as nat),
                    )
                },
                Err(e) => match spec_open(data@) {
                    Err(e2) => e == e2,
                    Ok((ps, pc)) => spec_catalog(data@, ps, pc)
                        == Err::<Seq<SchemaEntryModel>, DbError>(e),
                },
            },
    {
        let db = match Database::open(data) {
            Ok(db) => db,
            Err(e) => {
                return Err(e);
            },
        };
        let schema = match read_schema(&db) {
            Ok(schema) => schema,
            Err(e) => {
                return Err(e);
            },
        };
        Ok(Session { db, schema })
    }

    /// The page size the image declares.
    pub fn page_size(&self) -> (r: u32)
        ensures
            r == self.db.page_size,
    {
        self.db.page_size
    }

    /// The names of the catalog's table objects, in catalog order.
    pub fn list_tables(&self) -> (r: Vec<String>)
        ensures
            r.deep_view() == spec_table_names(self.schema.deep_view()),
    {
        list_table_names(&self.schema)
    }

    /// Answers `query` against the image: resolves the table through the
    /// catalog and the column names through the table's declared column
    /// list, scans the table's B-tree, applies the conditions, and either
    /// counts the matching rows or projects them, in ascending row-id
    /// order.
    #[verifier::loop_isolation(false)]
    pub fn run_query(&self, query: &Query) -> (r: Result<QueryResult, QueryExecError>)
        requires
            self.wf(),
        ensures
            match r {
                Ok(res) => spec_run_query(
                    self.db.data@,
                    self.db.page_size as nat,
                    self.db.page_count as nat,
                    self.schema.deep_view(),
                    query@,
                ) == Ok::<QueryResultModel, QueryExecError>(res@),
                Err(e) => spec_run_query(
                    self.db.data@,
                    self.db.page_size as nat,
                    self.db.page_count as nat,
                    self.schema.deep_view(),
                    query@,
                ) == Err::<QueryResultModel, QueryExecError>(e),
            },
    {
        let entry = match find_table(&self.schema, &query.from_table) {
            None => {
                return Err(QueryExecError::TableNotFound);
            },
            Some(entry) => entry,
        };
        let cols = column_names(&entry.definition_sql);
        let empty_conds: Vec<crate::query_parser::AndCondition> = Vec::new();
        let conds = match &query.and_conditions {
            None => {
                proof {
                    assert(empty_conds.deep_view() =~= Seq::<ConditionModel>::empty());
                }
                resolve_conditions(&cols, &empty_conds)
            },
            Some(cs) => resolve_conditions(&cols, cs),
        };
        let conds = match conds {
            Ok(conds) => conds,
            Err(e) => {
                return Err(e);
            },
        };
        let count_mode: bool = if query.selection_list.len() == 1 {
            match &query.selection_list[0] {
                Selection::AggregateFunction(_) => true,
                _ => false,
            }
        } else {
            false
        };
        proof {
            if query.selection_list@.len() == 1 {
                assert(query@.selection_list[0] == query.selection_list@[0]@);
            }
        }
        if count_mode {
            let recs = match walk_table(&self.db, entry.root_page) {
                Ok(recs) => recs,
                Err(e) => {
                    return Err(QueryExecError::Storage(e));
                },
            };
            let ghost rdv = recs.deep_view();
            let mut count: u64 = 0;
            let mut i: usize = 0;
            proof {
                assert(rdv.skip(0) =~= rdv);
            }
            while i < recs.len()
                invariant
                    0 <= i <= recs@.len(),
                    count <= i,
                    spec_match_count(rdv, conds.deep_view()) == count + spec_match_count(
                        rdv.skip(i as int),
                        conds.deep_view(),
                    ),
                decreases recs@.len() - i,
            {
                proof {
                    assert(rdv.skip(i as int)[0] == rdv[i as int]);
                    assert(rdv.skip(i as int).drop_first() =~= rdv.skip(i + 1));
                }
                if row_matches(&recs[i], &conds) {
                    count = count + 1;
                }
                i = i + 1;
            }
            proof {
                assert(rdv.skip(rdv.len() as int) =~= Seq::<RecordModel>::empty());
            }
            Ok(QueryResult::Count(count))
        } else {
            let ords = match resolve_selections(&cols, &query.selection_list) {
                Ok(ords) => ords,
                Err(e) => {
                    return Err(e);
                },
            };
            let recs = match walk_table(&self.db, entry.root_page) {
                Ok(recs) => recs,
                Err(e) => {
                    return Err(QueryExecError::Storage(e));
                },
            };
            let ghost rdv = recs.deep_view();
            let mut rows: Vec<Vec<SerialValue>> = Vec::new();
            let mut i: usize = 0;
            proof {
                assert(rdv.skip(0) =~= rdv);
                assert(rows.deep_view() + spec_result_rows(rdv, conds.deep_view(), ords@)
                    =~= spec_result_rows(rdv, conds.deep_view(), ords@));
            }
            while i < recs.len()
                invariant
                    0 <= i <= recs@.len(),
                    spec_result_rows(rdv, conds.deep_view(), ords@) == rows.deep_view()
                        + spec_result_rows(rdv.skip(i as int), conds.deep_view(), ords@),
                decreases recs@.len() - i,
            {
                proof {
                    assert(rdv.skip(i as int)[0] == rdv[i as int]);
                    assert(rdv.skip(i as int).drop_first() =~= rdv.skip(i + 1));
                }
                if row_matches(&recs[i], &conds) {
                    let row = project(&recs[i], &ords);
                    let ghost rows0 = rows.deep_view();
                    let ghost row_dv = row.deep_view();
                    rows.push(row);
                    proof {
                        assert(rows.deep_view() =~= rows0 + seq![row_dv]);
                        assert(rows0 + (seq![row_dv] + spec_result_rows(
                            rdv.skip(i + 1),
                            conds.deep_view(),
                            ords@,
                        )) =~= rows.deep_view() + spec_result_rows(
                            rdv.skip(i + 1),
                            conds.deep_view(),
                            ords@,
                        ));
                    }
                }
                i = i + 1;
            }
            proof {
                assert(rdv.skip(rdv.len() as int) =~= Seq::<RecordModel>::empty());
                assert(rows.deep_view() + Seq::<Seq<SpecValue>>::empty() =~= rows.deep_view());
            }
            Ok(QueryResult::Rows(rows))
        }
    }
}

} // verus!
