//! The query parser: the restricted `SELECT` grammar, parsed into an AST.
//!
//! ```text
//! query          := "SELECT" selection-list "FROM" table-name
//!                       [ "WHERE" condition { "AND" condition } ]
//! selection-list := "COUNT(*)" | column-name { "," column-name }
//! condition      := column-name "=" "'" literal-text "'"
//! ```
//!
//! Keywords are matched case-insensitively (over ASCII), whitespace is free
//! between tokens, and identifiers are taken exactly as written. A failure
//! reports the unconsumed remainder and the reason.

use vstd::prelude::*;
use vstd::string::StrSliceExecFns;

use crate::text::{
    ident_end, lower, skip_spaces, spec_ident_end, spec_is_ident_char, spec_lower,
    spec_skip_spaces, str_to_chars,
};

verus! {

broadcast use vstd::std_specs::vec::axiom_spec_len;

/// The argument of an aggregate function.
#[derive(Debug, PartialEq)]
pub enum FunctionArgument {
    All,
    Columns(Vec<String>),
}

/// An aggregate function of the selection list.
#[derive(Debug, PartialEq)]
pub enum Function {
    Count(FunctionArgument),
}

/// One element of the selection list.
#[derive(Debug, PartialEq)]
pub enum Selection {
    ColumnName(String),
    AggregateFunction(Function),
}

/// One `column = 'literal'` condition of the `WHERE` clause.
#[derive(Debug, PartialEq)]
pub struct AndCondition {
    pub column_name: String,
    pub value: String,
}

/// The parsed query.
#[derive(Debug, PartialEq)]
pub struct Query {
    pub selection_list: Vec<Selection>,
    pub from_table: String,
    pub and_conditions: Option<Vec<AndCondition>>,
}

/// The mathematical content of a selection. Every aggregate stands for
/// counting rows: the grammar only produces `COUNT(*)`.
pub enum SelectionModel {
    ColumnName(Seq<char>),
    CountAll,
}

/// The mathematical content of one condition.
pub struct ConditionModel {
    pub column_name: Seq<char>,
    pub value: Seq<char>,
}

/// The mathematical content of a query.
pub struct QueryModel {
    pub selection_list: Seq<SelectionModel>,
    pub from_table: Seq<char>,
    pub and_conditions: Option<Seq<ConditionModel>>,
}

impl View for Selection {
    type V = SelectionModel;

    open spec fn view(&self) -> SelectionModel {
        match self {
            Selection::ColumnName(s) => SelectionModel::ColumnName(s@),
            Selection::AggregateFunction(_) => SelectionModel::CountAll,
        }
    }
}

impl vstd::view::DeepView for Selection {
    type V = SelectionModel;

    open spec fn deep_view(&self) -> SelectionModel {
        self@
    }
}

impl View for AndCondition {
    type V = ConditionModel;

    open spec fn view(&self) -> ConditionModel {
        ConditionModel { column_name: self.column_name@, value: self.value@ }
    }
}

impl vstd::view::DeepView for AndCondition {
    type V = ConditionModel;

    open spec fn deep_view(&self) -> ConditionModel {
        self@
    }
}

impl View for Query {
    type V = QueryModel;

    open spec fn view(&self) -> QueryModel {
        QueryModel {
            selection_list: self.selection_list.deep_view(),
            from_table: self.from_table@,
            and_conditions: self.and_conditions.deep_view(),
        }
    }
}

/// Why a parse failed.
#[derive(Debug, PartialEq, Eq, Structural, Clone, Copy)]
pub enum ParseReason {
    ExpectedSelect,
    ExpectedColumnName,
    ExpectedFrom,
    ExpectedTableName,
    ExpectedEquals,
    ExpectedLiteral,
    UnterminatedLiteral,
    TrailingInput,
}

/// A grammar violation: the input left unconsumed at the point of failure,
/// and the reason.
#[derive(Debug, PartialEq)]
pub struct QueryParseError {
    pub remainder: String,
    pub reason: ParseReason,
}

pub open spec fn select_kw() -> Seq<char> {
    "select"@
}

pub open spec fn from_kw() -> Seq<char> {
    "from"@
}

pub open spec fn where_kw() -> Seq<char> {
    "where"@
}

pub open spec fn and_kw() -> Seq<char> {
    "and"@
}

pub open spec fn count_star_sym() -> Seq<char> {
    "count(*)"@
}

/// `sym` appears at `i` in `s`, compared case-insensitively over ASCII.
pub open spec fn spec_sym_at(s: Seq<char>, i: int, sym: Seq<char>) -> bool {
    &&& 0 <= i
    &&& i + sym.len() <= s.len()
    &&& forall|j: int| 0 <= j < sym.len() ==> spec_lower(#[trigger] s[i + j]) == sym[j]
}

/// `kw` appears at `i` as a whole word: matched case-insensitively and not
/// run into by a following identifier character.
pub open spec fn spec_kw_at(s: Seq<char>, i: int, kw: Seq<char>) -> bool {
    &&& spec_sym_at(s, i, kw)
    &&& (i + kw.len() == s.len() || !spec_is_ident_char(s[i + kw.len()]))
}

/// Position of the first single quote at or after `i`, or the length of `s`.
pub open spec fn spec_find_quote(s: Seq<char>, i: int) -> int
    decreases s.len() - i,
{
    if i < 0 || i >= s.len() {
        s.len() as int
    } else if s[i] == '\'' {
        i
    } else {
        spec_find_quote(s, i + 1)
    }
}

/// The selection columns from `i`: an identifier, then further identifiers
/// after commas. Returns the selections and the position after the last
/// identifier.
pub open spec fn spec_parse_columns(s: Seq<char>, i: int) -> Result<
    (Seq<SelectionModel>, int),
    (int, ParseReason),
>
    decreases s.len() - i
        via spec_parse_columns_decreases
{
    if i < 0 || i > s.len() {
        Err((i, ParseReason::ExpectedColumnName))
    } else {
        let a = spec_skip_spaces(s, i);
        let b = spec_ident_end(s, a);
        if b == a {
            Err((a, ParseReason::ExpectedColumnName))
        } else {
            let name = SelectionModel::ColumnName(s.subrange(a, b));
            let c = spec_skip_spaces(s, b);
            if c < s.len() && s[c] == ',' {
                match spec_parse_columns(s, c + 1) {
                    Ok((rest, j)) => Ok((seq![name] + rest, j)),
                    Err(e) => Err(e),
                }
            } else {
                Ok((seq![name], b))
            }
        }
    }
}

#[via_fn]
proof fn spec_parse_columns_decreases(s: Seq<char>, i: int) {
    if 0 <= i <= s.len() {
        lemma_skip_spaces_bounds(s, i);
        let a = spec_skip_spaces(s, i);
        lemma_ident_end_bounds(s, a);
        let b = spec_ident_end(s, a);
        if 0 <= b <= s.len() {
            lemma_skip_spaces_bounds(s, b);
        }
    }
}

proof fn lemma_skip_spaces_bounds(s: Seq<char>, i: int)
    requires
        0 <= i <= s.len(),
    ensures
        i <= spec_skip_spaces(s, i) <= s.len(),
    decreases s.len() - i,
{
    if i < s.len() && crate::text::spec_is_space(s[i]) {
        lemma_skip_spaces_bounds(s, i + 1);
    }
}

proof fn lemma_ident_end_bounds(s: Seq<char>, i: int)
    requires
        0 <= i <= s.len(),
    ensures
        i <= spec_ident_end(s, i) <= s.len(),
    decreases s.len() - i,
{
    if i < s.len() && spec_is_ident_char(s[i]) {
        lemma_ident_end_bounds(s, i + 1);
    }
}

/// The selection list from `i`: `COUNT(*)`, or a comma-separated list of
/// column names.
pub open spec fn spec_parse_selections(s: Seq<char>, i: int) -> Result<
    (Seq<SelectionModel>, int),
    (int, ParseReason),
> {
    let a = spec_skip_spaces(s, i);
    if spec_sym_at(s, a, count_star_sym()) {
        Ok((seq![SelectionModel::CountAll], a + count_star_sym().len()))
    } else {
        spec_parse_columns(s, i)
    }
}

/// One condition from `i`: an identifier, `=`, and a quoted literal.
/// Returns the condition and the position after the closing quote.
pub open spec fn spec_parse_condition(s: Seq<char>, i: int) -> Result<
    (ConditionModel, int),
    (int, ParseReason),
>
    recommends
        0 <= i <= s.len(),
{
    let a = spec_skip_spaces(s, i);
    let b = spec_ident_end(s, a);
    if b == a {
        Err((a, ParseReason::ExpectedColumnName))
    } else {
        let name = s.subrange(a, b);
        let c = spec_skip_spaces(s, b);
        if !(c < s.len() && s[c] == '=') {
            Err((c, ParseReason::ExpectedEquals))
        } else {
            let d = spec_skip_spaces(s, c + 1);
            if !(d < s.len() && s[d] == '\'') {
                Err((d, ParseReason::ExpectedLiteral))
            } else {
                let q = spec_find_quote(s, d + 1);
                if q >= s.len() {
                    Err((d, ParseReason::UnterminatedLiteral))
                } else {
                    Ok((ConditionModel { column_name: name, value: s.subrange(d + 1, q) }, q + 1))
                }
            }
        }
    }
}

proof fn lemma_find_quote_bounds(s: Seq<char>, i: int)
    requires
        0 <= i <= s.len(),
    ensures
        i <= spec_find_quote(s, i) <= s.len(),
    decreases s.len() - i,
{
    if i < s.len() && s[i] != '\'' {
        lemma_find_quote_bounds(s, i + 1);
    }
}

proof fn lemma_parse_condition_advances(s: Seq<char>, i: int)
    requires
        0 <= i <= s.len(),
    ensures
        match spec_parse_condition(s, i) {
            Ok((cond, j)) => i < j <= s.len(),
            Err(_) => true,
        },
{
    lemma_skip_spaces_bounds(s, i);
    let a = spec_skip_spaces(s, i);
    lemma_ident_end_bounds(s, a);
    let b = spec_ident_end(s, a);
    if b != a {
        lemma_skip_spaces_bounds(s, b);
        let c = spec_skip_spaces(s, b);
        if c < s.len() && s[c] == '=' {
            lemma_skip_spaces_bounds(s, c + 1);
            let d = spec_skip_spaces(s, c + 1);
            if d < s.len() && s[d] == '\'' {
                lemma_find_quote_bounds(s, d + 1);
            }
        }
    }
}

/// The conditions from `i`: one condition, then further conditions after
/// each `AND`.
pub open spec fn spec_parse_conditions(s: Seq<char>, i: int) -> Result<
    (Seq<ConditionModel>, int),
    (int, ParseReason),
>
    decreases s.len() - i
        via spec_parse_conditions_decreases
{
    if i < 0 || i > s.len() {
        Err((i, ParseReason::ExpectedColumnName))
    } else {
        match spec_parse_condition(s, i) {
            Err(e) => Err(e),
            Ok((cond, j)) => {
                let a = spec_skip_spaces(s, j);
                if spec_kw_at(s, a, and_kw()) {
                    match spec_parse_conditions(s, a + and_kw().len()) {
                        Ok((rest, k)) => Ok((seq![cond] + rest, k)),
                        Err(e) => Err(e),
                    }
                } else {
                    Ok((seq![cond], j))
                }
            },
        }
    }
}

#[via_fn]
proof fn spec_parse_conditions_decreases(s: Seq<char>, i: int) {
    if 0 <= i <= s.len() {
        lemma_parse_condition_advances(s, i);
        match spec_parse_condition(s, i) {
            Ok((cond, j)) => {
                lemma_skip_spaces_bounds(s, j);
                reveal_strlit("and");
            },
            Err(_) => {},
        }
    }
}

/// The whole query grammar applied to `s`: the reference model of parsing.
/// An `Err` carries the position of the failure and its reason.
pub open spec fn spec_parse_query(s: Seq<char>) -> Result<QueryModel, (int, ParseReason)> {
    let i0 = spec_skip_spaces(s, 0);
    if !spec_kw_at(s, i0, select_kw()) {
        Err((i0, ParseReason::ExpectedSelect))
    } else {
        match spec_parse_selections(s, i0 + select_kw().len()) {
            Err(e) => Err(e),
            Ok((sels, j)) => {
                let a = spec_skip_spaces(s, j);
                if !spec_kw_at(s, a, from_kw()) {
                    Err((a, ParseReason::ExpectedFrom))
                } else {
                    let t0 = spec_skip_spaces(s, a + from_kw().len());
                    let t1 = spec_ident_end(s, t0);
                    if t1 == t0 {
                        Err((t0, ParseReason::ExpectedTableName))
                    } else {
                        let table = s.subrange(t0, t1);
                        let w = spec_skip_spaces(s, t1);
                        if spec_kw_at(s, w, where_kw()) {
                            match spec_parse_conditions(s, w + where_kw().len()) {
                                Err(e) => Err(e),
                                Ok((conds, k)) => {
                                    let end = spec_skip_spaces(s, k);
                                    if end == s.len() {
                                        Ok(
                                            QueryModel {
                                                selection_list: sels,
                                                from_table: table,
                                                and_conditions: Some(conds),
                                            },
                                        )
                                    } else {
                                        Err((end, ParseReason::TrailingInput))
                                    }
                                },
                            }
                        } else if w == s.len() {
                            Ok(
                                QueryModel {
                                    selection_list: sels,
                                    from_table: table,
                                    and_conditions: None,
                                },
                            )
                        } else {
                            Err((w, ParseReason::TrailingInput))
                        }
                    }
                }
            },
        }
    }
}

/// Whether `sym` (already lower case) appears at `i`, case-insensitively.
#[verifier::loop_isolation(false)]
fn sym_at(chars: &Vec<char>, i: usize, sym: &Vec<char>) -> (r: bool)
    requires
        i <= chars@.len(),
    ensures
        r == spec_sym_at(chars@, i as int, sym@),
{
    let n = sym.len();
    if n > chars.len() - i {
        return false;
    }
    let mut j: usize = 0;
    while j < n
        invariant
            0 <= j <= n,
            i + n <= chars@.len(),
            n == sym@.len(),
            forall|k: int| 0 <= k < j ==> spec_lower(#[trigger] chars@[i + k]) == sym@[k],
        decreases n - j,
    {
        if lower(chars[i + j]) != sym[j] {
            proof {
                assert(spec_lower(chars@[i + j]) != sym@[j as int]);
            }
            return false;
        }
        j = j + 1;
    }
    true
}

/// Whether the keyword `kw` (already lower case) appears at `i` as a whole
/// word.
fn kw_at(chars: &Vec<char>, i: usize, kw: &Vec<char>) -> (r: bool)
    requires
        i <= chars@.len(),
    ensures
        r == spec_kw_at(chars@, i as int, kw@),
{
    let n = chars.len();
    if !sym_at(chars, i, kw) {
        return false;
    }
    let after = i + kw.len();
    if after == n {
        true
    } else {
        !crate::text::is_ident_char(chars[after])
    }
}

#[verifier::loop_isolation(false)]
fn find_quote(chars: &Vec<char>, from: usize) -> (r: usize)
    requires
        from <= chars@.len(),
    ensures
        r == spec_find_quote(chars@, from as int),
        from <= r <= chars@.len(),
{
    let mut i: usize = from;
    while i < chars.len()
        invariant
            from <= i <= chars@.len(),
            spec_find_quote(chars@, from as int) == spec_find_quote(chars@, i as int),
        decreases chars@.len() - i,
    {
        if chars[i] == '\'' {
            return i;
        }
        i = i + 1;
    }
    i
}

/// Parses a comma-separated column selection list from `from`.
fn parse_columns(q: &str, chars: &Vec<char>, from: usize) -> (r: Result<
    (Vec<Selection>, usize),
    (usize, ParseReason),
>)
    requires
        chars@ == q@,
        from <= chars@.len(),
    ensures
        match r {
            Ok((sels, j)) => spec_parse_columns(chars@, from as int)
                == Ok::<(Seq<SelectionModel>, int), (int, ParseReason)>(
                (sels.deep_view(), j as int),
            ) && j <= chars@.len(),
            Err((p, reason)) => spec_parse_columns(chars@, from as int)
                == Err::<(Seq<SelectionModel>, int), (int, ParseReason)>(
                (p as int, reason),
            ) && p <= chars@.len(),
        },
    decreases chars@.len() - from,
{
    let a = skip_spaces(chars, from);
    let b = ident_end(chars, a);
    if b == a {
        return Err((a, ParseReason::ExpectedColumnName));
    }
    let name: String = q.substring_char(a, b).to_owned();
    let mut out: Vec<Selection> = Vec::new();
    out.push(Selection::ColumnName(name));
    let c = skip_spaces(chars, b);
    if c < chars.len() && chars[c] == ',' {
        match parse_columns(q, chars, c + 1) {
            Ok((mut rest, j)) => {
                let ghost rest_dv = rest.deep_view();
                out.append(&mut rest);
                proof {
                    assert(out.deep_view() =~= seq![
                        SelectionModel::ColumnName(chars@.subrange(a as int, b as int)),
                    ] + rest_dv);
                }
                Ok((out, j))
            },
            Err(e) => Err(e),
        }
    } else {
        proof {
            assert(out.deep_view() =~= seq![
                SelectionModel::ColumnName(chars@.subrange(a as int, b as int)),
            ]);
        }
        Ok((out, b))
    }
}

/// Parses `AND`-separated conditions from `from`.
fn parse_conditions(q: &str, chars: &Vec<char>, from: usize, kw_and: &Vec<char>) -> (r: Result<
    (Vec<AndCondition>, usize),
    (usize, ParseReason),
>)
    requires
        chars@ == q@,
        from <= chars@.len(),
        kw_and@ == and_kw(),
    ensures
        match r {
            Ok((conds, j)) => spec_parse_conditions(chars@, from as int)
                == Ok::<(Seq<ConditionModel>, int), (int, ParseReason)>(
                (conds.deep_view(), j as int),
            ) && j <= chars@.len(),
            Err((p, reason)) => spec_parse_conditions(chars@, from as int)
                == Err::<(Seq<ConditionModel>, int), (int, ParseReason)>(
                (p as int, reason),
            ) && p <= chars@.len(),
        },
    decreases chars@.len() - from,
{
    let a = skip_spaces(chars, from);
    let b = ident_end(chars, a);
    if b == a {
        return Err((a, ParseReason::ExpectedColumnName));
    }
    let name: String = q.substring_char(a, b).to_owned();
    let c = skip_spaces(chars, b);
    if !(c < chars.len() && chars[c] == '=') {
        return Err((c, ParseReason::ExpectedEquals));
    }
    let d = skip_spaces(chars, c + 1);
    if !(d < chars.len() && chars[d] == '\'') {
        return Err((d, ParseReason::ExpectedLiteral));
    }
    let qe = find_quote(chars, d + 1);
    if qe >= chars.len() {
        return Err((d, ParseReason::UnterminatedLiteral));
    }
    let value: String = q.substring_char(d + 1, qe).to_owned();
    let cond = AndCondition { column_name: name, value };
    let j = qe + 1;
    let mut out: Vec<AndCondition> = Vec::new();
    let ghost cond_model = cond@;
    out.push(cond);
    let a2 = skip_spaces(chars, j);
    if kw_at(chars, a2, kw_and) {
        let next = a2 + kw_and.len();
        proof {
            lemma_parse_condition_advances(chars@, from as int);
        }
        match parse_conditions(q, chars, next, kw_and) {
            Ok((mut rest, k)) => {
                let ghost rest_dv = rest.deep_view();
                out.append(&mut rest);
                proof {
                    assert(out.deep_view() =~= seq![cond_model] + rest_dv);
                }
                Ok((out, k))
            },
            Err(e) => Err(e),
        }
    } else {
        proof {
            assert(out.deep_view() =~= seq![cond_model]);
        }
        Ok((out, j))
    }
}

/// Parses `input` against the query grammar. On success the whole input is
/// consumed: the returned string is the empty remainder, beside the AST. On
/// failure the error carries the input left unconsumed at the failure and
/// the reason.
pub fn parse_query(input: &str) -> (r: Result<(String, Query), QueryParseError>)
    ensures
        match r {
            Ok((rem, query)) => {
                &&& spec_parse_query(input@) == Ok::<QueryModel, (int, ParseReason)>(query@)
                &&& rem@ == Seq::<char>::empty()
            },
            Err(e) => match spec_parse_query(input@) {
                Ok(_) => false,
                Err((p, reason)) => e.remainder@ == input@.skip(p) && e.reason == reason,
            },
        },
{
    let chars = str_to_chars(input);
    let n = chars.len();
    let kw_select = str_to_chars("select");
    let kw_from = str_to_chars("from");
    let kw_where = str_to_chars("where");
    let kw_and = str_to_chars("and");
    let sym_count = str_to_chars("count(*)");
    let i0 = skip_spaces(&chars, 0);
    if !kw_at(&chars, i0, &kw_select) {
        return Err(parse_error(input, &chars, i0, ParseReason::ExpectedSelect));
    }
    let after_select = i0 + kw_select.len();
    // selection list
    let a = skip_spaces(&chars, after_select);
    let (selections, after_sels): (Vec<Selection>, usize) = if sym_at(&chars, a, &sym_count) {
        let mut sels: Vec<Selection> = Vec::new();
        sels.push(Selection::AggregateFunction(Function::Count(FunctionArgument::All)));
        proof {
            assert(sels.deep_view() =~= seq![SelectionModel::CountAll]);
        }
        (sels, a + sym_count.len())
    } else {
        match parse_columns(input, &chars, after_select) {
            Ok(p) => p,
            Err((p, reason)) => {
                return Err(parse_error(input, &chars, p, reason));
            },
        }
    };
    let f = skip_spaces(&chars, after_sels);
    if !kw_at(&chars, f, &kw_from) {
        return Err(parse_error(input, &chars, f, ParseReason::ExpectedFrom));
    }
    let t0 = skip_spaces(&chars, f + kw_from.len());
    let t1 = ident_end(&chars, t0);
    if t1 == t0 {
        return Err(parse_error(input, &chars, t0, ParseReason::ExpectedTableName));
    }
    let from_table: String = input.substring_char(t0, t1).to_owned();
    let w = skip_spaces(&chars, t1);
    if kw_at(&chars, w, &kw_where) {
        match parse_conditions(input, &chars, w + kw_where.len(), &kw_and) {
            Ok((conds, k)) => {
                let end = skip_spaces(&chars, k);
                if end == n {
                    let rem: String = input.substring_char(end, n).to_owned();
                    proof {
                        assert(input@.subrange(n as int, n as int) =~= Seq::<char>::empty());
                    }
                    Ok((
                        rem,
                        Query {
                            selection_list: selections,
                            from_table,
                            and_conditions: Some(conds),
                        },
                    ))
                } else {
                    Err(parse_error(input, &chars, end, ParseReason::TrailingInput))
                }
            },
            Err((p, reason)) => Err(parse_error(input, &chars, p, reason)),
        }
    } else if w == n {
        let rem: String = input.substring_char(w, n).to_owned();
        proof {
            assert(input@.subrange(n as int, n as int) =~= Seq::<char>::empty());
        }
        Ok((rem, Query { selection_list: selections, from_table, and_conditions: None }))
    } else {
        Err(parse_error(input, &chars, w, ParseReason::TrailingInput))
    }
}

/// The error value for a failure at `pos`: the unconsumed remainder and the
/// reason.
fn parse_error(input: &str, chars: &Vec<char>, pos: usize, reason: ParseReason) -> (r:
    QueryParseError)
    requires
        chars@ == input@,
        pos <= chars@.len(),
    ensures
        r.remainder@ == input@.skip(pos as int),
        r.reason == reason,
{
    let n = chars.len();
    let remainder: String = input.substring_char(pos, n).to_owned();
    proof {
        assert(input@.subrange(pos as int, n as int) =~= input@.skip(pos as int));
    }
    QueryParseError { remainder, reason }
}

} // verus!
