use sqlite_reader::query_parser::{
    parse_query, AndCondition, Function, FunctionArgument, ParseReason, Selection,
};

#[test]
fn test_parse_query_count() {
    let count_query = "SELECT COUNT(*) FROM apples";

    let (raw_query, query) = parse_query(count_query).unwrap();

    assert_eq!(
        query.selection_list,
        vec![Selection::AggregateFunction(Function::Count(
            FunctionArgument::All
        ))]
    );
    assert_eq!(query.from_table, "apples");
    assert_eq!(raw_query, "");
}

#[test]
fn test_parse_query_multi_columns() {
    let count_query = "SELECT name, color FROM carrots";

    let (raw_query, query) = parse_query(count_query).unwrap();

    assert_eq!(
        query.selection_list,
        vec![
            Selection::ColumnName("name".to_string()),
            Selection::ColumnName("color".to_string())
        ]
    );
    assert_eq!(query.from_table, "carrots");
    assert_eq!(raw_query, "");
}

#[test]
fn test_parse_query_multiple_where_condition() {
    let count_query = "  SELECT    id,    name    FROM    superheroes   WHERE     eye_color   =   'Pink Eyes'   AND  favourite_food   =    'pizza'      ";

    let (raw_query, query) = parse_query(count_query).unwrap();

    assert_eq!(
        query.selection_list,
        vec![
            Selection::ColumnName("id".to_string()),
            Selection::ColumnName("name".to_string())
        ]
    );
    assert_eq!(query.from_table, "superheroes");

    assert_eq!(
        query.and_conditions,
        Some(vec![
            AndCondition {
                column_name: "eye_color".to_string(),
                value: "Pink Eyes".to_string()
            },
            AndCondition {
                column_name: "favourite_food".to_string(),
                value: "pizza".to_string()
            }
        ])
    );
    assert_eq!(raw_query, "");
}

#[test]
fn test_parse_query_where_condition() {
    let count_query =
        "SELECT id, name FROM superheroes    WHERE    eye_color    =   'Pink Eyes'   ";

    let (raw_query, query) = parse_query(count_query).unwrap();

    assert_eq!(
        query.selection_list,
        vec![
            Selection::ColumnName("id".to_string()),
            Selection::ColumnName("name".to_string())
        ]
    );
    assert_eq!(query.from_table, "superheroes");

    assert_eq!(
        query.and_conditions,
        Some(vec![AndCondition {
            column_name: "eye_color".to_string(),
            value: "Pink Eyes".to_string()
        }])
    );

    assert_eq!(raw_query, "");
}

#[test]
fn parse_query_keywords_case_insensitive() {
    let (raw, query) = parse_query("select Name from Apples where Color = 'Red'").unwrap();
    assert_eq!(raw, "");
    assert_eq!(query.selection_list, vec![Selection::ColumnName("Name".to_string())]);
    assert_eq!(query.from_table, "Apples");
    assert_eq!(
        query.and_conditions,
        Some(vec![AndCondition {
            column_name: "Color".to_string(),
            value: "Red".to_string()
        }])
    );
}

#[test]
fn parse_query_missing_select() {
    let err = parse_query("INSERT INTO apples").unwrap_err();
    assert_eq!(err.reason, ParseReason::ExpectedSelect);
    assert_eq!(err.remainder, "INSERT INTO apples");
}

#[test]
fn parse_query_empty_selection_list() {
    let err = parse_query("SELECT , FROM apples").unwrap_err();
    assert_eq!(err.reason, ParseReason::ExpectedColumnName);
}

#[test]
fn parse_query_missing_from() {
    let err = parse_query("SELECT name color apples").unwrap_err();
    assert_eq!(err.reason, ParseReason::ExpectedFrom);
    assert_eq!(err.remainder, "color apples");
}

#[test]
fn parse_query_unterminated_literal() {
    let err = parse_query("SELECT name FROM apples WHERE color = 'Red").unwrap_err();
    assert_eq!(err.reason, ParseReason::UnterminatedLiteral);
    assert_eq!(err.remainder, "'Red");
}

#[test]
fn parse_query_trailing_garbage() {
    let err = parse_query("SELECT name FROM apples WHERE color = 'Red' nonsense").unwrap_err();
    assert_eq!(err.reason, ParseReason::TrailingInput);
    assert_eq!(err.remainder, "nonsense");
}

#[test]
fn parse_query_missing_equals_and_literal() {
    let err = parse_query("SELECT name FROM apples WHERE color is 'Red'").unwrap_err();
    assert_eq!(err.reason, ParseReason::ExpectedEquals);

    let err = parse_query("SELECT name FROM apples WHERE color = Red").unwrap_err();
    assert_eq!(err.reason, ParseReason::ExpectedLiteral);
}

#[test]
fn parse_query_missing_table_name() {
    let err = parse_query("SELECT name FROM ").unwrap_err();
    assert_eq!(err.reason, ParseReason::ExpectedTableName);
    assert_eq!(err.remainder, "");
}
