use csv::StringRecord;
use csv_to_json::json::{JsonObject, JsonValue};
use csv_to_json::schema::{Schema, SchemaField, SchemaFieldType};
use csv_to_json::transform::{record_cells, record_to_json, transform, Conversion, RowError};

fn strings(values: &[&str]) -> Vec<String> {
    values.iter().map(|value| value.to_string()).collect()
}

fn text(value: &str) -> JsonValue {
    JsonValue::String(value.to_string())
}

fn object(members: Vec<(&str, JsonValue)>) -> JsonValue {
    let mut made = JsonObject::new();
    for (key, value) in members {
        made.insert(key.to_string(), value);
    }
    JsonValue::Object(made)
}

fn field(name: &str, kind: SchemaFieldType) -> SchemaField {
    let mut made = SchemaField::new();
    made.name = name.to_string();
    made.field_type = kind;
    made
}

fn aliased(name: &str, alias: &str, header: bool) -> SchemaField {
    let mut made = field(name, SchemaFieldType::String);
    made.add_alias(alias.to_string());
    made.header = header;
    made
}

fn with_pattern(name: &str, alias: &str, pattern: &str) -> SchemaField {
    let mut made = aliased(name, alias, false);
    made.add_alias_regex(pattern.to_string()).expect("the pattern compiles");
    made
}

fn tags_schema() -> Option<Schema> {
    let mut tags = field("tags", SchemaFieldType::Array);
    tags.properties.push(with_pattern("key", "k", "^k"));
    tags.properties.push(with_pattern("val", "v", "^v"));
    Some(vec![tags])
}

#[test]
fn alias_takes_the_cell_of_its_column() {
    let schema = Some(vec![aliased("name", "first", false)]);
    let outcome = transform(&strings(&["first", "last"]), &strings(&["Jane", "Doe"]), &schema);
    assert_eq!(outcome, Ok(object(vec![("name", text("Jane"))])));
}

#[test]
fn header_field_keeps_only_the_last_header_tested() {
    let schema = Some(vec![aliased("name", "first", true)]);
    let outcome = transform(&strings(&["first", "last"]), &strings(&["Jane", "Doe"]), &schema);
    assert_eq!(outcome, Ok(object(vec![("name", JsonValue::Null)])));
}

#[test]
fn header_field_emits_the_last_header_when_it_matches() {
    let schema = Some(vec![aliased("name", "first", true)]);
    let outcome = transform(&strings(&["last", "first"]), &strings(&["Doe", "Jane"]), &schema);
    assert_eq!(outcome, Ok(object(vec![("name", text("first"))])));
}

#[test]
fn header_field_ignores_the_cells() {
    let schema = Some(vec![aliased("name", "first", true)]);
    let outcome = transform(&strings(&["last", "first"]), &strings(&[]), &schema);
    assert_eq!(outcome, Ok(object(vec![("name", text("first"))])));
}

#[test]
fn header_field_is_absent_without_headers() {
    let schema =
        Some(vec![aliased("name", "first", true), field("other", SchemaFieldType::String)]);
    let outcome = transform(&strings(&[]), &strings(&[]), &schema);
    assert_eq!(outcome, Ok(object(vec![("other", JsonValue::Null)])));
}

#[test]
fn array_groups_by_distinct_header() {
    let outcome = transform(
        &strings(&["k1", "v1", "k2", "v2"]),
        &strings(&["a", "1", "b", "2"]),
        &tags_schema(),
    );
    let expected = object(vec![(
        "tags",
        JsonValue::Array(vec![
            object(vec![("key", text("a"))]),
            object(vec![("val", text("1"))]),
            object(vec![("key", text("b"))]),
            object(vec![("val", text("2"))]),
        ]),
    )]);
    assert_eq!(outcome, Ok(expected));
}

#[test]
fn array_has_one_group_for_a_repeated_header() {
    let outcome = transform(
        &strings(&["k", "v", "k", "x"]),
        &strings(&["a", "1", "b", "2"]),
        &tags_schema(),
    );
    let expected = object(vec![(
        "tags",
        JsonValue::Array(vec![object(vec![("key", text("b"))]), object(vec![("val", text("1"))])]),
    )]);
    assert_eq!(outcome, Ok(expected));
}

#[test]
fn array_group_holds_every_property_that_matches_its_header() {
    let mut tags = field("tags", SchemaFieldType::Array);
    let mut value = field("value", SchemaFieldType::String);
    value.add_alias_regex("^col".to_string()).expect("the pattern compiles");
    let mut source = field("source", SchemaFieldType::String);
    source.add_alias_regex("^col".to_string()).expect("the pattern compiles");
    source.header = true;
    tags.properties.push(value);
    tags.properties.push(source);
    let outcome = transform(
        &strings(&["col_a", "other", "col_b"]),
        &strings(&["1", "2", "3"]),
        &Some(vec![tags]),
    );
    let expected = object(vec![(
        "tags",
        JsonValue::Array(vec![
            object(vec![("value", text("1")), ("source", text("col_a"))]),
            object(vec![("value", text("3")), ("source", text("col_b"))]),
        ]),
    )]);
    assert_eq!(outcome, Ok(expected));
}

#[test]
fn array_without_matches_stays_empty() {
    let outcome = transform(&strings(&["a", "b"]), &strings(&["1", "2"]), &tags_schema());
    assert_eq!(outcome, Ok(object(vec![("tags", JsonValue::Array(vec![]))])));
    let outcome = transform(&strings(&["k1"]), &strings(&[]), &tags_schema());
    assert_eq!(outcome, Ok(object(vec![("tags", JsonValue::Array(vec![]))])));
}

#[test]
fn array_only_sees_the_columns_that_the_row_has() {
    let outcome = transform(&strings(&["k1", "v1", "k2"]), &strings(&["a"]), &tags_schema());
    let expected =
        object(vec![("tags", JsonValue::Array(vec![object(vec![("key", text("a"))])]))]);
    assert_eq!(outcome, Ok(expected));
}

#[test]
fn row_with_extra_cell_fails_at_its_position() {
    let outcome = transform(&strings(&["a", "b"]), &strings(&["1", "2", "3"]), &None);
    assert_eq!(outcome, Err(RowError::ExtraColumn(2)));
    let schema = Some(vec![aliased("name", "a", false)]);
    let outcome = transform(&strings(&["a", "b"]), &strings(&["1", "2", "3"]), &schema);
    assert_eq!(outcome, Err(RowError::ExtraColumn(2)));
    let outcome = transform(&strings(&[]), &strings(&["1"]), &None);
    assert_eq!(outcome, Err(RowError::ExtraColumn(0)));
    let outcome = transform(&strings(&["a"]), &strings(&["1", "2", "3", "4"]), &None);
    assert_eq!(outcome, Err(RowError::ExtraColumn(1)));
}

#[test]
fn row_no_longer_than_headers_never_fails() {
    assert!(transform(&strings(&["a", "b"]), &strings(&["1", "2"]), &None).is_ok());
    assert!(transform(&strings(&["a", "b"]), &strings(&["1"]), &None).is_ok());
    assert!(transform(&strings(&["a", "b"]), &strings(&[]), &None).is_ok());
    assert!(transform(&strings(&[]), &strings(&[]), &None).is_ok());
    assert!(transform(&strings(&["a", "b"]), &strings(&["1", "2"]), &tags_schema()).is_ok());
}

#[test]
fn skipped_row_is_noted_and_the_run_goes_on() {
    let headers = strings(&["a", "b"]);
    let rows = vec![strings(&["1", "2"]), strings(&["3", "4", "5"]), strings(&["6", "7"])];
    let mut run = Conversion::new();
    assert!(run.values.is_empty());
    assert!(run.skipped.is_empty());
    for (index, row) in rows.iter().enumerate() {
        run.accept(index, transform(&headers, row, &None));
    }
    assert_eq!(
        run.values,
        vec![
            object(vec![("a", text("1")), ("b", text("2"))]),
            object(vec![("a", text("6")), ("b", text("7"))]),
        ]
    );
    assert_eq!(run.skipped, vec![(1, RowError::ExtraColumn(2))]);
}

#[test]
fn no_schema_copies_every_column() {
    let outcome = transform(&strings(&["a", "b", "c"]), &strings(&["1", "", "3"]), &None);
    assert_eq!(outcome, Ok(object(vec![("a", text("1")), ("b", text("")), ("c", text("3"))])));
}

#[test]
fn no_schema_stops_at_the_end_of_the_row() {
    let outcome = transform(&strings(&["a", "b", "c"]), &strings(&["1"]), &None);
    assert_eq!(outcome, Ok(object(vec![("a", text("1"))])));
    let outcome = transform(&strings(&["a", "b", "c"]), &strings(&[]), &None);
    assert_eq!(outcome, Ok(object(vec![])));
}

#[test]
fn no_schema_repeated_header_keeps_the_last_cell() {
    let outcome = transform(&strings(&["a", "b", "a"]), &strings(&["1", "2", "3"]), &None);
    assert_eq!(outcome, Ok(object(vec![("a", text("3")), ("b", text("2"))])));
}

#[test]
fn same_inputs_give_the_same_value() {
    let headers = strings(&["k1", "v1", "name", "k1"]);
    let row = strings(&["a", "1", "n", "z"]);
    let mut schema = tags_schema().expect("there is a schema");
    schema.push(field("name", SchemaFieldType::String));
    let schema = Some(schema);
    let first = transform(&headers, &row, &schema);
    let second = transform(&headers, &row, &schema);
    assert_eq!(first, second);
    let expected = object(vec![
        (
            "tags",
            JsonValue::Array(vec![
                object(vec![("key", text("z"))]),
                object(vec![("val", text("1"))]),
            ]),
        ),
        ("name", text("n")),
    ]);
    assert_eq!(first, Ok(expected));
}

#[test]
fn unmatched_fields_keep_their_starting_values() {
    let schema = Some(vec![
        field("s", SchemaFieldType::String),
        field("i", SchemaFieldType::Int),
        field("f", SchemaFieldType::Float),
        field("a", SchemaFieldType::Array),
    ]);
    let outcome = transform(&strings(&["x", "y"]), &strings(&["1", "2"]), &schema);
    let expected = object(vec![
        ("s", JsonValue::Null),
        ("i", JsonValue::Null),
        ("f", JsonValue::Null),
        ("a", JsonValue::Array(vec![])),
    ]);
    assert_eq!(outcome, Ok(expected));
}

#[test]
fn int_and_float_fields_never_take_a_cell() {
    let schema =
        Some(vec![field("i", SchemaFieldType::Int), field("f", SchemaFieldType::Float)]);
    let outcome = transform(&strings(&["i", "f"]), &strings(&["1", "2.5"]), &schema);
    assert_eq!(outcome, Ok(object(vec![("i", JsonValue::Null), ("f", JsonValue::Null)])));
}

#[test]
fn string_field_takes_the_last_matching_column() {
    let mut any = field("any", SchemaFieldType::String);
    any.add_alias_regex("^c".to_string()).expect("the pattern compiles");
    let schema = Some(vec![any, field("plain", SchemaFieldType::String)]);
    let outcome = transform(
        &strings(&["c1", "plain", "c2", "d"]),
        &strings(&["1", "p", "2", "3"]),
        &schema,
    );
    assert_eq!(outcome, Ok(object(vec![("any", text("2")), ("plain", text("p"))])));
}

#[test]
fn empty_schema_gives_an_empty_object() {
    let outcome = transform(&strings(&["a"]), &strings(&["1"]), &Some(Vec::new()));
    assert_eq!(outcome, Ok(object(vec![])));
}

#[test]
fn fields_keep_their_declaration_order() {
    let schema = Some(vec![
        field("zeta", SchemaFieldType::String),
        field("alpha", SchemaFieldType::Array),
        field("mid", SchemaFieldType::String),
    ]);
    let outcome = transform(&strings(&["mid", "zeta"]), &strings(&["m", "z"]), &schema);
    let expected = object(vec![
        ("zeta", text("z")),
        ("alpha", JsonValue::Array(vec![])),
        ("mid", text("m")),
    ]);
    assert_eq!(outcome, Ok(expected));
}

#[test]
fn record_cells_copies_the_fields_in_order() {
    let record = StringRecord::from(vec!["Jane", "", "Doe"]);
    assert_eq!(record_cells(&record), strings(&["Jane", "", "Doe"]));
    assert_eq!(record_cells(&StringRecord::new()), Vec::<String>::new());
}

#[test]
fn record_is_turned_like_its_cells() {
    let headers = strings(&["first", "last"]);
    let record = StringRecord::from(vec!["Jane", "Doe"]);
    let schema = Some(vec![aliased("name", "first", false)]);
    assert_eq!(
        record_to_json(&headers, &record, &schema),
        Ok(object(vec![("name", text("Jane"))]))
    );
    assert_eq!(
        record_to_json(&headers, &record, &None),
        Ok(object(vec![("first", text("Jane")), ("last", text("Doe"))]))
    );
    let long = StringRecord::from(vec!["Jane", "Doe", "extra"]);
    assert_eq!(record_to_json(&headers, &long, &None), Err(RowError::ExtraColumn(2)));
    let short = StringRecord::from(vec!["Jane"]);
    assert_eq!(record_to_json(&headers, &short, &None), Ok(object(vec![("first", text("Jane"))])));
}
