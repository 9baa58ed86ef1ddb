use crate::json::{put, put_under, values_of, JsonModel, JsonObject, JsonValue};
use crate::record::record_fields;
use crate::schema::{field_matches, FieldModel, Schema, SchemaField, SchemaFieldType};
use csv::StringRecord;
use vstd::prelude::*;

verus! {

/// Why a row gave no value.
#[derive(Debug, Clone, Copy, PartialEq, Eq, Structural)]
pub enum RowError {
    /// The row has a cell at this position, and no header stands there.
    ExtraColumn(usize),
}

/// Without a schema, after the first `n` columns: each column's header is set
/// to its cell, in column order.
pub open spec fn passthrough(headers: Seq<Seq<char>>, row: Seq<Seq<char>>, n: nat) -> Seq<
    (Seq<char>, JsonModel),
>
    decreases n,
{
    if n == 0 {
        Seq::empty()
    } else {
        put(passthrough(headers, row, (n - 1) as nat), headers[n - 1], JsonModel::String(row[n - 1]))
    }
}

/// The value that a field starts with, before any cell is read; `None` where
/// the field starts without one.
///
/// A string field that emits the header starts with the last header if it
/// recognises that one, with null if it does not, and with nothing where there
/// is no header at all. An array starts empty. Every other field starts null.
pub open spec fn seed_value(field: FieldModel, headers: Seq<Seq<char>>) -> Option<JsonModel> {
    match field.kind {
        SchemaFieldType::String => {
            if !field.header {
                Some(JsonModel::Null)
            } else if headers.len() == 0 {
                None
            } else if field_matches(field, headers.last()) {
                Some(JsonModel::String(headers.last()))
            } else {
                Some(JsonModel::Null)
            }
        },
        SchemaFieldType::Array => Some(JsonModel::Array(Seq::empty())),
        _ => Some(JsonModel::Null),
    }
}

/// The object after the first `n` fields have been given their starting values.
pub open spec fn seeded(fields: Seq<FieldModel>, headers: Seq<Seq<char>>, n: nat) -> Seq<
    (Seq<char>, JsonModel),
>
    decreases n,
{
    if n == 0 {
        Seq::empty()
    } else {
        let before = seeded(fields, headers, (n - 1) as nat);
        match seed_value(fields[n - 1], headers) {
            Some(value) => put(before, fields[n - 1].name, value),
            None => before,
        }
    }
}

/// Whether a field takes the cell of the column called `header`: a string
/// field that does not emit the header and recognises the column.
pub open spec fn takes_cell(field: FieldModel, header: Seq<char>) -> bool {
    field.kind == SchemaFieldType::String && !field.header && field_matches(field, header)
}

/// `object` after the first `n` fields have looked at one column.
pub open spec fn filled_column(
    object: Seq<(Seq<char>, JsonModel)>,
    fields: Seq<FieldModel>,
    header: Seq<char>,
    cell: Seq<char>,
    n: nat,
) -> Seq<(Seq<char>, JsonModel)>
    decreases n,
{
    if n == 0 {
        object
    } else {
        let before = filled_column(object, fields, header, cell, (n - 1) as nat);
        if takes_cell(fields[n - 1], header) {
            put(before, fields[n - 1].name, JsonModel::String(cell))
        } else {
            before
        }
    }
}

/// `object` after all fields have looked at the first `k` columns, column by
/// column.
pub open spec fn filled(
    object: Seq<(Seq<char>, JsonModel)>,
    fields: Seq<FieldModel>,
    headers: Seq<Seq<char>>,
    row: Seq<Seq<char>>,
    k: nat,
) -> Seq<(Seq<char>, JsonModel)>
    decreases k,
{
    if k == 0 {
        object
    } else {
        filled_column(
            filled(object, fields, headers, row, (k - 1) as nat),
            fields,
            headers[k - 1],
            row[k - 1],
            fields.len(),
        )
    }
}

/// What a property stores for a column that it recognises: the column's name
/// if it emits the header, else the cell.
pub open spec fn stored_text(property: FieldModel, header: Seq<char>, cell: Seq<char>) -> Seq<
    char,
> {
    if property.header {
        header
    } else {
        cell
    }
}

/// The groups of an array field after the first `n` properties have looked at
/// one column. A group is keyed by the column's name; a property that
/// recognises the column sets its own name, in that group, to what it stores.
pub open spec fn grouped_column(
    groups: Seq<(Seq<char>, JsonModel)>,
    properties: Seq<FieldModel>,
    header: Seq<char>,
    cell: Seq<char>,
    n: nat,
) -> Seq<(Seq<char>, JsonModel)>
    decreases n,
{
    if n == 0 {
        groups
    } else {
        let before = grouped_column(groups, properties, header, cell, (n - 1) as nat);
        let property = properties[n - 1];
        if field_matches(property, header) {
            put_under(
                before,
                header,
                property.name,
                JsonModel::String(stored_text(property, header, cell)),
            )
        } else {
            before
        }
    }
}

/// The groups of an array field after its properties have looked at the first
/// `k` columns: one group for each distinct column name that some property
/// recognised, in the order in which those names first came.
pub open spec fn grouped(
    properties: Seq<FieldModel>,
    headers: Seq<Seq<char>>,
    row: Seq<Seq<char>>,
    k: nat,
) -> Seq<(Seq<char>, JsonModel)>
    decreases k,
{
    if k == 0 {
        Seq::empty()
    } else {
        grouped_column(
            grouped(properties, headers, row, (k - 1) as nat),
            properties,
            headers[k - 1],
            row[k - 1],
            properties.len(),
        )
    }
}

/// The value of an array field for a row: its groups, without their keys.
pub open spec fn array_value(
    properties: Seq<FieldModel>,
    headers: Seq<Seq<char>>,
    row: Seq<Seq<char>>,
) -> JsonModel {
    JsonModel::Array(values_of(grouped(properties, headers, row, row.len())))
}

/// `object` after the first `n` fields have been closed: each array field is
/// set to its value for the row.
pub open spec fn closed_arrays(
    object: Seq<(Seq<char>, JsonModel)>,
    fields: Seq<FieldModel>,
    headers: Seq<Seq<char>>,
    row: Seq<Seq<char>>,
    n: nat,
) -> Seq<(Seq<char>, JsonModel)>
    decreases n,
{
    if n == 0 {
        object
    } else {
        let before = closed_arrays(object, fields, headers, row, (n - 1) as nat);
        if fields[n - 1].kind == SchemaFieldType::Array {
            put(before, fields[n - 1].name, array_value(fields[n - 1].properties, headers, row))
        } else {
            before
        }
    }
}

/// The members of the object that a row gives under a schema: starting values,
/// then the cells column by column, then the arrays.
pub open spec fn shaped(fields: Seq<FieldModel>, headers: Seq<Seq<char>>, row: Seq<Seq<char>>) -> Seq<
    (Seq<char>, JsonModel),
> {
    closed_arrays(
        filled(seeded(fields, headers, fields.len()), fields, headers, row, row.len()),
        fields,
        headers,
        row,
        fields.len(),
    )
}

/// What a row gives.
///
/// A row with more cells than there are headers fails, at the position of its
/// first cell without a header. Any other row gives an object: without a
/// schema one member for each column, with a schema the shape that the schema
/// describes.
pub open spec fn transformed(
    headers: Seq<Seq<char>>,
    row: Seq<Seq<char>>,
    schema: Option<Seq<FieldModel>>,
) -> Result<JsonModel, RowError> {
    if row.len() > headers.len() {
        Err(RowError::ExtraColumn(headers.len() as usize))
    } else {
        Ok(
            JsonModel::Object(
                match schema {
                    Some(fields) => shaped(fields, headers, row),
                    None => passthrough(headers, row, row.len()),
                },
            ),
        )
    }
}

/// What the outcome of a transformation stands for.
pub open spec fn outcome_model(outcome: Result<JsonValue, RowError>) -> Result<JsonModel, RowError> {
    match outcome {
        Ok(value) => Ok(value@),
        Err(error) => Err(error),
    }
}

/// One member for each column: the header is the key, the cell the value.
fn copy_columns(headers: &Vec<String>, row: &Vec<String>) -> (json: JsonObject)
    requires
        row@.len() <= headers@.len(),
    ensures
        json@ == passthrough(headers.deep_view(), row.deep_view(), row@.len()),
{
    let mut json = JsonObject::new();
    let mut i: usize = 0;
    while i < row.len()
        invariant
            i <= row@.len() <= headers@.len(),
            json@ == passthrough(headers.deep_view(), row.deep_view(), i as nat),
        decreases row@.len() - i,
    {
        json.insert(headers[i].clone(), JsonValue::String(row[i].clone()));
        i += 1;
    }
    json
}

/// Gives every field its starting value.
fn seed(fields: &Vec<SchemaField>, headers: &Vec<String>) -> (json: JsonObject)
    ensures
        json@ == seeded(fields.deep_view(), headers.deep_view(), fields@.len()),
{
    let mut json = JsonObject::new();
    let mut i: usize = 0;
    while i < fields.len()
        invariant
            i <= fields@.len(),
            json@ == seeded(fields.deep_view(), headers.deep_view(), i as nat),
        decreases fields@.len() - i,
    {
        let field = &fields[i];
        assert(fields.deep_view()[i as int] == field@);
        match field.field_type {
            SchemaFieldType::String => {
                if !field.header {
                    json.insert(field.name.clone(), JsonValue::Null);
                } else if headers.len() > 0 {
                    let last = &headers[headers.len() - 1];
                    assert(headers.deep_view().last() == last@);
                    if field.match_alias(last.clone()) {
                        json.insert(field.name.clone(), JsonValue::String(last.clone()));
                    } else {
                        json.insert(field.name.clone(), JsonValue::Null);
                    }
                }
            },
            SchemaFieldType::Array => {
                let empty: Vec<JsonValue> = Vec::new();
                assert(JsonValue::Array(empty)@ == JsonModel::Array(Seq::empty())) by {
                    assert(JsonValue::Array(empty)@->Array_0 =~= Seq::empty());
                }
                json.insert(field.name.clone(), JsonValue::Array(empty));
            },
            _ => {
                json.insert(field.name.clone(), JsonValue::Null);
            },
        }
        i += 1;
    }
    json
}

/// Lets every field look at every column of the row, column by column.
fn fill(json: &mut JsonObject, fields: &Vec<SchemaField>, headers: &Vec<String>, row: &Vec<String>)
    requires
        row@.len() <= headers@.len(),
    ensures
        final(json)@ == filled(
            old(json)@,
            fields.deep_view(),
            headers.deep_view(),
            row.deep_view(),
            row@.len(),
        ),
{
    let mut k: usize = 0;
    while k < row.len()
        invariant
            k <= row@.len() <= headers@.len(),
            json@ == filled(
                old(json)@,
                fields.deep_view(),
                headers.deep_view(),
                row.deep_view(),
                k as nat,
            ),
        decreases row@.len() - k,
    {
        let ghost start = json@;
        let mut i: usize = 0;
        while i < fields.len()
            invariant
                k < row@.len() <= headers@.len(),
                i <= fields@.len(),
                json@ == filled_column(
                    start,
                    fields.deep_view(),
                    headers.deep_view()[k as int],
                    row.deep_view()[k as int],
                    i as nat,
                ),
            decreases fields@.len() - i,
        {
            let field = &fields[i];
            assert(fields.deep_view()[i as int] == field@);
            match field.field_type {
                SchemaFieldType::String => {
                    if !field.header && field.match_alias(headers[k].clone()) {
                        json.insert(field.name.clone(), JsonValue::String(row[k].clone()));
                    }
                },
                _ => {},
            }
            i += 1;
        }
        k += 1;
    }
}

/// Builds the groups of an array field for a row.
fn group(properties: &Vec<SchemaField>, headers: &Vec<String>, row: &Vec<String>) -> (groups:
    JsonObject)
    requires
        row@.len() <= headers@.len(),
    ensures
        groups@ == grouped(
            properties.deep_view(),
            headers.deep_view(),
            row.deep_view(),
            row@.len(),
        ),
{
    let mut groups = JsonObject::new();
    let mut k: usize = 0;
    while k < row.len()
        invariant
            k <= row@.len() <= headers@.len(),
            groups@ == grouped(
                properties.deep_view(),
                headers.deep_view(),
                row.deep_view(),
                k as nat,
            ),
        decreases row@.len() - k,
    {
        let ghost start = groups@;
        let mut i: usize = 0;
        while i < properties.len()
            invariant
                k < row@.len() <= headers@.len(),
                i <= properties@.len(),
                groups@ == grouped_column(
                    start,
                    properties.deep_view(),
                    headers.deep_view()[k as int],
                    row.deep_view()[k as int],
                    i as nat,
                ),
            decreases properties@.len() - i,
        {
            let property = &properties[i];
            assert(properties.deep_view()[i as int] == property@);
            if property.match_alias(headers[k].clone()) {
                let text = if property.header {
                    headers[k].clone()
                } else {
                    row[k].clone()
                };
                groups.insert_under(
                    headers[k].clone(),
                    property.name.clone(),
                    JsonValue::String(text),
                );
            }
            i += 1;
        }
        k += 1;
    }
    groups
}

/// Sets every array field to its value for the row.
fn close_arrays(
    json: &mut JsonObject,
    fields: &Vec<SchemaField>,
    headers: &Vec<String>,
    row: &Vec<String>,
)
    requires
        row@.len() <= headers@.len(),
    ensures
        final(json)@ == closed_arrays(
            old(json)@,
            fields.deep_view(),
            headers.deep_view(),
            row.deep_view(),
            fields@.len(),
        ),
{
    let mut i: usize = 0;
    while i < fields.len()
        invariant
            row@.len() <= headers@.len(),
            i <= fields@.len(),
            json@ == closed_arrays(
                old(json)@,
                fields.deep_view(),
                headers.deep_view(),
                row.deep_view(),
                i as nat,
            ),
        decreases fields@.len() - i,
    {
        let field = &fields[i];
        assert(fields.deep_view()[i as int] == field@);
        match field.field_type {
            SchemaFieldType::Array => {
                proof {
                    crate::schema::lemma_properties_view(*field);
                }
                let items = group(&field.properties, headers, row).into_values();
                proof {
                    crate::json::lemma_array_view(items);
                }
                json.insert(field.name.clone(), JsonValue::Array(items));
            },
            _ => {},
        }
        i += 1;
    }
}

/// Turns one row into a value.
///
/// A row with more cells than there are headers is refused. Without a schema
/// every column becomes a member, keyed by its header. With a schema the row
/// is shaped as the schema's fields say.
pub fn transform(headers: &Vec<String>, row: &Vec<String>, schema: &Option<Schema>) -> (outcome:
    Result<JsonValue, RowError>)
    ensures
        outcome_model(outcome) == transformed(
            headers.deep_view(),
            row.deep_view(),
            schema.deep_view(),
        ),
        outcome is Err <==> row@.len() > headers@.len(),
{
    if row.len() > headers.len() {
        return Err(RowError::ExtraColumn(headers.len()));
    }
    let json = match schema {
        Some(fields) => {
            let mut json = seed(fields, headers);
            fill(&mut json, fields, headers, row);
            close_arrays(&mut json, fields, headers, row);
            json
        },
        None => copy_columns(headers, row),
    };
    Ok(JsonValue::Object(json))
}

/// The cells of a record, copied out in order.
pub fn record_cells(record: &StringRecord) -> (cells: Vec<String>)
    ensures
        cells.deep_view() == record_fields(*record),
{
    let mut cells: Vec<String> = Vec::new();
    let count = record.len();
    let mut i: usize = 0;
    while i < count
        invariant
            count == record_fields(*record).len(),
            i <= count,
            cells@.len() == i,
            forall|j: int| 0 <= j < i ==> (#[trigger] cells@[j])@ == record_fields(*record)[j],
        decreases count - i,
    {
        match record.get(i) {
            Some(text) => cells.push(text.to_owned()),
            None => {},
        }
        i += 1;
    }
    assert(cells.deep_view() =~= record_fields(*record));
    cells
}

/// Turns one record of a table into a value: [`transform`] on the record's
/// cells.
pub fn record_to_json(headers: &Vec<String>, record: &StringRecord, schema: &Option<Schema>) -> (outcome:
    Result<JsonValue, RowError>)
    ensures
        outcome_model(outcome) == transformed(
            headers.deep_view(),
            record_fields(*record),
            schema.deep_view(),
        ),
        outcome is Err <==> record_fields(*record).len() > headers@.len(),
{
    let cells = record_cells(record);
    transform(headers, &cells, schema)
}

/// What a run has gathered: the values of the rows that were turned, in row
/// order, and for each row that was refused its position and the reason.
#[derive(Debug)]
pub struct Conversion {
    pub values: Vec<JsonValue>,
    pub skipped: Vec<(usize, RowError)>,
}

impl Conversion {
    /// A run that has seen no row yet.
    pub fn new() -> (run: Conversion)
        ensures
            run.values@.len() == 0,
            run.skipped@.len() == 0,
    {
        Conversion { values: Vec::new(), skipped: Vec::new() }
    }

    /// Takes in the outcome of the row at position `index`: a value joins the
    /// values, a refusal is noted with the row's position. Either way the run
    /// goes on.
    pub fn accept(&mut self, index: usize, outcome: Result<JsonValue, RowError>)
        ensures
            match outcome {
                Ok(value) => {
                    &&& final(self).values@ == old(self).values@.push(value)
                    &&& final(self).skipped@ == old(self).skipped@
                },
                Err(error) => {
                    &&& final(self).values@ == old(self).values@
                    &&& final(self).skipped@ == old(self).skipped@.push((index, error))
                },
            },
    {
        match outcome {
            Ok(value) => self.values.push(value),
            Err(error) => self.skipped.push((index, error)),
        }
    }
}

} // verus!
