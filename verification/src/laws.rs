use crate::json::{
    distinct_keys, has_key, lemma_occurrence_has_first, lemma_put_keeps_distinct,
    lemma_put_lookup, lookup, members_at, put, put_under, values_of, JsonModel, JsonValue,
};
use crate::schema::{field_matches, FieldModel, SchemaFieldType};
use crate::transform::{
    array_value, closed_arrays, filled, grouped, grouped_column, outcome_model, passthrough,
    seeded, stored_text, transformed, RowError,
};
use vstd::prelude::*;

verus! {

/// A row fails exactly when it has more cells than there are headers, and then
/// at the position of its first cell without a header, with or without a
/// schema.
pub proof fn lemma_extra_column(
    headers: Seq<Seq<char>>,
    row: Seq<Seq<char>>,
    schema: Option<Seq<FieldModel>>,
)
    ensures
        transformed(headers, row, schema) is Err <==> row.len() > headers.len(),
        row.len() > headers.len() ==> transformed(headers, row, schema) == Err::<
            JsonModel,
            RowError,
        >(RowError::ExtraColumn(headers.len() as usize)),
{
}

/// Whatever two runs on the same headers, row and schema return stands for the
/// same value: a run depends on nothing else.
pub proof fn lemma_same_inputs_same_value(
    headers: Seq<Seq<char>>,
    row: Seq<Seq<char>>,
    schema: Option<Seq<FieldModel>>,
    first: Result<JsonValue, RowError>,
    second: Result<JsonValue, RowError>,
)
    requires
        outcome_model(first) == transformed(headers, row, schema),
        outcome_model(second) == transformed(headers, row, schema),
    ensures
        outcome_model(first) == outcome_model(second),
{
}

/// Without a schema a row that is not refused gives an object that holds, for
/// each column of the row, the column's header with the column's cell, and
/// nothing else. Where a header stands over several columns, the last of them
/// gives the value.
pub proof fn lemma_no_schema_copies_columns(headers: Seq<Seq<char>>, row: Seq<Seq<char>>)
    requires
        row.len() <= headers.len(),
    ensures
        transformed(headers, row, None) matches Ok(JsonModel::Object(object)) && {
            &&& distinct_keys(object)
            &&& forall|key: Seq<char>|
                has_key(object, key) <==> exists|i: int|
                    0 <= i < row.len() && #[trigger] headers[i] == key
            &&& forall|i: int|
                0 <= i < row.len() && (forall|j: int|
                    i < j < row.len() ==> #[trigger] headers[j] != headers[i]) ==> lookup(
                    object,
                    #[trigger] headers[i],
                ) == Some(JsonModel::String(row[i]))
        },
{
    lemma_passthrough(headers, row, row.len());
}

/// Without a schema, and with no header standing over two columns of the row,
/// the object's members are the columns in order, each with its header and
/// its cell.
pub proof fn lemma_no_schema_keeps_column_order(headers: Seq<Seq<char>>, row: Seq<Seq<char>>)
    requires
        row.len() <= headers.len(),
        forall|i: int, j: int| 0 <= i < j < row.len() ==> headers[i] != headers[j],
    ensures
        transformed(headers, row, None) == Ok::<JsonModel, RowError>(
            JsonModel::Object(
                Seq::new(row.len(), |i: int| (headers[i], JsonModel::String(row[i]))),
            ),
        ),
{
    lemma_passthrough_in_order(headers, row, row.len());
}

/// The columns copied so far: every header among them is a key, with the cell
/// of the last column that it stands over.
proof fn lemma_passthrough(headers: Seq<Seq<char>>, row: Seq<Seq<char>>, n: nat)
    requires
        n <= row.len() <= headers.len(),
    ensures
        distinct_keys(passthrough(headers, row, n)),
        forall|key: Seq<char>|
            has_key(passthrough(headers, row, n), key) <==> exists|i: int|
                0 <= i < n && #[trigger] headers[i] == key,
        forall|i: int|
            0 <= i < n && (forall|j: int| i < j < n ==> #[trigger] headers[j] != headers[i])
                ==> lookup(passthrough(headers, row, n), #[trigger] headers[i]) == Some(
                JsonModel::String(row[i]),
            ),
    decreases n,
{
    if n > 0 {
        let before = passthrough(headers, row, (n - 1) as nat);
        let key = headers[n - 1];
        let value = JsonModel::String(row[n - 1]);
        lemma_passthrough(headers, row, (n - 1) as nat);
        lemma_put_keeps_distinct(before, key, value);
        lemma_put_lookup(before, key, value);
        let after = passthrough(headers, row, n);
        assert forall|other: Seq<char>| has_key(after, other) <==> exists|i: int|
            0 <= i < n && #[trigger] headers[i] == other by {
            if other == key {
                assert(headers[n - 1] == other);
            } else {
                if has_key(before, other) {
                    let i = choose|i: int| 0 <= i < n - 1 && #[trigger] headers[i] == other;
                    assert(0 <= i < n && headers[i] == other);
                }
                if exists|i: int| 0 <= i < n && #[trigger] headers[i] == other {
                    let i = choose|i: int| 0 <= i < n && #[trigger] headers[i] == other;
                    assert(0 <= i < n - 1 && headers[i] == other);
                }
            }
        }
        assert forall|i: int|
            0 <= i < n && (forall|j: int|
                i < j < n ==> #[trigger] headers[j] != headers[i]) implies lookup(
            after,
            #[trigger] headers[i],
        ) == Some(JsonModel::String(row[i])) by {
            if i < n - 1 {
                assert(headers[n - 1] != headers[i]);
                assert forall|j: int| i < j < n - 1 implies #[trigger] headers[j]
                    != headers[i] by {}
            }
        }
    }
}

/// The columns copied so far, where no header stands over two of them: the
/// members are the columns in order.
proof fn lemma_passthrough_in_order(headers: Seq<Seq<char>>, row: Seq<Seq<char>>, n: nat)
    requires
        n <= row.len() <= headers.len(),
        forall|i: int, j: int| 0 <= i < j < n ==> headers[i] != headers[j],
    ensures
        passthrough(headers, row, n) == Seq::new(
            n,
            |i: int| (headers[i], JsonModel::String(row[i])),
        ),
    decreases n,
{
    if n > 0 {
        let before = passthrough(headers, row, (n - 1) as nat);
        lemma_passthrough_in_order(headers, row, (n - 1) as nat);
        if has_key(before, headers[n - 1]) {
            let at = crate::json::key_index(before, headers[n - 1]);
            assert(before[at].0 == headers[at]);
        }
        assert(passthrough(headers, row, n) =~= Seq::new(
            n,
            |i: int| (headers[i], JsonModel::String(row[i])),
        ));
    } else {
        assert(passthrough(headers, row, n) =~= Seq::new(
            n,
            |i: int| (headers[i], JsonModel::String(row[i])),
        ));
    }
}

/// Some property recognises the column called `header`.
pub open spec fn recognised(properties: Seq<FieldModel>, header: Seq<char>, n: nat) -> bool {
    exists|j: int| 0 <= j < n && field_matches(#[trigger] properties[j], header)
}

/// The distinct names, among the first `k` columns, of the columns that some
/// property recognises.
pub open spec fn grouping_headers(
    properties: Seq<FieldModel>,
    headers: Seq<Seq<char>>,
    k: nat,
) -> Set<Seq<char>> {
    Set::new(
        |header: Seq<char>|
            recognised(properties, header, properties.len()) && exists|i: int|
                0 <= i < k && #[trigger] headers[i] == header,
    )
}

/// Every group is an object.
pub open spec fn all_objects(groups: Seq<(Seq<char>, JsonModel)>) -> bool {
    forall|i: int| 0 <= i < groups.len() ==> (#[trigger] groups[i]).1 is Object
}

/// Setting a member inside a group keeps every group an object, keeps the
/// group keys distinct, and adds at most the key of that group.
proof fn lemma_put_under(
    groups: Seq<(Seq<char>, JsonModel)>,
    outer: Seq<char>,
    key: Seq<char>,
    value: JsonModel,
)
    requires
        distinct_keys(groups),
        all_objects(groups),
    ensures
        distinct_keys(put_under(groups, outer, key, value)),
        all_objects(put_under(groups, outer, key, value)),
        has_key(put_under(groups, outer, key, value), outer),
        forall|other: Seq<char>|
            other != outer ==> (has_key(put_under(groups, outer, key, value), other) <==> has_key(
                groups,
                other,
            )),
{
    let inner = JsonModel::Object(put(members_at(groups, outer), key, value));
    lemma_put_keeps_distinct(groups, outer, inner);
    lemma_put_lookup(groups, outer, inner);
}

/// What one column does to the groups of an array field: if some property
/// recognises the column, its name is among the group keys afterwards; no other
/// key comes or goes.
proof fn lemma_grouped_column(
    groups: Seq<(Seq<char>, JsonModel)>,
    properties: Seq<FieldModel>,
    header: Seq<char>,
    cell: Seq<char>,
    n: nat,
)
    requires
        distinct_keys(groups),
        all_objects(groups),
        n <= properties.len(),
    ensures
        distinct_keys(grouped_column(groups, properties, header, cell, n)),
        all_objects(grouped_column(groups, properties, header, cell, n)),
        forall|other: Seq<char>|
            has_key(grouped_column(groups, properties, header, cell, n), other) <==> has_key(
                groups,
                other,
            ) || (other == header && recognised(properties, header, n)),
    decreases n,
{
    if n > 0 {
        let before = grouped_column(groups, properties, header, cell, (n - 1) as nat);
        let property = properties[n - 1];
        lemma_grouped_column(groups, properties, header, cell, (n - 1) as nat);
        if field_matches(property, header) {
            lemma_put_under(
                before,
                header,
                property.name,
                JsonModel::String(stored_text(property, header, cell)),
            );
            assert(recognised(properties, header, n));
        } else {
            if recognised(properties, header, n) {
                let j = choose|j: int| 0 <= j < n && field_matches(#[trigger] properties[j], header);
                assert(0 <= j < n - 1 && field_matches(properties[j], header));
            }
        }
        if recognised(properties, header, (n - 1) as nat) {
            let j = choose|j: int|
                0 <= j < n - 1 && field_matches(#[trigger] properties[j], header);
            assert(0 <= j < n && field_matches(properties[j], header));
        }
    }
}

/// The groups of an array field are objects under distinct keys, and the keys
/// are the distinct names of the columns that some property recognises.
proof fn lemma_grouped(
    properties: Seq<FieldModel>,
    headers: Seq<Seq<char>>,
    row: Seq<Seq<char>>,
    k: nat,
)
    requires
        k <= row.len() <= headers.len(),
    ensures
        distinct_keys(grouped(properties, headers, row, k)),
        all_objects(grouped(properties, headers, row, k)),
        forall|header: Seq<char>|
            has_key(grouped(properties, headers, row, k), header) <==> grouping_headers(
                properties,
                headers,
                k,
            ).contains(header),
    decreases k,
{
    if k > 0 {
        let before = grouped(properties, headers, row, (k - 1) as nat);
        lemma_grouped(properties, headers, row, (k - 1) as nat);
        lemma_grouped_column(before, properties, headers[k - 1], row[k - 1], properties.len());
        let after = grouped(properties, headers, row, k);
        assert forall|header: Seq<char>| has_key(after, header) <==> grouping_headers(
            properties,
            headers,
            k,
        ).contains(header) by {
            if grouping_headers(properties, headers, (k - 1) as nat).contains(header) {
                let i = choose|i: int| 0 <= i < k - 1 && #[trigger] headers[i] == header;
                assert(0 <= i < k && headers[i] == header);
            }
            if header == headers[k - 1] && recognised(properties, header, properties.len()) {
                assert(headers[k - 1] == header);
            }
            if grouping_headers(properties, headers, k).contains(header) {
                let i = choose|i: int| 0 <= i < k && #[trigger] headers[i] == header;
                if i < k - 1 {
                    assert(0 <= i < k - 1 && headers[i] == header);
                }
            }
        }
    } else {
        assert forall|header: Seq<char>| !has_key(
            grouped(properties, headers, row, k),
            header,
        ) by {}
    }
}

/// An array field gets one object for each distinct column name, among the
/// columns of the row, that at least one of its properties recognises: neither
/// one for each property that recognises a column, nor one for each column.
pub proof fn lemma_one_group_for_each_header(
    properties: Seq<FieldModel>,
    headers: Seq<Seq<char>>,
    row: Seq<Seq<char>>,
)
    requires
        row.len() <= headers.len(),
    ensures
        grouping_headers(properties, headers, row.len()).finite(),
        array_value(properties, headers, row) matches JsonModel::Array(items) && items.len()
            == grouping_headers(properties, headers, row.len()).len() && forall|i: int|
            0 <= i < items.len() ==> (#[trigger] items[i]) is Object,
{
    let groups = grouped(properties, headers, row, row.len());
    lemma_grouped(properties, headers, row, row.len());
    let keys = Seq::new(groups.len(), |i: int| groups[i].0);
    assert(keys.no_duplicates());
    assert(keys.to_set() =~= grouping_headers(properties, headers, row.len())) by {
        assert forall|header: Seq<char>| keys.to_set().contains(header) <==> grouping_headers(
            properties,
            headers,
            row.len(),
        ).contains(header) by {
            if keys.contains(header) {
                let i = choose|i: int| 0 <= i < keys.len() && keys[i] == header;
                lemma_occurrence_has_first(groups, header, i);
            }
            if has_key(groups, header) {
                let i = crate::json::key_index(groups, header);
                assert(keys[i] == header);
            }
        }
    }
    keys.unique_seq_to_set();
    vstd::seq_lib::seq_to_set_is_finite(keys);
    let items = values_of(groups);
    assert forall|i: int| 0 <= i < items.len() implies (#[trigger] items[i]) is Object by {
        assert(groups[i].1 is Object);
    }
}

/// Closing the arrays sets a given array field, if no other field bears
/// its name, to its value for the row.
proof fn lemma_closed_arrays_set(
    object: Seq<(Seq<char>, JsonModel)>,
    fields: Seq<FieldModel>,
    headers: Seq<Seq<char>>,
    row: Seq<Seq<char>>,
    n: nat,
    at: int,
)
    requires
        0 <= at < n <= fields.len(),
        fields[at].kind == SchemaFieldType::Array,
        forall|j: int| 0 <= j < fields.len() && j != at ==> (#[trigger] fields[j]).name
            != fields[at].name,
    ensures
        lookup(closed_arrays(object, fields, headers, row, n), fields[at].name) == Some(
            array_value(fields[at].properties, headers, row),
        ),
    decreases n,
{
    let before = closed_arrays(object, fields, headers, row, (n - 1) as nat);
    let last = fields[n - 1];
    if last.kind == SchemaFieldType::Array {
        lemma_put_lookup(before, last.name, array_value(last.properties, headers, row));
    }
    if at < n - 1 {
        lemma_closed_arrays_set(object, fields, headers, row, (n - 1) as nat, at);
        assert(fields[n - 1].name != fields[at].name);
    }
}

/// Under a schema, an array field whose name no other field bears has, in the
/// row's object, one object for each distinct column name, among the columns of
/// the row, that at least one of its properties recognises.
pub proof fn lemma_array_field_counts_headers(
    fields: Seq<FieldModel>,
    headers: Seq<Seq<char>>,
    row: Seq<Seq<char>>,
    at: int,
)
    requires
        row.len() <= headers.len(),
        0 <= at < fields.len(),
        fields[at].kind == SchemaFieldType::Array,
        forall|j: int| 0 <= j < fields.len() && j != at ==> (#[trigger] fields[j]).name
            != fields[at].name,
    ensures
        grouping_headers(fields[at].properties, headers, row.len()).finite(),
        transformed(headers, row, Some(fields)) matches Ok(JsonModel::Object(object)) && lookup(
            object,
            fields[at].name,
        ) matches Some(JsonModel::Array(items)) && items.len() == grouping_headers(
            fields[at].properties,
            headers,
            row.len(),
        ).len(),
{
    lemma_one_group_for_each_header(fields[at].properties, headers, row);
    lemma_closed_arrays_set(
        filled(seeded(fields, headers, fields.len()), fields, headers, row, row.len()),
        fields,
        headers,
        row,
        fields.len(),
        at,
    );
}

} // verus!
