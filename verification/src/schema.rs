use crate::json::{
    flag_at, is_first_at, key_index, object_at, parse_object, text_at, JsonModel, JsonObject,
    JsonValue,
};
use crate::pattern::{pattern_compiles, pattern_matches, search, Pattern};
use vstd::prelude::*;

verus! {

/// Why a schema could not be built.
#[derive(Debug, Clone, Copy, PartialEq, Eq, Structural)]
pub enum SchemaError {
    /// A field's `regex` is not a pattern that compiles.
    InvalidPattern,
    /// A field's descriptor is not an object.
    MalformedField,
}

/// The declared kind of a schema field.
#[derive(Debug, Clone, Copy, PartialEq, Eq, Structural)]
pub enum SchemaFieldType {
    String,
    Int,
    Float,
    Array,
}

/// The kind that a type tag names, if it names one.
pub open spec fn kind_of_tag(tag: Seq<char>) -> Option<SchemaFieldType> {
    if tag == "string"@ {
        Some(SchemaFieldType::String)
    } else if tag == "int"@ {
        Some(SchemaFieldType::Int)
    } else if tag == "float"@ {
        Some(SchemaFieldType::Float)
    } else if tag == "array"@ {
        Some(SchemaFieldType::Array)
    } else {
        None
    }
}

impl SchemaFieldType {
    /// Reads a type tag: `"string"`, `"int"`, `"float"` or `"array"`.
    pub fn from_string(string: &str) -> (kind: Option<SchemaFieldType>)
        ensures
            kind == kind_of_tag(string@),
    {
        if string.eq("string") {
            Some(SchemaFieldType::String)
        } else if string.eq("int") {
            Some(SchemaFieldType::Int)
        } else if string.eq("float") {
            Some(SchemaFieldType::Float)
        } else if string.eq("array") {
            Some(SchemaFieldType::Array)
        } else {
            None
        }
    }
}

/// How a field recognises a column: exact names, and at most one pattern
/// (given by the text it was compiled from).
pub struct MatchRule {
    pub exact: Seq<Seq<char>>,
    pub pattern: Option<Seq<char>>,
}

/// A schema field as mathematics: what a [`SchemaField`] stands for.
pub struct FieldModel {
    pub name: Seq<char>,
    pub rule: MatchRule,
    pub header: bool,
    pub kind: SchemaFieldType,
    pub properties: Seq<FieldModel>,
}

/// A string field without a name and without a matching rule of its own, which
/// takes its value from the cell.
pub open spec fn blank_field() -> FieldModel {
    FieldModel {
        name: Seq::empty(),
        rule: MatchRule { exact: Seq::empty(), pattern: None },
        header: false,
        kind: SchemaFieldType::String,
        properties: Seq::empty(),
    }
}

/// Whether a field recognises the column called `candidate`.
///
/// A field without exact names and without a pattern answers to its own name.
/// Otherwise an exact name decides first, then the pattern.
pub open spec fn field_matches(field: FieldModel, candidate: Seq<char>) -> bool {
    if field.rule.exact.len() == 0 && field.rule.pattern is None {
        candidate == field.name
    } else if field.rule.exact.contains(candidate) {
        true
    } else {
        match field.rule.pattern {
            Some(source) => pattern_matches(source, candidate),
            None => false,
        }
    }
}

/// A field without exact names and without a pattern recognises the column
/// that bears the field's own name, and no other.
pub proof fn lemma_bare_field_answers_to_its_name(field: FieldModel, candidate: Seq<char>)
    requires
        field.rule.exact.len() == 0,
        field.rule.pattern is None,
    ensures
        field_matches(field, candidate) <==> candidate == field.name,
{
}

/// A field with exact names and without a pattern recognises exactly the
/// columns that bear one of those names, whatever the field itself is called.
pub proof fn lemma_exact_names_decide(field: FieldModel, candidate: Seq<char>)
    requires
        field.rule.exact.len() > 0,
        field.rule.pattern is None,
    ensures
        field_matches(field, candidate) <==> field.rule.exact.contains(candidate),
{
}

/// For a column that bears none of a field's exact names, the field's pattern
/// decides.
pub proof fn lemma_pattern_decides(field: FieldModel, candidate: Seq<char>)
    requires
        field.rule.pattern is Some,
        !field.rule.exact.contains(candidate),
    ensures
        field_matches(field, candidate) <==> pattern_matches(field.rule.pattern->0, candidate),
{
}

/// The matching rule of a field: exact names and an optional compiled pattern.
#[derive(Debug)]
pub struct Alias {
    aliases: Vec<String>,
    regex: Option<Pattern>,
}

impl View for Alias {
    type V = MatchRule;

    open spec fn view(&self) -> MatchRule {
        self.rule()
    }
}

impl Alias {
    /// The rule that these exact names and this pattern make.
    pub closed spec fn rule(&self) -> MatchRule {
        MatchRule { exact: self.aliases.deep_view(), pattern: self.regex.deep_view() }
    }

    /// A rule without exact names and without a pattern.
    pub fn new() -> (alias: Alias)
        ensures
            alias@ == (MatchRule { exact: Seq::empty(), pattern: None }),
    {
        let alias = Alias { aliases: Vec::new(), regex: None };
        assert(alias.aliases.deep_view() =~= Seq::empty());
        alias
    }

    /// Adds an exact name.
    pub fn push_exact(&mut self, alias: String)
        ensures
            final(self)@ == (MatchRule { exact: old(self)@.exact.push(alias@), ..old(self)@ }),
    {
        self.aliases.push(alias);
        assert(self.aliases.deep_view() =~= old(self).aliases.deep_view().push(alias@));
    }

    /// Makes `pattern` the rule's pattern, in place of any earlier one.
    pub fn set_pattern(&mut self, pattern: Pattern)
        ensures
            final(self)@ == (MatchRule { pattern: Some(pattern@), ..old(self)@ }),
    {
        self.regex = Some(pattern);
    }
}

/// One field of a schema.
#[derive(Debug)]
pub struct SchemaField {
    pub name: String,
    pub alias: Alias,
    pub header: bool,
    pub field_type: SchemaFieldType,
    pub properties: Vec<SchemaField>,
}

/// A schema: its fields in declaration order.
pub type Schema = Vec<SchemaField>;

/// What a field stands for.
pub open spec fn field_model(field: SchemaField) -> FieldModel
    decreases field,
{
    FieldModel {
        name: field.name@,
        rule: field.alias@,
        header: field.header,
        kind: field.field_type,
        properties: Seq::new(
            field.properties@.len(),
            |i: int|
                if 0 <= i < field.properties@.len() {
                    field_model(field.properties@[i])
                } else {
                    blank_field()
                },
        ),
    }
}

impl View for SchemaField {
    type V = FieldModel;

    open spec fn view(&self) -> FieldModel {
        field_model(*self)
    }
}

impl DeepView for SchemaField {
    type V = FieldModel;

    open spec fn deep_view(&self) -> FieldModel {
        self@
    }
}

/// A field's nested properties stand for the sequence of what each stands for.
pub proof fn lemma_properties_view(field: SchemaField)
    ensures
        field@.properties == field.properties.deep_view(),
{
    assert(field@.properties =~= field.properties.deep_view());
}

impl SchemaField {
    /// A string field without a name, without a matching rule of its own, that
    /// takes its value from the cell.
    pub fn new() -> (field: SchemaField)
        ensures
            field@ == blank_field(),
    {
        let field = SchemaField {
            name: String::new(),
            alias: Alias::new(),
            header: false,
            field_type: SchemaFieldType::String,
            properties: Vec::new(),
        };
        assert(field@.properties =~= Seq::empty());
        field
    }

    /// Adds an exact column name that the field answers to.
    pub fn add_alias(&mut self, alias: String)
        ensures
            final(self)@ == (FieldModel {
                rule: MatchRule { exact: old(self)@.rule.exact.push(alias@), ..old(self)@.rule },
                ..old(self)@
            }),
    {
        self.alias.push_exact(alias);
    }

    /// Compiles `regex` and makes it the field's pattern. A text that does not
    /// compile is refused and leaves the field as it was.
    pub fn add_alias_regex(&mut self, regex: String) -> (done: Result<(), SchemaError>)
        ensures
            done is Ok <==> pattern_compiles(regex@),
            done is Ok ==> final(self)@ == (FieldModel {
                rule: MatchRule { pattern: Some(regex@), ..old(self)@.rule },
                ..old(self)@
            }),
            done matches Err(error) ==> error == SchemaError::InvalidPattern && *final(self)
                == *old(self),
    {
        match Pattern::new(regex.as_str()) {
            Ok(pattern) => {
                self.alias.set_pattern(pattern);
                Ok(())
            },
            Err(error) => Err(error),
        }
    }

    /// Whether the field recognises the column called `other`.
    pub fn match_alias(&self, other: String) -> (hit: bool)
        ensures
            hit == field_matches(self@, other@),
    {
        if self.alias.aliases.is_empty() && self.alias.regex.is_none() {
            return self.name == other;
        }
        let mut i: usize = 0;
        while i < self.alias.aliases.len()
            invariant
                i <= self.alias.aliases@.len(),
                forall|j: int| 0 <= j < i ==> self@.rule.exact[j] != other@,
            decreases self.alias.aliases@.len() - i,
        {
            if self.alias.aliases[i] == other {
                assert(self@.rule.exact[i as int] == other@);
                return true;
            }
            i += 1;
        }
        match &self.alias.regex {
            Some(pattern) => search(pattern, other.as_str()),
            None => false,
        }
    }
}

/// The exact names that a descriptor gives: its `alias`, if that is a string.
pub open spec fn exact_of(entries: Seq<(Seq<char>, JsonModel)>) -> Seq<Seq<char>> {
    match text_at(entries, "alias"@) {
        Some(alias) => seq![alias],
        None => Seq::empty(),
    }
}

/// Whether a descriptor asks for the column's name in place of the cell: its
/// `header`, if that is a boolean, else no.
pub open spec fn header_of(entries: Seq<(Seq<char>, JsonModel)>) -> bool {
    match flag_at(entries, "header"@) {
        Some(flag) => flag,
        None => false,
    }
}

/// The kind that a descriptor declares: its `type`, if that is one of the four
/// tags, else a string.
pub open spec fn kind_of(entries: Seq<(Seq<char>, JsonModel)>) -> SchemaFieldType {
    match text_at(entries, "type"@) {
        Some(tag) => match kind_of_tag(tag) {
            Some(kind) => kind,
            None => SchemaFieldType::String,
        },
        None => SchemaFieldType::String,
    }
}

/// The nested descriptors that count: the members of `properties`, if that is
/// an object and the descriptor declares an array.
pub open spec fn nested_of(entries: Seq<(Seq<char>, JsonModel)>) -> Option<
    Seq<(Seq<char>, JsonModel)>,
> {
    if kind_of(entries) == SchemaFieldType::Array {
        object_at(entries, "properties"@)
    } else {
        None
    }
}

/// The field that a descriptor describes, still without a name.
///
/// A descriptor that is no object is malformed. A `regex` that does not compile
/// is an invalid pattern. Nested descriptors are read in order, and the first
/// that fails decides. Keys other than `alias`, `header`, `regex`, `type` and
/// `properties` are not looked at.
pub open spec fn parsed_field(descriptor: JsonModel) -> Result<FieldModel, SchemaError>
    decreases descriptor, 0nat,
{
    match descriptor {
        JsonModel::Object(entries) => {
            let pattern = text_at(entries, "regex"@);
            if pattern is Some && !pattern_compiles(pattern->0) {
                Err(SchemaError::InvalidPattern)
            } else {
                let properties = match nested_of(entries) {
                    Some(inner) => {
                        proof {
                            lemma_stored_object_is_smaller(entries, "properties"@);
                        }
                        parsed_fields(inner, inner.len())
                    },
                    None => Ok(Seq::empty()),
                };
                match properties {
                    Ok(properties) => Ok(
                        FieldModel {
                            name: Seq::empty(),
                            rule: MatchRule { exact: exact_of(entries), pattern },
                            header: header_of(entries),
                            kind: kind_of(entries),
                            properties,
                        },
                    ),
                    Err(error) => Err(error),
                }
            }
        },
        _ => Err(SchemaError::MalformedField),
    }
}

/// The fields that the first `n` members of an object describe, each named by
/// its key, or the error of the first member that fails.
pub open spec fn parsed_fields(entries: Seq<(Seq<char>, JsonModel)>, n: nat) -> Result<
    Seq<FieldModel>,
    SchemaError,
>
    decreases entries, n,
{
    if n == 0 || n > entries.len() {
        Ok(Seq::empty())
    } else {
        match parsed_fields(entries, (n - 1) as nat) {
            Ok(fields) => match parsed_field(entries[n - 1].1) {
                Ok(field) => Ok(fields.push(FieldModel { name: entries[n - 1].0, ..field })),
                Err(error) => Err(error),
            },
            Err(error) => Err(error),
        }
    }
}

/// The schema that a configuration object describes.
pub open spec fn parsed_schema(entries: Seq<(Seq<char>, JsonModel)>) -> Result<
    Seq<FieldModel>,
    SchemaError,
> {
    parsed_fields(entries, entries.len())
}

/// An object that is stored in another is a smaller value than that other.
pub proof fn lemma_stored_object_is_smaller(entries: Seq<(Seq<char>, JsonModel)>, key: Seq<char>)
    ensures
        object_at(entries, key) matches Some(inner) ==> decreases_to!(entries => inner),
{
    if object_at(entries, key) is Some {
        let at = key_index(entries, key);
        assert(is_first_at(entries, key, at));
        assert(decreases_to!(entries => entries[at]));
        assert(decreases_to!(entries[at] => entries[at].1));
    }
}

/// Reads one field descriptor. The field comes back without a name: the caller
/// names it by the key under which the descriptor stood.
pub fn parse_schema_field(json: &JsonValue) -> (parsed: Result<SchemaField, SchemaError>)
    ensures
        match parsed {
            Ok(field) => parsed_field(json@) == Ok::<FieldModel, SchemaError>(field@),
            Err(error) => parsed_field(json@) == Err::<FieldModel, SchemaError>(error),
        },
        parsed matches Ok(field) ==> well_formed(field@),
    decreases json@, 0nat,
{
    proof {
        lemma_parsed_field_is_well_formed(json@);
    }
    let object = match parse_object(json) {
        Some(object) => object,
        None => {
            return Err(SchemaError::MalformedField);
        },
    };
    let mut schema_field = SchemaField::new();

    match object.get_string("alias") {
        Some(alias) => schema_field.add_alias(alias),
        None => {},
    }

    schema_field.header = match object.get_bool("header") {
        Some(flag) => flag,
        None => false,
    };

    match object.get_string("regex") {
        Some(regex_str) => {
            match schema_field.add_alias_regex(regex_str) {
                Ok(()) => {},
                Err(error) => {
                    return Err(error);
                },
            }
        },
        None => {},
    }

    match object.get_string("type") {
        Some(field_type) => match SchemaFieldType::from_string(field_type.as_str()) {
            Some(schema_field_type) => schema_field.field_type = schema_field_type,
            None => {},
        },
        None => {},
    }

    if schema_field.field_type == SchemaFieldType::Array {
        match object.get_object("properties") {
            Some(object_properties) => {
                proof {
                    lemma_stored_object_is_smaller(object@, "properties"@);
                }
                match parse_schema(object_properties) {
                    Ok(properties) => {
                        schema_field.properties = properties;
                    },
                    Err(error) => {
                        return Err(error);
                    },
                }
            },
            None => {},
        }
    }
    proof {
        lemma_properties_view(schema_field);
        assert(schema_field@.rule.exact =~= exact_of(object@));
    }
    Ok(schema_field)
}

/// Reads a schema: one field for each member of the object, in order, named
/// by the member's key.
pub fn parse_schema(json: &JsonObject) -> (parsed: Result<Schema, SchemaError>)
    ensures
        match parsed {
            Ok(schema) => parsed_schema(json@) == Ok::<Seq<FieldModel>, SchemaError>(
                schema.deep_view(),
            ),
            Err(error) => parsed_schema(json@) == Err::<Seq<FieldModel>, SchemaError>(error),
        },
        parsed matches Ok(schema) ==> forall|i: int|
            0 <= i < schema@.len() ==> well_formed(#[trigger] schema.deep_view()[i]),
    decreases json@, 1nat,
{
    let entries = json.get_entries();
    let mut schema: Vec<SchemaField> = Vec::new();
    let mut i: usize = 0;
    assert(schema.deep_view() =~= Seq::empty());
    while i < entries.len()
        invariant
            entries.deep_view() == json@,
            i <= entries@.len(),
            parsed_fields(json@, i as nat) == Ok::<Seq<FieldModel>, SchemaError>(
                schema.deep_view(),
            ),
        decreases entries@.len() - i,
    {
        assert(json@[i as int] == (entries@[i as int].0@, entries@[i as int].1@));
        assert(decreases_to!(json@ => json@[i as int]));
        assert(decreases_to!(json@[i as int] => json@[i as int].1));
        match parse_schema_field(&entries[i].1) {
            Ok(field) => {
                let mut field = field;
                field.name = entries[i].0.clone();
                proof {
                    lemma_properties_view(field);
                }
                let ghost before = schema.deep_view();
                schema.push(field);
                assert(schema.deep_view() =~= before.push(field@));
            },
            Err(error) => {
                proof {
                    lemma_first_failure_decides(json@, (i + 1) as nat, json@.len());
                }
                return Err(error);
            },
        }
        i += 1;
    }
    proof {
        assert(entries.deep_view().len() == entries@.len());
        lemma_parsed_fields_are_well_formed(json@, json@.len());
        assert(parsed_fields(json@, json@.len())->Ok_0 == schema.deep_view());
    }
    Ok(schema)
}

/// Once a member has failed, reading further members changes nothing.
pub proof fn lemma_first_failure_decides(
    entries: Seq<(Seq<char>, JsonModel)>,
    n: nat,
    m: nat,
)
    requires
        n <= m <= entries.len(),
        parsed_fields(entries, n) is Err,
    ensures
        parsed_fields(entries, m) == parsed_fields(entries, n),
    decreases m,
{
    if n < m {
        lemma_first_failure_decides(entries, n, (m - 1) as nat);
    }
}

/// A field has properties only if it is an array, and so has each of its
/// properties, at every depth.
pub open spec fn well_formed(field: FieldModel) -> bool
    decreases field,
{
    &&& field.kind != SchemaFieldType::Array ==> field.properties.len() == 0
    &&& forall|i: int|
        0 <= i < field.properties.len() ==> well_formed(#[trigger] field.properties[i])
}

/// Every field that a descriptor gives is well formed.
pub proof fn lemma_parsed_field_is_well_formed(descriptor: JsonModel)
    ensures
        parsed_field(descriptor) matches Ok(field) ==> well_formed(field),
    decreases descriptor, 0nat,
{
    if let JsonModel::Object(entries) = descriptor {
        if let Some(inner) = nested_of(entries) {
            lemma_stored_object_is_smaller(entries, "properties"@);
            lemma_parsed_fields_are_well_formed(inner, inner.len());
        }
    }
}

/// Every field that the members of an object give is well formed.
pub proof fn lemma_parsed_fields_are_well_formed(entries: Seq<(Seq<char>, JsonModel)>, n: nat)
    ensures
        parsed_fields(entries, n) matches Ok(fields) ==> forall|i: int|
            0 <= i < fields.len() ==> well_formed(#[trigger] fields[i]),
    decreases entries, n,
{
    if n != 0 && n <= entries.len() {
        lemma_parsed_fields_are_well_formed(entries, (n - 1) as nat);
        lemma_parsed_field_is_well_formed(entries[n - 1].1);
        if let Ok(fields) = parsed_fields(entries, n) {
            let before = parsed_fields(entries, (n - 1) as nat)->Ok_0;
            let field = parsed_field(entries[n - 1].1)->Ok_0;
            let named = FieldModel { name: entries[n - 1].0, ..field };
            assert(well_formed(named)) by {
                assert(named.properties == field.properties);
            }
            assert forall|i: int| 0 <= i < fields.len() implies well_formed(
                #[trigger] fields[i],
            ) by {
                if i < before.len() {
                    assert(fields[i] == before[i]);
                } else {
                    assert(fields[i] == named);
                }
            }
        }
    }
}

} // verus!
