use vstd::prelude::*;

verus! {

/// A JSON value as mathematics: what a [`JsonValue`] stands for.
///
/// An object is the sequence of its members in the order in which their keys
/// first arrived.
pub enum JsonModel {
    Null,
    Bool(bool),
    Number(Seq<char>),
    String(Seq<char>),
    Array(Seq<JsonModel>),
    Object(Seq<(Seq<char>, JsonModel)>),
}

/// `key` occurs at position `i` and nowhere before it.
pub open spec fn is_first_at(
    entries: Seq<(Seq<char>, JsonModel)>,
    key: Seq<char>,
    i: int,
) -> bool {
    &&& 0 <= i < entries.len()
    &&& entries[i].0 == key
    &&& forall|j: int| 0 <= j < i ==> (#[trigger] entries[j]).0 != key
}

/// Some member has this key.
pub open spec fn has_key(entries: Seq<(Seq<char>, JsonModel)>, key: Seq<char>) -> bool {
    exists|i: int| is_first_at(entries, key, i)
}

/// The position of the first member with this key (meaningful when there is one).
pub open spec fn key_index(entries: Seq<(Seq<char>, JsonModel)>, key: Seq<char>) -> int {
    choose|i: int| is_first_at(entries, key, i)
}

/// The value stored under `key`, if any.
pub open spec fn lookup(entries: Seq<(Seq<char>, JsonModel)>, key: Seq<char>) -> Option<
    JsonModel,
> {
    if has_key(entries, key) {
        Some(entries[key_index(entries, key)].1)
    } else {
        None
    }
}

/// The object after `key` has been set to `value`: a key that is already
/// there keeps its place and gets the new value, a new key goes to the end.
pub open spec fn put(
    entries: Seq<(Seq<char>, JsonModel)>,
    key: Seq<char>,
    value: JsonModel,
) -> Seq<(Seq<char>, JsonModel)> {
    if has_key(entries, key) {
        entries.update(key_index(entries, key), (key, value))
    } else {
        entries.push((key, value))
    }
}

/// No key occurs twice.
pub open spec fn distinct_keys(entries: Seq<(Seq<char>, JsonModel)>) -> bool {
    forall|i: int, j: int|
        0 <= i < j < entries.len() ==> (#[trigger] entries[i]).0 != (#[trigger] entries[j]).0
}

/// The string stored under `key`, if a string is stored there.
pub open spec fn text_at(entries: Seq<(Seq<char>, JsonModel)>, key: Seq<char>) -> Option<
    Seq<char>,
> {
    match lookup(entries, key) {
        Some(JsonModel::String(text)) => Some(text),
        _ => None,
    }
}

/// The boolean stored under `key`, if a boolean is stored there.
pub open spec fn flag_at(entries: Seq<(Seq<char>, JsonModel)>, key: Seq<char>) -> Option<bool> {
    match lookup(entries, key) {
        Some(JsonModel::Bool(flag)) => Some(flag),
        _ => None,
    }
}

/// The members of the object stored under `key`, if an object is stored there.
pub open spec fn object_at(entries: Seq<(Seq<char>, JsonModel)>, key: Seq<char>) -> Option<
    Seq<(Seq<char>, JsonModel)>,
> {
    match lookup(entries, key) {
        Some(JsonModel::Object(inner)) => Some(inner),
        _ => None,
    }
}

/// The members of the object stored under `key`; none if no object is stored
/// there.
pub open spec fn members_at(entries: Seq<(Seq<char>, JsonModel)>, key: Seq<char>) -> Seq<
    (Seq<char>, JsonModel),
> {
    match object_at(entries, key) {
        Some(inner) => inner,
        None => Seq::empty(),
    }
}

/// The object after `key` has been set to `value` inside the object stored
/// under `outer`. Where `outer` holds no object yet, it gets one with that
/// single member.
pub open spec fn put_under(
    entries: Seq<(Seq<char>, JsonModel)>,
    outer: Seq<char>,
    key: Seq<char>,
    value: JsonModel,
) -> Seq<(Seq<char>, JsonModel)> {
    put(entries, outer, JsonModel::Object(put(members_at(entries, outer), key, value)))
}

/// The values of the members, in order.
pub open spec fn values_of(entries: Seq<(Seq<char>, JsonModel)>) -> Seq<JsonModel> {
    Seq::new(entries.len(), |i: int| entries[i].1)
}

/// A key has at most one first position.
pub proof fn lemma_first_is_unique(
    entries: Seq<(Seq<char>, JsonModel)>,
    key: Seq<char>,
    i: int,
    j: int,
)
    requires
        is_first_at(entries, key, i),
        is_first_at(entries, key, j),
    ensures
        i == j,
{
    if i < j {
        assert(entries[i].0 != key);
    } else if j < i {
        assert(entries[j].0 != key);
    }
}

/// Where a key first occurs is where `key_index` points.
pub proof fn lemma_key_index(entries: Seq<(Seq<char>, JsonModel)>, key: Seq<char>, i: int)
    requires
        is_first_at(entries, key, i),
    ensures
        has_key(entries, key),
        key_index(entries, key) == i,
{
    lemma_first_is_unique(entries, key, i, key_index(entries, key));
}

/// A key that occurs anywhere has a first position.
pub proof fn lemma_occurrence_has_first(
    entries: Seq<(Seq<char>, JsonModel)>,
    key: Seq<char>,
    i: int,
)
    requires
        0 <= i < entries.len(),
        entries[i].0 == key,
    ensures
        has_key(entries, key),
        0 <= key_index(entries, key) <= i,
    decreases i,
{
    if forall|j: int| 0 <= j < i ==> (#[trigger] entries[j]).0 != key {
        lemma_key_index(entries, key, i);
    } else {
        let j = choose|j: int| 0 <= j < i && (#[trigger] entries[j]).0 == key;
        lemma_occurrence_has_first(entries, key, j);
    }
}

/// After a key has been set, it is there with its new value, and every other
/// key is as it was.
pub proof fn lemma_put_lookup(
    entries: Seq<(Seq<char>, JsonModel)>,
    key: Seq<char>,
    value: JsonModel,
)
    ensures
        has_key(put(entries, key, value), key),
        lookup(put(entries, key, value), key) == Some(value),
        forall|other: Seq<char>|
            other != key ==> lookup(put(entries, key, value), other) == lookup(entries, other),
        forall|other: Seq<char>|
            other != key ==> (has_key(put(entries, key, value), other) <==> has_key(
                entries,
                other,
            )),
{
    let after = put(entries, key, value);
    if has_key(entries, key) {
        let at = key_index(entries, key);
        assert(is_first_at(after, key, at));
        lemma_key_index(after, key, at);
    } else {
        let at = entries.len() as int;
        assert(is_first_at(after, key, at)) by {
            assert forall|j: int| 0 <= j < at implies (#[trigger] after[j]).0 != key by {
                if entries[j].0 == key {
                    lemma_occurrence_has_first(entries, key, j);
                }
            }
        }
        lemma_key_index(after, key, at);
    }
    assert forall|other: Seq<char>| other != key implies lookup(after, other) == lookup(
        entries,
        other,
    ) && (has_key(after, other) <==> has_key(entries, other)) by {
        if has_key(entries, other) {
            let i = key_index(entries, other);
            assert(is_first_at(after, other, i));
            lemma_key_index(after, other, i);
        }
        if has_key(after, other) {
            let i = key_index(after, other);
            assert(is_first_at(entries, other, i)) by {
                assert forall|j: int| 0 <= j < i implies (#[trigger] entries[j]).0 != other by {
                    assert(after[j].0 != other);
                }
            }
            lemma_key_index(entries, other, i);
        }
    }
}

/// Setting a key keeps the keys distinct.
pub proof fn lemma_put_keeps_distinct(
    entries: Seq<(Seq<char>, JsonModel)>,
    key: Seq<char>,
    value: JsonModel,
)
    requires
        distinct_keys(entries),
    ensures
        distinct_keys(put(entries, key, value)),
{
    let after = put(entries, key, value);
    if !has_key(entries, key) {
        assert forall|i: int, j: int| 0 <= i < j < after.len() implies (#[trigger] after[i]).0
            != (#[trigger] after[j]).0 by {
            if j == entries.len() && entries[i].0 == key {
                lemma_occurrence_has_first(entries, key, i);
            }
        }
    }
}

/// A JSON value.
///
/// A number is kept as the text of its literal; nothing here computes with it.
#[derive(Debug, PartialEq, Eq)]
pub enum JsonValue {
    Null,
    Bool(bool),
    Number(String),
    String(String),
    Array(Vec<JsonValue>),
    Object(JsonObject),
}

/// A JSON object: members in the order in which their keys first arrived, no
/// key twice.
#[derive(Debug, PartialEq, Eq)]
pub struct JsonObject {
    inner: Vec<(String, JsonValue)>,
}

/// What a value stands for.
pub open spec fn value_model(value: JsonValue) -> JsonModel
    decreases value,
{
    match value {
        JsonValue::Null => JsonModel::Null,
        JsonValue::Bool(flag) => JsonModel::Bool(flag),
        JsonValue::Number(literal) => JsonModel::Number(literal@),
        JsonValue::String(text) => JsonModel::String(text@),
        JsonValue::Array(items) => JsonModel::Array(
            Seq::new(
                items@.len(),
                |i: int|
                    if 0 <= i < items@.len() {
                        value_model(items@[i])
                    } else {
                        JsonModel::Null
                    },
            ),
        ),
        JsonValue::Object(object) => JsonModel::Object(object_model(object)),
    }
}

/// The members that an object stands for.
pub closed spec fn object_model(object: JsonObject) -> Seq<(Seq<char>, JsonModel)>
    decreases object,
{
    Seq::new(
        object.inner@.len(),
        |i: int|
            if 0 <= i < object.inner@.len() {
                (object.inner@[i].0@, value_model(object.inner@[i].1))
            } else {
                (Seq::empty(), JsonModel::Null)
            },
    )
}

impl View for JsonValue {
    type V = JsonModel;

    open spec fn view(&self) -> JsonModel {
        value_model(*self)
    }
}

impl DeepView for JsonValue {
    type V = JsonModel;

    open spec fn deep_view(&self) -> JsonModel {
        self@
    }
}

impl View for JsonObject {
    type V = Seq<(Seq<char>, JsonModel)>;

    open spec fn view(&self) -> Seq<(Seq<char>, JsonModel)> {
        object_model(*self)
    }
}

impl DeepView for JsonObject {
    type V = Seq<(Seq<char>, JsonModel)>;

    open spec fn deep_view(&self) -> Seq<(Seq<char>, JsonModel)> {
        self@
    }
}

/// An array value stands for the sequence of what its items stand for.
pub proof fn lemma_array_view(items: Vec<JsonValue>)
    ensures
        JsonValue::Array(items)@ == JsonModel::Array(items.deep_view()),
{
    assert(JsonValue::Array(items)@->Array_0 =~= items.deep_view());
}

impl JsonObject {
    /// An object without members.
    pub fn new() -> (object: JsonObject)
        ensures
            object@ == Seq::<(Seq<char>, JsonModel)>::empty(),
    {
        let object = JsonObject { inner: Vec::new() };
        assert(object@ =~= Seq::empty());
        object
    }

    /// The first position that holds `key`.
    fn find(&self, key: &str) -> (at: Option<usize>)
        ensures
            match at {
                Some(i) => i < self.inner@.len() && is_first_at(self@, key@, i as int),
                None => !has_key(self@, key@),
            },
    {
        let mut i: usize = 0;
        while i < self.inner.len()
            invariant
                i <= self.inner@.len(),
                forall|j: int| 0 <= j < i ==> (#[trigger] self@[j]).0 != key@,
            decreases self.inner@.len() - i,
        {
            if self.inner[i].0.as_str().eq(key) {
                return Some(i);
            }
            i += 1;
        }
        None
    }

    /// Sets `key` to `value`. A key that is already there keeps its place.
    pub fn insert(&mut self, key: String, value: JsonValue)
        ensures
            final(self)@ == put(old(self)@, key@, value@),
            distinct_keys(old(self)@) ==> distinct_keys(final(self)@),
    {
        proof {
            if distinct_keys(self@) {
                lemma_put_keeps_distinct(self@, key@, value@);
            }
        }
        match self.find(key.as_str()) {
            Some(i) => {
                proof {
                    lemma_key_index(self@, key@, i as int);
                }
                self.inner[i].1 = value;
                assert(self@ =~= put(old(self)@, key@, value@));
            },
            None => {
                self.inner.push((key, value));
                assert(self@ =~= put(old(self)@, key@, value@));
            },
        }
    }

    /// Sets `key` to `value` inside the object stored under `outer`. Where
    /// `outer` holds no object yet, it gets one with that single member.
    pub fn insert_under(&mut self, outer: String, key: String, value: JsonValue)
        ensures
            final(self)@ == put_under(old(self)@, outer@, key@, value@),
            distinct_keys(old(self)@) ==> distinct_keys(final(self)@),
    {
        proof {
            if distinct_keys(self@) {
                lemma_put_keeps_distinct(
                    self@,
                    outer@,
                    JsonModel::Object(put(members_at(self@, outer@), key@, value@)),
                );
            }
        }
        match self.find(outer.as_str()) {
            Some(i) => {
                proof {
                    lemma_key_index(self@, outer@, i as int);
                }
                match &mut self.inner[i].1 {
                    JsonValue::Object(members) => {
                        members.insert(key, value);
                    },
                    other => {
                        let mut members = JsonObject::new();
                        members.insert(key, value);
                        *other = JsonValue::Object(members);
                    },
                }
                assert(self@ =~= put_under(old(self)@, outer@, key@, value@));
            },
            None => {
                let mut members = JsonObject::new();
                members.insert(key, value);
                self.inner.push((outer, JsonValue::Object(members)));
                assert(self@ =~= put_under(old(self)@, outer@, key@, value@));
            },
        }
    }

    /// The values of the members, in order; the keys are dropped.
    pub fn into_values(self) -> (values: Vec<JsonValue>)
        ensures
            values.deep_view() == values_of(self@),
    {
        let ghost whole = self@;
        let mut entries = self.inner;
        let mut reversed: Vec<JsonValue> = Vec::new();
        while entries.len() > 0
            invariant
                entries@.len() + reversed@.len() == whole.len(),
                forall|i: int|
                    0 <= i < entries@.len() ==> whole[i] == (
                        (#[trigger] entries@[i]).0@,
                        entries@[i].1@,
                    ),
                forall|i: int|
                    0 <= i < reversed@.len() ==> (#[trigger] reversed@[i])@ == whole[whole.len()
                        - 1 - i].1,
            decreases entries@.len(),
        {
            match entries.pop() {
                Some(entry) => reversed.push(entry.1),
                None => {},
            }
        }
        let mut values: Vec<JsonValue> = Vec::new();
        while reversed.len() > 0
            invariant
                values@.len() + reversed@.len() == whole.len(),
                forall|i: int|
                    0 <= i < reversed@.len() ==> (#[trigger] reversed@[i])@ == whole[whole.len()
                        - 1 - i].1,
                forall|i: int| 0 <= i < values@.len() ==> (#[trigger] values@[i])@ == whole[i].1,
            decreases reversed@.len(),
        {
            match reversed.pop() {
                Some(value) => values.push(value),
                None => {},
            }
        }
        assert(values.deep_view() =~= values_of(whole));
        values
    }

    /// The value stored under `key`.
    pub fn get(&self, key: &str) -> (found: Option<&JsonValue>)
        ensures
            match found {
                Some(value) => lookup(self@, key@) == Some(value@),
                None => lookup(self@, key@) is None,
            },
    {
        match self.find(key) {
            Some(i) => {
                proof {
                    lemma_key_index(self@, key@, i as int);
                }
                Some(&self.inner[i].1)
            },
            None => None,
        }
    }

    /// The members, in order.
    pub fn inner(&self) -> (entries: &Vec<(String, JsonValue)>)
        ensures
            entries.deep_view() == self@,
    {
        proof {
            assert(self.inner.deep_view() =~= self@);
        }
        &self.inner
    }

    /// The string stored under `key`, if a string is stored there.
    pub fn get_string(&self, key: &str) -> (text: Option<String>)
        ensures
            text.deep_view() == text_at(self@, key@),
    {
        match self.get(key) {
            Some(value) => parse_string(value),
            None => None,
        }
    }

    /// The object stored under `key`, if an object is stored there.
    pub fn get_object(&self, key: &str) -> (object: Option<&JsonObject>)
        ensures
            object.deep_view() == object_at(self@, key@),
    {
        match self.get(key) {
            Some(value) => parse_object(value),
            None => None,
        }
    }

    /// The members, in order.
    pub fn get_entries(&self) -> (entries: &Vec<(String, JsonValue)>)
        ensures
            entries.deep_view() == self@,
    {
        self.inner()
    }

    /// The boolean stored under `key`, if a boolean is stored there.
    pub fn get_bool(&self, key: &str) -> (flag: Option<bool>)
        ensures
            flag == flag_at(self@, key@),
    {
        match self.get(key) {
            Some(value) => match value {
                JsonValue::Bool(flag) => Some(*flag),
                _ => None,
            },
            None => None,
        }
    }
}

/// The text of a string value; `None` for any other value.
pub fn parse_string(value: &JsonValue) -> (text: Option<String>)
    ensures
        text.deep_view() == (match value@ {
            JsonModel::String(characters) => Some(characters),
            _ => None,
        }),
{
    match value {
        JsonValue::String(text) => Some(text.clone()),
        _ => None,
    }
}

/// The object that an object value holds; `None` for any other value.
pub fn parse_object(value: &JsonValue) -> (object: Option<&JsonObject>)
    ensures
        object.deep_view() == (match value@ {
            JsonModel::Object(entries) => Some(entries),
            _ => None,
        }),
{
    match value {
        JsonValue::Object(object) => Some(object),
        _ => None,
    }
}

} // verus!
