//! JSON values as plain data, and the exchange of them with `serde_json`,
//! which reads and writes JSON text.
use crate::text::{decimal, signed_decimal};
use serde_json::{Number, Value};
use vstd::prelude::*;

verus! {

// ---------------------------------------------------------------------------
// The mathematical model.
// ---------------------------------------------------------------------------

/// A JSON number: a whole number that fits 64 bits, or anything else by the
/// text it is written as.
#[verifier::ext_equal]
pub enum NumberView {
    Unsigned(u64),
    Negative(i64),
    Float(Seq<char>),
}

/// A JSON value. An object is a map: the order of its fields carries no
/// meaning.
#[verifier::ext_equal]
pub enum JsonView {
    Null,
    Bool(bool),
    Number(NumberView),
    Text(Seq<char>),
    Array(Seq<JsonView>),
    Object(Map<Seq<char>, JsonView>),
}

impl JsonView {
    /// The field `key` of an object; nothing for any other value.
    pub open spec fn field(self, key: Seq<char>) -> Option<JsonView> {
        match self {
            JsonView::Object(fields) => if fields.contains_key(key) {
                Some(fields[key])
            } else {
                None
            },
            _ => None,
        }
    }

    /// The text of a string value.
    pub open spec fn as_text(self) -> Option<Seq<char>> {
        match self {
            JsonView::Text(text) => Some(text),
            _ => None,
        }
    }

    /// The value of a number that is a whole number between zero and
    /// `u64::MAX`.
    pub open spec fn as_unsigned(self) -> Option<u64> {
        match self {
            JsonView::Number(NumberView::Unsigned(n)) => Some(n),
            _ => None,
        }
    }

    /// The items of an array.
    pub open spec fn as_items(self) -> Option<Seq<JsonView>> {
        match self {
            JsonView::Array(items) => Some(items),
            _ => None,
        }
    }

    /// The text of the field `key`, where that field is a string.
    pub open spec fn text_field(self, key: Seq<char>) -> Option<Seq<char>> {
        match self.field(key) {
            Some(value) => value.as_text(),
            None => None,
        }
    }

    /// The number in the field `key`, where that field is a whole number
    /// between zero and `u64::MAX`.
    pub open spec fn unsigned_field(self, key: Seq<char>) -> Option<u64> {
        match self.field(key) {
            Some(value) => value.as_unsigned(),
            None => None,
        }
    }

    /// An object with `key` set to `value`; any other value as it is.
    pub open spec fn with_field(self, key: Seq<char>, value: JsonView) -> JsonView {
        match self {
            JsonView::Object(fields) => JsonView::Object(fields.insert(key, value)),
            other => other,
        }
    }
}

// ---------------------------------------------------------------------------
// The value.
// ---------------------------------------------------------------------------

/// A JSON value. Where an object names a field more than once, the last one
/// counts.
#[derive(Debug)]
pub enum Json {
    Null,
    Bool(bool),
    Number(Number),
    Text(String),
    Array(Vec<Json>),
    Object(Vec<(String, Json)>),
}

/// The views of a sequence of values.
pub open spec fn array_view(items: Seq<Json>) -> Seq<JsonView>
    decreases items,
{
    Seq::new(
        items.len(),
        |i: int|
            if 0 <= i < items.len() {
                items[i].view()
            } else {
                arbitrary()
            },
    )
}

/// The map that a sequence of fields stands for: a later field takes the place
/// of an earlier one of the same name.
pub open spec fn object_view(fields: Seq<(String, Json)>) -> Map<Seq<char>, JsonView>
    decreases fields,
{
    if fields.len() == 0 {
        Map::empty()
    } else {
        object_view(fields.drop_last()).insert(fields.last().0@, fields.last().1.view())
    }
}

impl Json {
    pub open spec fn view(&self) -> JsonView
        decreases self,
    {
        match self {
            Json::Null => JsonView::Null,
            Json::Bool(flag) => JsonView::Bool(*flag),
            Json::Number(number) => JsonView::Number(number_view(*number)),
            Json::Text(text) => JsonView::Text(text@),
            Json::Array(items) => JsonView::Array(array_view(items@)),
            Json::Object(fields) => JsonView::Object(object_view(fields@)),
        }
    }
}

// ---------------------------------------------------------------------------
// What `serde_json` does.
// ---------------------------------------------------------------------------

/// The number type of `serde_json`.
#[verifier::external_type_specification]
#[verifier::external_body]
pub struct ExNumber(serde_json::Number);

/// The value type of `serde_json`.
#[verifier::external_type_specification]
#[verifier::external_body]
pub struct ExValue(serde_json::Value);

/// What a `serde_json` number holds.
pub uninterp spec fn number_view(number: Number) -> NumberView;

/// What a `serde_json` value holds.
pub uninterp spec fn value_view(value: Value) -> JsonView;

/// What `serde_json::from_str` makes of a text: the value that it reads, or
/// its message on why the text is no JSON.
pub uninterp spec fn json_parse(text: Seq<char>) -> Result<JsonView, Seq<char>>;

/// The compact text that `serde_json` writes for a value other than a whole
/// number.
pub uninterp spec fn value_text(value: JsonView) -> Seq<char>;

/// The compact JSON text of a value: a whole number in decimal, and anything
/// else as `serde_json` writes it.
pub open spec fn json_text(value: JsonView) -> Seq<char> {
    match value {
        JsonView::Number(NumberView::Unsigned(n)) => decimal(n as nat),
        JsonView::Number(NumberView::Negative(i)) => signed_decimal(i as int),
        other => value_text(other),
    }
}

/// The indented text that `serde_json` writes for a value, if it writes one.
pub uninterp spec fn json_pretty(value: JsonView) -> Option<Seq<char>>;

/// One layer of a `serde_json` value.
enum Node {
    Null,
    Bool(bool),
    Number(Number),
    Text(String),
    Array(Vec<Value>),
    Object(Vec<(String, Value)>),
}

/// The map that a sequence of named values stands for.
spec fn node_fields(fields: Seq<(String, Value)>) -> Map<Seq<char>, JsonView>
    decreases fields.len(),
{
    if fields.len() == 0 {
        Map::empty()
    } else {
        node_fields(fields.drop_last()).insert(fields.last().0@, value_view(fields.last().1))
    }
}

impl Node {
    spec fn view(&self) -> JsonView {
        match self {
            Node::Null => JsonView::Null,
            Node::Bool(flag) => JsonView::Bool(*flag),
            Node::Number(number) => JsonView::Number(number_view(*number)),
            Node::Text(text) => JsonView::Text(text@),
            Node::Array(items) => JsonView::Array(items@.map_values(|item: Value| value_view(item))),
            Node::Object(fields) => JsonView::Object(node_fields(fields@)),
        }
    }
}

/// No name occurs twice.
spec fn distinct_names(fields: Seq<(String, Value)>) -> bool {
    forall|i: int, j: int| 0 <= i < j < fields.len() ==> fields[i].0@ != fields[j].0@
}

/// `serde_json::from_str` into a `Value`: a function of the text, named by
/// `json_parse`; a failure is given by the text of its error.
#[verifier::external_body]
fn parse_value(text: &str) -> (parsed: Result<Value, String>)
    ensures
        match parsed {
            Ok(value) => json_parse(text@) == Ok::<JsonView, Seq<char>>(value_view(value)),
            Err(message) => json_parse(text@) == Err::<JsonView, Seq<char>>(message@),
        },
{
    match serde_json::from_str::<Value>(text) {
        Ok(value) => Ok(value),
        Err(error) => Err(error.to_string()),
    }
}

/// The variants of `serde_json::Value`, taken apart. An object is handed out
/// as its entries, in which no name occurs twice.
#[verifier::external_body]
fn split_value(value: Value) -> (node: Node)
    ensures
        node@ == value_view(value),
        node matches Node::Object(fields) ==> distinct_names(fields@),
{
    match value {
        Value::Null => Node::Null,
        Value::Bool(flag) => Node::Bool(flag),
        Value::Number(number) => Node::Number(number),
        Value::String(text) => Node::Text(text),
        Value::Array(items) => Node::Array(items),
        Value::Object(fields) => Node::Object(fields.into_iter().collect()),
    }
}

/// The variants of `serde_json::Value`, put together. An object is collected
/// from its entries, in which no name occurs twice.
#[verifier::external_body]
fn join_value(node: Node) -> (value: Value)
    requires
        node matches Node::Object(fields) ==> distinct_names(fields@),
    ensures
        value_view(value) == node@,
{
    match node {
        Node::Null => Value::Null,
        Node::Bool(flag) => Value::Bool(flag),
        Node::Number(number) => Value::Number(number),
        Node::Text(text) => Value::String(text),
        Node::Array(items) => Value::Array(items),
        Node::Object(fields) => Value::Object(fields.into_iter().collect()),
    }
}

/// `Value::to_string`: the compact JSON text. A whole number is written in
/// decimal, and the text of any other value is a function of what it holds,
/// named by `value_text`. (`serde_json` keeps the fields of an object sorted by
/// name, so their order adds nothing.)
#[verifier::external_body]
fn write_value(value: &Value) -> (text: String)
    ensures
        text@ == (match value_view(*value) {
            JsonView::Number(NumberView::Unsigned(n)) => decimal(n as nat),
            JsonView::Number(NumberView::Negative(i)) => signed_decimal(i as int),
            other => value_text(other),
        }),
{
    value.to_string()
}

/// `serde_json::to_string_pretty` on a `Value`: a function of what the value
/// holds, named by `json_pretty`.
#[verifier::external_body]
fn write_value_pretty(value: &Value) -> (text: Option<String>)
    ensures
        match text {
            Some(t) => json_pretty(value_view(*value)) == Some(t@),
            None => json_pretty(value_view(*value)) == None::<Seq<char>>,
        },
{
    serde_json::to_string_pretty(value).ok()
}

/// `Number::from` a `u64`: that whole number.
#[verifier::external_body]
fn number_from_u64(n: u64) -> (number: Number)
    ensures
        number_view(number) == NumberView::Unsigned(n),
{
    Number::from(n)
}

/// `Number::from` an `i64`: that whole number, held as an unsigned one unless
/// it is negative.
#[verifier::external_body]
fn number_from_i64(i: i64) -> (number: Number)
    ensures
        number_view(number) == (if i < 0 {
            NumberView::Negative(i)
        } else {
            NumberView::Unsigned(i as u64)
        }),
{
    Number::from(i)
}

/// `Number::as_u64`: the value of a whole number that is not negative.
#[verifier::external_body]
fn number_as_u64(number: &Number) -> (n: Option<u64>)
    ensures
        n == (match number_view(*number) {
            NumberView::Unsigned(value) => Some(value),
            _ => None::<u64>,
        }),
{
    number.as_u64()
}

/// `Number::clone`: a number that holds the same.
#[verifier::external_body]
fn number_clone(number: &Number) -> (copy: Number)
    ensures
        number_view(copy) == number_view(*number),
{
    number.clone()
}

// ---------------------------------------------------------------------------
// Conversion.
// ---------------------------------------------------------------------------

/// With distinct names, each entry is found in the map under its name.
proof fn lemma_node_field(fields: Seq<(String, Value)>, i: int)
    requires
        distinct_names(fields),
        0 <= i < fields.len(),
    ensures
        node_fields(fields).contains_key(fields[i].0@),
        node_fields(fields)[fields[i].0@] == value_view(fields[i].1),
    decreases fields.len(),
{
    if i < fields.len() - 1 {
        lemma_node_field(fields.drop_last(), i);
        assert(fields[i].0@ != fields[fields.len() - 1].0@);
    }
}

/// The map of a sequence of fields has finitely many names.
proof fn lemma_node_fields_finite(fields: Seq<(String, Value)>)
    ensures
        node_fields(fields).dom().finite(),
    decreases fields.len(),
{
    if fields.len() > 0 {
        lemma_node_fields_finite(fields.drop_last());
    }
}

/// The plain form of a `serde_json` value.
fn json_of(value: Value) -> (json: Json)
    ensures
        json@ == value_view(value),
    decreases value_view(value),
{
    let ghost view = value_view(value);
    match split_value(value) {
        Node::Null => Json::Null,
        Node::Bool(flag) => Json::Bool(flag),
        Node::Number(number) => Json::Number(number),
        Node::Text(text) => Json::Text(text),
        Node::Array(items) => {
            let ghost all = items@;
            let mut done: Vec<Json> = Vec::new();
            for item in it: items
                invariant
                    it.seq() == all,
                    view == value_view(value),
                    view == JsonView::Array(all.map_values(|item: Value| value_view(item))),
                    done@.len() == it.index(),
                    forall|k: int|
                        0 <= k < done@.len() ==> (#[trigger] done@[k])@ == value_view(all[k]),
            {
                proof {
                    let i = it.index() as int;
                    assert(decreases_to!(view => view->Array_0));
                    assert(view->Array_0[i] == value_view(item));
                    assert(decreases_to!(view->Array_0 => view->Array_0[i]));
                }
                done.push(json_of(item));
            }
            assert(array_view(done@) =~= all.map_values(|item: Value| value_view(item)));
            Json::Array(done)
        },
        Node::Object(fields) => {
            let ghost all = fields@;
            let mut done: Vec<(String, Json)> = Vec::new();
            for field in it: fields
                invariant
                    it.seq() == all,
                    distinct_names(all),
                    view == value_view(value),
                    view == JsonView::Object(node_fields(all)),
                    done@.len() == it.index(),
                    object_view(done@) == node_fields(all.take(it.index() as int)),
            {
                let ghost i = it.index() as int;
                let (name, item) = field;
                proof {
                    lemma_node_field(all, i);
                    lemma_node_fields_finite(all);
                    assert(decreases_to!(view => view->Object_0));
                    assert(view->Object_0[all[i].0@] == value_view(item));
                    assert(decreases_to!(view->Object_0 => view->Object_0[all[i].0@]));
                }
                let ghost before = done@;
                done.push((name, json_of(item)));
                assert(done@.drop_last() =~= before);
                assert(all.take(i + 1).drop_last() =~= all.take(i));
            }
            assert(all.take(all.len() as int) =~= all);
            Json::Object(done)
        },
    }
}

/// The field at place `i` is the last one of its name.
spec fn counts(fields: Seq<(String, Json)>, i: int) -> bool {
    &&& 0 <= i < fields.len()
    &&& forall|k: int| i < k < fields.len() ==> (#[trigger] fields[k]).0@ != fields[i].0@
}

/// The map has the names of those of the first `n` fields that count, with what
/// the object has under them.
spec fn shows(fields: Seq<(String, Json)>, n: int, map: Map<Seq<char>, JsonView>) -> bool {
    forall|name: Seq<char>|
        {
            &&& #[trigger] map.contains_key(name) <==> exists|j: int|
                j < n && #[trigger] counts(fields, j) && fields[j].0@ == name
            &&& map.contains_key(name) ==> map[name] == object_view(fields)[name]
        }
}

/// Each field has its name in the object.
proof fn lemma_named(fields: Seq<(String, Json)>, i: int)
    requires
        0 <= i < fields.len(),
    ensures
        object_view(fields).contains_key(fields[i].0@),
    decreases fields.len(),
{
    if i < fields.len() - 1 {
        lemma_named(fields.drop_last(), i);
    }
}

/// The object holds the last field of each name.
proof fn lemma_last_of_name(fields: Seq<(String, Json)>, name: Seq<char>)
    requires
        object_view(fields).contains_key(name),
    ensures
        exists|j: int| #[trigger] counts(fields, j) && fields[j].0@ == name,
    decreases fields.len(),
{
    let last = fields.len() - 1;
    if fields[last].0@ == name {
        assert(counts(fields, last));
    } else {
        let start = fields.drop_last();
        lemma_last_of_name(start, name);
        let j = choose|j: int| #[trigger] counts(start, j) && start[j].0@ == name;
        assert forall|k: int| j < k < fields.len() implies (#[trigger] fields[k]).0@
            != fields[j].0@ by {
            if k < last {
                assert(start[k].0@ != start[j].0@);
            }
        }
        assert(counts(fields, j));
    }
}

/// A field that counts has a name that no earlier one that counts has.
proof fn lemma_new_name(fields: Seq<(String, Json)>, i: int, done: Seq<(String, Value)>)
    requires
        counts(fields, i),
        distinct_names(done),
        shows(fields, i, node_fields(done)),
    ensures
        !node_fields(done).contains_key(fields[i].0@),
        forall|m: int| 0 <= m < done.len() ==> (#[trigger] done[m]).0@ != fields[i].0@,
{
    let name = fields[i].0@;
    if node_fields(done).contains_key(name) {
        let j = choose|j: int| j < i && #[trigger] counts(fields, j) && fields[j].0@ == name;
        assert(fields[i].0@ != fields[j].0@);
    }
    assert forall|m: int| 0 <= m < done.len() implies (#[trigger] done[m]).0@ != name by {
        lemma_node_field(done, m);
    }
}

/// One more field that counts adds its name.
proof fn lemma_shows_next(
    fields: Seq<(String, Json)>,
    i: int,
    map: Map<Seq<char>, JsonView>,
    value: JsonView,
)
    requires
        counts(fields, i),
        shows(fields, i, map),
        value == object_view(fields)[fields[i].0@],
    ensures
        shows(fields, i + 1, map.insert(fields[i].0@, value)),
{
    let more = map.insert(fields[i].0@, value);
    assert forall|name: Seq<char>| {
        &&& #[trigger] more.contains_key(name) <==> exists|j: int|
            j < i + 1 && #[trigger] counts(fields, j) && fields[j].0@ == name
        &&& more.contains_key(name) ==> more[name] == object_view(fields)[name]
    } by {
        assert(map.contains_key(name) || !map.contains_key(name));
        if name == fields[i].0@ {
            assert(counts(fields, i));
        }
    }
}

/// A map that shows all fields is the object.
proof fn lemma_shows_all(fields: Seq<(String, Json)>, map: Map<Seq<char>, JsonView>)
    requires
        shows(fields, fields.len() as int, map),
    ensures
        map == object_view(fields),
{
    assert forall|name: Seq<char>| map.contains_key(name) == #[trigger] object_view(
        fields,
    ).contains_key(name) by {
        if object_view(fields).contains_key(name) {
            lemma_last_of_name(fields, name);
            let j = choose|j: int| #[trigger] counts(fields, j) && fields[j].0@ == name;
            assert(j < fields.len() && counts(fields, j));
        }
        if map.contains_key(name) {
            let j = choose|j: int|
                j < fields.len() && #[trigger] counts(fields, j) && fields[j].0@ == name;
            lemma_named(fields, j);
        }
    }
    assert(map =~= object_view(fields));
}

/// The `serde_json` form of a value. Of several fields of a name only the last
/// one is kept.
fn value_of(json: &Json) -> (value: Value)
    ensures
        value_view(value) == json@,
    decreases json,
{
    match json {
        Json::Null => join_value(Node::Null),
        Json::Bool(flag) => join_value(Node::Bool(*flag)),
        Json::Number(number) => join_value(Node::Number(number_clone(number))),
        Json::Text(text) => join_value(Node::Text(text.clone())),
        Json::Array(items) => {
            let mut done: Vec<Value> = Vec::new();
            let mut i: usize = 0;
            while i < items.len()
                invariant
                    i <= items@.len(),
                    done@.len() == i,
                    *json == Json::Array(*items),
                    forall|k: int|
                        0 <= k < i ==> value_view(#[trigger] done@[k]) == items@[k]@,
                decreases items@.len() - i,
            {
                proof {
                    assert(decreases_to!(*json => json->Array_0));
                    assert(decreases_to!(json->Array_0 => json->Array_0@));
                    assert(decreases_to!(json->Array_0@ => json->Array_0@[i as int]));
                }
                done.push(value_of(&items[i]));
                i += 1;
            }
            assert(done@.map_values(|item: Value| value_view(item)) =~= array_view(items@));
            join_value(Node::Array(done))
        },
        Json::Object(fields) => {
            let mut done: Vec<(String, Value)> = Vec::new();
            let mut i: usize = 0;
            while i < fields.len()
                invariant
                    i <= fields@.len(),
                    *json == Json::Object(*fields),
                    distinct_names(done@),
                    shows(fields@, i as int, node_fields(done@)),
                decreases fields@.len() - i,
            {
                let ghost before = done@;
                proof {
                    lemma_named(fields@, i as int);
                    let field = json->Object_0@[i as int];
                    assert(decreases_to!(*json => json->Object_0));
                    assert(decreases_to!(json->Object_0 => json->Object_0@));
                    assert(decreases_to!(json->Object_0@ => json->Object_0@[i as int]));
                    assert(decreases_to!(field => field.1));
                }
                if find_field(fields, fields[i].0.as_str()) == Some(i) {
                    proof {
                        lemma_new_name(fields@, i as int, before);
                        lemma_shows_next(
                            fields@,
                            i as int,
                            node_fields(before),
                            fields@[i as int].1@,
                        );
                    }
                    done.push((fields[i].0.clone(), value_of(&fields[i].1)));
                    assert(done@.drop_last() =~= before);
                } else {
                    assert(!counts(fields@, i as int));
                }
                i += 1;
            }
            proof {
                lemma_shows_all(fields@, node_fields(done@));
            }
            join_value(Node::Object(done))
        },
    }
}

// ---------------------------------------------------------------------------
// Reading and writing.
// ---------------------------------------------------------------------------

/// Setting the last field of a name sets that name in the map.
proof fn lemma_object_update(fields: Seq<(String, Json)>, i: int, field: (String, Json))
    requires
        0 <= i < fields.len(),
        field.0@ == fields[i].0@,
        forall|k: int| i < k < fields.len() ==> (#[trigger] fields[k]).0@ != fields[i].0@,
    ensures
        object_view(fields.update(i, field)) == object_view(fields).insert(field.0@, field.1@),
    decreases fields.len(),
{
    let updated = fields.update(i, field);
    if i == fields.len() - 1 {
        assert(updated.drop_last() =~= fields.drop_last());
        assert(object_view(updated) =~= object_view(fields).insert(field.0@, field.1@));
    } else {
        lemma_object_update(fields.drop_last(), i, field);
        assert(updated.drop_last() =~= fields.drop_last().update(i, field));
        assert(fields[fields.len() - 1].0@ != fields[i].0@);
        assert(object_view(updated) =~= object_view(fields).insert(field.0@, field.1@));
    }
}

/// The place of the field `key` that counts.
fn find_field(fields: &Vec<(String, Json)>, key: &str) -> (place: Option<usize>)
    ensures
        match place {
            Some(i) => {
                &&& i < fields@.len()
                &&& fields@[i as int].0@ == key@
                &&& forall|k: int| i < k < fields@.len() ==> (#[trigger] fields@[k]).0@ != key@
                &&& object_view(fields@).contains_key(key@)
                &&& object_view(fields@)[key@] == fields@[i as int].1@
            },
            None => !object_view(fields@).contains_key(key@),
        },
{
    let mut i: usize = fields.len();
    assert(fields@.take(i as int) =~= fields@);
    while i > 0
        invariant
            i <= fields@.len(),
            forall|k: int| i <= k < fields@.len() ==> (#[trigger] fields@[k]).0@ != key@,
            object_view(fields@).contains_key(key@) == object_view(
                fields@.take(i as int),
            ).contains_key(key@),
            object_view(fields@).contains_key(key@) ==> object_view(fields@)[key@]
                == object_view(fields@.take(i as int))[key@],
        decreases i,
    {
        assert(fields@.take(i as int).drop_last() =~= fields@.take(i - 1));
        i -= 1;
        if *fields[i].0.as_str() == *key {
            return Some(i);
        }
    }
    None
}

impl Json {
    /// Reads JSON text.
    pub fn parse(text: &str) -> (parsed: Result<Json, String>)
        ensures
            match parsed {
                Ok(json) => json_parse(text@) == Ok::<JsonView, Seq<char>>(json@),
                Err(message) => json_parse(text@) == Err::<JsonView, Seq<char>>(message@),
            },
    {
        match parse_value(text) {
            Ok(value) => Ok(json_of(value)),
            Err(message) => Err(message),
        }
    }

    /// The compact JSON text of the value.
    pub fn to_text(&self) -> (text: String)
        ensures
            text@ == json_text(self@),
    {
        write_value(&value_of(self))
    }

    /// The indented JSON text of the value, or nothing where none is written.
    pub fn to_pretty(&self) -> (text: String)
        ensures
            text@ == (match json_pretty(self@) {
                Some(written) => written,
                None => Seq::<char>::empty(),
            }),
    {
        match write_value_pretty(&value_of(self)) {
            Some(written) => written,
            None => String::new(),
        }
    }

    /// A string value.
    pub fn text(text: &str) -> (json: Json)
        ensures
            json@ == JsonView::Text(text@),
    {
        Json::Text(text.to_owned())
    }

    /// A whole number that is not negative.
    pub fn unsigned(n: u64) -> (json: Json)
        ensures
            json@ == JsonView::Number(NumberView::Unsigned(n)),
    {
        Json::Number(number_from_u64(n))
    }

    /// A whole number.
    pub fn signed(i: i64) -> (json: Json)
        ensures
            json@ == JsonView::Number(
                if i < 0 {
                    NumberView::Negative(i)
                } else {
                    NumberView::Unsigned(i as u64)
                },
            ),
    {
        Json::Number(number_from_i64(i))
    }

    /// An object without fields.
    pub fn object() -> (json: Json)
        ensures
            json@ == JsonView::Object(Map::<Seq<char>, JsonView>::empty()),
    {
        Json::Object(Vec::new())
    }

    /// The field `key` of an object.
    pub fn get(&self, key: &str) -> (value: Option<&Json>)
        ensures
            match value {
                Some(json) => self@.field(key@) == Some(json@),
                None => self@.field(key@) == None::<JsonView>,
            },
    {
        match self {
            Json::Object(fields) => match find_field(fields, key) {
                Some(i) => Some(&fields[i].1),
                None => None,
            },
            _ => None,
        }
    }

    /// The field `key` of an object, moved out.
    pub fn into_field(self, key: &str) -> (value: Option<Json>)
        ensures
            match value {
                Some(json) => self@.field(key@) == Some(json@),
                None => self@.field(key@) == None::<JsonView>,
            },
    {
        match self {
            Json::Object(fields) => {
                let mut fields = fields;
                match find_field(&fields, key) {
                    Some(i) => {
                        let (_, value) = fields.swap_remove(i);
                        Some(value)
                    },
                    None => None,
                }
            },
            _ => None,
        }
    }

    /// Sets the field `key` of an object and gives back what it was; leaves any
    /// other value as it is.
    pub fn replace(&mut self, key: &str, value: Json) -> (before: Option<Json>)
        ensures
            final(self)@ == old(self)@.with_field(key@, value@),
            match before {
                Some(json) => old(self)@.field(key@) == Some(json@),
                None => old(self)@.field(key@) == None::<JsonView>,
            },
    {
        match self {
            Json::Object(fields) => {
                let ghost all = fields@;
                match find_field(fields, key) {
                    Some(i) => {
                        proof {
                            lemma_object_update(all, i as int, (all[i as int].0, value));
                        }
                        let mut field = (fields[i].0.clone(), value);
                        std::mem::swap(&mut fields[i], &mut field);
                        Some(field.1)
                    },
                    None => {
                        fields.push((key.to_owned(), value));
                        assert(fields@.drop_last() =~= all);
                        None
                    },
                }
            },
            _ => None,
        }
    }

    /// Sets the field `key` of an object; leaves any other value as it is.
    pub fn set(&mut self, key: &str, value: Json)
        ensures
            final(self)@ == old(self)@.with_field(key@, value@),
    {
        let _ = self.replace(key, value);
    }

    /// The text of a string value.
    pub fn as_str(&self) -> (text: Option<&str>)
        ensures
            match text {
                Some(t) => self@.as_text() == Some(t@),
                None => self@.as_text() == None::<Seq<char>>,
            },
    {
        match self {
            Json::Text(text) => Some(text.as_str()),
            _ => None,
        }
    }

    /// The value of a whole number between zero and `u64::MAX`.
    pub fn as_u64(&self) -> (n: Option<u64>)
        ensures
            n == self@.as_unsigned(),
    {
        match self {
            Json::Number(number) => number_as_u64(number),
            _ => None,
        }
    }

    /// The items of an array, moved out.
    pub fn into_items(self) -> (items: Option<Vec<Json>>)
        ensures
            match items {
                Some(list) => self@.as_items() == Some(array_view(list@)),
                None => self@.as_items() == None::<Seq<JsonView>>,
            },
    {
        match self {
            Json::Array(items) => Some(items),
            _ => None,
        }
    }

    /// The text of the field `key`, where that field is a string.
    pub fn get_str(&self, key: &str) -> (text: Option<&str>)
        ensures
            match text {
                Some(t) => self@.text_field(key@) == Some(t@),
                None => self@.text_field(key@) == None::<Seq<char>>,
            },
    {
        match self.get(key) {
            Some(value) => value.as_str(),
            None => None,
        }
    }

    /// The number in the field `key`, where that field is a whole number
    /// between zero and `u64::MAX`.
    pub fn get_u64(&self, key: &str) -> (n: Option<u64>)
        ensures
            n == self@.unsigned_field(key@),
    {
        match self.get(key) {
            Some(value) => value.as_u64(),
            None => None,
        }
    }
}

// ---------------------------------------------------------------------------
// What holds of values.
// ---------------------------------------------------------------------------

/// A field that was set is read back, by what it holds, and the other fields of
/// the object stay as they are.
pub proof fn law_set_fields_are_read_back(
    fields: Map<Seq<char>, JsonView>,
    key: Seq<char>,
    value: JsonView,
    other: Seq<char>,
)
    requires
        other != key,
    ensures
        ({
            let object = JsonView::Object(fields);
            let changed = object.with_field(key, value);
            &&& changed is Object
            &&& changed.field(key) == Some(value)
            &&& changed.text_field(key) == (match value {
                JsonView::Text(text) => Some(text),
                _ => None,
            })
            &&& changed.unsigned_field(key) == (match value {
                JsonView::Number(NumberView::Unsigned(n)) => Some(n),
                _ => None,
            })
            &&& changed.field(other) == object.field(other)
            &&& object.field(other) is Some <==> fields.contains_key(other)
            &&& fields.contains_key(other) ==> object.field(other) == Some(fields[other])
        }),
{
}

/// Only an object has fields, and nothing else takes any.
pub proof fn law_only_objects_have_fields(value: JsonView, key: Seq<char>, field: JsonView)
    requires
        !(value is Object),
    ensures
        value.field(key) is None,
        value.text_field(key) is None,
        value.unsigned_field(key) is None,
        value.with_field(key, field) == value,
{
}

/// Whole numbers are written in decimal, negative ones with a minus sign.
pub proof fn law_whole_numbers_are_written_out(n: u64, size: nat)
    requires
        0 < size <= 0x8000_0000_0000_0000,
    ensures
        json_text(JsonView::Number(NumberView::Unsigned(n))) == decimal(n as nat),
        json_text(JsonView::Number(NumberView::Negative((-(size as int)) as i64))) == seq!['-']
            + decimal(size),
{
}

/// An array holds its items, one for one.
pub proof fn law_array_holds_its_items(items: Seq<Json>, i: int)
    requires
        0 <= i < items.len(),
    ensures
        array_view(items).len() == items.len(),
        array_view(items)[i] == items[i]@,
{
}

/// An object holds, of the fields of a name, the last one, and no name that no
/// field has.
pub proof fn law_object_holds_the_last_field(fields: Seq<(String, Json)>, i: int, name: Seq<char>)
    requires
        0 <= i < fields.len(),
        forall|k: int| i < k < fields.len() ==> (#[trigger] fields[k]).0@ != fields[i].0@,
    ensures
        object_view(fields).contains_key(fields[i].0@),
        object_view(fields)[fields[i].0@] == fields[i].1@,
        object_view(fields).contains_key(name) ==> exists|k: int|
            0 <= k < fields.len() && (#[trigger] fields[k]).0@ == name,
    decreases fields.len(),
{
    if i < fields.len() - 1 {
        let start = fields.drop_last();
        assert forall|k: int| i < k < start.len() implies (#[trigger] start[k]).0@
            != start[i].0@ by {
            assert(fields[k].0@ != fields[i].0@);
        }
        law_object_holds_the_last_field(start, i, name);
        assert(fields[fields.len() - 1].0@ != fields[i].0@);
    }
    if object_view(fields).contains_key(name) {
        lemma_last_of_name(fields, name);
        let k = choose|k: int| #[trigger] counts(fields, k) && fields[k].0@ == name;
        assert(fields[k].0@ == name);
    }
}

/// Values are seen as they are.
pub proof fn law_values_are_seen_as_they_are(
    flag: bool,
    text: String,
    number: Number,
    items: Vec<Json>,
    fields: Vec<(String, Json)>,
)
    ensures
        Json::Null@ == JsonView::Null,
        Json::Bool(flag)@ == JsonView::Bool(flag),
        Json::Text(text)@ == JsonView::Text(text@),
        Json::Number(number)@ == JsonView::Number(number_view(number)),
        Json::Array(items)@ == JsonView::Array(array_view(items@)),
        Json::Object(fields)@ == JsonView::Object(object_view(fields@)),
        Json::Array(items)@.as_items() == Some(array_view(items@)),
        Json::Text(text)@.as_text() == Some(text@),
        Json::Object(fields)@.as_items() is None,
{
}

} // verus!
