//! JSON values, as `serde_json` holds, reads and writes them.
use vstd::prelude::*;
use vstd::string::*;
use vstd::utf8::*;

verus! {

/// A JSON value. A number is its text; the members of an object have no order.
pub enum Json {
    Null,
    Bool(bool),
    Number(Seq<char>),
    Text(Seq<char>),
    Array(Seq<Json>),
    Object(Map<Seq<char>, Json>),
}

impl Json {
    /// The member `name` of an object.
    pub open spec fn member(self, name: Seq<char>) -> Option<Json> {
        match self {
            Json::Object(members) => if members.contains_key(name) {
                Some(members[name])
            } else {
                None
            },
            _ => None,
        }
    }

    /// The element `index` of an array.
    pub open spec fn element(self, index: int) -> Option<Json> {
        match self {
            Json::Array(elements) => if 0 <= index < elements.len() {
                Some(elements[index])
            } else {
                None
            },
            _ => None,
        }
    }

    /// The text of a string.
    pub open spec fn text(self) -> Option<Seq<char>> {
        match self {
            Json::Text(text) => Some(text),
            _ => None,
        }
    }

    /// The members of an object; `null` counts as an object without members.
    pub open spec fn members(self) -> Map<Seq<char>, Json> {
        match self {
            Json::Object(members) => members,
            _ => Map::empty(),
        }
    }

    /// Neither a number nor a container.
    pub open spec fn plain(self) -> bool {
        self is Null || self is Bool || self is Text
    }

    /// A plain value or an array of plain values.
    pub open spec fn plain_list(self) -> bool {
        ||| self.plain()
        ||| self is Array && forall|i: int|
            0 <= i < self->Array_0.len() ==> (#[trigger] self->Array_0[i]).plain()
    }

    /// At most two containers deep, and without numbers.
    pub open spec fn shallow(self) -> bool {
        ||| self.plain_list()
        ||| self is Object && forall|name: Seq<char>| #[trigger]
            self->Object_0.contains_key(name) ==> self->Object_0[name].plain_list()
    }
}

/// A JSON value of `serde_json`.
#[verifier::external_type_specification]
#[verifier::external_body]
pub struct ExValue(serde_json::Value);

/// What a value of `serde_json` holds.
pub uninterp spec fn json_view(value: serde_json::Value) -> Json;

/// What `serde_json::from_slice` reads from `bytes` as a value; nothing where they are
/// no JSON text.
pub uninterp spec fn json_parsed(bytes: Seq<u8>) -> Option<Json>;

/// The text that `serde_json` writes for a value.
pub uninterp spec fn json_text(value: Json) -> Seq<char>;

/// What `values` hold.
pub open spec fn json_views(values: Seq<serde_json::Value>) -> Seq<Json> {
    Seq::new(values.len(), |i: int| json_view(values[i]))
}

/// Calls `serde_json::from_slice` for a `Value`. Whether it succeeds, and what it reads,
/// depends on the bytes alone.
#[verifier::external_body]
pub(crate) fn json_parse(bytes: &[u8]) -> (r: Option<serde_json::Value>)
    ensures
        match r {
            Some(value) => json_parsed(bytes@) == Some(json_view(value)),
            None => json_parsed(bytes@) is None,
        },
{
    serde_json::from_slice::<serde_json::Value>(bytes).ok()
}

/// Calls `serde_json::to_vec` on a `Value`, which cannot fail: its keys are strings and
/// the writer is a vector. The bytes are the UTF-8 encoding of the value's text. A value
/// of little depth and without numbers is read back from them unchanged; of other values
/// nothing is stated here, since reading limits the depth and may round a number.
#[verifier::external_body]
pub(crate) fn json_encode(value: &serde_json::Value) -> (r: Vec<u8>)
    ensures
        r@ == encode_utf8(json_text(json_view(*value))),
        json_view(*value).shallow() ==> json_parsed(r@) == Some(json_view(*value)),
{
    serde_json::to_vec(value).unwrap()
}

/// Calls `to_string` on a `Value`: the text that `json_encode` encodes.
#[verifier::external_body]
pub(crate) fn json_display(value: &serde_json::Value) -> (r: String)
    ensures
        r@ == json_text(json_view(*value)),
{
    value.to_string()
}

/// `Value::clone` copies what the value holds.
pub assume_specification[ <serde_json::Value as Clone>::clone ](value: &serde_json::Value) -> (r:
    serde_json::Value)
    ensures
        json_view(r) == json_view(*value),
;

/// `Value::is_null` tells whether the value is `null`.
pub assume_specification[ serde_json::Value::is_null ](value: &serde_json::Value) -> (r: bool)
    ensures
        r == (json_view(*value) is Null),
;

/// `Value::as_str` gives the text of a string, and nothing for any other value.
pub assume_specification[ serde_json::Value::as_str ](value: &serde_json::Value) -> (r: Option<
    &str,
>)
    ensures
        match r {
            Some(text) => json_view(*value).text() == Some(text@),
            None => json_view(*value).text() is None,
        },
;

/// `Value::pointer` follows a JSON pointer. Stated for the one pointer in use: the member
/// `id` of what stands under `0` in the member `projects`, which is the first element of an
/// array or the member `0` of an object. What it finds by another pointer is not stated.
pub assume_specification<'a>[ serde_json::Value::pointer ](
    value: &'a serde_json::Value,
    pointer: &str,
) -> (r: Option<&'a serde_json::Value>)
    ensures
        pointer@ == "/projects/0/id"@ ==> match r {
            Some(found) => first_project_id(json_view(*value)) == Some(json_view(*found)),
            None => first_project_id(json_view(*value)) is None,
        },
;

/// The member `id` of what stands under `0` in the member `projects`: the first element of
/// an array, or the member `0` of an object.
pub open spec fn first_project_id(value: Json) -> Option<Json> {
    match value.member("projects"@) {
        None => None,
        Some(projects) => match if projects is Object {
            projects.member("0"@)
        } else {
            projects.element(0)
        } {
            None => None,
            Some(project) => project.member("id"@),
        },
    }
}

/// Calls `Value::get` with a name: the member of that name of an object.
#[verifier::external_body]
pub(crate) fn json_get<'a>(value: &'a serde_json::Value, name: &str) -> (r: Option<
    &'a serde_json::Value,
>)
    ensures
        match r {
            Some(found) => json_view(*value).member(name@) == Some(json_view(*found)),
            None => json_view(*value).member(name@) is None,
        },
{
    value.get(name)
}

/// The constant `Value::Null`.
#[verifier::external_body]
pub(crate) fn json_null() -> (r: serde_json::Value)
    ensures
        json_view(r) == Json::Null,
{
    serde_json::Value::Null
}

/// Calls `Value::from` on a `bool`.
#[verifier::external_body]
pub(crate) fn json_bool(value: bool) -> (r: serde_json::Value)
    ensures
        json_view(r) == Json::Bool(value),
{
    serde_json::Value::from(value)
}

/// Calls `Value::from` on a string slice.
#[verifier::external_body]
pub(crate) fn json_string(text: &str) -> (r: serde_json::Value)
    ensures
        json_view(r) == Json::Text(text@),
{
    serde_json::Value::from(text)
}

/// Calls `Value::from` on a vector of values: an array of them, in order.
#[verifier::external_body]
pub(crate) fn json_array(values: Vec<serde_json::Value>) -> (r: serde_json::Value)
    ensures
        json_view(r) == Json::Array(json_views(values@)),
{
    serde_json::Value::from(values)
}

/// Assigns through `IndexMut` with a name, which panics unless the value is an object or
/// `null`: afterwards it is an object with that member, and with its other members as
/// they were.
#[verifier::external_body]
pub(crate) fn json_set(object: &mut serde_json::Value, name: &str, value: serde_json::Value)
    requires
        json_view(*old(object)) is Null || json_view(*old(object)) is Object,
    ensures
        json_view(*final(object)) == Json::Object(
            json_view(*old(object)).members().insert(name@, json_view(value)),
        ),
{
    object[name] = value;
}

/// The members of a value are those of an object, its elements those of an array, and its
/// text that of a string; no other value has any.
pub proof fn law_parts_of_values(value: Json, name: Seq<char>, index: int)
    ensures
        value.member(name) == (if value is Object && value->Object_0.contains_key(name) {
            Some(value->Object_0[name])
        } else {
            None
        }),
        value.element(index) == (if value is Array && 0 <= index < value->Array_0.len() {
            Some(value->Array_0[index])
        } else {
            None
        }),
        value.text() == (if value is Text {
            Some(value->Text_0)
        } else {
            None
        }),
        value is Object ==> value.members() == value->Object_0,
        value is Null ==> value.members() == Map::<Seq<char>, Json>::empty(),
{
}

/// What stands under `0` in a value: the first element of an array, or the member `0` of an
/// object.
pub open spec fn stands_first(value: Json, found: Json) -> bool {
    ||| value is Array && value->Array_0.len() > 0 && value->Array_0[0] == found
    ||| value is Object && value->Object_0.contains_key("0"@) && value->Object_0["0"@] == found
}

/// A value has a first project exactly if it is an object with the member `projects`, under
/// `0` of which stands an object with the member `id`; that member is the project's id.
pub proof fn law_where_the_project_id_stands(value: Json, id: Json)
    ensures
        first_project_id(value) == Some(id) <==> value is Object && value->Object_0.contains_key(
            "projects"@,
        ) && exists|project: Json| #[trigger]
            stands_first(value->Object_0["projects"@], project) && project is Object
                && project->Object_0.contains_key("id"@) && project->Object_0["id"@] == id,
{
    if first_project_id(value) == Some(id) {
        let projects = value->Object_0["projects"@];
        let project = if projects is Object {
            projects->Object_0["0"@]
        } else {
            projects->Array_0[0]
        };
        assert(stands_first(projects, project));
    }
}

} // verus!
