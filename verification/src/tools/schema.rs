//! The description of a tool's input.
use crate::json;
use crate::json::{Json, JsonView};
use crate::text;
use vstd::prelude::*;
use vstd::string::*;

verus! {

/// A field of the input: its type and what it is for.
pub open spec fn property_view(kind: Seq<char>, description: Seq<char>) -> JsonView {
    json::with_member(
        json::with_member(json::empty_object(), "type"@, JsonView::Text(kind)),
        "description"@,
        JsonView::Text(description),
    )
}

/// An input: its fields, and the names of those that it must have.
pub open spec fn input_view(properties: JsonView, required: Seq<Seq<char>>) -> JsonView {
    json::with_member(
        json::with_member(
            json::with_member(json::empty_object(), "type"@, JsonView::Text("object"@)),
            "properties"@,
            properties,
        ),
        "required"@,
        json::texts_view(required),
    )
}

/// The same fields with one more.
pub open spec fn with_property(
    properties: JsonView,
    name: Seq<char>,
    kind: Seq<char>,
    description: Seq<char>,
) -> JsonView {
    json::with_member(properties, name, property_view(kind, description))
}

/// The same fields with one more.
pub fn add_property(properties: Json, name: &str, kind: &str, description: &str) -> (r: Json)
    ensures
        r@ == with_property(properties@, name@, kind@, description@),
{
    let property: Json = Json::object().with("type", Json::text(kind)).with(
        "description",
        Json::text(description),
    );
    properties.with(name, property)
}

/// An input: its fields, and the names of those that it must have.
pub fn input_schema(properties: Json, required: Vec<String>) -> (r: Json)
    ensures
        r@ == input_view(properties@, text::strings(required@)),
{
    Json::object().with("type", Json::text("object")).with("properties", properties).with(
        "required",
        json::texts(required),
    )
}

// ---------------------------------------------------------------------------
// Laws
// ---------------------------------------------------------------------------

/// A field is described under its name by its type and its purpose, and nothing that was
/// described before changes.
pub proof fn fields_are_described(
    properties: JsonView,
    name: Seq<char>,
    kind: Seq<char>,
    description: Seq<char>,
    other: Seq<char>,
)
    requires
        properties is Object,
    ensures
        ({
            let after = with_property(properties, name, kind, description);
            &&& after is Object
            &&& json::member(after, name) matches Some(field) && {
                &&& json::member(field, "type"@) == Some(JsonView::Text(kind))
                &&& json::member(field, "description"@) == Some(JsonView::Text(description))
                &&& other != "type"@ && other != "description"@ ==> json::member(
                    field,
                    other,
                ) is None
            }
            &&& other != name ==> json::member(after, other) == json::member(properties, other)
        }),
{
    reveal_strlit("type");
    reveal_strlit("description");
    assert("type"@.len() == 4);
    assert("description"@.len() == 11);
}

/// An input is an object; it says what its fields are and which of them it must have.
pub proof fn inputs_are_described(
    properties: JsonView,
    required: Seq<Seq<char>>,
    other: Seq<char>,
)
    ensures
        ({
            let input = input_view(properties, required);
            &&& json::member(input, "type"@) == Some(JsonView::Text("object"@))
            &&& json::member(input, "properties"@) == Some(properties)
            &&& other != "type"@ && other != "properties"@ && other != "required"@
                ==> json::member(input, other) is None
            &&& json::member(input, "required"@) matches Some(JsonView::List(names)) && names.len()
                == required.len() && forall|i: int|
                0 <= i < required.len() ==> #[trigger] names[i] == JsonView::Text(required[i])
        }),
{
    reveal_strlit("type");
    reveal_strlit("properties");
    reveal_strlit("required");
    assert("type"@.len() == 4);
    assert("properties"@.len() == 10);
    assert("required"@.len() == 8);
}

/// Whether an input has a field of a type and a purpose.
pub open spec fn describes(
    input: JsonView,
    name: Seq<char>,
    kind: Seq<char>,
    description: Seq<char>,
) -> bool {
    &&& json::member(input, "properties"@) matches Some(fields)
    &&& json::member(fields, name) matches Some(field)
    &&& json::text_member(field, "type"@) == Some(kind)
    &&& json::text_member(field, "description"@) == Some(description)
}

}
