//! JSON values: what they hold, and how they are read, built and taken apart.
//!
//! The values themselves are `serde_json`'s. Everything that is claimed of that crate without
//! proof stands in this file.

use std::collections::HashMap;
use vstd::prelude::*;

verus! {

/// The JSON value of `serde_json`.
#[verifier::external_type_specification]
#[verifier::external_body]
pub struct ExValue(serde_json::Value);

/// What a JSON number holds.
pub enum JsonNumber {
    /// A whole number from zero up.
    Natural(u64),
    /// A whole number below zero.
    Negative(i64),
    /// Any other number, by the bits of its double precision form.
    Float(u64),
}

/// What a JSON value holds. The members of an object have no order.
pub enum Json {
    Null,
    Bool(bool),
    Number(JsonNumber),
    Text(Seq<char>),
    List(Seq<Json>),
    Object(Map<Seq<char>, Json>),
}

/// What the value `v` holds.
pub uninterp spec fn json(v: serde_json::Value) -> Json;

/// What each value of a list holds.
pub open spec fn jsons(values: Seq<serde_json::Value>) -> Seq<Json> {
    values.map_values(|v: serde_json::Value| json(v))
}

/// The member `name` of `value`: there is one only where `value` is an object that has it.
pub open spec fn json_member(value: Json, name: Seq<char>) -> Option<Json> {
    match value {
        Json::Object(members) => if members.contains_key(name) {
            Some(members[name])
        } else {
            None
        },
        _ => None,
    }
}

/// The text in a value that is a text.
pub open spec fn json_text(value: Option<Json>) -> Option<Seq<char>> {
    match value {
        Some(Json::Text(s)) => Some(s),
        _ => None,
    }
}

/// The number in a value that is a whole number from zero up.
pub open spec fn json_natural(value: Option<Json>) -> Option<u64> {
    match value {
        Some(Json::Number(JsonNumber::Natural(n))) => Some(n),
        _ => None,
    }
}

/// `Value::clone` is derived: the copy holds what the value holds.
pub assume_specification[ <serde_json::Value as Clone>::clone ](
    v: &serde_json::Value,
) -> (copy: serde_json::Value)
    ensures
        json(copy) == json(*v),
;

/// `Value::as_str` gives the text of a value that is a text, and `None` of any other value.
#[verifier::external_body]
pub(crate) fn as_text(v: &serde_json::Value) -> (text: Option<&str>)
    ensures
        match text {
            Some(s) => json(*v) == Json::Text(s@),
            None => !(json(*v) is Text),
        },
{
    v.as_str()
}

/// `Value::as_u64` gives the number of a value that is a whole number from zero up, and `None`
/// of any other value, negative and fractional numbers among them.
#[verifier::external_body]
pub(crate) fn as_natural(v: &serde_json::Value) -> (n: Option<u64>)
    ensures
        n == json_natural(Some(json(*v))),
{
    v.as_u64()
}

/// `Value::get` with a text as index gives the member of that name of an object, and `None`
/// where there is no such member or the value is no object.
#[verifier::external_body]
pub(crate) fn member<'a>(v: &'a serde_json::Value, name: &str) -> (found: Option<&'a serde_json::Value>)
    ensures
        match found {
            Some(m) => json_member(json(*v), name@) == Some(json(*m)),
            None => json_member(json(*v), name@) is None,
        },
{
    v.get(name)
}

/// `Map::remove`, on the map of a value that is an object, takes the member of that name out and
/// hands it over. Where there is no such member, or the value is no object, nothing changes.
#[verifier::external_body]
pub(crate) fn take_member(v: &mut serde_json::Value, name: &str) -> (taken: Option<serde_json::Value>)
    ensures
        match taken {
            Some(m) => json_member(json(*old(v)), name@) == Some(json(m)),
            None => json_member(json(*old(v)), name@) is None,
        },
        json(*final(v)) == (match json(*old(v)) {
            Json::Object(members) => Json::Object(members.remove(name@)),
            other => other,
        }),
{
    v.as_object_mut().and_then(|members| members.remove(name))
}

/// `Map::insert`, on the map of a value that is an object, sets the member of that name,
/// whether there was one or not. A value that is no object does not change.
#[verifier::external_body]
pub(crate) fn put_member(v: &mut serde_json::Value, name: &str, member: serde_json::Value)
    ensures
        json(*final(v)) == (match json(*old(v)) {
            Json::Object(members) => Json::Object(members.insert(name@, json(member))),
            other => other,
        }),
{
    if let Some(members) = v.as_object_mut() {
        members.insert(name.to_string(), member);
    }
}

/// `Map::keys` gives the name of each member of an object once, in no promised order. A value
/// that is no object has none.
#[verifier::external_body]
pub(crate) fn member_names(v: &serde_json::Value) -> (names: Vec<String>)
    ensures
        match json(*v) {
            Json::Object(members) => {
                &&& forall|i: int|
                    0 <= i < names@.len() ==> members.contains_key(#[trigger] names@[i]@)
                &&& forall|name: Seq<char>| #[trigger]
                    members.contains_key(name) ==> exists|i: int|
                        0 <= i < names@.len() && names@[i]@ == name
                &&& forall|i: int, j: int|
                    0 <= i < j < names@.len() ==> names@[i]@ != names@[j]@
            },
            _ => names@.len() == 0,
        },
{
    v.as_object().map(|members| members.keys().cloned().collect()).unwrap_or_default()
}

/// `Value::String` is the value that holds the given text.
#[verifier::external_body]
pub(crate) fn text_value(s: &str) -> (v: serde_json::Value)
    ensures
        json(v) == Json::Text(s@),
{
    serde_json::Value::String(s.to_string())
}

/// `Value::Array` is the value that holds the given values in their order.
#[verifier::external_body]
pub(crate) fn list_value(values: Vec<serde_json::Value>) -> (v: serde_json::Value)
    ensures
        json(v) == Json::List(jsons(values@)),
{
    serde_json::Value::Array(values)
}

/// `Map::new` is empty: the value is an object without members.
#[verifier::external_body]
pub(crate) fn empty_object() -> (v: serde_json::Value)
    ensures
        json(v) == Json::Object(Map::<Seq<char>, Json>::empty()),
{
    serde_json::Value::Object(serde_json::Map::new())
}

/// What `serde_json::from_str` makes of a text that is to be an object: its members, or the
/// words in which it says why the text is none.
pub uninterp spec fn parsed_object(text: Seq<char>) -> Result<Map<Seq<char>, Json>, Seq<char>>;

/// `serde_json::from_str`, asked for a map from texts to values, gives the members of the object
/// that the text writes down. The outcome depends on the text alone and is named
/// [`parsed_object`]; which texts write down an object is not stated.
#[verifier::external_body]
pub(crate) fn parse_object(text: &str) -> (parsed: Result<serde_json::Value, String>)
    ensures
        match parsed {
            Ok(v) => parsed_object(text@) is Ok && json(v) == Json::Object(
                parsed_object(text@)->Ok_0,
            ),
            Err(message) => parsed_object(text@) is Err && message@ == parsed_object(
                text@,
            )->Err_0,
        },
{
    serde_json::from_str::<HashMap<String, serde_json::Value>>(text)
        .map(|members| serde_json::Value::Object(members.into_iter().collect()))
        .map_err(|e| e.to_string())
}

/// The text in the member `name`, where there is one and it is a text.
pub(crate) fn text_member(v: &serde_json::Value, name: &str) -> (text: Option<String>)
    ensures
        crate::views::option(text) == json_text(json_member(json(*v), name@)),
{
    match member(v, name) {
        Some(m) => match as_text(m) {
            Some(s) => Some(s.to_owned()),
            None => None,
        },
        None => None,
    }
}

// ==================== Schemas ====================

/// An object with the given members, added one by one.
pub open spec fn json_object(members: Seq<(Seq<char>, Json)>) -> Map<Seq<char>, Json>
    decreases members.len(),
{
    if members.len() == 0 {
        Map::empty()
    } else {
        json_object(members.drop_last()).insert(members.last().0, members.last().1)
    }
}

/// The schema of one parameter: its type and its description.
pub open spec fn parameter_schema(kind: Seq<char>, description: Seq<char>) -> Json {
    Json::Object(
        json_object(
            seq![
                ("type"@, Json::Text(kind)),
                ("description"@, Json::Text(description)),
            ],
        ),
    )
}

/// The schema of an object with the given parameters, of which some are required.
pub open spec fn object_schema(
    parameters: Seq<(Seq<char>, Json)>,
    required: Seq<Seq<char>>,
) -> Json {
    Json::Object(
        json_object(
            seq![
                ("type"@, Json::Text("object"@)),
                ("properties"@, Json::Object(json_object(parameters))),
                ("required"@, Json::List(required.map_values(|name: Seq<char>| Json::Text(name)))),
            ],
        ),
    )
}

/// One parameter of a tool.
pub struct Parameter {
    pub name: &'static str,
    pub kind: &'static str,
    pub description: &'static str,
}

impl View for Parameter {
    type V = (Seq<char>, Json);

    open spec fn view(&self) -> (Seq<char>, Json) {
        (self.name@, parameter_schema(self.kind@, self.description@))
    }
}

/// The schema of one parameter.
fn build_parameter_schema(kind: &str, description: &str) -> (schema: serde_json::Value)
    ensures
        json(schema) == parameter_schema(kind@, description@),
{
    let mut schema = empty_object();
    put_member(&mut schema, "type", text_value(kind));
    put_member(&mut schema, "description", text_value(description));
    proof {
        let members = seq![
            ("type"@, Json::Text(kind@)),
            ("description"@, Json::Text(description@)),
        ];
        reveal_with_fuel(json_object, 3);
        assert(members.drop_last() =~= seq![members[0]]);
        assert(members.drop_last().drop_last() =~= Seq::empty());
    }
    schema
}

/// The schema of an object with the given parameters, of which some are required.
pub(crate) fn build_object_schema(parameters: &[Parameter], required: &[&str]) -> (schema:
    serde_json::Value)
    ensures
        json(schema) == object_schema(
            crate::views::of(parameters@),
            crate::text::str_texts(required@),
        ),
{
    let ghost shown = crate::views::of(parameters@);
    let ghost names = crate::text::str_texts(required@);
    let ghost worded = |name: Seq<char>| Json::Text(name);
    let mut properties = empty_object();
    for i in 0..parameters.len()
        invariant
            shown == crate::views::of(parameters@),
            json(properties) == Json::Object(json_object(shown.take(i as int))),
    {
        let p = &parameters[i];
        put_member(&mut properties, p.name, build_parameter_schema(p.kind, p.description));
        proof {
            assert(shown.take(i + 1).drop_last() =~= shown.take(i as int));
            assert(shown.take(i + 1).last() == p@);
        }
    }
    assert(shown.take(shown.len() as int) =~= shown);
    let mut list: Vec<serde_json::Value> = Vec::new();
    assert(jsons(list@) =~= names.take(0).map_values(worded));
    for i in 0..required.len()
        invariant
            names == crate::text::str_texts(required@),
            worded == (|name: Seq<char>| Json::Text(name)),
            jsons(list@) == names.take(i as int).map_values(worded),
    {
        let ghost before = list@;
        list.push(text_value(required[i]));
        assert(jsons(list@) =~= jsons(before).push(Json::Text(required@[i as int]@)));
        assert(names[i as int] == required@[i as int]@);
        assert(jsons(list@) =~= names.take(i + 1).map_values(worded));
    }
    assert(names.take(names.len() as int) =~= names);
    let mut schema = empty_object();
    put_member(&mut schema, "type", text_value("object"));
    put_member(&mut schema, "properties", properties);
    put_member(&mut schema, "required", list_value(list));
    proof {
        let members = seq![
            ("type"@, Json::Text("object"@)),
            ("properties"@, Json::Object(json_object(shown))),
            ("required"@, Json::List(names.map_values(worded))),
        ];
        reveal_with_fuel(json_object, 4);
        assert(members.drop_last() =~= seq![members[0], members[1]]);
        assert(members.drop_last().drop_last() =~= seq![members[0]]);
        assert(members.drop_last().drop_last().drop_last() =~= Seq::empty());
    }
    schema
}

// ==================== Cleaning schemas ====================

/// The members without those that a model has no use for.
pub open spec fn cleaned_property(property: Json) -> Json {
    match property {
        Json::Object(members) => Json::Object(members.remove("format"@).remove("minimum"@)),
        other => other,
    }
}

/// Each property without what a model has no use for.
pub open spec fn cleaned_properties(properties: Json) -> Json {
    match properties {
        Json::Object(members) => Json::Object(
            members.map_values(|property: Json| cleaned_property(property)),
        ),
        other => other,
    }
}

/// A schema without what a model has no use for: its own title and description, and the format
/// and the minimum of its properties.
pub open spec fn cleaned(schema: Json) -> Json {
    match schema {
        Json::Object(members) => {
            let kept = members.remove("title"@).remove("description"@);
            if kept.contains_key("properties"@) {
                Json::Object(
                    kept.insert("properties"@, cleaned_properties(kept["properties"@])),
                )
            } else {
                Json::Object(kept)
            }
        },
        other => other,
    }
}

/// Takes out of each property what a model has no use for.
fn clean_properties(properties: &mut serde_json::Value)
    ensures
        json(*final(properties)) == cleaned_properties(json(*old(properties))),
{
    let names = member_names(properties);
    let ghost before = json(*properties);
    let ghost all = before->Object_0;
    if names.len() == 0 {
        proof {
            if before is Object {
                assert(all.map_values(|p: Json| cleaned_property(p)) =~= all);
            }
        }
        return;
    }
    for i in 0..names.len()
        invariant
            before == Json::Object(all),
            forall|k: int| 0 <= k < names@.len() ==> all.contains_key(#[trigger] names@[k]@),
            forall|k: int, l: int| 0 <= k < l < names@.len() ==> names@[k]@ != names@[l]@,
            json(*properties) is Object,
            json(*properties)->Object_0.dom() == all.dom(),
            forall|k: int|
                0 <= k < i ==> json(*properties)->Object_0[#[trigger] names@[k]@]
                    == cleaned_property(all[names@[k]@]),
            forall|k: int|
                i <= k < names@.len() ==> json(*properties)->Object_0[#[trigger] names@[k]@]
                    == all[names@[k]@],
    {
        let name = names[i].as_str();
        match take_member(properties, name) {
            Some(mut property) => {
                let _ = take_member(&mut property, "format");
                let _ = take_member(&mut property, "minimum");
                put_member(properties, name, property);
                assert(json(*properties)->Object_0.dom() =~= all.dom());
            },
            None => {},
        }
    }
    proof {
        let after = json(*properties)->Object_0;
        assert forall|name: Seq<char>| #[trigger] all.contains_key(name) implies after[name]
            == cleaned_property(all[name]) by {
            let k = choose|k: int| 0 <= k < names@.len() && names@[k]@ == name;
            assert(after[names@[k]@] == cleaned_property(all[names@[k]@]));
        }
        assert(after =~= all.map_values(|p: Json| cleaned_property(p)));
    }
}

/// Takes out of a schema what a model has no use for.
pub fn clean_schema(schema: &mut serde_json::Value)
    ensures
        json(*final(schema)) == cleaned(json(*old(schema))),
{
    let ghost before = json(*schema);
    let _ = take_member(schema, "title");
    let _ = take_member(schema, "description");
    match take_member(schema, "properties") {
        Some(mut properties) => {
            clean_properties(&mut properties);
            put_member(schema, "properties", properties);
            proof {
                let kept = before->Object_0.remove("title"@).remove("description"@);
                assert(kept.remove("properties"@).insert("properties"@, json(properties))
                    =~= kept.insert("properties"@, json(properties)));
            }
        },
        None => {
            proof {
                if before is Object {
                    let kept = before->Object_0.remove("title"@).remove("description"@);
                    assert(kept.remove("properties"@) =~= kept);
                }
            }
        },
    }
}

/// Cleaning a schema that is clean changes nothing.
pub proof fn law_cleaning_settles(schema: Json)
    ensures
        cleaned(cleaned(schema)) == cleaned(schema),
{
    if schema is Object {
        let members = schema->Object_0;
        let kept = members.remove("title"@).remove("description"@);
        let once = cleaned(schema)->Object_0;
        assert(once.dom().subset_of(kept.dom()));
        assert(once.remove("title"@).remove("description"@) =~= once || kept.contains_key(
            "properties"@,
        ));
        if kept.contains_key("properties"@) {
            let properties = kept["properties"@];
            if properties is Object {
                let clean = cleaned_properties(properties)->Object_0;
                assert forall|name: Seq<char>| #[trigger] clean.contains_key(name) implies
                    cleaned_property(clean[name]) == clean[name] by {
                    let property = properties->Object_0[name];
                    if property is Object {
                        let m = property->Object_0.remove("format"@).remove("minimum"@);
                        assert(m.remove("format"@).remove("minimum"@) =~= m);
                    }
                }
                assert(clean.map_values(|p: Json| cleaned_property(p)) =~= clean);
            }
            assert(once.remove("title"@).remove("description"@) =~= once);
            assert(once.insert("properties"@, once["properties"@]) =~= once);
        }
    }
}

/// Cleaning a schema takes the title and the description out of it, and the format and the minimum
/// out of each of its properties, and leaves everything else as it is.
pub proof fn law_cleaning_takes_out_only_what_is_of_no_use(members: Map<Seq<char>, Json>)
    ensures
        ({
            let cleaned_members = cleaned(Json::Object(members))->Object_0;
            &&& cleaned(Json::Object(members)) is Object
            &&& !cleaned_members.contains_key("title"@)
            &&& !cleaned_members.contains_key("description"@)
            &&& forall|name: Seq<char>|
                #![trigger members.contains_key(name)]
                name != "title"@ && name != "description"@ ==> (cleaned_members.contains_key(name)
                    <==> members.contains_key(name))
            &&& forall|name: Seq<char>|
                #![trigger members[name]]
                members.contains_key(name) && name != "title"@ && name != "description"@ && name
                    != "properties"@ ==> cleaned_members[name] == members[name]
            &&& members.contains_key("properties"@) ==> match members["properties"@] {
                Json::Object(properties) => {
                    &&& cleaned_members["properties"@] matches Json::Object(kept)
                    &&& forall|name: Seq<char>|
                        kept.contains_key(name) <==> #[trigger] properties.contains_key(name)
                    &&& forall|name: Seq<char>|
                        #![trigger properties[name]]
                        properties.contains_key(name) ==> match properties[name] {
                            Json::Object(property) => kept[name] == Json::Object(
                                property.remove("format"@).remove("minimum"@),
                            ),
                            other => kept[name] == other,
                        }
                },
                other => cleaned_members["properties"@] == other,
            }
        }),
{
    reveal_strlit("title");
    reveal_strlit("description");
    reveal_strlit("properties");
    assert("title"@.len() == 5 && "description"@.len() == 11 && "properties"@.len() == 10);
}

/// The schema of an object says that it is one, holds the schema of each parameter under its name,
/// and the names of those that are required, in order.
pub proof fn law_a_schema_holds_its_parameters(
    parameters: Seq<(Seq<char>, Json)>,
    required: Seq<Seq<char>>,
)
    requires
        forall|i: int, j: int|
            0 <= i < j < parameters.len() ==> (#[trigger] parameters[i]).0 != (
            #[trigger] parameters[j]).0,
    ensures
        ({
            let schema = object_schema(parameters, required)->Object_0;
            &&& object_schema(parameters, required) is Object
            &&& schema.contains_key("type"@) && schema["type"@] == Json::Text("object"@)
            &&& schema.contains_key("properties"@)
            &&& schema["properties"@] matches Json::Object(properties)
            &&& forall|i: int|
                0 <= i < parameters.len() ==> properties.contains_key((#[trigger] parameters[i]).0)
                    && properties[parameters[i].0] == parameters[i].1
            &&& schema.contains_key("required"@)
            &&& schema["required"@] matches Json::List(names)
            &&& names.len() == required.len()
            &&& forall|i: int|
                0 <= i < names.len() ==> names[i] == Json::Text(#[trigger] required[i])
        }),
{
    reveal_strlit("type");
    reveal_strlit("properties");
    reveal_strlit("required");
    assert("type"@.len() == 4 && "properties"@.len() == 10 && "required"@.len() == 8);
    let members = seq![
        ("type"@, Json::Text("object"@)),
        ("properties"@, Json::Object(json_object(parameters))),
        ("required"@, Json::List(required.map_values(|name: Seq<char>| Json::Text(name)))),
    ];
    lemma_object_holds(members, 0);
    lemma_object_holds(members, 1);
    lemma_object_holds(members, 2);
    assert forall|i: int| 0 <= i < parameters.len() implies json_object(parameters).contains_key(
        (#[trigger] parameters[i]).0,
    ) && json_object(parameters)[parameters[i].0] == parameters[i].1 by {
        lemma_object_holds(parameters, i);
    }
}

/// An object made of members with distinct names holds each of them.
proof fn lemma_object_holds(members: Seq<(Seq<char>, Json)>, i: int)
    requires
        0 <= i < members.len(),
        forall|k: int, l: int|
            0 <= k < l < members.len() ==> (#[trigger] members[k]).0 != (#[trigger] members[l]).0,
    ensures
        json_object(members).contains_key(members[i].0),
        json_object(members)[members[i].0] == members[i].1,
    decreases members.len(),
{
    if i < members.len() - 1 {
        let rest = members.drop_last();
        assert forall|k: int, l: int| 0 <= k < l < rest.len() implies (#[trigger] rest[k]).0 != (
        #[trigger] rest[l]).0 by {
            assert(rest[k] == members[k] && rest[l] == members[l]);
        }
        lemma_object_holds(rest, i);
        assert(rest[i] == members[i]);
        assert(members[i].0 != members[members.len() - 1].0);
    }
}

} // verus!
