//! JSON bodies: one field for each scalar of the document, keyed by its path.

use vstd::prelude::*;
use crate::fields::{FieldSeq, ParseError, ParseErrorModel, RequestField, spec_add, result_error, keeps_fields, lemma_add_keeps_fields, lemma_keeps_fields_chain, lemma_keeps_fields_same};
use crate::text::{decimal, decimal_digits};

verus! {

/// A JSON document. A number is held as its decimal text; the members of an
/// object come in the order in which the parser hands them out.
#[derive(Debug)]
pub enum JsonValue {
    Null,
    Bool(bool),
    Number(String),
    Str(String),
    Array(Vec<JsonValue>),
    Object(Vec<(String, JsonValue)>),
}

/// The model of a [`JsonValue`]: the same tree over sequences of characters.
pub enum JsonModel {
    Null,
    Bool(bool),
    Number(Seq<char>),
    Str(Seq<char>),
    Array(Seq<JsonModel>),
    Object(Seq<(Seq<char>, JsonModel)>),
}

impl View for JsonValue {
    type V = JsonModel;

    open spec fn view(&self) -> JsonModel
        decreases self,
    {
        match self {
            JsonValue::Null => JsonModel::Null,
            JsonValue::Bool(b) => JsonModel::Bool(*b),
            JsonValue::Number(n) => JsonModel::Number(n@),
            JsonValue::Str(s) => JsonModel::Str(s@),
            JsonValue::Array(items) => JsonModel::Array(item_models(items@, items@.len())),
            JsonValue::Object(members) => JsonModel::Object(member_models(members@, members@.len())),
        }
    }
}

/// The models of the first `n` items of an array.
pub open spec fn item_models(items: Seq<JsonValue>, n: nat) -> Seq<JsonModel>
    decreases items, n,
{
    if n == 0 || n > items.len() {
        Seq::empty()
    } else {
        item_models(items, (n - 1) as nat).push(items[n - 1]@)
    }
}

/// The model of an array has the model of each item, in the same place.
pub proof fn lemma_item_models(items: Seq<JsonValue>, n: nat)
    requires
        n <= items.len(),
    ensures
        item_models(items, n).len() == n,
        forall|j: int| 0 <= j < n ==> item_models(items, n)[j] == (#[trigger] items[j])@,
    decreases n,
{
    reveal_with_fuel(item_models, 2);
    if n > 0 {
        lemma_item_models(items, (n - 1) as nat);
    }
}

/// The models of the first `n` members of an object.
pub open spec fn member_models(members: Seq<(String, JsonValue)>, n: nat) -> Seq<(Seq<char>, JsonModel)>
    decreases members, n,
{
    if n == 0 || n > members.len() {
        Seq::empty()
    } else {
        member_models(members, (n - 1) as nat).push((members[n - 1].0@, members[n - 1].1@))
    }
}

/// The model of an object has one member for each member, with its name and the model of its value.
pub proof fn lemma_member_models(members: Seq<(String, JsonValue)>, n: nat)
    requires
        n <= members.len(),
    ensures
        member_models(members, n).len() == n,
        forall|j: int| 0 <= j < n ==> member_models(members, n)[j] == ((#[trigger] members[j]).0@, members[j].1@),
    decreases n,
{
    if n > 0 {
        lemma_member_models(members, (n - 1) as nat);
    }
}

/// The model of a path: the characters of each segment.
pub open spec fn segments(path: Seq<String>) -> Seq<Seq<char>> {
    Seq::new(path.len(), |i: int| path[i]@)
}

/// The segments joined by `_`.
pub open spec fn joined(path: Seq<Seq<char>>) -> Seq<char>
    decreases path.len(),
{
    if path.len() == 0 {
        Seq::empty()
    } else if path.len() == 1 {
        path[0]
    } else {
        joined(path.drop_last()) + seq!['_'] + path.last()
    }
}

/// The key of a path: `JSON_ROOT` for the empty path, else its segments joined by `_`.
pub open spec fn spec_json_path(path: Seq<Seq<char>>) -> Seq<char> {
    if path.len() == 0 {
        "JSON_ROOT"@
    } else {
        joined(path)
    }
}

/// The text of a scalar; `None` for an array or an object.
pub open spec fn scalar_text(value: JsonModel) -> Option<Seq<char>> {
    match value {
        JsonModel::Null => Some("null"@),
        JsonModel::Bool(b) => Some(
            if b {
                "true"@
            } else {
                "false"@
            },
        ),
        JsonModel::Number(n) => Some(n),
        JsonModel::Str(s) => Some(s),
        JsonModel::Array(_) => None,
        JsonModel::Object(_) => None,
    }
}

/// The fields after `value`, which stands at `path`, is flattened: a scalar
/// is added under the key of its path; the items of an array and the members
/// of an object are flattened in their order, each at the path with its index
/// or its name as one more segment.
pub open spec fn spec_flatten_json(fields: FieldSeq, path: Seq<Seq<char>>, value: JsonModel) -> FieldSeq
    decreases value, 0nat,
{
    match value {
        JsonModel::Array(items) => spec_flatten_items(fields, path, items, 0),
        JsonModel::Object(members) => spec_flatten_members(fields, path, members, 0),
        _ => spec_add(fields, spec_json_path(path), scalar_text(value)->0),
    }
}

/// The fields after the items of an array from the index `from` on are flattened.
pub open spec fn spec_flatten_items(
    fields: FieldSeq,
    path: Seq<Seq<char>>,
    items: Seq<JsonModel>,
    from: nat,
) -> FieldSeq
    decreases items, items.len() - from,
{
    if from >= items.len() {
        fields
    } else {
        spec_flatten_items(
            spec_flatten_json(fields, path.push(decimal_digits(from)), items[from as int]),
            path,
            items,
            from + 1,
        )
    }
}

/// The fields after the members of an object from the index `from` on are flattened.
pub open spec fn spec_flatten_members(
    fields: FieldSeq,
    path: Seq<Seq<char>>,
    members: Seq<(Seq<char>, JsonModel)>,
    from: nat,
) -> FieldSeq
    decreases members, members.len() - from,
{
    if from >= members.len() {
        fields
    } else {
        spec_flatten_members(
            spec_flatten_json(fields, path.push(members[from as int].0), members[from as int].1),
            path,
            members,
            from + 1,
        )
    }
}

/// A document that is one scalar gives one added field, under `JSON_ROOT`.
pub proof fn lemma_scalar_root(fields: FieldSeq, value: JsonModel)
    requires
        scalar_text(value) is Some,
    ensures
        spec_flatten_json(fields, Seq::empty(), value) == spec_add(fields, "JSON_ROOT"@, scalar_text(value)->0),
{
}

/// An array or an object without content adds no field, wherever it stands.
pub proof fn lemma_empty_container(fields: FieldSeq, path: Seq<Seq<char>>)
    ensures
        spec_flatten_json(fields, path, JsonModel::Array(Seq::empty())) == fields,
        spec_flatten_json(fields, path, JsonModel::Object(Seq::empty())) == fields,
{
}

/// The scalars of an array of scalars are added in their order, each under
/// the path of the array, `_` and its index; at the root, under its index alone.
pub proof fn lemma_array_of_scalars(fields: FieldSeq, path: Seq<Seq<char>>, items: Seq<JsonModel>, from: nat)
    requires
        from < items.len(),
        scalar_text(items[from as int]) is Some,
    ensures
        spec_flatten_items(fields, path, items, from) == spec_flatten_items(
            spec_add(
                fields,
                if path.len() == 0 {
                    decimal_digits(from)
                } else {
                    joined(path) + seq!['_'] + decimal_digits(from)
                },
                scalar_text(items[from as int])->0,
            ),
            path,
            items,
            from + 1,
        ),
{
    reveal_with_fuel(spec_flatten_items, 2);
    let deeper = path.push(decimal_digits(from));
    assert(deeper.drop_last() =~= path);
    if path.len() > 0 {
        assert(joined(deeper) == joined(path) + seq!['_'] + decimal_digits(from));
    } else {
        assert(joined(deeper) == decimal_digits(from));
    }
}

/// Flattening a document removes and overwrites nothing.
pub proof fn lemma_flatten_keeps_fields(fields: FieldSeq, path: Seq<Seq<char>>, value: JsonModel)
    ensures
        keeps_fields(fields, spec_flatten_json(fields, path, value)),
    decreases value, 0nat,
{
    match value {
        JsonModel::Array(items) => lemma_items_keep_fields(fields, path, items, 0),
        JsonModel::Object(members) => lemma_members_keep_fields(fields, path, members, 0),
        _ => lemma_add_keeps_fields(fields, spec_json_path(path), scalar_text(value)->0),
    }
}

/// Flattening the items of an array removes and overwrites nothing.
pub proof fn lemma_items_keep_fields(fields: FieldSeq, path: Seq<Seq<char>>, items: Seq<JsonModel>, from: nat)
    ensures
        keeps_fields(fields, spec_flatten_items(fields, path, items, from)),
    decreases items, items.len() - from,
{
    if from < items.len() {
        let deeper = path.push(decimal_digits(from));
        let next = spec_flatten_json(fields, deeper, items[from as int]);
        lemma_flatten_keeps_fields(fields, deeper, items[from as int]);
        lemma_items_keep_fields(next, path, items, from + 1);
        lemma_keeps_fields_chain(fields, next, spec_flatten_items(next, path, items, from + 1));
    } else {
        lemma_keeps_fields_same(fields);
    }
}

/// Flattening the members of an object removes and overwrites nothing.
pub proof fn lemma_members_keep_fields(
    fields: FieldSeq,
    path: Seq<Seq<char>>,
    members: Seq<(Seq<char>, JsonModel)>,
    from: nat,
)
    ensures
        keeps_fields(fields, spec_flatten_members(fields, path, members, from)),
    decreases members, members.len() - from,
{
    if from < members.len() {
        let deeper = path.push(members[from as int].0);
        let next = spec_flatten_json(fields, deeper, members[from as int].1);
        lemma_flatten_keeps_fields(fields, deeper, members[from as int].1);
        lemma_members_keep_fields(next, path, members, from + 1);
        lemma_keeps_fields_chain(fields, next, spec_flatten_members(next, path, members, from + 1));
    } else {
        lemma_keeps_fields_same(fields);
    }
}

/// The key of a path: `JSON_ROOT` where it is empty, else its segments joined by `_`.
pub fn json_path(prefix: &Vec<String>) -> (key: String)
    ensures
        key@ == spec_json_path(segments(prefix@)),
{
    if prefix.len() == 0 {
        return String::from_str("JSON_ROOT");
    }
    let mut key = prefix[0].clone();
    let mut i: usize = 1;
    assert(segments(prefix@).take(1) =~= seq![prefix@[0]@]);
    while i < prefix.len()
        invariant
            1 <= i <= prefix@.len(),
            key@ == joined(segments(prefix@).take(i as int)),
        decreases prefix@.len() - i,
    {
        key.append("_");
        key.append(prefix[i].as_str());
        proof {
            reveal_strlit("_");
            assert("_"@ =~= seq!['_']);
            let s = segments(prefix@);
            assert(s.take(i + 1).drop_last() =~= s.take(i as int));
            assert(s.take(i + 1).last() == s[i as int]);
        }
        i += 1;
    }
    assert(segments(prefix@).take(i as int) =~= segments(prefix@));
    key
}

/// Flattens `value`, which stands at the path `prefix`, into the store. The
/// path is used as a stack and is left as it was.
pub fn flatten_json(args: &mut RequestField, prefix: &mut Vec<String>, value: &JsonValue)
    requires
        old(args).wf(),
    ensures
        final(args).wf(),
        final(args)@ == spec_flatten_json(old(args)@, segments(old(prefix)@), value@),
        segments(final(prefix)@) == segments(old(prefix)@),
    decreases value,
{
    let ghost path = segments(prefix@);
    match value {
        JsonValue::Array(items) => {
            let ghost models = value@->Array_0;
            proof {
                lemma_item_models(items@, items@.len());
            }
            let mut i: usize = 0;
            while i < items.len()
                invariant
                    i <= items@.len(),
                    models.len() == items@.len(),
                    forall|j: int| 0 <= j < items@.len() ==> models[j] == (#[trigger] items@[j])@,
                    args.wf(),
                    segments(prefix@) == path,
                    decreases_to!(value => items),
                    spec_flatten_items(args@, path, models, i as nat) == spec_flatten_items(
                        old(args)@,
                        path,
                        models,
                        0,
                    ),
                decreases items@.len() - i,
            {
                prefix.push(decimal(i as u64));
                assert(segments(prefix@) =~= path.push(decimal_digits(i as nat)));
                flatten_json(args, prefix, &items[i]);
                let ghost deeper = prefix@;
                prefix.pop();
                assert(segments(prefix@) =~= segments(deeper).drop_last());
                assert(segments(deeper).drop_last() =~= path);
                i += 1;
            }
        },
        JsonValue::Object(members) => {
            let ghost models = value@->Object_0;
            proof {
                lemma_member_models(members@, members@.len());
            }
            let mut i: usize = 0;
            while i < members.len()
                invariant
                    i <= members@.len(),
                    models.len() == members@.len(),
                    forall|j: int|
                        0 <= j < members@.len() ==> models[j] == ((#[trigger] members@[j]).0@, members@[j].1@),
                    args.wf(),
                    segments(prefix@) == path,
                    decreases_to!(value => members),
                    spec_flatten_members(args@, path, models, i as nat) == spec_flatten_members(
                        old(args)@,
                        path,
                        models,
                        0,
                    ),
                decreases members@.len() - i,
            {
                prefix.push(members[i].0.clone());
                assert(segments(prefix@) =~= path.push(members@[i as int].0@));
                flatten_json(args, prefix, &members[i].1);
                let ghost deeper = prefix@;
                prefix.pop();
                assert(segments(prefix@) =~= segments(deeper).drop_last());
                assert(segments(deeper).drop_last() =~= path);
                i += 1;
            }
        },
        JsonValue::Str(s) => {
            args.add(json_path(prefix), s.clone());
        },
        JsonValue::Bool(b) => {
            let text = if *b {
                "true"
            } else {
                "false"
            };
            args.add(json_path(prefix), String::from_str(text));
        },
        JsonValue::Number(n) => {
            args.add(json_path(prefix), n.clone());
        },
        JsonValue::Null => {
            args.add(json_path(prefix), String::from_str("null"));
        },
    }
}

/// `serde_json::Value`, the parser's own tree; nothing is known of a value of it.
#[verifier::external_type_specification]
#[verifier::external_body]
pub struct ExJsonTree(serde_json::Value);

/// Tells the variants of `serde_json::Value` apart and copies what they
/// hold: a number as the text that its `Display` gives, the items of an array
/// and the members of an object in the order of their iterators. Nothing is
/// claimed of the result.
#[verifier::external_body]
fn json_value_of(value: serde_json::Value) -> JsonValue {
    match value {
        serde_json::Value::Null => JsonValue::Null,
        serde_json::Value::Bool(b) => JsonValue::Bool(b),
        serde_json::Value::Number(n) => JsonValue::Number(n.to_string()),
        serde_json::Value::String(s) => JsonValue::Str(s),
        serde_json::Value::Array(items) => JsonValue::Array(items.into_iter().map(json_value_of).collect()),
        serde_json::Value::Object(members) => JsonValue::Object(members.into_iter().map(|(k, v)| (k, json_value_of(v))).collect()),
    }
}

/// The view of a parsed document or of the parser's message.
pub open spec fn parsed_view(r: Result<JsonValue, String>) -> Result<JsonModel, Seq<char>> {
    match r {
        Ok(v) => Ok(v@),
        Err(e) => Err(e@),
    }
}

/// What `serde_json::from_slice` makes of these bytes: the document, or the
/// message of its error.
pub uninterp spec fn json_parsed(body: Seq<u8>) -> Result<JsonModel, Seq<char>>;

/// Calls `serde_json::from_slice` for a `serde_json::Value`; its error
/// becomes the text of its `Display`. The contract only names the result.
#[verifier::external_body]
pub(crate) fn parse_json(body: &[u8]) -> (r: Result<JsonValue, String>)
    ensures
        parsed_view(r) == json_parsed(body@),
{
    match serde_json::from_slice::<serde_json::Value>(body) {
        Ok(value) => Ok(json_value_of(value)),
        Err(e) => Err(e.to_string()),
    }
}

/// The fields and the error after a parse: the flattened document, or the
/// fields unchanged and the parser's message.
pub open spec fn spec_json_fields(fields: FieldSeq, parsed: Result<JsonModel, Seq<char>>) -> (
    FieldSeq,
    Option<ParseErrorModel>,
) {
    match parsed {
        Ok(value) => (spec_flatten_json(fields, Seq::empty(), value), None),
        Err(text) => (fields, Some(ParseErrorModel::InvalidJson(text))),
    }
}

/// Adds the fields of a parsed document, or reports the parser's message and
/// leaves the store as it was.
pub fn json_fields(args: &mut RequestField, parsed: Result<JsonValue, String>) -> (r: Result<(), ParseError>)
    requires
        old(args).wf(),
    ensures
        final(args).wf(),
        (final(args)@, result_error(r)) == spec_json_fields(old(args)@, parsed_view(parsed)),
{
    match parsed {
        Ok(value) => {
            let mut prefix: Vec<String> = Vec::new();
            assert(segments(prefix@) =~= Seq::empty());
            flatten_json(args, &mut prefix, &value);
            Ok(())
        },
        Err(text) => Err(ParseError::InvalidJson(text)),
    }
}

/// The fields and the error after a JSON body.
pub open spec fn spec_json_body(fields: FieldSeq, body: Seq<u8>) -> (FieldSeq, Option<ParseErrorModel>) {
    spec_json_fields(fields, json_parsed(body))
}

/// A JSON body removes and overwrites nothing; one that is not JSON leaves
/// the fields as they were.
pub proof fn lemma_json_keeps_fields(fields: FieldSeq, body: Seq<u8>)
    ensures
        keeps_fields(fields, spec_json_body(fields, body).0),
        spec_json_body(fields, body).1 is Some ==> spec_json_body(fields, body).0 == fields,
{
    match json_parsed(body) {
        Ok(value) => lemma_flatten_keeps_fields(fields, Seq::empty(), value),
        Err(_) => lemma_keeps_fields_same(fields),
    }
}

/// Parses the whole body as JSON and flattens it. A body that is not JSON
/// adds no field.
pub fn json_body(args: &mut RequestField, body: &[u8]) -> (r: Result<(), ParseError>)
    requires
        old(args).wf(),
    ensures
        final(args).wf(),
        (final(args)@, result_error(r)) == spec_json_body(old(args)@, body@),
{
    let parsed = parse_json(body);
    json_fields(args, parsed)
}

} // verus!
