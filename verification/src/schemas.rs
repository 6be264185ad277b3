//! Checking a hook payload against the JSON Schema of its event.
//!
//! The schemas form a registry: a JSON object that maps each event name to
//! its schema, and `_common` to the schema every payload shares. The check
//! covers what the schemas use: `required` lists, the `type` of each listed
//! property, and `additionalProperties: false`. The warnings come back
//! sorted and without repeats.

use vstd::prelude::*;
use crate::json::{Json, JsonModel, entries_model, lemma_object_model,
    opt_array, opt_str, values_model};
use crate::json_text::{parse_json_text, spec_json_error, spec_parse_json};
use crate::sorting::{lemma_lex_trichotomy, lex_lt, sort_dedup, strictly_sorted, texts_of};

verus! {

/// The JSON type name of a value, as the warnings print it.
pub open spec fn json_kind(v: JsonModel) -> Seq<char> {
    match v {
        JsonModel::Null => "null"@,
        JsonModel::Bool(_) => "boolean"@,
        JsonModel::Number(_) => "number"@,
        JsonModel::Str(_) => "string"@,
        JsonModel::Array(_) => "array"@,
        JsonModel::Object(_) => "object"@,
    }
}

/// Does a value have the schema type `t`? A type name the check does not
/// know accepts every value; `integer` accepts every number.
pub open spec fn type_ok(t: Seq<char>, v: JsonModel) -> bool {
    if t == "string"@ {
        v is Str
    } else if t == "boolean"@ {
        v is Bool
    } else if t == "number"@ || t == "integer"@ {
        v is Number
    } else if t == "object"@ {
        v is Object
    } else if t == "array"@ {
        v is Array
    } else {
        true
    }
}

/// One warning for each string of `items` that names no member of the
/// instance, in order: the event, the label, the name.
pub open spec fn missing_warnings(
    event: Seq<char>,
    label: Seq<char>,
    items: Seq<JsonModel>,
    instance: JsonModel,
) -> Seq<Seq<char>>
    decreases items.len(),
{
    if items.len() == 0 {
        Seq::empty()
    } else {
        missing_warnings(event, label, items.drop_last(), instance) + match items.last().as_str() {
            Some(name) => if instance.get(name) is None {
                seq![event + label + name]
            } else {
                Seq::empty()
            },
            None => Seq::empty(),
        }
    }
}

/// The warnings for the fields that a schema's `required` list names and
/// the instance lacks.
pub open spec fn required_warnings(
    event: Seq<char>,
    label: Seq<char>,
    schema: JsonModel,
    instance: JsonModel,
) -> Seq<Seq<char>> {
    match opt_array(schema.get("required"@)) {
        Some(items) => missing_warnings(event, label, items, instance),
        None => Seq::empty(),
    }
}

/// The type name of a value.
pub fn json_type_name(v: &Json) -> (r: &'static str)
    ensures
        r@ == json_kind(v@),
{
    match v {
        Json::Null => "null",
        Json::Bool(_) => "boolean",
        Json::Number(_) => "number",
        Json::Str(_) => "string",
        Json::Array(_) => "array",
        Json::Object(_) => "object",
    }
}

/// Does the value have the schema type `t`?
fn type_matches(t: &str, v: &Json) -> (r: bool)
    ensures
        r == type_ok(t@, v@),
{
    if crate::json::str_eq(t, "string") {
        matches!(v, Json::Str(_))
    } else if crate::json::str_eq(t, "boolean") {
        matches!(v, Json::Bool(_))
    } else if crate::json::str_eq(t, "number") || crate::json::str_eq(t, "integer") {
        matches!(v, Json::Number(_))
    } else if crate::json::str_eq(t, "object") {
        matches!(v, Json::Object(_))
    } else if crate::json::str_eq(t, "array") {
        matches!(v, Json::Array(_))
    } else {
        true
    }
}

/// Appends a warning for each name of the schema's `required` list that the
/// instance lacks.
fn push_missing(
    out: &mut Vec<String>,
    event: &str,
    label: &str,
    schema: &Json,
    instance: &Json,
)
    ensures
        texts_of(final(out)@) == texts_of(old(out)@) + required_warnings(
            event@,
            label@,
            schema@,
            instance@,
        ),
{
    let ghost start = texts_of(out@);
    let items = match schema.get("required") {
        Some(req) => match req.as_array() {
            Some(items) => items,
            None => {
                assert(texts_of(out@) =~= start + Seq::<Seq<char>>::empty());
                return ;
            },
        },
        None => {
            assert(texts_of(out@) =~= start + Seq::<Seq<char>>::empty());
            return ;
        },
    };
    let ghost im = values_model(items@);
    let mut i: usize = 0;
    proof {
        assert(im.take(0) =~= Seq::<JsonModel>::empty());
        assert(texts_of(out@) =~= start + Seq::<Seq<char>>::empty());
    }
    while i < items.len()
        invariant
            i <= items.len(),
            im == values_model(items@),
            opt_array(schema@.get("required"@)) == Some(im),
            texts_of(out@) == start + missing_warnings(event@, label@, im.take(i as int), instance@),
        decreases items.len() - i,
    {
        let ghost before = texts_of(out@);
        proof {
            assert(im.take(i + 1).drop_last() =~= im.take(i as int));
            assert(im.take(i + 1).last() == items@[i as int]@);
        }
        match items[i].as_str() {
            Some(name) => {
                if instance.get(name).is_none() {
                    let mut m = String::from_str(event);
                    m.append(label);
                    m.append(name);
                    out.push(m);
                    proof {
                        assert(texts_of(out@) =~= before.push(event@ + label@ + name@));
                    }
                }
            },
            None => {},
        }
        i = i + 1;
    }
    proof {
        assert(im.take(items.len() as int) =~= im);
    }
}

/// The properties a schema lists (its `properties` object), or none.
pub open spec fn known_props(schema: JsonModel) -> Seq<(Seq<char>, JsonModel)> {
    match schema.get("properties"@) {
        Some(p) => match p.as_object() {
            Some(o) => o,
            None => Seq::empty(),
        },
        None => Seq::empty(),
    }
}

/// The warning for one listed property: where the instance has the member,
/// the property is no bare `true` and gives a `type`, and the member is not
/// of that type.
pub open spec fn type_warning(
    event: Seq<char>,
    key: Seq<char>,
    prop: JsonModel,
    instance: JsonModel,
) -> Seq<Seq<char>> {
    if prop.as_bool() == Some(true) {
        Seq::empty()
    } else {
        match instance.get(key) {
            Some(value) => match opt_str(prop.get("type"@)) {
                Some(t) => if type_ok(t, value) {
                    Seq::empty()
                } else {
                    seq![event + "."@ + key + ": expected "@ + t + ", got "@ + json_kind(value)]
                },
                None => Seq::empty(),
            },
            None => Seq::empty(),
        }
    }
}

/// The type warnings for listed properties, in their order.
pub open spec fn type_warnings(
    event: Seq<char>,
    props: Seq<(Seq<char>, JsonModel)>,
    instance: JsonModel,
) -> Seq<Seq<char>>
    decreases props.len(),
{
    if props.len() == 0 {
        Seq::empty()
    } else {
        type_warnings(event, props.drop_last(), instance) + type_warning(
            event,
            props.last().0,
            props.last().1,
            instance,
        )
    }
}

/// Does the value fail to be of the JSON kind a schema type names? Types
/// the check does not know fail no value.
pub open spec fn kind_mismatch(t: Seq<char>, v: JsonModel) -> bool {
    ||| t == "string"@ && !(v is Str)
    ||| t == "boolean"@ && !(v is Bool)
    ||| (t == "number"@ || t == "integer"@) && !(v is Number)
    ||| t == "object"@ && !(v is Object)
    ||| t == "array"@ && !(v is Array)
}

/// The name a warning gives the kind of a value.
pub open spec fn kind_name(v: JsonModel) -> Seq<char> {
    match v {
        JsonModel::Null => "null"@,
        JsonModel::Bool(_) => "boolean"@,
        JsonModel::Number(_) => "number"@,
        JsonModel::Str(_) => "string"@,
        JsonModel::Array(_) => "array"@,
        JsonModel::Object(_) => "object"@,
    }
}

/// A listed property gives one type warning exactly when it is not a bare
/// `true`, gives a text `type`, the instance has the member, and the member
/// is not of the kind that type names; the warning names the event, the
/// member, the type and the member's kind. Otherwise it gives none.
pub proof fn law_type_warning_follows_kind(
    event: Seq<char>,
    key: Seq<char>,
    prop: JsonModel,
    instance: JsonModel,
)
    ensures
        ({
            let w = type_warning(event, key, prop, instance);
            if prop != JsonModel::Bool(true) && instance.get(key) is Some && prop.get("type"@) is Some
                && prop.get("type"@)->0 is Str {
                let v = instance.get(key)->0;
                let t = prop.get("type"@)->0->Str_0;
                &&& w.len() <= 1
                &&& (w.len() == 1 <==> kind_mismatch(t, v))
                &&& w.len() == 1 ==> w[0] == event + "."@ + key + ": expected "@ + t + ", got "@
                    + kind_name(v)
            } else {
                w.len() == 0
            }
        }),
{
    reveal_strlit("string");
    reveal_strlit("boolean");
    reveal_strlit("number");
    reveal_strlit("integer");
    reveal_strlit("object");
    reveal_strlit("array");
    assert("string"@[0] == 's' && "boolean"@[0] == 'b' && "number"@[0] == 'n');
    assert("integer"@[0] == 'i' && "object"@[0] == 'o' && "array"@[0] == 'a');
    let w = type_warning(event, key, prop, instance);
    if prop != JsonModel::Bool(true) && instance.get(key) is Some && prop.get("type"@) is Some
        && prop.get("type"@)->0 is Str {
        let v = instance.get(key)->0;
        let t = prop.get("type"@)->0->Str_0;
        assert(prop.as_bool() != Some(true));
        assert(opt_str(prop.get("type"@)) == Some(t));
        assert(type_ok(t, v) == !kind_mismatch(t, v));
        assert(json_kind(v) == kind_name(v));
    }
}

/// The type warnings for a list of properties are those of its entries:
/// a text is among them exactly when some listed property gives it.
pub proof fn law_type_warnings_of_each_property(
    event: Seq<char>,
    props: Seq<(Seq<char>, JsonModel)>,
    instance: JsonModel,
)
    ensures
        forall|x: Seq<char>|
            #[trigger] type_warnings(event, props, instance).contains(x) <==> exists|i: int|
                0 <= i < props.len() && type_warning(event, props[i].0, props[i].1, instance) == seq![x],
    decreases props.len(),
{
    if props.len() > 0 {
        let pre = props.drop_last();
        law_type_warnings_of_each_property(event, pre, instance);
        let last = props.last();
        let w0 = type_warnings(event, pre, instance);
        let wl = type_warning(event, last.0, last.1, instance);
        law_type_warning_follows_kind(event, last.0, last.1, instance);
        assert forall|x: Seq<char>|
            #[trigger] type_warnings(event, props, instance).contains(x) <==> exists|i: int|
                0 <= i < props.len() && type_warning(event, props[i].0, props[i].1, instance)
                    == seq![x] by {
            let all = type_warnings(event, props, instance);
            assert(all == w0 + wl);
            if all.contains(x) {
                let k = choose|k: int| 0 <= k < all.len() && all[k] == x;
                if k < w0.len() {
                    assert(w0[k] == x);
                    assert(w0.contains(x));
                    let i = choose|i: int|
                        0 <= i < pre.len() && type_warning(event, pre[i].0, pre[i].1, instance)
                            == seq![x];
                    assert(props[i] == pre[i]);
                } else {
                    assert(wl.len() == 1);
                    assert(wl[0] == x);
                    assert(wl =~= seq![x]);
                    assert(props[props.len() - 1] == last);
                }
            }
            if exists|i: int|
                0 <= i < props.len() && type_warning(event, props[i].0, props[i].1, instance)
                    == seq![x] {
                let i = choose|i: int|
                    0 <= i < props.len() && type_warning(event, props[i].0, props[i].1, instance)
                        == seq![x];
                if i < pre.len() {
                    assert(pre[i] == props[i]);
                    assert(w0.contains(x));
                    let k = choose|k: int| 0 <= k < w0.len() && w0[k] == x;
                    assert(all[k] == x);
                } else {
                    assert(props[i] == last);
                    assert(all[w0.len() as int] == x);
                }
            }
        }
    }
}

/// Is `k` the key of one of the entries?
pub open spec fn has_key(props: Seq<(Seq<char>, JsonModel)>, k: Seq<char>) -> bool {
    exists|i: int| 0 <= i < props.len() && #[trigger] props[i].0 == k
}

/// The keys of the entries that are not keys of `known`, in order.
pub open spec fn unknown_keys(
    entries: Seq<(Seq<char>, JsonModel)>,
    known: Seq<(Seq<char>, JsonModel)>,
) -> Seq<Seq<char>>
    decreases entries.len(),
{
    if entries.len() == 0 {
        Seq::empty()
    } else if has_key(known, entries.last().0) {
        unknown_keys(entries.drop_last(), known)
    } else {
        unknown_keys(entries.drop_last(), known).push(entries.last().0)
    }
}

/// The texts joined with a separator between each two.
pub open spec fn join_with(items: Seq<Seq<char>>, sep: Seq<char>) -> Seq<char>
    decreases items.len(),
{
    if items.len() == 0 {
        Seq::empty()
    } else if items.len() == 1 {
        items[0]
    } else {
        join_with(items.drop_last(), sep) + sep + items.last()
    }
}

/// The warning for members that a closed schema (`additionalProperties:
/// false`) does not list, when the instance is an object that has some.
pub open spec fn unknown_warning(
    event: Seq<char>,
    schema: JsonModel,
    instance: JsonModel,
) -> Seq<Seq<char>> {
    if schema.get("additionalProperties"@) == Some(JsonModel::Bool(false)) {
        match instance.as_object() {
            Some(entries) => {
                let u = unknown_keys(entries, known_props(schema));
                if u.len() == 0 {
                    Seq::empty()
                } else {
                    seq![event + ": unknown fields: ["@ + join_with(u, ", "@) + "]"@]
                }
            },
            None => Seq::empty(),
        }
    } else {
        Seq::empty()
    }
}

/// Every warning for an instance, before sorting: missing common fields,
/// missing required fields, mistyped properties, unknown members.
pub open spec fn schema_warnings(
    event: Seq<char>,
    common: JsonModel,
    schema: JsonModel,
    instance: JsonModel,
) -> Seq<Seq<char>> {
    required_warnings(event, ": missing common field: "@, common, instance) + required_warnings(
        event,
        ": missing required field: "@,
        schema,
        instance,
    ) + type_warnings(event, known_props(schema), instance) + unknown_warning(
        event,
        schema,
        instance,
    )
}

/// What checking the text `raw` of an `event` payload against a schema
/// registry gives: the one warning `no schema for event: <event>` when the
/// registry has no schema for it; the one warning `<event>: invalid JSON:
/// <error>` when the text is not JSON; otherwise the warnings of
/// `schema_warnings`, sorted and each once.
pub open spec fn validation_outcome(
    schemas: JsonModel,
    event: Seq<char>,
    raw: Seq<char>,
    out: Seq<Seq<char>>,
) -> bool {
    match schemas.get(event) {
        None => out == seq!["no schema for event: "@ + event],
        Some(schema) => match spec_parse_json(raw) {
            None => out == seq![event + ": invalid JSON: "@ + spec_json_error(raw)],
            Some(instance) => {
                let all = schema_warnings(event, schemas.get("_common"@)->0, schema, instance);
                &&& strictly_sorted(out)
                &&& forall|x: Seq<char>| out.contains(x) <==> all.contains(x)
            },
        },
    }
}

/// Two strictly sorted lists with the same elements are the same list.
proof fn lemma_sorted_listing_unique(a: Seq<Seq<char>>, b: Seq<Seq<char>>)
    requires
        strictly_sorted(a),
        strictly_sorted(b),
        forall|x: Seq<char>| a.contains(x) <==> b.contains(x),
    ensures
        a == b,
    decreases a.len(),
{
    if a.len() == 0 {
        if b.len() > 0 {
            assert(b.contains(b[0]));
        }
        assert(a =~= b);
    } else {
        assert(a.contains(a[0]));
        assert(b.len() > 0);
        assert(b.contains(b[0]));
        let j = choose|j: int| 0 <= j < b.len() && b[j] == a[0];
        let k = choose|k: int| 0 <= k < a.len() && a[k] == b[0];
        lemma_lex_trichotomy(a[0], b[0]);
        if a[0] != b[0] {
            assert(j > 0 && k > 0);
            assert(lex_lt(b[0], b[j]));
            assert(lex_lt(a[0], a[k]));
        }
        let ta = a.drop_first();
        let tb = b.drop_first();
        assert forall|i: int, l: int| 0 <= i < l < ta.len() implies lex_lt(#[trigger] ta[i], #[trigger] ta[l]) by {
            assert(ta[i] == a[i + 1] && ta[l] == a[l + 1]);
        }
        assert forall|i: int, l: int| 0 <= i < l < tb.len() implies lex_lt(#[trigger] tb[i], #[trigger] tb[l]) by {
            assert(tb[i] == b[i + 1] && tb[l] == b[l + 1]);
        }
        assert forall|x: Seq<char>| ta.contains(x) <==> tb.contains(x) by {
            if ta.contains(x) {
                let i = choose|i: int| 0 <= i < ta.len() && ta[i] == x;
                assert(a[i + 1] == x);
                assert(lex_lt(a[0], a[i + 1]));
                lemma_lex_trichotomy(a[0], x);
                assert(a.contains(x));
                let m = choose|m: int| 0 <= m < b.len() && b[m] == x;
                assert(m != 0);
                assert(tb[m - 1] == x);
            }
            if tb.contains(x) {
                let i = choose|i: int| 0 <= i < tb.len() && tb[i] == x;
                assert(b[i + 1] == x);
                assert(lex_lt(b[0], b[i + 1]));
                lemma_lex_trichotomy(b[0], x);
                assert(b.contains(x));
                let m = choose|m: int| 0 <= m < a.len() && a[m] == x;
                assert(m != 0);
                assert(ta[m - 1] == x);
            }
        }
        lemma_sorted_listing_unique(ta, tb);
        assert(a =~= seq![a[0]] + ta);
        assert(b =~= seq![b[0]] + tb);
    }
}

/// The outcome of a check is one list: whatever meets `validation_outcome`
/// for a registry, event and text is the same. `validate_event` and
/// `validate_hook` both give a list that meets it, so they give the same
/// warnings for the same arguments.
pub proof fn law_validation_outcome_unique(
    schemas: JsonModel,
    event: Seq<char>,
    raw: Seq<char>,
    a: Seq<Seq<char>>,
    b: Seq<Seq<char>>,
)
    requires
        validation_outcome(schemas, event, raw, a),
        validation_outcome(schemas, event, raw, b),
    ensures
        a == b,
{
    match schemas.get(event) {
        None => {},
        Some(schema) => match spec_parse_json(raw) {
            None => {},
            Some(instance) => {
                lemma_sorted_listing_unique(a, b);
            },
        },
    }
}

/// The listed properties of a schema, as entries.
fn schema_props(schema: &Json) -> (r: Option<&Vec<(String, Json)>>)
    ensures
        match r {
            Some(p) => known_props(schema@) == entries_model(p@),
            None => known_props(schema@) == Seq::<(Seq<char>, JsonModel)>::empty(),
        },
{
    match schema.get("properties") {
        Some(p) => match p {
            Json::Object(o) => {
                proof {
                    lemma_object_model(*o);
                }
                Some(o)
            },
            _ => None,
        },
        None => None,
    }
}

/// Appends the type warnings for the schema's listed properties.
fn push_type_warnings(out: &mut Vec<String>, event: &str, schema: &Json, instance: &Json)
    ensures
        texts_of(final(out)@) == texts_of(old(out)@) + type_warnings(
            event@,
            known_props(schema@),
            instance@,
        ),
{
    let ghost start = texts_of(out@);
    let props = match schema_props(schema) {
        Some(p) => p,
        None => {
            assert(texts_of(out@) =~= start + Seq::<Seq<char>>::empty());
            return ;
        },
    };
    let ghost pm = entries_model(props@);
    let mut i: usize = 0;
    proof {
        assert(pm.take(0) =~= Seq::<(Seq<char>, JsonModel)>::empty());
        assert(texts_of(out@) =~= start + Seq::<Seq<char>>::empty());
    }
    while i < props.len()
        invariant
            i <= props.len(),
            pm == entries_model(props@),
            known_props(schema@) == pm,
            texts_of(out@) == start + type_warnings(event@, pm.take(i as int), instance@),
        decreases props.len() - i,
    {
        let ghost before = texts_of(out@);
        let key = props[i].0.as_str();
        let prop = &props[i].1;
        proof {
            assert(pm.take(i + 1).drop_last() =~= pm.take(i as int));
            assert(pm.take(i + 1).last() == (key@, prop@));
        }
        let passthrough = match prop {
            Json::Bool(b) => *b,
            _ => false,
        };
        if !passthrough {
            match instance.get(key) {
                Some(value) => match prop.get("type") {
                    Some(tv) => match tv.as_str() {
                        Some(t) => {
                            if !type_matches(t, value) {
                                let mut m = String::from_str(event);
                                m.append(".");
                                m.append(key);
                                m.append(": expected ");
                                m.append(t);
                                m.append(", got ");
                                m.append(json_type_name(value));
                                out.push(m);
                                proof {
                                    assert(texts_of(out@) =~= before + type_warning(
                                        event@,
                                        key@,
                                        prop@,
                                        instance@,
                                    ));
                                }
                            } else {
                                assert(texts_of(out@) =~= before + type_warning(
                                    event@,
                                    key@,
                                    prop@,
                                    instance@,
                                ));
                            }
                        },
                        None => {
                            assert(texts_of(out@) =~= before + type_warning(
                                event@,
                                key@,
                                prop@,
                                instance@,
                            ));
                        },
                    },
                    None => {
                        assert(texts_of(out@) =~= before + type_warning(
                            event@,
                            key@,
                            prop@,
                            instance@,
                        ));
                    },
                },
                None => {
                    assert(texts_of(out@) =~= before + type_warning(
                        event@,
                        key@,
                        prop@,
                        instance@,
                    ));
                },
            }
        } else {
            assert(texts_of(out@) =~= before + type_warning(event@, key@, prop@, instance@));
        }
        i = i + 1;
    }
    proof {
        assert(pm.take(props.len() as int) =~= pm);
    }
}

/// Is `key` the key of one of the entries?
fn entries_have_key(entries: &Vec<(String, Json)>, key: &str) -> (r: bool)
    ensures
        r == has_key(entries_model(entries@), key@),
{
    let ghost em = entries_model(entries@);
    let mut i: usize = 0;
    while i < entries.len()
        invariant
            i <= entries.len(),
            em == entries_model(entries@),
            forall|j: int| 0 <= j < i ==> em[j].0 != key@,
        decreases entries.len() - i,
    {
        if crate::json::str_eq(entries[i].0.as_str(), key) {
            assert(em[i as int].0 == key@);
            return true;
        }
        i = i + 1;
    }
    false
}

/// Appends the warning for members a closed schema does not list.
fn push_unknown(out: &mut Vec<String>, event: &str, schema: &Json, instance: &Json)
    ensures
        texts_of(final(out)@) == texts_of(old(out)@) + unknown_warning(
            event@,
            schema@,
            instance@,
        ),
{
    let ghost start = texts_of(out@);
    let closed = match schema.get("additionalProperties") {
        Some(a) => match a {
            Json::Bool(b) => !*b,
            _ => false,
        },
        None => false,
    };
    if !closed {
        assert(texts_of(out@) =~= start + Seq::<Seq<char>>::empty());
        return ;
    }
    let entries = match instance {
        Json::Object(o) => o,
        _ => {
            assert(texts_of(out@) =~= start + Seq::<Seq<char>>::empty());
            return ;
        },
    };
    proof {
        lemma_object_model(*entries);
    }
    let empty: Vec<(String, Json)> = Vec::new();
    let props = match schema_props(schema) {
        Some(p) => p,
        None => &empty,
    };
    proof {
        assert(entries_model(empty@) =~= Seq::<(Seq<char>, JsonModel)>::empty());
    }
    let ghost known = entries_model(props@);
    let ghost em = entries_model(entries@);
    let mut joined = String::new();
    let mut count: usize = 0;
    let mut i: usize = 0;
    proof {
        assert(em.take(0) =~= Seq::<(Seq<char>, JsonModel)>::empty());
    }
    while i < entries.len()
        invariant
            i <= entries.len(),
            em == entries_model(entries@),
            known == entries_model(props@),
            known == known_props(schema@),
            count <= i,
            count == unknown_keys(em.take(i as int), known).len(),
            joined@ == join_with(unknown_keys(em.take(i as int), known), ", "@),
        decreases entries.len() - i,
    {
        let key = entries[i].0.as_str();
        let ghost u = unknown_keys(em.take(i as int), known);
        proof {
            assert(em.take(i + 1).drop_last() =~= em.take(i as int));
            assert(em.take(i + 1).last().0 == key@);
        }
        if !entries_have_key(props, key) {
            if count > 0 {
                joined.append(", ");
            }
            joined.append(key);
            count = count + 1;
            proof {
                assert(u.push(key@).drop_last() =~= u);
                if u.len() == 0 {
                    assert(joined@ =~= join_with(u.push(key@), ", "@));
                }
            }
        }
        i = i + 1;
    }
    proof {
        assert(em.take(entries.len() as int) =~= em);
    }
    if count > 0 {
        let mut m = String::from_str(event);
        m.append(": unknown fields: [");
        m.append(joined.as_str());
        m.append("]");
        out.push(m);
        assert(texts_of(out@) =~= start + unknown_warning(event@, schema@, instance@));
    } else {
        assert(texts_of(out@) =~= start + Seq::<Seq<char>>::empty());
    }
}

/// Checks an event payload against the schema the registry holds for the
/// event, and against the registry's `_common` schema.
///
/// An event with no schema gives the one warning `no schema for event:
/// <event>`; a payload that is not JSON gives `<event>: invalid JSON:
/// <error>`. Otherwise the warnings are those of `schema_warnings`, sorted
/// and each kept once.
pub fn validate_event(schemas: &Json, event: &str, raw: &str) -> (r: Vec<String>)
    requires
        schemas@.get("_common"@) is Some,
    ensures
        validation_outcome(schemas@, event@, raw@, texts_of(r@)),
{
    let schema = match schemas.get(event) {
        Some(s) => s,
        None => {
            let mut m = String::from_str("no schema for event: ");
            m.append(event);
            let mut v: Vec<String> = Vec::new();
            v.push(m);
            assert(texts_of(v@) =~= seq!["no schema for event: "@ + event@]);
            return v;
        },
    };
    let instance = match parse_json_text(raw) {
        Ok(v) => v,
        Err(e) => {
            let mut m = String::from_str(event);
            m.append(": invalid JSON: ");
            m.append(e.as_str());
            let mut v: Vec<String> = Vec::new();
            v.push(m);
            assert(texts_of(v@) =~= seq![event@ + ": invalid JSON: "@ + spec_json_error(raw@)]);
            return v;
        },
    };
    let common = match schemas.get("_common") {
        Some(c) => c,
        None => {
            return Vec::new();
        },
    };
    let mut warnings: Vec<String> = Vec::new();
    proof {
        assert(texts_of(warnings@) =~= Seq::<Seq<char>>::empty());
    }
    push_missing(&mut warnings, event, ": missing common field: ", common, &instance);
    push_missing(&mut warnings, event, ": missing required field: ", schema, &instance);
    push_type_warnings(&mut warnings, event, schema, &instance);
    push_unknown(&mut warnings, event, schema, &instance);
    proof {
        assert(texts_of(warnings@) =~= schema_warnings(event@, common@, schema@, instance@));
    }
    sort_dedup(warnings)
}

/// The same check as `validate_event`, under the name the hook receiver
/// uses.
pub fn validate_hook(schemas: &Json, event: &str, raw: &str) -> (r: Vec<String>)
    requires
        schemas@.get("_common"@) is Some,
    ensures
        validation_outcome(schemas@, event@, raw@, texts_of(r@)),
{
    validate_event(schemas, event, raw)
}

/// Types whose values keep the members that their declared fields do not
/// name; `extra_fields` lists those members' keys.
pub trait HasExtra {
    fn extra_fields(&self) -> Vec<String>;
}

} // verus!
