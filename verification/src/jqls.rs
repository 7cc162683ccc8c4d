//! The schema engine: validates a collection-definition document against the
//! structural rules, and types the result.
use vstd::prelude::*;

use crate::dtp::{is_type_tag, str_is_type_tag};
use crate::error::{JqlErrModel, JqlError};
use crate::func::{str_name_ok, valid_name};
use crate::headers::{FieldModel, Jql, JqlSchema, JqlSchemaFields, SchemaModel, Types};
use crate::json::{
    arr_of, json_arr, json_bool, json_get, json_str, obj_of, parse_json_text, str_of, value_model,
    json_text_model, JsonModel,
};

verus! {

/// The rules one declared field must meet: a `_name` passing the naming rule
/// and a `_declare` from the type vocabulary.
pub open spec fn schema_field_ok(m: JsonModel) -> bool {
    &&& m is Obj
    &&& obj_of(m).dom().contains("_name"@)
    &&& obj_of(m)["_name"@] is Str
    &&& valid_name(str_of(obj_of(m)["_name"@]))
    &&& obj_of(m).dom().contains("_declare"@)
    &&& obj_of(m)["_declare"@] is Str
    &&& is_type_tag(str_of(obj_of(m)["_declare"@]))
}

/// The typed shape of one acceptable field: its name, its declared type, and
/// the optional marker where it carries a string.
pub open spec fn spec_field_of(m: JsonModel) -> FieldModel {
    FieldModel {
        name: str_of(obj_of(m)["_name"@]),
        declare: str_of(obj_of(m)["_declare"@]),
        optional: if obj_of(m).dom().contains("_optional"@) && obj_of(m)["_optional"@] is Str {
            Some(str_of(obj_of(m)["_optional"@]))
        } else {
            None
        },
    }
}

/// Whether an object carries, under `k`, a string that passes the naming rule.
pub open spec fn named_str_ok(f: Map<Seq<char>, JsonModel>, k: Seq<char>) -> bool {
    &&& f.dom().contains(k)
    &&& f[k] is Str
    &&& valid_name(str_of(f[k]))
}

/// The structural rules a collection schema must meet: `_name` and `_key`
/// present and passing the naming rule; `_fields` an array whose every
/// element is an acceptable field; `_in_memory`, where present, boolean.
pub open spec fn schema_shape_ok(m: JsonModel) -> bool {
    &&& m is Obj
    &&& named_str_ok(obj_of(m), "_name"@)
    &&& named_str_ok(obj_of(m), "_key"@)
    &&& obj_of(m).dom().contains("_fields"@)
    &&& obj_of(m)["_fields"@] is Arr
    &&& forall|i: int|
        0 <= i < arr_of(obj_of(m)["_fields"@]).len() ==> schema_field_ok(
            #[trigger] arr_of(obj_of(m)["_fields"@])[i],
        )
    &&& (obj_of(m).dom().contains("_in_memory"@) ==> obj_of(m)["_in_memory"@] is Bool)
}

/// The property a structurally unacceptable schema is first faulted on, in
/// the order the rules are checked.
pub open spec fn schema_fault(m: JsonModel) -> Seq<char> {
    if !(m is Obj) || !named_str_ok(obj_of(m), "_name"@) {
        "_name"@
    } else if !named_str_ok(obj_of(m), "_key"@) {
        "_key"@
    } else if !(obj_of(m).dom().contains("_fields"@) && obj_of(m)["_fields"@] is Arr && forall|
        i: int,
    |
        0 <= i < arr_of(obj_of(m)["_fields"@]).len() ==> schema_field_ok(
            #[trigger] arr_of(obj_of(m)["_fields"@])[i],
        )) {
        "_fields"@
    } else {
        "_in_memory"@
    }
}

/// The typed shape of a structurally acceptable schema.
pub open spec fn spec_schema_of(m: JsonModel) -> SchemaModel {
    SchemaModel {
        name: str_of(obj_of(m)["_name"@]),
        key: str_of(obj_of(m)["_key"@]),
        fields: arr_of(obj_of(m)["_fields"@]).map_values(|f: JsonModel| spec_field_of(f)),
    }
}

/// What validating a schema document yields: the typed schema; a property
/// fault where the shape is unacceptable; and, deliberately checked only
/// after the shape rules, a fields-required fault where `_fields` is empty —
/// emptiness is a semantic rule, not a shape rule.
pub open spec fn spec_schema_check(m: JsonModel) -> Result<SchemaModel, JqlErrModel> {
    if !schema_shape_ok(m) {
        Err(JqlErrModel::DocumentPropertyDataTypeError(schema_fault(m)))
    } else if arr_of(obj_of(m)["_fields"@]).len() == 0 {
        Err(JqlErrModel::NoFieldsProvided(str_of(obj_of(m)["_name"@])))
    } else {
        Ok(spec_schema_of(m))
    }
}

/// Validates a schema document and types it.
pub(crate) fn schema_of_value(v: &serde_json::Value) -> (r: Result<JqlSchema, JqlError>)
    ensures
        match r {
            Ok(s) => spec_schema_check(value_model(*v)) == Ok::<SchemaModel, JqlErrModel>(s@),
            Err(e) => spec_schema_check(value_model(*v)) == Err::<SchemaModel, JqlErrModel>(e@),
        },
{
    let ghost m = value_model(*v);
    let name_s: String = match json_get(v, Types::Name.as_str()) {
        None => {
            return Err(JqlError::DocumentPropertyDataTypeError("_name".to_owned()));
        },
        Some(nv) => match json_str(nv) {
            None => {
                return Err(JqlError::DocumentPropertyDataTypeError("_name".to_owned()));
            },
            Some(s) => {
                if !str_name_ok(s) {
                    return Err(JqlError::DocumentPropertyDataTypeError("_name".to_owned()));
                }
                s.to_owned()
            },
        },
    };
    let key_s: String = match json_get(v, Types::Key.as_str()) {
        None => {
            return Err(JqlError::DocumentPropertyDataTypeError("_key".to_owned()));
        },
        Some(kv) => match json_str(kv) {
            None => {
                return Err(JqlError::DocumentPropertyDataTypeError("_key".to_owned()));
            },
            Some(s) => {
                if !str_name_ok(s) {
                    return Err(JqlError::DocumentPropertyDataTypeError("_key".to_owned()));
                }
                s.to_owned()
            },
        },
    };
    let items: &Vec<serde_json::Value> = match json_get(v, Types::Fields.as_str()) {
        None => {
            return Err(JqlError::DocumentPropertyDataTypeError("_fields".to_owned()));
        },
        Some(fv) => match json_arr(fv) {
            None => {
                return Err(JqlError::DocumentPropertyDataTypeError("_fields".to_owned()));
            },
            Some(items) => items,
        },
    };
    let ghost ms = arr_of(obj_of(m)["_fields"@]);
    let mut fields: Vec<JqlSchemaFields> = Vec::new();
    let mut i: usize = 0;
    proof {
        assert(fields.deep_view() =~= ms.take(0).map_values(|f: JsonModel| spec_field_of(f)));
    }
    while i < items.len()
        invariant
            0 <= i <= items@.len(),
            m == value_model(*v),
            named_str_ok(obj_of(m), "_name"@),
            named_str_ok(obj_of(m), "_key"@),
            obj_of(m).dom().contains("_fields"@),
            obj_of(m)["_fields"@] is Arr,
            ms == arr_of(obj_of(m)["_fields"@]),
            ms.len() == items@.len(),
            forall|j: int| 0 <= j < items@.len() ==> #[trigger] value_model(items@[j]) == ms[j],
            forall|j: int| 0 <= j < i ==> schema_field_ok(#[trigger] ms[j]),
            fields.deep_view() == ms.take(i as int).map_values(|f: JsonModel| spec_field_of(f)),
        decreases items@.len() - i,
    {
        let el: &serde_json::Value = &items[i];
        let f_name: String = match json_get(el, Types::Name.as_str()) {
            None => {
                return Err(JqlError::DocumentPropertyDataTypeError("_fields".to_owned()));
            },
            Some(nv) => match json_str(nv) {
                None => {
                    return Err(JqlError::DocumentPropertyDataTypeError("_fields".to_owned()));
                },
                Some(s) => {
                    if !str_name_ok(s) {
                        return Err(JqlError::DocumentPropertyDataTypeError("_fields".to_owned()));
                    }
                    s.to_owned()
                },
            },
        };
        let f_declare: String = match json_get(el, Types::Declare.as_str()) {
            None => {
                return Err(JqlError::DocumentPropertyDataTypeError("_fields".to_owned()));
            },
            Some(dv) => match json_str(dv) {
                None => {
                    return Err(JqlError::DocumentPropertyDataTypeError("_fields".to_owned()));
                },
                Some(s) => {
                    if !str_is_type_tag(s) {
                        return Err(JqlError::DocumentPropertyDataTypeError("_fields".to_owned()));
                    }
                    s.to_owned()
                },
            },
        };
        let f_optional: Option<String> = match json_get(el, "_optional") {
            None => None,
            Some(ov) => match json_str(ov) {
                None => None,
                Some(s) => Some(s.to_owned()),
            },
        };
        let ghost before = fields.deep_view();
        fields.push(JqlSchemaFields { _name: f_name, _declare: f_declare, _optional: f_optional });
        proof {
            assert(schema_field_ok(ms[i as int]));
            assert(fields.deep_view() =~= before.push(spec_field_of(ms[i as int])));
            assert(ms.take(i + 1 as int) =~= ms.take(i as int).push(ms[i as int]));
            assert(fields.deep_view() =~= ms.take(i + 1 as int).map_values(
                |f: JsonModel| spec_field_of(f),
            ));
        }
        i = i + 1;
    }
    match json_get(v, Types::InMemory.as_str()) {
        None => {},
        Some(bv) => {
            if json_bool(bv).is_none() {
                return Err(JqlError::DocumentPropertyDataTypeError("_in_memory".to_owned()));
            }
        },
    }
    proof {
        assert(schema_shape_ok(m));
    }
    if fields.len() == 0 {
        return Err(JqlError::NoFieldsProvided(name_s));
    }
    let schema = JqlSchema { _name: name_s, _key: key_s, _fields: fields };
    proof {
        assert(ms.take(ms.len() as int) =~= ms);
        assert(schema@ == spec_schema_of(m));
    }
    Ok(schema)
}

impl Jql {
    /// A schema engine; the rules it applies are fixed.
    pub fn new_schema_parser() -> (r: Jql) {
        Jql {  }
    }

    /// Validates a schema document handed over as text. Text that is not
    /// acceptable JSON is a malformed schema.
    pub fn parse_schema(&self, values: String) -> (r: Result<(), JqlError>)
        ensures
            match json_text_model(values@) {
                None => r matches Err(e) && e@ == JqlErrModel::MalformedSchema,
                Some(m) => match r {
                    Ok(u) => spec_schema_check(m) is Ok,
                    Err(e) => spec_schema_check(m) matches Err(em) && em == e@,
                },
            },
    {
        let parsed = parse_json_text(values.as_str());
        self.parse_schema_with_json(parsed.as_ref())
    }

    /// Validates a parsed schema document; an absent one is a malformed
    /// schema.
    pub fn parse_schema_with_json(&self, values: Option<&serde_json::Value>) -> (r: Result<
        (),
        JqlError,
    >)
        ensures
            match values {
                None => r matches Err(e) && e@ == JqlErrModel::MalformedSchema,
                Some(v) => match r {
                    Ok(u) => spec_schema_check(value_model(*v)) is Ok,
                    Err(e) => spec_schema_check(value_model(*v)) matches Err(em) && em == e@,
                },
            },
    {
        match values {
            None => Err(JqlError::MalformedSchema),
            Some(v) => match schema_of_value(v) {
                Ok(s) => Ok(()),
                Err(e) => Err(e),
            },
        }
    }
}

} // verus!
