use jsonschema::compilation::{JSONSchema, ValidationErrorKind};
use jsonschema::json::{Json, Number};
use jsonschema::keywords::Validator;
use jsonschema::minimum::compile_limit;
use jsonschema::number::num_ge;
use jsonschema::render::to_json_string;
use jsonschema::resolver::{resolve_pointer, ResolveError};
use jsonschema::scope::{CompilationContext, CompilationError, Draft};
use jsonschema::echo;
use serde_json::Value;

fn float_number(f: f64) -> Number {
    let bits = f.to_bits();
    let negative = bits >> 63 == 1;
    let biased = ((bits >> 52) & 0x7ff) as i32;
    let fraction = bits & ((1u64 << 52) - 1);
    let (mut m, mut e) = if biased == 0 {
        (fraction, -1074)
    } else {
        (fraction | (1u64 << 52), biased - 1075)
    };
    while m != 0 && m % 2 == 0 {
        m /= 2;
        e += 1;
    }
    let mantissa = if negative { -(m as i64) } else { m as i64 };
    Number::Float { mantissa, exponent: e }
}

fn from_value(v: &Value) -> Json {
    match v {
        Value::Null => Json::Null,
        Value::Bool(b) => Json::Bool(*b),
        Value::Number(n) => {
            if let Some(u) = n.as_u64() {
                Json::Number(Number::Unsigned(u))
            } else if let Some(i) = n.as_i64() {
                Json::Number(Number::Signed(i))
            } else {
                Json::Number(float_number(n.as_f64().unwrap()))
            }
        }
        Value::String(s) => Json::String(s.clone()),
        Value::Array(items) => Json::Array(items.iter().map(from_value).collect()),
        Value::Object(map) => Json::Object(map.iter().map(|(k, v)| (k.clone(), from_value(v))).collect()),
    }
}

fn j(text: &str) -> Json {
    from_value(&serde_json::from_str::<Value>(text).unwrap())
}

fn nested_refs() -> Json {
    j(r##"{"definitions": {"a": {"type": "integer"}, "b": {"$ref": "#/definitions/a"}, "c": {"$ref": "#/definitions/b"}}, "$ref": "#/definitions/c"}"##)
}

fn relative_pointer_ref() -> Json {
    j(r##"{"properties": {"foo": {"type": "integer"}, "bar": {"$ref": "#/properties/foo"}}}"##)
}

#[test]
fn only_keyword() {
    let schema = j(r#"{"type": "string"}"#);
    let compiled = JSONSchema::compile(schema, None).unwrap();
    let value1 = j(r#""AB""#);
    let value2 = j("1");
    assert_eq!(compiled.validators.len(), 1);
    assert!(compiled.validate(&value1).is_ok());
    assert!(compiled.validate(&value2).is_err());
}

#[test]
fn resolve_ref() {
    let schema = nested_refs();
    let compiled = JSONSchema::compile(nested_refs(), None).unwrap();
    let (resource, resolved) = compiled
        .resolver
        .resolve_fragment(&compiled.schema, "json-schema:///#/definitions/a")
        .unwrap();
    assert_eq!(resource, "json-schema:///");
    let expected = resolve_pointer(&schema, "/definitions/a").unwrap();
    assert_eq!(to_json_string(resolved), to_json_string(expected));
}

#[test]
fn validate_ref() {
    let compiled = JSONSchema::compile(relative_pointer_ref(), None).unwrap();
    let value = j(r#"{"bar": 3}"#);
    assert!(compiled.validate(&value).is_ok());
    let value = j(r#"{"bar": true}"#);
    assert!(compiled.validate(&value).is_err());
}

#[test]
fn wrong_schema_type() {
    let schema = j("[1]");
    let compiled = JSONSchema::compile(schema, None);
    assert!(compiled.is_err());
}

#[test]
fn multiple_errors() {
    let schema = j(r#"{"minProperties": 2, "propertyNames": {"minLength": 3}}"#);
    let value = j(r#"{"a": 3}"#);
    let compiled = JSONSchema::compile(schema, None).unwrap();
    let result = compiled.validate(&value);
    let errors = result.unwrap_err();
    assert_eq!(errors.len(), 2);
    assert_eq!(errors[0].to_string(), r#"{"a":3} has less than 2 properties"#);
    assert_eq!(errors[1].to_string(), r#"'"a"' is shorter than 3 characters"#);
}

#[test]
fn it_echoes() {
    assert_eq!(2, echo(2));
}

#[test]
fn minimum_unsigned_limit_rejects_smaller() {
    let compiled = JSONSchema::compile(j(&format!(r#"{{"minimum": {}}}"#, 1u64 << 54)), None).unwrap();
    assert!(!compiled.is_valid(&Json::Number(Number::Unsigned(1u64 << 53))));
}

#[test]
fn minimum_signed_limit_rejects_smaller() {
    let schema = Json::Object(vec![("minimum".to_string(), Json::Number(Number::Signed(1i64 << 54)))]);
    let compiled = JSONSchema::compile(schema, None).unwrap();
    assert!(!compiled.is_valid(&Json::Number(Number::Signed(1i64 << 53))));
}

#[test]
fn minimum_exact_in_every_representation() {
    let limit = 1u64 << 54;
    let compiled = JSONSchema::compile(j(&format!(r#"{{"minimum": {}}}"#, limit)), None).unwrap();
    let below = [
        Number::Unsigned(limit - 1),
        Number::Signed((limit - 1) as i64),
        Number::Float { mantissa: (limit - 1) as i64, exponent: 0 },
    ];
    let at = [
        Number::Unsigned(limit),
        Number::Signed(limit as i64),
        Number::Float { mantissa: 1, exponent: 54 },
    ];
    for n in below.iter() {
        assert!(!compiled.is_valid(&Json::Number(*n)));
        assert!(compiled.validate(&Json::Number(*n)).is_err());
    }
    for n in at.iter() {
        assert!(compiled.is_valid(&Json::Number(*n)));
        assert!(compiled.validate(&Json::Number(*n)).is_ok());
    }
}

#[test]
fn minimum_float_limit_and_negative_limit() {
    let compiled = JSONSchema::compile(j(r#"{"minimum": 2.5}"#), None).unwrap();
    assert!(!compiled.is_valid(&j("2")));
    assert!(compiled.is_valid(&j("3")));
    assert!(compiled.is_valid(&j("2.5")));
    assert!(!compiled.is_valid(&j("2.25")));
    let compiled = JSONSchema::compile(j(r#"{"minimum": -3}"#), None).unwrap();
    assert!(compiled.is_valid(&j("-3")));
    assert!(!compiled.is_valid(&j("-4")));
    assert!(compiled.is_valid(&j("18446744073709551615")));
    assert!(compiled.is_valid(&j(r#""not a number""#)));
}

#[test]
fn minimum_message_and_classification() {
    let compiled = JSONSchema::compile(j(r#"{"minimum": 5}"#), None).unwrap();
    let errors = compiled.validate(&j("4")).unwrap_err();
    assert_eq!(errors.len(), 1);
    assert_eq!(errors[0].kind, ValidationErrorKind::Minimum(Number::Unsigned(5)));
    assert_eq!(errors[0].to_string(), "4 is less than the minimum of 5");
    assert!(matches!(compile_limit(Number::Signed(7)), Validator::MinimumU64(_)));
    assert!(matches!(compile_limit(Number::Signed(-7)), Validator::MinimumI64(_)));
    assert!(matches!(compile_limit(Number::Float { mantissa: 5, exponent: -1 }), Validator::MinimumF64(_)));
}

#[test]
fn cross_representation_comparison() {
    assert!(num_ge(Number::Unsigned(u64::MAX), Number::Signed(i64::MAX)));
    assert!(!num_ge(Number::Signed(-1), Number::Unsigned(0)));
    assert!(num_ge(Number::Float { mantissa: 1, exponent: 64 }, Number::Unsigned(u64::MAX)));
    assert!(!num_ge(Number::Float { mantissa: -1, exponent: 100 }, Number::Signed(i64::MIN)));
    assert!(num_ge(Number::Float { mantissa: 3, exponent: -1 }, Number::Unsigned(1)));
    assert!(!num_ge(Number::Float { mantissa: 1, exponent: -100 }, Number::Float { mantissa: 1, exponent: -99 }));
}

#[test]
fn true_and_empty_schemas_accept_everything() {
    for schema in ["true", "{}"] {
        let compiled = JSONSchema::compile(j(schema), None).unwrap();
        for instance in ["null", "1", r#""x""#, "[1, 2]", r#"{"a": {}}"#, "-2.5"] {
            assert!(compiled.is_valid(&j(instance)));
            assert!(compiled.validate(&j(instance)).is_ok());
        }
    }
}

#[test]
fn false_schema_rejects_everything() {
    let compiled = JSONSchema::compile(j("false"), None).unwrap();
    for instance in ["null", "1", r#""x""#, "[]", "{}"] {
        assert!(!compiled.is_valid(&j(instance)));
        let errors = compiled.validate(&j(instance)).unwrap_err();
        assert_eq!(errors[0].kind, ValidationErrorKind::FalseSchema);
    }
    let errors = compiled.validate(&j("[1]")).unwrap_err();
    assert_eq!(errors[0].to_string(), "False schema does not allow [1]");
}

#[test]
fn compiling_twice_agrees() {
    let text = r##"{"properties": {"x": {"minimum": 3}, "y": {"$ref": "#/properties/x"}}, "minProperties": 1}"##;
    let first = JSONSchema::compile(j(text), Some(Draft::Draft7)).unwrap();
    let second = JSONSchema::compile(j(text), Some(Draft::Draft7)).unwrap();
    for instance in ["{}", r#"{"x": 4}"#, r#"{"y": 2}"#, r#"{"x": 1, "y": 9}"#, "7"] {
        assert_eq!(first.is_valid(&j(instance)), second.is_valid(&j(instance)));
    }
}

#[test]
fn is_valid_agrees_with_validate() {
    let compiled = JSONSchema::compile(j(r#"{"minProperties": 2, "propertyNames": {"minLength": 3}, "type": "object"}"#), None).unwrap();
    for instance in ["{}", r#"{"abc": 1, "abcd": 2}"#, r#"{"a": 1, "abcd": 2}"#, "3", r#""s""#] {
        let v = j(instance);
        assert_eq!(compiled.is_valid(&v), compiled.validate(&v).is_ok());
    }
}

#[test]
fn nested_references_resolve_to_their_targets() {
    let compiled = JSONSchema::compile(nested_refs(), None).unwrap();
    assert!(compiled.is_valid(&j("5")));
    assert!(!compiled.is_valid(&j(r#""a""#)));
    let with_definitions = j(r##"{"definitions": {"a": {"minimum": 10}}, "properties": {"p": {"$ref": "#/definitions/a"}}}"##);
    let compiled = JSONSchema::compile(with_definitions, None).unwrap();
    assert!(compiled.is_valid(&j(r#"{"p": 11}"#)));
    assert!(!compiled.is_valid(&j(r#"{"p": 9}"#)));
}

#[test]
fn identifiers_set_the_scope_of_nested_references() {
    let schema = j(r##"{
        "$id": "http://example.com/root.json",
        "definitions": {
            "B": {"type": "string"},
            "A": {
                "$id": "nested/",
                "definitions": {"B": {"type": "integer"}},
                "properties": {"p": {"$ref": "#/definitions/B"}}
            }
        },
        "properties": {"a": {"$ref": "#/definitions/A"}}
    }"##);
    let compiled = JSONSchema::compile(schema, None).unwrap();
    assert_eq!(compiled.resolver.root_scope, "http://example.com/root.json");
    assert!(compiled.is_valid(&j(r#"{"a": {"p": 1}}"#)));
    assert!(!compiled.is_valid(&j(r#"{"a": {"p": "x"}}"#)));
}

#[test]
fn escaped_pointer_tokens() {
    let schema = j(r##"{"tilda~field": {"type": "integer"}, "slash/field": {"type": "integer"}, "properties": {"tilda": {"$ref": "#/tilda~0field"}, "slash": {"$ref": "#/slash~1field"}}}"##);
    let compiled = JSONSchema::compile(schema, None).unwrap();
    assert!(compiled.is_valid(&j(r#"{"slash": 1, "tilda": 2}"#)));
    assert!(!compiled.is_valid(&j(r#"{"slash": "x"}"#)));
    assert!(!compiled.is_valid(&j(r#"{"tilda": "x"}"#)));
    let doc = j(r#"{"a": [10, 20, {"b": true}]}"#);
    assert_eq!(to_json_string(resolve_pointer(&doc, "/a/2/b").unwrap()), "true");
    assert!(resolve_pointer(&doc, "/a/01").is_none());
    assert!(resolve_pointer(&doc, "/a/3").is_none());
    assert!(resolve_pointer(&doc, "a").is_none());
}

#[test]
fn reference_errors_are_reported() {
    let compiled = JSONSchema::compile(j(r##"{"$ref": "#/definitions/missing"}"##), None).unwrap();
    let errors = compiled.validate(&j("1")).unwrap_err();
    assert_eq!(errors[0].kind, ValidationErrorKind::InvalidReference(ResolveError::PointerError));
    let compiled = JSONSchema::compile(j(r##"{"$ref": "http://other.example/doc.json"}"##), None).unwrap();
    let errors = compiled.validate(&j("1")).unwrap_err();
    assert_eq!(errors[0].kind, ValidationErrorKind::InvalidReference(ResolveError::UnresolvedDocument));
    let compiled = JSONSchema::compile(j(r##"{"$ref": "#"}"##), None).unwrap();
    let errors = compiled.validate(&j("1")).unwrap_err();
    assert_eq!(errors[0].kind, ValidationErrorKind::RecursionLimit);
    assert!(!compiled.is_valid(&j("1")));
    let compiled = JSONSchema::compile(j(r##"{"definitions": {"bad": {"minLength": "x"}}, "$ref": "#/definitions/bad"}"##), None).unwrap();
    let errors = compiled.validate(&j(r#""abc""#)).unwrap_err();
    assert_eq!(errors[0].kind, ValidationErrorKind::InvalidReferenceTarget(CompilationError::SchemaError));
}

#[test]
fn external_documents_resolve_once_added() {
    let mut compiled = JSONSchema::compile(j(r##"{"$ref": "http://other.example/doc.json#/definitions/n"}"##), None).unwrap();
    compiled.add_document("http://other.example/doc.json".to_string(), j(r#"{"definitions": {"n": {"type": "null"}}}"#));
    assert!(compiled.is_valid(&Json::Null));
    assert!(!compiled.is_valid(&j("0")));
}

#[test]
fn compilation_errors() {
    assert_eq!(JSONSchema::compile(j(r#"{"minLength": -1}"#), None).err(), Some(CompilationError::SchemaError));
    assert_eq!(JSONSchema::compile(j(r#"{"minimum": "1"}"#), None).err(), Some(CompilationError::SchemaError));
    assert_eq!(JSONSchema::compile(j(r#"{"minProperties": 1.5}"#), None).err(), Some(CompilationError::SchemaError));
    assert_eq!(JSONSchema::compile(j(r#"{"type": "strange"}"#), None).err(), Some(CompilationError::SchemaError));
    assert_eq!(JSONSchema::compile(j(r#"{"$ref": 3}"#), None).err(), Some(CompilationError::SchemaError));
    assert_eq!(JSONSchema::compile(j(r#"{"properties": []}"#), None).err(), Some(CompilationError::SchemaError));
    assert_eq!(JSONSchema::compile(j(r#"{"$id": "no scheme"}"#), None).err(), Some(CompilationError::ScopeError));
    assert_eq!(JSONSchema::compile(j("\"x\""), None).err(), Some(CompilationError::SchemaError));
}

#[test]
fn draft_detection_and_override() {
    let text = r#"{"$schema": "http://json-schema.org/draft-04/schema#", "propertyNames": {"minLength": 3}}"#;
    let compiled = JSONSchema::compile(j(text), None).unwrap();
    assert_eq!(compiled.draft, Draft::Draft4);
    assert!(compiled.is_valid(&j(r#"{"a": 1}"#)));
    let compiled = JSONSchema::compile(j(text), Some(Draft::Draft7)).unwrap();
    assert!(!compiled.is_valid(&j(r#"{"a": 1}"#)));
    let compiled = JSONSchema::compile(j("{}"), None).unwrap();
    assert_eq!(compiled.draft, Draft::Draft7);
    assert_eq!(compiled.resolver.root_scope, "json-schema:///");
}

#[test]
fn context_push_joins_identifiers() {
    let context = CompilationContext::new("http://example.com/".to_string(), Draft::Draft7);
    let pushed = context.push(&j(r#"{"$id": "folder/"}"#)).unwrap();
    assert_eq!(pushed.scope, "http://example.com/folder/");
    assert_eq!(pushed.build_url("#/definitions/foo").unwrap(), "http://example.com/folder/#/definitions/foo");
    let kept = context.push(&j(r#"{"id": "folder/"}"#)).unwrap();
    assert_eq!(kept.scope, "http://example.com/");
    let draft4 = CompilationContext::new("http://example.com/".to_string(), Draft::Draft4);
    assert_eq!(draft4.push(&j(r#"{"id": "x.json"}"#)).unwrap().scope, "http://example.com/x.json");
}

#[test]
fn type_keyword_variants() {
    let compiled = JSONSchema::compile(j(r#"{"type": ["integer", "null"]}"#), None).unwrap();
    assert!(compiled.is_valid(&j("3")));
    assert!(compiled.is_valid(&j("3.0")));
    assert!(compiled.is_valid(&Json::Null));
    assert!(!compiled.is_valid(&j("3.5")));
    assert!(!compiled.is_valid(&j(r#""3""#)));
    let errors = compiled.validate(&j("true")).unwrap_err();
    assert_eq!(errors[0].kind, ValidationErrorKind::Type);
    assert_eq!(errors[0].to_string(), "'true' is not of the required type");
}

#[test]
fn min_length_counts_characters() {
    let compiled = JSONSchema::compile(j(r#"{"minLength": 2}"#), None).unwrap();
    assert!(compiled.is_valid(&j(r#""éé""#)));
    assert!(!compiled.is_valid(&j(r#""é""#)));
    assert!(compiled.is_valid(&j("5")));
}

#[test]
fn rendering_escapes_strings() {
    assert_eq!(to_json_string(&j(r#"{"k": "a\"b\\c\n", "n": [-1, 0, null, false]}"#)), r#"{"k":"a\"b\\c\n","n":[-1,0,null,false]}"#);
    assert_eq!(to_json_string(&Json::Number(Number::Float { mantissa: -5, exponent: -1 })), "-5*2^-1");
}

#[test]
fn root_identifier_is_normalized() {
    let compiled = JSONSchema::compile(j(r#"{"$id": "HTTP://Example.COM/a/../b.json#"}"#), None).unwrap();
    assert_eq!(compiled.resolver.root_scope, "http://example.com/b.json#");
}
