use geojson::error::Error;
use geojson::feature::{Feature, FeatureBase, Geometry, Id};
use geojson::json::{JsonObject, JsonValue};

fn from_serde(v: serde_json::Value) -> JsonValue {
    match v {
        serde_json::Value::Null => JsonValue::Null,
        serde_json::Value::Bool(b) => JsonValue::Bool(b),
        serde_json::Value::Number(n) => JsonValue::Number(n),
        serde_json::Value::String(s) => JsonValue::String(s),
        serde_json::Value::Array(a) => JsonValue::Array(a.into_iter().map(from_serde).collect()),
        serde_json::Value::Object(m) => {
            let mut o = JsonObject::new();
            for (k, v) in m {
                o.insert(k, from_serde(v));
            }
            JsonValue::Object(o)
        }
    }
}

fn to_serde(v: JsonValue) -> serde_json::Value {
    match v {
        JsonValue::Null => serde_json::Value::Null,
        JsonValue::Bool(b) => serde_json::Value::Bool(b),
        JsonValue::Number(n) => serde_json::Value::Number(n),
        JsonValue::String(s) => serde_json::Value::String(s),
        JsonValue::Array(a) => serde_json::Value::Array(a.into_iter().map(to_serde).collect()),
        JsonValue::Object(o) => {
            let mut m = serde_json::Map::new();
            for (k, v) in o.into_entries() {
                m.insert(k, to_serde(v));
            }
            serde_json::Value::Object(m)
        }
    }
}

fn parse(text: &str) -> JsonValue {
    from_serde(serde_json::from_str::<serde_json::Value>(text).unwrap())
}

fn object(text: &str) -> JsonObject {
    match parse(text) {
        JsonValue::Object(o) => o,
        _ => panic!("not an object"),
    }
}

fn point(x: &str) -> Geometry {
    Geometry { value: object(x) }
}

fn feature_json_str() -> &'static str {
    "{\"geometry\":{\"coordinates\":[1.1,2.1],\"type\":\"Point\"},\"properties\":{},\"type\":\
     \"Feature\"}"
}

fn properties() -> Option<JsonObject> {
    Some(JsonObject::new())
}

fn feature() -> Feature {
    Feature {
        geometry: Some(point("{\"type\":\"Point\",\"coordinates\":[1.1,2.1]}")),
        properties: properties(),
        bbox: None,
        id: None,
        foreign_members: None,
    }
}

fn encode(feature: Feature) -> String {
    serde_json::to_string(&to_serde(JsonValue::Object(feature.into_json_object()))).unwrap()
}

fn decode(json_string: &str) -> Result<Feature, Error> {
    FeatureBase::from_json_value(parse(json_string))
}

#[test]
fn encode_decode_feature() {
    let json_string = encode(feature());
    assert_eq!(json_string, feature_json_str());

    let decoded_feature = decode(&json_string).unwrap();
    assert_eq!(decoded_feature, feature());
}

#[test]
fn try_from_value() {
    let json_value = parse(
        "{\"type\":\"Feature\",\"geometry\":{\"type\":\"Point\",\"coordinates\":[102.0,0.5]},\"properties\":null}",
    );
    assert!(matches!(json_value, JsonValue::Object(_)));

    let feature = FeatureBase::from_json_value(json_value).unwrap();
    assert_eq!(
        feature,
        Feature {
            bbox: None,
            geometry: Some(point("{\"type\":\"Point\",\"coordinates\":[102.0,0.5]}")),
            id: None,
            properties: None,
            foreign_members: None,
        }
    )
}

#[test]
fn test_display_feature() {
    let f = encode(feature());
    assert_eq!(f, "{\"geometry\":{\"coordinates\":[1.1,2.1],\"type\":\"Point\"},\"properties\":{},\"type\":\
     \"Feature\"}");
}

#[test]
fn feature_json_null_geometry() {
    let geojson_str = r#"{
        "geometry": null,
        "properties":{},
        "type":"Feature"
    }"#;
    let feature = decode(geojson_str).unwrap();
    assert!(feature.geometry.is_none());
}

#[test]
fn feature_json_invalid_geometry() {
    let geojson_str = r#"{"geometry":3.14,"properties":{},"type":"Feature"}"#;
    match decode(geojson_str).unwrap_err() {
        Error::FeatureInvalidGeometryValue => (),
        _ => unreachable!(),
    }
}

#[test]
fn encode_decode_feature_with_id_number() {
    let feature_json_str = "{\"geometry\":{\"coordinates\":[1.1,2.1],\"type\":\"Point\"},\"id\":0,\"properties\":{},\"type\":\"Feature\"}";
    let make = || Feature {
        geometry: Some(point("{\"type\":\"Point\",\"coordinates\":[1.1,2.1]}")),
        properties: properties(),
        bbox: None,
        id: Some(Id::Number(0.into())),
        foreign_members: None,
    };
    let json_string = encode(make());
    assert_eq!(json_string, feature_json_str);

    let decoded_feature = decode(feature_json_str).unwrap();
    assert_eq!(decoded_feature, make());
}

#[test]
fn encode_decode_feature_with_id_string() {
    let feature_json_str = "{\"geometry\":{\"coordinates\":[1.1,2.1],\"type\":\"Point\"},\"id\":\"foo\",\"properties\":{},\"type\":\"Feature\"}";
    let make = || Feature {
        geometry: Some(point("{\"type\":\"Point\",\"coordinates\":[1.1,2.1]}")),
        properties: properties(),
        bbox: None,
        id: Some(Id::String("foo".into())),
        foreign_members: None,
    };
    let json_string = encode(make());
    assert_eq!(json_string, feature_json_str);

    let decoded_feature = decode(feature_json_str).unwrap();
    assert_eq!(decoded_feature, make());
}

#[test]
fn decode_feature_with_invalid_id_type_object() {
    let feature_json_str = "{\"geometry\":{\"coordinates\":[1.1,2.1],\"type\":\"Point\"},\"id\":{},\"properties\":{},\"type\":\"Feature\"}";
    assert_eq!(decode(feature_json_str), Err(Error::FeatureInvalidIdentifierType));
}

#[test]
fn decode_feature_with_invalid_id_type_null() {
    let feature_json_str = "{\"geometry\":{\"coordinates\":[1.1,2.1],\"type\":\"Point\"},\"id\":null,\"properties\":{},\"type\":\"Feature\"}";
    assert_eq!(decode(feature_json_str), Err(Error::FeatureInvalidIdentifierType));
}

#[test]
fn encode_decode_feature_with_foreign_member() {
    let feature_json_str = "{\"geometry\":{\"coordinates\":[1.1,2.1],\"type\":\"Point\"},\"other_member\":\"some_value\",\"properties\":{},\"type\":\"Feature\"}";
    let make = || {
        let mut foreign_members = JsonObject::new();
        foreign_members.insert(
            String::from("other_member"),
            JsonValue::String(String::from("some_value")),
        );
        Feature {
            geometry: Some(point("{\"type\":\"Point\",\"coordinates\":[1.1,2.1]}")),
            properties: properties(),
            bbox: None,
            id: None,
            foreign_members: Some(foreign_members),
        }
    };
    let json_string = encode(make());
    assert_eq!(json_string, feature_json_str);

    let decoded_feature = decode(feature_json_str).unwrap();
    assert_eq!(decoded_feature, make());
}
