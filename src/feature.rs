//! GeoJSON Features (RFC 7946, section 3.2) and their JSON form.
use vstd::prelude::*;

use crate::error::Error;
use crate::json::{inserted_all, lemma_lookup_without, lookup, without, JsonObject, JsonValue, Members};

verus! {

/// Feature identifier: a string or a number, kept as given.
#[derive(Debug, PartialEq)]
pub enum Id {
    String(String),
    Number(serde_json::Number),
}

/// A geometry, held as the JSON object that describes it.
#[derive(Debug, PartialEq)]
pub struct Geometry {
    pub value: JsonObject,
}

/// A GeoJSON Feature.
#[derive(Debug, PartialEq)]
pub struct FeatureBase {
    /// `None` stands for a `null` geometry.
    pub geometry: Option<Geometry>,
    /// `None` stands for `null` properties; an empty object is `Some`.
    pub properties: Option<JsonObject>,
    pub id: Option<Id>,
    pub bbox: Option<Vec<serde_json::Number>>,
    /// The members that GeoJSON does not define, in their order; `None` where there are none.
    pub foreign_members: Option<JsonObject>,
}

pub type Feature = FeatureBase;

/// What a Feature holds, with each object seen as its members.
pub struct FeatureView {
    pub geometry: Option<Members>,
    pub properties: Option<Members>,
    pub id: Option<Id>,
    pub bbox: Option<Seq<serde_json::Number>>,
    pub foreign_members: Option<Members>,
}

impl View for FeatureBase {
    type V = FeatureView;

    open spec fn view(&self) -> FeatureView {
        FeatureView {
            geometry: match self.geometry {
                Some(g) => Some(g.value@),
                None => None,
            },
            properties: match self.properties {
                Some(p) => Some(p@),
                None => None,
            },
            id: self.id,
            bbox: match self.bbox {
                Some(b) => Some(b@),
                None => None,
            },
            foreign_members: match self.foreign_members {
                Some(m) => Some(m@),
                None => None,
            },
        }
    }
}

/// The keys that a Feature gives a meaning to.
pub open spec fn is_known_key(k: Seq<char>) -> bool {
    k == "type"@ || k == "geometry"@ || k == "properties"@ || k == "id"@ || k == "bbox"@
}

pub open spec fn decode_geometry(v: Option<JsonValue>) -> Result<Option<Members>, Error> {
    match v {
        None => Err(Error::MissingGeometry),
        Some(JsonValue::Null) => Ok(None),
        Some(JsonValue::Object(o)) => Ok(Some(o@)),
        Some(_) => Err(Error::FeatureInvalidGeometryValue),
    }
}

pub open spec fn decode_properties(v: Option<JsonValue>) -> Result<Option<Members>, Error> {
    match v {
        None => Err(Error::MissingProperties),
        Some(JsonValue::Null) => Ok(None),
        Some(JsonValue::Object(o)) => Ok(Some(o@)),
        Some(_) => Err(Error::PropertiesExpectedObjectOrNull),
    }
}

pub open spec fn decode_id(v: Option<JsonValue>) -> Result<Option<Id>, Error> {
    match v {
        None => Ok(None),
        Some(JsonValue::String(s)) => Ok(Some(Id::String(s))),
        Some(JsonValue::Number(n)) => Ok(Some(Id::Number(n))),
        Some(_) => Err(Error::FeatureInvalidIdentifierType),
    }
}

pub open spec fn all_numbers(a: Seq<JsonValue>) -> bool {
    forall|i: int| 0 <= i < a.len() ==> a[i] is Number
}

/// `a` holds exactly the numbers `b`, in order.
pub open spec fn numbers_as_values(a: Seq<JsonValue>, b: Seq<serde_json::Number>) -> bool {
    &&& a.len() == b.len()
    &&& forall|i: int| 0 <= i < a.len() ==> a[i] == JsonValue::Number(b[i])
}

pub open spec fn decode_bbox(v: Option<JsonValue>) -> Result<Option<Seq<serde_json::Number>>, Error> {
    match v {
        None => Ok(None),
        Some(JsonValue::Array(a)) => if all_numbers(a@) {
            Ok(Some(a@.map_values(|x: JsonValue| x->Number_0)))
        } else {
            Err(Error::BboxExpectedNumericValues)
        },
        Some(_) => Err(Error::BboxExpectedArray),
    }
}

pub open spec fn type_is_feature(v: Option<JsonValue>) -> bool {
    match v {
        Some(JsonValue::String(s)) => s@ == "Feature"@,
        _ => false,
    }
}

/// The members left after the known ones are taken out.
pub open spec fn remainder(e: Members) -> Members {
    without(without(without(without(without(e, "type"@), "geometry"@), "properties"@), "id"@), "bbox"@)
}

/// The Feature that an object's members describe, or the first error in the order
/// `type`, `geometry`, `properties`, `id`, `bbox`.
pub open spec fn decode_members(e: Members) -> Result<FeatureView, Error> {
    if !type_is_feature(lookup(e, "type"@)) {
        Err(Error::GeoJsonUnknownType)
    } else {
        match decode_geometry(lookup(e, "geometry"@)) {
            Err(x) => Err(x),
            Ok(geometry) => match decode_properties(lookup(e, "properties"@)) {
                Err(x) => Err(x),
                Ok(properties) => match decode_id(lookup(e, "id"@)) {
                    Err(x) => Err(x),
                    Ok(id) => match decode_bbox(lookup(e, "bbox"@)) {
                        Err(x) => Err(x),
                        Ok(bbox) => Ok(
                            FeatureView {
                                geometry,
                                properties,
                                id,
                                bbox,
                                foreign_members: if remainder(e).len() == 0 {
                                    None
                                } else {
                                    Some(remainder(e))
                                },
                            },
                        ),
                    },
                },
            },
        }
    }
}

/// The Feature that a JSON value describes.
pub open spec fn decode_value(v: JsonValue) -> Result<FeatureView, Error> {
    match v {
        JsonValue::Object(o) => decode_members(o@),
        _ => Err(Error::GeoJsonExpectedObject),
    }
}

pub open spec fn id_value(id: Id) -> JsonValue {
    match id {
        Id::String(s) => JsonValue::String(s),
        Id::Number(n) => JsonValue::Number(n),
    }
}

/// The number of members that encode the named fields of `f`.
pub open spec fn fields_len(f: FeatureView) -> int {
    3 + (if f.bbox is Some {
        1int
    } else {
        0int
    }) + (if f.id is Some {
        1int
    } else {
        0int
    })
}

/// `h` encodes the named fields of `f`, in the order `type`, `geometry`, `properties`,
/// `bbox` (if any), `id` (if any). Properties that are `None` encode as an empty object.
pub open spec fn encodes_fields(f: FeatureView, h: Members) -> bool {
    let n = fields_len(f);
    &&& h.len() == n
    &&& h[0].0 == "type"@
    &&& h[0].1 is String
    &&& h[0].1->String_0@ == "Feature"@
    &&& h[1].0 == "geometry"@
    &&& match f.geometry {
        None => h[1].1 is Null,
        Some(g) => h[1].1 is Object && h[1].1->Object_0@ == g,
    }
    &&& h[2].0 == "properties"@
    &&& h[2].1 is Object
    &&& h[2].1->Object_0@ == match f.properties {
        Some(p) => p,
        None => Seq::empty(),
    }
    &&& f.bbox is Some ==> {
        &&& h[3].0 == "bbox"@
        &&& h[3].1 is Array
        &&& numbers_as_values(h[3].1->Array_0@, f.bbox->0)
    }
    &&& f.id is Some ==> h[n - 1].0 == "id"@ && h[n - 1].1 == id_value(f.id->0)
}

pub open spec fn foreign_or_empty(f: FeatureView) -> Members {
    match f.foreign_members {
        Some(m) => m,
        None => Seq::empty(),
    }
}

/// `e` is the JSON form of `f`: its named fields, then each foreign member inserted in order.
pub open spec fn encodes(f: FeatureView, e: Members) -> bool {
    exists|h: Members| encodes_fields(f, h) && e == inserted_all(h, foreign_or_empty(f))
}

pub open spec fn result_view(r: Result<FeatureBase, Error>) -> Result<FeatureView, Error> {
    match r {
        Ok(f) => Ok(f@),
        Err(x) => Err(x),
    }
}

/// The keys that a Feature names are distinct.
pub proof fn lemma_known_keys_distinct()
    ensures
        "type"@ != "geometry"@,
        "type"@ != "properties"@,
        "type"@ != "id"@,
        "type"@ != "bbox"@,
        "geometry"@ != "properties"@,
        "geometry"@ != "id"@,
        "geometry"@ != "bbox"@,
        "properties"@ != "id"@,
        "properties"@ != "bbox"@,
        "id"@ != "bbox"@,
{
    reveal_strlit("type");
    reveal_strlit("geometry");
    reveal_strlit("properties");
    reveal_strlit("id");
    reveal_strlit("bbox");
    assert("type"@[0] != "bbox"@[0]);
    assert("geometry"@[0] != "properties"@[0]);
    assert("geometry"@[0] != "id"@[0]);
    assert("properties"@[0] != "id"@[0]);
}

/// A key as an owned string.
fn key(s: &str) -> (r: String)
    ensures
        r@ == s@,
{
    s.to_owned()
}

fn take_geometry(v: Option<JsonValue>) -> (r: Result<Option<Geometry>, Error>)
    ensures
        decode_geometry(v) == match r {
            Ok(Some(g)) => Ok(Some(g.value@)),
            Ok(None) => Ok(None),
            Err(x) => Err::<Option<Members>, Error>(x),
        },
{
    match v {
        None => Err(Error::MissingGeometry),
        Some(JsonValue::Null) => Ok(None),
        Some(JsonValue::Object(o)) => Ok(Some(Geometry { value: o })),
        Some(_) => Err(Error::FeatureInvalidGeometryValue),
    }
}

fn take_properties(v: Option<JsonValue>) -> (r: Result<Option<JsonObject>, Error>)
    ensures
        decode_properties(v) == match r {
            Ok(Some(p)) => Ok(Some(p@)),
            Ok(None) => Ok(None),
            Err(x) => Err::<Option<Members>, Error>(x),
        },
{
    match v {
        None => Err(Error::MissingProperties),
        Some(JsonValue::Null) => Ok(None),
        Some(JsonValue::Object(o)) => Ok(Some(o)),
        Some(_) => Err(Error::PropertiesExpectedObjectOrNull),
    }
}

fn take_id(v: Option<JsonValue>) -> (r: Result<Option<Id>, Error>)
    ensures
        decode_id(v) == r,
{
    match v {
        None => Ok(None),
        Some(JsonValue::String(s)) => Ok(Some(Id::String(s))),
        Some(JsonValue::Number(n)) => Ok(Some(Id::Number(n))),
        Some(_) => Err(Error::FeatureInvalidIdentifierType),
    }
}

fn take_bbox(v: Option<JsonValue>) -> (r: Result<Option<Vec<serde_json::Number>>, Error>)
    ensures
        decode_bbox(v) == match r {
            Ok(Some(b)) => Ok(Some(b@)),
            Ok(None) => Ok(None),
            Err(x) => Err::<Option<Seq<serde_json::Number>>, Error>(x),
        },
{
    match v {
        None => Ok(None),
        Some(JsonValue::Array(items)) => {
            let ghost a = items@;
            let ghost d = decode_bbox(v);
            assert(d == if all_numbers(a) {
                Ok(Some(a.map_values(|x: JsonValue| x->Number_0)))
            } else {
                Err(Error::BboxExpectedNumericValues)
            });
            let mut rest = items;
            let mut out: Vec<serde_json::Number> = Vec::new();
            let n = rest.len();
            let mut i: usize = 0;
            while i < n
                invariant
                    n == a.len(),
                    d == decode_bbox(v),
                    d == if all_numbers(a) {
                        Ok(Some(a.map_values(|x: JsonValue| x->Number_0)))
                    } else {
                        Err(Error::BboxExpectedNumericValues)
                    },
                    i <= n,
                    rest@ == a.subrange(i as int, n as int),
                    out@.len() == i,
                    forall|j: int| 0 <= j < i ==> a[j] == JsonValue::Number(#[trigger] out@[j]),
                decreases n - i,
            {
                let x = rest.remove(0);
                assert(x == a[i as int]);
                match x {
                    JsonValue::Number(num) => {
                        out.push(num);
                    },
                    _ => {
                        assert(!all_numbers(a));
                        return Err(Error::BboxExpectedNumericValues);
                    },
                }
                assert(rest@ =~= a.subrange(i as int + 1, n as int));
                i = i + 1;
            }
            assert forall|j: int| 0 <= j < n implies a[j] is Number by {
                assert(a[j] == JsonValue::Number(out@[j]));
            }
            assert(out@ =~= a.map_values(|x: JsonValue| x->Number_0));
            Ok(Some(out))
        },
        Some(_) => Err(Error::BboxExpectedArray),
    }
}

impl FeatureBase {
    /// Decodes a Feature from a JSON object, failing on the first member that is
    /// missing or malformed. Members with other keys become the foreign members.
    pub fn from_json_object(object: JsonObject) -> (r: Result<FeatureBase, Error>)
        ensures
            result_view(r) == decode_members(object@),
    {
        let ghost e = object@;
        let mut object = object;
        proof {
            reveal_strlit("type");
            reveal_strlit("geometry");
            reveal_strlit("properties");
            reveal_strlit("id");
            reveal_strlit("bbox");
            reveal_strlit("Feature");
            lemma_known_keys_distinct();
        }
        let tag = object.remove(&key("type"));
        let is_feature = match &tag {
            Some(JsonValue::String(s)) => *s == key("Feature"),
            _ => false,
        };
        if !is_feature {
            return Err(Error::GeoJsonUnknownType);
        }
        let ghost e1 = object@;
        proof {
            lemma_lookup_without(e, "type"@, "geometry"@);
        }
        let geometry = match take_geometry(object.remove(&key("geometry"))) {
            Ok(g) => g,
            Err(x) => {
                return Err(x);
            },
        };
        let ghost e2 = object@;
        proof {
            lemma_lookup_without(e, "type"@, "properties"@);
            lemma_lookup_without(e1, "geometry"@, "properties"@);
        }
        let properties = match take_properties(object.remove(&key("properties"))) {
            Ok(p) => p,
            Err(x) => {
                return Err(x);
            },
        };
        let ghost e3 = object@;
        proof {
            lemma_lookup_without(e, "type"@, "id"@);
            lemma_lookup_without(e1, "geometry"@, "id"@);
            lemma_lookup_without(e2, "properties"@, "id"@);
        }
        let id = match take_id(object.remove(&key("id"))) {
            Ok(i) => i,
            Err(x) => {
                return Err(x);
            },
        };
        proof {
            lemma_lookup_without(e, "type"@, "bbox"@);
            lemma_lookup_without(e1, "geometry"@, "bbox"@);
            lemma_lookup_without(e2, "properties"@, "bbox"@);
            lemma_lookup_without(e3, "id"@, "bbox"@);
        }
        let bbox = take_bbox(object.remove(&key("bbox")));
        let bbox = match bbox {
            Ok(b) => b,
            Err(x) => {
                return Err(x);
            },
        };
        let foreign_members = if object.is_empty() {
            None
        } else {
            Some(object)
        };
        Ok(FeatureBase { geometry, properties, id, bbox, foreign_members })
    }

    /// Decodes a Feature from a JSON value, which must be an object.
    pub fn from_json_value(value: JsonValue) -> (r: Result<FeatureBase, Error>)
        ensures
            result_view(r) == decode_value(value),
    {
        match value {
            JsonValue::Object(o) => FeatureBase::from_json_object(o),
            _ => Err(Error::GeoJsonExpectedObject),
        }
    }
}

impl Id {
    /// The JSON form of the identifier: a string stays a string, a number keeps its literal.
    pub fn into_json_value(self) -> (r: JsonValue)
        ensures
            r == id_value(self),
    {
        match self {
            Id::String(s) => JsonValue::String(s),
            Id::Number(n) => JsonValue::Number(n),
        }
    }
}

fn numbers_to_values(b: Vec<serde_json::Number>) -> (r: Vec<JsonValue>)
    ensures
        numbers_as_values(r@, b@),
{
    let ghost a = b@;
    let mut rest = b;
    let mut out: Vec<JsonValue> = Vec::new();
    let n = rest.len();
    let mut i: usize = 0;
    while i < n
        invariant
            n == a.len(),
            i <= n,
            rest@ == a.subrange(i as int, n as int),
            out@.len() == i,
            forall|j: int| 0 <= j < i ==> #[trigger] out@[j] == JsonValue::Number(a[j]),
        decreases n - i,
    {
        let x = rest.remove(0);
        out.push(JsonValue::Number(x));
        assert(rest@ =~= a.subrange(i as int + 1, n as int));
        i = i + 1;
    }
    out
}

impl FeatureBase {
    /// Encodes the Feature as a JSON object: `type`, `geometry`, `properties`, then `bbox`
    /// and `id` where present, then the foreign members in their order.
    pub fn into_json_object(self) -> (r: JsonObject)
        ensures
            encodes(self@, r@),
    {
        let ghost f = self@;
        proof {
            lemma_known_keys_distinct();
            reveal_strlit("Feature");
        }
        let FeatureBase { geometry, properties, id, bbox, foreign_members } = self;
        let mut map = JsonObject::new();
        map.insert(key("type"), JsonValue::String(key("Feature")));
        let geometry = match geometry {
            Some(g) => JsonValue::Object(g.value),
            None => JsonValue::Null,
        };
        map.insert(key("geometry"), geometry);
        let properties = match properties {
            Some(p) => JsonValue::Object(p),
            None => JsonValue::Object(JsonObject::new()),
        };
        map.insert(key("properties"), properties);
        match bbox {
            Some(b) => {
                map.insert(key("bbox"), JsonValue::Array(numbers_to_values(b)));
            },
            None => {},
        }
        match id {
            Some(i) => {
                map.insert(key("id"), i.into_json_value());
            },
            None => {},
        }
        let ghost h = map@;
        assert(encodes_fields(f, h));
        match foreign_members {
            Some(m) => {
                map.extend(m);
            },
            None => {
                assert(inserted_all(h, Seq::empty()) == h);
            },
        }
        map
    }
}

} // verus!
