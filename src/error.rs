use vstd::prelude::*;

verus! {

/// Why a JSON value is not a GeoJSON Feature.
#[derive(Debug, Clone, Copy, PartialEq, Eq, Structural)]
pub enum Error {
    /// The `type` member is missing, not a string, or not `"Feature"`.
    GeoJsonUnknownType,
    /// The value is not a JSON object.
    GeoJsonExpectedObject,
    /// The `geometry` member is missing.
    MissingGeometry,
    /// The `geometry` member is neither `null` nor a geometry object.
    FeatureInvalidGeometryValue,
    /// The `properties` member is missing.
    MissingProperties,
    /// The `properties` member is neither `null` nor an object.
    PropertiesExpectedObjectOrNull,
    /// The `id` member is neither a string nor a number.
    FeatureInvalidIdentifierType,
    /// The `bbox` member is not an array.
    BboxExpectedArray,
    /// The `bbox` member holds a value that is not a number.
    BboxExpectedNumericValues,
}

} // verus!
