use vstd::prelude::*;

verus! {

// The position tracker bridges segment space and coordinate space. A
// coordinate is a geographic point: a (longitude, latitude) pair in degrees,
// held as the geo crate's point type and opaque to verification. Moving from
// one point to the next, and measuring the segment between two known points,
// is great-circle geometry computed by the geo crate behind the trusted items
// below. Both measurements come back rounded to the nearest whole unit, since
// the codec's segments are whole meters and whole degrees; the geodesic
// computation itself is floating point and only the rounded values take part
// in decoding.

/// A geographic point: a (longitude, latitude) pair in degrees. It wraps the
/// geo crate's point type, which is opaque here: nothing is known of a value
/// of this type but what the measurements below report of a pair of them.
#[verifier::external_body]
pub struct GeoPoint {
    point: geo::Point,
}

impl GeoPoint {
    /// Build a point from its longitude and latitude written in decimal,
    /// such as `"-105.07"` and `"40.57"`. Returns `None` when either text is
    /// not a number.
    ///
    /// Relies on `geo::Point::new`, which builds the point with exactly the
    /// given longitude and latitude, and on `str::parse` to read them.
    #[verifier::external_body]
    pub fn from_text(longitude: &str, latitude: &str) -> (r: Option<GeoPoint>)
    {
        match (longitude.parse(), latitude.parse()) {
            (Ok(x), Ok(y)) => Some(GeoPoint { point: geo::Point::new(x, y) }),
            _ => None,
        }
    }

    /// This point's longitude in degrees, written in decimal. The text is the
    /// shortest decimal form, which reading back as a number recovers exactly.
    ///
    /// Relies on `geo::Point::x`, which returns exactly the longitude the
    /// point was built with.
    #[verifier::external_body]
    pub fn longitude_text(&self) -> (r: String)
    {
        format!("{}", self.point.x())
    }

    /// This point's latitude in degrees, written in decimal. The text is the
    /// shortest decimal form, which reading back as a number recovers exactly.
    ///
    /// Relies on `geo::Point::y`, which returns exactly the latitude the
    /// point was built with.
    #[verifier::external_body]
    pub fn latitude_text(&self) -> (r: String)
    {
        format!("{}", self.point.y())
    }
}

/// The fixed starting point shared by every encoding run, so that both ends
/// agree on the origin without transmitting it.
///
/// Relies on `geo::Point::new`, which builds the point with exactly the given
/// longitude and latitude, and on `str::parse` to read them.
#[verifier::external_body]
pub(crate) fn start_point() -> (r: GeoPoint)
{
    GeoPoint {
        point: geo::Point::new(
            "-105.11000504292936".parse().unwrap(),
            "40.57187754636834".parse().unwrap(),
        ),
    }
}

/// The destination reached by travelling `distance` meters from `origin`
/// along the initial bearing `bearing` degrees.
///
/// Relies on `geo::Haversine.destination` (the `Destination` trait), which
/// computes the great-circle destination point on the mean-radius sphere. Its
/// result is a floating-point coordinate pair and is stated nowhere: decoding
/// never assumes where a step lands, only what the measurements below report.
#[verifier::external_body]
pub(crate) fn advance(origin: &GeoPoint, bearing: u16, distance: u8) -> (r: GeoPoint)
{
    GeoPoint {
        point: geo::Destination::destination(
            &geo::Haversine,
            origin.point,
            bearing.into(),
            distance.into(),
        ),
    }
}

/// The great-circle distance in meters from `a` to `b`, rounded to the
/// nearest integer.
///
/// Relies on `geo::Haversine.distance` (the `Distance` trait): the haversine
/// formula yields `radius * 2 * asin(sqrt(..))` with `asin` in `[0, pi/2]`,
/// so every finite result lies in `[0, pi * 6371008.8]`, under 20,015,116
/// meters; a non-finite result rounds to 0 when cast. Nothing more is stated:
/// the exact value is floating point and may differ between machines.
#[verifier::external_body]
pub(crate) fn measure_distance(a: &GeoPoint, b: &GeoPoint) -> (r: i64)
    ensures
        0 <= r <= 20_015_116,
{
    geo::Distance::distance(&geo::Haversine, a.point, b.point).round() as i64
}

/// The initial bearing in degrees from `a` to `b`, rounded to the nearest
/// integer.
///
/// Relies on `geo::Haversine.bearing` (the `Bearing` trait), whose result is
/// `(atan2 degrees + 360) % 360`: every finite value lies in `[0, 360)`, so
/// the rounded value lies in `[0, 360]`; a non-finite result rounds to 0 when
/// cast. Nothing more is stated: the exact value is floating point and may
/// differ between machines.
#[verifier::external_body]
pub(crate) fn measure_bearing(a: &GeoPoint, b: &GeoPoint) -> (r: i64)
    ensures
        0 <= r <= 360,
{
    geo::Bearing::bearing(&geo::Haversine, a.point, b.point).round() as i64
}

} // verus!
