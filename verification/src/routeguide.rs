//! The messages of the route guide service: points and named features.
use vstd::prelude::*;

verus! {

/// A position, in degrees multiplied by 10^7.
#[derive(Clone, Copy, Debug, PartialEq, Eq, Hash, Structural)]
pub struct Point {
    pub latitude: i32,
    pub longitude: i32,
}

/// A named feature at an optional location.
#[derive(Clone, Debug, PartialEq)]
pub struct Feature {
    pub location: Option<Point>,
    pub name: String,
}

impl Point {
    pub fn new(latitude: i32, longitude: i32) -> (p: Self)
        ensures
            p.latitude == latitude,
            p.longitude == longitude,
    {
        Point { latitude, longitude }
    }
}

impl Feature {
    pub fn new(location: Option<Point>, name: &str) -> (f: Self)
        ensures
            f.location == location,
            f.name@ == name@,
    {
        Feature { location, name: name.to_owned() }
    }
}

} // verus!
