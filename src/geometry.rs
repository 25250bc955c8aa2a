//! Geometries that symbols turn into render primitives.
use vstd::prelude::*;

verus! {

/// A sequence of points, open or closed.
pub struct Contour<P> {
    /// The points in order.
    pub points: Vec<P>,
    /// Whether the last point joins back to the first.
    pub is_closed: bool,
}

/// A polygon: one outer contour and any number of holes.
pub struct Polygon<P> {
    /// The outer boundary.
    pub outer_contour: Contour<P>,
    /// The holes.
    pub inner_contours: Vec<Contour<P>>,
}

/// A geometry of one of the supported kinds.
pub enum Geom<P> {
    Point(P),
    MultiPoint(Vec<P>),
    Contour(Contour<P>),
    MultiContour(Vec<Contour<P>>),
    Polygon(Polygon<P>),
    MultiPolygon(Vec<Polygon<P>>),
}

/// The points of a point or multi-point geometry, in order; none for the
/// other kinds.
pub open spec fn points_of<P>(g: Geom<P>) -> Seq<P> {
    match g {
        Geom::Point(p) => seq![p],
        Geom::MultiPoint(ps) => ps@,
        _ => Seq::empty(),
    }
}

} // verus!
