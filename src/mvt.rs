//! Decoding of vector tiles: layers of features with attributes and
//! geometry, read from their protocol-buffer encoding.
use vstd::prelude::*;
use vstd::utf8::{decode_utf8, valid_utf8};
use crate::mvt_geometry::{Path, PathView, command_paths, decode_commands, paths_view};
use crate::wire::{
    WireField, WireFieldView, WireValue, WireValueView, fields_view, message_fields, parse_fields,
    read_varint, varint_at,
};

verus! {

/// Why a payload is not a vector tile.
#[derive(Debug, Clone, Copy, PartialEq, Eq, Structural)]
pub struct DecodeError;

/// An attribute value.
#[derive(Debug, PartialEq, Eq)]
pub enum MvtValue {
    String(String),
    /// The bits of a 32-bit float.
    Float(u32),
    /// The bits of a 64-bit float.
    Double(u64),
    Int(i64),
    Uint(u64),
    Sint(i64),
    Bool(bool),
    /// A value message that holds none of the known kinds.
    Unknown,
}

/// An attribute value as plain data.
pub enum MvtValueView {
    String(Seq<char>),
    Float(u32),
    Double(u64),
    Int(i64),
    Uint(u64),
    Sint(i64),
    Bool(bool),
    Unknown,
}

/// The geometry of a feature, in tile coordinates (0 to the layer's extent).
#[derive(Debug, PartialEq, Eq)]
pub enum MvtGeometry {
    /// One or more points.
    Point(Vec<(i32, i32)>),
    /// One or more lines of at least two points.
    LineString(Vec<Vec<(i32, i32)>>),
    /// One or more polygons, each an exterior ring with its holes.
    Polygon(Vec<MvtPolygon>),
}

/// A geometry as plain data.
pub enum MvtGeometryView {
    Point(Seq<(i32, i32)>),
    LineString(Seq<Seq<(i32, i32)>>),
    Polygon(Seq<(Seq<(i32, i32)>, Seq<Seq<(i32, i32)>>)>),
}

/// A polygon: its exterior ring and the interior rings (holes) that follow
/// it, each ring closed, its last point joining back to its first.
#[derive(Debug, PartialEq, Eq)]
pub struct MvtPolygon {
    pub exterior: Vec<(i32, i32)>,
    pub interiors: Vec<Vec<(i32, i32)>>,
}

/// A polygon as plain data.
pub open spec fn polygon_view(p: MvtPolygon) -> (Seq<(i32, i32)>, Seq<Seq<(i32, i32)>>) {
    (p.exterior@, rings_view(p.interiors@))
}

/// A feature: its id, its attributes as pairs of indices into the layer's
/// keys and values, and its geometry.
#[derive(Debug, PartialEq, Eq)]
pub struct MvtFeature {
    pub id: Option<u64>,
    pub tags: Vec<u32>,
    pub geometry: MvtGeometry,
}

/// A feature as plain data.
pub struct MvtFeatureView {
    pub id: Option<u64>,
    pub tags: Seq<u32>,
    pub geometry: MvtGeometryView,
}

/// A named layer of features, with the attribute keys and values that the
/// features point into and the extent of its coordinate space.
#[derive(Debug, PartialEq, Eq)]
pub struct MvtLayer {
    pub version: u32,
    pub name: String,
    pub features: Vec<MvtFeature>,
    pub keys: Vec<String>,
    pub values: Vec<MvtValue>,
    pub extent: u32,
}

/// A layer as plain data.
pub struct MvtLayerView {
    pub version: u32,
    pub name: Seq<char>,
    pub features: Seq<MvtFeatureView>,
    pub keys: Seq<Seq<char>>,
    pub values: Seq<MvtValueView>,
    pub extent: u32,
}

/// A decoded vector tile.
#[derive(Debug, PartialEq, Eq)]
pub struct MvtTile {
    pub layers: Vec<MvtLayer>,
}

/// A tile as plain data.
pub struct MvtTileView {
    pub layers: Seq<MvtLayerView>,
}

/// An attribute value as plain data.
pub open spec fn value_view(v: MvtValue) -> MvtValueView {
    match v {
        MvtValue::String(s) => MvtValueView::String(s@),
        MvtValue::Float(b) => MvtValueView::Float(b),
        MvtValue::Double(b) => MvtValueView::Double(b),
        MvtValue::Int(i) => MvtValueView::Int(i),
        MvtValue::Uint(u) => MvtValueView::Uint(u),
        MvtValue::Sint(i) => MvtValueView::Sint(i),
        MvtValue::Bool(b) => MvtValueView::Bool(b),
        MvtValue::Unknown => MvtValueView::Unknown,
    }
}

/// A geometry as plain data.
pub open spec fn geometry_view(g: MvtGeometry) -> MvtGeometryView {
    match g {
        MvtGeometry::Point(ps) => MvtGeometryView::Point(ps@),
        MvtGeometry::LineString(ls) => MvtGeometryView::LineString(ls@.map_values(|l: Vec<(i32, i32)>| l@)),
        MvtGeometry::Polygon(ps) => MvtGeometryView::Polygon(ps@.map_values(|p: MvtPolygon| polygon_view(p))),
    }
}

/// A feature as plain data.
pub open spec fn feature_view(f: MvtFeature) -> MvtFeatureView {
    MvtFeatureView { id: f.id, tags: f.tags@, geometry: geometry_view(f.geometry) }
}

/// A layer as plain data.
pub open spec fn layer_view(l: MvtLayer) -> MvtLayerView {
    MvtLayerView {
        version: l.version,
        name: l.name@,
        features: l.features@.map_values(|f: MvtFeature| feature_view(f)),
        keys: l.keys@.map_values(|k: String| k@),
        values: l.values@.map_values(|v: MvtValue| value_view(v)),
        extent: l.extent,
    }
}

/// A tile as plain data.
pub open spec fn tile_view(t: MvtTile) -> MvtTileView {
    MvtTileView { layers: t.layers@.map_values(|l: MvtLayer| layer_view(l)) }
}

/// The string that UTF-8 bytes spell; `None` when they are not UTF-8.
pub open spec fn utf8_text(b: Seq<u8>) -> Option<Seq<char>> {
    if valid_utf8(b) {
        Some(decode_utf8(b))
    } else {
        None
    }
}

// ---------------------------------------------------------------- packed

/// The varints packed in `d` from position `i`, each cut to 32 bits.
pub open spec fn packed_from(d: Seq<u8>, i: int) -> Option<Seq<u32>>
    decreases d.len() - i,
{
    if i < 0 || i >= d.len() {
        if i == d.len() {
            Some(Seq::empty())
        } else {
            None
        }
    } else {
        match varint_at(d, i) {
            Some((v, j)) => if j <= i || j > d.len() {
                None
            } else {
                match packed_from(d, j) {
                    Some(rest) => Some(seq![v as u32] + rest),
                    None => None,
                }
            },
            None => None,
        }
    }
}

/// Appends the packed varints of `d`, each cut to 32 bits.
fn read_packed(d: &[u8], out: &mut Vec<u32>) -> (ok: bool)
    ensures
        match packed_from(d@, 0) {
            Some(vs) => ok && final(out)@ == old(out)@ + vs,
            None => !ok,
        },
{
    let ghost start = out@;
    let mut i: usize = 0;
    assert(start =~= start + Seq::<u32>::empty());
    while i < d.len()
        invariant
            i <= d@.len(),
            match packed_from(d@, 0) {
                Some(vs) => packed_from(d@, i as int) matches Some(rest) && start + vs == out@ + rest,
                None => packed_from(d@, i as int) is None,
            },
        decreases d@.len() - i,
    {
        match read_varint(d, i) {
            Some((v, j)) => {
                let ghost before = out@;
                out.push(v as u32);
                proof {
                    match packed_from(d@, j as int) {
                        Some(rest) => {
                            assert(before + (seq![v as u32] + rest) =~= out@ + rest);
                        },
                        None => {},
                    }
                }
                i = j;
            },
            None => {
                return false;
            },
        }
    }
    true
}

// ---------------------------------------------------------------- values

/// The value that a value message's fields give: the last field of a known
/// kind decides; `None` when a known field has the wrong wire type or a
/// string is not UTF-8.
pub open spec fn value_fold(fs: Seq<WireFieldView>) -> Option<MvtValueView>
    decreases fs.len(),
{
    if fs.len() == 0 {
        Some(MvtValueView::Unknown)
    } else {
        match value_fold(fs.drop_last()) {
            None => None,
            Some(prev) => apply_value_field(prev, fs.last()),
        }
    }
}

/// The value after one more field of a value message.
pub open spec fn apply_value_field(prev: MvtValueView, f: WireFieldView) -> Option<MvtValueView> {
    match (f.number, f.value) {
        (1, WireValueView::Bytes(b)) => match utf8_text(b) {
            Some(s) => Some(MvtValueView::String(s)),
            None => None,
        },
        (2, WireValueView::Fixed32(v)) => Some(MvtValueView::Float(v)),
        (3, WireValueView::Fixed64(v)) => Some(MvtValueView::Double(v)),
        (4, WireValueView::Varint(v)) => Some(MvtValueView::Int(v as i64)),
        (5, WireValueView::Varint(v)) => Some(MvtValueView::Uint(v)),
        (6, WireValueView::Varint(v)) => Some(MvtValueView::Sint(zigzag64(v))),
        (7, WireValueView::Varint(v)) => Some(MvtValueView::Bool(v != 0)),
        (n, _) => if 1 <= n <= 7 {
            None
        } else {
            Some(prev)
        },
    }
}

/// The signed value of a zig-zag encoded 64-bit varint.
pub open spec fn zigzag64(v: u64) -> i64 {
    if v % 2 == 0 {
        (v / 2) as i64
    } else {
        (-((v as int + 1) / 2)) as i64
    }
}

fn zigzag64_decode(v: u64) -> (r: i64)
    ensures
        r == zigzag64(v),
{
    if v % 2 == 0 {
        (v / 2) as i64
    } else {
        let h: u64 = v / 2;
        assert(h < 0x8000_0000_0000_0000);
        -(h as i64) - 1
    }
}

/// The value that a value message's bytes encode.
pub open spec fn value_of(d: Seq<u8>) -> Option<MvtValueView> {
    match message_fields(d) {
        Some(fs) => value_fold(fs),
        None => None,
    }
}

proof fn lemma_value_fold_stuck(fs: Seq<WireFieldView>, i: int)
    requires
        0 <= i <= fs.len(),
        value_fold(fs.take(i)) is None,
    ensures
        value_fold(fs) is None,
    decreases fs.len() - i,
{
    if i < fs.len() {
        assert(fs.take(i + 1).drop_last() =~= fs.take(i));
        lemma_value_fold_stuck(fs, i + 1);
    } else {
        assert(fs.take(i) =~= fs);
    }
}

/// Relies on std's String::from_utf8 over a copy of the bytes: it succeeds
/// exactly on valid UTF-8, and the string then holds the characters that the
/// bytes encode.
#[verifier::external_body]
fn text_of(b: &[u8]) -> (r: Option<String>)
    ensures
        match utf8_text(b@) {
            Some(s) => r is Some && r->Some_0@ == s,
            None => r is None,
        },
{
    String::from_utf8(b.to_vec()).ok()
}

/// Decodes an attribute value message.
pub fn decode_value(d: &[u8]) -> (r: Option<MvtValue>)
    ensures
        match value_of(d@) {
            Some(v) => r is Some && value_view(r->Some_0) == v,
            None => r is None,
        },
{
    let fs = match parse_fields(d) {
        Some(fs) => fs,
        None => return None,
    };
    let ghost fsv = fields_view(fs@);
    let mut cur = MvtValue::Unknown;
    let mut i: usize = 0;
    assert(fsv.take(0) =~= Seq::<WireFieldView>::empty());
    while i < fs.len()
        invariant
            i <= fs@.len(),
            fsv == fields_view(fs@),
            message_fields(d@) == Some(fsv),
            value_fold(fsv.take(i as int)) == Some(value_view(cur)),
        decreases fs@.len() - i,
    {
        let ghost prev = value_view(cur);
        assert(fsv.take(i + 1).drop_last() =~= fsv.take(i as int));
        assert(fsv.take(i + 1).last() == fs@[i as int].view());
        let f = &fs[i];
        let number = f.number;
        let next: Option<MvtValue> = match &f.value {
            WireValue::Bytes(b) => if number == 1 {
                match text_of(b.as_slice()) {
                    Some(t) => Some(MvtValue::String(t)),
                    None => None,
                }
            } else if 1 <= number && number <= 7 {
                None
            } else {
                Some(cur)
            },
            WireValue::Fixed32(v) => if number == 2 {
                Some(MvtValue::Float(*v))
            } else if 1 <= number && number <= 7 {
                None
            } else {
                Some(cur)
            },
            WireValue::Fixed64(v) => if number == 3 {
                Some(MvtValue::Double(*v))
            } else if 1 <= number && number <= 7 {
                None
            } else {
                Some(cur)
            },
            WireValue::Varint(v) => if number == 4 {
                Some(MvtValue::Int(#[verifier::truncate] (*v as i64)))
            } else if number == 5 {
                Some(MvtValue::Uint(*v))
            } else if number == 6 {
                Some(MvtValue::Sint(zigzag64_decode(*v)))
            } else if number == 7 {
                Some(MvtValue::Bool(*v != 0))
            } else if 1 <= number && number <= 7 {
                None
            } else {
                Some(cur)
            },
        };
        assert(match next {
            Some(v) => apply_value_field(prev, fs@[i as int].view()) == Some(value_view(v)),
            None => apply_value_field(prev, fs@[i as int].view()) is None,
        });
        match next {
            Some(v) => {
                cur = v;
            },
            None => {
                proof {
                    lemma_value_fold_stuck(fsv, i + 1);
                }
                return None;
            },
        }
        i = i + 1;
    }
    assert(fsv.take(fs@.len() as int) =~= fsv);
    Some(cur)
}

// ---------------------------------------------------------------- features

/// The geometry that the paths of a feature of type `geom_type` form:
/// points (type 1) are paths of one point each, lines (type 2) open paths
/// of at least two points, polygons (type 3) closed rings of at least three
/// points. `None` for another type or for paths that do not fit it.
pub open spec fn geometry_of(geom_type: u64, paths: Seq<PathView>) -> Option<MvtGeometryView> {
    if geom_type == 1 && forall|i: int|
        0 <= i < paths.len() ==> (#[trigger] paths[i]).points.len() == 1 && !paths[i].closed {
        Some(MvtGeometryView::Point(paths.map_values(|p: PathView| p.points[0])))
    } else if geom_type == 2 && forall|i: int|
        0 <= i < paths.len() ==> (#[trigger] paths[i]).points.len() >= 2 && !paths[i].closed {
        Some(MvtGeometryView::LineString(paths.map_values(|p: PathView| p.points)))
    } else if geom_type == 3 && forall|i: int|
        0 <= i < paths.len() ==> (#[trigger] paths[i]).points.len() >= 3 && paths[i].closed {
        match group_rings(paths.map_values(|p: PathView| p.points)) {
            Some(polygons) => Some(MvtGeometryView::Polygon(polygons)),
            None => None,
        }
    } else {
        None
    }
}

/// Twice the signed area of a ring by the surveyor's formula, from the
/// point at `i` on: the sum of `x[k] * y[k+1] - x[k+1] * y[k]`, the point
/// after the last being the first.
pub open spec fn ring_area2_from(r: Seq<(i32, i32)>, i: int) -> int
    decreases r.len() - i,
{
    if i < 0 || i >= r.len() {
        0
    } else {
        let j = if i + 1 == r.len() {
            0
        } else {
            i + 1
        };
        (r[i].0 as int) * (r[j].1 as int) - (r[j].0 as int) * (r[i].1 as int) + ring_area2_from(
            r,
            i + 1,
        )
    }
}

/// Twice the signed area of a ring in tile coordinates.
pub open spec fn ring_area2(r: Seq<(i32, i32)>) -> int {
    ring_area2_from(r, 0)
}

/// The rings in order grouped into polygons: a ring of positive area starts
/// a new polygon as its exterior, any other ring is a hole of the polygon
/// before it. `None` when the first ring is not an exterior.
pub open spec fn group_rings(rings: Seq<Seq<(i32, i32)>>) -> Option<
    Seq<(Seq<(i32, i32)>, Seq<Seq<(i32, i32)>>)>,
>
    decreases rings.len(),
{
    if rings.len() == 0 {
        Some(Seq::empty())
    } else {
        match group_rings(rings.drop_last()) {
            None => None,
            Some(ps) => {
                let r = rings.last();
                if ring_area2(r) > 0 {
                    Some(ps.push((r, Seq::empty())))
                } else if ps.len() == 0 {
                    None
                } else {
                    Some(ps.update(ps.len() - 1, (ps.last().0, ps.last().1.push(r))))
                }
            },
        }
    }
}

proof fn lemma_group_rings_stuck(rings: Seq<Seq<(i32, i32)>>, i: int)
    requires
        0 <= i <= rings.len(),
        group_rings(rings.take(i)) is None,
    ensures
        group_rings(rings) is None,
    decreases rings.len() - i,
{
    if i < rings.len() {
        assert(rings.take(i + 1).drop_last() =~= rings.take(i));
        lemma_group_rings_stuck(rings, i + 1);
    } else {
        assert(rings.take(i) =~= rings);
    }
}

/// Twice the signed area of a ring.
fn ring_area2_exec(r: &Vec<(i32, i32)>) -> (a: i128)
    ensures
        a == ring_area2(r@),
{
    let n = r.len();
    let mut acc: i128 = 0;
    let mut i: usize = n;
    while i > 0
        invariant
            i <= n,
            n == r@.len(),
            acc == ring_area2_from(r@, i as int),
            -0x8000_0000_0000_0000 * (n - i) <= acc <= 0x8000_0000_0000_0000 * (n - i),
        decreases i,
    {
        let k = i - 1;
        let j = if k + 1 == n {
            0
        } else {
            k + 1
        };
        let (x1, y1) = r[k];
        let (x2, y2) = r[j];
        assert(-0x4000_0000_0000_0000 <= (x1 as int) * (y2 as int) <= 0x4000_0000_0000_0000)
            by (nonlinear_arith)
            requires
                -0x8000_0000 <= x1 < 0x8000_0000,
                -0x8000_0000 <= y2 < 0x8000_0000,
        ;
        assert(-0x4000_0000_0000_0000 <= (x2 as int) * (y1 as int) <= 0x4000_0000_0000_0000)
            by (nonlinear_arith)
            requires
                -0x8000_0000 <= x2 < 0x8000_0000,
                -0x8000_0000 <= y1 < 0x8000_0000,
        ;
        let p1: i64 = x1 as i64 * y2 as i64;
        let p2: i64 = x2 as i64 * y1 as i64;
        acc = acc + (p1 as i128 - p2 as i128);
        i = k;
    }
    acc
}

/// The rings as plain data.
pub open spec fn rings_view(v: Seq<Vec<(i32, i32)>>) -> Seq<Seq<(i32, i32)>> {
    v.map_values(|r: Vec<(i32, i32)>| r@)
}

/// Groups closed rings into polygons by their winding.
fn build_polygons(rings: Vec<Vec<(i32, i32)>>) -> (r: Option<Vec<MvtPolygon>>)
    ensures
        match group_rings(rings_view(rings@)) {
            Some(ps) => r is Some && r->Some_0@.map_values(|p: MvtPolygon| polygon_view(p)) == ps,
            None => r is None,
        },
{
    let ghost rv = rings_view(rings@);
    let n = rings.len();
    let mut rest = rings;
    let mut out: Vec<MvtPolygon> = Vec::new();
    let mut k: usize = 0;
    assert(rv.take(0) =~= Seq::<Seq<(i32, i32)>>::empty());
    assert(out@.map_values(|p: MvtPolygon| polygon_view(p)) =~= Seq::<
        (Seq<(i32, i32)>, Seq<Seq<(i32, i32)>>),
    >::empty());
    while rest.len() > 0
        invariant
            k + rest@.len() == n,
            n == rv.len(),
            rv == rings_view(rings@),
            rings_view(rest@) == rv.skip(k as int),
            group_rings(rv.take(k as int)) == Some(out@.map_values(|p: MvtPolygon| polygon_view(p))),
        decreases rest@.len(),
    {
        let ghost old_rest = rest@;
        let ghost prev = out@.map_values(|p: MvtPolygon| polygon_view(p));
        let ring = rest.remove(0);
        assert(rest@ =~= old_rest.subrange(1, old_rest.len() as int));
        assert(ring@ == rv[k as int]) by {
            assert(rings_view(old_rest)[0] == old_rest[0]@);
        }
        assert forall|j: int| 0 <= j < rest@.len() implies #[trigger] rings_view(rest@)[j] == rv.skip(k + 1)[j] by {
            assert(rings_view(old_rest)[j + 1] == old_rest[j + 1]@);
        }
        assert(rings_view(rest@) =~= rv.skip(k + 1));
        assert(rv.take(k + 1).drop_last() =~= rv.take(k as int));
        assert(rv.take(k + 1).last() == ring@);
        let area = ring_area2_exec(&ring);
        if area > 0 {
            let ghost rg = ring@;
            out.push(MvtPolygon { exterior: ring, interiors: Vec::new() });
            proof {
                assert(rings_view(out@.last().interiors@) =~= Seq::<
                    Seq<(i32, i32)>,
                >::empty());
                assert(out@.map_values(|p: MvtPolygon| polygon_view(p)) =~= prev.push(
                    (rg, Seq::empty()),
                ));
            }
        } else if out.len() == 0 {
            proof {
                lemma_group_rings_stuck(rv, k + 1);
            }
            return None;
        } else {
            let ghost rg = ring@;
            let last = out.pop().unwrap();
            let ghost lv = polygon_view(last);
            let mut interiors = last.interiors;
            let ghost before_holes = interiors@;
            interiors.push(ring);
            out.push(MvtPolygon { exterior: last.exterior, interiors });
            proof {
                assert(lv == prev.last());
                assert(rings_view(interiors@) =~= rings_view(before_holes).push(rg));
                assert(out@.map_values(|p: MvtPolygon| polygon_view(p)) =~= prev.update(
                    prev.len() - 1,
                    (prev.last().0, prev.last().1.push(rg)),
                ));
            }
        }
        k = k + 1;
    }
    assert(rv.take(n as int) =~= rv);
    Some(out)
}

/// Forms the geometry of a feature of type `geom_type` from its paths.
fn build_geometry(geom_type: u64, paths: Vec<Path>) -> (r: Option<MvtGeometry>)
    ensures
        match geometry_of(geom_type, paths_view(paths@)) {
            Some(g) => r is Some && geometry_view(r->Some_0) == g,
            None => r is None,
        },
{
    let ghost pv = paths_view(paths@);
    if geom_type < 1 || geom_type > 3 {
        return None;
    }
    let mut rest = paths;
    let mut points: Vec<(i32, i32)> = Vec::new();
    let mut runs: Vec<Vec<(i32, i32)>> = Vec::new();
    let mut k: usize = 0;
    let n = rest.len();
    while rest.len() > 0
        invariant
            k + rest@.len() == n,
            n == pv.len(),
            pv == paths_view(paths@),
            1 <= geom_type <= 3,
            paths_view(rest@) == pv.skip(k as int),
            geom_type == 1 ==> points@ == pv.take(k as int).map_values(|p: PathView| p.points[0]),
            geom_type != 1 ==> rings_view(runs@) == pv.take(k as int).map_values(
                |p: PathView| p.points,
            ),
            forall|i: int|
                0 <= i < k ==> if geom_type == 1 {
                    (#[trigger] pv[i]).points.len() == 1 && !pv[i].closed
                } else if geom_type == 2 {
                    pv[i].points.len() >= 2 && !pv[i].closed
                } else {
                    pv[i].points.len() >= 3 && pv[i].closed
                },
        decreases rest@.len(),
    {
        let ghost old_rest = rest@;
        let p = rest.remove(0);
        assert(rest@ =~= old_rest.subrange(1, old_rest.len() as int));
        assert(pv[k as int] == p.view()) by {
            assert(paths_view(old_rest)[0] == old_rest[0].view());
        }
        assert forall|j: int| 0 <= j < rest@.len() implies #[trigger] paths_view(rest@)[j] == pv.skip(
            k + 1,
        )[j] by {
            assert(paths_view(old_rest)[j + 1] == old_rest[j + 1].view());
        }
        assert(paths_view(rest@) =~= pv.skip(k + 1));
        let len = p.points.len();
        if geom_type == 1 {
            if len != 1 || p.closed {
                assert(!(pv[k as int].points.len() == 1 && !pv[k as int].closed));
                return None;
            }
            let q = p.points[0];
            points.push(q);
            assert(points@ =~= pv.take(k + 1).map_values(|p: PathView| p.points[0]));
        } else {
            if geom_type == 2 && (len < 2 || p.closed) {
                assert(!(pv[k as int].points.len() >= 2 && !pv[k as int].closed));
                return None;
            }
            if geom_type == 3 && (len < 3 || !p.closed) {
                assert(!(pv[k as int].points.len() >= 3 && pv[k as int].closed));
                return None;
            }
            let ghost before = runs@;
            runs.push(p.points);
            assert(rings_view(runs@) =~= pv.take(k + 1).map_values(
                |p: PathView| p.points,
            )) by {
                let a = rings_view(runs@);
                let b = pv.take(k + 1).map_values(|p: PathView| p.points);
                let a0 = rings_view(before);
                let b0 = pv.take(k as int).map_values(|p: PathView| p.points);
                assert forall|j: int| 0 <= j < a.len() implies a[j] == b[j] by {
                    if j < k {
                        assert(a[j] == a0[j]);
                        assert(b[j] == b0[j]);
                    } else {
                        assert(a[j] == runs@[j]@);
                        assert(b[j] == pv[j].points);
                    }
                }
            }
        }
        k = k + 1;
    }
    assert(pv.take(n as int) =~= pv);
    if geom_type == 1 {
        Some(MvtGeometry::Point(points))
    } else if geom_type == 2 {
        Some(MvtGeometry::LineString(runs))
    } else {
        match build_polygons(runs) {
            Some(polygons) => Some(MvtGeometry::Polygon(polygons)),
            None => None,
        }
    }
}

/// What a feature message's fields say before its geometry is formed.
pub struct FeatureParts {
    pub id: Option<u64>,
    pub tags: Seq<u32>,
    pub geom_type: u64,
    pub commands: Seq<u32>,
}

/// Field 1 is the id, 2 the tags and 4 the geometry commands (packed, or
/// one varint each), 3 the geometry type; other numbers are skipped.
pub open spec fn apply_feature_field(prev: FeatureParts, f: WireFieldView) -> Option<FeatureParts> {
    match (f.number, f.value) {
        (1, WireValueView::Varint(v)) => Some(FeatureParts { id: Some(v), ..prev }),
        (2, WireValueView::Varint(v)) => Some(FeatureParts { tags: prev.tags.push(v as u32), ..prev }),
        (2, WireValueView::Bytes(b)) => match packed_from(b, 0) {
            Some(vs) => Some(FeatureParts { tags: prev.tags + vs, ..prev }),
            None => None,
        },
        (3, WireValueView::Varint(v)) => Some(FeatureParts { geom_type: v, ..prev }),
        (4, WireValueView::Varint(v)) => Some(
            FeatureParts { commands: prev.commands.push(v as u32), ..prev },
        ),
        (4, WireValueView::Bytes(b)) => match packed_from(b, 0) {
            Some(vs) => Some(FeatureParts { commands: prev.commands + vs, ..prev }),
            None => None,
        },
        (n, _) => if 1 <= n <= 4 {
            None
        } else {
            Some(prev)
        },
    }
}

/// What the fields of a feature message say, read in order; `None` once a
/// field is malformed.
pub open spec fn feature_fold(fs: Seq<WireFieldView>) -> Option<FeatureParts>
    decreases fs.len(),
{
    if fs.len() == 0 {
        Some(FeatureParts { id: None, tags: Seq::empty(), geom_type: 0, commands: Seq::empty() })
    } else {
        match feature_fold(fs.drop_last()) {
            None => None,
            Some(prev) => apply_feature_field(prev, fs.last()),
        }
    }
}

/// The feature that a feature message's bytes encode.
pub open spec fn feature_of(d: Seq<u8>) -> Option<MvtFeatureView> {
    match message_fields(d) {
        Some(fs) => match feature_fold(fs) {
            Some(parts) => match command_paths(parts.commands) {
                Some(paths) => match geometry_of(parts.geom_type, paths) {
                    Some(g) => Some(MvtFeatureView { id: parts.id, tags: parts.tags, geometry: g }),
                    None => None,
                },
                None => None,
            },
            None => None,
        },
        None => None,
    }
}

proof fn lemma_feature_fold_stuck(fs: Seq<WireFieldView>, i: int)
    requires
        0 <= i <= fs.len(),
        feature_fold(fs.take(i)) is None,
    ensures
        feature_fold(fs) is None,
    decreases fs.len() - i,
{
    if i < fs.len() {
        assert(fs.take(i + 1).drop_last() =~= fs.take(i));
        lemma_feature_fold_stuck(fs, i + 1);
    } else {
        assert(fs.take(i) =~= fs);
    }
}

/// Decodes a feature message.
pub fn decode_feature(d: &[u8]) -> (r: Option<MvtFeature>)
    ensures
        match feature_of(d@) {
            Some(f) => r is Some && feature_view(r->Some_0) == f,
            None => r is None,
        },
{
    let fs = match parse_fields(d) {
        Some(fs) => fs,
        None => return None,
    };
    let ghost fsv = fields_view(fs@);
    let mut id: Option<u64> = None;
    let mut tags: Vec<u32> = Vec::new();
    let mut geom_type: u64 = 0;
    let mut commands: Vec<u32> = Vec::new();
    let mut i: usize = 0;
    assert(fsv.take(0) =~= Seq::<WireFieldView>::empty());
    assert(feature_fold(fsv.take(0)) =~= Some(
        FeatureParts { id, tags: tags@, geom_type, commands: commands@ },
    ));
    while i < fs.len()
        invariant
            i <= fs@.len(),
            fsv == fields_view(fs@),
            message_fields(d@) == Some(fsv),
            feature_fold(fsv.take(i as int)) == Some(
                FeatureParts { id, tags: tags@, geom_type, commands: commands@ },
            ),
        decreases fs@.len() - i,
    {
        let ghost prev = FeatureParts { id, tags: tags@, geom_type, commands: commands@ };
        assert(fsv.take(i + 1).drop_last() =~= fsv.take(i as int));
        assert(fsv.take(i + 1).last() == fs@[i as int].view());
        let f = &fs[i];
        let number = f.number;
        let mut ok = true;
        match &f.value {
            WireValue::Varint(v) => {
                if number == 1 {
                    id = Some(*v);
                } else if number == 2 {
                    tags.push(#[verifier::truncate] (*v as u32));
                } else if number == 3 {
                    geom_type = *v;
                } else if number == 4 {
                    commands.push(#[verifier::truncate] (*v as u32));
                }
            },
            WireValue::Bytes(b) => {
                if number == 2 {
                    ok = read_packed(b.as_slice(), &mut tags);
                } else if number == 4 {
                    ok = read_packed(b.as_slice(), &mut commands);
                } else if 1 <= number && number <= 4 {
                    ok = false;
                }
            },
            _ => {
                if 1 <= number && number <= 4 {
                    ok = false;
                }
            },
        }
        if !ok {
            assert(apply_feature_field(prev, fs@[i as int].view()) is None);
            proof {
                lemma_feature_fold_stuck(fsv, i + 1);
            }
            return None;
        }
        assert(apply_feature_field(prev, fs@[i as int].view()) == Some(
            FeatureParts { id, tags: tags@, geom_type, commands: commands@ },
        ));
        i = i + 1;
    }
    assert(fsv.take(fs@.len() as int) =~= fsv);
    let paths = match decode_commands(&commands) {
        Some(p) => p,
        None => return None,
    };
    match build_geometry(geom_type, paths) {
        Some(geometry) => Some(MvtFeature { id, tags, geometry }),
        None => None,
    }
}

// ---------------------------------------------------------------- layers

/// Field 15 is the version, 1 the name, 2 a feature, 3 a key, 4 a value,
/// 5 the extent; other numbers are skipped.
pub open spec fn apply_layer_field(prev: MvtLayerView, f: WireFieldView) -> Option<MvtLayerView> {
    match (f.number, f.value) {
        (15, WireValueView::Varint(v)) => Some(MvtLayerView { version: v as u32, ..prev }),
        (1, WireValueView::Bytes(b)) => match utf8_text(b) {
            Some(t) => Some(MvtLayerView { name: t, ..prev }),
            None => None,
        },
        (2, WireValueView::Bytes(b)) => match feature_of(b) {
            Some(feat) => Some(MvtLayerView { features: prev.features.push(feat), ..prev }),
            None => None,
        },
        (3, WireValueView::Bytes(b)) => match utf8_text(b) {
            Some(t) => Some(MvtLayerView { keys: prev.keys.push(t), ..prev }),
            None => None,
        },
        (4, WireValueView::Bytes(b)) => match value_of(b) {
            Some(v) => Some(MvtLayerView { values: prev.values.push(v), ..prev }),
            None => None,
        },
        (5, WireValueView::Varint(v)) => Some(MvtLayerView { extent: v as u32, ..prev }),
        (n, _) => if (1 <= n <= 5) || n == 15 {
            None
        } else {
            Some(prev)
        },
    }
}

/// A layer with no fields: version 1, empty name, extent 4096.
pub open spec fn empty_layer() -> MvtLayerView {
    MvtLayerView {
        version: 1,
        name: Seq::empty(),
        features: Seq::empty(),
        keys: Seq::empty(),
        values: Seq::empty(),
        extent: 4096,
    }
}

/// The layer that the fields of a layer message build, read in order;
/// `None` once a field is malformed.
pub open spec fn layer_fold(fs: Seq<WireFieldView>) -> Option<MvtLayerView>
    decreases fs.len(),
{
    if fs.len() == 0 {
        Some(empty_layer())
    } else {
        match layer_fold(fs.drop_last()) {
            None => None,
            Some(prev) => apply_layer_field(prev, fs.last()),
        }
    }
}

/// The layer that a layer message's bytes encode.
pub open spec fn layer_of(d: Seq<u8>) -> Option<MvtLayerView> {
    match message_fields(d) {
        Some(fs) => match layer_fold(fs) {
            Some(l) => if forall|i: int|
                0 <= i < l.features.len() ==> tags_valid(
                    #[trigger] l.features[i].tags,
                    l.keys.len(),
                    l.values.len(),
                ) {
                Some(l)
            } else {
                None
            },
            None => None,
        },
        None => None,
    }
}

/// Tags come in pairs: the index of a key, then the index of a value, each
/// within the layer's keys and values.
pub open spec fn tags_valid(tags: Seq<u32>, n_keys: nat, n_values: nat) -> bool {
    tags.len() % 2 == 0 && forall|i: int|
        0 <= i < tags.len() ==> if i % 2 == 0 {
            (#[trigger] tags[i]) < n_keys
        } else {
            tags[i] < n_values
        }
}

/// Whether the tags of a feature are pairs of valid key and value indices.
fn check_tags(tags: &Vec<u32>, n_keys: usize, n_values: usize) -> (r: bool)
    ensures
        r == tags_valid(tags@, n_keys as nat, n_values as nat),
{
    if tags.len() % 2 != 0 {
        return false;
    }
    let mut i: usize = 0;
    while i < tags.len()
        invariant
            i <= tags@.len(),
            forall|j: int|
                0 <= j < i ==> if j % 2 == 0 {
                    (#[trigger] tags@[j]) < n_keys
                } else {
                    tags@[j] < n_values
                },
        decreases tags@.len() - i,
    {
        let bound = if i % 2 == 0 {
            n_keys
        } else {
            n_values
        };
        if tags[i] as usize >= bound {
            return false;
        }
        i = i + 1;
    }
    true
}

proof fn lemma_layer_fold_stuck(fs: Seq<WireFieldView>, i: int)
    requires
        0 <= i <= fs.len(),
        layer_fold(fs.take(i)) is None,
    ensures
        layer_fold(fs) is None,
    decreases fs.len() - i,
{
    if i < fs.len() {
        assert(fs.take(i + 1).drop_last() =~= fs.take(i));
        lemma_layer_fold_stuck(fs, i + 1);
    } else {
        assert(fs.take(i) =~= fs);
    }
}

/// Decodes a layer message.
pub fn decode_layer(d: &[u8]) -> (r: Option<MvtLayer>)
    ensures
        match layer_of(d@) {
            Some(l) => r is Some && layer_view(r->Some_0) == l,
            None => r is None,
        },
{
    let fs = match parse_fields(d) {
        Some(fs) => fs,
        None => return None,
    };
    let ghost fsv = fields_view(fs@);
    let mut layer = MvtLayer {
        version: 1,
        name: String::new(),
        features: Vec::new(),
        keys: Vec::new(),
        values: Vec::new(),
        extent: 4096,
    };
    let mut i: usize = 0;
    assert(fsv.take(0) =~= Seq::<WireFieldView>::empty());
    assert(layer_view(layer).features =~= empty_layer().features);
    assert(layer_view(layer).keys =~= empty_layer().keys);
    assert(layer_view(layer).values =~= empty_layer().values);
    assert(layer_view(layer) == empty_layer());
    while i < fs.len()
        invariant
            i <= fs@.len(),
            fsv == fields_view(fs@),
            message_fields(d@) == Some(fsv),
            layer_fold(fsv.take(i as int)) == Some(layer_view(layer)),
        decreases fs@.len() - i,
    {
        let ghost prev = layer_view(layer);
        assert(fsv.take(i + 1).drop_last() =~= fsv.take(i as int));
        assert(fsv.take(i + 1).last() == fs@[i as int].view());
        let f = &fs[i];
        let number = f.number;
        let mut ok = true;
        match &f.value {
            WireValue::Varint(v) => {
                if number == 15 {
                    layer.version = #[verifier::truncate] (*v as u32);
                } else if number == 5 {
                    layer.extent = #[verifier::truncate] (*v as u32);
                } else if (1 <= number && number <= 5) || number == 15 {
                    ok = false;
                }
            },
            WireValue::Bytes(b) => {
                if number == 1 {
                    match text_of(b.as_slice()) {
                        Some(t) => layer.name = t,
                        None => ok = false,
                    }
                } else if number == 2 {
                    match decode_feature(b.as_slice()) {
                        Some(feat) => {
                            layer.features.push(feat);
                            assert(layer_view(layer).features =~= prev.features.push(
                                feature_view(feat),
                            ));
                        },
                        None => ok = false,
                    }
                } else if number == 3 {
                    match text_of(b.as_slice()) {
                        Some(t) => {
                            layer.keys.push(t);
                            assert(layer_view(layer).keys =~= prev.keys.push(t@));
                        },
                        None => ok = false,
                    }
                } else if number == 4 {
                    match decode_value(b.as_slice()) {
                        Some(v) => {
                            layer.values.push(v);
                            assert(layer_view(layer).values =~= prev.values.push(value_view(v)));
                        },
                        None => ok = false,
                    }
                } else if number == 15 || number == 5 {
                    ok = false;
                }
            },
            _ => {
                if (1 <= number && number <= 5) || number == 15 {
                    ok = false;
                }
            },
        }
        if !ok {
            assert(apply_layer_field(prev, fs@[i as int].view()) is None);
            proof {
                lemma_layer_fold_stuck(fsv, i + 1);
            }
            return None;
        }
        assert(apply_layer_field(prev, fs@[i as int].view()) == Some(layer_view(layer)));
        i = i + 1;
    }
    assert(fsv.take(fs@.len() as int) =~= fsv);
    let mut k: usize = 0;
    while k < layer.features.len()
        invariant
            k <= layer.features@.len(),
            message_fields(d@) == Some(fsv),
            layer_fold(fsv) == Some(layer_view(layer)),
            forall|i: int|
                0 <= i < k ==> tags_valid(
                    #[trigger] layer.features@[i].tags@,
                    layer.keys@.len(),
                    layer.values@.len(),
                ),
        decreases layer.features@.len() - k,
    {
        if !check_tags(&layer.features[k].tags, layer.keys.len(), layer.values.len()) {
            assert(layer_view(layer).features[k as int].tags == layer.features@[k as int].tags@);
            assert(!tags_valid(
                layer_view(layer).features[k as int].tags,
                layer_view(layer).keys.len(),
                layer_view(layer).values.len(),
            ));
            return None;
        }
        k = k + 1;
    }
    assert forall|i: int| 0 <= i < layer_view(layer).features.len() implies tags_valid(
        #[trigger] layer_view(layer).features[i].tags,
        layer_view(layer).keys.len(),
        layer_view(layer).values.len(),
    ) by {
        assert(layer_view(layer).features[i].tags == layer.features@[i].tags@);
    }
    Some(layer)
}

// ---------------------------------------------------------------- tiles

/// Field 3 is a layer; other numbers are skipped.
pub open spec fn tile_fold(fs: Seq<WireFieldView>) -> Option<Seq<MvtLayerView>>
    decreases fs.len(),
{
    if fs.len() == 0 {
        Some(Seq::empty())
    } else {
        match tile_fold(fs.drop_last()) {
            None => None,
            Some(prev) => {
                let f = fs.last();
                if f.number == 3 {
                    match f.value {
                        WireValueView::Bytes(b) => match layer_of(b) {
                            Some(l) => Some(prev.push(l)),
                            None => None,
                        },
                        _ => None,
                    }
                } else {
                    Some(prev)
                }
            },
        }
    }
}

/// The tile that a payload encodes; `None` when it is not a well-formed
/// vector tile.
pub open spec fn tile_of(d: Seq<u8>) -> Option<MvtTileView> {
    match message_fields(d) {
        Some(fs) => match tile_fold(fs) {
            Some(layers) => Some(MvtTileView { layers }),
            None => None,
        },
        None => None,
    }
}

proof fn lemma_tile_fold_stuck(fs: Seq<WireFieldView>, i: int)
    requires
        0 <= i <= fs.len(),
        tile_fold(fs.take(i)) is None,
    ensures
        tile_fold(fs) is None,
    decreases fs.len() - i,
{
    if i < fs.len() {
        assert(fs.take(i + 1).drop_last() =~= fs.take(i));
        lemma_tile_fold_stuck(fs, i + 1);
    } else {
        assert(fs.take(i) =~= fs);
    }
}

impl MvtTile {
    /// Decodes a vector tile payload. Any structural fault anywhere in it
    /// fails the whole decoding: there is no partial tile.
    pub fn decode(d: &[u8]) -> (r: Result<MvtTile, DecodeError>)
        ensures
            match tile_of(d@) {
                Some(t) => r is Ok && tile_view(r->Ok_0) == t,
                None => r is Err,
            },
    {
        let fs = match parse_fields(d) {
            Some(fs) => fs,
            None => return Err(DecodeError),
        };
        let ghost fsv = fields_view(fs@);
        let mut layers: Vec<MvtLayer> = Vec::new();
        let mut i: usize = 0;
        assert(fsv.take(0) =~= Seq::<WireFieldView>::empty());
        assert(tile_view(MvtTile { layers }).layers =~= Seq::<MvtLayerView>::empty());
        while i < fs.len()
            invariant
                i <= fs@.len(),
                fsv == fields_view(fs@),
                message_fields(d@) == Some(fsv),
                tile_fold(fsv.take(i as int)) == Some(layers@.map_values(|l: MvtLayer| layer_view(l))),
            decreases fs@.len() - i,
        {
            let ghost prev = layers@.map_values(|l: MvtLayer| layer_view(l));
            assert(fsv.take(i + 1).drop_last() =~= fsv.take(i as int));
            assert(fsv.take(i + 1).last() == fs@[i as int].view());
            let f = &fs[i];
            if f.number == 3 {
                match &f.value {
                    WireValue::Bytes(b) => match decode_layer(b.as_slice()) {
                        Some(l) => {
                            layers.push(l);
                            assert(layers@.map_values(|l: MvtLayer| layer_view(l)) =~= prev.push(
                                layer_view(l),
                            ));
                        },
                        None => {
                            proof {
                                lemma_tile_fold_stuck(fsv, i + 1);
                            }
                            return Err(DecodeError);
                        },
                    },
                    _ => {
                        proof {
                            lemma_tile_fold_stuck(fsv, i + 1);
                        }
                        return Err(DecodeError);
                    },
                }
            }
            i = i + 1;
        }
        assert(fsv.take(fs@.len() as int) =~= fsv);
        Ok(MvtTile { layers })
    }
}

} // verus!
