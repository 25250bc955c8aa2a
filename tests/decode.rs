use galileo_core::mvt::{decode_feature, decode_value, MvtGeometry, MvtPolygon, MvtTile, MvtValue};
use galileo_core::mvt_geometry::decode_commands;
use galileo_core::wire::{parse_fields, read_varint, WireValue};

fn with_len(key: u8, body: &[u8]) -> Vec<u8> {
    let mut v = vec![key, body.len() as u8];
    v.extend_from_slice(body);
    v
}

fn point_feature() -> Vec<u8> {
    // id 1, type point, geometry: move-to one point at (25, 17)
    vec![0x08, 0x01, 0x18, 0x01, 0x22, 0x03, 0x09, 0x32, 0x22]
}

fn minimal_tile() -> Vec<u8> {
    let mut layer = vec![0x78, 0x02];
    layer.extend(with_len(0x0A, b"points"));
    layer.extend(with_len(0x12, &point_feature()));
    layer.extend(with_len(0x1A, b"name"));
    layer.extend(with_len(0x22, &with_len(0x0A, b"a")));
    layer.extend([0x28, 0x80, 0x20]);
    with_len(0x1A, &layer)
}

#[test]
fn minimal_tile_decodes_to_one_point() {
    let tile = MvtTile::decode(&minimal_tile()).unwrap();
    assert_eq!(tile.layers.len(), 1);
    let layer = &tile.layers[0];
    assert_eq!(layer.name, "points");
    assert_eq!(layer.version, 2);
    assert_eq!(layer.extent, 4096);
    assert_eq!(layer.keys, vec!["name".to_string()]);
    assert_eq!(layer.values, vec![MvtValue::String("a".to_string())]);
    assert_eq!(layer.features.len(), 1);
    let feature = &layer.features[0];
    assert_eq!(feature.id, Some(1));
    assert_eq!(feature.geometry, MvtGeometry::Point(vec![(25, 17)]));
}

#[test]
fn truncated_tile_is_an_error() {
    let bytes = minimal_tile();
    for cut in 1..bytes.len() {
        assert!(MvtTile::decode(&bytes[..cut]).is_err(), "cut at {cut}");
    }
}

#[test]
fn corrupted_geometry_is_an_error() {
    let mut bytes = minimal_tile();
    // the geometry command becomes an unknown command id
    let pos = bytes.windows(3).position(|w| w == [0x22, 0x03, 0x09]).unwrap() + 2;
    bytes[pos] = 0x0C;
    assert!(MvtTile::decode(&bytes).is_err());
}

#[test]
fn empty_payload_is_an_empty_tile() {
    assert!(MvtTile::decode(&[]).unwrap().layers.is_empty());
}

#[test]
fn varints() {
    assert_eq!(read_varint(&[0x96, 0x01], 0), Some((150, 2)));
    assert_eq!(read_varint(&[0x00, 0x7F], 1), Some((127, 2)));
    assert_eq!(read_varint(&[0x80], 0), None);
    assert_eq!(
        read_varint(&[0xFF, 0xFF, 0xFF, 0xFF, 0xFF, 0xFF, 0xFF, 0xFF, 0xFF, 0x01], 0),
        Some((u64::MAX, 10))
    );
    assert_eq!(read_varint(&[0xFF, 0xFF, 0xFF, 0xFF, 0xFF, 0xFF, 0xFF, 0xFF, 0xFF, 0x02], 0), None);
}

#[test]
fn wire_fields() {
    let fs = parse_fields(&[0x08, 0x96, 0x01, 0x12, 0x02, 0x61, 0x62, 0x1D, 1, 0, 0, 0]).unwrap();
    assert_eq!(fs.len(), 3);
    assert_eq!(fs[0].number, 1);
    assert_eq!(fs[0].value, WireValue::Varint(150));
    assert_eq!(fs[1].value, WireValue::Bytes(vec![0x61, 0x62]));
    assert_eq!(fs[2].value, WireValue::Fixed32(1));
    assert!(parse_fields(&[0x12, 0x05, 0x61]).is_none());
    assert!(parse_fields(&[0x03]).is_none());
}

#[test]
fn line_and_polygon_commands() {
    // move-to (2,2), line-to (2,10) (10,10)
    let line = decode_commands(&vec![9, 4, 4, 18, 0, 16, 16, 0]).unwrap();
    assert_eq!(line.len(), 1);
    assert_eq!(line[0].points, vec![(2, 2), (2, 10), (10, 10)]);
    assert!(!line[0].closed);
    let ring = decode_commands(&vec![9, 4, 4, 18, 0, 16, 16, 0, 15]).unwrap();
    assert!(ring[0].closed);
    // line-to before any move-to
    assert!(decode_commands(&vec![10, 2, 2]).is_none());
    // missing parameter
    assert!(decode_commands(&vec![9, 4]).is_none());
}

#[test]
fn attribute_values() {
    assert_eq!(decode_value(&[0x28, 0x05]), Some(MvtValue::Uint(5)));
    assert_eq!(decode_value(&[0x30, 0x03]), Some(MvtValue::Sint(-2)));
    assert_eq!(decode_value(&[0x38, 0x01]), Some(MvtValue::Bool(true)));
    assert_eq!(decode_value(&[0x20, 0x07]), Some(MvtValue::Int(7)));
    assert_eq!(decode_value(&[0x15, 0, 0, 0x80, 0x3F]), Some(MvtValue::Float(1.0f32.to_bits())));
    assert_eq!(decode_value(&[]), Some(MvtValue::Unknown));
    assert_eq!(decode_value(&[0x0A, 0x01, 0xFF]), None);
    assert_eq!(decode_value(&[0x08, 0x01]), None);
}

fn polygon_feature(cmds: &[u8]) -> Vec<u8> {
    let mut f = vec![0x18, 0x03];
    f.extend(with_len(0x22, cmds));
    f
}

#[test]
fn polygon_rings_group_by_winding() {
    let square_with_hole = [9, 0, 0, 26, 20, 0, 0, 20, 19, 0, 15, 9, 4, 15, 26, 0, 12, 12, 0, 0, 11, 15];
    let feature = decode_feature(&polygon_feature(&square_with_hole)).unwrap();
    assert_eq!(feature.id, None);
    assert_eq!(
        feature.geometry,
        MvtGeometry::Polygon(vec![MvtPolygon {
            exterior: vec![(0, 0), (10, 0), (10, 10), (0, 10)],
            interiors: vec![vec![(2, 2), (2, 8), (8, 8), (8, 2)]],
        }])
    );
    // the hole alone: a first ring that is not an exterior
    let hole_only = [9, 4, 4, 26, 0, 12, 12, 0, 0, 11, 15];
    assert!(decode_feature(&polygon_feature(&hole_only)).is_none());
    // an open path is no ring
    let open = [9, 0, 0, 26, 20, 0, 0, 20, 19, 0];
    assert!(decode_feature(&polygon_feature(&open)).is_none());
}

#[test]
fn line_feature() {
    let mut f = vec![0x08, 0x07, 0x18, 0x02];
    f.extend(with_len(0x22, &[9, 4, 4, 18, 0, 16, 16, 0]));
    f.extend(with_len(0x12, &[0, 1]));
    let feature = decode_feature(&f).unwrap();
    assert_eq!(feature.id, Some(7));
    assert_eq!(feature.tags, vec![0, 1]);
    assert_eq!(feature.geometry, MvtGeometry::LineString(vec![vec![(2, 2), (2, 10), (10, 10)]]));
}

fn tile_with_tags(tags: &[u8]) -> Vec<u8> {
    let mut feature = point_feature();
    feature.extend(with_len(0x12, tags));
    let mut layer = with_len(0x0A, b"l");
    layer.extend(with_len(0x12, &feature));
    layer.extend(with_len(0x1A, b"name"));
    layer.extend(with_len(0x22, &with_len(0x0A, b"a")));
    with_len(0x1A, &layer)
}

#[test]
fn feature_tags_must_point_into_the_layer() {
    let tile = MvtTile::decode(&tile_with_tags(&[0, 0])).unwrap();
    assert_eq!(tile.layers[0].features[0].tags, vec![0, 0]);
    assert_eq!(tile.layers[0].version, 1);
    assert!(MvtTile::decode(&tile_with_tags(&[0, 1])).is_err());
    assert!(MvtTile::decode(&tile_with_tags(&[1, 0])).is_err());
    assert!(MvtTile::decode(&tile_with_tags(&[0])).is_err());
}
