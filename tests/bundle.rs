use std::sync::Arc;

use galileo_core::bundle::{RenderBundle, ScreenContent};
use galileo_core::geometry::{Contour, Geom, Polygon};
use galileo_core::image::{DecodedImage, ImageError};

type Bundle = RenderBundle<(i64, i64), String>;

#[test]
fn multipoint_markers_make_one_screen_set_each() {
    let mut bundle = Bundle::new();
    let geom = Geom::MultiPoint(vec![(1, 1), (2, 2), (3, 3), (4, 4)]);
    bundle.add_geometry_markers(&geom, &"pin".to_string());
    assert_eq!(bundle.screen_sets().len(), 4);
    assert_eq!(bundle.screen_sets()[2].anchor, (3, 3));
    assert!(matches!(&bundle.screen_sets()[2].content, ScreenContent::Marker { style } if style == "pin"));
    assert!(bundle.world_set().points.is_empty());
}

#[test]
fn multipoint_points_make_one_world_point_each() {
    let mut bundle = Bundle::new();
    let geom = Geom::MultiPoint(vec![(1, 1), (2, 2), (3, 3)]);
    bundle.add_geometry_points(&geom, &"circle".to_string());
    assert_eq!(bundle.world_set().points.len(), 3);
    assert_eq!(bundle.world_set().points[1], ((2, 2), "circle".to_string()));
    assert!(bundle.screen_sets().is_empty());
    bundle.add_geometry_points(&Geom::Point((9, 9)), &"c".to_string());
    assert_eq!(bundle.world_set().points.len(), 4);
    let line = Geom::Contour(Contour { points: vec![(0, 0), (1, 1)], is_closed: false });
    bundle.add_geometry_points(&line, &"c".to_string());
    assert_eq!(bundle.world_set().points.len(), 4);
}

#[test]
fn text_markers_add_background_then_label() {
    let mut bundle = Bundle::new();
    let geom = Geom::MultiPoint(vec![(1, 2), (3, 4)]);
    bundle.add_geometry_point_pairs(&geom, &"bg".to_string(), &"text".to_string());
    let names: Vec<_> = bundle.world_set().points.iter().map(|(p, s)| (*p, s.as_str())).collect();
    assert_eq!(names, vec![((1, 2), "bg"), ((1, 2), "text"), ((3, 4), "bg"), ((3, 4), "text")]);
}

#[test]
fn labels_follow_attachment() {
    let mut bundle = Bundle::new();
    bundle.add_label((5, 5), "attached".to_string(), "s".to_string(), true);
    assert_eq!(bundle.world_set().labels.len(), 1);
    assert!(bundle.screen_sets().is_empty());
    bundle.add_label((6, 6), "floating".to_string(), "s".to_string(), false);
    assert_eq!(bundle.world_set().labels.len(), 1);
    assert_eq!(bundle.screen_sets().len(), 1);
    assert!(matches!(&bundle.screen_sets()[0].content, ScreenContent::Label { text, .. } if text == "floating"));
}

#[test]
fn lines_polygons_images_go_to_world_set() {
    let mut bundle = Bundle::new();
    let contour = Contour { points: vec![(0, 0), (1, 0), (1, 1)], is_closed: true };
    bundle.add_line(Contour { points: vec![(0, 0), (2, 2)], is_closed: false }, "l".to_string());
    bundle.add_polygon(Polygon { outer_contour: contour, inner_contours: Vec::new() }, "p".to_string());
    let image = DecodedImage::from_raw(vec![0; 8], 2, 1).unwrap();
    bundle.add_image_owned(image.clone(), [(0, 0), (1, 0), (1, 1), (0, 1)], "i".to_string());
    bundle.add_image(Arc::new(image), [(0, 0), (1, 0), (1, 1), (0, 1)], "i".to_string());
    bundle.add_marker((0, 0), "m".to_string());
    let world = bundle.world_set();
    assert_eq!((world.lines.len(), world.polygons.len(), world.images.len()), (1, 1, 2));
    assert_eq!(bundle.screen_sets().len(), 1);
}

#[test]
fn image_sizes_are_checked() {
    let image = DecodedImage::from_raw(vec![1; 62 * 99 * 4], 62, 99).unwrap();
    assert_eq!(image.width(), 62);
    assert_eq!(image.height(), 99);
    assert_eq!(image.byte_size(), 62 * 99 * 4);
    assert!(matches!(DecodedImage::from_raw(vec![0; 7], 2, 1), Err(ImageError::SizeMismatch)));
}

#[test]
fn images_decode_from_png_bytes() {
    let mut source = image::RgbaImage::new(3, 2);
    source.put_pixel(1, 1, image::Rgba([10, 20, 30, 255]));
    let mut png = std::io::Cursor::new(Vec::new());
    source.write_to(&mut png, image::ImageOutputFormat::Png).unwrap();
    let decoded = DecodedImage::decode(png.get_ref()).unwrap();
    assert_eq!((decoded.width(), decoded.height()), (3, 2));
    assert_eq!(decoded.byte_size(), 24);
    assert_eq!(&decoded.bytes()[16..20], &[10, 20, 30, 255]);
    assert!(matches!(DecodedImage::decode(&[1, 2, 3]), Err(ImageError::Decode)));
}
