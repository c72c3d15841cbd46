use std::sync::Arc;

use sandbox::bitmap_image::{bitmap_from_decoded, load_image_from_file_bytes, BitmapImage};
use sandbox::geometry::IVec2;
use sandbox::object::contour_formation::{
    create_boundary_object_data, create_object_outlines, douglas_peucker_simplify,
    form_contour_vertices,
    form_pixel_data_with_contours_from_image, simplify_outline, Tolerance,
};
use sandbox::object::matter_pixel::MatterPixel;
use sandbox::object::pixels::PixelData;
use sandbox::simulation::shear::{shear, ShearRotation};
use sandbox::simulation::simulation_utils::get_alive_pixels;

fn p(x: i32, y: i32) -> IVec2 {
    IVec2::new(x, y)
}

/// An image of `width` by `height` pixels whose pixel `i` has the colour
/// `(i, i + 1, i + 2, alpha(i))`.
fn image(width: u32, height: u32, alpha: impl Fn(u32) -> u8) -> BitmapImage {
    let mut data = Vec::new();
    for i in 0..width * height {
        data.extend_from_slice(&[i as u8, i as u8 + 1, i as u8 + 2, alpha(i)]);
    }
    BitmapImage { data, width, height }
}

fn png(rgba: bool, width: u32, height: u32, samples: Vec<u8>) -> Vec<u8> {
    let mut bytes = std::io::Cursor::new(Vec::new());
    if rgba {
        image::RgbaImage::from_raw(width, height, samples)
            .unwrap()
            .write_to(&mut bytes, image::ImageFormat::Png)
            .unwrap();
    } else {
        image::RgbImage::from_raw(width, height, samples)
            .unwrap()
            .write_to(&mut bytes, image::ImageFormat::Png)
            .unwrap();
    }
    bytes.into_inner()
}

#[test]
fn the_empty_image_is_all_zero() {
    let empty = BitmapImage::empty(3, 2);
    assert_eq!(empty.width, 3);
    assert_eq!(empty.height, 2);
    assert_eq!(empty.data, vec![0u8; 24]);
    assert_eq!(BitmapImage::empty(0, 5).data.len(), 0);
}

#[test]
fn a_dead_pixel_of_the_empty_matter() {
    assert_eq!(
        MatterPixel::zero(3),
        MatterPixel { matter: 3, color_index: 0, is_alive: false }
    );
}

#[test]
fn the_object_without_cells() {
    let nothing = PixelData::empty();
    assert!(nothing.is_empty());
    assert_eq!(nothing.pixels.len(), 0);
    assert_eq!(nothing.image.data.len(), 0);
    let something = PixelData {
        image: Arc::new(image(1, 1, |_| 255)),
        pixels: vec![MatterPixel::zero(0)],
        width: 1,
        height: 1,
    };
    assert!(!something.is_empty());
}

#[test]
fn rgba_files_are_decoded_as_they_are() {
    let samples: Vec<u8> = (0..24).collect();
    let decoded = load_image_from_file_bytes(&png(true, 3, 2, samples.clone())).unwrap();
    assert_eq!(decoded.width, 3);
    assert_eq!(decoded.height, 2);
    assert_eq!(decoded.data, samples);
}

#[test]
fn rgb_files_get_full_opacity() {
    let samples: Vec<u8> = (10..22).collect();
    let decoded = load_image_from_file_bytes(&png(false, 2, 2, samples)).unwrap();
    assert_eq!(decoded.width, 2);
    assert_eq!(decoded.height, 2);
    assert_eq!(
        decoded.data,
        vec![10, 11, 12, 255, 13, 14, 15, 255, 16, 17, 18, 255, 19, 20, 21, 255]
    );
}

#[test]
fn what_is_no_image_is_not_decoded() {
    assert!(load_image_from_file_bytes(&[]).is_none());
    assert!(load_image_from_file_bytes(b"not an image at all").is_none());
    let mut broken = png(true, 2, 2, vec![7; 16]);
    broken.truncate(20);
    assert!(load_image_from_file_bytes(&broken).is_none());
}

#[test]
fn decoded_samples_make_an_image_when_they_fit() {
    let rgba = bitmap_from_decoded(4, 1, 2, vec![1, 2, 3, 4, 5, 6, 7, 8]).unwrap();
    assert_eq!((rgba.width, rgba.height), (1, 2));
    assert_eq!(rgba.data, vec![1, 2, 3, 4, 5, 6, 7, 8]);
    let rgb = bitmap_from_decoded(3, 2, 1, vec![1, 2, 3, 4, 5, 6]).unwrap();
    assert_eq!(rgb.data, vec![1, 2, 3, 255, 4, 5, 6, 255]);
    assert!(bitmap_from_decoded(4, 1, 2, vec![1, 2, 3, 4]).is_none());
    assert!(bitmap_from_decoded(3, 1, 2, vec![1, 2, 3, 4, 5, 6, 7, 8]).is_none());
    assert!(bitmap_from_decoded(0, 1, 1, vec![]).is_none());
    assert!(bitmap_from_decoded(1, 1, 1, vec![9]).is_none());
    assert_eq!(bitmap_from_decoded(4, 0, 0, vec![]).unwrap().data.len(), 0);
}

#[test]
fn the_cells_of_an_object_come_from_its_image_bottom_row_first() {
    // 2 wide, 3 high; the pixels 1 and 4 are transparent.
    let shared = Arc::new(image(2, 3, |i| if i == 1 || i == 4 { 0 } else { 200 }));
    let (pixel_data, bitmap) = form_pixel_data_with_contours_from_image(&shared, 7, 0);
    assert_eq!(pixel_data.width, 2);
    assert_eq!(pixel_data.height, 3);
    assert!(Arc::ptr_eq(&pixel_data.image, &shared));
    let cell = |matter, color_index, is_alive| MatterPixel { matter, color_index, is_alive };
    assert_eq!(
        pixel_data.pixels,
        vec![
            cell(0, 4, false),
            cell(7, 5, true),
            cell(7, 2, true),
            cell(7, 3, true),
            cell(7, 0, true),
            cell(0, 1, false),
        ]
    );
    assert_eq!(bitmap, vec![false, true, true, true, true, false]);
}

#[test]
fn the_picture_of_an_object_shows_its_alive_cells_top_row_first() {
    let shared = Arc::new(image(2, 2, |_| 255));
    let (mut pixel_data, _) = form_pixel_data_with_contours_from_image(&shared, 7, 0);
    assert_eq!(pixel_data.to_image().data, shared.data);
    pixel_data.pixels[0].is_alive = false;
    let picture = pixel_data.to_image();
    assert_eq!((picture.width, picture.height), (2, 2));
    // Cell 0 is the left cell of the bottom row, which is pixel 2.
    assert_eq!(
        picture.data,
        vec![0, 1, 2, 255, 1, 2, 3, 255, 0, 0, 0, 0, 3, 4, 5, 255]
    );
}

#[test]
fn a_part_keeps_the_cells_of_its_box_alive_where_the_bitmap_is_set() {
    let shared = Arc::new(image(3, 3, |_| 255));
    let (pixel_data, _) = form_pixel_data_with_contours_from_image(&shared, 7, 0);
    let part =
        PixelData::split_by_bitmap(0, &pixel_data, &[true, false, false, true], 2, 2, p(1, 1));
    assert_eq!((part.width, part.height), (2, 2));
    assert!(Arc::ptr_eq(&part.image, &shared));
    let cell = |color_index, is_alive| MatterPixel { matter: 7, color_index, is_alive };
    // Row 1 of the object is row 1 of the image, row 2 is row 0.
    assert_eq!(
        part.pixels,
        vec![cell(4, true), cell(5, false), cell(1, false), cell(2, true)]
    );
}

#[test]
fn the_turn_by_nothing_leaves_a_cell_where_it_is() {
    let identity = ShearRotation::identity();
    for (x, y) in [(0, 0), (3, -2), (-16384, 16384)] {
        assert_eq!(shear(identity, p(x, y)), p(x, y));
    }
    let flipped = ShearRotation::new(true, 0, 0).unwrap();
    assert_eq!(shear(flipped, p(3, -2)), p(-3, 2));
}

#[test]
fn a_quarter_turn_by_shears() {
    // -tan(45 degrees) is -1 and sin(90 degrees) is 1.
    let quarter = ShearRotation::new(false, -65_536, 65_536).unwrap();
    assert_eq!(shear(quarter, p(1, 0)), p(0, 1));
    assert_eq!(shear(quarter, p(0, 1)), p(-1, 0));
    assert_eq!(shear(quarter, p(3, 2)), p(-2, 3));
    assert_eq!(shear(quarter, p(-5, 7)), p(-7, -5));
}

#[test]
fn an_eighth_turn_rounds_to_whole_cells() {
    // -tan(22.5 degrees) = -0.41421, sin(45 degrees) = 0.70711.
    let eighth = ShearRotation::new(false, -27_146, 46_341).unwrap();
    // Shear 1: 4 + 0 = 4; shear 2: round(4 * 0.70711) = 3; shear 3:
    // round(4 - 3 * 0.41421) = round(2.757) = 3.
    assert_eq!(shear(eighth, p(4, 0)), p(3, 3));
    // Shear 1: round(-4 * 0.41421) = -2; shear 2: round(4 - 2 * 0.70711) = 3;
    // shear 3: round(-2 - 3 * 0.41421) = round(-3.243) = -3.
    assert_eq!(shear(eighth, p(0, 4)), p(-3, 3));
}

#[test]
fn halves_round_away_from_zero_in_a_shear() {
    let half = ShearRotation::new(false, 32_768, 0).unwrap();
    // x + y / 2, twice, with y unchanged.
    assert_eq!(shear(half, p(0, 1)), p(2, 1));
    assert_eq!(shear(half, p(0, -1)), p(-2, -1));
    assert_eq!(shear(half, p(-1, 1)), p(-1, 1));
    assert_eq!(shear(half, p(0, 3)), p(4, 3));
}

#[test]
fn factors_beyond_the_limit_are_no_rotation() {
    assert!(ShearRotation::new(false, 262_144, -262_144).is_some());
    assert!(ShearRotation::new(false, 262_145, 0).is_none());
    assert!(ShearRotation::new(true, 0, -262_145).is_none());
}

#[test]
fn no_two_cells_are_turned_to_one_place() {
    let rotations = [
        ShearRotation::new(false, -27_146, 46_341).unwrap(),
        ShearRotation::new(true, 13_036, -25_080).unwrap(),
        ShearRotation::new(false, -158_217, 46_341).unwrap(),
        ShearRotation::new(false, 32_768, 32_768).unwrap(),
    ];
    for rotation in rotations {
        let mut seen = std::collections::HashSet::new();
        for y in -20..=20 {
            for x in -20..=20 {
                let turned = shear(rotation, p(x, y));
                assert!(seen.insert((turned.x, turned.y)));
            }
        }
    }
}

#[test]
fn the_alive_cells_of_an_object_lie_round_its_middle() {
    // 3 wide, 2 high; pixel 5 of the image is transparent, which is the right
    // cell of the bottom row.
    let shared = Arc::new(image(3, 2, |i| if i == 5 { 0 } else { 9 }));
    let (pixel_data, _) = form_pixel_data_with_contours_from_image(&shared, 7, 0);
    let pixels = get_alive_pixels(&pixel_data, p(100, 50), ShearRotation::identity(), 42);
    assert_eq!(pixels.len(), 5);
    let places: Vec<(usize, i32, i32)> =
        pixels.iter().map(|t| (t.pixel_index, t.canvas_pos.x, t.canvas_pos.y)).collect();
    // The middle is the cell (1, 1).
    assert_eq!(
        places,
        vec![(0, 99, 49), (1, 100, 49), (3, 99, 50), (4, 100, 50), (5, 101, 50)]
    );
    for pixel in &pixels {
        assert_eq!(pixel.matter, 7);
        assert_eq!(pixel.entity, 42);
    }
    // Cell 0 shows pixel 3 of the image, whose colour is (3, 4, 5, 9); alpha
    // comes first.
    assert_eq!(pixels[0].color, 0x09050403);
    assert_eq!(pixels[4].color, 0x09040302);
}

#[test]
fn short_outlines_are_left_as_they_are() {
    let loose = Tolerance { numer: 1_000_000, denom: 1 };
    for outline in [vec![], vec![p(1, 1)], vec![p(0, 0), p(5, 0), p(9, 9)]] {
        assert_eq!(douglas_peucker_simplify(outline.clone(), loose), outline);
        assert_eq!(simplify_outline(&outline, loose), outline);
    }
}

#[test]
fn vertices_on_the_chord_are_dropped() {
    let exact = Tolerance { numer: 0, denom: 1 };
    let line = vec![p(0, 0), p(1, 0), p(2, 0), p(3, 0), p(4, 0)];
    assert_eq!(douglas_peucker_simplify(line, exact), vec![p(0, 0), p(4, 0)]);
    let corner = vec![p(0, 0), p(2, 0), p(4, 0), p(4, 2), p(4, 4)];
    assert_eq!(
        douglas_peucker_simplify(corner, exact),
        vec![p(0, 0), p(4, 0), p(4, 4)]
    );
}

#[test]
fn vertices_within_the_tolerance_are_dropped_and_others_kept() {
    let bumps = vec![p(0, 0), p(10, 1), p(20, 0), p(30, 5), p(40, 0)];
    // The farthest vertex lies 5 from the chord: 25 is not more than 25.
    assert_eq!(
        douglas_peucker_simplify(bumps.clone(), Tolerance { numer: 25, denom: 1 }),
        vec![p(0, 0), p(40, 0)]
    );
    // With a tolerance of 1.5 it is kept, and so is the vertex at (20, 0),
    // which lies more than 3 from the chord from (0, 0) to (30, 5); the small
    // bump lies 1 from the chord from (0, 0) to (20, 0) and goes.
    assert_eq!(
        douglas_peucker_simplify(bumps.clone(), Tolerance { numer: 9, denom: 4 }),
        vec![p(0, 0), p(20, 0), p(30, 5), p(40, 0)]
    );
    assert_eq!(
        douglas_peucker_simplify(bumps.clone(), Tolerance { numer: 1, denom: 100 }),
        bumps
    );
}

#[test]
fn a_closed_outline_is_split_at_the_vertex_farthest_from_its_start() {
    let exact = Tolerance { numer: 0, denom: 1 };
    let square = vec![
        p(0, 0),
        p(2, 0),
        p(4, 0),
        p(4, 2),
        p(4, 4),
        p(2, 4),
        p(0, 4),
        p(0, 2),
        p(0, 0),
    ];
    assert_eq!(
        douglas_peucker_simplify(square, exact),
        vec![p(0, 0), p(4, 0), p(4, 4), p(0, 4), p(0, 0)]
    );
}

#[test]
fn outlines_with_fewer_than_three_vertices_make_no_body() {
    let exact = Tolerance { numer: 0, denom: 1 };
    let rings = vec![
        vec![p(0, 0), p(1, 0), p(2, 0), p(3, 0)],
        vec![p(0, 0), p(4, 0), p(4, 4), p(0, 4), p(0, 0)],
        vec![p(1, 1), p(2, 2)],
        vec![p(0, 0), p(1, 3), p(2, 0)],
    ];
    assert_eq!(
        create_boundary_object_data(&rings, exact),
        vec![
            vec![p(0, 0), p(4, 0), p(4, 4), p(0, 4), p(0, 0)],
            vec![p(0, 0), p(1, 3), p(2, 0)],
        ]
    );
    assert_eq!(create_boundary_object_data(&vec![], exact), Vec::<Vec<IVec2>>::new());
}

#[test]
fn an_object_is_listed_with_its_first_matter() {
    let cell = |matter: u32, is_alive: bool| MatterPixel { matter, color_index: 0, is_alive };
    let image = Arc::new(BitmapImage::empty(2, 2));
    let mut object = PixelData {
        image,
        pixels: vec![cell(0, false), cell(0, true), cell(5, false), cell(3, true)],
        width: 2,
        height: 2,
    };
    assert_eq!(object.primary_matter(), 5);
    object.pixels[2].matter = 0;
    assert_eq!(object.primary_matter(), 3);
    object.pixels[3].matter = 0;
    assert_eq!(object.primary_matter(), 0);
    assert_eq!(PixelData::empty().primary_matter(), 0);
}

#[test]
fn outlines_are_seen_from_the_middle_of_the_body() {
    // The outline round the one cell of a bitmap of one cell, in half cells.
    let traced = vec![vec![p(1, 0), p(2, 1), p(1, 2), p(0, 1)], vec![], vec![p(2, 2)]];
    assert_eq!(
        form_contour_vertices(&traced, 1, 1, 1),
        Some(vec![vec![p(-1, -2), p(0, -1), p(-1, 0), p(-2, -1)], vec![], vec![p(0, 0)]])
    );
    let wide = vec![vec![p(0, 0), p(10, 0), p(10, 6), p(0, 6)]];
    assert_eq!(
        form_contour_vertices(&wide, 5, 3, 1),
        Some(vec![vec![p(-6, -4), p(4, -4), p(4, 2), p(-6, 2)]])
    );
    // Blocks of four by four cells.
    assert_eq!(
        form_contour_vertices(&wide, 5, 3, 4),
        Some(vec![vec![p(-21, -13), p(19, -13), p(19, 11), p(-21, 11)]])
    );
    assert_eq!(form_contour_vertices(&vec![], 7, 7, 1), Some(vec![]));
    // Vertices beyond the bitmap, and bitmaps too large to trace in.
    assert_eq!(form_contour_vertices(&wide, 4, 3, 1), None);
    assert_eq!(form_contour_vertices(&wide, 5, 2, 1), None);
    assert_eq!(form_contour_vertices(&wide, 5, 3, 0), None);
    assert_eq!(form_contour_vertices(&vec![vec![p(0, 0)], vec![p(-1, 0)]], 5, 5, 1), None);
    assert_eq!(form_contour_vertices(&vec![], 524_288, 1, 1), None);
    assert_eq!(form_contour_vertices(&vec![], 524_287, 524_287, 1), Some(vec![]));
    assert_eq!(form_contour_vertices(&vec![], 131_072, 1, 4), None);
    assert_eq!(form_contour_vertices(&vec![], 131_071, 1, 4), Some(vec![]));
}

#[test]
fn colliders_are_made_of_outlines_with_three_vertices() {
    let triangle = vec![p(0, 0), p(4, 0), p(0, 4)];
    let line = vec![p(0, 0), p(9, 9)];
    let long = vec![p(0, 0), p(1, 0), p(2, 0), p(3, 0)];
    assert_eq!(
        create_object_outlines(vec![line.clone(), triangle.clone(), vec![], long.clone(), line]),
        vec![triangle, long]
    );
    assert_eq!(create_object_outlines(vec![]), Vec::<Vec<IVec2>>::new());
}

#[test]
fn what_is_dropped_lies_near_the_chord_that_replaces_it() {
    let outline = vec![
        p(0, 0),
        p(2, 1),
        p(4, -1),
        p(6, 5),
        p(8, 6),
        p(10, 4),
        p(12, 9),
        p(14, 9),
        p(16, 10),
        p(18, 0),
        p(20, 1),
        p(22, 0),
    ];
    for (numer, denom) in [(0u32, 1u32), (1, 1), (9, 4), (4, 1), (25, 1), (400, 1)] {
        let tolerance = Tolerance { numer, denom };
        let kept = simplify_outline(&outline, tolerance);
        assert_eq!(kept.first(), outline.first());
        assert_eq!(kept.last(), outline.last());
        // The vertices that are kept are vertices of the outline, in order.
        let mut places = vec![];
        let mut from = 0;
        for vertex in &kept {
            let place = from + outline[from..].iter().position(|v| v == vertex).unwrap();
            places.push(place);
            from = place + 1;
        }
        for pair in places.windows(2) {
            let (a, b) = (outline[pair[0]], outline[pair[1]]);
            let chord = ((b.x - a.x) as i64).pow(2) + ((b.y - a.y) as i64).pow(2);
            for dropped in &outline[pair[0] + 1..pair[1]] {
                let cross = ((b.y - a.y) as i64) * dropped.x as i64
                    - ((b.x - a.x) as i64) * dropped.y as i64
                    + b.x as i64 * a.y as i64
                    - b.y as i64 * a.x as i64;
                assert!(cross * cross * denom as i64 <= numer as i64 * chord);
            }
        }
    }
    // With no tolerance only vertices on a chord are dropped, and with a
    // large one all but the ends.
    assert_eq!(simplify_outline(&outline, Tolerance { numer: 0, denom: 1 }).len(), 12);
    assert_eq!(simplify_outline(&outline, Tolerance { numer: 400, denom: 1 }).len(), 2);
}
