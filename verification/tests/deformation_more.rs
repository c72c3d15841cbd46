use sandbox::geometry::IVec2;
use sandbox::object::deformation_utils::extract_connected_components_from_bitmap;

fn bits(rows: &[&str]) -> Vec<bool> {
    rows.iter().flat_map(|row| row.chars().map(|c| c == '#')).collect()
}

#[test]
fn an_empty_bitmap_has_no_components() {
    assert!(extract_connected_components_from_bitmap(&[], 0, 0).is_empty());
    assert!(extract_connected_components_from_bitmap(&bits(&["...", "..."]), 3, 2).is_empty());
}

#[test]
fn a_single_cell_is_a_component() {
    let result = extract_connected_components_from_bitmap(&bits(&["...", ".#.", "..."]), 3, 3);
    assert_eq!(result, vec![(vec![true], 1, 1, IVec2::new(1, 1))]);
}

#[test]
fn diagonal_neighbours_are_connected() {
    let result = extract_connected_components_from_bitmap(&bits(&["#..", ".#.", "..#"]), 3, 3);
    assert_eq!(result.len(), 1);
    assert_eq!(
        result[0],
        (bits(&["#..", ".#.", "..#"]), 3, 3, IVec2::new(0, 0))
    );
}

#[test]
fn components_come_in_reading_order_and_are_cut_along_their_boxes() {
    let input = bits(&[
        "..#..", //
        "#.#..", //
        "#...#", //
        "....#", //
    ]);
    let result = extract_connected_components_from_bitmap(&input, 5, 4);
    assert_eq!(result.len(), 3);
    assert_eq!(result[0], (vec![true, true], 1, 2, IVec2::new(2, 0)));
    assert_eq!(result[1], (vec![true, true], 1, 2, IVec2::new(0, 1)));
    assert_eq!(result[2], (vec![true, true], 1, 2, IVec2::new(4, 2)));
}

#[test]
fn a_cut_out_holds_only_its_own_component() {
    // The ring surrounds a cell of its own; the box of the ring holds both.
    let input = bits(&[
        "#####", //
        "#...#", //
        "#.#.#", //
        "#...#", //
        "#####", //
    ]);
    let result = extract_connected_components_from_bitmap(&input, 5, 5);
    assert_eq!(result.len(), 2);
    assert_eq!(
        result[0],
        (
            bits(&["#####", "#...#", "#...#", "#...#", "#####"]),
            5,
            5,
            IVec2::new(0, 0)
        )
    );
    assert_eq!(result[1], (vec![true], 1, 1, IVec2::new(2, 2)));
}

#[test]
fn a_long_snake_is_one_component() {
    let width = 200u32;
    let height = 200u32;
    let mut input = vec![false; (width * height) as usize];
    for y in 0..height {
        for x in 0..width {
            let on = if y % 2 == 0 {
                true
            } else if (y / 2) % 2 == 0 {
                x == width - 1
            } else {
                x == 0
            };
            input[(y * width + x) as usize] = on;
        }
    }
    let result = extract_connected_components_from_bitmap(&input, width, height);
    assert_eq!(result.len(), 1);
    assert_eq!(result[0].1, width);
    assert_eq!(result[0].2, height);
    assert_eq!(result[0].3, IVec2::new(0, 0));
    assert_eq!(result[0].0, input);
}

#[test]
fn every_part_is_cut_out_with_its_box() {
    let bitmap = bits(&[
        ".##.", //
        ".#..", //
        "...#", //
    ]);
    let parts = extract_connected_components_from_bitmap(&bitmap, 4, 3);
    assert_eq!(parts.len(), 2);
    assert_eq!((parts[0].1, parts[0].2, parts[0].3), (2, 2, IVec2::new(1, 0)));
    assert_eq!(parts[0].0, vec![true, true, true, false]);
    assert_eq!((parts[1].1, parts[1].2, parts[1].3), (1, 1, IVec2::new(3, 2)));
    assert_eq!(parts[1].0, vec![true]);
}
