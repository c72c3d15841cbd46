use sandbox::geometry::IVec2;
use sandbox::object::deformation_utils::extract_connected_components_from_bitmap;

fn alive(values: &[f64]) -> Vec<bool> {
    values.iter().map(|v| *v == 1.0).collect()
}

#[test]
fn test_bitmap_area_extraction() {
    let input = vec![
        1.0, 0.0, 0.0, 1.0,
        1.0, 1.0, 0.0, 1.0,
        1.0, 1.0, 0.0, 1.0,
        1.0, 0.0, 0.0, 1.0,
    ];
    let input_width = 4;
    let input_height = 4;
    let expected_first = vec![
        1.0, 0.0,
        1.0, 1.0,
        1.0, 1.0,
        1.0, 0.0,
    ];
    let expected_first_width = 2;
    let expected_first_height = 4;
    let expected_second = vec![
        1.0,
        1.0,
        1.0,
        1.0,
    ];
    let expected_second_width = 1;
    let expected_second_height = 4;

    let result =
        extract_connected_components_from_bitmap(&alive(&input), input_width, input_height);
    assert_eq!(result.len(), 2);
    assert_eq!(
        result[0],
        (
            alive(&expected_first),
            expected_first_width,
            expected_first_height,
            IVec2::new(0, 0)
        )
    );
    assert_eq!(
        result[1],
        (
            alive(&expected_second),
            expected_second_width,
            expected_second_height,
            IVec2::new(3, 0)
        )
    );
}
