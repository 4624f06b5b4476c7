use image_processor::abi::FilterStatus;
use image_processor::blur_config::BlurParams;
use image_processor::blur_plugin::{blur_in_place, blur_with, process_image, read_params};
use image_processor::kernel::{Kernel, MAX_WEIGHT};

/// The least common multiple of the numbers from 1 to 23.
const ONE: u64 = 5_354_228_880;

fn numbered(len: usize) -> Vec<u8> {
    (0..len).map(|i| (i * 37 + 11) as u8).collect()
}

/// The weights `1 / (1 + d)` in single precision, as multiples of `1 / MAX_WEIGHT`.
fn distance_kernel(radius: u32, width: u32, height: u32) -> Kernel {
    let cols = (radius + 1).min(width.max(1)) as usize;
    let rows = (radius + 1).min(height.max(1)) as usize;
    let mut table = Vec::new();
    for dy in 0..rows {
        let mut row = Vec::new();
        for dx in 0..cols {
            let dx = dx as f32;
            let dy = dy as f32;
            let dist = (dx * dx + dy * dy).sqrt();
            let w = 1.0f32 / (1.0f32 + dist);
            row.push((f64::from(w) * MAX_WEIGHT as f64) as u64);
        }
        table.push(row);
    }
    Kernel::new(table).unwrap()
}

/// The weights `1 / (1 + d)` for a single column of pixels, held exactly.
fn exact_column_kernel(radius: u64) -> Kernel {
    Kernel::new((0..=radius).map(|d| vec![ONE / (1 + d)]).collect()).unwrap()
}

fn grey(values: &[u8]) -> Vec<u8> {
    values.iter().flat_map(|v| [*v; 4]).collect()
}

#[test]
fn a_white_image_stays_white() {
    let mut buf = vec![255u8; 16];
    let kernel = distance_kernel(1, 2, 2);
    let status = process_image(2, 2, &mut buf, Some("radius=1, iterations=1"), &kernel);
    assert_eq!(status, FilterStatus::Success);
    assert_eq!(buf, vec![255u8; 16]);
}

#[test]
fn a_uniform_image_is_a_fixed_point() {
    let pixel = [12u8, 200, 77, 3];
    let mut before = Vec::new();
    for _ in 0..(5 * 4) {
        before.extend_from_slice(&pixel);
    }
    for radius in 1..5 {
        let mut buf = before.clone();
        blur_in_place(5, 4, &mut buf, radius, 3, &distance_kernel(radius, 5, 4));
        assert_eq!(buf, before);
        let odd = Kernel::new(vec![vec![5, 0, 9], vec![1, 7, 0]]).unwrap();
        blur_in_place(5, 4, &mut buf, radius, 2, &odd);
        assert_eq!(buf, before);
    }
}

#[test]
fn radius_zero_changes_nothing() {
    let before = numbered(3 * 2 * 4);
    let mut buf = before.clone();
    blur_in_place(3, 2, &mut buf, 0, 4, &distance_kernel(3, 3, 2));
    assert_eq!(buf, before);
}

#[test]
fn zero_iterations_change_nothing() {
    let before = numbered(3 * 2 * 4);
    let mut buf = before.clone();
    let kernel = distance_kernel(2, 3, 2);
    blur_in_place(3, 2, &mut buf, 2, 0, &kernel);
    assert_eq!(buf, before);
    let status = process_image(3, 2, &mut buf, Some("radius=2 iterations=0"), &kernel);
    assert_eq!(status, FilterStatus::Success);
    assert_eq!(buf, before);
}

#[test]
fn zero_dimensions_change_nothing() {
    let kernel = distance_kernel(1, 3, 3);
    let mut buf: Vec<u8> = Vec::new();
    blur_in_place(0, 3, &mut buf, 1, 1, &kernel);
    blur_in_place(3, 0, &mut buf, 1, 1, &kernel);
    assert!(buf.is_empty());
    let before = numbered(8);
    let mut buf = before.clone();
    blur_in_place(0, 2, &mut buf, 1, 1, &kernel);
    assert_eq!(buf, before);
}

#[test]
fn blur_leaves_a_buffer_of_the_wrong_length_alone() {
    let kernel = distance_kernel(1, 2, 2);
    for len in [0usize, 7, 15, 17, 32] {
        let before = numbered(len);
        let mut buf = before.clone();
        blur_in_place(2, 2, &mut buf, 1, 1, &kernel);
        assert_eq!(buf, before);
        let status = process_image(2, 2, &mut buf, Some("radius=1"), &kernel);
        assert_eq!(status, FilterStatus::NoOp);
        assert_eq!(buf, before);
    }
}

#[test]
fn blur_leaves_overflowing_dimensions_alone() {
    let kernel = distance_kernel(1, 2, 2);
    let before = numbered(16);
    let mut buf = before.clone();
    blur_in_place(usize::MAX, usize::MAX, &mut buf, 1, 1, &kernel);
    assert_eq!(buf, before);
    let status = process_image(u32::MAX, u32::MAX, &mut buf, None, &kernel);
    assert_eq!(status, FilterStatus::NoOp);
    assert_eq!(buf, before);
}

#[test]
fn two_pixels_share_their_values_by_weight() {
    let mut buf = vec![0, 0, 0, 255, 255, 255, 255, 255];
    blur_in_place(1, 2, &mut buf, 1, 1, &distance_kernel(1, 1, 2));
    assert_eq!(buf, vec![85, 85, 85, 255, 170, 170, 170, 255]);
}

#[test]
fn a_single_white_pixel_spreads() {
    let kernel = distance_kernel(1, 3, 3);
    let mut buf = vec![0u8; 36];
    for c in 0..4 {
        buf[16 + c] = 255;
    }
    let mut once = buf.clone();
    blur_in_place(3, 3, &mut once, 1, 1, &kernel);
    assert_eq!(once, grey(&[44, 38, 44, 38, 55, 38, 44, 38, 44]));
    blur_in_place(3, 3, &mut buf, 1, 2, &kernel);
    assert_eq!(buf, grey(&[43, 42, 43, 42, 44, 42, 43, 42, 43]));
}

#[test]
fn the_window_is_clipped_at_the_border() {
    let row = vec![10u8, 20, 30, 40, 50, 60, 70, 80, 90, 100, 110, 120, 200, 210, 220, 230];
    let mut buf = row.clone();
    blur_in_place(4, 1, &mut buf, 1, 1, &distance_kernel(1, 4, 1));
    assert_eq!(
        buf,
        vec![23, 33, 43, 53, 50, 60, 70, 80, 108, 118, 128, 138, 163, 173, 183, 193]
    );
    let mut buf = row.clone();
    blur_in_place(4, 1, &mut buf, 3, 1, &distance_kernel(3, 4, 1));
    assert_eq!(
        buf,
        vec![55, 65, 75, 85, 71, 81, 91, 101, 94, 104, 114, 124, 127, 137, 147, 157]
    );
}

#[test]
fn a_radius_beyond_the_image_takes_the_whole_image() {
    let row = vec![10u8, 20, 30, 40, 50, 60, 70, 80, 90, 100, 110, 120, 200, 210, 220, 230];
    let kernel = distance_kernel(5, 2, 2);
    let mut buf = row.clone();
    blur_in_place(2, 2, &mut buf, 5, 3, &kernel);
    assert_eq!(
        buf,
        vec![86, 96, 106, 116, 87, 97, 107, 117, 88, 98, 108, 118, 89, 99, 109, 119]
    );
    let mut wide = row.clone();
    blur_in_place(2, 2, &mut wide, u32::MAX, 3, &kernel);
    assert_eq!(wide, buf);
}

#[test]
fn neighbours_beyond_the_kernel_have_no_weight() {
    let row = vec![10u8, 20, 30, 40, 50, 60, 70, 80, 90, 100, 110, 120, 200, 210, 220, 230];
    let centre_only = Kernel::new(vec![vec![1]]).unwrap();
    let mut buf = row.clone();
    blur_in_place(4, 1, &mut buf, 3, 1, &centre_only);
    assert_eq!(buf, row);
    let next_only = Kernel::new(vec![vec![2, 1]]).unwrap();
    let mut buf = row.clone();
    blur_in_place(4, 1, &mut buf, 3, 1, &next_only);
    assert_eq!(
        buf,
        vec![23, 33, 43, 53, 50, 60, 70, 80, 108, 118, 128, 138, 163, 173, 183, 193]
    );
}

#[test]
fn only_the_proportions_of_the_weights_count() {
    let row = vec![10u8, 20, 30, 40, 50, 60, 70, 80, 90, 100, 110, 120, 200, 210, 220, 230];
    let mut small = row.clone();
    blur_in_place(4, 1, &mut small, 3, 1, &Kernel::new(vec![vec![2, 1]]).unwrap());
    let mut large = row.clone();
    blur_in_place(4, 1, &mut large, 3, 1, &Kernel::new(vec![vec![4, 2]]).unwrap());
    assert_eq!(small, large);
}

#[test]
fn the_kernel_weighs_rows_and_columns_apart() {
    let image = vec![10u8, 20, 30, 40, 50, 60, 70, 80, 90, 100, 110, 120, 200, 210, 220, 230];
    let kernel = Kernel::new(vec![vec![3, 0], vec![0, 5]]).unwrap();
    let mut buf = image.clone();
    blur_in_place(2, 2, &mut buf, 1, 1, &kernel);
    assert_eq!(
        buf,
        vec![129, 139, 149, 159, 75, 85, 95, 105, 65, 75, 85, 95, 81, 91, 101, 111]
    );
}

#[test]
fn a_tie_is_rounded_upwards() {
    let mut buf = grey(&[0, 255, 0]);
    buf[3] = 255;
    buf[11] = 255;
    blur_in_place(1, 3, &mut buf, 1, 1, &exact_column_kernel(1));
    assert_eq!(buf, vec![85, 85, 85, 255, 128, 128, 128, 255, 85, 85, 85, 255]);
    let mut buf = vec![166, 118, 172, 34, 65, 24, 40, 146, 22, 151, 156, 83, 59, 46, 34, 153];
    blur_in_place(1, 4, &mut buf, 2, 1, &exact_column_kernel(2));
    assert_eq!(buf, vec![112, 98, 133, 73, 77, 75, 92, 110, 60, 97, 107, 105, 50, 71, 68, 133]);
}

#[test]
fn a_tie_among_far_neighbours_is_rounded_upwards() {
    let mut column = vec![0u8; 45];
    column[0] = 12;
    column[44] = 12;
    for row in 24..44 {
        column[row] = 1;
    }
    let expected: Vec<u8> = vec![
        3, 1, 1, 1, 1, 0, 0, 0, 0, 0, 0, 0, 0, 0, 0, 0, 0, 0, 0, 0, 0, 0, 1, 0, 1, 1, 1, 1, 1, 1,
        1, 1, 1, 1, 1, 1, 1, 1, 1, 1, 1, 2, 2, 2, 4,
    ];
    let mut buf = grey(&column);
    blur_in_place(1, 45, &mut buf, 22, 1, &exact_column_kernel(22));
    assert_eq!(buf[22 * 4], 1);
    assert_eq!(buf, grey(&expected));
    let mut buf = grey(&column);
    blur_in_place(1, 45, &mut buf, 22, 1, &distance_kernel(22, 1, 45));
    assert_eq!(buf, grey(&expected));
}

#[test]
fn a_tie_that_rests_on_rounded_weights_falls_as_they_decide() {
    let image = grey(&[
        6, 3, 4, 3, 5, 4, 3, 4, 3, 4, 3, 3, 3, 3, 3, 4, 3, 3, 3, 4, 5, 3, 4, 3, 5,
    ]);
    let mut buf = image.clone();
    blur_in_place(5, 5, &mut buf, 2, 1, &distance_kernel(2, 5, 5));
    assert_eq!(buf[12 * 4], 4);
    assert_eq!(
        buf,
        grey(&[4, 4, 4, 3, 4, 4, 3, 4, 3, 4, 4, 3, 4, 3, 4, 4, 3, 3, 3, 4, 4, 3, 3, 3, 4])
    );
    let mut buf = vec![166, 118, 172, 34, 65, 24, 40, 146, 22, 151, 156, 83, 59, 46, 34, 153];
    blur_in_place(1, 4, &mut buf, 2, 1, &distance_kernel(2, 1, 4));
    assert_eq!(buf, vec![112, 98, 133, 73, 77, 74, 92, 110, 60, 97, 107, 104, 50, 71, 68, 133]);
}

#[test]
fn k_iterations_are_k_single_passes() {
    let kernel = distance_kernel(2, 5, 4);
    let before = numbered(5 * 4 * 4);
    for k in 0..5u32 {
        let mut once = before.clone();
        blur_in_place(5, 4, &mut once, 2, k, &kernel);
        let mut stepwise = before.clone();
        for _ in 0..k {
            blur_in_place(5, 4, &mut stepwise, 2, 1, &kernel);
        }
        assert_eq!(once, stepwise);
    }
}

#[test]
fn blur_with_takes_the_parameters_as_values() {
    let kernel = distance_kernel(2, 3, 3);
    let before = numbered(3 * 3 * 4);
    let mut by_values = before.clone();
    let params = BlurParams { radius: 2, iterations: 2 };
    let status = blur_with(3, 3, &mut by_values, params, &kernel);
    assert_eq!(status, FilterStatus::Success);
    let mut by_text = before.clone();
    process_image(3, 3, &mut by_text, Some("Radius: 2; Iterations: 2"), &kernel);
    assert_eq!(by_values, by_text);
    let mut direct = before.clone();
    blur_in_place(3, 3, &mut direct, 2, 2, &kernel);
    assert_eq!(by_values, direct);
    assert_ne!(by_values, before);
}

#[test]
fn no_configuration_selects_the_defaults() {
    assert_eq!(read_params(None), BlurParams { radius: 3, iterations: 1 });
    assert_eq!(read_params(Some("foo=bar")), BlurParams { radius: 3, iterations: 1 });
    assert_eq!(read_params(Some("radius=7")), BlurParams { radius: 7, iterations: 1 });
    let kernel = distance_kernel(3, 8, 8);
    let before = numbered(8 * 8 * 4);
    let mut without = before.clone();
    assert_eq!(process_image(8, 8, &mut without, None, &kernel), FilterStatus::Success);
    let mut with_defaults = before.clone();
    blur_in_place(8, 8, &mut with_defaults, 3, 1, &kernel);
    assert_eq!(without, with_defaults);
    let mut malformed = before.clone();
    let status = process_image(8, 8, &mut malformed, Some("foo=bar"), &kernel);
    assert_eq!(status, FilterStatus::Success);
    assert_eq!(malformed, with_defaults);
}

#[test]
fn a_kernel_needs_a_centre_with_a_weight() {
    assert!(Kernel::new(vec![]).is_none());
    assert!(Kernel::new(vec![vec![]]).is_none());
    assert!(Kernel::new(vec![vec![0]]).is_none());
    assert!(Kernel::new(vec![vec![0, 5], vec![5, 5]]).is_none());
    assert!(Kernel::new(vec![vec![1]]).is_some());
    assert!(Kernel::new(vec![vec![1, 0], vec![0, 0]]).is_some());
}

#[test]
fn a_kernel_needs_rows_of_one_length() {
    assert!(Kernel::new(vec![vec![1, 2], vec![3]]).is_none());
    assert!(Kernel::new(vec![vec![1], vec![2, 3]]).is_none());
    assert!(Kernel::new(vec![vec![1, 2], vec![]]).is_none());
    assert!(Kernel::new(vec![vec![1, 2], vec![3, 4], vec![5, 6]]).is_some());
}

#[test]
fn a_kernel_holds_no_weight_above_the_largest() {
    assert_eq!(MAX_WEIGHT, 1 << 53);
    assert!(Kernel::new(vec![vec![MAX_WEIGHT]]).is_some());
    assert!(Kernel::new(vec![vec![MAX_WEIGHT + 1]]).is_none());
    assert!(Kernel::new(vec![vec![1, 1], vec![1, MAX_WEIGHT + 1]]).is_none());
    assert!(Kernel::new(vec![vec![1, u64::MAX]]).is_none());
}

#[test]
fn a_kernel_gives_the_weight_of_a_distance() {
    let kernel = Kernel::new(vec![vec![9, 8, 7], vec![6, 5, 4]]).unwrap();
    assert_eq!(kernel.weight_at(0, 0), 9);
    assert_eq!(kernel.weight_at(2, 0), 7);
    assert_eq!(kernel.weight_at(0, 1), 6);
    assert_eq!(kernel.weight_at(2, 1), 4);
    assert_eq!(kernel.weight_at(3, 0), 0);
    assert_eq!(kernel.weight_at(0, 2), 0);
    assert_eq!(kernel.weight_at(usize::MAX, usize::MAX), 0);
}

#[test]
fn the_largest_weights_do_not_overflow() {
    let kernel = Kernel::new(vec![vec![MAX_WEIGHT; 4]; 4]).unwrap();
    let mut buf = vec![255u8; 6 * 6 * 4];
    buf[0] = 0;
    blur_in_place(6, 6, &mut buf, 3, 1, &kernel);
    assert_eq!(buf[0], 239);
    assert_eq!(buf[1], 255);
    assert_eq!(buf[(5 * 6 + 5) * 4], 255);
}
