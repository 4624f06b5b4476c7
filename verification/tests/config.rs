use image_processor::blur_config::{
    find_u32, get_u32, parse_params, BlurParams, DEFAULT_ITERATIONS, DEFAULT_RADIUS,
};

#[test]
fn a_malformed_text_gives_the_defaults() {
    assert_eq!(parse_params("foo=bar"), BlurParams { radius: 3, iterations: 1 });
}

#[test]
fn the_defaults_are_three_and_one() {
    assert_eq!(DEFAULT_RADIUS, 3);
    assert_eq!(DEFAULT_ITERATIONS, 1);
    assert_eq!(parse_params(""), BlurParams { radius: 3, iterations: 1 });
}

#[test]
fn both_parameters_are_read() {
    assert_eq!(parse_params("radius=5\niterations=2"), BlurParams { radius: 5, iterations: 2 });
    assert_eq!(parse_params("iterations=7 radius=0"), BlurParams { radius: 0, iterations: 7 });
}

#[test]
fn one_parameter_may_be_missing() {
    assert_eq!(parse_params("radius=9"), BlurParams { radius: 9, iterations: 1 });
    assert_eq!(parse_params("iterations=4"), BlurParams { radius: 3, iterations: 4 });
}

#[test]
fn letter_case_does_not_matter() {
    assert_eq!(get_u32("RADIUS=4", "radius"), Some(4));
    assert_eq!(get_u32("Radius = 12", "RADIUS"), Some(12));
    assert_eq!(get_u32("radius=4", "Radius"), Some(4));
    assert_eq!(parse_params("ITERATIONS=3, RaDiUs=8"), BlurParams { radius: 8, iterations: 3 });
}

#[test]
fn what_stands_before_the_digits_is_passed_over() {
    assert_eq!(get_u32("radius: about 15 pixels", "radius"), Some(15));
    assert_eq!(get_u32("radius=-5", "radius"), Some(5));
    assert_eq!(get_u32("radius=1.5", "radius"), Some(1));
    assert_eq!(get_u32("radius\n\n=\t42;", "radius"), Some(42));
    assert_eq!(get_u32("radius iterations=6", "radius"), Some(6));
}

#[test]
fn the_first_occurrence_of_the_key_counts() {
    assert_eq!(get_u32("radius=1 radius=2", "radius"), Some(1));
    assert_eq!(get_u32("xradius=7", "radius"), Some(7));
}

#[test]
fn a_missing_key_or_number_gives_none() {
    assert_eq!(get_u32("foo=bar", "radius"), None);
    assert_eq!(get_u32("radius=", "radius"), None);
    assert_eq!(get_u32("radius=abc", "radius"), None);
    assert_eq!(get_u32("12 radius", "radius"), None);
    assert_eq!(get_u32("", "radius"), None);
    assert_eq!(get_u32("radiu", "radius"), None);
}

#[test]
fn a_number_too_large_gives_none() {
    assert_eq!(get_u32("radius=4294967295", "radius"), Some(u32::MAX));
    assert_eq!(get_u32("radius=4294967296", "radius"), None);
    assert_eq!(get_u32("radius=99999999999999999999999999", "radius"), None);
    assert_eq!(parse_params("radius=4294967296").radius, 3);
}

#[test]
fn leading_zeros_are_read() {
    assert_eq!(get_u32("radius=0007", "radius"), Some(7));
    assert_eq!(get_u32("radius=00000000000000000000", "radius"), Some(0));
}

#[test]
fn an_empty_key_stands_at_the_start() {
    assert_eq!(get_u32("abc 31 def 5", ""), Some(31));
    assert_eq!(get_u32("", ""), None);
}

#[test]
fn text_beyond_ascii_is_passed_over() {
    assert_eq!(get_u32("rayon → radius ≈ ٣ 6", "radius"), Some(6));
    assert_eq!(get_u32("ÉCHELLE=2", "échelle"), Some(2));
}

#[test]
fn find_u32_reads_bytes_as_they_are() {
    assert_eq!(find_u32(b"radius=10", b"radius"), Some(10));
    assert_eq!(find_u32(b"RADIUS=10", b"radius"), None);
    assert_eq!(find_u32(b"a=1 b=22 c=333", b"b"), Some(22));
    assert_eq!(find_u32(b"a=1 b=22 c=333", b"c="), Some(333));
    assert_eq!(find_u32(b"key", b"key"), None);
    assert_eq!(find_u32(b"ke", b"key"), None);
    assert_eq!(find_u32(b"\xffkey\xfe9", b"key"), Some(9));
}
