use resizable_canvas::decimal::format_decimal;
use resizable_canvas::types::{Point, COORD_MAX};
use resizable_canvas::utils::{parse_points, stringify_points};

#[test]
fn parses_the_default_triangle() {
    assert_eq!(
        parse_points("0,0 30,0 15,30"),
        vec![Point::new(0, 0), Point::new(3_000, 0), Point::new(1_500, 3_000)]
    );
}

#[test]
fn parses_the_empty_text_as_no_points() {
    assert_eq!(parse_points(""), vec![]);
    assert_eq!(parse_points("   \t\n "), vec![]);
}

#[test]
fn splits_on_any_run_of_whitespace() {
    assert_eq!(
        parse_points("  1,2\t\t3,4\n5,6  "),
        vec![Point::new(100, 200), Point::new(300, 400), Point::new(500, 600)]
    );
}

#[test]
fn splits_on_unicode_whitespace() {
    assert_eq!(
        parse_points("1,2\u{a0}3,4\u{2003}5,6\u{3000}7,8\u{85}9,10"),
        vec![
            Point::new(100, 200),
            Point::new(300, 400),
            Point::new(500, 600),
            Point::new(700, 800),
            Point::new(900, 1_000)
        ]
    );
}

#[test]
fn zero_width_space_is_no_separator() {
    assert_eq!(parse_points("1,2\u{200b}3,4"), vec![]);
}

#[test]
fn drops_malformed_tokens_and_keeps_the_rest() {
    assert_eq!(
        parse_points("1,2 nonsense 3,4 5 6,7,8 ,9 10, a,b 11,12"),
        vec![Point::new(100, 200), Point::new(300, 400), Point::new(1_100, 1_200)]
    );
}

#[test]
fn token_needs_exactly_one_comma() {
    assert_eq!(parse_points("1,2,3"), vec![]);
    assert_eq!(parse_points("1,,2"), vec![]);
    assert_eq!(parse_points("12"), vec![]);
    assert_eq!(parse_points(","), vec![]);
}

#[test]
fn reads_signs_and_fractions() {
    assert_eq!(parse_points("-1.5,+2.25"), vec![Point::new(-150, 225)]);
    assert_eq!(parse_points(".5,3."), vec![Point::new(50, 300)]);
    assert_eq!(parse_points("-.05,-0"), vec![Point::new(-5, 0)]);
    assert_eq!(parse_points("007,0.10"), vec![Point::new(700, 10)]);
}

#[test]
fn rejects_numerals_without_a_digit() {
    assert_eq!(parse_points(".,1"), vec![]);
    assert_eq!(parse_points("-,1"), vec![]);
    assert_eq!(parse_points("+.,1"), vec![]);
    assert_eq!(parse_points("1,-"), vec![]);
}

#[test]
fn rejects_other_number_forms() {
    assert_eq!(parse_points("1e3,2"), vec![]);
    assert_eq!(parse_points("inf,2"), vec![]);
    assert_eq!(parse_points("NaN,2"), vec![]);
    assert_eq!(parse_points("1.2.3,2"), vec![]);
    assert_eq!(parse_points("--1,2"), vec![]);
    assert_eq!(parse_points("1-,2"), vec![]);
    assert_eq!(parse_points("\u{661},2"), vec![]);
}

#[test]
fn third_fraction_digit_rounds_half_away_from_zero() {
    assert_eq!(parse_points("0.124,0.125"), vec![Point::new(12, 13)]);
    assert_eq!(parse_points("-0.124,-0.125"), vec![Point::new(-12, -13)]);
    assert_eq!(parse_points("0.1249999,0.995"), vec![Point::new(12, 100)]);
    assert_eq!(parse_points("2.999,0.004x"), vec![]);
}

#[test]
fn keeps_numerals_up_to_the_edge_of_the_coordinate_space() {
    assert_eq!(
        parse_points("10000000000,-10000000000"),
        vec![Point::new(COORD_MAX, -COORD_MAX)]
    );
    assert_eq!(parse_points("10000000000.004,0"), vec![Point::new(COORD_MAX, 0)]);
}

#[test]
fn drops_numerals_outside_the_coordinate_space() {
    assert_eq!(parse_points("10000000000.01,0"), vec![]);
    assert_eq!(parse_points("10000000000.005,0"), vec![]);
    assert_eq!(parse_points("0,-10000000001"), vec![]);
    assert_eq!(parse_points("99999999999999999999999999999999999999999,0"), vec![]);
    assert_eq!(parse_points("0000000000000000000000000000000000000001,0"), vec![Point::new(100, 0)]);
}

#[test]
fn writes_whole_numbers_without_a_fraction() {
    assert_eq!(
        stringify_points(&[Point::new(0, 0), Point::new(3_000, 0), Point::new(1_500, 3_000)]),
        "0,0 30,0 15,30"
    );
}

#[test]
fn writes_the_empty_list_as_the_empty_text() {
    assert_eq!(stringify_points(&[]), "");
}

#[test]
fn writes_one_point_without_a_blank() {
    assert_eq!(stringify_points(&[Point::new(-100, 250)]), "-1,2.5");
}

#[test]
fn writes_shortest_fractions() {
    assert_eq!(format_decimal(15_000), "150");
    assert_eq!(format_decimal(-1_550), "-15.5");
    assert_eq!(format_decimal(5), "0.05");
    assert_eq!(format_decimal(-5), "-0.05");
    assert_eq!(format_decimal(10), "0.1");
    assert_eq!(format_decimal(101), "1.01");
    assert_eq!(format_decimal(0), "0");
    assert_eq!(format_decimal(-99), "-0.99");
    assert_eq!(format_decimal(1_000_000_000_000), "10000000000");
}

#[test]
fn writes_the_extremes_of_the_integer_type() {
    assert_eq!(format_decimal(i64::MAX), "92233720368547758.07");
    assert_eq!(format_decimal(i64::MIN), "-92233720368547758.08");
}

#[test]
fn reading_back_written_points_gives_them_again() {
    let points = vec![
        Point::new(0, 0),
        Point::new(-1, 1),
        Point::new(12_345, -67_890),
        Point::new(COORD_MAX, -COORD_MAX),
        Point::new(10, -10),
        Point::new(99, 1),
    ];
    let text = stringify_points(&points);
    assert_eq!(text, "0,0 -0.01,0.01 123.45,-678.9 10000000000,-10000000000 0.1,-0.1 0.99,0.01");
    assert_eq!(parse_points(&text), points);
}

#[test]
fn writing_the_points_of_a_text_keeps_them() {
    let text = "  +1.50,2.000   junk 3.999,-.5\n";
    let points = parse_points(text);
    assert_eq!(points, vec![Point::new(150, 200), Point::new(400, -50)]);
    let written = stringify_points(&points);
    assert_eq!(written, "1.5,2 4,-0.5");
    assert_eq!(parse_points(&written), points);
}
