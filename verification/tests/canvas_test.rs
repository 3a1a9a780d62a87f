use ray_tracer::canvas::{canvas, canvas_to_ppm};

#[test]
fn test_canvas() {
    let width = 10;
    let height = 20;
    let c = canvas(width, height);

    assert_eq!(c.width(), width);
    assert_eq!(c.height(), height);
    assert_eq!(c.pixels, vec![0; width * height * 3]);
}

#[test]
fn test_ppm_header() {
    let c = canvas(5, 3);
    let expected_output = "\
    P3\n\
    5 3\n\
    255\n\
    0 0 0 0 0 0 0 0 0 0 0 0 0 0 0\n\
    0 0 0 0 0 0 0 0 0 0 0 0 0 0 0\n\
    0 0 0 0 0 0 0 0 0 0 0 0 0 0 0\n";

    assert_eq!(c.canvas_to_ppm(), expected_output);
}

#[test]
fn test_ppm_body_from_bytes() {
    let mut c = canvas(5, 3);
    c.set_pixel(0, 0, 255, 0, 0);
    c.set_pixel(2, 1, 0, 128, 0);
    c.set_pixel(4, 2, 0, 0, 255);
    let expected_output = "\
    P3\n\
    5 3\n\
    255\n\
    255 0 0 0 0 0 0 0 0 0 0 0 0 0 0\n\
    0 0 0 0 0 0 0 128 0 0 0 0 0 0 0\n\
    0 0 0 0 0 0 0 0 0 0 0 0 0 0 255\n";

    assert_eq!(c.canvas_to_ppm(), expected_output);
}

#[test]
fn test_long_lines_wrap_at_fifteen_values() {
    let mut c = canvas(10, 2);
    for y in 0..2 {
        for x in 0..10 {
            c.set_pixel(x, y, 255, 204, 153);
        }
    }

    let expected_output = "\
    P3\n\
    10 2\n\
    255\n\
    255 204 153 255 204 153 255 204 153 255 204 153 255 204 153\n\
    255 204 153 255 204 153 255 204 153 255 204 153 255 204 153\n\
    255 204 153 255 204 153 255 204 153 255 204 153 255 204 153\n\
    255 204 153 255 204 153 255 204 153 255 204 153 255 204 153\n";

    assert_eq!(c.canvas_to_ppm(), expected_output);
}

#[test]
fn test_empty_canvas_ppm() {
    let c = canvas(0, 0);

    assert_eq!(c.canvas_to_ppm(), "P3\n0 0\n255\n");
}

#[test]
fn test_free_function_matches_method() {
    let mut c = canvas(2, 2);
    c.set_pixel(1, 1, 7, 8, 9);

    assert_eq!(canvas_to_ppm(&c), c.canvas_to_ppm());
}

#[test]
fn test_set_and_read_pixel_bytes() {
    let mut c = canvas(4, 4);
    c.set_pixel(3, 2, 10, 20, 30);

    assert_eq!(c.pixel_bytes(3, 2), (10, 20, 30));
    assert_eq!(c.pixel_bytes(0, 0), (0, 0, 0));
}

#[test]
fn test_within_bounds() {
    let c = canvas(10, 20);

    assert!(c.within_bounds(0, 0));
    assert!(c.within_bounds(9, 19));
    assert!(!c.within_bounds(10, 0));
    assert!(!c.within_bounds(0, 20));
}
