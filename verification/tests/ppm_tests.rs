use lib::canvas::create_pixels;
use lib::ppm::ppm_bytes;

#[test]
fn ppm_of_small_canvas() {
    let mut p = create_pixels(2, 1);
    p[1][0] = [1, 2, 3];
    let bytes = ppm_bytes(&p);
    let mut expected = b"P6 2 1 255\n".to_vec();
    expected.extend_from_slice(&[255, 255, 255, 1, 2, 3]);
    assert_eq!(bytes, expected);
}

#[test]
fn ppm_header_with_multi_digit_sizes() {
    let p = create_pixels(1000, 12);
    let bytes = ppm_bytes(&p);
    let header = b"P6 1000 12 255\n";
    assert_eq!(&bytes[..header.len()], header);
    assert_eq!(bytes.len(), header.len() + 3 * 1000 * 12);
}

#[test]
fn ppm_of_canvas_with_empty_rows() {
    let p = create_pixels(10, 0);
    assert_eq!(ppm_bytes(&p), b"P6 10 0 255\n".to_vec());
}
