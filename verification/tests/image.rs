use raytracer::Color;
use raytracer::Image;
use raytracer::ImageFormat;
use raytracer::PixelFormat;
use raytracer::Serializable;
use raytracer::image::encode_ppm;

#[test]
fn color_constructors() {
    assert_eq!(Color::new(3, 5, 7), Color { r: 3, g: 5, b: 7 });
    assert_eq!(Color::black(), Color::new(0, 0, 0));
    assert_eq!(Color::white(), Color::new(255, 255, 255));
}

#[test]
fn single_pixel_ppm() {
    let img = Image::from(1, 1, PixelFormat::RGBU8, &[255, 0, 10]);
    let bytes = encode_ppm(&img);
    assert_eq!(String::from_utf8(bytes).unwrap(), "P3\n1 1\n255\n255 0 10\n");
    assert_eq!(img.encode(ImageFormat::PPM), "P3\n1 1\n255\n255 0 10\n");
}

#[test]
fn two_by_two_ppm_is_row_major() {
    let pixels = [
        1, 2, 3, 4, 5, 6, //
        7, 8, 9, 10, 11, 12,
    ];
    let img = Image::from(2, 2, PixelFormat::RGBU8, &pixels);
    assert_eq!(
        img.encode(ImageFormat::PPM),
        "P3\n2 2\n255\n1 2 3\n4 5 6\n7 8 9\n10 11 12\n"
    );
}

#[test]
fn set_pixels_splices_a_range() {
    let mut img = Image::from(2, 1, PixelFormat::RGBU8, &[0, 0, 0, 0, 0, 0]);
    img.set_pixels(3, 6, &[7, 8, 9]);
    assert_eq!(img.get_pixels().as_slice(), &[0, 0, 0, 7, 8, 9]);
    img.set_pixels(0, 2, &[1, 2]);
    assert_eq!(img.get_pixels().as_slice(), &[1, 2, 0, 7, 8, 9]);
}

#[test]
fn new_image_starts_empty() {
    let img = Image::new(4, 3, PixelFormat::RGBU8);
    assert_eq!(img.get_pixels().len(), 0);
    assert_eq!(img.width, 4);
    assert_eq!(img.height, 3);
}
