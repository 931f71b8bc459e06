use raytracer::Perlin;
use raytracer::ImageTexture;

#[test]
fn tables_are_permutations() {
    let p = Perlin::new(256);
    assert_eq!(p.point_count, 256);
    for table in [&p.perm_x, &p.perm_y, &p.perm_z] {
        assert_eq!(table.len(), 256);
        let mut sorted = table.clone();
        sorted.sort();
        let expected: Vec<usize> = (0..256).collect();
        assert_eq!(sorted, expected);
    }
}

#[test]
fn lattice_index_stays_in_bounds() {
    let p = Perlin::new(256);
    for (ix, iy, iz) in [
        (0i64, 0i64, 0i64),
        (-1, -2, -3),
        (255, 256, 257),
        (-1000, 1000, -1),
        (i64::MAX, i64::MIN, 0),
    ] {
        assert!(p.lattice_index(ix, iy, iz) < 256);
    }
}

#[test]
fn small_table_is_still_a_permutation() {
    let p = Perlin::new(2);
    let mut sorted = p.perm_x.clone();
    sorted.sort();
    assert_eq!(sorted, vec![0, 1]);
}

#[test]
fn image_texture_wraps_decoded_pixels() {
    let pixels: Vec<u8> = vec![
        10, 11, 12, 255, //
        20, 21, 22, 255, //
        30, 31, 32, 255, //
        40, 41, 42, 255,
    ];
    let tex = ImageTexture::new(Some((pixels, 2, 2)));
    assert!(tex.has_pixels());
    assert_eq!(tex.width(), 2);
    assert_eq!(tex.height(), 2);
    assert_eq!(tex.get_pixel(0, 0), (10, 11, 12));
    assert_eq!(tex.get_pixel(0, 1), (20, 21, 22));
    assert_eq!(tex.get_pixel(1, 0), (30, 31, 32));
    assert_eq!(tex.get_pixel(1, 1), (40, 41, 42));
}

#[test]
fn image_texture_with_wrong_buffer_falls_back() {
    let tex = ImageTexture::new(Some((vec![1, 2, 3], 2, 2)));
    assert!(!tex.has_pixels());
    assert_eq!(tex.width(), 0);
    assert_eq!(tex.height(), 0);
    let unloaded = ImageTexture::new(None);
    assert!(!unloaded.has_pixels());
}
