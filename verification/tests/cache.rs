use raytracer::Color;
use raytracer::ImageTexture;
use raytracer::ResourceConfig;
use raytracer::ResourceManager;
use raytracer::TextureConfig;
use raytracer::TextureKind;
use raytracer::TextureResource;

fn solid(r: u8, g: u8, b: u8) -> TextureConfig {
    TextureConfig { kind: TextureKind::Constant(Color::new(r, g, b)) }
}

#[test]
fn get_twice_returns_identical_instance() {
    let mut mgr: ResourceManager<TextureConfig> = ResourceManager::new();
    let config = solid(10, 20, 30);
    let h1 = mgr.get_resource(&config);
    let h2 = mgr.get_resource(&config);
    assert_eq!(h1, h2);
    match mgr.read_resource(h1) {
        TextureResource::Solid(c) => assert_eq!(*c, Color::new(10, 20, 30)),
        _ => panic!("expected a solid texture"),
    }
}

#[test]
fn released_instance_is_reconstructed_as_distinct() {
    let mut mgr: ResourceManager<TextureConfig> = ResourceManager::new();
    let config = solid(1, 2, 3);
    let h1 = mgr.get_resource(&config);
    let h2 = mgr.get_resource(&config);
    assert_eq!(h1, h2);
    mgr.release_resource(h1);
    assert!(mgr.has_live_instance(&config));
    mgr.release_resource(h2);
    assert!(!mgr.has_live_instance(&config));
    let h3 = mgr.get_resource(&config);
    assert_ne!(h1, h3);
    assert!(mgr.has_live_instance(&config));
}

#[test]
fn distinct_keys_get_distinct_instances() {
    let mut mgr: ResourceManager<TextureConfig> = ResourceManager::new();
    let h1 = mgr.get_resource(&solid(1, 1, 1));
    let h2 = mgr.get_resource(&solid(2, 2, 2));
    assert_ne!(h1, h2);
    let h1_again = mgr.get_resource(&solid(1, 1, 1));
    assert_eq!(h1, h1_again);
}

#[test]
fn checker_children_resolve_through_the_cache() {
    let mut mgr: ResourceManager<TextureConfig> = ResourceManager::new();
    let config = TextureConfig {
        kind: TextureKind::Checker(
            Box::new(solid(51, 77, 26)),
            Box::new(solid(51, 77, 26)),
        ),
    };
    let h = mgr.get_resource(&config);
    match mgr.read_resource(h) {
        TextureResource::Checker(odd, even) => {
            // both nested configurations are equal keys, so the second
            // resolves to the identical shared instance
            assert_eq!(odd, even);
            match mgr.read_resource(*odd) {
                TextureResource::Solid(c) => assert_eq!(*c, Color::new(51, 77, 26)),
                _ => panic!("expected a solid child"),
            }
        },
        _ => panic!("expected a checker texture"),
    }
}

#[test]
fn checker_with_different_children_gets_two_instances() {
    let mut mgr: ResourceManager<TextureConfig> = ResourceManager::new();
    let config = TextureConfig {
        kind: TextureKind::Checker(
            Box::new(solid(51, 77, 26)),
            Box::new(solid(230, 230, 230)),
        ),
    };
    let h = mgr.get_resource(&config);
    match mgr.read_resource(h) {
        TextureResource::Checker(odd, even) => assert_ne!(odd, even),
        _ => panic!("expected a checker texture"),
    }
}

#[test]
fn config_equality_is_structural() {
    let a = TextureConfig {
        kind: TextureKind::Checker(
            Box::new(solid(1, 2, 3)),
            Box::new(TextureConfig { kind: TextureKind::FromFile(String::from("a.png")) }),
        ),
    };
    let b = TextureConfig {
        kind: TextureKind::Checker(
            Box::new(solid(1, 2, 3)),
            Box::new(TextureConfig { kind: TextureKind::FromFile(String::from("a.png")) }),
        ),
    };
    let c = TextureConfig {
        kind: TextureKind::Checker(
            Box::new(solid(1, 2, 3)),
            Box::new(TextureConfig { kind: TextureKind::FromFile(String::from("b.png")) }),
        ),
    };
    assert!(a.eq_config(&b));
    assert!(!a.eq_config(&c));
    let cloned = a.clone_config();
    assert!(cloned.eq_config(&a));
    let perlin = TextureConfig { kind: TextureKind::Perlin(256, 4) };
    assert!(!perlin.eq_config(&a));
    assert!(perlin.eq_config(&perlin.clone_config()));
}

#[test]
fn perlin_config_builds_noise_tables() {
    let mut mgr: ResourceManager<TextureConfig> = ResourceManager::new();
    let h = mgr.get_resource(&TextureConfig { kind: TextureKind::Perlin(256, 4) });
    match mgr.read_resource(h) {
        TextureResource::Noise(tables, scale) => {
            assert_eq!(tables.point_count, 256);
            assert_eq!(*scale, 4);
        },
        _ => panic!("expected noise tables"),
    }
}

#[test]
fn file_config_without_preload_falls_back() {
    let mut mgr: ResourceManager<TextureConfig> = ResourceManager::new();
    let h = mgr.get_resource(
        &TextureConfig { kind: TextureKind::FromFile(String::from("missing.jpg")) },
    );
    match mgr.read_resource(h) {
        TextureResource::Image(img) => assert!(!img.has_pixels()),
        _ => panic!("expected an image texture"),
    }
}

#[test]
fn preinstalled_image_is_returned_for_its_path() {
    let mut mgr: ResourceManager<TextureConfig> = ResourceManager::new();
    let config = TextureConfig { kind: TextureKind::FromFile(String::from("earth.jpg")) };
    let tex = ImageTexture::new(Some((vec![9u8; 4], 1, 1)));
    let installed = mgr.install_resource(&config, TextureResource::Image(tex));
    let h = mgr.get_resource(&config);
    assert_eq!(installed, h);
    match mgr.read_resource(h) {
        TextureResource::Image(img) => {
            assert!(img.has_pixels());
            assert_eq!(img.get_pixel(0, 0), (9, 9, 9));
        },
        _ => panic!("expected the installed image"),
    }
}

#[test]
fn nested_checker_resolves_depth_first() {
    let mut mgr: ResourceManager<TextureConfig> = ResourceManager::new();
    let inner = TextureConfig {
        kind: TextureKind::Checker(
            Box::new(solid(1, 1, 1)),
            Box::new(solid(2, 2, 2)),
        ),
    };
    let outer = TextureConfig {
        kind: TextureKind::Checker(Box::new(inner), Box::new(solid(1, 1, 1))),
    };
    let h = mgr.get_resource(&outer);
    match mgr.read_resource(h) {
        TextureResource::Checker(odd, even) => {
            let even = *even;
            match mgr.read_resource(*odd) {
                TextureResource::Checker(a, b) => {
                    // the outer checker's second child shares the inner
                    // checker's first child: equal keys, one instance
                    assert_eq!(*a, even);
                    assert_ne!(*a, *b);
                    match mgr.read_resource(*a) {
                        TextureResource::Solid(c) => assert_eq!(*c, Color::new(1, 1, 1)),
                        _ => panic!("expected a solid leaf"),
                    }
                },
                _ => panic!("expected the inner checker"),
            }
        },
        _ => panic!("expected the outer checker"),
    }
}
