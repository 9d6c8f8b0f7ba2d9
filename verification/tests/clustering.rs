use photodedupe::config::get_default_config_options;
use photodedupe::grouping::{colour_n_square_check, group, hamming_check, should_use_approximate};
use photodedupe::image_error::MyImageError;
use photodedupe::imagehash::{ImageHashAV, ImagePath};
use photodedupe::ordering::{is_duplicate_of_prev, sort_results};
use photodedupe::pipeline::collate_results;

fn step(u: f64) -> f64 {
    ((u - 0.5) * 8.0 + 0.5).clamp(0.0, 1.0)
}

fn render_png(w: u32, h: u32, pattern: u32) -> Vec<u8> {
    let mut img = image::RgbImage::new(w, h);
    for y in 0..h {
        for x in 0..w {
            let u = (x as f64 + 0.5) / w as f64;
            let v = (y as f64 + 0.5) / h as f64;
            let t = match pattern {
                0 => step(u),
                1 => step(v),
                2 => step((u + v) / 2.0),
                _ => step(1.0 - u),
            };
            let r = (40.0 + 180.0 * t) as u8;
            let g = (50.0 + 160.0 * t) as u8;
            let b = (60.0 + 120.0 * t) as u8;
            img.put_pixel(x, y, image::Rgb([r, g, b]));
        }
    }
    let mut bytes: Vec<u8> = Vec::new();
    img.write_to(&mut std::io::Cursor::new(&mut bytes), image::ImageFormat::Png)
        .unwrap();
    bytes
}

fn hash_image(bytes: &[u8], name: &str, compare: bool, always_mark: bool) -> ImageHashAV {
    let path = ImagePath {
        fpath: name.to_string(),
        is_compare_dir: compare,
        always_mark_dupe_compare: always_mark,
    };
    ImageHashAV::new(&path, bytes, bytes.len() as u64, 0, 0).unwrap()
}

fn synthetic_fingerprint(dupe_group: u64, num_pixels: u64, file_size: u64) -> ImageHashAV {
    ImageHashAV {
        dupe_group,
        grey_hash: dupe_group,
        low_res: vec![0u8; 192],
        width: 100,
        height: 100,
        file_size,
        num_pixels,
        std_dev: 0,
        image_path: ImagePath {
            fpath: String::new(),
            is_compare_dir: false,
            always_mark_dupe_compare: false,
        },
    }
}

/// The n-square check identifies three images that should be duplicates
/// as duplicates.
#[test]
fn test_n_square_check() {
    let best = hash_image(&render_png(400, 300, 2), "cat1_best.png", false, false);
    let dupe = hash_image(&render_png(300, 225, 2), "cat1_duplicate_1.png", false, false);
    let dupe2 = hash_image(&render_png(200, 150, 2), "cat1_duplicate_2.png", false, false);
    let mut images = vec![dupe, best, dupe2];

    colour_n_square_check(&mut images, &get_default_config_options());

    assert_eq!(images.len(), 3, "Should be three images");
    assert_ne!(images[0].dupe_group, 0, "Dupe group is not zero");
    assert_ne!(images[1].dupe_group, 0, "Dupe group is not zero");
    assert_ne!(images[2].dupe_group, 0, "Dupe group is not zero");
    assert_eq!(images[0].dupe_group, images[1].dupe_group, "Images have same dupe group");
    assert_eq!(images[0].dupe_group, images[2].dupe_group, "Images have same dupe group");
}

/// When using the hamming method, images are identified as duplicates.
#[test]
fn test_hamming() {
    let best = hash_image(&render_png(400, 300, 0), "car1_best.png", false, false);
    let dupe = hash_image(&render_png(300, 225, 0), "car1_duplicate_1.png", false, false);
    let dupe2 = hash_image(&render_png(200, 150, 0), "car1_duplicate_2.png", false, false);
    let mut images = vec![dupe2, best, dupe];

    hamming_check(&mut images, &get_default_config_options());

    assert_eq!(images.len(), 3, "Should be three images");
    assert_ne!(images[0].dupe_group, 0, "Dupe group is not zero");
    assert_ne!(images[1].dupe_group, 0, "Dupe group is not zero");
    assert_ne!(images[2].dupe_group, 0, "Dupe group is not zero");
    assert_eq!(images[0].dupe_group, images[1].dupe_group, "Images have same dupe group");
    assert_eq!(images[0].dupe_group, images[2].dupe_group, "Images have same dupe group");
}

/// The comparison-set semantics: an image from the comparison directory,
/// marked to be a duplicate in all circumstances, sorts after its peers
/// even when it is the better-quality version.
#[test]
fn test_compare_option() {
    // Put the highest resolution image in the comparison set with the
    // override applied; the lower-resolution image is part of the
    // existing collection.
    let best = hash_image(&render_png(400, 300, 1), "car1_best.png", true, true);
    let dupe = hash_image(&render_png(300, 225, 1), "car1_duplicate_1.png", false, false);
    let mut images = vec![best, dupe];

    colour_n_square_check(&mut images, &get_default_config_options());
    sort_results(&mut images);

    assert_eq!(images.len(), 2, "Should be two images");
    assert_ne!(images[0].dupe_group, 0, "Dupe group is not zero");
    assert_ne!(images[1].dupe_group, 0, "Dupe group is not zero");
    assert_eq!(images[0].dupe_group, images[1].dupe_group, "Images have same dupe group");

    assert_eq!(
        images[0].image_path.fpath, "car1_duplicate_1.png",
        "Duplicate should be top of the list because not in the compare directory."
    );
    assert_eq!(
        images[1].image_path.fpath, "car1_best.png",
        "Best image should be second on the list because is in the compare directory."
    );

    // When the images are identical, the comparison-set one sorts last.
    let book = render_png(320, 240, 3);
    let t2_best = hash_image(&book, "book1_best.png", true, true);
    let t2_dupe1 = hash_image(&book, "book1_best.png", false, false);
    let t2_dupe2 = hash_image(&book, "book1_best.png", false, false);
    let mut t2_images = vec![t2_best, t2_dupe1, t2_dupe2];

    hamming_check(&mut t2_images, &get_default_config_options());
    sort_results(&mut t2_images);

    assert_eq!(t2_images.len(), 3, "Should be three images");
    assert_ne!(t2_images[0].dupe_group, 0, "Dupe group is not zero");
    assert_ne!(t2_images[1].dupe_group, 0, "Dupe group is not zero");
    assert_ne!(t2_images[2].dupe_group, 0, "Dupe group is not zero");
    assert_eq!(t2_images[0].dupe_group, t2_images[1].dupe_group, "Images have same dupe group");
    assert_eq!(t2_images[0].dupe_group, t2_images[2].dupe_group, "Images have same dupe group");
    assert_eq!(
        t2_images[0].image_path.is_compare_dir, false,
        "The 1st image is not in the compare directory"
    );
    assert_eq!(
        t2_images[1].image_path.is_compare_dir, false,
        "The 2nd image is not in the compare directory"
    );
    assert_eq!(
        t2_images[2].image_path.is_compare_dir, true,
        "The image in the compare directory is last in the sort group"
    );
}

/// The scale policy: 25 files stay on the exhaustive strategy under the
/// default flip threshold of 20000; 30000 files flip to the approximate
/// strategy; forcing the colour-difference check keeps the exhaustive
/// strategy whatever the count.
#[test]
fn test_scale_policy() {
    assert!(!should_use_approximate(25, 20000, false));
    assert!(should_use_approximate(30000, 20000, false));
    assert!(!should_use_approximate(30000, 20000, true));
    assert!(!should_use_approximate(20000, 20000, false));
    assert!(should_use_approximate(20001, 20000, false));
}

/// The dispatcher acts on the policy: the exhaustive strategy resets
/// unmatched cluster keys to zero, the approximate one leaves an
/// unmatched fingerprint's key alone, which makes the chosen strategy
/// observable.
#[test]
fn test_group_dispatch() {
    let config = get_default_config_options();

    // 25 fingerprints, none of them duplicates (the variation gate blocks
    // every pair): the exhaustive strategy resets every key to zero.
    let mut small: Vec<ImageHashAV> = (0..25u64)
        .map(|i| synthetic_fingerprint(1000 + 4 * i, 100, 100))
        .collect();
    group(&mut small, &config);
    assert_eq!(small.len(), 25);
    assert!(small.iter().all(|h| h.dupe_group == 0));

    // 30000 fingerprints with pairwise-distant hashes: the approximate
    // strategy registers each under its own key and changes nothing.
    let mut large: Vec<ImageHashAV> = (0..30000u64)
        .map(|i| synthetic_fingerprint(1000 + 4 * i, 100, 100))
        .collect();
    group(&mut large, &config);
    assert_eq!(large.len(), 30000);
    assert!(large.iter().all(|h| h.dupe_group != 0));
}

/// Ordering: within a cluster the largest image sorts first, and with
/// equal pixel counts the larger file size sorts first.
#[test]
fn test_ordering_keys() {
    let a = synthetic_fingerprint(5, 100, 10);
    let b = synthetic_fingerprint(5, 300, 10);
    let c = synthetic_fingerprint(5, 200, 10);
    let mut v = vec![a, b, c];
    sort_results(&mut v);
    assert_eq!(v[0].num_pixels, 300);
    assert_eq!(v[1].num_pixels, 200);
    assert_eq!(v[2].num_pixels, 100);

    let d = synthetic_fingerprint(5, 200, 111);
    let e = synthetic_fingerprint(5, 200, 999);
    let mut w = vec![d, e];
    sort_results(&mut w);
    assert_eq!(w[0].file_size, 999);
    assert_eq!(w[1].file_size, 111);
}

/// Clusters sort by ascending cluster key, so each cluster's members
/// stand together.
#[test]
fn test_ordering_groups_contiguous() {
    let mut v = vec![
        synthetic_fingerprint(9, 100, 1),
        synthetic_fingerprint(2, 500, 1),
        synthetic_fingerprint(9, 300, 1),
        synthetic_fingerprint(2, 100, 1),
    ];
    sort_results(&mut v);
    assert_eq!(v[0].dupe_group, 2);
    assert_eq!(v[1].dupe_group, 2);
    assert_eq!(v[2].dupe_group, 9);
    assert_eq!(v[3].dupe_group, 9);
    assert_eq!(v[0].num_pixels, 500);
    assert_eq!(v[2].num_pixels, 300);
}

/// Pipeline fault isolation: one corrupt file among ten yields nine
/// fingerprints and one reported decode failure, and the run completes.
#[test]
fn test_pipeline_fault_isolation() {
    let mut outcomes: Vec<Result<ImageHashAV, MyImageError>> = Vec::new();
    for i in 0..10u32 {
        let bytes: Vec<u8> = if i == 4 {
            vec![1, 2, 3, 4, 5, 6, 7, 8]
        } else {
            render_png(64 + 16 * i, 64 + 16 * i, i % 4)
        };
        let path = ImagePath {
            fpath: format!("file_{}.png", i),
            is_compare_dir: false,
            always_mark_dupe_compare: false,
        };
        outcomes.push(ImageHashAV::new(&path, &bytes, bytes.len() as u64, 0, 0));
    }
    let (hashes, errors) = collate_results(outcomes);
    assert_eq!(hashes.len(), 9);
    assert_eq!(errors.len(), 1);
    assert!(matches!(errors[0], MyImageError::DecodeFail(_)));
    assert!(errors[0].message().contains("file_4.png"));
}

/// Collation keeps arrival order on both sides.
#[test]
fn test_collate_order() {
    let outcomes: Vec<Result<ImageHashAV, MyImageError>> = vec![
        Ok(synthetic_fingerprint(1, 10, 1)),
        Err(MyImageError::FileError("first".to_string())),
        Ok(synthetic_fingerprint(2, 20, 2)),
        Err(MyImageError::DecodeFail("second".to_string())),
    ];
    let (hashes, errors) = collate_results(outcomes);
    assert_eq!(hashes.len(), 2);
    assert_eq!(hashes[0].dupe_group, 1);
    assert_eq!(hashes[1].dupe_group, 2);
    assert_eq!(errors.len(), 2);
    assert_eq!(errors[0].message(), "first");
    assert_eq!(errors[1].message(), "second");
}

/// The presentation decision: an entry is a duplicate of its predecessor
/// exactly when the keys agree and the predicate re-validates.
#[test]
fn test_is_duplicate_of_prev() {
    let config = get_default_config_options();
    let mut a = synthetic_fingerprint(7, 100, 1);
    let mut b = synthetic_fingerprint(7, 100, 1);
    a.std_dev = 5000;
    b.std_dev = 5000;
    assert!(is_duplicate_of_prev(&a, &b, &config));

    let c = synthetic_fingerprint(8, 100, 1);
    assert!(!is_duplicate_of_prev(&a, &c, &config));

    // Same key, but the variation check fails on re-validation: not a duplicate.
    let d = synthetic_fingerprint(7, 100, 1);
    assert!(!is_duplicate_of_prev(&a, &d, &config));
}
