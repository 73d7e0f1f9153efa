use span_wallpaper::resize::{cropping_for, destination_size, fit_size, Cropping, ResizeMode};

#[test]
fn stretch_uses_display_size() {
    assert_eq!(destination_size(ResizeMode::Stretch, 640, 480, 1920, 1080), Some((1920, 1080)));
    assert_eq!(destination_size(ResizeMode::Stretch, 1, 9000, 1920, 1080), Some((1920, 1080)));
    assert_eq!(cropping_for(ResizeMode::Stretch), Cropping::Whole);
}

#[test]
fn fill_uses_display_size_and_crops() {
    assert_eq!(destination_size(ResizeMode::Fill, 4000, 1000, 1920, 1080), Some((1920, 1080)));
    assert_eq!(cropping_for(ResizeMode::Fill), Cropping::Centered);
    assert_eq!(cropping_for(ResizeMode::Fit), Cropping::Whole);
}

#[test]
fn fit_wide_source_binds_width() {
    assert_eq!(destination_size(ResizeMode::Fit, 2048, 768, 1024, 768), Some((1024, 384)));
}

#[test]
fn fit_tall_source_binds_height() {
    assert_eq!(fit_size(1000, 2000, 1920, 1080), Some((540, 1080)));
}

#[test]
fn fit_equal_ratio_binds_height() {
    assert_eq!(fit_size(3840, 2160, 1920, 1080), Some((1920, 1080)));
    assert_eq!(fit_size(1920, 1080, 1920, 1080), Some((1920, 1080)));
}

#[test]
fn fit_rounds_to_nearest() {
    // 1 * 2 / 4 = 0.5, rounded up.
    assert_eq!(fit_size(4, 1, 2, 100), Some((2, 1)));
    // 1 * 1 / 3 rounds down to nothing.
    assert_eq!(fit_size(3, 1, 1, 100), Some((1, 0)));
    // 700 * 1080 / 1000 = 756.
    assert_eq!(fit_size(700, 1000, 1920, 1080), Some((756, 1080)));
}

#[test]
fn fit_never_exceeds_display() {
    for (sw, sh) in [(1, 1), (5000, 3), (3, 5000), (1921, 1080), (1919, 1080), (1280, 1024)] {
        let (w, h) = fit_size(sw, sh, 1920, 1080).unwrap();
        assert!(w <= 1920 && h <= 1080);
        assert!(w == 1920 || h == 1080);
    }
}

#[test]
fn fit_zero_size_has_no_destination() {
    assert_eq!(fit_size(0, 100, 1920, 1080), None);
    assert_eq!(destination_size(ResizeMode::Fit, 100, 100, 0, 1080), None);
}
