use span_wallpaper::compose::{
    compose, paint_resized, paint_slot, placement, CountMismatch, SlotOutcome, WallpaperSource,
};
use span_wallpaper::geometry::{Display, DisplayConfiguration, Rectangle};
use span_wallpaper::raster::Raster;
use span_wallpaper::resize::ResizeMode;

fn rect(min_x: i32, min_y: i32, max_x: i32, max_y: i32) -> Rectangle {
    Rectangle { min_x, max_x, min_y, max_y }
}

fn config(bounds: &[Rectangle]) -> DisplayConfiguration {
    DisplayConfiguration::from_displays(
        bounds.iter().enumerate().map(|(i, b)| Display { name: format!("D{}", i), bounds: *b }).collect(),
    )
}

fn solid(width: u32, height: u32, color: (u8, u8, u8)) -> Raster {
    let mut r = Raster::new(width, height);
    r.fill_rect(0, 0, width, height, color);
    r
}

fn pattern(width: u32, height: u32, seed: u8) -> Raster {
    let mut bytes = Vec::new();
    for y in 0..height {
        for x in 0..width {
            bytes.push((x % 251) as u8 ^ seed);
            bytes.push((y % 241) as u8);
            bytes.push(seed);
        }
    }
    Raster::from_rgb_bytes(width, height, &bytes).unwrap()
}

#[test]
fn two_stretched_images_side_by_side() {
    let c = config(&[rect(0, 0, 1920, 1080), rect(1920, 0, 3840, 1080)]);
    let first = pattern(1920, 1080, 1);
    let second = pattern(1920, 1080, 2);
    let sources = vec![WallpaperSource::Image(first.clone()), WallpaperSource::Image(second.clone())];
    let out = compose(&c, &sources, ResizeMode::Stretch).unwrap();
    assert_eq!((out.canvas.width, out.canvas.height), (3840, 1080));
    for y in 0..1080 {
        assert_eq!(&out.canvas.rows[y as usize][..1920], &first.rows[y as usize][..]);
        assert_eq!(&out.canvas.rows[y as usize][1920..], &second.rows[y as usize][..]);
    }
    assert_eq!(out.outcomes[0], SlotOutcome::Painted { x: 0, y: 0, width: 1920, height: 1080 });
    assert_eq!(out.outcomes[1], SlotOutcome::Painted { x: 1920, y: 0, width: 1920, height: 1080 });
}

#[test]
fn fit_wide_image_is_letterboxed() {
    let c = config(&[rect(0, 0, 1024, 768)]);
    let sources = vec![WallpaperSource::Image(solid(2048, 768, (200, 100, 50)))];
    let out = compose(&c, &sources, ResizeMode::Fit).unwrap();
    assert_eq!(out.outcomes[0], SlotOutcome::Painted { x: 0, y: 192, width: 1024, height: 384 });
    for y in [0u32, 191, 576, 767] {
        assert_eq!(out.canvas.pixel(512, y), (0, 0, 0));
    }
    for y in [192u32, 400, 575] {
        assert_eq!(out.canvas.pixel(0, y), (200, 100, 50));
        assert_eq!(out.canvas.pixel(1023, y), (200, 100, 50));
    }
}

#[test]
fn empty_argument_leaves_display_black() {
    let c = config(&[rect(0, 0, 64, 48)]);
    let sources = vec![WallpaperSource::Color((0, 0, 0))];
    let out = compose(&c, &sources, ResizeMode::Stretch).unwrap();
    assert_eq!(out.outcomes[0], SlotOutcome::Skipped);
    for row in &out.canvas.rows {
        assert!(row.iter().all(|p| *p == (0, 0, 0)));
    }
}

#[test]
fn count_mismatch_is_reported() {
    let c = config(&[rect(0, 0, 100, 100), rect(100, 0, 200, 100), rect(200, 0, 300, 100)]);
    let sources = vec![WallpaperSource::Color((1, 2, 3)), WallpaperSource::Color((4, 5, 6))];
    let out = compose(&c, &sources, ResizeMode::Fit);
    assert_eq!(out.unwrap_err(), CountMismatch { displays: 3, sources: 2 });
}

#[test]
fn more_sources_than_displays_is_reported() {
    let c = config(&[rect(0, 0, 100, 100), rect(100, 0, 200, 100)]);
    let sources = vec![WallpaperSource::Undecodable, WallpaperSource::Undecodable, WallpaperSource::Undecodable];
    assert_eq!(compose(&c, &sources, ResizeMode::Stretch).unwrap_err(), CountMismatch { displays: 2, sources: 3 });
}

#[test]
fn colors_fill_each_display_after_normalizing() {
    let c = config(&[rect(0, 0, 40, 30), rect(-20, -10, 0, 20)]);
    let sources = vec![WallpaperSource::Color((255, 0, 0)), WallpaperSource::Undecodable];
    let out = compose(&c, &sources, ResizeMode::Fill).unwrap();
    assert_eq!((out.canvas.width, out.canvas.height), (60, 40));
    assert_eq!(out.outcomes, vec![SlotOutcome::Filled, SlotOutcome::DecodeFailed]);
    assert_eq!(out.canvas.pixel(20, 10), (255, 0, 0));
    assert_eq!(out.canvas.pixel(59, 39), (255, 0, 0));
    assert_eq!(out.canvas.pixel(19, 10), (0, 0, 0));
    assert_eq!(out.canvas.pixel(0, 0), (0, 0, 0));
}

#[test]
fn fill_mode_covers_display() {
    let c = config(&[rect(0, 0, 30, 20)]);
    let sources = vec![WallpaperSource::Image(solid(90, 20, (9, 9, 9)))];
    let out = compose(&c, &sources, ResizeMode::Fill).unwrap();
    assert_eq!(out.outcomes[0], SlotOutcome::Painted { x: 0, y: 0, width: 30, height: 20 });
    assert_eq!(out.canvas.pixel(0, 0), (9, 9, 9));
    assert_eq!(out.canvas.pixel(29, 19), (9, 9, 9));
}

#[test]
fn placement_centers_smaller_images() {
    assert_eq!(placement(rect(100, 50, 1124, 818), 1024, 384), (100, 242));
    assert_eq!(placement(rect(100, 50, 1124, 818), 500, 768), (362, 50));
    assert_eq!(placement(rect(0, 0, 10, 10), 12, 12), (0, 0));
}

#[test]
fn image_too_large_for_canvas_is_not_copied() {
    let mut canvas = Raster::new(10, 10);
    let source = WallpaperSource::Image(solid(4, 4, (7, 7, 7)));
    let outcome = paint_slot(&mut canvas, rect(8, 8, 12, 12), &source, ResizeMode::Stretch);
    assert_eq!(outcome, SlotOutcome::CopyFailed);
    assert!(canvas.rows.iter().all(|row| row.iter().all(|p| *p == (0, 0, 0))));
}

#[test]
fn resized_bytes_are_centered_exactly() {
    let mut canvas = Raster::new(6, 4);
    let bytes: Vec<u8> = (0..12).collect();
    let outcome = paint_resized(&mut canvas, rect(0, 0, 6, 4), 2, 2, &bytes);
    assert_eq!(outcome, SlotOutcome::Painted { x: 2, y: 1, width: 2, height: 2 });
    assert_eq!(canvas.pixel(2, 1), (0, 1, 2));
    assert_eq!(canvas.pixel(3, 1), (3, 4, 5));
    assert_eq!(canvas.pixel(2, 2), (6, 7, 8));
    assert_eq!(canvas.pixel(3, 2), (9, 10, 11));
    assert_eq!(canvas.pixel(1, 1), (0, 0, 0));
    assert_eq!(canvas.pixel(4, 2), (0, 0, 0));
}

#[test]
fn resized_bytes_of_wrong_length_fail_resize() {
    let mut canvas = Raster::new(6, 4);
    let outcome = paint_resized(&mut canvas, rect(0, 0, 6, 4), 2, 2, &vec![1u8; 11]);
    assert_eq!(outcome, SlotOutcome::ResizeFailed);
    assert_eq!(canvas.to_rgb_bytes(), vec![0u8; 72]);
}

#[test]
fn resized_bytes_that_do_not_fit_fail_copy() {
    let mut canvas = Raster::new(6, 4);
    let outcome = paint_resized(&mut canvas, rect(4, 2, 8, 6), 4, 4, &vec![1u8; 48]);
    assert_eq!(outcome, SlotOutcome::CopyFailed);
    assert_eq!(canvas.to_rgb_bytes(), vec![0u8; 72]);
}

#[test]
fn fit_without_size_fails_resize() {
    let mut canvas = Raster::new(10, 10);
    let source = WallpaperSource::Image(Raster::new(0, 5));
    let outcome = paint_slot(&mut canvas, rect(0, 0, 10, 10), &source, ResizeMode::Fit);
    assert_eq!(outcome, SlotOutcome::ResizeFailed);
}
