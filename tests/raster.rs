use span_wallpaper::raster::{CopyError, Raster};

#[test]
fn new_raster_is_black() {
    let r = Raster::new(3, 2);
    assert_eq!((r.width, r.height), (3, 2));
    assert_eq!(r.to_rgb_bytes(), vec![0u8; 18]);
}

#[test]
fn bytes_round_trip() {
    let bytes: Vec<u8> = (0..18).collect();
    let r = Raster::from_rgb_bytes(3, 2, &bytes).unwrap();
    assert_eq!(r.pixel(1, 0), (3, 4, 5));
    assert_eq!(r.pixel(0, 1), (9, 10, 11));
    assert_eq!(r.to_rgb_bytes(), bytes);
}

#[test]
fn wrong_byte_count_is_refused() {
    assert!(Raster::from_rgb_bytes(3, 2, &vec![0u8; 17]).is_none());
    assert!(Raster::from_rgb_bytes(3, 2, &vec![0u8; 19]).is_none());
}

#[test]
fn fill_is_clipped_to_raster() {
    let mut r = Raster::new(4, 4);
    r.fill_rect(-2, 2, 4, 10, (1, 2, 3));
    assert_eq!(r.pixel(0, 2), (1, 2, 3));
    assert_eq!(r.pixel(1, 3), (1, 2, 3));
    assert_eq!(r.pixel(2, 2), (0, 0, 0));
    assert_eq!(r.pixel(0, 1), (0, 0, 0));
}

#[test]
fn copy_places_other_raster() {
    let mut r = Raster::new(4, 4);
    let mut o = Raster::new(2, 2);
    o.fill_rect(0, 0, 2, 2, (5, 5, 5));
    assert_eq!(r.copy_from(&o, 2, 1), Ok(()));
    assert_eq!(r.pixel(2, 1), (5, 5, 5));
    assert_eq!(r.pixel(3, 2), (5, 5, 5));
    assert_eq!(r.pixel(1, 1), (0, 0, 0));
    assert_eq!(r.pixel(2, 3), (0, 0, 0));
}

#[test]
fn copy_out_of_bounds_writes_nothing() {
    let mut r = Raster::new(4, 4);
    let mut o = Raster::new(2, 2);
    o.fill_rect(0, 0, 2, 2, (5, 5, 5));
    assert_eq!(r.copy_from(&o, 3, 0), Err(CopyError::OutOfBounds));
    assert_eq!(r.to_rgb_bytes(), vec![0u8; 48]);
}
