use span_wallpaper::geometry::{Display, DisplayConfiguration, Rectangle};

fn rect(min_x: i32, min_y: i32, max_x: i32, max_y: i32) -> Rectangle {
    Rectangle { min_x, max_x, min_y, max_y }
}

fn display(name: &str, bounds: Rectangle) -> Display {
    Display { name: name.to_string(), bounds }
}

#[test]
fn resolution_is_width_and_height() {
    assert_eq!(rect(-1920, -10, 0, 1070).resolution(), (1920, 1080));
    assert_eq!(rect(5, 5, 5, 5).resolution(), (0, 0));
}

#[test]
fn move_by_keeps_resolution() {
    let r = rect(10, 20, 1034, 788);
    let mut moved = r;
    moved.move_by(-300, 45);
    assert_eq!(moved, rect(-290, 65, 734, 833));
    assert_eq!(moved.resolution(), r.resolution());
    assert_eq!(r.moved_by(7, -7).resolution(), (1024, 768));
}

#[test]
fn rectangle_normalize_moves_to_origin() {
    let mut r = rect(-1024, -768, 0, 0);
    r.normalize();
    assert_eq!(r, rect(0, 0, 1024, 768));
    assert_eq!(rect(100, 200, 300, 500).normalized(), rect(0, 0, 200, 300));
}

#[test]
fn from_displays_spans_all_displays() {
    let c = DisplayConfiguration::from_displays(vec![
        display("A", rect(0, 0, 1920, 1080)),
        display("B", rect(-1024, -768, 0, 0)),
        display("C", rect(1920, 100, 3000, 900)),
    ]);
    assert_eq!(c.bounds, rect(-1024, -768, 3000, 1080));
    assert_eq!(c.displays.len(), 3);
    assert_eq!(c.displays[1].name, "B");
}

#[test]
fn stacked_display_keeps_relative_offset() {
    let c = DisplayConfiguration::from_displays(vec![
        display("Main", rect(0, 0, 1920, 1080)),
        display("Laptop", rect(-200, -768, 824, 0)),
    ]);
    let n = c.normalized();
    assert_eq!(n.bounds, rect(0, 0, 2120, 1848));
    assert_eq!(n.displays[0].bounds, rect(200, 768, 2120, 1848));
    assert_eq!(n.displays[1].bounds, rect(0, 0, 1024, 768));
    let before = (c.displays[0].bounds.min_x - c.displays[1].bounds.min_x, c.displays[0].bounds.min_y - c.displays[1].bounds.min_y);
    let after = (n.displays[0].bounds.min_x - n.displays[1].bounds.min_x, n.displays[0].bounds.min_y - n.displays[1].bounds.min_y);
    assert_eq!(before, after);
    assert_eq!(n.displays[1].name, "Laptop");
}

#[test]
fn normalize_is_idempotent() {
    let c = DisplayConfiguration::from_displays(vec![
        display("A", rect(-50, 30, 950, 630)),
        display("B", rect(950, -70, 1800, 400)),
    ]);
    let once = c.normalized();
    let mut twice = once.clone();
    twice.normalize();
    assert_eq!(once.bounds, twice.bounds);
    for i in 0..2 {
        assert_eq!(once.displays[i].bounds, twice.displays[i].bounds);
        assert_eq!(once.displays[i].name, twice.displays[i].name);
    }
}
