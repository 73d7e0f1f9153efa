use vstd::prelude::*;
use crate::geometry::{
    DisplayConfiguration, Rectangle, bounds_of, lemma_union_contains, normalized_config,
};
use crate::raster::{Raster, Rgb, BLACK, CopyError, in_rect, in_size};
use crate::resize::{Cropping, ResizeMode, destination_size, destination_size_spec, cropping_for};
use fast_image_resize::images::Image;
use fast_image_resize::{PixelType, ResizeOptions, Resizer};

verus! {

/// What is painted on one display.
#[derive(Debug)]
pub enum WallpaperSource {
    /// A decoded image.
    Image(Raster),
    /// An image that could not be decoded; the display stays black.
    Undecodable,
    /// A solid color; black leaves the display unpainted.
    Color(Rgb),
}

impl WallpaperSource {
    /// An image source is a well-formed raster.
    pub open spec fn wf(&self) -> bool {
        match *self {
            WallpaperSource::Image(img) => img.wf(),
            _ => true,
        }
    }
}

/// What became of one display.
#[derive(Debug, Clone, Copy, PartialEq, Eq, Structural)]
pub enum SlotOutcome {
    /// The resized image was copied into the canvas at `(x, y)`.
    Painted { x: u32, y: u32, width: u32, height: u32 },
    /// The display was filled with a color.
    Filled,
    /// The display was left as it was.
    Skipped,
    /// The image could not be decoded.
    DecodeFailed,
    /// The image could not be resized.
    ResizeFailed,
    /// The resized image did not fit in the canvas.
    CopyFailed,
}

/// The number of sources differs from the number of displays.
#[derive(Debug, Clone, Copy, PartialEq, Eq, Structural)]
pub struct CountMismatch {
    pub displays: usize,
    pub sources: usize,
}

/// The composed wallpaper and what became of each display.
#[derive(Debug, Clone)]
pub struct Composition {
    pub canvas: Raster,
    pub outcomes: Vec<SlotOutcome>,
}

/// Relies on fast_image_resize's `Image::from_vec_u8`, `Image::new` and `Resizer::resize`
/// from one RGB8 image to another: on success the destination buffer, created by
/// `Image::new`, holds `width x height` pixels. `from_vec_u8` fails only on a buffer
/// shorter than the source's pixels, and without cropping the crop box is the whole
/// source, which `resize` never rejects.
#[verifier::external_body]
fn resize_rgb(src: Vec<u8>, sw: u32, sh: u32, width: u32, height: u32, cropping: Cropping) -> (r:
    Option<Vec<u8>>)
    ensures
        r matches Some(v) ==> v.len() == 3 * (width as int) * (height as int),
        src.len() >= 3 * (sw as int) * (sh as int) && cropping == Cropping::Whole ==> r is Some,
{
    let from = Image::from_vec_u8(sw, sh, src, PixelType::U8x3).ok()?;
    let mut to = Image::new(width, height, PixelType::U8x3);
    let options = match cropping {
        Cropping::Whole => ResizeOptions::new(),
        Cropping::Centered => ResizeOptions::new().fit_into_destination(None),
    };
    Resizer::new().resize(&from, &mut to, &options).ok()?;
    Some(to.into_vec())
}

/// Where an image of `w x h` is placed in display `b`: its top-left corner, centered
/// on each side where the image is smaller than the display.
pub open spec fn placement_spec(b: Rectangle, w: int, h: int) -> (int, int) {
    let dw = b.width_spec();
    let dh = b.height_spec();
    (
        b.min_x + if w < dw { (dw - w) / 2 } else { 0 },
        b.min_y + if h < dh { (dh - h) / 2 } else { 0 },
    )
}

/// The top-left corner at which an image of `w x h` is placed in display `b`.
pub fn placement(b: Rectangle, w: u32, h: u32) -> (r: (u32, u32))
    requires
        b.wf(),
        b.min_x >= 0,
        b.min_y >= 0,
    ensures
        (r.0 as int, r.1 as int) == placement_spec(b, w as int, h as int),
{
    let (dw, dh) = b.resolution();
    let mut x = b.min_x as u32;
    let mut y = b.min_y as u32;
    if w < dw {
        x = x + (dw - w) / 2;
    }
    if h < dh {
        y = y + (dh - h) / 2;
    }
    (x, y)
}

/// An image of `w x h` placed in display `b` lies wholly in a canvas of `cw x ch`.
pub open spec fn placed_fits(cw: int, ch: int, b: Rectangle, w: int, h: int) -> bool {
    placement_spec(b, w, h).0 + w <= cw && placement_spec(b, w, h).1 + h <= ch
}

/// The outcome of painting an image of `w x h` in display `b`.
pub open spec fn painted_at(b: Rectangle, w: int, h: int) -> SlotOutcome {
    SlotOutcome::Painted {
        x: placement_spec(b, w, h).0 as u32,
        y: placement_spec(b, w, h).1 as u32,
        width: w as u32,
        height: h as u32,
    }
}

/// What painting `img` on display `b` of a `cw x ch` canvas under `mode` may give:
/// no size means the resize failed; a copy fails exactly when the placed image does
/// not fit; and without cropping the resize always succeeds.
pub open spec fn image_outcome_ok(
    img: Raster,
    b: Rectangle,
    mode: ResizeMode,
    cw: int,
    ch: int,
    r: SlotOutcome,
) -> bool {
    match destination_size_spec(mode, img.width as int, img.height as int, b.width_spec(), b.height_spec()) {
        None => r == SlotOutcome::ResizeFailed,
        Some((w, h)) => {
            &&& r is Painted || r is ResizeFailed || r is CopyFailed
            &&& r is Painted ==> r == painted_at(b, w, h) && placed_fits(cw, ch, b, w, h)
            &&& r is CopyFailed ==> !placed_fits(cw, ch, b, w, h)
            &&& mode != ResizeMode::Fill ==> r == if placed_fits(cw, ch, b, w, h) {
                painted_at(b, w, h)
            } else {
                SlotOutcome::CopyFailed
            }
        },
    }
}

/// Paints the row-major RGB `bytes` of a `w x h` image on display `b` of `canvas`,
/// centered where it is smaller than the display.
pub fn paint_resized(canvas: &mut Raster, b: Rectangle, w: u32, h: u32, bytes: &Vec<u8>) -> (r:
    SlotOutcome)
    requires
        old(canvas).wf(),
        b.wf(),
        b.min_x >= 0,
        b.min_y >= 0,
    ensures
        final(canvas).wf(),
        final(canvas).width == old(canvas).width,
        final(canvas).height == old(canvas).height,
        bytes.len() != 3 * (w as int) * (h as int) ==> r == SlotOutcome::ResizeFailed
            && *final(canvas) == *old(canvas),
        bytes.len() == 3 * (w as int) * (h as int) && !placed_fits(
            old(canvas).width as int,
            old(canvas).height as int,
            b,
            w as int,
            h as int,
        ) ==> r == SlotOutcome::CopyFailed && *final(canvas) == *old(canvas),
        bytes.len() == 3 * (w as int) * (h as int) && placed_fits(
            old(canvas).width as int,
            old(canvas).height as int,
            b,
            w as int,
            h as int,
        ) ==> {
            let (x, y) = placement_spec(b, w as int, h as int);
            &&& r == painted_at(b, w as int, h as int)
            &&& forall|px: int, py: int|
                in_size(px, py, old(canvas).width as int, old(canvas).height as int)
                    ==> #[trigger] final(canvas).pixel_spec(px, py) == if in_rect(
                    px,
                    py,
                    x,
                    y,
                    w as int,
                    h as int,
                ) {
                    crate::raster::rgb_at(bytes@, (py - y) * w + (px - x))
                } else {
                    old(canvas).pixel_spec(px, py)
                }
        },
{
    let resized = match Raster::from_rgb_bytes(w, h, bytes) {
        Some(r) => r,
        None => {
            return SlotOutcome::ResizeFailed;
        },
    };
    let (x, y) = placement(b, w, h);
    match canvas.copy_from(&resized, x, y) {
        Ok(()) => SlotOutcome::Painted { x, y, width: w, height: h },
        Err(CopyError::OutOfBounds) => SlotOutcome::CopyFailed,
    }
}

/// The canvas is unchanged apart from its pixels in the `w x h` rectangle at `(x, y)`.
pub open spec fn unchanged_outside(before: Raster, after: Raster, x: int, y: int, w: int, h: int) -> bool {
    &&& after.wf()
    &&& after.width == before.width
    &&& after.height == before.height
    &&& forall|px: int, py: int|
        in_size(px, py, before.width as int, before.height as int) && !in_rect(px, py, x, y, w, h)
            ==> #[trigger] after.pixel_spec(px, py) == before.pixel_spec(px, py)
}

/// Paints `source` on the display with bounds `b` of `canvas`, resizing images under `mode`.
pub fn paint_slot(canvas: &mut Raster, b: Rectangle, source: &WallpaperSource, mode: ResizeMode) -> (r:
    SlotOutcome)
    requires
        old(canvas).wf(),
        source.wf(),
        b.wf(),
        b.min_x >= 0,
        b.min_y >= 0,
    ensures
        final(canvas).wf(),
        final(canvas).width == old(canvas).width,
        final(canvas).height == old(canvas).height,
        match *source {
            WallpaperSource::Undecodable => r == SlotOutcome::DecodeFailed && *final(canvas)
                == *old(canvas),
            WallpaperSource::Color(c) => if c == BLACK {
                r == SlotOutcome::Skipped && *final(canvas) == *old(canvas)
            } else {
                &&& r == SlotOutcome::Filled
                &&& forall|px: int, py: int|
                    in_size(px, py, old(canvas).width as int, old(canvas).height as int)
                        ==> #[trigger] final(canvas).pixel_spec(px, py) == if in_rect(
                        px,
                        py,
                        b.min_x as int,
                        b.min_y as int,
                        b.width_spec(),
                        b.height_spec(),
                    ) {
                        c
                    } else {
                        old(canvas).pixel_spec(px, py)
                    }
            },
            WallpaperSource::Image(img) => image_outcome_ok(
                img,
                b,
                mode,
                old(canvas).width as int,
                old(canvas).height as int,
                r,
            ) && match r {
                SlotOutcome::Painted { x, y, width, height } => {
                    &&& unchanged_outside(
                        *old(canvas),
                        *final(canvas),
                        x as int,
                        y as int,
                        width as int,
                        height as int,
                    )
                },
                SlotOutcome::ResizeFailed | SlotOutcome::CopyFailed => *final(canvas)
                    == *old(canvas),
                _ => false,
            },
        },
{
    let (dw, dh) = b.resolution();
    match source {
        WallpaperSource::Undecodable => SlotOutcome::DecodeFailed,
        WallpaperSource::Color(c) => {
            if c.0 == 0 && c.1 == 0 && c.2 == 0 {
                SlotOutcome::Skipped
            } else {
                canvas.fill_rect(b.min_x, b.min_y, dw, dh, *c);
                SlotOutcome::Filled
            }
        },
        WallpaperSource::Image(img) => {
            let (w, h) = match destination_size(mode, img.width, img.height, dw, dh) {
                Some(s) => s,
                None => {
                    return SlotOutcome::ResizeFailed;
                },
            };
            let resized = match resize_rgb(img.to_rgb_bytes(), img.width, img.height, w, h, cropping_for(mode)) {
                Some(v) => v,
                None => {
                    return SlotOutcome::ResizeFailed;
                },
            };
            paint_resized(canvas, b, w, h, &resized)
        },
    }
}

/// The displays' bounds are ordered, and the configuration can be moved to the origin.
pub open spec fn layout_ok(c: &DisplayConfiguration) -> bool {
    &&& c.wf()
    &&& c.can_normalize()
    &&& forall|i: int| 0 <= i < c.displays.len() ==> (#[trigger] c.displays[i].bounds).wf()
}

/// What a slot's outcome is, as far as its source alone decides it.
pub open spec fn outcome_matches(
    source: WallpaperSource,
    b: Rectangle,
    mode: ResizeMode,
    cw: int,
    ch: int,
    outcome: SlotOutcome,
) -> bool {
    match source {
        WallpaperSource::Undecodable => outcome == SlotOutcome::DecodeFailed,
        WallpaperSource::Color(c) => outcome == if c == BLACK {
            SlotOutcome::Skipped
        } else {
            SlotOutcome::Filled
        },
        WallpaperSource::Image(img) => image_outcome_ok(img, b, mode, cw, ch, outcome),
    }
}

/// Whether the slot painted on display `b` with `outcome` wrote the pixel `(px, py)`.
pub open spec fn slot_covers(b: Rectangle, outcome: SlotOutcome, px: int, py: int) -> bool {
    match outcome {
        SlotOutcome::Painted { x, y, width, height } => in_rect(
            px,
            py,
            x as int,
            y as int,
            width as int,
            height as int,
        ),
        SlotOutcome::Filled => in_rect(
            px,
            py,
            b.min_x as int,
            b.min_y as int,
            b.width_spec(),
            b.height_spec(),
        ),
        _ => false,
    }
}

/// No slot from `from` up to `to` wrote the pixel `(px, py)`.
pub open spec fn uncovered(
    ds: Seq<(Seq<char>, Rectangle)>,
    outcomes: Seq<SlotOutcome>,
    from: int,
    to: int,
    px: int,
    py: int,
) -> bool {
    forall|m: int| from <= m < to ==> !slot_covers(ds[m].1, #[trigger] outcomes[m], px, py)
}

/// The color a source fills with.
pub open spec fn fill_color(source: WallpaperSource) -> Rgb {
    match source {
        WallpaperSource::Color(c) => c,
        _ => BLACK,
    }
}

/// After normalization each display is well-formed and lies right of and below the origin.
proof fn lemma_normalized_display(c: &DisplayConfiguration, i: int)
    requires
        layout_ok(c),
        0 <= i < c.displays.len(),
    ensures
        normalized_config(c@).1[i].1.wf(),
        normalized_config(c@).1[i].1.min_x >= 0,
        normalized_config(c@).1[i].1.min_y >= 0,
        normalized_config(c@).1[i].1.width_spec() == c.displays[i].bounds.width_spec(),
        normalized_config(c@).1[i].1.height_spec() == c.displays[i].bounds.height_spec(),
{
    let rs = bounds_of(c@.1);
    assert(c@.1[i] == c.displays[i]@);
    assert(rs[i] == c.displays[i].bounds);
    lemma_union_contains(rs, i);
    assert(c@.1[i].1.can_move_by(-c.bounds.min_x, -c.bounds.min_y));
}

/// The union of well-formed bounds is well-formed.
proof fn lemma_bounds_wf(c: &DisplayConfiguration)
    requires
        layout_ok(c),
    ensures
        c.bounds.wf(),
{
    let rs = bounds_of(c@.1);
    assert(c@.1[0] == c.displays[0]@);
    assert(rs[0] == c.displays[0].bounds);
    assert(c.displays[0].bounds.wf());
    lemma_union_contains(rs, 0);
}

/// Composes the wallpaper: a black canvas the size of the normalized configuration, on
/// which each source is painted on the display at the same position, in order.
pub fn compose(config: &DisplayConfiguration, sources: &Vec<WallpaperSource>, mode: ResizeMode) -> (r:
    Result<Composition, CountMismatch>)
    requires
        layout_ok(config),
        forall|i: int| 0 <= i < sources.len() ==> (#[trigger] sources[i]).wf(),
    ensures
        r is Err <==> sources.len() != config.displays.len(),
        r matches Err(e) ==> e.displays == config.displays.len() && e.sources == sources.len(),
        r matches Ok(c) ==> {
            &&& c.canvas.wf()
            &&& c.canvas.width == normalized_config(config@).0.width_spec()
            &&& c.canvas.height == normalized_config(config@).0.height_spec()
            &&& c.outcomes.len() == sources.len()
            &&& forall|i: int|
                0 <= i < sources.len() ==> outcome_matches(
                    #[trigger] sources[i],
                    normalized_config(config@).1[i].1,
                    mode,
                    c.canvas.width as int,
                    c.canvas.height as int,
                    c.outcomes[i],
                )
            &&& forall|px: int, py: int|
                in_size(px, py, c.canvas.width as int, c.canvas.height as int) && uncovered(
                    normalized_config(config@).1,
                    c.outcomes@,
                    0,
                    sources.len() as int,
                    px,
                    py,
                ) ==> #[trigger] c.canvas.pixel_spec(px, py) == BLACK
            &&& forall|k: int, px: int, py: int|
                0 <= k < sources.len() && in_size(px, py, c.canvas.width as int, c.canvas.height as int)
                    && c.outcomes[k] == SlotOutcome::Filled && slot_covers(
                    normalized_config(config@).1[k].1,
                    c.outcomes[k],
                    px,
                    py,
                ) && uncovered(
                    normalized_config(config@).1,
                    c.outcomes@,
                    k + 1,
                    sources.len() as int,
                    px,
                    py,
                ) ==> #[trigger] c.canvas.pixel_spec(px, py) == fill_color(#[trigger] sources[k])
        },
{
    if sources.len() != config.displays.len() {
        return Err(CountMismatch { displays: config.displays.len(), sources: sources.len() });
    }
    proof {
        lemma_bounds_wf(config);
    }
    let normalized = config.normalized();
    let (w, h) = normalized.bounds.resolution();
    let mut canvas = Raster::new(w, h);
    let mut outcomes: Vec<SlotOutcome> = Vec::new();
    assert(normalized@.1.len() == normalized.displays@.len());
    assert(normalized_config(config@).1.len() == config@.1.len());
    let mut i: usize = 0;
    while i < sources.len()
        invariant
            layout_ok(config),
            forall|k: int| 0 <= k < sources.len() ==> (#[trigger] sources[k]).wf(),
            sources.len() == config.displays.len(),
            normalized@ == normalized_config(config@),
            normalized.displays.len() == config.displays.len(),
            canvas.wf(),
            canvas.width == w,
            canvas.height == h,
            w == normalized_config(config@).0.width_spec(),
            h == normalized_config(config@).0.height_spec(),
            0 <= i <= sources.len(),
            outcomes.len() == i,
            forall|k: int|
                0 <= k < i ==> outcome_matches(
                    #[trigger] sources[k],
                    normalized_config(config@).1[k].1,
                    mode,
                    w as int,
                    h as int,
                    outcomes[k],
                ),
            forall|px: int, py: int|
                in_size(px, py, w as int, h as int) && uncovered(
                    normalized_config(config@).1,
                    outcomes@,
                    0,
                    i as int,
                    px,
                    py,
                ) ==> #[trigger] canvas.pixel_spec(px, py) == BLACK,
            forall|k: int, px: int, py: int|
                0 <= k < i && in_size(px, py, w as int, h as int) && outcomes[k] == SlotOutcome::Filled
                    && slot_covers(normalized_config(config@).1[k].1, outcomes[k], px, py) && uncovered(
                    normalized_config(config@).1,
                    outcomes@,
                    k + 1,
                    i as int,
                    px,
                    py,
                ) ==> #[trigger] canvas.pixel_spec(px, py) == fill_color(#[trigger] sources[k]),
        decreases sources.len() - i,
    {
        proof {
            lemma_normalized_display(config, i as int);
            assert(normalized@.1[i as int] == normalized.displays[i as int]@);
        }
        let b = normalized.displays[i].bounds;
        let ghost before = canvas;
        let ghost prev = outcomes@;
        let outcome = paint_slot(&mut canvas, b, &sources[i], mode);
        outcomes.push(outcome);
        proof {
            let ds = normalized_config(config@).1;
            assert(ds[i as int].1 == b);
            assert forall|px: int, py: int|
                in_size(px, py, w as int, h as int) && !slot_covers(b, outcome, px, py) implies
                #[trigger] canvas.pixel_spec(px, py) == before.pixel_spec(px, py) by {}
            assert forall|px: int, py: int|
                in_size(px, py, w as int, h as int) && uncovered(ds, outcomes@, 0, i + 1, px, py)
                implies #[trigger] canvas.pixel_spec(px, py) == BLACK by {
                assert(outcomes@[i as int] == outcome);
                assert(!slot_covers(b, outcome, px, py));
                assert forall|m: int| 0 <= m < i implies !slot_covers(ds[m].1, #[trigger] prev[m], px, py) by {
                    assert(outcomes@[m] == prev[m]);
                }
                assert(uncovered(ds, prev, 0, i as int, px, py));
            }
            assert forall|k: int, px: int, py: int|
                0 <= k < i + 1 && in_size(px, py, w as int, h as int) && outcomes[k] == SlotOutcome::Filled
                    && slot_covers(ds[k].1, outcomes[k], px, py) && uncovered(ds, outcomes@, k + 1, i + 1, px, py)
                implies #[trigger] canvas.pixel_spec(px, py) == fill_color(#[trigger] sources[k]) by {
                if k == i {
                    assert(outcome == SlotOutcome::Filled);
                } else {
                    assert(outcomes@[i as int] == outcome);
                    assert(!slot_covers(b, outcome, px, py));
                    assert(prev[k] == outcomes@[k]);
                    assert forall|m: int| k + 1 <= m < i implies !slot_covers(ds[m].1, #[trigger] prev[m], px, py) by {
                        assert(outcomes@[m] == prev[m]);
                    }
                    assert(uncovered(ds, prev, k + 1, i as int, px, py));
                }
            }
        }
        i = i + 1;
    }
    Ok(Composition { canvas, outcomes })
}

} // verus!
