use vstd::prelude::*;
use vstd::arithmetic::div_mod::{lemma_fundamental_div_mod, lemma_mod_pos_bound};

verus! {

/// How a source image is fitted into a display.
#[derive(Debug, Clone, Copy, PartialEq, Eq, Structural)]
pub enum ResizeMode {
    /// Fills the whole display; the aspect ratio is not kept.
    Stretch,
    /// Fills the whole display with the aspect ratio kept; the source is cropped around its center.
    Fill,
    /// Shows the whole source inside the display with the aspect ratio kept.
    Fit,
}

/// What part of the source is resized into the destination.
#[derive(Debug, Clone, Copy, PartialEq, Eq, Structural)]
pub enum Cropping {
    /// The whole source.
    Whole,
    /// The centered part of the source with the destination's aspect ratio.
    Centered,
}

/// The inverse of the tolerance under which two ratios count as equal in Fit mode
/// (the tolerance is one unit in the last place of `1.0` in single precision).
pub const RATIO_TOLERANCE_INV: u64 = 8388608;

/// `sw / dw` exceeds `sh / dh` by more than the tolerance: the width is the binding side.
pub open spec fn width_binds(sw: int, sh: int, dw: int, dh: int) -> bool {
    RATIO_TOLERANCE_INV * (sw * dh - sh * dw) > dw * dh
}

/// `n / d` rounded to the nearest integer, halves away from zero.
pub open spec fn round_div(n: int, d: int) -> int {
    (2 * n + d) / (2 * d)
}

/// The largest size with the source's aspect ratio that fits the destination,
/// each side rounded to whole pixels. The ratios are compared and divided exactly, in
/// rational arithmetic, and halves round up; single-precision arithmetic rounds its
/// intermediate values, so on very large sizes it may land one pixel or one branch apart.
pub open spec fn fit_size_spec(sw: int, sh: int, dw: int, dh: int) -> (int, int) {
    if width_binds(sw, sh, dw, dh) {
        (dw, round_div(sh * dw, sw))
    } else {
        (round_div(sw * dh, sh), dh)
    }
}

/// Every size is positive and the Fit size of them fits in `u32`.
pub open spec fn fit_defined(sw: int, sh: int, dw: int, dh: int) -> bool {
    &&& sw > 0 && sh > 0 && dw > 0 && dh > 0
    &&& fit_size_spec(sw, sh, dw, dh).0 <= u32::MAX
    &&& fit_size_spec(sw, sh, dw, dh).1 <= u32::MAX
}

/// The size a source of `sw x sh` is resized to for a display of `dw x dh`,
/// or `None` where Fit mode has no size to give.
pub open spec fn destination_size_spec(
    mode: ResizeMode,
    sw: int,
    sh: int,
    dw: int,
    dh: int,
) -> Option<(int, int)> {
    match mode {
        ResizeMode::Stretch | ResizeMode::Fill => Some((dw, dh)),
        ResizeMode::Fit => if fit_defined(sw, sh, dw, dh) {
            Some(fit_size_spec(sw, sh, dw, dh))
        } else {
            None
        },
    }
}

/// The two bounds of a rounded quotient.
pub proof fn lemma_round_div_bounds(n: int, d: int)
    requires
        n >= 0,
        d > 0,
    ensures
        2 * d * round_div(n, d) <= 2 * n + d,
        2 * n + d < 2 * d * round_div(n, d) + 2 * d,
        round_div(n, d) >= 0,
{
    lemma_fundamental_div_mod(2 * n + d, 2 * d);
    lemma_mod_pos_bound(2 * n + d, 2 * d);
    assert(round_div(n, d) >= 0) by (nonlinear_arith)
        requires
            2 * n + d == (2 * d) * round_div(n, d) + (2 * n + d) % (2 * d),
            0 <= (2 * n + d) % (2 * d) < 2 * d,
            n >= 0,
            d > 0,
    ;
}

fn round_div_u128(n: u128, d: u128) -> (r: u128)
    requires
        d > 0,
        n <= u64::MAX,
        d <= u64::MAX,
    ensures
        r == round_div(n as int, d as int),
{
    (2 * n + d) / (2 * d)
}

/// The Fit-mode size for a source of `sw x sh` and a display of `dw x dh`.
pub fn fit_size(sw: u32, sh: u32, dw: u32, dh: u32) -> (r: Option<(u32, u32)>)
    ensures
        r is Some <==> fit_defined(sw as int, sh as int, dw as int, dh as int),
        r matches Some(s) ==> (s.0 as int, s.1 as int) == fit_size_spec(
            sw as int,
            sh as int,
            dw as int,
            dh as int,
        ),
{
    if sw == 0 || sh == 0 || dw == 0 || dh == 0 {
        return None;
    }
    let (sw, sh, dw, dh) = (sw as u128, sh as u128, dw as u128, dh as u128);
    assert(sw * dh <= u64::MAX && sh * dw <= u64::MAX && dw * dh <= u64::MAX) by (nonlinear_arith)
        requires
            sw <= u32::MAX,
            sh <= u32::MAX,
            dw <= u32::MAX,
            dh <= u32::MAX,
    ;
    let wide = sw * dh;
    let tall = sh * dw;
    let binds = wide > tall && (RATIO_TOLERANCE_INV as u128) * (wide - tall) > dw * dh;
    let (ow, oh) = if binds {
        (dw, round_div_u128(tall, sw))
    } else {
        (round_div_u128(wide, sh), dh)
    };
    if ow > u32::MAX as u128 || oh > u32::MAX as u128 {
        return None;
    }
    Some((ow as u32, oh as u32))
}

/// The size a source of `sw x sh` is resized to for a display of `dw x dh` under `mode`.
pub fn destination_size(mode: ResizeMode, sw: u32, sh: u32, dw: u32, dh: u32) -> (r: Option<
    (u32, u32),
>)
    ensures
        r matches Some(s) ==> destination_size_spec(
            mode,
            sw as int,
            sh as int,
            dw as int,
            dh as int,
        ) == Some((s.0 as int, s.1 as int)),
        r is None ==> destination_size_spec(mode, sw as int, sh as int, dw as int, dh as int)
            is None,
{
    match mode {
        ResizeMode::Stretch | ResizeMode::Fill => Some((dw, dh)),
        ResizeMode::Fit => fit_size(sw, sh, dw, dh),
    }
}

/// The cropping that goes with `mode`.
pub fn cropping_for(mode: ResizeMode) -> (r: Cropping)
    ensures
        r == (if mode == ResizeMode::Fill {
            Cropping::Centered
        } else {
            Cropping::Whole
        }),
{
    match mode {
        ResizeMode::Fill => Cropping::Centered,
        _ => Cropping::Whole,
    }
}

} // verus!

verus! {

/// In Stretch mode the destination is the display's size, whatever the source's size.
pub proof fn lemma_stretch_is_display_size(sw: u32, sh: u32, dw: u32, dh: u32)
    ensures
        destination_size_spec(ResizeMode::Stretch, sw as int, sh as int, dw as int, dh as int)
            == Some((dw as int, dh as int)),
{
}

/// In Fit mode the destination never exceeds the display on either side, and one side
/// is within half a pixel of the size that keeps the source's aspect ratio exactly.
/// Where the height binds, the width can round up past the display only when the
/// display's area reaches half the ratio tolerance's inverse times the source's height;
/// such inputs are left out.
pub proof fn lemma_fit_within_display(sw: u32, sh: u32, dw: u32, dh: u32)
    requires
        fit_defined(sw as int, sh as int, dw as int, dh as int),
        2 * (dw as int) * (dh as int) < RATIO_TOLERANCE_INV * (sh as int),
    ensures
        ({
            let (ow, oh) = fit_size_spec(sw as int, sh as int, dw as int, dh as int);
            &&& 0 <= ow <= dw
            &&& 0 <= oh <= dh
            &&& {
                ||| (ow == dw && -(sw as int) <= 2 * oh * sw - 2 * sh * ow <= sw)
                ||| (oh == dh && -(sh as int) <= 2 * ow * sh - 2 * sw * oh <= sh)
            }
        }),
{
    let (sw, sh, dw, dh) = (sw as int, sh as int, dw as int, dh as int);
    let t = RATIO_TOLERANCE_INV as int;
    if width_binds(sw, sh, dw, dh) {
        let oh = round_div(sh * dw, sw);
        assert(sh * dw >= 0) by (nonlinear_arith)
            requires
                sh > 0,
                dw > 0,
        ;
        lemma_round_div_bounds(sh * dw, sw);
        assert(sw * dh > sh * dw) by (nonlinear_arith)
            requires
                t * (sw * dh - sh * dw) > dw * dh,
                dw > 0,
                dh > 0,
                t > 0,
        ;
        assert(-sw <= 2 * oh * sw - 2 * sh * dw <= sw) by (nonlinear_arith)
            requires
                2 * sw * oh <= 2 * (sh * dw) + sw,
                2 * (sh * dw) + sw < 2 * sw * oh + 2 * sw,
        ;
        assert(oh <= dh) by (nonlinear_arith)
            requires
                2 * sw * oh <= 2 * (sh * dw) + sw,
                sw * dh > sh * dw,
                sw > 0,
        ;
    } else {
        let ow = round_div(sw * dh, sh);
        assert(sw * dh >= 0) by (nonlinear_arith)
            requires
                sw > 0,
                dh > 0,
        ;
        lemma_round_div_bounds(sw * dh, sh);
        assert(2 * (sw * dh - sh * dw) < sh) by (nonlinear_arith)
            requires
                t * (sw * dh - sh * dw) <= dw * dh,
                2 * dw * dh < t * sh,
                t > 0,
        ;
        assert(-sh <= 2 * ow * sh - 2 * sw * dh <= sh) by (nonlinear_arith)
            requires
                2 * sh * ow <= 2 * (sw * dh) + sh,
                2 * (sw * dh) + sh < 2 * sh * ow + 2 * sh,
        ;
        assert(ow <= dw) by (nonlinear_arith)
            requires
                2 * sh * ow <= 2 * (sw * dh) + sh,
                2 * (sw * dh - sh * dw) < sh,
                sh > 0,
        ;
    }
}

} // verus!
