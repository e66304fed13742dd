//! The window's pure parts: where the frame goes in a 4:3 letterboxed area with integer scaling,
//! the nearest-neighbour copy into the surface, and the host keys held down with the matrix keys
//! they press. Opening the window, the event loop and the timers stay with the caller.

use vstd::prelude::*;

verus! {

/// The 4:3 display area of a `win_w`×`win_h` surface, as (width, height): the full height if the
/// surface is at least 4:3 wide, else the full width.
pub open spec fn display_area(win_w: u32, win_h: u32) -> (int, int) {
    let (ww, wh) = (win_w as int, win_h as int);
    if ww * 3 >= wh * 4 {
        (wh * 4 / 3, wh)
    } else {
        (ww, ww * 3 / 4)
    }
}

/// The smaller of two integers.
pub open spec fn min_int(a: int, b: int) -> int {
    if a <= b {
        a
    } else {
        b
    }
}

/// A frame dimension, taken as at least 1.
pub open spec fn at_least_one(n: u32) -> int {
    if n == 0 {
        1
    } else {
        n as int
    }
}

/// Where an `img_w`×`img_h` frame goes in a `win_w`×`win_h` surface, as (x, y, w, h): the largest
/// integer scale that fits the centred 4:3 display area, centred. A frame larger than that area
/// is shrunk to fit with its aspect ratio kept (rounded down).
pub open spec fn spec_place(win_w: u32, win_h: u32, img_w: u32, img_h: u32) -> (int, int, int, int) {
    let (ww, wh) = (win_w as int, win_h as int);
    let (iw, ih) = (at_least_one(img_w), at_least_one(img_h));
    let (aw, ah) = display_area(win_w, win_h);
    let scale = min_int(aw / iw, ah / ih);
    let (w, h) = if scale >= 1 {
        (iw * scale, ih * scale)
    } else if iw * ah >= ih * aw {
        (aw, ih * aw / iw)
    } else {
        (iw * ah / ih, ah)
    };
    ((ww - w) / 2, (wh - h) / 2, w, h)
}

/// The placed frame lies inside the 4:3 display area, which lies inside the surface, and it is
/// centred (up to rounding down).
pub proof fn law_place_inside_surface(win_w: u32, win_h: u32, img_w: u32, img_h: u32)
    ensures
        ({
            let (x, y, w, h) = spec_place(win_w, win_h, img_w, img_h);
            let (aw, ah) = display_area(win_w, win_h);
            &&& 0 <= aw <= win_w
            &&& 0 <= ah <= win_h
            &&& 0 <= w <= aw
            &&& 0 <= h <= ah
            &&& 0 <= x
            &&& 0 <= y
            &&& x + w <= win_w
            &&& y + h <= win_h
        }),
{
    let (ww, wh) = (win_w as int, win_h as int);
    let (iw, ih) = (at_least_one(img_w), at_least_one(img_h));
    let (aw, ah) = display_area(win_w, win_h);
    if ww * 3 >= wh * 4 {
        assert(wh * 4 / 3 <= ww) by (nonlinear_arith)
            requires
                ww * 3 >= wh * 4,
                wh >= 0,
        ;
        assert(wh * 4 / 3 >= 0) by (nonlinear_arith)
            requires
                wh >= 0,
        ;
    } else {
        assert(ww * 3 / 4 <= wh) by (nonlinear_arith)
            requires
                ww * 3 < wh * 4,
                ww >= 0,
        ;
        assert(ww * 3 / 4 >= 0) by (nonlinear_arith)
            requires
                ww >= 0,
        ;
    }
    let scale = min_int(aw / iw, ah / ih);
    assert(aw / iw >= 0 && ah / ih >= 0) by (nonlinear_arith)
        requires
            aw >= 0,
            ah >= 0,
            iw >= 1,
            ih >= 1,
    ;
    if scale >= 1 {
        assert(iw * scale <= aw && ih * scale <= ah) by (nonlinear_arith)
            requires
                scale <= aw / iw,
                scale <= ah / ih,
                iw >= 1,
                ih >= 1,
                aw >= 0,
                ah >= 0,
        ;
        assert(iw * scale >= 0 && ih * scale >= 0) by (nonlinear_arith)
            requires
                scale >= 1,
                iw >= 1,
                ih >= 1,
        ;
    } else if iw * ah >= ih * aw {
        assert(ih * aw / iw <= ah && ih * aw / iw >= 0) by (nonlinear_arith)
            requires
                iw * ah >= ih * aw,
                iw >= 1,
                ih >= 1,
                aw >= 0,
                ah >= 0,
        ;
    } else {
        assert(iw * ah / ih <= aw && iw * ah / ih >= 0) by (nonlinear_arith)
            requires
                iw * ah < ih * aw,
                iw >= 1,
                ih >= 1,
                aw >= 0,
                ah >= 0,
        ;
    }
}

/// Where an `img_w`×`img_h` frame goes in a `win_w`×`win_h` surface, as (x, y, w, h): the largest
/// integer scale that fits the centred 4:3 display area, centred. A frame larger than that area is
/// shrunk to fit with its aspect ratio kept.
pub fn place(win_w: u32, win_h: u32, img_w: u32, img_h: u32) -> (r: (u32, u32, u32, u32))
    ensures
        (r.0 as int, r.1 as int, r.2 as int, r.3 as int) == spec_place(win_w, win_h, img_w, img_h),
{
    proof {
        law_place_inside_surface(win_w, win_h, img_w, img_h);
    }
    let ww = win_w as u64;
    let wh = win_h as u64;
    let iw: u64 = if img_w == 0 { 1 } else { img_w as u64 };
    let ih: u64 = if img_h == 0 { 1 } else { img_h as u64 };
    let (aw, ah) = if ww * 3 >= wh * 4 {
        (wh * 4 / 3, wh)
    } else {
        (ww, ww * 3 / 4)
    };
    let scale = if aw / iw <= ah / ih { aw / iw } else { ah / ih };
    assert(aw <= 0xffff_ffff && ah <= 0xffff_ffff);
    assert(iw * ah <= 0xffff_ffff * 0xffff_ffff && ih * aw <= 0xffff_ffff * 0xffff_ffff)
        by (nonlinear_arith)
        requires
            1 <= iw <= 0xffff_ffff,
            1 <= ih <= 0xffff_ffff,
            aw <= 0xffff_ffff,
            ah <= 0xffff_ffff,
    ;
    let (w, h) = if scale >= 1 {
        assert(iw * scale <= aw && ih * scale <= ah) by (nonlinear_arith)
            requires
                scale <= aw / iw,
                scale <= ah / ih,
                iw >= 1,
                ih >= 1,
        ;
        (iw * scale, ih * scale)
    } else if iw * ah >= ih * aw {
        (aw, ih * aw / iw)
    } else {
        (iw * ah / ih, ah)
    };
    (((ww - w) / 2) as u32, ((wh - h) / 2) as u32, w as u32, h as u32)
}


/// A blit has a frame to copy: a non-empty source holding `sw`×`sh` pixels into a surface holding
/// `dw`×`dh`.
pub open spec fn blit_valid(src_len: int, sw: int, sh: int, dst_len: int, dw: int, dh: int) -> bool {
    sw != 0 && sh != 0 && src_len >= sw * sh && dst_len >= dw * dh
}

/// The placement a blit uses, in surface pixels (the sizes taken as `u32`, as `place` takes them).
pub open spec fn blit_place(sw: usize, sh: usize, dw: usize, dh: usize) -> (int, int, int, int) {
    spec_place(dw as u32, dh as u32, sw as u32, sh as u32)
}

/// The sizes for which the blit's index arithmetic stays within `usize` (else it overflows): the
/// source and surface areas, and the products `x * sw` and `y * sh` for the last placed column
/// and row.
pub open spec fn blit_fits(src_len: usize, sw: usize, sh: usize, dst_len: usize, dw: usize, dh: usize) -> bool {
    (sw != 0 && sh != 0) ==> {
        &&& sw * sh <= usize::MAX
        &&& src_len >= sw * sh ==> {
            &&& dw * dh <= usize::MAX
            &&& dst_len >= dw * dh ==> {
                let (x0, y0, w, h) = blit_place(sw, sh, dw, dh);
                &&& w > 0 ==> (w - 1) * sw <= usize::MAX
                &&& h > 0 ==> (h - 1) * sh <= usize::MAX
            }
        }
    }
}

/// Pixel `i` of the surface after a blit: inside the placed rectangle the nearest source pixel,
/// black everywhere else.
pub open spec fn blit_pixel(src: Seq<u32>, sw: usize, sh: usize, dw: usize, dh: usize, dst_len: int, i: int) -> u32 {
    if !blit_valid(src.len() as int, sw as int, sh as int, dst_len, dw as int, dh as int) {
        0
    } else {
        let (x0, y0, w, h) = blit_place(sw, sh, dw, dh);
        if 0 <= i < dw * dh && y0 <= i / (dw as int) < y0 + h && x0 <= i % (dw as int) < x0 + w {
            let y = i / (dw as int) - y0;
            let x = i % (dw as int) - x0;
            src[(y * sh / h) * sw + x * sw / w]
        } else {
            0
        }
    }
}

proof fn lemma_scaled_index(x: int, w: int, sw: int)
    requires
        0 <= x < w,
        sw >= 1,
    ensures
        0 <= x * sw / w < sw,
{
    assert(0 <= x * sw / w < sw) by (nonlinear_arith)
        requires
            0 <= x < w,
            sw >= 1,
    ;
}

proof fn lemma_row_index(row: int, sw: int, sh: int, sx: int)
    requires
        0 <= row < sh,
        0 <= sx < sw,
    ensures
        0 <= row * sw + sx < sw * sh,
{
    assert(0 <= row * sw + sx < sw * sh) by (nonlinear_arith)
        requires
            0 <= row < sh,
            0 <= sx < sw,
    ;
}

proof fn lemma_pixel_position(p: int, r: int, c: int, dw: int, dh: int)
    requires
        0 <= r < dh,
        0 <= c < dw,
        p == r * dw + c,
    ensures
        p / dw == r,
        p % dw == c,
        0 <= p < dw * dh,
{
    vstd::arithmetic::div_mod::lemma_fundamental_div_mod_converse(p, dw, r, c);
    assert(0 <= p < dw * dh) by (nonlinear_arith)
        requires
            0 <= r < dh,
            0 <= c < dw,
            p == r * dw + c,
    ;
}

proof fn lemma_floor_band(n: int, d: int, q: int)
    requires
        d > 0,
        q * d <= n < (q + 1) * d,
    ensures
        n / d == q,
{
    assert(n - q * d < d) by (nonlinear_arith)
        requires
            n < (q + 1) * d,
    ;
    vstd::arithmetic::div_mod::lemma_fundamental_div_mod_converse(n, d, q, n - q * d);
}

/// Nearest-neighbour scaling, row by row and column by column: inside the placed rectangle, the
/// surface pixel `y` rows and `x` columns from the rectangle's corner shows the source pixel in
/// row `r` and column `c` whose bands hold it, `r * h <= y * sh < (r + 1) * h` and
/// `c * w <= x * sw < (c + 1) * w`. So each source row is stretched over consecutive surface
/// rows, in order (never repeated further down), and each column likewise.
pub proof fn law_blit_stretches_rows_and_columns(
    src: Seq<u32>,
    sw: usize,
    sh: usize,
    dw: usize,
    dh: usize,
    dst_len: int,
    i: int,
    r: int,
    c: int,
)
    requires
        blit_valid(src.len() as int, sw as int, sh as int, dst_len, dw as int, dh as int),
        0 <= i < dw * dh,
        ({
            let (x0, y0, w, h) = blit_place(sw, sh, dw, dh);
            let (y, x) = (i / (dw as int) - y0, i % (dw as int) - x0);
            &&& 0 <= y < h
            &&& 0 <= x < w
            &&& r * h <= y * sh < (r + 1) * h
            &&& c * w <= x * sw < (c + 1) * w
        }),
    ensures
        0 <= r < sh,
        0 <= c < sw,
        blit_pixel(src, sw, sh, dw, dh, dst_len, i) == src[r * sw + c],
{
    let (x0, y0, w, h) = blit_place(sw, sh, dw, dh);
    let (y, x) = (i / (dw as int) - y0, i % (dw as int) - x0);
    lemma_floor_band(y * sh, h, r);
    lemma_floor_band(x * sw, w, c);
    lemma_scaled_index(y, h, sh as int);
    lemma_scaled_index(x, w, sw as int);
}

/// Outside the placed rectangle, and everywhere when there is no frame to copy, the surface is
/// black.
pub proof fn law_blit_black_outside(
    src: Seq<u32>,
    sw: usize,
    sh: usize,
    dw: usize,
    dh: usize,
    dst_len: int,
    i: int,
)
    requires
        !blit_valid(src.len() as int, sw as int, sh as int, dst_len, dw as int, dh as int) || ({
            let (x0, y0, w, h) = blit_place(sw, sh, dw, dh);
            !(0 <= i < dw * dh && y0 <= i / (dw as int) < y0 + h && x0 <= i % (dw as int) < x0 + w)
        }),
    ensures
        blit_pixel(src, sw, sh, dw, dh, dst_len, i) == 0,
{
}

/// Nearest-neighbour copy of `src` (`sw`×`sh`) into `dst` (`dw`×`dh`) at [`place`], black
/// elsewhere; all black when there is no frame or either buffer is too short.
pub fn blit(src: &[u32], sw: usize, sh: usize, dst: &mut [u32], dw: usize, dh: usize)
    requires
        blit_fits(src@.len() as usize, sw, sh, old(dst)@.len() as usize, dw, dh),
    ensures
        final(dst)@.len() == old(dst)@.len(),
        forall|i: int|
            0 <= i < final(dst)@.len() ==> #[trigger] final(dst)@[i] == blit_pixel(
                src@,
                sw,
                sh,
                dw,
                dh,
                old(dst)@.len() as int,
                i,
            ),
{
    let len = dst.len();
    let mut k: usize = 0;
    while k < len
        invariant
            k <= len == dst@.len(),
            forall|i: int| 0 <= i < k ==> dst@[i] == 0,
        decreases len - k,
    {
        dst[k] = 0;
        k = k + 1;
    }
    if sw == 0 || sh == 0 || src.len() < sw * sh || dst.len() < dw * dh {
        return;
    }
    let (x0, y0, w, h) = place(dw as u32, dh as u32, sw as u32, sh as u32);
    proof {
        law_place_inside_surface(dw as u32, dh as u32, sw as u32, sh as u32);
    }
    let (x0, y0, w, h) = (x0 as usize, y0 as usize, w as usize, h as usize);
    assert(x0 + w <= dw && y0 + h <= dh) by {
        assert((dw as u32) as int <= dw);
        assert((dh as u32) as int <= dh);
    }
    let mut xs: Vec<usize> = Vec::new();
    let mut x: usize = 0;
    while x < w
        invariant
            x <= w,
            w > 0 ==> (w - 1) * sw <= usize::MAX,
            sw >= 1,
            xs@.len() == x,
            forall|j: int| 0 <= j < x ==> #[trigger] xs@[j] == j * sw / (w as int),
        decreases w - x,
    {
        assert(x * sw <= (w - 1) * sw) by (nonlinear_arith)
            requires
                x < w,
                sw >= 1,
        ;
        xs.push(x * sw / w);
        x = x + 1;
    }
    let ghost len0 = len as int;
    let mut y: usize = 0;
    while y < h
        invariant
            y <= h,
            dst@.len() == len0,
            len0 <= usize::MAX,
            sw * sh <= usize::MAX,
            len0 >= dw * dh,
            src@.len() >= sw * sh,
            sw >= 1,
            sh >= 1,
            h > 0 ==> (h - 1) * sh <= usize::MAX,
            x0 + w <= dw,
            y0 + h <= dh,
            (x0 as int, y0 as int, w as int, h as int) == blit_place(sw, sh, dw, dh),
            xs@.len() == w,
            forall|j: int| 0 <= j < w ==> #[trigger] xs@[j] == j * sw / (w as int),
            forall|i: int|
                0 <= i < len0 ==> #[trigger] dst@[i] == (if 0 <= i < dw * dh && y0 <= i / (dw as int)
                    < y0 + y && x0 <= i % (dw as int) < x0 + w {
                    blit_pixel(src@, sw, sh, dw, dh, len0, i)
                } else {
                    0
                }),
        decreases h - y,
    {
        assert(y * sh <= (h - 1) * sh) by (nonlinear_arith)
            requires
                y < h,
                sh >= 1,
        ;
        let row = y * sh / h;
        proof {
            lemma_scaled_index(y as int, h as int, sh as int);
        }
        let mut x: usize = 0;
        while x < w
            invariant
                x <= w,
                y < h,
                dst@.len() == len0,
                len0 <= usize::MAX,
                sw * sh <= usize::MAX,
                len0 >= dw * dh,
                src@.len() >= sw * sh,
                sw >= 1,
                sh >= 1,
                0 <= row < sh,
                row == y * sh / (h as int),
                x0 + w <= dw,
                y0 + h <= dh,
                (x0 as int, y0 as int, w as int, h as int) == blit_place(sw, sh, dw, dh),
                xs@.len() == w,
                forall|j: int| 0 <= j < w ==> #[trigger] xs@[j] == j * sw / (w as int),
                forall|i: int|
                    0 <= i < len0 ==> #[trigger] dst@[i] == (if 0 <= i < dw * dh && x0 <= i % (
                    dw as int) < x0 + w && (y0 <= i / (dw as int) < y0 + y || (i / (dw as int) == y0
                        + y && i % (dw as int) < x0 + x)) {
                        blit_pixel(src@, sw, sh, dw, dh, len0, i)
                    } else {
                        0
                    }),
            decreases w - x,
        {
            let sx = xs[x];
            proof {
                lemma_scaled_index(x as int, w as int, sw as int);
                lemma_row_index(row as int, sw as int, sh as int, sx as int);
                lemma_pixel_position(
                    (y0 + y) * dw + x0 + x,
                    (y0 + y) as int,
                    (x0 + x) as int,
                    dw as int,
                    dh as int,
                );
            }
            assert((y0 + y) * dw + x0 + x < dw * dh);
            let p = (y0 + y) * dw + x0 + x;
            dst[p] = src[row * sw + sx];
            proof {
                assert(blit_pixel(src@, sw, sh, dw, dh, len0, p as int) == src@[row * sw + sx]);
                assert forall|i: int|
                    0 <= i < len0 && #[trigger] (i / (dw as int)) == y0 + y && #[trigger] (i % (
                    dw as int)) == x0 + x implies i == p by {
                    vstd::arithmetic::div_mod::lemma_fundamental_div_mod(i, dw as int);
                    assert((dw as int) * (i / (dw as int)) == (y0 + y) * dw) by (nonlinear_arith)
                        requires
                            i / (dw as int) == y0 + y,
                    ;
                }
            }
            x = x + 1;
        }
        y = y + 1;
    }
}


/// A frame that fits the display area is shown at the largest whole scale that fits: one step
/// larger would overflow the area's width or height.
pub proof fn law_place_largest_integer_scale(win_w: u32, win_h: u32, img_w: u32, img_h: u32)
    requires
        at_least_one(img_w) <= display_area(win_w, win_h).0,
        at_least_one(img_h) <= display_area(win_w, win_h).1,
    ensures
        ({
            let (x, y, w, h) = spec_place(win_w, win_h, img_w, img_h);
            let (aw, ah) = display_area(win_w, win_h);
            let (iw, ih) = (at_least_one(img_w), at_least_one(img_h));
            exists|k: int|
                #![trigger iw * k, ih * k]
                k >= 1 && w == iw * k && h == ih * k && w <= aw && h <= ah && (iw * (k + 1) > aw
                    || ih * (k + 1) > ah)
        }),
{
    let (aw, ah) = display_area(win_w, win_h);
    let (iw, ih) = (at_least_one(img_w), at_least_one(img_h));
    law_place_inside_surface(win_w, win_h, img_w, img_h);
    assert(aw / iw >= 1 && ah / ih >= 1) by (nonlinear_arith)
        requires
            iw <= aw,
            ih <= ah,
            iw >= 1,
            ih >= 1,
    ;
    let k = min_int(aw / iw, ah / ih);
    assert(iw * (k + 1) > aw || ih * (k + 1) > ah) by (nonlinear_arith)
        requires
            k == aw / iw || k == ah / ih,
            iw >= 1,
            ih >= 1,
            aw >= 0,
            ah >= 0,
    ;
    assert(iw * k == iw * k && ih * k == ih * k);
}

/// A frame larger than the display area is shrunk to fill the area's width or its height, with
/// its aspect ratio kept up to rounding down the other side.
pub proof fn law_place_shrinks_keeping_aspect(win_w: u32, win_h: u32, img_w: u32, img_h: u32)
    requires
        at_least_one(img_w) > display_area(win_w, win_h).0 || at_least_one(img_h) > display_area(
            win_w,
            win_h,
        ).1,
    ensures
        ({
            let (x, y, w, h) = spec_place(win_w, win_h, img_w, img_h);
            let (aw, ah) = display_area(win_w, win_h);
            let (iw, ih) = (at_least_one(img_w), at_least_one(img_h));
            ||| w == aw && h * iw <= w * ih < (h + 1) * iw
            ||| h == ah && w * ih <= h * iw < (w + 1) * ih
        }),
{
    let (aw, ah) = display_area(win_w, win_h);
    let (iw, ih) = (at_least_one(img_w), at_least_one(img_h));
    law_place_inside_surface(win_w, win_h, img_w, img_h);
    assert(aw / iw < 1 || ah / ih < 1) by (nonlinear_arith)
        requires
            iw > aw || ih > ah,
            iw >= 1,
            ih >= 1,
            aw >= 0,
            ah >= 0,
    ;
    if iw * ah >= ih * aw {
        let h = ih * aw / iw;
        assert(h * iw <= aw * ih < (h + 1) * iw) by (nonlinear_arith)
            requires
                h == ih * aw / iw,
                iw >= 1,
        ;
    } else {
        let w = iw * ah / ih;
        assert(w * ih <= ah * iw < (w + 1) * ih) by (nonlinear_arith)
            requires
                w == iw * ah / ih,
                ih >= 1,
        ;
    }
}


/// The redraw period: 50 Hz, in nanoseconds.
pub const FRAME_NS: u64 = 20_000_000;

/// How often the title (emulated time, MIPS) is refreshed, in nanoseconds.
pub const TITLE_EVERY_NS: u64 = 500_000_000;

/// What the window does when its event loop is about to wait. Times are nanoseconds on the host's
/// monotonic clock.
#[derive(Clone, Copy, Debug, PartialEq, Eq)]
pub struct Tick {
    /// Close the window: the emulator stopped, or the deadline passed.
    pub exit: bool,
    /// Ask for a redraw now.
    pub redraw: bool,
    /// Refresh the title now.
    pub update_title: bool,
    /// When the next redraw and title refresh are due.
    pub next_frame: u64,
    pub next_title: u64,
    /// Sleep until then.
    pub wait_until: u64,
}

/// The schedule at `now`: exit when the emulator no longer runs or the deadline has come; else a
/// redraw every [`FRAME_NS`] and a title refresh every [`TITLE_EVERY_NS`], waiting until the
/// earlier of the two.
pub open spec fn spec_tick(now: u64, running: bool, deadline: Option<u64>, next_frame: u64, next_title: u64) -> Tick {
    if !running || (deadline matches Some(d) && now >= d) {
        Tick { exit: true, redraw: false, update_title: false, next_frame, next_title, wait_until: now }
    } else {
        let redraw = now >= next_frame;
        let update_title = now >= next_title;
        let nf = if redraw { (now + FRAME_NS) as u64 } else { next_frame };
        let nt = if update_title { (now + TITLE_EVERY_NS) as u64 } else { next_title };
        Tick {
            exit: false,
            redraw,
            update_title,
            next_frame: nf,
            next_title: nt,
            wait_until: if nf <= nt { nf } else { nt },
        }
    }
}

/// The window's schedule when its event loop is about to wait (see [`spec_tick`]).
pub fn about_to_wait(now: u64, running: bool, deadline: Option<u64>, next_frame: u64, next_title: u64) -> (t: Tick)
    requires
        now + TITLE_EVERY_NS <= u64::MAX,
    ensures
        t == spec_tick(now, running, deadline, next_frame, next_title),
{
    let past_deadline = match deadline {
        Some(d) => now >= d,
        None => false,
    };
    if !running || past_deadline {
        return Tick { exit: true, redraw: false, update_title: false, next_frame, next_title, wait_until: now };
    }
    let redraw = now >= next_frame;
    let update_title = now >= next_title;
    let nf = if redraw { now + FRAME_NS } else { next_frame };
    let nt = if update_title { now + TITLE_EVERY_NS } else { next_title };
    Tick {
        exit: false,
        redraw,
        update_title,
        next_frame: nf,
        next_title: nt,
        wait_until: if nf <= nt { nf } else { nt },
    }
}

/// A running window redraws and refreshes its title exactly when they are due, plans the next
/// ones after `now` (or keeps the ones not yet due), and never sleeps past either.
pub proof fn law_tick_wakes_for_next_event(now: u64, deadline: Option<u64>, next_frame: u64, next_title: u64)
    requires
        now + TITLE_EVERY_NS <= u64::MAX,
        !(deadline matches Some(d) && now >= d),
    ensures
        ({
            let t = spec_tick(now, true, deadline, next_frame, next_title);
            &&& !t.exit
            &&& t.wait_until <= t.next_frame
            &&& t.wait_until <= t.next_title
            &&& t.redraw <==> now >= next_frame
            &&& t.update_title <==> now >= next_title
            &&& t.next_frame > now || t.next_frame == next_frame
            &&& t.next_title > now || t.next_title == next_title
        }),
{
}

} // verus!
