use vstd::prelude::*;
use vstd::arithmetic::div_mod::{
    lemma_div_is_ordered, lemma_div_multiples_vanish, lemma_fundamental_div_mod,
    lemma_fundamental_div_mod_converse,
};
use vstd::arithmetic::mul::lemma_mul_inequality;
use crate::bitmap::{zero_buffer, Bitmap};
use crate::errors::RenderError;
use crate::props::{find_loaded, lemma_find_loaded, LoadedProp, PropTable};
use crate::scene::{CanvasSize, CompositeMode, Script, StageDirection};

verus! {

/// The smaller of two integers.
pub open spec fn imin(a: int, b: int) -> int {
    if a <= b { a } else { b }
}

/// The larger of two integers.
pub open spec fn imax(a: int, b: int) -> int {
    if a >= b { a } else { b }
}

/// Clamped paint position on one axis: the requested coordinate is pulled
/// back to `canvas_dim - place_dim` so the placement cannot run past the
/// canvas edge, and a placement wider than the canvas is pinned to the
/// origin instead of underflowing.
pub open spec fn clamp_pos(req: int, canvas_dim: int, place_dim: int) -> int {
    imin(req, imax(canvas_dim - place_dim, 0))
}

/// One colour channel of source-over blending: the source weighted by its
/// own alpha, the destination by the remainder.
pub open spec fn blend_channel(s: int, d: int, a: int) -> int {
    (s * a + d * (255 - a)) / 255
}

/// The alpha channel of source-over blending.
pub open spec fn blend_alpha(sa: int, da: int) -> int {
    sa + (da * (255 - sa)) / 255
}

/// Byte `k` of the canvas after painting sprite bytes `sp` (row stride `sw`)
/// at clamped position (`px`, `py`) with painted extent `ex` by `ey`: inside
/// the painted rectangle the sprite's byte lands according to the composite
/// mode, outside it the destination byte stays.
pub open spec fn paint_byte(
    dst: Seq<u8>,
    cw: int,
    sp: Seq<u8>,
    sw: int,
    px: int,
    py: int,
    ex: int,
    ey: int,
    mode: CompositeMode,
    k: int,
) -> u8 {
    let p = k / 4;
    let c = k % 4;
    let x = p % cw;
    let y = p / cw;
    if px <= x < px + ex && py <= y < py + ey {
        let sbase = 4 * ((y - py) * sw + (x - px));
        if mode is Copy {
            sp[sbase + c]
        } else {
            let a = sp[sbase + 3] as int;
            if c == 3 {
                blend_alpha(a, dst[k] as int) as u8
            } else {
                blend_channel(sp[sbase + c] as int, dst[k] as int, a) as u8
            }
        }
    } else {
        dst[k]
    }
}

/// The whole canvas after one paint: every byte as `paint_byte` gives it.
pub open spec fn painted(
    dst: Seq<u8>,
    cw: int,
    sp: Seq<u8>,
    sw: int,
    px: int,
    py: int,
    ex: int,
    ey: int,
    mode: CompositeMode,
) -> Seq<u8> {
    Seq::new(dst.len(), |k: int| paint_byte(dst, cw, sp, sw, px, py, ex, ey, mode, k))
}

/// The canvas in mid-paint: rows of the painted rectangle before `rows` are
/// done, and in row `rows` the first `cols` pixels are done; every other
/// byte still holds the destination value.
spec fn paint_partial(
    dst: Seq<u8>,
    cw: int,
    sp: Seq<u8>,
    sw: int,
    px: int,
    py: int,
    ex: int,
    ey: int,
    mode: CompositeMode,
    rows: int,
    cols: int,
) -> Seq<u8> {
    Seq::new(dst.len(), |k: int| {
        let p = k / 4;
        let x = p % cw;
        let y = p / cw;
        if px <= x < px + ex && py <= y < py + ey
            && (y - py < rows || (y - py == rows && x - px < cols)) {
            paint_byte(dst, cw, sp, sw, px, py, ex, ey, mode, k)
        } else {
            dst[k]
        }
    })
}

/// One colour channel blended in 32-bit arithmetic.
fn blend_px(s: u8, d: u8, a: u8) -> (r: u8)
    ensures
        r == blend_channel(s as int, d as int, a as int),
        r == blend_channel(s as int, d as int, a as int) as u8,
{
    proof {
        assert(s * a + d * (255 - a) <= 255 * 255) by (nonlinear_arith)
            requires
                s <= 255,
                d <= 255,
                a <= 255,
        ;
        assert(s * a + d * (255 - a) >= 0) by (nonlinear_arith)
            requires
                s >= 0,
                d >= 0,
                0 <= a <= 255,
        ;
    }
    let num: u32 = (s as u32) * (a as u32) + (d as u32) * (255 - (a as u32));
    let q: u32 = num / 255;
    q as u8
}

/// The alpha channel blended in 32-bit arithmetic.
fn blend_alpha_px(sa: u8, da: u8) -> (r: u8)
    ensures
        r == blend_alpha(sa as int, da as int),
        r == blend_alpha(sa as int, da as int) as u8,
{
    proof {
        assert(da * (255 - sa) <= 255 * (255 - sa)) by (nonlinear_arith)
            requires
                0 <= da <= 255,
                0 <= sa <= 255,
        ;
        assert(da * (255 - sa) >= 0) by (nonlinear_arith)
            requires
                da >= 0,
                0 <= sa <= 255,
        ;
        lemma_div_is_ordered(da * (255 - sa), 255 * (255 - sa), 255);
        lemma_div_multiples_vanish(255 - sa, 255);
    }
    let num: u32 = (da as u32) * (255 - (sa as u32));
    let q: u32 = num / 255;
    (sa as u32 + q) as u8
}

/// Row-major pixel coordinates: the byte index built from column `x`, row
/// `y` and channel `c` decomposes back into exactly those parts.
proof fn lemma_pixel_coords(cw: int, x: int, y: int, c: int)
    requires
        0 < cw,
        0 <= x < cw,
        0 <= y,
        0 <= c < 4,
    ensures
        (4 * (y * cw + x) + c) / 4 == y * cw + x,
        (4 * (y * cw + x) + c) % 4 == c,
        (y * cw + x) % cw == x,
        (y * cw + x) / cw == y,
{
    assert(y * cw + x >= 0) by (nonlinear_arith)
        requires
            0 <= x,
            0 <= y,
            0 < cw,
    ;
    lemma_fundamental_div_mod_converse(4 * (y * cw + x) + c, 4, y * cw + x, c);
    lemma_fundamental_div_mod_converse(y * cw + x, cw, y, x);
}

/// Row-major bounds: a pixel inside a `cw` by `ch` raster has all four of
/// its byte indices inside the buffer.
proof fn lemma_pixel_bound(cw: int, ch: int, x: int, y: int)
    requires
        0 <= x < cw,
        0 <= y < ch,
    ensures
        0 <= y * cw + x,
        4 * (y * cw + x) + 3 < cw * ch * 4,
{
    assert(y * cw + x >= 0 && y * cw + x < cw * ch) by (nonlinear_arith)
        requires
            0 <= x < cw,
            0 <= y < ch,
    ;
}

/// Paints pixel row `r` of the clipped rectangle, one pixel at a time.
/// `dst0` is the canvas as it was before the whole paint began.
fn paint_row(
    buf: &mut Vec<u8>,
    cw: u32,
    ch: u32,
    sprite: &Bitmap,
    px: u32,
    py: u32,
    ex: u32,
    ey: u32,
    r: u32,
    mode: CompositeMode,
    Ghost(dst0): Ghost<Seq<u8>>,
)
    requires
        0 < cw,
        0 < ch,
        cw * ch * 4 <= usize::MAX,
        sprite.wf(),
        px + ex <= cw,
        py + ey <= ch,
        ex <= sprite.width,
        ey <= sprite.height,
        r < ey,
        dst0.len() == cw * ch * 4,
        old(buf)@ == paint_partial(dst0, cw as int, sprite.data@, sprite.width as int,
            px as int, py as int, ex as int, ey as int, mode, r as int, 0),
    ensures
        final(buf)@ == paint_partial(dst0, cw as int, sprite.data@, sprite.width as int,
            px as int, py as int, ex as int, ey as int, mode, r as int + 1, 0),
{
    let sw = sprite.width;
    let sdlen: usize = sprite.data.len();
    let mut i: u32 = 0;
    while i < ex
        invariant
            0 < cw,
            0 < ch,
            cw * ch * 4 <= usize::MAX,
            sprite.wf(),
            sw == sprite.width,
            sdlen == sprite.data@.len(),
            px + ex <= cw,
            py + ey <= ch,
            ex <= sprite.width,
            ey <= sprite.height,
            r < ey,
            i <= ex,
            dst0.len() == cw * ch * 4,
            buf@ == paint_partial(dst0, cw as int, sprite.data@, sprite.width as int,
                px as int, py as int, ex as int, ey as int, mode, r as int, i as int),
        decreases ex - i,
    {
        let x: u32 = px + i;
        let y: u32 = py + r;
        proof {
            lemma_pixel_bound(cw as int, ch as int, x as int, y as int);
            lemma_pixel_bound(sw as int, sprite.height as int, i as int, r as int);
            assert(cw * ch >= 0) by (nonlinear_arith)
                requires
                    cw >= 0,
                    ch >= 0,
            ;
            lemma_pixel_coords(cw as int, x as int, y as int, 0);
            lemma_pixel_coords(cw as int, x as int, y as int, 1);
            lemma_pixel_coords(cw as int, x as int, y as int, 2);
            lemma_pixel_coords(cw as int, x as int, y as int, 3);
        }
        let p: usize = (y as usize) * (cw as usize) + (x as usize);
        let didx: usize = 4 * p;
        let sq: usize = (r as usize) * (sw as usize) + (i as usize);
        let sbase: usize = 4 * sq;
        let ghost pre = buf@;
        match mode {
            CompositeMode::Copy => {
                let v0 = sprite.data[sbase];
                let v1 = sprite.data[sbase + 1];
                let v2 = sprite.data[sbase + 2];
                let v3 = sprite.data[sbase + 3];
                buf[didx] = v0;
                buf[didx + 1] = v1;
                buf[didx + 2] = v2;
                buf[didx + 3] = v3;
            },
            CompositeMode::Overlay => {
                let a = sprite.data[sbase + 3];
                let s0 = sprite.data[sbase];
                let s1 = sprite.data[sbase + 1];
                let s2 = sprite.data[sbase + 2];
                let d0 = buf[didx];
                let d1 = buf[didx + 1];
                let d2 = buf[didx + 2];
                let d3 = buf[didx + 3];
                buf[didx] = blend_px(s0, d0, a);
                buf[didx + 1] = blend_px(s1, d1, a);
                buf[didx + 2] = blend_px(s2, d2, a);
                buf[didx + 3] = blend_alpha_px(a, d3);
            },
        }
        proof {
            let cwi = cw as int;
            let swi = sw as int;
            let sp = sprite.data@;
            let pxi = px as int;
            let pyi = py as int;
            let exi = ex as int;
            let eyi = ey as int;
            let xi = x as int;
            let yi = y as int;
            let ri = r as int;
            let ii = i as int;
            let pi = yi * cwi + xi;
            let di = 4 * pi;
            assert(didx == di);
            assert(sbase == 4 * ((yi - pyi) * swi + (xi - pxi))) by {
                assert((yi - pyi) * swi == ri * swi);
                assert(xi - pxi == ii);
            }
            let post = paint_partial(dst0, cwi, sp, swi, pxi, pyi, exi, eyi, mode, ri, ii + 1);
            assert forall|k: int| 0 <= k < dst0.len() implies buf@[k] == post[k] by {
                lemma_fundamental_div_mod(k, 4);
                vstd::arithmetic::div_mod::lemma_mod_bound(k, 4);
                lemma_fundamental_div_mod(k / 4, cwi);
                vstd::arithmetic::div_mod::lemma_mod_bound(k / 4, cwi);
                let pk = k / 4;
                let ck = k % 4;
                let xk = pk % cwi;
                let yk = pk / cwi;
                assert(k == 4 * pk + ck);
                assert(pk == cwi * yk + xk);
                if di <= k < di + 4 {
                    let ckk = k - di;
                    lemma_pixel_coords(cwi, xi, yi, ckk);
                    assert((4 * (yi * cwi + xi) + ckk) / 4 == yi * cwi + xi);
                    assert(4 * (yi * cwi + xi) + ckk == k);
                    assert(pk == pi);
                    assert(xk == xi);
                    assert(yk == yi);
                    assert(ck == k - di);
                    assert(pre[k] == dst0[k]);
                    assert(post[k] == paint_byte(dst0, cwi, sp, swi, pxi, pyi, exi, eyi,
                        mode, k));
                } else {
                    if xk == xi && yk == yi {
                        vstd::arithmetic::mul::lemma_mul_is_commutative(cwi, yk);
                        assert(pk == pi);
                        assert(false);
                    }
                    assert(buf@[k] == pre[k]);
                }
            }
            assert(buf@ =~= post);
        }
        i = i + 1;
    }
    proof {
        assert(paint_partial(dst0, cw as int, sprite.data@, sprite.width as int,
            px as int, py as int, ex as int, ey as int, mode, r as int, ex as int)
            =~= paint_partial(dst0, cw as int, sprite.data@, sprite.width as int,
                px as int, py as int, ex as int, ey as int, mode, r as int + 1, 0));
    }
}

/// Placement width of a direction: its explicit override, or the prop's
/// natural width. It constrains the clamped position only; no resampling.
pub open spec fn place_w(d: StageDirection, p: LoadedProp) -> u32 {
    match d.width {
        Some(w) => w,
        None => p.width,
    }
}

/// Placement height of a direction: its explicit override, or the prop's
/// natural height.
pub open spec fn place_h(d: StageDirection, p: LoadedProp) -> u32 {
    match d.height {
        Some(h) => h,
        None => p.height,
    }
}

/// The sprite a direction selects: its explicit index, or 0; an index past
/// the last sprite is clamped to the last one instead of failing.
pub open spec fn sprite_index(d: StageDirection, p: LoadedProp) -> int {
    let i = match d.sprite {
        Some(i) => i as int,
        None => 0,
    };
    if i < p.sprites@.len() {
        i
    } else {
        p.sprites@.len() - 1
    }
}

/// The canvas after one stage direction paints prop `p`: the selected sprite
/// lands at the clamped position, clipped to the canvas, in the prop's
/// composite mode.
pub open spec fn apply_direction(
    buf: Seq<u8>,
    canvas: CanvasSize,
    d: StageDirection,
    p: LoadedProp,
) -> Seq<u8> {
    let px = clamp_pos(d.x as int, canvas.width as int, place_w(d, p) as int);
    let py = clamp_pos(d.y as int, canvas.height as int, place_h(d, p) as int);
    let s = p.sprites@[sprite_index(d, p)];
    painted(buf, canvas.width as int, s.data@, s.width as int, px, py,
        imin(s.width as int, canvas.width - px), imin(s.height as int, canvas.height - py),
        p.mode)
}

/// The blank canvas: every byte zero, fully transparent.
pub open spec fn zero_frame(canvas: CanvasSize) -> Seq<u8> {
    Seq::new((canvas.width * canvas.height * 4) as nat, |k: int| 0u8)
}

/// The canvas after the remaining directions paint in script order over
/// `acc`, or the identifier of the first direction whose prop is missing
/// from the table.
pub open spec fn composite_from(
    dirs: Seq<StageDirection>,
    t: Seq<LoadedProp>,
    canvas: CanvasSize,
    acc: Seq<u8>,
) -> Result<Seq<u8>, Seq<char>>
    decreases dirs.len(),
{
    if dirs.len() == 0 {
        Ok(acc)
    } else {
        match find_loaded(t, dirs[0].prop@) {
            None => Err(dirs[0].prop@),
            Some(j) => composite_from(dirs.skip(1), t, canvas,
                apply_direction(acc, canvas, dirs[0], t[j])),
        }
    }
}

/// One frame script composited over a blank canvas: the flat RGBA buffer,
/// or the first missing prop reference.
pub open spec fn composite_script(
    script: Script,
    t: Seq<LoadedProp>,
    canvas: CanvasSize,
) -> Result<Seq<u8>, Seq<char>> {
    composite_from(script.directions@, t, canvas, zero_frame(canvas))
}

/// Compositing never changes the buffer's length.
pub proof fn lemma_composite_from_len(
    dirs: Seq<StageDirection>,
    t: Seq<LoadedProp>,
    canvas: CanvasSize,
    acc: Seq<u8>,
)
    ensures
        composite_from(dirs, t, canvas, acc) matches Ok(b) ==> b.len() == acc.len(),
    decreases dirs.len(),
{
    if dirs.len() > 0 {
        match find_loaded(t, dirs[0].prop@) {
            None => {},
            Some(j) => {
                lemma_composite_from_len(dirs.skip(1), t, canvas,
                    apply_direction(acc, canvas, dirs[0], t[j]));
            },
        }
    }
}

/// Compositing a script succeeds whenever every direction's prop reference
/// resolves in the table.
pub proof fn lemma_composite_resolves(
    dirs: Seq<StageDirection>,
    t: Seq<LoadedProp>,
    canvas: CanvasSize,
    acc: Seq<u8>,
)
    requires
        forall|d: int| 0 <= d < dirs.len() ==> find_loaded(t, (#[trigger] dirs[d]).prop@)
            is Some,
    ensures
        composite_from(dirs, t, canvas, acc) is Ok,
    decreases dirs.len(),
{
    if dirs.len() > 0 {
        let ds = dirs.skip(1);
        assert forall|d: int| 0 <= d < ds.len() implies find_loaded(t,
            (#[trigger] ds[d]).prop@) is Some by {
            assert(ds[d] == dirs[d + 1]);
        }
        match find_loaded(t, dirs[0].prop@) {
            Some(j) => {
                lemma_composite_resolves(ds, t, canvas, apply_direction(acc, canvas, dirs[0],
                    t[j]));
            },
            None => {},
        }
    }
}

/// Composites one frame script into a flat RGBA buffer of exactly
/// `width * height * 4` bytes, painting each direction in script order and
/// failing on the first missing prop reference.
pub fn generate_frame(script: &Script, table: &PropTable, canvas: &CanvasSize) -> (res: Result<
    Vec<u8>,
    RenderError,
>)
    requires
        canvas.wf(),
        table.wf(),
    ensures
        match res {
            Ok(buf) => composite_script(*script, table.entries@, *canvas)
                matches Ok(b) && b == buf@ && buf@.len() == canvas.frame_len(),
            Err(e) => e matches RenderError::PropNotFound(m)
                && composite_script(*script, table.entries@, *canvas)
                    == Err::<Seq<u8>, Seq<char>>(m@),
        },
{
    let cw = canvas.width;
    let ch = canvas.height;
    proof {
        assert(cw * ch >= 0) by (nonlinear_arith)
            requires
                cw >= 0,
                ch >= 0,
        ;
    }
    let n: usize = (cw as usize) * (ch as usize) * 4;
    let mut buf = zero_buffer(n);
    proof {
        assert(buf@ =~= zero_frame(*canvas));
    }
    let ghost dirs = script.directions@;
    let ghost t = table.entries@;
    proof {
        assert(dirs.skip(0) =~= dirs);
    }
    let mut idx: usize = 0;
    while idx < script.directions.len()
        invariant
            canvas.wf(),
            table.wf(),
            cw == canvas.width,
            ch == canvas.height,
            dirs == script.directions@,
            t == table.entries@,
            idx <= dirs.len(),
            buf@.len() == canvas.frame_len(),
            composite_from(dirs.skip(idx as int), t, *canvas, buf@)
                == composite_script(*script, t, *canvas),
        decreases dirs.len() - idx,
    {
        let ghost pre = buf@;
        let d = &script.directions[idx];
        proof {
            assert(dirs.skip(idx as int)[0] == dirs[idx as int]);
        }
        match table.find(&d.prop) {
            None => {
                return Err(RenderError::PropNotFound(d.prop.clone()));
            },
            Some(j) => {
                proof {
                    lemma_find_loaded(t, d.prop@);
                }
                let p = &table.entries[j];
                let pw: u32 = match d.width {
                    Some(w) => w,
                    None => p.width,
                };
                let ph: u32 = match d.height {
                    Some(h) => h,
                    None => p.height,
                };
                let ax: u32 = if pw >= cw { 0 } else { cw - pw };
                let ay: u32 = if ph >= ch { 0 } else { ch - ph };
                let px: u32 = if d.x <= ax { d.x } else { ax };
                let py: u32 = if d.y <= ay { d.y } else { ay };
                let i0: usize = match d.sprite {
                    Some(i) => i,
                    None => 0,
                };
                let si: usize = if i0 < p.sprites.len() { i0 } else { p.sprites.len() - 1 };
                let sprite = &p.sprites[si];
                proof {
                    assert(px as int == clamp_pos(d.x as int, cw as int, pw as int));
                    assert(py as int == clamp_pos(d.y as int, ch as int, ph as int));
                    assert(si as int == sprite_index(dirs[idx as int], t[j as int]));
                }
                paint_sprite(&mut buf, canvas, sprite, px, py, p.mode);
                proof {
                    assert(buf@ == apply_direction(pre, *canvas, dirs[idx as int],
                        t[j as int]));
                    assert(dirs.skip(idx as int).skip(1) =~= dirs.skip(idx as int + 1));
                }
            },
        }
        idx = idx + 1;
    }
    proof {
        assert(dirs.skip(idx as int) =~= Seq::<StageDirection>::empty());
    }
    Ok(buf)
}

/// Paints one sprite onto the canvas buffer at the already-clamped position
/// (`px`, `py`), clipping the painted extent to the canvas on both axes.
pub fn paint_sprite(
    buf: &mut Vec<u8>,
    canvas: &CanvasSize,
    sprite: &Bitmap,
    px: u32,
    py: u32,
    mode: CompositeMode,
)
    requires
        canvas.wf(),
        sprite.wf(),
        old(buf)@.len() == canvas.frame_len(),
        px <= canvas.width,
        py <= canvas.height,
    ensures
        final(buf)@ == painted(old(buf)@, canvas.width as int, sprite.data@,
            sprite.width as int, px as int, py as int,
            imin(sprite.width as int, canvas.width - px),
            imin(sprite.height as int, canvas.height - py), mode),
        final(buf)@.len() == old(buf)@.len(),
{
    let cw = canvas.width;
    let ch = canvas.height;
    let ex: u32 = if sprite.width <= cw - px { sprite.width } else { cw - px };
    let ey: u32 = if sprite.height <= ch - py { sprite.height } else { ch - py };
    let ghost dst0 = buf@;
    proof {
        assert(paint_partial(dst0, cw as int, sprite.data@, sprite.width as int,
            px as int, py as int, ex as int, ey as int, mode, 0, 0) =~= dst0);
    }
    let mut r: u32 = 0;
    while r < ey
        invariant
            canvas.wf(),
            sprite.wf(),
            cw == canvas.width,
            ch == canvas.height,
            px + ex <= cw,
            py + ey <= ch,
            ex <= sprite.width,
            ey <= sprite.height,
            r <= ey,
            dst0.len() == cw * ch * 4,
            buf@ == paint_partial(dst0, cw as int, sprite.data@, sprite.width as int,
                px as int, py as int, ex as int, ey as int, mode, r as int, 0),
        decreases ey - r,
    {
        paint_row(buf, cw, ch, sprite, px, py, ex, ey, r, mode, Ghost(dst0));
        r = r + 1;
    }
    proof {
        assert(paint_partial(dst0, cw as int, sprite.data@, sprite.width as int,
            px as int, py as int, ex as int, ey as int, mode, ey as int, 0)
            =~= painted(dst0, cw as int, sprite.data@, sprite.width as int,
                px as int, py as int, ex as int, ey as int, mode));
    }
}

/// The clamp keeps every placement on the canvas: the clamped position is
/// never negative, never past the canvas, the painted extent fits, and a
/// placement no larger than the canvas fits in full. A placement larger
/// than the canvas is pinned to the origin.
pub proof fn lemma_clamp_in_bounds(req: int, canvas_dim: int, place_dim: int, sprite_dim: int)
    requires
        0 <= req,
        0 <= canvas_dim,
        0 <= place_dim,
    ensures
        0 <= clamp_pos(req, canvas_dim, place_dim),
        clamp_pos(req, canvas_dim, place_dim) <= canvas_dim,
        place_dim <= canvas_dim ==> clamp_pos(req, canvas_dim, place_dim) + place_dim
            <= canvas_dim,
        clamp_pos(req, canvas_dim, place_dim) + imin(sprite_dim, canvas_dim - clamp_pos(req,
            canvas_dim, place_dim)) <= canvas_dim,
        place_dim > canvas_dim && req > 0 ==> clamp_pos(req, canvas_dim, place_dim) == 0,
{
}

/// Paint order is script order: after painting sprite A and then sprite B,
/// both in copy mode, every byte inside B's painted rectangle holds B's
/// source byte, whatever A painted there before.
pub proof fn lemma_copy_paint_order(
    dst: Seq<u8>,
    cw: int,
    spa: Seq<u8>,
    swa: int,
    pxa: int,
    pya: int,
    exa: int,
    eya: int,
    spb: Seq<u8>,
    swb: int,
    pxb: int,
    pyb: int,
    exb: int,
    eyb: int,
    x: int,
    y: int,
    c: int,
)
    requires
        0 < cw,
        0 <= x < cw,
        0 <= y,
        0 <= c < 4,
        pxb <= x < pxb + exb,
        pyb <= y < pyb + eyb,
        4 * (y * cw + x) + c < dst.len(),
    ensures
        ({
            let after_a = painted(dst, cw, spa, swa, pxa, pya, exa, eya, CompositeMode::Copy);
            let after_b = painted(after_a, cw, spb, swb, pxb, pyb, exb, eyb,
                CompositeMode::Copy);
            after_b[4 * (y * cw + x) + c] == spb[4 * ((y - pyb) * swb + (x - pxb)) + c]
        }),
{
    lemma_pixel_coords(cw, x, y, c);
}

/// Overlay with an entirely transparent source is a no-op: every canvas
/// byte keeps the value it had before the paint.
pub proof fn lemma_overlay_transparent_noop(
    dst: Seq<u8>,
    cw: int,
    sp: Seq<u8>,
    sw: int,
    sh: int,
    px: int,
    py: int,
    ex: int,
    ey: int,
)
    requires
        0 < cw,
        0 <= px,
        0 <= py,
        0 <= ex <= sw,
        0 <= ey <= sh,
        sp.len() == sw * sh * 4,
        forall|p: int| 0 <= p < sw * sh ==> #[trigger] sp[4 * p + 3] == 0,
    ensures
        painted(dst, cw, sp, sw, px, py, ex, ey, CompositeMode::Overlay) == dst,
{
    let out = painted(dst, cw, sp, sw, px, py, ex, ey, CompositeMode::Overlay);
    assert forall|k: int| 0 <= k < dst.len() implies out[k] == dst[k] by {
        lemma_fundamental_div_mod(k, 4);
        vstd::arithmetic::div_mod::lemma_mod_bound(k, 4);
        lemma_fundamental_div_mod(k / 4, cw);
        vstd::arithmetic::div_mod::lemma_mod_bound(k / 4, cw);
        let p = k / 4;
        let c = k % 4;
        let x = p % cw;
        let y = p / cw;
        if px <= x < px + ex && py <= y < py + ey {
            let sq = (y - py) * sw + (x - px);
            lemma_pixel_bound(sw, sh, x - px, y - py);
            assert(sp[4 * sq + 3] == 0);
            let d = dst[k] as int;
            if c == 3 {
                assert(blend_alpha(0, d) == d) by {
                    lemma_div_multiples_vanish(d, 255);
                    vstd::arithmetic::mul::lemma_mul_is_commutative(d, 255);
                }
            } else {
                let s = sp[4 * sq + c] as int;
                assert(blend_channel(s, d, 0) == d) by {
                    assert(s * 0 == 0) by (nonlinear_arith);
                    lemma_div_multiples_vanish(d, 255);
                    vstd::arithmetic::mul::lemma_mul_is_commutative(d, 255);
                }
            }
        }
    }
    assert(out =~= dst);
}

/// A copy-mode sprite covering the whole canvas reproduces its source bytes
/// exactly, whatever the canvas held before.
pub proof fn lemma_full_canvas_copy(dst: Seq<u8>, cw: int, ch: int, sp: Seq<u8>)
    requires
        0 < cw,
        0 < ch,
        dst.len() == cw * ch * 4,
        sp.len() == cw * ch * 4,
    ensures
        painted(dst, cw, sp, cw, 0, 0, cw, ch, CompositeMode::Copy) == sp,
{
    let out = painted(dst, cw, sp, cw, 0, 0, cw, ch, CompositeMode::Copy);
    assert forall|k: int| 0 <= k < dst.len() implies out[k] == sp[k] by {
        lemma_fundamental_div_mod(k, 4);
        vstd::arithmetic::div_mod::lemma_mod_bound(k, 4);
        lemma_fundamental_div_mod(k / 4, cw);
        vstd::arithmetic::div_mod::lemma_mod_bound(k / 4, cw);
        let p = k / 4;
        let c = k % 4;
        let x = p % cw;
        let y = p / cw;
        assert(y < ch) by {
            if y >= ch {
                lemma_mul_inequality(ch, y, cw);
                vstd::arithmetic::mul::lemma_mul_is_commutative(ch, cw);
                vstd::arithmetic::mul::lemma_mul_is_commutative(y, cw);
                assert(p >= cw * ch);
                assert(4 * p + c >= cw * ch * 4) by (nonlinear_arith)
                    requires
                        p >= cw * ch,
                        c >= 0,
                ;
            }
        }
        assert(4 * (y * cw + x) + c == k) by {
            vstd::arithmetic::mul::lemma_mul_is_commutative(y, cw);
        }
    }
    assert(out =~= sp);
}

/// Round trip: a script holding one direction that places a copy-mode prop
/// at the origin, with the prop's single sprite exactly the canvas size,
/// composites to that sprite's source bytes, byte for byte.
pub proof fn lemma_single_direction_roundtrip(
    script: Script,
    table: Seq<LoadedProp>,
    canvas: CanvasSize,
    j: int,
)
    requires
        canvas.wf(),
        script.directions@.len() == 1,
        script.directions@[0].x == 0,
        script.directions@[0].y == 0,
        script.directions@[0].width is None,
        script.directions@[0].height is None,
        script.directions@[0].sprite is None,
        find_loaded(table, script.directions@[0].prop@) == Some(j),
        0 <= j < table.len(),
        table[j].mode is Copy,
        table[j].sprites@.len() >= 1,
        table[j].width == canvas.width,
        table[j].height == canvas.height,
        table[j].sprites@[0].width == canvas.width,
        table[j].sprites@[0].height == canvas.height,
        table[j].sprites@[0].wf(),
    ensures
        composite_script(script, table, canvas) == Ok::<Seq<u8>, Seq<char>>(
            table[j].sprites@[0].data@),
{
    let d = script.directions@[0];
    let p = table[j];
    let s = p.sprites@[0];
    let zero = zero_frame(canvas);
    assert(sprite_index(d, p) == 0);
    assert(clamp_pos(0, canvas.width as int, p.width as int) == 0);
    assert(script.directions@.skip(1) =~= Seq::<StageDirection>::empty());
    lemma_full_canvas_copy(zero, canvas.width as int, canvas.height as int, s.data@);
    assert(apply_direction(zero, canvas, d, p) == s.data@);
    assert(composite_from(script.directions@.skip(1), table, canvas, s.data@)
        == Ok::<Seq<u8>, Seq<char>>(s.data@));
}

} // verus!
