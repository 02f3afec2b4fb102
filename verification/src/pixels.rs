//! Pixel buffers: 4 bytes per pixel, rows one after the other.
use vstd::prelude::*;

verus! {

/// The 4 bytes of pixel `i`.
pub open spec fn pixel(s: Seq<u8>, i: int) -> (u8, u8, u8, u8) {
    (s[4 * i], s[4 * i + 1], s[4 * i + 2], s[4 * i + 3])
}

/// Number of whole pixels in a buffer of `len` bytes.
pub open spec fn whole_pixels(len: int) -> int {
    len / 4
}

/// A colour channel premultiplied by alpha `a` brought back to straight form, rounded
/// to nearest and capped at 255.
pub open spec fn unpremultiply_channel(c: u8, a: u8) -> u8
    recommends
        a > 0,
{
    let v = (c * 255 + a / 2) / (a as int);
    if v > 255 {
        255
    } else {
        v as u8
    }
}

/// A straight colour channel premultiplied by alpha `a`, rounded down.
pub open spec fn premultiply_channel(c: u8, a: u8) -> u8 {
    (c * a / 255) as u8
}

/// A premultiplied RGBA pixel as straight RGBA; a transparent pixel becomes all zero.
pub open spec fn straight_rgba(p: (u8, u8, u8, u8)) -> (u8, u8, u8, u8) {
    if p.3 == 0 {
        (0, 0, 0, 0)
    } else {
        (
            unpremultiply_channel(p.0, p.3),
            unpremultiply_channel(p.1, p.3),
            unpremultiply_channel(p.2, p.3),
            p.3,
        )
    }
}

/// A premultiplied RGBA pixel as straight ARGB (alpha first); a transparent pixel
/// becomes all zero.
pub open spec fn straight_argb(p: (u8, u8, u8, u8)) -> (u8, u8, u8, u8) {
    if p.3 == 0 {
        (0, 0, 0, 0)
    } else {
        (
            p.3,
            unpremultiply_channel(p.0, p.3),
            unpremultiply_channel(p.1, p.3),
            unpremultiply_channel(p.2, p.3),
        )
    }
}

/// A straight RGBA pixel premultiplied by its alpha.
pub open spec fn premultiplied_rgba(p: (u8, u8, u8, u8)) -> (u8, u8, u8, u8) {
    (premultiply_channel(p.0, p.3), premultiply_channel(p.1, p.3), premultiply_channel(p.2, p.3), p.3)
}

/// `out` is `input` with `f` applied to every whole pixel; bytes past the last whole
/// pixel are 0.
pub open spec fn maps_pixels(
    input: Seq<u8>,
    out: Seq<u8>,
    f: spec_fn((u8, u8, u8, u8)) -> (u8, u8, u8, u8),
) -> bool {
    &&& out.len() == input.len()
    &&& forall|i: int|
        0 <= i < whole_pixels(input.len() as int) ==> #[trigger] pixel(out, i) == f(
            pixel(input, i),
        )
    &&& forall|j: int| 4 * whole_pixels(input.len() as int) <= j < out.len() ==> out[j] == 0
}

/// Channel `k` (0 to 3) of a pixel.
pub open spec fn channel(p: (u8, u8, u8, u8), k: int) -> u8 {
    if k == 0 {
        p.0
    } else if k == 1 {
        p.1
    } else if k == 2 {
        p.2
    } else {
        p.3
    }
}

/// The buffer that `maps_pixels` describes, byte by byte.
pub open spec fn map_pixels(input: Seq<u8>, f: spec_fn((u8, u8, u8, u8)) -> (u8, u8, u8, u8)) -> Seq<u8> {
    Seq::new(
        input.len(),
        |j: int|
            if j < 4 * whole_pixels(input.len() as int) {
                channel(f(pixel(input, j / 4)), j % 4)
            } else {
                0u8
            },
    )
}

/// `maps_pixels` names one buffer: `map_pixels`.
pub proof fn lemma_maps_pixels_unique(
    input: Seq<u8>,
    out: Seq<u8>,
    f: spec_fn((u8, u8, u8, u8)) -> (u8, u8, u8, u8),
)
    requires
        maps_pixels(input, out, f),
    ensures
        out == map_pixels(input, f),
{
    assert forall|j: int| 0 <= j < out.len() implies out[j] == map_pixels(input, f)[j] by {
        if j < 4 * whole_pixels(input.len() as int) {
            let i = j / 4;
            assert(0 <= i < whole_pixels(input.len() as int));
            assert(pixel(out, i) == f(pixel(input, i)));
            assert(j == 4 * i + j % 4);
        }
    }
    assert(out =~= map_pixels(input, f));
}

fn unpremultiply(c: u8, a: u8) -> (r: u8)
    requires
        a > 0,
    ensures
        r == unpremultiply_channel(c, a),
{
    let v = (c as u32 * 255 + a as u32 / 2) / a as u32;
    if v > 255 {
        255
    } else {
        v as u8
    }
}

fn premultiply(c: u8, a: u8) -> (r: u8)
    ensures
        r == premultiply_channel(c, a),
{
    assert(c * a <= 255 * 255) by (nonlinear_arith)
        requires
            c <= 255,
            a <= 255,
    ;
    (c as u32 * a as u32 / 255) as u8
}

proof fn lemma_pixel_bounds(i: int, len: int)
    requires
        0 <= i < whole_pixels(len),
    ensures
        4 * i + 4 <= len,
{
}

/// Sets pixel `i` of `out` to `p`.
fn set_pixel(out: &mut Vec<u8>, i: usize, p: (u8, u8, u8, u8))
    requires
        4 * i + 4 <= old(out).len(),
    ensures
        final(out).len() == old(out).len(),
        pixel(final(out)@, i as int) == p,
        forall|j: int|
            0 <= j < old(out).len() && !(4 * i <= j < 4 * i + 4) ==> final(out)@[j] == old(out)@[j],
{
    out.set(4 * i, p.0);
    out.set(4 * i + 1, p.1);
    out.set(4 * i + 2, p.2);
    out.set(4 * i + 3, p.3);
}

/// Pixel `i` of `s`.
fn get_pixel(s: &[u8], i: usize) -> (r: (u8, u8, u8, u8))
    requires
        4 * i + 4 <= s.len(),
    ensures
        r == pixel(s@, i as int),
{
    (s[4 * i], s[4 * i + 1], s[4 * i + 2], s[4 * i + 3])
}

/// Premultiplied RGBA to straight RGBA, pixel by pixel, for a PNG that any viewer
/// shows as it is.
pub fn unpremultiply_to_rgba(rgba: &[u8]) -> (out: Vec<u8>)
    ensures
        maps_pixels(rgba@, out@, |p: (u8, u8, u8, u8)| straight_rgba(p)),
{
    let len = rgba.len();
    let mut out: Vec<u8> = vec![0u8; len];
    let n = len / 4;
    let mut i: usize = 0;
    while i < n
        invariant
            n == whole_pixels(len as int),
            len == rgba.len() == out.len(),
            i <= n,
            forall|k: int| 0 <= k < i ==> #[trigger] pixel(out@, k) == straight_rgba(pixel(rgba@, k)),
            forall|j: int| 4 * i <= j < len ==> out@[j] == 0,
        decreases n - i,
    {
        proof {
            lemma_pixel_bounds(i as int, len as int);
        }
        let p = get_pixel(rgba, i);
        let q = if p.3 == 0 {
            (0u8, 0u8, 0u8, 0u8)
        } else {
            (unpremultiply(p.0, p.3), unpremultiply(p.1, p.3), unpremultiply(p.2, p.3), p.3)
        };
        let ghost before = out@;
        set_pixel(&mut out, i, q);
        proof {
            assert forall|k: int| 0 <= k < i + 1 implies #[trigger] pixel(out@, k) == straight_rgba(
                pixel(rgba@, k),
            ) by {
                if k < i {
                    assert(pixel(before, k) == straight_rgba(pixel(rgba@, k)));
                }
            }
        }
        i += 1;
    }
    out
}

/// Premultiplied RGBA to the straight ARGB32 (alpha first, bytes in network order) that a
/// StatusNotifierItem pixmap expects.
pub fn rgba_premul_to_argb_straight(rgba: &[u8]) -> (out: Vec<u8>)
    ensures
        maps_pixels(rgba@, out@, |p: (u8, u8, u8, u8)| straight_argb(p)),
{
    let len = rgba.len();
    let mut out: Vec<u8> = vec![0u8; len];
    let n = len / 4;
    let mut i: usize = 0;
    while i < n
        invariant
            n == whole_pixels(len as int),
            len == rgba.len() == out.len(),
            i <= n,
            forall|k: int| 0 <= k < i ==> #[trigger] pixel(out@, k) == straight_argb(pixel(rgba@, k)),
            forall|j: int| 4 * i <= j < len ==> out@[j] == 0,
        decreases n - i,
    {
        proof {
            lemma_pixel_bounds(i as int, len as int);
        }
        let p = get_pixel(rgba, i);
        let q = if p.3 == 0 {
            (0u8, 0u8, 0u8, 0u8)
        } else {
            (p.3, unpremultiply(p.0, p.3), unpremultiply(p.1, p.3), unpremultiply(p.2, p.3))
        };
        let ghost before = out@;
        set_pixel(&mut out, i, q);
        proof {
            assert forall|k: int| 0 <= k < i + 1 implies #[trigger] pixel(out@, k) == straight_argb(
                pixel(rgba@, k),
            ) by {
                if k < i {
                    assert(pixel(before, k) == straight_argb(pixel(rgba@, k)));
                }
            }
        }
        i += 1;
    }
    out
}

/// Straight RGBA to premultiplied RGBA, pixel by pixel (each colour channel times alpha,
/// divided by 255 and rounded down).
pub fn premultiply_rgba(rgba: &[u8]) -> (out: Vec<u8>)
    ensures
        maps_pixels(rgba@, out@, |p: (u8, u8, u8, u8)| premultiplied_rgba(p)),
{
    let len = rgba.len();
    let mut out: Vec<u8> = vec![0u8; len];
    let n = len / 4;
    let mut i: usize = 0;
    while i < n
        invariant
            n == whole_pixels(len as int),
            len == rgba.len() == out.len(),
            i <= n,
            forall|k: int|
                0 <= k < i ==> #[trigger] pixel(out@, k) == premultiplied_rgba(pixel(rgba@, k)),
            forall|j: int| 4 * i <= j < len ==> out@[j] == 0,
        decreases n - i,
    {
        proof {
            lemma_pixel_bounds(i as int, len as int);
        }
        let p = get_pixel(rgba, i);
        let q = (premultiply(p.0, p.3), premultiply(p.1, p.3), premultiply(p.2, p.3), p.3);
        let ghost before = out@;
        set_pixel(&mut out, i, q);
        proof {
            assert forall|k: int| 0 <= k < i + 1 implies #[trigger] pixel(out@, k)
                == premultiplied_rgba(pixel(rgba@, k)) by {
                if k < i {
                    assert(pixel(before, k) == premultiplied_rgba(pixel(rgba@, k)));
                }
            }
        }
        i += 1;
    }
    out
}


/// Opaque pixels keep their colour through both conversions, and transparent pixels
/// become all zero.
pub proof fn opaque_and_transparent_pixels(p: (u8, u8, u8, u8))
    ensures
        p.3 == 255 ==> straight_rgba(p) == p,
        p.3 == 255 ==> straight_argb(p) == (255u8, p.0, p.1, p.2),
        p.3 == 0 ==> straight_rgba(p) == (0u8, 0u8, 0u8, 0u8),
        p.3 == 0 ==> straight_argb(p) == (0u8, 0u8, 0u8, 0u8),
{
    if p.3 == 255 {
        lemma_unpremultiply_opaque(p.0);
        lemma_unpremultiply_opaque(p.1);
        lemma_unpremultiply_opaque(p.2);
    }
}

proof fn lemma_unpremultiply_opaque(c: u8)
    ensures
        unpremultiply_channel(c, 255) == c,
{
    assert((c * 255 + 127) / 255 == c) by (nonlinear_arith)
        requires
            0 <= c <= 255,
    ;
}

/// Bringing a premultiplied channel `c` back to straight form under alpha `a > 0`
/// rounds `c * 255 / a` to the nearest integer: where `c <= a` (a channel that a
/// premultiplication can give) the result times `a` lies within `a / 2` of `c * 255`;
/// where `c >= a` it is the full 255.
pub proof fn unpremultiply_rounds_to_nearest(c: u8, a: u8)
    requires
        a > 0,
    ensures
        c <= a ==> -(a as int) <= 2 * (unpremultiply_channel(c, a) as int) * (a as int) - 510
            * (c as int) <= a as int,
        c >= a ==> unpremultiply_channel(c, a) == 255,
{
    let ai = a as int;
    let ci = c as int;
    let h = ai / 2;
    let v = (ci * 255 + h) / ai;
    assert(v * ai <= ci * 255 + h && ci * 255 + h < v * ai + ai) by (nonlinear_arith)
        requires
            ai > 0,
            v == (ci * 255 + h) / ai,
            ci * 255 + h >= 0,
    ;
    assert(2 * h <= ai && ai <= 2 * h + 1);
    if c <= a {
        assert(v < 256) by (nonlinear_arith)
            requires
                ai > 0,
                v * ai <= ci * 255 + h,
                ci <= ai,
                h < ai,
        ;
        assert(unpremultiply_channel(c, a) as int == v);
        assert(-ai <= 2 * v * ai - 510 * ci <= ai) by (nonlinear_arith)
            requires
                v * ai <= ci * 255 + h,
                ci * 255 + h < v * ai + ai,
                2 * h <= ai,
                ai <= 2 * h + 1,
        ;
    }
    if c >= a {
        assert(v >= 255) by (nonlinear_arith)
            requires
                ai > 0,
                ci * 255 + h < v * ai + ai,
                ci >= ai,
                h >= 0,
        ;
    }
}

/// Premultiplying a straight channel `s` by alpha `a > 0` and bringing it back never
/// overshoots `s`, and falls short by less than `255 / a + 1/2`: the round trip loses only
/// what the premultiplied byte cannot hold.
pub proof fn premultiply_round_trip(s: u8, a: u8)
    requires
        a > 0,
    ensures
        unpremultiply_channel(premultiply_channel(s, a), a) <= s,
        2 * ((s as int) - (unpremultiply_channel(premultiply_channel(s, a), a) as int)) * (a as int)
            < 510 + (a as int),
{
    let ai = a as int;
    let si = s as int;
    let q = si * ai / 255;
    assert(255 * q <= si * ai && si * ai < 255 * q + 255 && q <= ai) by (nonlinear_arith)
        requires
            q == si * ai / 255,
            0 <= si <= 255,
            0 < ai <= 255,
    ;
    let p = premultiply_channel(s, a);
    assert(p as int == q);
    unpremultiply_rounds_to_nearest(p, a);
    let u = unpremultiply_channel(p, a) as int;
    assert(-ai <= 2 * u * ai - 510 * q <= ai);
    assert(u <= si) by (nonlinear_arith)
        requires
            2 * u * ai - 510 * q <= ai,
            255 * q <= si * ai,
            ai > 0,
    ;
    assert(2 * (si - u) * ai < 510 + ai) by (nonlinear_arith)
        requires
            -ai <= 2 * u * ai - 510 * q,
            si * ai < 255 * q + 255,
    ;
}

/// The ARGB form of a pixel is its straight RGBA form with alpha moved to the front.
pub proof fn argb_is_rotated_rgba(p: (u8, u8, u8, u8))
    ensures
        straight_argb(p) == (straight_rgba(p).3, straight_rgba(p).0, straight_rgba(p).1, straight_rgba(p).2),
{
}

/// Premultiplying an opaque pixel and bringing it back gives the pixel itself.
pub proof fn opaque_premultiply_round_trip(p: (u8, u8, u8, u8))
    requires
        p.3 == 255,
    ensures
        premultiplied_rgba(p) == p,
        straight_rgba(premultiplied_rgba(p)) == p,
{
    assert(p.0 * 255 / 255 == p.0) by (nonlinear_arith);
    assert(p.1 * 255 / 255 == p.1) by (nonlinear_arith);
    assert(p.2 * 255 / 255 == p.2) by (nonlinear_arith);
    opaque_and_transparent_pixels(p);
}

/// A canvas of `width` × `height` pixels.
pub open spec fn canvas_fits(data: Seq<u8>, width: u32, height: u32) -> bool {
    data.len() == 4 * (width as int) * (height as int)
}

/// Pixel (`x`, `y`) of a canvas `width` pixels wide.
pub open spec fn pixel_at(data: Seq<u8>, width: u32, x: int, y: int) -> (u8, u8, u8, u8) {
    pixel(data, y * width + x)
}

/// A colour channel `s` laid over `d` with coverage `a` out of 255.
pub open spec fn blend_channel(s: u8, d: u8, a: int) -> u8 {
    ((s * a + d * (255 - a)) / 255) as u8
}

/// `color` laid over pixel `d` with coverage `a` out of 255: the colour channels are
/// mixed, the alpha channel grows by `a`, capped at 255.
pub open spec fn blended(d: (u8, u8, u8, u8), color: [u8; 4], a: int) -> (u8, u8, u8, u8) {
    (
        blend_channel(color[0], d.0, a),
        blend_channel(color[1], d.1, a),
        blend_channel(color[2], d.2, a),
        if d.3 + a > 255 {
            255
        } else {
            (d.3 + a) as u8
        },
    )
}

proof fn lemma_cell_index(width: int, height: int, x: int, y: int)
    requires
        0 <= x < width,
        0 <= y < height,
    ensures
        0 <= y * width + x,
        y * width + x < width * height,
        4 * (y * width + x) + 4 <= 4 * width * height,
{
    assert(y * width + x < width * height) by (nonlinear_arith)
        requires
            0 <= x < width,
            0 <= y < height,
    ;
    assert(0 <= y * width) by (nonlinear_arith)
        requires
            0 <= y,
            0 <= width,
    ;
    assert(4 * width * height == 4 * (width * height)) by (nonlinear_arith);
}

proof fn lemma_cells_distinct(width: int, x1: int, y1: int, x2: int, y2: int)
    requires
        0 <= x1 < width,
        0 <= x2 < width,
        0 <= y1,
        0 <= y2,
        x1 != x2 || y1 != y2,
    ensures
        y1 * width + x1 != y2 * width + x2,
{
    if y1 == y2 {
    } else if y1 < y2 {
        assert(y1 * width + x1 < y2 * width + x2) by (nonlinear_arith)
            requires
                0 <= x1 < width,
                0 <= x2,
                y1 < y2,
        ;
    } else {
        assert(y2 * width + x2 < y1 * width + x1) by (nonlinear_arith)
            requires
                0 <= x2 < width,
                0 <= x1,
                y2 < y1,
        ;
    }
}

fn blend(s: u8, d: u8, a: u32) -> (r: u8)
    requires
        a <= 255,
    ensures
        r == blend_channel(s, d, a as int),
{
    assert(s * a + d * (255 - a) <= 255 * 255) by (nonlinear_arith)
        requires
            s <= 255,
            d <= 255,
            a <= 255,
    ;
    ((s as u32 * a + d as u32 * (255 - a)) / 255) as u8
}

/// Lays `color` over pixel (`x`, `y`) with coverage `a` out of 255; a pixel outside the
/// canvas, or no coverage, leaves the canvas as it was.
pub fn blend_pixel(data: &mut Vec<u8>, width: u32, height: u32, x: u32, y: u32, color: [u8; 4], a: u32)
    requires
        canvas_fits(old(data)@, width, height),
        a <= 255,
    ensures
        final(data)@.len() == old(data)@.len(),
        forall|px: int, py: int|
            0 <= px < width && 0 <= py < height ==> #[trigger] pixel_at(final(data)@, width, px, py)
                == if px == x && py == y && a > 0 {
                blended(pixel_at(old(data)@, width, px, py), color, a as int)
            } else {
                pixel_at(old(data)@, width, px, py)
            },
{
    if x >= width || y >= height || a == 0 {
        return;
    }
    proof {
        lemma_cell_index(width as int, height as int, x as int, y as int);
        assert(data@.len() == data.len());
        assert((y as int) * (width as int) + x < data.len());
    }
    let i = y as usize * width as usize + x as usize;
    let d = get_pixel(data, i);
    let alpha = if d.3 as u32 + a > 255 {
        255u8
    } else {
        (d.3 as u32 + a) as u8
    };
    let q = (blend(color[0], d.0, a), blend(color[1], d.1, a), blend(color[2], d.2, a), alpha);
    let ghost before = data@;
    set_pixel(data, i, q);
    proof {
        assert forall|px: int, py: int| 0 <= px < width && 0 <= py < height implies #[trigger] pixel_at(
            data@,
            width,
            px,
            py,
        ) == if px == x && py == y && a > 0 {
            blended(pixel_at(before, width, px, py), color, a as int)
        } else {
            pixel_at(before, width, px, py)
        } by {
            if px != x || py != y {
                lemma_cells_distinct(width as int, px, py, x as int, y as int);
                lemma_cell_index(width as int, height as int, px, py);
            }
        }
    }
}


/// A rendered glyph: `rows` rows of `width` coverage bytes, row `gy` starting at
/// `gy * pitch` in `buffer`.
pub struct GlyphBitmap {
    pub width: i32,
    pub rows: i32,
    pub pitch: i32,
    pub buffer: Vec<u8>,
}

/// Where the coverage of glyph cell (`gx`, `gy`) lies in the buffer.
pub open spec fn glyph_offset(g: GlyphBitmap, gx: int, gy: int) -> int {
    gy * g.pitch + gx
}

/// Every cell of the glyph lies inside its buffer, and the offsets fit in an `i32`.
pub open spec fn glyph_fits(g: GlyphBitmap) -> bool {
    &&& g.width >= 0
    &&& g.rows >= 0
    &&& forall|gx: int, gy: int|
        0 <= gx < g.width && 0 <= gy < g.rows ==> 0 <= #[trigger] glyph_offset(g, gx, gy)
            < g.buffer.len()
    &&& forall|gy: int| 0 <= gy < g.rows ==> i32::MIN <= #[trigger] (gy * g.pitch) <= i32::MAX
}

/// The coverage (out of 255) that a glyph drawn with its top-left cell at (`left`, `top`)
/// gives canvas pixel (`x`, `y`): `alpha` maps each non-zero coverage byte of the glyph to
/// how much of the colour is laid over the pixel.
pub open spec fn glyph_alpha_at(
    g: GlyphBitmap,
    left: int,
    top: int,
    alpha: Seq<u8>,
    x: int,
    y: int,
) -> int {
    let gx = x - left;
    let gy = y - top;
    if 0 <= gx < g.width && 0 <= gy < g.rows && g.buffer@[glyph_offset(g, gx, gy)] != 0 {
        alpha[g.buffer@[glyph_offset(g, gx, gy)] as int] as int
    } else {
        0
    }
}

/// What drawing the glyph leaves at a pixel that was `d` before.
pub open spec fn glyph_pixel(
    d: (u8, u8, u8, u8),
    g: GlyphBitmap,
    left: int,
    top: int,
    color: [u8; 4],
    alpha: Seq<u8>,
    x: int,
    y: int,
) -> (u8, u8, u8, u8) {
    let a = glyph_alpha_at(g, left, top, alpha, x, y);
    if a > 0 {
        blended(d, color, a)
    } else {
        d
    }
}

/// Draws glyph `g` with its top-left cell at (`left`, `top`) in `color`: every cell with
/// non-zero coverage `c` lays the colour with coverage `alpha[c]` over the canvas pixel
/// under it; cells off the canvas are dropped.
pub fn blit_glyph(
    data: &mut Vec<u8>,
    width: u32,
    height: u32,
    g: &GlyphBitmap,
    left: i32,
    top: i32,
    color: [u8; 4],
    alpha: &Vec<u8>,
)
    requires
        canvas_fits(old(data)@, width, height),
        glyph_fits(*g),
        alpha.len() == 256,
        left + g.width <= i32::MAX + 1,
        top + g.rows <= i32::MAX + 1,
    ensures
        final(data)@.len() == old(data)@.len(),
        forall|px: int, py: int|
            0 <= px < width && 0 <= py < height ==> #[trigger] pixel_at(final(data)@, width, px, py)
                == glyph_pixel(
                pixel_at(old(data)@, width, px, py),
                *g,
                left as int,
                top as int,
                color,
                alpha@,
                px,
                py,
            ),
{
    let ghost orig = data@;
    let mut gy: i32 = 0;
    while gy < g.rows
        invariant
            0 <= gy <= g.rows,
            canvas_fits(data@, width, height),
            canvas_fits(orig, width, height),
            glyph_fits(*g),
            alpha.len() == 256,
            left + g.width <= i32::MAX + 1,
            top + g.rows <= i32::MAX + 1,
            forall|px: int, py: int|
                0 <= px < width && 0 <= py < height ==> #[trigger] pixel_at(data@, width, px, py)
                    == if py - top < gy {
                    glyph_pixel(pixel_at(orig, width, px, py), *g, left as int, top as int, color, alpha@, px, py)
                } else {
                    pixel_at(orig, width, px, py)
                },
        decreases g.rows - gy,
    {
        assert(i32::MIN <= gy * g.pitch <= i32::MAX);
        let row_start = gy * g.pitch;
        let mut gx: i32 = 0;
        while gx < g.width
            invariant
                0 <= gy < g.rows,
                0 <= gx <= g.width,
                row_start == gy * g.pitch,
                canvas_fits(data@, width, height),
                canvas_fits(orig, width, height),
                glyph_fits(*g),
                alpha.len() == 256,
                left + g.width <= i32::MAX + 1,
                top + g.rows <= i32::MAX + 1,
                forall|px: int, py: int|
                    0 <= px < width && 0 <= py < height ==> #[trigger] pixel_at(data@, width, px, py)
                        == if py - top < gy || (py - top == gy && px - left < gx) {
                        glyph_pixel(pixel_at(orig, width, px, py), *g, left as int, top as int, color, alpha@, px, py)
                    } else {
                        pixel_at(orig, width, px, py)
                    },
            decreases g.width - gx,
        {
            assert(0 <= glyph_offset(*g, gx as int, gy as int) < g.buffer.len());
            let idx = (row_start as i64 + gx as i64) as usize;
            let coverage = g.buffer[idx];
            let x = left as i64 + gx as i64;
            let y = top as i64 + gy as i64;
            let ghost before = data@;
            if coverage != 0 && x >= 0 && y >= 0 && x <= u32::MAX as i64 && y <= u32::MAX as i64 {
                let a = alpha[coverage as usize];
                blend_pixel(data, width, height, x as u32, y as u32, color, a as u32);
            }
            proof {
                assert forall|px: int, py: int| 0 <= px < width && 0 <= py < height implies #[trigger] pixel_at(
                    data@,
                    width,
                    px,
                    py,
                ) == if py - top < gy || (py - top == gy && px - left < gx + 1) {
                    glyph_pixel(pixel_at(orig, width, px, py), *g, left as int, top as int, color, alpha@, px, py)
                } else {
                    pixel_at(orig, width, px, py)
                } by {
                    assert(pixel_at(before, width, px, py) == if py - top < gy || (py - top == gy
                        && px - left < gx) {
                        glyph_pixel(pixel_at(orig, width, px, py), *g, left as int, top as int, color, alpha@, px, py)
                    } else {
                        pixel_at(orig, width, px, py)
                    });
                    if px == x && py == y {
                        assert(glyph_alpha_at(*g, left as int, top as int, alpha@, px, py) == if coverage
                            != 0 {
                            alpha@[coverage as int] as int
                        } else {
                            0
                        });
                    }
                }
            }
            gx += 1;
        }
        gy += 1;
    }
    proof {
        assert forall|px: int, py: int| 0 <= px < width && 0 <= py < height implies #[trigger] pixel_at(
            data@,
            width,
            px,
            py,
        ) == glyph_pixel(pixel_at(orig, width, px, py), *g, left as int, top as int, color, alpha@, px, py) by {
            if !(py - top < gy) {
                assert(glyph_alpha_at(*g, left as int, top as int, alpha@, px, py) == 0);
            }
        }
    }
}

} // verus!
