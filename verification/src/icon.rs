//! The tray icon: colours, the temperature label, the layout and the encoded image.
use vstd::prelude::*;

use crate::pixels::{lemma_maps_pixels_unique, map_pixels, maps_pixels, straight_argb, straight_rgba};
use crate::pixels::{rgba_premul_to_argb_straight, unpremultiply_to_rgba};
use crate::text::{decimal, push_char, push_decimal};

verus! {

/// Space kept around the usage ring, in pixels.
pub const DONUT_PADDING: u32 = 2;

/// The free part of the usage ring.
pub const COLOR_FREE: [u8; 4] = [0x66, 0xb3, 0xff, 0xff];

/// Usage below 70 percent.
pub const COLOR_OK: [u8; 4] = [0x99, 0xff, 0x99, 0xff];

/// First warning level.
pub const COLOR_WARN1: [u8; 4] = [0xff, 0xdb, 0x4d, 0xff];

/// Second warning level.
pub const COLOR_WARN2: [u8; 4] = [0xff, 0xcc, 0x99, 0xff];

/// Highest level.
pub const COLOR_HIGH: [u8; 4] = [0xff, 0x66, 0x66, 0xff];

/// Text while connected.
pub const COLOR_TEXT: [u8; 4] = [0xff, 0xff, 0xff, 0xff];

/// Text while the backend is unreachable.
pub const COLOR_DISCONNECTED_TEXT: [u8; 4] = [0xaa, 0xaa, 0xaa, 0xff];

/// The free part of the ring while the backend is unreachable.
pub const COLOR_DISCONNECTED_FREE: [u8; 4] = [0x80, 0x80, 0x80, 0xff];

/// The used part of the ring while the backend is unreachable.
pub const COLOR_DISCONNECTED_USED: [u8; 4] = [0x60, 0x60, 0x60, 0xff];

/// From this temperature (°C) on, the label is drawn in the first warning colour.
pub const TEMP_WARN_LOW: u32 = 60;

/// From this temperature (°C) on, the label is drawn in the highest colour.
pub const TEMP_WARN_HIGH: u32 = 80;

/// The colour of the temperature label for `temp` °C.
pub open spec fn temp_color(temp: u32) -> [u8; 4] {
    if temp >= TEMP_WARN_HIGH {
        COLOR_HIGH
    } else if temp >= TEMP_WARN_LOW {
        COLOR_WARN1
    } else {
        COLOR_TEXT
    }
}

/// Colour of the temperature label: below 60 °C white, from 60 °C yellow, from 80 °C red.
pub fn temp_label_color(temp: u32) -> (r: [u8; 4])
    ensures
        r == temp_color(temp),
{
    if temp >= TEMP_WARN_HIGH {
        COLOR_HIGH
    } else if temp >= TEMP_WARN_LOW {
        COLOR_WARN1
    } else {
        COLOR_TEXT
    }
}

/// The colour of the text that is not the temperature (the percentage in the ring).
pub fn neutral_color(connected: bool) -> (r: [u8; 4])
    ensures
        r == if connected {
            COLOR_TEXT
        } else {
            COLOR_DISCONNECTED_TEXT
        },
{
    if connected {
        COLOR_TEXT
    } else {
        COLOR_DISCONNECTED_TEXT
    }
}

/// The colour of the temperature label: grey while disconnected, else by temperature,
/// white when there is none.
pub fn label_color(connected: bool, temp: Option<u32>) -> (r: [u8; 4])
    ensures
        r == if !connected {
            COLOR_DISCONNECTED_TEXT
        } else {
            match temp {
                Some(t) => temp_color(t),
                None => COLOR_TEXT,
            }
        },
{
    if !connected {
        neutral_color(connected)
    } else {
        match temp {
            Some(t) => temp_label_color(t),
            None => COLOR_TEXT,
        }
    }
}

/// The colour of the free part of the usage ring.
pub fn donut_free_color(connected: bool) -> (r: [u8; 4])
    ensures
        r == if connected {
            COLOR_FREE
        } else {
            COLOR_DISCONNECTED_FREE
        },
{
    if connected {
        COLOR_FREE
    } else {
        COLOR_DISCONNECTED_FREE
    }
}

/// `s` padded with spaces on the left to at least `width` characters.
pub open spec fn pad_left(s: Seq<char>, width: nat) -> Seq<char> {
    if s.len() >= width {
        s
    } else {
        Seq::new((width - s.len()) as nat, |i: int| ' ') + s
    }
}

/// The temperature label: the whole degrees right-aligned in two places, then `"ºC"`;
/// `" --ºC"` where there is no temperature.
pub open spec fn temp_label_text(temp: Option<u32>) -> Seq<char> {
    match temp {
        Some(t) => pad_left(decimal(t as nat), 2) + seq!['\u{ba}', 'C'],
        None => seq![' ', '-', '-', '\u{ba}', 'C'],
    }
}

/// The text of the temperature label.
pub fn temp_label(temp: Option<u32>) -> (r: String)
    ensures
        r@ == temp_label_text(temp),
{
    let mut s = String::new();
    match temp {
        Some(t) => {
            if t < 10 {
                push_char(&mut s, ' ');
            }
            push_decimal(&mut s, t as u64);
            proof {
                if t < 10 {
                    assert(decimal(t as nat).len() == 1);
                    assert(Seq::new(1, |i: int| ' ') =~= seq![' ']);
                } else {
                    assert(decimal(t as nat) == decimal((t / 10) as nat).push(
                        crate::text::digit_char((t % 10) as nat),
                    ));
                    lemma_decimal_len(t as nat / 10);
                }
            }
        },
        None => {
            push_char(&mut s, ' ');
            push_char(&mut s, '-');
            push_char(&mut s, '-');
        },
    }
    push_char(&mut s, '\u{ba}');
    push_char(&mut s, 'C');
    assert(s@ =~= temp_label_text(temp));
    s
}

/// A temperature below 100 °C always makes a label four characters wide, so the ring
/// beside it does not move as the temperature changes.
pub proof fn temp_label_keeps_its_width(t: u32)
    ensures
        t < 100 ==> temp_label_text(Some(t)).len() == 4,
{
    if t < 100 {
        if t >= 10 {
            lemma_decimal_len((t / 10) as nat);
            assert((t / 10) < 10);
            assert(decimal((t / 10) as nat).len() == 1);
            assert(decimal(t as nat).len() == 2);
        } else {
            assert(decimal(t as nat).len() == 1);
        }
    }
}

proof fn lemma_decimal_len(n: nat)
    ensures
        decimal(n).len() >= 1,
    decreases n,
{
    if n >= 10 {
        lemma_decimal_len(n / 10);
    }
}

/// Where the parts of the icon go, in pixels.
#[derive(Clone, Copy, Debug, PartialEq, Eq)]
pub struct IconLayout {
    /// Side of the usage ring.
    pub donut_size: u32,
    /// Left edge of the temperature label.
    pub text_x: u32,
    /// Left edge of the usage ring.
    pub donut_x: u32,
    /// Width of the whole icon.
    pub width: u32,
}

/// Side of the usage ring for an icon `height` pixels high: the height less the padding
/// on both sides, at least 8.
pub open spec fn donut_side(height: u32) -> int {
    let s = if height >= 2 * DONUT_PADDING {
        height - 2 * DONUT_PADDING
    } else {
        0
    };
    if s >= 8 {
        s
    } else {
        8
    }
}

/// Lays out an icon `height` pixels high: the CPU picture (`icon_w` wide), 2 pixels, the
/// label (`text_w` wide), 2 pixels, the ring; the icon is at least as wide as it is high.
pub fn icon_layout(height: u32, icon_w: u32, text_w: u32) -> (r: IconLayout)
    requires
        icon_w + 2 + text_w + 2 + donut_side(height) <= u32::MAX,
    ensures
        r.donut_size == donut_side(height),
        r.text_x == icon_w + 2,
        r.donut_x == icon_w + 2 + text_w + 2,
        r.width == if r.donut_x + r.donut_size >= height {
            r.donut_x + r.donut_size
        } else {
            height as int
        },
{
    let donut_size = height.saturating_sub(DONUT_PADDING * 2);
    let donut_size = if donut_size >= 8 {
        donut_size
    } else {
        8
    };
    let total = icon_w + 2 + text_w + 2 + donut_size;
    IconLayout {
        donut_size,
        text_x: icon_w + 2,
        donut_x: icon_w + 2 + text_w + 2,
        width: if total >= height {
            total
        } else {
            height
        },
    }
}

/// Half of `d`, rounded toward zero (`i32` division).
pub open spec fn trunc_half(d: int) -> int {
    if d >= 0 {
        d / 2
    } else {
        -((-d) / 2)
    }
}

/// Vertical position of the CPU picture, centred in the icon: computed in `i32`, the two
/// heights converted with `as i32` (wrapping), the difference halved toward zero.
pub fn icon_top(height: u32, picture_height: u32) -> (r: i32)
    requires
        i32::MIN <= (height as i32) - (picture_height as i32) <= i32::MAX,
    ensures
        r == trunc_half((height as i32) - (picture_height as i32)),
{
    let d = height as i32 - picture_height as i32;
    d / 2
}

/// The horizontal advances of glyphs, in 26.6 fixed point, summed in whole pixels
/// (each shifted right by 6).
pub open spec fn advance_sum(advances: Seq<i64>) -> int
    decreases advances.len(),
{
    if advances.len() == 0 {
        0
    } else {
        advance_sum(advances.drop_last()) + advances.last() / 64
    }
}

/// Width of a text from the advances of its glyphs: the sum of the whole pixels, 0 where
/// it is negative, then taken as a `u32` (`i64 as u32`).
pub fn text_width_from_advances(advances: &Vec<i64>) -> (r: u32)
    requires
        forall|k: int|
            0 <= k <= advances.len() ==> i64::MIN <= #[trigger] advance_sum(advances@.take(k))
                <= i64::MAX,
    ensures
        r == (if advance_sum(advances@) < 0 {
            0
        } else {
            advance_sum(advances@)
        }) as i64 as u32,
{
    let mut width: i64 = 0;
    let mut i: usize = 0;
    assert(advances@.take(0) =~= Seq::<i64>::empty());
    while i < advances.len()
        invariant
            i <= advances.len(),
            forall|k: int|
                0 <= k <= advances.len() ==> i64::MIN <= #[trigger] advance_sum(advances@.take(k))
                    <= i64::MAX,
            width == advance_sum(advances@.take(i as int)),
        decreases advances.len() - i,
    {
        let a = advances[i];
        let shifted = a >> 6;
        assert(shifted == a / 64) by (bit_vector)
            requires
                shifted == a >> 6,
        ;
        proof {
            let t = advances@.take(i + 1);
            assert(t.drop_last() =~= advances@.take(i as int));
            assert(t.last() == a);
            assert(i64::MIN <= advance_sum(t) <= i64::MAX);
        }
        width = width + shifted;
        i += 1;
    }
    assert(advances@.take(advances.len() as int) =~= advances@);
    let w = if width < 0 {
        0
    } else {
        width
    };
    w as u32
}

/// An icon as the tray panel takes it: straight ARGB32 bytes, alpha first.
pub struct RenderedIcon {
    pub width: i32,
    pub height: i32,
    /// Bytes in `ARGB32` (network byte order: A, R, G, B per pixel).
    pub argb: Vec<u8>,
}

impl RenderedIcon {
    /// The icon made of a premultiplied RGBA canvas of `width` × `height` pixels.
    pub fn from_premultiplied(width: u32, height: u32, rgba: &[u8]) -> (r: RenderedIcon)
        ensures
            r.width == width as i32,
            r.height == height as i32,
            maps_pixels(rgba@, r.argb@, |p: (u8, u8, u8, u8)| straight_argb(p)),
    {
        RenderedIcon {
            width: width as i32,
            height: height as i32,
            argb: rgba_premul_to_argb_straight(rgba),
        }
    }
}

/// Why no PNG came out.
#[derive(Clone, Copy, Debug, PartialEq, Eq)]
pub enum RenderError {
    /// The canvas holds fewer bytes than its width and height call for.
    CanvasTooSmall,
    /// The PNG encoder failed.
    Encoding,
}

#[verifier::external_type_specification]
#[verifier::external_body]
pub struct ExImageError(image::ImageError);

/// The PNG file that the `image` crate writes for `width` × `height` straight RGBA pixels.
pub uninterp spec fn png_encoding(width: u32, height: u32, rgba: Seq<u8>) -> Seq<u8>;

/// `image::write_buffer_with_format` in PNG format into an in-memory cursor (what
/// `ImageBuffer::write_to` calls with the image's bytes). Claimed: on success the bytes
/// written are `png_encoding` of the arguments; it fails exactly where the width or the
/// height is zero (the `png` encoder refuses those sizes; with the buffer length fixed by
/// `requires`, RGBA8 input and an in-memory writer it has no other error).
#[verifier::external_body]
fn write_png(width: u32, height: u32, rgba: &Vec<u8>) -> (r: Result<Vec<u8>, image::ImageError>)
    requires
        rgba.len() == 4 * (width as int) * (height as int),
    ensures
        r matches Ok(b) ==> b@ == png_encoding(width, height, rgba@),
        width == 0 || height == 0 ==> r is Err,
        width > 0 && height > 0 ==> r is Ok,
{
    let mut out = std::io::Cursor::new(Vec::new());
    image::write_buffer_with_format(
        &mut out,
        rgba.as_slice(),
        width,
        height,
        image::ExtendedColorType::Rgba8,
        image::ImageFormat::Png,
    ).map(|()| out.into_inner())
}

/// Encodes a premultiplied RGBA canvas of `width` × `height` pixels as a PNG of straight
/// RGBA: `CanvasTooSmall` where the canvas holds fewer than `4 * width * height` bytes,
/// `Encoding` where it is large enough but has no pixels (the encoder refuses a zero
/// width or height), and otherwise the PNG of its first `4 * width * height` bytes
/// brought back to straight alpha.
pub fn encode_icon_png(width: u32, height: u32, rgba: &[u8]) -> (r: Result<Vec<u8>, RenderError>)
    ensures
        4 * (width as int) * (height as int) > rgba.len() ==> r == Err::<Vec<u8>, RenderError>(
            RenderError::CanvasTooSmall,
        ),
        4 * (width as int) * (height as int) <= rgba.len() && (width == 0 || height == 0) ==> r
            == Err::<Vec<u8>, RenderError>(RenderError::Encoding),
        4 * (width as int) * (height as int) <= rgba.len() && width > 0 && height > 0 ==> (
        r matches Ok(b) && b@ == png_encoding(
            width,
            height,
            map_pixels(rgba@, |p: (u8, u8, u8, u8)| straight_rgba(p)).take(
                4 * (width as int) * (height as int),
            ),
        )),
{
    let ghost need = 4 * (width as int) * (height as int);
    let w = width as u64;
    let h = height as u64;
    assert(w * h <= 0xffff_ffff * 0xffff_ffff) by (nonlinear_arith)
        requires
            w <= 0xffff_ffff,
            h <= 0xffff_ffff,
    ;
    let area = w * h;
    assert(4 * (width as int) * (height as int) == 4 * area) by (nonlinear_arith)
        requires
            area == w * h,
            w == width,
            h == height,
    ;
    if area > rgba.len() as u64 / 4 {
        return Err(RenderError::CanvasTooSmall);
    }
    if area * 4 > rgba.len() as u64 {
        return Err(RenderError::CanvasTooSmall);
    }
    let n = (area * 4) as usize;
    let mut straight = unpremultiply_to_rgba(rgba);
    proof {
        lemma_maps_pixels_unique(rgba@, straight@, |p: (u8, u8, u8, u8)| straight_rgba(p));
    }
    straight.truncate(n);
    match write_png(width, height, &straight) {
        Ok(b) => Ok(b),
        Err(_) => Err(RenderError::Encoding),
    }
}

} // verus!
