//! Bitmaps: decoded pixel buffers, the DIB layout (BITMAPINFOHEADER and pixel rows) and the BMP file header.

use vstd::prelude::*;
use crate::bytes_le::{le_u16, le_u32, u32_le, u16_le, read_u16_le, read_u32_le, push_u32_le, push_u16_le};
use crate::error::{ClipboardError, ClipboardResult, decode_error};

verus! {

/// How the bytes of a decoded image hold its pixels.
#[derive(Debug, Clone, Copy, PartialEq, Eq, Structural)]
pub enum PixelLayout {
    /// Four bytes per pixel: red, green, blue, alpha.
    Rgba8,
    /// Three bytes per pixel: red, green, blue.
    Rgb8,
}

/// A decoded image: rows from the top, pixels from the left, 8 bits per channel.
#[derive(Debug, Clone)]
pub struct PixelImage {
    /// Width in pixels.
    pub width: u32,
    /// Height in pixels.
    pub height: u32,
    /// The channels of each pixel.
    pub layout: PixelLayout,
    /// The pixel bytes, row after row.
    pub pixels: Vec<u8>,
}

/// A decoded image as a value: width, height, layout and pixel bytes.
pub type ImageView = (u32, u32, PixelLayout, Seq<u8>);

impl View for PixelImage {
    type V = ImageView;

    open spec fn view(&self) -> ImageView {
        (self.width, self.height, self.layout, self.pixels@)
    }
}

/// The bytes per pixel of a layout.
pub open spec fn channels(l: PixelLayout) -> nat {
    match l {
        PixelLayout::Rgba8 => 4,
        PixelLayout::Rgb8 => 3,
    }
}

/// The pixel bytes are exactly as many as the dimensions and layout ask.
pub open spec fn image_wf(v: ImageView) -> bool {
    v.3.len() == v.0 * v.1 * channels(v.2)
}

impl PixelImage {
    /// The pixel bytes are exactly as many as the dimensions and layout ask.
    pub open spec fn wf(&self) -> bool {
        image_wf(self@)
    }
}

/// A 32-bit field read as a signed value, made absolute.
pub open spec fn abs_i32(v: int) -> nat {
    if v >= 0x8000_0000 {
        (0x1_0000_0000 - v) as nat
    } else {
        v as nat
    }
}

/// A 32-bit field read as a signed value is negative.
pub open spec fn neg_i32(v: int) -> bool {
    v >= 0x8000_0000
}

/// Where the channel `c` of an RGBA pixel sits in a BGRA pixel, and back.
pub open spec fn swap_rb(c: int) -> int {
    if c == 0 {
        2
    } else if c == 2 {
        0
    } else {
        c
    }
}

/// The byte of 32-bit pixel data that gives byte `i` of the decoded RGBA pixels.
pub open spec fn src32(i: int, w: int, h: int, top_down: bool) -> int {
    let p = i / 4;
    let q = if top_down {
        p
    } else {
        (h - 1 - p / w) * w + p % w
    };
    q * 4 + swap_rb(i % 4)
}

/// RGBA pixels from BGRA pixel data of `w × h` pixels, rows top-down or bottom-up.
pub open spec fn rgba_from_bgra(src: Seq<u8>, w: nat, h: nat, top_down: bool) -> Seq<u8> {
    Seq::new(w * h * 4, |i: int| src[src32(i, w as int, h as int, top_down)])
}

/// The length of a 24-bit pixel row, padded to four bytes.
pub open spec fn row24(w: nat) -> nat {
    (w * 3 + 3) / 4 * 4
}

/// The byte of 24-bit pixel data that gives byte `i` of the decoded RGB pixels.
pub open spec fn src24(i: int, w: int, h: int, top_down: bool) -> int {
    let p = i / 3;
    let y = p / w;
    let ry = if top_down {
        y
    } else {
        h - 1 - y
    };
    ry * row24(w as nat) + (p % w) * 3 + swap_rb(i % 3)
}

/// RGB pixels from padded BGR rows of `w × h` pixels, rows top-down or bottom-up.
pub open spec fn rgb_from_bgr(src: Seq<u8>, w: nat, h: nat, top_down: bool) -> Seq<u8> {
    Seq::new(w * h * 3, |i: int| src[src24(i, w as int, h as int, top_down)])
}

/// The image that a DIB holds, or `None` where it cannot be decoded.
pub open spec fn dib_decode(b: Seq<u8>) -> Option<ImageView> {
    if b.len() < 40 || le_u32(b, 0) < 40 || le_u32(b, 0) >= b.len() {
        None
    } else {
        let w = abs_i32(le_u32(b, 4));
        let h = abs_i32(le_u32(b, 8));
        let td = neg_i32(le_u32(b, 8));
        let src = b.skip(le_u32(b, 0));
        if le_u16(b, 14) == 32 {
            if src.len() < w * h * 4 {
                None
            } else {
                Some((w as u32, h as u32, PixelLayout::Rgba8, rgba_from_bgra(src, w, h, td)))
            }
        } else if le_u16(b, 14) == 24 {
            if src.len() < row24(w) * h {
                None
            } else {
                Some((w as u32, h as u32, PixelLayout::Rgb8, rgb_from_bgr(src, w, h, td)))
            }
        } else {
            None
        }
    }
}

proof fn lemma_pixel_in_bounds(ry: int, x: int, w: int, h: int)
    requires
        0 <= ry < h,
        0 <= x < w,
    ensures
        ry * w + x < h * w,
        0 <= ry * w + x,
{
    assert(ry * w + x < h * w) by (nonlinear_arith)
        requires
            0 <= ry < h,
            0 <= x < w,
    ;
    assert(0 <= ry * w) by (nonlinear_arith)
        requires
            0 <= ry,
            0 <= w,
    ;
}

proof fn lemma_row24_bounds(ry: int, x: int, w: int, h: int)
    requires
        0 <= ry < h,
        0 <= x < w,
    ensures
        0 <= ry * row24(w as nat) + x * 3,
        ry * row24(w as nat) + x * 3 + 2 < row24(w as nat) * h,
{
    let rs = row24(w as nat) as int;
    assert(rs >= w * 3);
    assert(ry * rs + rs <= rs * h) by (nonlinear_arith)
        requires
            0 <= ry < h,
            rs >= 0,
    ;
    assert(0 <= ry * rs) by (nonlinear_arith)
        requires
            0 <= ry,
            rs >= 0,
    ;
}

/// Converts `w × h` BGRA pixels at `b[off..]` to RGBA.
fn convert_32bit_dib(b: &[u8], off: usize, width: u32, height: u32, top_down: bool) -> (r:
    ClipboardResult<PixelImage>)
    requires
        off <= b@.len(),
    ensures
        b@.len() - off < width * height * 4 ==> r matches Err(ClipboardError::ImageDecode(_)),
        b@.len() - off >= width * height * 4 ==> (r matches Ok(img) && img@ == (
            width,
            height,
            PixelLayout::Rgba8,
            rgba_from_bgra(b@.skip(off as int), width as nat, height as nat, top_down),
        )),
{
    let w = width as usize;
    let h = height as usize;
    let avail = b.len() - off;
    let total: usize = match w.checked_mul(h) {
        Some(t) => t,
        None => {
            assert(w * h * 4 > avail) by (nonlinear_arith)
                requires
                    w * h > usize::MAX,
                    avail <= usize::MAX,
            ;
            return Err(decode_error("insufficient pixel data"));
        },
    };
    if total > avail / 4 {
        return Err(decode_error("insufficient pixel data"));
    }
    let ghost src = b@.skip(off as int);
    let ghost full = rgba_from_bgra(src, width as nat, height as nat, top_down);
    let mut out: Vec<u8> = Vec::new();
    let mut k: usize = 0;
    while k < total
        invariant
            total == w * h,
            w == width,
            h == height,
            total * 4 <= avail,
            off <= b.len(),
            avail == b.len() - off,
            src == b@.skip(off as int),
            full == rgba_from_bgra(src, width as nat, height as nat, top_down),
            k <= total,
            out@ == full.take(4 * k),
        decreases total - k,
    {
        let y = k / w;
        let x = k % w;
        proof {
            vstd::arithmetic::div_mod::lemma_fundamental_div_mod(k as int, w as int);
            assert(y < h) by (nonlinear_arith)
                requires
                    k < w * h,
                    y == k / w,
                    w > 0,
            ;
        }
        let row_y = if top_down {
            y
        } else {
            h - 1 - y
        };
        proof {
            lemma_pixel_in_bounds(row_y as int, x as int, w as int, h as int);
        }
        let q = row_y * w + x;
        let po = off + q * 4;
        proof {
            assert(k == w * y + x);
            assert(top_down ==> q == k) by (nonlinear_arith)
                requires
                    k == w * y + x,
                    top_down ==> row_y == y,
                    q == row_y * w + x,
            ;
            assert forall|c: int| 0 <= c < 4 implies #[trigger] src32(4 * k + c, w as int, h as int, top_down)
                == q * 4 + swap_rb(c) by {
                assert((4 * k + c) / 4 == k);
                assert((4 * k + c) % 4 == c);
            }
        }
        let ghost before = out@;
        out.push(b[po + 2]);
        out.push(b[po + 1]);
        out.push(b[po]);
        out.push(b[po + 3]);
        proof {
            assert(full[4 * k + 0] == src[q * 4 + 2]);
            assert(full[4 * k + 1] == src[q * 4 + 1]);
            assert(full[4 * k + 2] == src[q * 4 + 0]);
            assert(full[4 * k + 3] == src[q * 4 + 3]);
            assert(out@ =~= full.take(4 * k + 4));
        }
        k = k + 1;
    }
    assert(full.take(4 * k) =~= full);
    Ok(PixelImage { width, height, layout: PixelLayout::Rgba8, pixels: out })
}

/// Converts `w × h` BGR pixels in rows padded to four bytes at `b[off..]` to RGB.
fn convert_24bit_dib(b: &[u8], off: usize, width: u32, height: u32, top_down: bool) -> (r:
    ClipboardResult<PixelImage>)
    requires
        off <= b@.len(),
    ensures
        b@.len() - off < row24(width as nat) * height ==> r matches Err(
            ClipboardError::ImageDecode(_),
        ),
        b@.len() - off >= row24(width as nat) * height ==> (r matches Ok(img) && img@ == (
            width,
            height,
            PixelLayout::Rgb8,
            rgb_from_bgr(b@.skip(off as int), width as nat, height as nat, top_down),
        )),
{
    let w = width as usize;
    let h = height as usize;
    let avail = b.len() - off;
    let row_size64: u64 = ((width as u64) * 3 + 3) / 4 * 4;
    assert(row_size64 == row24(w as nat));
    let expected64: u64 = match row_size64.checked_mul(height as u64) {
        Some(t) => t,
        None => {
            return Err(decode_error("insufficient pixel data"));
        },
    };
    if expected64 > avail as u64 {
        return Err(decode_error("insufficient pixel data"));
    }
    let expected = expected64 as usize;
    if h == 0 {
        assert((width as nat) * (height as nat) * 3 == 0) by (nonlinear_arith)
            requires
                height == 0,
        ;
        assert(rgb_from_bgr(b@.skip(off as int), width as nat, height as nat, top_down) =~= Seq::<
            u8,
        >::empty());
        return Ok(PixelImage { width, height, layout: PixelLayout::Rgb8, pixels: Vec::new() });
    }
    assert(row_size64 <= expected64) by (nonlinear_arith)
        requires
            expected64 == row_size64 * h,
            h >= 1,
    ;
    let row_size = row_size64 as usize;
    assert(row_size >= w * 3);
    assert(w * h <= expected) by (nonlinear_arith)
        requires
            expected == row_size * h,
            row_size >= w * 3,
    ;
    let total: usize = w * h;
    assert(total <= expected) by (nonlinear_arith)
        requires
            total == w * h,
            expected == row_size * h,
            row_size >= w * 3,
    ;
    let ghost src = b@.skip(off as int);
    let ghost full = rgb_from_bgr(src, width as nat, height as nat, top_down);
    let mut out: Vec<u8> = Vec::new();
    let mut k: usize = 0;
    while k < total
        invariant
            total == w * h,
            w == width,
            h == height,
            row_size == row24(w as nat),
            expected == row_size * h,
            expected <= avail,
            off <= b.len(),
            avail == b.len() - off,
            src == b@.skip(off as int),
            full == rgb_from_bgr(src, width as nat, height as nat, top_down),
            k <= total,
            out@ == full.take(3 * k),
        decreases total - k,
    {
        let y = k / w;
        let x = k % w;
        proof {
            vstd::arithmetic::div_mod::lemma_fundamental_div_mod(k as int, w as int);
            assert(y < h) by (nonlinear_arith)
                requires
                    k < w * h,
                    y == k / w,
                    w > 0,
            ;
        }
        let row_y = if top_down {
            y
        } else {
            h - 1 - y
        };
        proof {
            lemma_row24_bounds(row_y as int, x as int, w as int, h as int);
        }
        let q = row_y * row_size + x * 3;
        let po = off + q;
        proof {
            assert forall|c: int| 0 <= c < 3 implies #[trigger] src24(3 * k + c, w as int, h as int, top_down)
                == q + swap_rb(c) by {
                assert((3 * k + c) / 3 == k);
                assert((3 * k + c) % 3 == c);
            }
        }
        out.push(b[po + 2]);
        out.push(b[po + 1]);
        out.push(b[po]);
        proof {
            assert(full[3 * k + 0] == src[q + 2]);
            assert(full[3 * k + 1] == src[q + 1]);
            assert(full[3 * k + 2] == src[q + 0]);
            assert(out@ =~= full.take(3 * k + 3));
        }
        k = k + 1;
    }
    assert(full.take(3 * k) =~= full);
    Ok(PixelImage { width, height, layout: PixelLayout::Rgb8, pixels: out })
}

fn abs_field(v: u32) -> (r: u32)
    ensures
        r as nat == abs_i32(v as int),
{
    if v >= 0x8000_0000 {
        if v == 0x8000_0000 {
            0x8000_0000
        } else {
            (0x1_0000_0000u64 - v as u64) as u32
        }
    } else {
        v
    }
}

/// Decodes a DIB: a BITMAPINFOHEADER, then 32-bit BGRA or 24-bit padded BGR rows.
pub fn parse_dib_to_image(dib_data: &[u8]) -> (r: ClipboardResult<PixelImage>)
    ensures
        match dib_decode(dib_data@) {
            Some(v) => r matches Ok(img) && img@ == v,
            None => r matches Err(ClipboardError::ImageDecode(_)),
        },
{
    if dib_data.len() < 40 {
        return Err(decode_error("DIB too small"));
    }
    let bi_size = read_u32_le(dib_data, 0);
    if bi_size < 40 {
        return Err(decode_error("invalid DIB header size"));
    }
    let width = abs_field(read_u32_le(dib_data, 4));
    let height_raw = read_u32_le(dib_data, 8);
    let height = abs_field(height_raw);
    let top_down = height_raw >= 0x8000_0000;
    let bit_count = read_u16_le(dib_data, 14);
    let header_size = bi_size as usize;
    if header_size >= dib_data.len() {
        return Err(decode_error("DIB header larger than data"));
    }
    if bit_count == 32 {
        convert_32bit_dib(dib_data, header_size, width, height, top_down)
    } else if bit_count == 24 {
        convert_24bit_dib(dib_data, header_size, width, height, top_down)
    } else {
        Err(decode_error("unsupported DIB bit depth"))
    }
}

/// The pixels of an image as RGBA, adding an opaque alpha to RGB pixels.
pub open spec fn rgba_of(v: ImageView) -> Seq<u8> {
    match v.2 {
        PixelLayout::Rgba8 => v.3,
        PixelLayout::Rgb8 => Seq::new(
            (v.0 * v.1 * 4) as nat,
            |i: int|
                if i % 4 == 3 {
                    255u8
                } else {
                    v.3[(i / 4) * 3 + i % 4]
                },
        ),
    }
}

/// BGRA pixels from RGBA pixels.
pub open spec fn bgra_of(rgba: Seq<u8>) -> Seq<u8> {
    Seq::new(rgba.len(), |i: int| rgba[(i / 4) * 4 + swap_rb(i % 4)])
}

/// The width field written for a width: the width, capped at `i32::MAX`.
pub open spec fn width_field(w: nat) -> int {
    if w <= 0x7FFF_FFFF {
        w as int
    } else {
        0x7FFF_FFFF
    }
}

/// The height field written for a height: the negated height (top-down rows), capped at `i32::MAX`.
pub open spec fn height_field(h: nat) -> int {
    let c = if h <= 0x7FFF_FFFF {
        h as int
    } else {
        0x7FFF_FFFF
    };
    if c == 0 {
        0
    } else {
        0x1_0000_0000 - c
    }
}

/// `w * h * 4`, saturated at `u32::MAX`.
pub open spec fn image_size_field(w: nat, h: nat) -> int {
    if w * h * 4 <= 0xFFFF_FFFF {
        (w * h * 4) as int
    } else {
        0xFFFF_FFFF
    }
}

/// The BITMAPINFOHEADER written for a `w × h` image: 32 bits per pixel, rows top-down.
pub open spec fn dib_header(w: nat, h: nat) -> Seq<u8> {
    u32_le(40) + u32_le(width_field(w)) + u32_le(height_field(h)) + u16_le(1) + u16_le(32)
        + u32_le(0) + u32_le(image_size_field(w, h)) + u32_le(0) + u32_le(0) + u32_le(0)
        + u32_le(0)
}

/// The DIB of an image: the header, then BGRA pixels without row padding.
pub open spec fn dib_encode(v: ImageView) -> Seq<u8> {
    dib_header(v.0 as nat, v.1 as nat) + bgra_of(rgba_of(v))
}

/// `w * h * 4`, saturated at `u32::MAX`.
fn image_size_of(w: u32, h: u32) -> (r: u32)
    ensures
        r == image_size_field(w as nat, h as nat),
{
    assert((w as u64) * (h as u64) <= u64::MAX) by (nonlinear_arith)
        requires
            w <= u32::MAX,
            h <= u32::MAX,
    ;
    let prod: u64 = (w as u64) * (h as u64);
    if prod > 0x3FFF_FFFF {
        0xFFFF_FFFF
    } else {
        (prod * 4) as u32
    }
}

/// Encodes an image as a 32-bit top-down DIB.
pub fn create_dib_from_image(image: &PixelImage) -> (r: Vec<u8>)
    requires
        image.wf(),
    ensures
        r@ == dib_encode(image@),
{
    let w = image.width;
    let h = image.height;
    let mut dib: Vec<u8> = Vec::new();
    push_u32_le(&mut dib, 40);
    let wf: u32 = if w <= 0x7FFF_FFFF {
        w
    } else {
        0x7FFF_FFFF
    };
    let hc: u32 = if h <= 0x7FFF_FFFF {
        h
    } else {
        0x7FFF_FFFF
    };
    let hf: u32 = if hc == 0 {
        0
    } else {
        (0x1_0000_0000u64 - hc as u64) as u32
    };
    push_u32_le(&mut dib, wf);
    push_u32_le(&mut dib, hf);
    push_u16_le(&mut dib, 1);
    push_u16_le(&mut dib, 32);
    push_u32_le(&mut dib, 0);
    let image_size = image_size_of(w, h);
    push_u32_le(&mut dib, image_size);
    push_u32_le(&mut dib, 0);
    push_u32_le(&mut dib, 0);
    push_u32_le(&mut dib, 0);
    push_u32_le(&mut dib, 0);
    let ghost head = dib@;
    assert(head == dib_header(w as nat, h as nat));
    let ghost rgba = rgba_of(image@);
    let ghost full = bgra_of(rgba);
    let px = &image.pixels;
    let total: usize = px.len() / (if image.layout == PixelLayout::Rgba8 {
        4
    } else {
        3
    });
    assert(total == w * h) by (nonlinear_arith)
        requires
            px@.len() == w * h * channels(image.layout),
            total == px@.len() as int / channels(image.layout) as int,
            channels(image.layout) > 0,
    ;
    let plen = px.len();
    let mut k: usize = 0;
    while k < total
        invariant
            total == w * h,
            plen == px@.len(),
            image.wf(),
            w == image.width,
            h == image.height,
            px == &image.pixels,
            rgba == rgba_of(image@),
            full == bgra_of(rgba),
            rgba.len() == total * 4,
            px@.len() == total * channels(image.layout),
            k <= total,
            dib@ == head + full.take(4 * k),
        decreases total - k,
    {
        assert(channels(image.layout) * k + channels(image.layout) <= px@.len()) by (nonlinear_arith)
            requires
                k < total,
                px@.len() == total * channels(image.layout),
        ;
        if image.layout == PixelLayout::Rgba8 {
            let p = 4 * k;
            dib.push(px[p + 2]);
            dib.push(px[p + 1]);
            dib.push(px[p]);
            dib.push(px[p + 3]);
        } else {
            let p = 3 * k;
            dib.push(px[p + 2]);
            dib.push(px[p + 1]);
            dib.push(px[p]);
            dib.push(255u8);
            proof {
                assert(rgba[4 * k + 0] == px@[3 * k + 0]);
                assert(rgba[4 * k + 1] == px@[3 * k + 1]);
                assert(rgba[4 * k + 2] == px@[3 * k + 2]);
                assert(rgba[4 * k + 3] == 255);
            }
        }
        proof {
            assert(full[4 * k + 0] == rgba[4 * k + 2]);
            assert(full[4 * k + 1] == rgba[4 * k + 1]);
            assert(full[4 * k + 2] == rgba[4 * k + 0]);
            assert(full[4 * k + 3] == rgba[4 * k + 3]);
            assert(dib@ =~= head + full.take(4 * k + 4));
        }
        k = k + 1;
    }
    assert(full.take(4 * k) =~= full);
    dib
}

/// The width and height of a DIB, read from its header without decoding the pixels.
pub fn dib_dimensions(dib_data: &[u8]) -> (r: ClipboardResult<(u32, u32)>)
    ensures
        dib_data@.len() < 12 ==> r matches Err(ClipboardError::ImageDecode(_)),
        dib_data@.len() >= 12 ==> r == Ok::<(u32, u32), ClipboardError>(
            (abs_i32(le_u32(dib_data@, 4)) as u32, abs_i32(le_u32(dib_data@, 8)) as u32),
        ),
{
    if dib_data.len() < 12 {
        return Err(decode_error("DIB too small"));
    }
    let width = abs_field(read_u32_le(dib_data, 4));
    let height = abs_field(read_u32_le(dib_data, 8));
    Ok((width, height))
}

/// The DIB inside a BMP file: everything after the 14-byte file header.
pub fn bmp_to_dib(bmp_data: &[u8]) -> (r: ClipboardResult<Vec<u8>>)
    ensures
        bmp_data@.len() < 14 || bmp_data@[0] != 66 || bmp_data@[1] != 77 ==> r matches Err(
            ClipboardError::ImageDecode(_),
        ),
        bmp_data@.len() >= 14 && bmp_data@[0] == 66 && bmp_data@[1] == 77 ==> (r matches Ok(v)
            && v@ == bmp_data@.skip(14)),
{
    if bmp_data.len() < 14 {
        return Err(decode_error("BMP file too small"));
    }
    if bmp_data[0] != 66 || bmp_data[1] != 77 {
        return Err(decode_error("invalid BMP signature"));
    }
    let mut out: Vec<u8> = Vec::new();
    let mut i: usize = 14;
    while i < bmp_data.len()
        invariant
            14 <= i <= bmp_data@.len(),
            out@ == bmp_data@.subrange(14, i as int),
        decreases bmp_data@.len() - i,
    {
        out.push(bmp_data[i]);
        i = i + 1;
        assert(out@ =~= bmp_data@.subrange(14, i as int));
    }
    assert(out@ =~= bmp_data@.skip(14));
    Ok(out)
}

/// The BMP file of a DIB: signature, file size, reserved words, pixel offset, then the DIB.
pub open spec fn bmp_bytes(dib: Seq<u8>) -> Seq<u8> {
    seq![66u8, 77u8] + u32_le(14 + dib.len() as int) + u16_le(0) + u16_le(0) + u32_le(14 + le_u32(dib, 0))
        + dib
}

/// Wraps a DIB in a BMP file header; the pixel offset is the file header plus the DIB's header size.
pub fn dib_to_bmp(dib_data: &[u8]) -> (r: ClipboardResult<Vec<u8>>)
    ensures
        dib_data@.len() < 40 || 14 + dib_data@.len() > u32::MAX || 14 + le_u32(dib_data@, 0)
            > u32::MAX ==> r matches Err(ClipboardError::ImageDecode(_)),
        dib_data@.len() >= 40 && 14 + dib_data@.len() <= u32::MAX && 14 + le_u32(dib_data@, 0)
            <= u32::MAX ==> (r matches Ok(v) && v@ == bmp_bytes(dib_data@)),
{
    if dib_data.len() < 40 {
        return Err(decode_error("DIB too small"));
    }
    if dib_data.len() > 0xFFFF_FFFF - 14 {
        return Err(decode_error("DIB too large"));
    }
    let header_size = read_u32_le(dib_data, 0);
    if header_size > 0xFFFF_FFFF - 14 {
        return Err(decode_error("DIB header size out of range"));
    }
    let file_size = (14 + dib_data.len()) as u32;
    let mut bmp: Vec<u8> = Vec::new();
    bmp.push(66u8);
    bmp.push(77u8);
    push_u32_le(&mut bmp, file_size);
    push_u16_le(&mut bmp, 0);
    push_u16_le(&mut bmp, 0);
    push_u32_le(&mut bmp, 14 + header_size);
    crate::bytes_le::push_bytes(&mut bmp, dib_data);
    assert(bmp@ =~= bmp_bytes(dib_data@));
    Ok(bmp)
}

/// The encoded image formats read and written through the image library.
#[derive(Debug, Clone, Copy, PartialEq, Eq, Structural)]
pub enum ImageKind {
    Png,
    Jpeg,
    Gif,
}

/// What the image library decodes from bytes of a given format: width, height and RGBA pixels.
pub uninterp spec fn decoded_as(data: Seq<u8>, kind: ImageKind) -> Option<(u32, u32, Seq<u8>)>;

/// What the image library decodes from bytes whose format it guesses: width, height and RGBA pixels.
pub uninterp spec fn decoded_any(data: Seq<u8>) -> Option<(u32, u32, Seq<u8>)>;

/// What the image library encodes an image to in a given format.
pub uninterp spec fn encoded_as(image: ImageView, kind: ImageKind) -> Option<Seq<u8>>;

/// The image of a decoded result, with RGBA pixels.
pub open spec fn rgba_image(d: (u32, u32, Seq<u8>)) -> ImageView {
    (d.0, d.1, PixelLayout::Rgba8, d.2)
}

/// Relies on `image::load_from_memory_with_format` and `DynamicImage::to_rgba8`:
/// the decoded image as RGBA, `width * height * 4` bytes, or the library's error message.
#[verifier::external_body]
fn load_image(data: &[u8], kind: ImageKind) -> (r: Result<PixelImage, String>)
    ensures
        r is Ok <==> decoded_as(data@, kind) is Some,
        r matches Ok(img) ==> img@ == rgba_image(decoded_as(data@, kind)->0) && img.wf(),
{
    let format = match kind {
        ImageKind::Png => image::ImageFormat::Png,
        ImageKind::Jpeg => image::ImageFormat::Jpeg,
        ImageKind::Gif => image::ImageFormat::Gif,
    };
    let rgba = image::load_from_memory_with_format(data, format).map_err(|e| e.to_string())?.to_rgba8();
    Ok(PixelImage { width: rgba.width(), height: rgba.height(), layout: PixelLayout::Rgba8, pixels: rgba.into_raw() })
}

/// Relies on `image::load_from_memory` and `DynamicImage::to_rgba8`:
/// the decoded image as RGBA, `width * height * 4` bytes, or the library's error message.
#[verifier::external_body]
fn load_any_image(data: &[u8]) -> (r: Result<PixelImage, String>)
    ensures
        r is Ok <==> decoded_any(data@) is Some,
        r matches Ok(img) ==> img@ == rgba_image(decoded_any(data@)->0) && img.wf(),
{
    let rgba = image::load_from_memory(data).map_err(|e| e.to_string())?.to_rgba8();
    Ok(PixelImage { width: rgba.width(), height: rgba.height(), layout: PixelLayout::Rgba8, pixels: rgba.into_raw() })
}

/// Relies on `DynamicImage::write_to`: the image encoded in the given format, or the library's error message.
#[verifier::external_body]
fn encode_image(img: &PixelImage, kind: ImageKind) -> (r: Result<Vec<u8>, String>)
    requires
        img.wf(),
    ensures
        r is Ok <==> encoded_as(img@, kind) is Some,
        r matches Ok(v) ==> v@ == encoded_as(img@, kind)->0,
{
    let (w, h, px) = (img.width, img.height, img.pixels.clone());
    let dynamic = match img.layout {
        PixelLayout::Rgba8 => image::RgbaImage::from_raw(w, h, px).map(image::DynamicImage::ImageRgba8),
        PixelLayout::Rgb8 => image::RgbImage::from_raw(w, h, px).map(image::DynamicImage::ImageRgb8),
    };
    let format = match kind {
        ImageKind::Png => image::ImageFormat::Png,
        ImageKind::Jpeg => image::ImageFormat::Jpeg,
        ImageKind::Gif => image::ImageFormat::Gif,
    };
    let mut out = Vec::new();
    dynamic.ok_or_else(String::new)?.write_to(&mut std::io::Cursor::new(&mut out), format).map_err(|e| e.to_string())?;
    Ok(out)
}

/// Decodes bytes of the given format and encodes the image as a DIB.
pub fn image_to_dib(data: &[u8], kind: ImageKind) -> (r: ClipboardResult<Vec<u8>>)
    ensures
        match decoded_as(data@, kind) {
            Some(d) => r matches Ok(v) && v@ == dib_encode(rgba_image(d)),
            None => r matches Err(ClipboardError::ImageDecode(_)),
        },
{
    match load_image(data, kind) {
        Ok(img) => Ok(create_dib_from_image(&img)),
        Err(msg) => Err(ClipboardError::ImageDecode(msg)),
    }
}

/// Converts PNG data to a DIB.
pub fn png_to_dib(png_data: &[u8]) -> (r: ClipboardResult<Vec<u8>>)
    ensures
        match decoded_as(png_data@, ImageKind::Png) {
            Some(d) => r matches Ok(v) && v@ == dib_encode(rgba_image(d)),
            None => r matches Err(ClipboardError::ImageDecode(_)),
        },
{
    image_to_dib(png_data, ImageKind::Png)
}

/// Converts JPEG data to a DIB.
pub fn jpeg_to_dib(jpeg_data: &[u8]) -> (r: ClipboardResult<Vec<u8>>)
    ensures
        match decoded_as(jpeg_data@, ImageKind::Jpeg) {
            Some(d) => r matches Ok(v) && v@ == dib_encode(rgba_image(d)),
            None => r matches Err(ClipboardError::ImageDecode(_)),
        },
{
    image_to_dib(jpeg_data, ImageKind::Jpeg)
}

/// Converts GIF data to a DIB; only the first frame is kept.
pub fn gif_to_dib(gif_data: &[u8]) -> (r: ClipboardResult<Vec<u8>>)
    ensures
        match decoded_as(gif_data@, ImageKind::Gif) {
            Some(d) => r matches Ok(v) && v@ == dib_encode(rgba_image(d)),
            None => r matches Err(ClipboardError::ImageDecode(_)),
        },
{
    image_to_dib(gif_data, ImageKind::Gif)
}

/// Converts image data of any format the image library recognises to a DIB.
pub fn any_to_dib(data: &[u8]) -> (r: ClipboardResult<Vec<u8>>)
    ensures
        match decoded_any(data@) {
            Some(d) => r matches Ok(v) && v@ == dib_encode(rgba_image(d)),
            None => r matches Err(ClipboardError::ImageDecode(_)),
        },
{
    match load_any_image(data) {
        Ok(img) => Ok(create_dib_from_image(&img)),
        Err(msg) => Err(ClipboardError::ImageDecode(msg)),
    }
}

/// Decodes a DIB and encodes the image in the given format.
pub fn dib_to_image(dib_data: &[u8], kind: ImageKind) -> (r: ClipboardResult<Vec<u8>>)
    ensures
        match dib_decode(dib_data@) {
            None => r matches Err(ClipboardError::ImageDecode(_)),
            Some(v) => match encoded_as(v, kind) {
                Some(e) => r matches Ok(out) && out@ == e,
                None => r matches Err(ClipboardError::ImageEncode(_)),
            },
        },
{
    let img = match parse_dib_to_image(dib_data) {
        Ok(img) => img,
        Err(e) => {
            return Err(e);
        },
    };
    proof {
        assert(image_wf(img@));
    }
    match encode_image(&img, kind) {
        Ok(v) => Ok(v),
        Err(msg) => Err(ClipboardError::ImageEncode(msg)),
    }
}

/// Converts a DIB to PNG.
pub fn dib_to_png(dib_data: &[u8]) -> (r: ClipboardResult<Vec<u8>>)
    ensures
        match dib_decode(dib_data@) {
            None => r matches Err(ClipboardError::ImageDecode(_)),
            Some(v) => match encoded_as(v, ImageKind::Png) {
                Some(e) => r matches Ok(out) && out@ == e,
                None => r matches Err(ClipboardError::ImageEncode(_)),
            },
        },
{
    dib_to_image(dib_data, ImageKind::Png)
}

/// Converts a DIB to JPEG.
pub fn dib_to_jpeg(dib_data: &[u8]) -> (r: ClipboardResult<Vec<u8>>)
    ensures
        match dib_decode(dib_data@) {
            None => r matches Err(ClipboardError::ImageDecode(_)),
            Some(v) => match encoded_as(v, ImageKind::Jpeg) {
                Some(e) => r matches Ok(out) && out@ == e,
                None => r matches Err(ClipboardError::ImageEncode(_)),
            },
        },
{
    dib_to_image(dib_data, ImageKind::Jpeg)
}

} // verus!
