//! Device-independent bitmaps as the clipboard hands them out: a header
//! (legacy or extended) followed by uncompressed bottom-up or top-down rows.

use crate::codec::{bytes_view, encode_png, png_encoding, png_signed};
use vstd::arithmetic::div_mod::{
    lemma_div_denominator, lemma_fundamental_div_mod, lemma_fundamental_div_mod_converse,
    lemma_mod_pos_bound, lemma_small_mod,
};
use vstd::prelude::*;

verus! {

/// Largest width or height a bitmap header may declare.
pub const MAX_DIMENSION: i32 = 10000;

/// The two header layouts: they differ only in their minimum size.
#[derive(Clone, Copy, Debug, PartialEq, Eq)]
pub enum DibVariant {
    Legacy,
    V5,
}

impl DibVariant {
    pub open spec fn min_header_spec(self) -> nat {
        match self {
            DibVariant::Legacy => 40,
            DibVariant::V5 => 124,
        }
    }

    pub fn min_header(&self) -> (r: usize)
        ensures
            r == self.min_header_spec(),
    {
        match self {
            DibVariant::Legacy => 40,
            DibVariant::V5 => 124,
        }
    }
}

/// A top-down, row-major grid of RGB (or RGBA) bytes.
pub struct PixelGrid {
    pub width: u32,
    pub height: u32,
    pub alpha: bool,
    pub data: Vec<u8>,
}

pub open spec fn le_u16(b: Seq<u8>, at: int) -> int {
    b[at] as int + 256 * b[at + 1] as int
}

pub open spec fn le_u32(b: Seq<u8>, at: int) -> int {
    le_u16(b, at) + 65536 * le_u16(b, at + 2)
}

pub open spec fn le_i32(b: Seq<u8>, at: int) -> int {
    let u = le_u32(b, at);
    if u >= 0x8000_0000 {
        u - 0x1_0000_0000
    } else {
        u
    }
}

/// The header's own size: the pixel rows start at this offset.
pub open spec fn header_size(b: Seq<u8>) -> int {
    le_u32(b, 0)
}

pub open spec fn dib_width(b: Seq<u8>) -> int {
    le_i32(b, 4)
}

/// Signed height: positive for bottom-up rows, negative for top-down.
pub open spec fn dib_height(b: Seq<u8>) -> int {
    le_i32(b, 8)
}

pub open spec fn bit_count(b: Seq<u8>) -> int {
    le_u16(b, 14)
}

pub open spec fn compression(b: Seq<u8>) -> int {
    le_u32(b, 16)
}

pub open spec fn abs_height(b: Seq<u8>) -> int {
    if dib_height(b) < 0 {
        -dib_height(b)
    } else {
        dib_height(b)
    }
}

pub open spec fn pixel_bytes(b: Seq<u8>) -> int {
    bit_count(b) / 8
}

pub open spec fn has_alpha(b: Seq<u8>) -> bool {
    bit_count(b) == 32
}

pub open spec fn channels(alpha: bool) -> int {
    if alpha {
        4
    } else {
        3
    }
}

/// Rows are padded to a multiple of four bytes.
pub open spec fn row_stride(width: int, bpp: int) -> int {
    (width * bpp + 3) / 4 * 4
}

pub open spec fn stride_of(b: Seq<u8>) -> int {
    row_stride(dib_width(b), pixel_bytes(b))
}

/// The buffer holds a supported bitmap whose rows all lie inside it.
pub open spec fn dib_accepts(b: Seq<u8>, v: DibVariant) -> bool {
    &&& b.len() >= v.min_header_spec()
    &&& header_size(b) >= v.min_header_spec()
    &&& 0 < dib_width(b) <= MAX_DIMENSION
    &&& dib_height(b) != 0
    &&& abs_height(b) <= MAX_DIMENSION
    &&& compression(b) == 0
    &&& (bit_count(b) == 24 || bit_count(b) == 32)
    &&& header_size(b) + stride_of(b) * abs_height(b) <= b.len()
}

/// The stored row that holds output row `y`.
pub open spec fn source_row(height: int, y: int) -> int {
    if height > 0 {
        height - 1 - y
    } else {
        y
    }
}

/// Where channel `c` (red, green, blue, alpha) of output pixel (x, y) is
/// stored: pixels are kept as blue, green, red and then alpha.
pub open spec fn source_index(b: Seq<u8>, x: int, y: int, c: int) -> int {
    header_size(b) + source_row(dib_height(b), y) * stride_of(b) + x * pixel_bytes(b) + (if c
        < 3 {
        2 - c
    } else {
        3
    })
}

/// Byte `i` of the decoded grid.
pub open spec fn grid_byte(b: Seq<u8>, i: int) -> u8 {
    let ch = channels(has_alpha(b));
    let w = dib_width(b);
    b[source_index(b, (i % (w * ch)) / ch, i / (w * ch), i % ch)]
}

/// The decoded grid: top-down rows of RGB or RGBA bytes.
pub open spec fn decoded_pixels(b: Seq<u8>) -> Seq<u8> {
    Seq::new(
        (dib_width(b) * abs_height(b) * channels(has_alpha(b))) as nat,
        |i: int| grid_byte(b, i),
    )
}

proof fn lemma_index_decompose(w: int, ch: int, x: int, y: int, c: int)
    requires
        0 <= x < w,
        0 <= y,
        0 <= c < ch,
    ensures
        ((y * w + x) * ch + c) / (w * ch) == y,
        (((y * w + x) * ch + c) % (w * ch)) / ch == x,
        ((y * w + x) * ch + c) % ch == c,
{
    let i = (y * w + x) * ch + c;
    assert((y * w + x) * ch + c == y * (w * ch) + (x * ch + c)) by (nonlinear_arith);
    assert(x * ch + c < w * ch) by (nonlinear_arith)
        requires
            0 <= x < w,
            0 <= c < ch,
    ;
    assert(0 <= x * ch) by (nonlinear_arith)
        requires
            0 <= x,
            0 <= ch,
    ;
    lemma_fundamental_div_mod_converse(i, w * ch, y, x * ch + c);
    lemma_fundamental_div_mod_converse(x * ch + c, ch, x, c);
    assert(i == (y * w + x) * ch + c);
    assert(0 <= y * w + x) by (nonlinear_arith)
        requires
            0 <= x,
            0 <= y,
            0 <= w,
    ;
    lemma_fundamental_div_mod_converse(i, ch, y * w + x, c);
}

proof fn lemma_source_in_bounds(b: Seq<u8>, v: DibVariant, x: int, y: int, c: int)
    requires
        dib_accepts(b, v),
        0 <= x < dib_width(b),
        0 <= y < abs_height(b),
        0 <= c < channels(has_alpha(b)),
    ensures
        0 <= source_index(b, x, y, c) < b.len(),
{
    let w = dib_width(b);
    let bpp = pixel_bytes(b);
    let s = stride_of(b);
    let h = abs_height(b);
    let r = source_row(dib_height(b), y);
    assert(0 <= r < h);
    assert(w * bpp <= s) by (nonlinear_arith)
        requires
            s == (w * bpp + 3) / 4 * 4,
    ;
    assert(x * bpp + bpp <= w * bpp) by (nonlinear_arith)
        requires
            x < w,
            0 <= bpp,
    ;
    assert(0 <= x * bpp) by (nonlinear_arith)
        requires
            0 <= x,
            0 <= bpp,
    ;
    assert(0 <= r * s && r * s + s <= h * s) by (nonlinear_arith)
        requires
            0 <= r < h,
            0 <= s,
    ;
}

fn read_u16(b: &[u8], at: usize) -> (r: u16)
    requires
        at + 2 <= b.len(),
    ensures
        r == le_u16(b@, at as int),
{
    b[at] as u16 + 256 * (b[at + 1] as u16)
}

fn read_u32(b: &[u8], at: usize) -> (r: u32)
    requires
        at + 4 <= b.len(),
    ensures
        r == le_u32(b@, at as int),
{
    b[at] as u32 + 256 * (b[at + 1] as u32) + 65536 * (b[at + 2] as u32) + 16777216 * (b[at
        + 3] as u32)
}

fn read_i32(b: &[u8], at: usize) -> (r: i32)
    requires
        at + 4 <= b.len(),
    ensures
        r == le_i32(b@, at as int),
{
    let u = read_u32(b, at);
    if u >= 0x8000_0000 {
        (u as i64 - 0x1_0000_0000i64) as i32
    } else {
        u as i32
    }
}

/// Reads the bitmap in `buf` into a top-down grid. `None` exactly when the
/// header is too short, declares an unsupported or oversized image, or its
/// rows would run past the end of the buffer.
pub fn decode_pixels(buf: &[u8], variant: DibVariant) -> (r: Option<PixelGrid>)
    ensures
        r.is_some() == dib_accepts(buf@, variant),
        r matches Some(g) ==> {
            &&& g.width == dib_width(buf@)
            &&& g.height == abs_height(buf@)
            &&& g.alpha == has_alpha(buf@)
            &&& g.data@ == decoded_pixels(buf@)
        },
{
    let min = variant.min_header();
    if buf.len() < min {
        return None;
    }
    let hs = read_u32(buf, 0);
    if (hs as u64) < (min as u64) {
        return None;
    }
    let width = read_i32(buf, 4);
    let height = read_i32(buf, 8);
    let bits = read_u16(buf, 14);
    let comp = read_u32(buf, 16);
    if width <= 0 || height == 0 || bits == 0 || width > MAX_DIMENSION || height
        > MAX_DIMENSION || height < -MAX_DIMENSION {
        return None;
    }
    if comp != 0 {
        return None;
    }
    if bits != 24 && bits != 32 {
        return None;
    }
    let bpp: usize = (bits / 8) as usize;
    let w: usize = width as usize;
    let h: usize = if height > 0 {
        height as usize
    } else {
        (-(height as i64)) as usize
    };
    assert(w * bpp <= 40000) by (nonlinear_arith)
        requires
            w <= 10000,
            bpp <= 4,
    ;
    let stride: usize = (w * bpp + 3) / 4 * 4;
    assert(stride * h <= 40004 * 10000) by (nonlinear_arith)
        requires
            stride <= 40004,
            h <= 10000,
    ;
    if (hs as u64) + (stride as u64) * (h as u64) > buf.len() as u64 {
        return None;
    }
    let alpha = bits == 32;
    let ch: usize = if alpha {
        4
    } else {
        3
    };
    let ghost b = buf@;
    assert(dib_accepts(b, variant));
    assert(stride == stride_of(b));
    assert(ch == channels(has_alpha(b)));
    let base = hs as usize;
    let mut data: Vec<u8> = Vec::new();
    let mut y: usize = 0;
    while y < h
        invariant
            dib_accepts(b, variant),
            b == buf@,
            w == dib_width(b),
            h == abs_height(b),
            bpp == pixel_bytes(b),
            stride == stride_of(b),
            base == header_size(b),
            ch == channels(has_alpha(b)),
            alpha == has_alpha(b),
            height == dib_height(b),
            y <= h,
            data.len() == y * w * ch,
            forall|i: int| 0 <= i < data.len() ==> data@[i] == grid_byte(b, i),
        decreases h - y,
    {
        let row: usize = if height > 0 {
            h - 1 - y
        } else {
            y
        };
        assert(row == source_row(dib_height(b), y as int));
        proof {
            assert(row * stride + stride <= h * stride) by (nonlinear_arith)
                requires
                    row < h,
            ;
            assert(data.len() == (y * w + 0) * ch) by (nonlinear_arith)
                requires
                    data.len() == y * w * ch,
            ;
        }
        assert(h * stride + base <= buf.len());
        assert(w * bpp <= stride) by (nonlinear_arith)
            requires
                stride == (w * bpp + 3) / 4 * 4,
        ;
        let row_start = base + row * stride;
        let mut x: usize = 0;
        while x < w
            invariant
                dib_accepts(b, variant),
                b == buf@,
                w == dib_width(b),
                h == abs_height(b),
                bpp == pixel_bytes(b),
                stride == stride_of(b),
                base == header_size(b),
                ch == channels(has_alpha(b)),
                alpha == has_alpha(b),
                height == dib_height(b),
                y < h,
                row == source_row(dib_height(b), y as int),
                row_start == base + row * stride,
                row_start + stride <= buf.len(),
                w * bpp <= stride,
                x <= w,
                data.len() == (y * w + x) * ch,
                forall|i: int| 0 <= i < data.len() ==> data@[i] == grid_byte(b, i),
            decreases w - x,
        {
            let ghost n = data.len() as int;
            proof {
                lemma_source_in_bounds(b, variant, x as int, y as int, 0);
                lemma_source_in_bounds(b, variant, x as int, y as int, 2);
                lemma_index_decompose(w as int, ch as int, x as int, y as int, 0);
                lemma_index_decompose(w as int, ch as int, x as int, y as int, 1);
                lemma_index_decompose(w as int, ch as int, x as int, y as int, 2);
                assert(source_index(b, x as int, y as int, 0) == row_start + x * bpp + 2);
                assert(source_index(b, x as int, y as int, 2) == row_start + x * bpp);
                assert(0 <= x * bpp) by (nonlinear_arith);
                if alpha {
                    lemma_source_in_bounds(b, variant, x as int, y as int, 3);
                    assert(source_index(b, x as int, y as int, 3) == row_start + x * bpp + 3);
                    lemma_index_decompose(w as int, ch as int, x as int, y as int, 3);
                }
            }
            assert(x * bpp + bpp <= w * bpp) by (nonlinear_arith)
                requires
                    x < w,
            ;
            let p = row_start + x * bpp;
            data.push(buf[p + 2]);
            data.push(buf[p + 1]);
            data.push(buf[p]);
            if alpha {
                data.push(buf[p + 3]);
            }
            proof {
                assert((y * w + (x + 1)) * ch == (y * w + x) * ch + ch) by (nonlinear_arith);
                assert forall|i: int| 0 <= i < data.len() implies data@[i] == grid_byte(b, i) by {
                    if i >= n {
                        assert(i == (y * w + x) * ch + (i - n));
                    }
                }
            }
            x = x + 1;
        }
        proof {
            assert((y + 1) * w * ch == (y * w + w) * ch) by (nonlinear_arith);
        }
        y = y + 1;
    }
    proof {
        assert(h * w * ch == w * h * ch) by (nonlinear_arith);
        assert(data@ =~= decoded_pixels(b));
    }
    Some(PixelGrid { width: w as u32, height: h as u32, alpha, data })
}

/// The PNG that a clipboard bitmap becomes, where it is accepted and the
/// encoder succeeds.
pub open spec fn dib_result(b: Seq<u8>, v: DibVariant) -> Option<Seq<u8>> {
    if dib_accepts(b, v) {
        png_encoding(decoded_pixels(b), dib_width(b) as u32, abs_height(b) as u32, has_alpha(b))
    } else {
        None
    }
}

/// Decodes a clipboard bitmap and encodes it as PNG (with alpha for 32-bit
/// pixels). `None` when the bitmap is refused or the encoder fails.
pub fn decode_dib(buf: &[u8], variant: DibVariant) -> (r: Option<Vec<u8>>)
    ensures
        bytes_view(r) == dib_result(buf@, variant),
        r matches Some(v) ==> png_signed(v@),
{
    match decode_pixels(buf, variant) {
        None => None,
        Some(grid) => {
            proof {
                assert(grid.data.len() == grid.width as int * grid.height as int * (if grid.alpha {
                    4int
                } else {
                    3int
                }));
            }
            let r = encode_png(grid.data.as_slice(), grid.width, grid.height, grid.alpha);
            r
        },
    }
}

/// A bitmap with the legacy 40-byte header.
pub fn extract_image_from_dib(buf: &[u8]) -> (r: Option<Vec<u8>>)
    ensures
        bytes_view(r) == dib_result(buf@, DibVariant::Legacy),
        r matches Some(v) ==> png_signed(v@),
{
    decode_dib(buf, DibVariant::Legacy)
}

/// A bitmap with the extended 124-byte header.
pub fn extract_image_from_dibv5(buf: &[u8]) -> (r: Option<Vec<u8>>)
    ensures
        bytes_view(r) == dib_result(buf@, DibVariant::V5),
        r matches Some(v) ==> png_signed(v@),
{
    decode_dib(buf, DibVariant::V5)
}

/// A buffer shorter than the header, a compressed bitmap, or one wider or
/// taller than the bound is refused: no image, and no byte past the header
/// fields is read.
pub proof fn lemma_refused_bitmaps(b: Seq<u8>, v: DibVariant)
    requires
        b.len() < v.min_header_spec() || compression(b) != 0 || dib_width(b) > MAX_DIMENSION
            || abs_height(b) > MAX_DIMENSION,
    ensures
        !dib_accepts(b, v),
        dib_result(b, v) is None,
{
}

/// Byte `k` (lowest first) of the 32-bit little-endian form of `v`.
pub open spec fn le_byte(v: int, k: int) -> u8 {
    (if k == 0 {
        v % 256
    } else if k == 1 {
        (v / 256) % 256
    } else if k == 2 {
        (v / 65536) % 256
    } else {
        (v / 16777216) % 256
    }) as u8
}

/// The 32-bit two's complement form of `v`.
pub open spec fn as_u32(v: int) -> int {
    if v < 0 {
        v + 0x1_0000_0000
    } else {
        v
    }
}

/// Byte `i` of an uncompressed header of `hs` bytes.
pub open spec fn header_byte(hs: int, width: int, height: int, bits: int, i: int) -> u8 {
    if 0 <= i < 4 {
        le_byte(hs, i)
    } else if 4 <= i < 8 {
        le_byte(width, i - 4)
    } else if 8 <= i < 12 {
        le_byte(as_u32(height), i - 8)
    } else if 14 <= i < 16 {
        le_byte(bits, i - 14)
    } else {
        0
    }
}

/// A grid of RGB (or RGBA) bytes laid out as a clipboard bitmap with the
/// smallest header of `v`: bottom-up for positive `height`, top-down for
/// negative, rows padded with zeros.
pub open spec fn dib_image(
    v: DibVariant,
    width: int,
    height: int,
    alpha: bool,
    pixels: Seq<u8>,
) -> Seq<u8> {
    let hs = v.min_header_spec() as int;
    let ch = channels(alpha);
    let stride = row_stride(width, ch);
    let h = if height < 0 {
        -height
    } else {
        height
    };
    Seq::new(
        (hs + stride * h) as nat,
        |i: int|
            if i < hs {
                header_byte(hs, width, height, ch * 8, i)
            } else {
                let q = i - hs;
                let col = q % stride;
                let x = col / ch;
                let k = col % ch;
                if x < width {
                    pixels[(source_row(height, q / stride) * width + x) * ch + (if k < 3 {
                        2 - k
                    } else {
                        3
                    })]
                } else {
                    0
                }
            },
    )
}

proof fn lemma_le_bytes(v: int)
    requires
        0 <= v < 0x1_0000_0000,
    ensures
        le_byte(v, 0) as int + 256 * le_byte(v, 1) as int + 65536 * le_byte(v, 2) as int + 16777216
            * le_byte(v, 3) as int == v,
{
    lemma_fundamental_div_mod(v, 256);
    lemma_mod_pos_bound(v, 256);
    let a = v / 256;
    assert(a >= 0);
    lemma_fundamental_div_mod(a, 256);
    lemma_mod_pos_bound(a, 256);
    lemma_div_denominator(v, 256, 256);
    let b = v / 65536;
    assert(b >= 0);
    lemma_fundamental_div_mod(b, 256);
    lemma_mod_pos_bound(b, 256);
    lemma_div_denominator(v, 65536, 256);
    let c = v / 16777216;
    assert(0 <= c < 256);
    lemma_small_mod(c as nat, 256);
}

pub open spec fn grid_fits(width: int, height: int, alpha: bool, pixels: Seq<u8>) -> bool {
    &&& 0 < width <= MAX_DIMENSION
    &&& height != 0
    &&& -MAX_DIMENSION <= height <= MAX_DIMENSION
    &&& pixels.len() == width * (if height < 0 {
        -height
    } else {
        height
    }) * channels(alpha)
}

proof fn lemma_dib_header(v: DibVariant, width: int, height: int, alpha: bool, pixels: Seq<u8>)
    requires
        grid_fits(width, height, alpha, pixels),
    ensures
        ({
            let b = dib_image(v, width, height, alpha, pixels);
            &&& dib_accepts(b, v)
            &&& header_size(b) == v.min_header_spec()
            &&& dib_width(b) == width
            &&& dib_height(b) == height
            &&& has_alpha(b) == alpha
            &&& pixel_bytes(b) == channels(alpha)
            &&& stride_of(b) == row_stride(width, channels(alpha))
        }),
{
    let b = dib_image(v, width, height, alpha, pixels);
    let hs = v.min_header_spec() as int;
    let ch = channels(alpha);
    let stride = row_stride(width, ch);
    let h = if height < 0 {
        -height
    } else {
        height
    };
    assert(0 <= stride * h) by (nonlinear_arith)
        requires
            0 <= stride,
            0 <= h,
    ;
    lemma_le_bytes(hs);
    lemma_le_bytes(width);
    lemma_le_bytes(as_u32(height));
    lemma_le_bytes(ch * 8);
    assert(header_size(b) == hs);
    assert(le_u32(b, 4) == width);
    assert(le_u32(b, 8) == as_u32(height));
    assert(dib_height(b) == height);
    assert(bit_count(b) == ch * 8);
    assert(compression(b) == 0);
    assert(abs_height(b) == h);
}

proof fn lemma_dib_pixel(
    v: DibVariant,
    width: int,
    height: int,
    alpha: bool,
    pixels: Seq<u8>,
    i: int,
)
    requires
        grid_fits(width, height, alpha, pixels),
        0 <= i < pixels.len(),
    ensures
        grid_byte(dib_image(v, width, height, alpha, pixels), i) == pixels[i],
{
    let b = dib_image(v, width, height, alpha, pixels);
    lemma_dib_header(v, width, height, alpha, pixels);
    let hs = v.min_header_spec() as int;
    let ch = channels(alpha);
    let stride = row_stride(width, ch);
    let h = abs_height(b);
    assert(width * ch <= stride) by (nonlinear_arith)
        requires
            stride == (width * ch + 3) / 4 * 4,
    ;
    let wc = width * ch;
    assert(wc > 0) by (nonlinear_arith)
        requires
            wc == width * ch,
            width > 0,
            ch > 0,
    ;
    lemma_fundamental_div_mod(i, wc);
    lemma_mod_pos_bound(i, wc);
    let y = i / wc;
    let rem = i % wc;
    lemma_fundamental_div_mod(rem, ch);
    lemma_mod_pos_bound(rem, ch);
    let x = rem / ch;
    let c = rem % ch;
    assert(0 <= y < h) by (nonlinear_arith)
        requires
            i == wc * y + rem,
            0 <= rem < wc,
            0 <= i < width * h * ch,
            wc == width * ch,
            wc > 0,
    ;
    assert(0 <= x < width) by (nonlinear_arith)
        requires
            rem == ch * x + c,
            0 <= c < ch,
            0 <= rem < width * ch,
            ch > 0,
    ;
    assert(i == (y * width + x) * ch + c) by (nonlinear_arith)
        requires
            i == wc * y + rem,
            rem == ch * x + c,
            wc == width * ch,
    ;
    let sr = source_row(height, y);
    let off = if c < 3 {
        2 - c
    } else {
        3
    };
    let q = sr * stride + x * ch + off;
    assert(0 <= x * ch + off < stride) by (nonlinear_arith)
        requires
            0 <= x < width,
            0 <= off < ch,
            width * ch <= stride,
    ;
    assert(0 <= sr * stride && sr * stride + stride <= h * stride) by (nonlinear_arith)
        requires
            0 <= sr < h,
            0 <= stride,
    ;
    lemma_fundamental_div_mod_converse(q, stride, sr, x * ch + off);
    lemma_fundamental_div_mod_converse(x * ch + off, ch, x, off);
    assert(source_index(b, x, y, c) == hs + q);
    assert(source_row(height, sr) == y);
    assert(q / stride == sr);
    assert(q % stride == x * ch + off);
    assert((x * ch + off) / ch == x);
    assert((x * ch + off) % ch == off);
    assert((if off < 3 {
        2 - off
    } else {
        3
    }) == c);
    assert(h * stride == stride * h) by (nonlinear_arith);
    assert(hs + q < b.len());
    assert(b[hs + q] == pixels[(source_row(height, sr) * width + x) * ch + c]);
    lemma_fundamental_div_mod_converse(i, ch, y * width + x, c);
    assert(i % ch == c);
    assert(grid_byte(b, i) == b[source_index(b, x, y, c)]);
}

/// Laying a grid out as a bitmap and decoding it gives the grid back, for
/// both row orders, both pixel sizes and both header layouts.
pub proof fn lemma_dib_round_trip(
    v: DibVariant,
    width: int,
    height: int,
    alpha: bool,
    pixels: Seq<u8>,
)
    requires
        grid_fits(width, height, alpha, pixels),
    ensures
        ({
            let b = dib_image(v, width, height, alpha, pixels);
            &&& dib_accepts(b, v)
            &&& dib_width(b) == width
            &&& dib_height(b) == height
            &&& has_alpha(b) == alpha
            &&& decoded_pixels(b) == pixels
        }),
{
    let b = dib_image(v, width, height, alpha, pixels);
    lemma_dib_header(v, width, height, alpha, pixels);
    let d = decoded_pixels(b);
    assert(abs_height(b) * width * channels(alpha) == width * abs_height(b) * channels(alpha))
        by (nonlinear_arith);
    assert forall|i: int| 0 <= i < pixels.len() implies d[i] == pixels[i] by {
        lemma_dib_pixel(v, width, height, alpha, pixels, i);
    }
    assert(d =~= pixels);
}

} // verus!
