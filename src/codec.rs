//! Calls into the `image` crate: format sniffing and PNG encoding.

use vstd::prelude::*;

verus! {

/// Formats that content sniffing tells apart.
#[derive(Clone, Copy, Debug, PartialEq, Eq, Structural)]
pub enum ImageKind {
    Png,
    Jpeg,
    Gif,
    WebP,
    Bmp,
    /// Recognised, but not one the store keeps as it is.
    Other,
}

impl ImageKind {
    /// Kept on disk byte for byte.
    pub open spec fn storable_spec(self) -> bool {
        !(self is Other)
    }

    pub fn is_storable(&self) -> (r: bool)
        ensures
            r == self.storable_spec(),
    {
        match self {
            ImageKind::Other => false,
            _ => true,
        }
    }

    pub open spec fn extension_spec(self) -> Seq<char> {
        match self {
            ImageKind::Png => seq!['p', 'n', 'g'],
            ImageKind::Jpeg => seq!['j', 'p', 'g'],
            ImageKind::Gif => seq!['g', 'i', 'f'],
            ImageKind::WebP => seq!['w', 'e', 'b', 'p'],
            ImageKind::Bmp => seq!['b', 'm', 'p'],
            ImageKind::Other => seq!['p', 'n', 'g'],
        }
    }

    /// File extension for a stored file of this kind; what is not kept as
    /// it is becomes PNG.
    pub fn extension(&self) -> (r: &'static str)
        ensures
            r@ == self.extension_spec(),
    {
        proof {
            reveal_strlit("png");
            reveal_strlit("jpg");
            reveal_strlit("gif");
            reveal_strlit("webp");
            reveal_strlit("bmp");
        }
        match self {
            ImageKind::Png => "png",
            ImageKind::Jpeg => "jpg",
            ImageKind::Gif => "gif",
            ImageKind::WebP => "webp",
            ImageKind::Bmp => "bmp",
            ImageKind::Other => "png",
        }
    }
}

/// The contents of an optional byte buffer.
pub open spec fn bytes_view(r: Option<Vec<u8>>) -> Option<Seq<u8>> {
    match r {
        Some(v) => Some(v@),
        None => None,
    }
}

/// What magic-byte sniffing makes of a payload (`None`: not recognised).
pub uninterp spec fn sniffed_kind(data: Seq<u8>) -> Option<ImageKind>;

/// A PNG encoding of a raw RGB (or RGBA) grid, where the encoder succeeds.
pub uninterp spec fn png_encoding(pixels: Seq<u8>, width: u32, height: u32, alpha: bool) -> Option<
    Seq<u8>,
>;

/// The eight bytes every PNG file starts with.
pub open spec fn png_signature() -> Seq<u8> {
    seq![137u8, 80u8, 78u8, 71u8, 13u8, 10u8, 26u8, 10u8]
}

pub open spec fn png_signed(b: Seq<u8>) -> bool {
    b.len() >= 8 && b.take(8) == png_signature()
}

/// Relies on image::guess_format: a fixed table of magic bytes decides, and
/// its first row is the PNG signature.
#[verifier::external_body]
pub(crate) fn guess_kind(data: &[u8]) -> (r: Option<ImageKind>)
    ensures
        r == sniffed_kind(data@),
        png_signed(data@) ==> r == Some(ImageKind::Png),
{
    match image::guess_format(data) {
        Ok(image::ImageFormat::Png) => Some(ImageKind::Png),
        Ok(image::ImageFormat::Jpeg) => Some(ImageKind::Jpeg),
        Ok(image::ImageFormat::Gif) => Some(ImageKind::Gif),
        Ok(image::ImageFormat::WebP) => Some(ImageKind::WebP),
        Ok(image::ImageFormat::Bmp) => Some(ImageKind::Bmp),
        Ok(_) => Some(ImageKind::Other),
        Err(_) => None,
    }
}

/// Relies on image::write_buffer_with_format with ImageFormat::Png, writing
/// to memory; its PNG encoder panics unless the buffer holds exactly
/// width * height pixels. The encoder writes the PNG signature first.
#[verifier::external_body]
pub(crate) fn encode_png(pixels: &[u8], width: u32, height: u32, alpha: bool) -> (r: Option<
    Vec<u8>,
>)
    requires
        pixels.len() == width as int * height as int * (if alpha {
            4int
        } else {
            3int
        }),
    ensures
        r matches Some(v) ==> png_encoding(pixels@, width, height, alpha) == Some(v@),
        r is None ==> png_encoding(pixels@, width, height, alpha) is None,
        r matches Some(v) ==> png_signed(v@),
{
    let color = if alpha { image::ExtendedColorType::Rgba8 } else { image::ExtendedColorType::Rgb8 };
    let mut out = Vec::new();
    let mut cursor = std::io::Cursor::new(&mut out);
    let png = image::ImageFormat::Png;
    let written = image::write_buffer_with_format(&mut cursor, pixels, width, height, color, png);
    written.ok().map(|_| out)
}

} // verus!
