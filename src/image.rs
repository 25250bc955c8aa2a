//! Decoded raster images held as RGBA bytes.
use vstd::prelude::*;

verus! {

/// Why image bytes could not become a [`DecodedImage`].
#[derive(Debug, Clone, Copy, PartialEq, Eq, Structural)]
pub enum ImageError {
    /// The bytes are in no format that could be decoded.
    Decode,
    /// The pixel buffer does not hold four bytes for each pixel.
    SizeMismatch,
}

/// An image decoded into RGBA pixels, four bytes per pixel, row by row.
#[derive(Debug, Clone)]
pub struct DecodedImage {
    bytes: Vec<u8>,
    width: u32,
    height: u32,
}

/// What the image decoder gives for encoded image bytes: the RGBA pixel
/// buffer with the width and height, or nothing when it cannot decode them.
pub uninterp spec fn rgba_decoded(data: Seq<u8>) -> Option<(Seq<u8>, u32, u32)>;

/// Relies on image::load_from_memory followed by DynamicImage::to_rgba8: a
/// decoding of the bytes, guessing the format, converted to 8-bit RGBA.
#[verifier::external_body]
fn decode_rgba(data: &[u8]) -> (r: Option<(Vec<u8>, u32, u32)>)
    ensures
        rgba_decoded(data@) == match r {
            Some(d) => Some((d.0@, d.1, d.2)),
            None => None::<(Seq<u8>, u32, u32)>,
        },
{
    match image::load_from_memory(data) {
        Ok(decoded) => {
            let rgba = decoded.to_rgba8();
            let (width, height) = rgba.dimensions();
            Some((rgba.into_raw(), width, height))
        },
        Err(_) => None,
    }
}

impl DecodedImage {
    /// The pixel bytes.
    pub closed spec fn pixels(&self) -> Seq<u8> {
        self.bytes@
    }

    /// The width in pixels.
    pub closed spec fn spec_width(&self) -> u32 {
        self.width
    }

    /// The height in pixels.
    pub closed spec fn spec_height(&self) -> u32 {
        self.height
    }

    /// Four bytes for each pixel.
    pub open spec fn wf(&self) -> bool {
        self.pixels().len() == 4 * (self.spec_width() as int) * (self.spec_height() as int)
    }

    /// An image from its RGBA bytes and size; fails unless there are exactly
    /// four bytes for each pixel.
    pub fn from_raw(bytes: Vec<u8>, width: u32, height: u32) -> (r: Result<DecodedImage, ImageError>)
        ensures
            (bytes@.len() == 4 * (width as int) * (height as int)) <==> r is Ok,
            r is Ok ==> r->Ok_0.wf() && r->Ok_0.pixels() == bytes@ && r->Ok_0.spec_width() == width
                && r->Ok_0.spec_height() == height,
            r is Err ==> r->Err_0 == ImageError::SizeMismatch,
    {
        assert(4 * (width as int) * (height as int) <= 4 * 0xffff_ffff * 0xffff_ffff) by (nonlinear_arith)
            requires
                width <= 0xffff_ffff,
                height <= 0xffff_ffff,
        ;
        let expected: u128 = 4u128 * (width as u128) * (height as u128);
        if bytes.len() as u128 == expected {
            Ok(DecodedImage { bytes, width, height })
        } else {
            Err(ImageError::SizeMismatch)
        }
    }

    /// The image that encoded bytes (PNG and the like) decode to.
    pub fn decode(data: &[u8]) -> (r: Result<DecodedImage, ImageError>)
        ensures
            rgba_decoded(data@) is None ==> r == Err::<DecodedImage, ImageError>(ImageError::Decode),
            rgba_decoded(data@) is Some ==> {
                let d = rgba_decoded(data@)->Some_0;
                &&& (d.0.len() == 4 * (d.1 as int) * (d.2 as int)) <==> r is Ok
                &&& r is Ok ==> r->Ok_0.pixels() == d.0 && r->Ok_0.spec_width() == d.1
                    && r->Ok_0.spec_height() == d.2
                &&& r is Err ==> r->Err_0 == ImageError::SizeMismatch
            },
    {
        match decode_rgba(data) {
            Some((bytes, width, height)) => DecodedImage::from_raw(bytes, width, height),
            None => Err(ImageError::Decode),
        }
    }

    /// The width in pixels.
    pub fn width(&self) -> (r: u32)
        ensures
            r == self.spec_width(),
    {
        self.width
    }

    /// The height in pixels.
    pub fn height(&self) -> (r: u32)
        ensures
            r == self.spec_height(),
    {
        self.height
    }

    /// The number of pixel bytes.
    pub fn byte_size(&self) -> (r: usize)
        ensures
            r == self.pixels().len(),
    {
        self.bytes.len()
    }

    /// The pixel bytes, four per pixel, row by row.
    pub fn bytes(&self) -> (r: &[u8])
        ensures
            r@ == self.pixels(),
    {
        self.bytes.as_slice()
    }
}

} // verus!
