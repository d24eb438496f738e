use vstd::prelude::*;

verus! {

#[verifier::external_type_specification]
#[verifier::external_body]
pub struct ExDynamicImage(image::DynamicImage);

/// A decoded image with its dimensions in pixels, the bytes it was decoded
/// from and the sizes it was then scaled and cropped to, in order. Only the
/// wrappers below build one.
pub struct Picture {
    image: image::DynamicImage,
    width: u32,
    height: u32,
    source: Ghost<Seq<u8>>,
    sizes: Ghost<Seq<(u32, u32)>>,
}

impl Picture {
    /// Width in pixels.
    pub closed spec fn width_of(&self) -> u32 {
        self.width
    }

    /// Height in pixels.
    pub closed spec fn height_of(&self) -> u32 {
        self.height
    }

    /// The bytes the image was decoded from.
    pub closed spec fn source(&self) -> Seq<u8> {
        self.source@
    }

    /// The sizes the decoded image was scaled and cropped to, in order.
    pub closed spec fn sizes(&self) -> Seq<(u32, u32)> {
        self.sizes@
    }

    /// Width in pixels.
    pub fn width(&self) -> (w: u32)
        ensures
            w == self.width_of(),
    {
        self.width
    }

    /// Height in pixels.
    pub fn height(&self) -> (h: u32)
        ensures
            h == self.height_of(),
    {
        self.height
    }
}

/// What `image` decodes from the bytes `bytes`: the dimensions of the image,
/// or the text of its error.
pub uninterp spec fn decoded_image_of(bytes: Seq<u8>) -> Result<(u32, u32), Seq<char>>;

/// The JPEG encoding of the image decoded from `source` and then scaled and
/// cropped to each of `sizes` in turn, or the text of the encoder's error.
pub uninterp spec fn jpeg_of(source: Seq<u8>, sizes: Seq<(u32, u32)>) -> Result<Seq<u8>, Seq<char>>;

/// Calls `image::load_from_memory` and reads the decoded image's `width` and
/// `height`; an error is turned into its text. Claimed: decoding depends on
/// the bytes alone (named `decoded_image_of`); with only the JPEG decoder
/// built in, dimensions fit the 16-bit fields of a JPEG frame header.
#[verifier::external_body]
pub(crate) fn decode_image(bytes: &[u8]) -> (r: Result<Picture, String>)
    ensures
        match r {
            Ok(p) => {
                &&& decoded_image_of(bytes@) == Ok::<(u32, u32), Seq<char>>((p.width_of(), p.height_of()))
                &&& p.width_of() <= 65535 && p.height_of() <= 65535
                &&& p.source() == bytes@
                &&& p.sizes() == Seq::<(u32, u32)>::empty()
            },
            Err(m) => decoded_image_of(bytes@) == Err::<(u32, u32), Seq<char>>(m@),
        },
{
    match image::load_from_memory(bytes) {
        Ok(image) => {
            let (width, height) = (image.width(), image.height());
            Ok(Picture { image, width, height, source: Ghost(bytes@), sizes: Ghost(Seq::empty()) })
        },
        Err(e) => Err(e.to_string()),
    }
}

/// Calls `image::DynamicImage::resize_to_fill` with the triangle filter.
/// Claimed (from the source): the image is scaled to cover the requested
/// box and cropped to it, so the result is exactly `width` x `height`; the
/// result is a function of the image and the requested size.
#[verifier::external_body]
pub(crate) fn resize_picture(p: &Picture, width: u32, height: u32) -> (r: Picture)
    requires
        0 < p.width_of() <= 65535,
        0 < p.height_of() <= 65535,
        width <= 65535,
        height <= 65535,
    ensures
        r.width_of() == width,
        r.height_of() == height,
        r.source() == p.source(),
        r.sizes() == p.sizes().push((width, height)),
{
    let image = p.image.resize_to_fill(width, height, image::imageops::FilterType::Triangle);
    let (w, h) = (image.width(), image.height());
    Picture {
        image,
        width: w,
        height: h,
        source: Ghost(p.source@),
        sizes: Ghost(p.sizes@.push((width, height))),
    }
}

/// Calls `image::DynamicImage::write_to` with `ImageFormat::Jpeg` into an
/// in-memory buffer; an error is turned into its text. Claimed: the bytes
/// depend only on the image (named `jpeg_of` over where it came from); the
/// JPEG encoder refuses a zero dimension and, writing to memory, succeeds
/// for every image with both dimensions in 1..=65535.
#[verifier::external_body]
pub(crate) fn encode_jpeg(p: &Picture) -> (r: Result<Vec<u8>, String>)
    ensures
        match r {
            Ok(b) => jpeg_of(p.source(), p.sizes()) == Ok::<Seq<u8>, Seq<char>>(b@),
            Err(m) => jpeg_of(p.source(), p.sizes()) == Err::<Seq<u8>, Seq<char>>(m@),
        },
        (p.width_of() == 0 || p.height_of() == 0) ==> r is Err,
        (0 < p.width_of() <= 65535 && 0 < p.height_of() <= 65535) ==> r is Ok,
{
    let mut buffer = std::io::Cursor::new(Vec::new());
    match p.image.write_to(&mut buffer, image::ImageFormat::Jpeg) {
        Ok(()) => Ok(buffer.into_inner()),
        Err(e) => Err(e.to_string()),
    }
}

/// Why an uploaded image could not be re-encoded.
#[derive(Debug, PartialEq, Eq)]
pub enum ImageFailure {
    /// The bytes do not decode to an image; the decoder's error text.
    Undecodable(String),
    /// The image has no pixels.
    EmptyImage,
    /// The JPEG encoder failed; its error text.
    Encoding(String),
}

/// An `ImageFailure` with its texts as character sequences.
pub enum ImageProblem {
    Undecodable(Seq<char>),
    EmptyImage,
    Encoding(Seq<char>),
}

impl View for ImageFailure {
    type V = ImageProblem;

    open spec fn view(&self) -> ImageProblem {
        match self {
            ImageFailure::Undecodable(m) => ImageProblem::Undecodable(m@),
            ImageFailure::EmptyImage => ImageProblem::EmptyImage,
            ImageFailure::Encoding(m) => ImageProblem::Encoding(m@),
        }
    }
}

/// The message an image error is reported with.
pub open spec fn image_error_text(e: ImageProblem) -> Seq<char> {
    match e {
        ImageProblem::Undecodable(m) => m,
        ImageProblem::EmptyImage => "The image has no pixels"@,
        ImageProblem::Encoding(m) => m,
    }
}

impl ImageFailure {
    /// The message this error is reported with: the image crate's own text
    /// where it failed.
    pub fn message(&self) -> (s: String)
        ensures
            s@ == image_error_text(self@),
    {
        match self {
            ImageFailure::Undecodable(m) => m.clone(),
            ImageFailure::EmptyImage => "The image has no pixels".to_owned(),
            ImageFailure::Encoding(m) => m.clone(),
        }
    }
}

} // verus!
