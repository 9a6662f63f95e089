//! The image-processing service: its request messages.
pub mod cache;
pub mod spec;

use vstd::prelude::*;

verus! {

/// An ordered list of transformations to apply to an image.
#[derive(Clone, Debug, PartialEq)]
pub struct ImageSpec {
    pub specs: Vec<Spec>,
}

/// One transformation.
#[derive(Clone, Debug, PartialEq)]
pub struct Spec {
    pub data: Option<spec::Data>,
}

/// Resize to `width` by `height` pixels.
#[derive(Clone, Copy, Debug, PartialEq, Eq, Structural)]
pub struct Resize {
    pub width: u32,
    pub height: u32,
}

/// Put the watermark at (`x`, `y`).
#[derive(Clone, Copy, Debug, PartialEq, Eq, Structural)]
pub struct Watermark {
    pub x: u32,
    pub y: u32,
}

/// What `percent_encoding::percent_decode(..).decode_utf8_lossy()` makes of
/// the bytes of `text`: `%XX` sequences turned into bytes, and byte
/// sequences that are no UTF-8 replaced by U+FFFD.
pub uninterp spec fn percent_decoded(text: Seq<char>) -> Seq<char>;

/// Calls `percent_encoding::percent_decode` on the bytes of `text` and
/// decodes the result as UTF-8, lossily. The result is a function of the
/// text alone.
#[verifier::external_body]
fn percent_decode_lossy(text: &str) -> (r: String)
    ensures
        r@ == percent_decoded(text@),
{
    percent_encoding::percent_decode(text.as_bytes()).decode_utf8_lossy().into_owned()
}

/// The URL of the image that a request path names, percent-decoded.
pub fn image_url(path_url: &str) -> (url: String)
    ensures
        url@ == percent_decoded(path_url@),
{
    percent_decode_lossy(path_url)
}

} // verus!
