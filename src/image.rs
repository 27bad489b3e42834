//! Images attached to a prompt.

use crate::error::Error;
use vstd::prelude::*;
use vstd::string::StringExecFns;

verus! {

/// The standard, padded Base64 text of some bytes.
pub uninterp spec fn base64_of(data: Seq<u8>) -> Seq<char>;

/// Whether the bytes start like a PNG file: the PNG signature, then an `IHDR`
/// chunk, at least 24 bytes in all (and fewer than the signature read as a
/// big-endian length, so that no box-based format is tried on them).
pub open spec fn is_png_header(d: Seq<u8>) -> bool {
    &&& 24 <= d.len() < 0x8950_4E47
    &&& d[0] == 137 && d[1] == 80 && d[2] == 78 && d[3] == 71
    &&& d[4] == 13 && d[5] == 10 && d[6] == 26 && d[7] == 10
    &&& d[12] == 73 && d[13] == 72 && d[14] == 68 && d[15] == 82
}

/// Whether the bytes start like a GIF file: `GIF87a` or `GIF89a`, at least 10
/// bytes in all (and fewer than `GIF8` read as a big-endian length).
pub open spec fn is_gif_header(d: Seq<u8>) -> bool {
    &&& 10 <= d.len() < 0x4749_4638
    &&& d[0] == 71 && d[1] == 73 && d[2] == 70 && d[3] == 56
    &&& (d[4] == 55 || d[4] == 57) && d[5] == 97
}

/// Relies on base64's `Engine::encode` with the `STANDARD` engine: standard
/// alphabet, padded, so four characters for every three bytes or part of them.
/// The text depends on the bytes alone.
#[verifier::external_body]
fn encode_base64(data: &[u8]) -> (r: String)
    ensures
        r@ == base64_of(data@),
        r@.len() == 4 * ((data@.len() + 2) / 3),
{
    base64::Engine::encode(&base64::engine::general_purpose::STANDARD, data)
}

/// Relies on imageinfo's `ImageInfo::from_raw_data`. Its detectors run in a
/// fixed order; each one before PNG (and before GIF) returns an error on these
/// headers after reading only fixed-size prefixes, so a PNG header gives
/// `image/png` and a GIF header `image/gif`. Other inputs are not admitted:
/// some of them make a detector slice out of range.
#[verifier::external_body]
fn image_mimetype(data: &[u8]) -> (r: Option<String>)
    requires
        is_png_header(data@) || is_gif_header(data@),
    ensures
        r is Some,
        r is Some && is_png_header(data@) ==> r->Some_0@ == "image/png"@,
        r is Some && is_gif_header(data@) ==> r->Some_0@ == "image/gif"@,
{
    match imageinfo::ImageInfo::from_raw_data(data) {
        Ok(info) => Some(info.mimetype.to_string()),
        Err(_) => None,
    }
}

/// The data URL of content with the given MIME type and Base64 text.
pub open spec fn data_url(mimetype: Seq<char>, encoded: Seq<char>) -> Seq<char> {
    "data:"@ + mimetype + ";base64,"@ + encoded
}

/// The data URL of content with the given MIME type and Base64 text.
pub fn data_url_from(mimetype: &str, encoded: &str) -> (r: String)
    ensures
        r@ == data_url(mimetype@, encoded@),
{
    let mut url = "data:".to_owned();
    url.append(mimetype);
    url.append(";base64,");
    url.append(encoded);
    url
}

/// Whether the bytes start like a PNG file.
pub fn is_png_bytes(d: &[u8]) -> (r: bool)
    ensures
        r == is_png_header(d@),
{
    let n = d.len();
    24 <= n && n < 0x8950_4E47 && d[0] == 137 && d[1] == 80 && d[2] == 78 && d[3] == 71 && d[4] == 13
        && d[5] == 10 && d[6] == 26 && d[7] == 10 && d[12] == 73 && d[13] == 72 && d[14] == 68
        && d[15] == 82
}

/// Whether the bytes start like a GIF file.
pub fn is_gif_bytes(d: &[u8]) -> (r: bool)
    ensures
        r == is_gif_header(d@),
{
    let n = d.len();
    10 <= n && n < 0x4749_4638 && d[0] == 71 && d[1] == 73 && d[2] == 70 && d[3] == 56 && (d[4] == 55
        || d[4] == 57) && d[5] == 97
}

#[derive(Debug)]
pub struct ImageData {
    pub mimetype: String,
    pub contents: Vec<u8>,
}

impl ImageData {
    /// An image from its bytes, with the MIME type of its format. PNG and GIF
    /// images are recognised; anything else is `Error::Image`.
    pub fn from_bytes(contents: Vec<u8>) -> (r: Result<Self, Error>)
        ensures
            is_png_header(contents@) ==> (r matches Ok(img) && img.mimetype@ == "image/png"@
                && img.contents@ == contents@),
            is_gif_header(contents@) ==> (r matches Ok(img) && img.mimetype@ == "image/gif"@
                && img.contents@ == contents@),
            !is_png_header(contents@) && !is_gif_header(contents@) ==> r == Err::<ImageData, Error>(
                Error::Image,
            ),
    {
        if !(is_png_bytes(contents.as_slice()) || is_gif_bytes(contents.as_slice())) {
            return Err(Error::Image);
        }
        match image_mimetype(contents.as_slice()) {
            Some(mimetype) => Ok(ImageData { mimetype, contents }),
            None => Err(Error::Image),
        }
    }

    pub fn as_base64(&self) -> (r: String)
        ensures
            r@ == base64_of(self.contents@),
    {
        encode_base64(self.contents.as_slice())
    }

    pub fn as_data_url(&self) -> (r: String)
        ensures
            r@ == data_url(self.mimetype@, base64_of(self.contents@)),
    {
        let encoded = self.as_base64();
        data_url_from(self.mimetype.as_str(), encoded.as_str())
    }
}

} // verus!
