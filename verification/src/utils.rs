//! The server icon that the proxy shows in its status.

use base64::engine::general_purpose::STANDARD;
use base64::Engine;
use image_meta::Format;
use vstd::prelude::*;
use vstd::string::StringExecFns;

verus! {

/// The side of a server icon, in pixels.
pub const ICON_SIDE: u32 = 64;

/// The longest file that is taken for a server icon, in bytes.
pub const ICON_MAX_BYTES: usize = 0x3fff_ffff;

/// The sixteen bytes with which every PNG file begins: the signature of the
/// format, then the length and the name of the header chunk.
pub open spec fn png_start() -> Seq<u8> {
    seq![137u8, 80, 78, 71, 13, 10, 26, 10, 0, 0, 0, 13, 73, 72, 68, 82]
}

/// Whether `file` begins as a PNG file does.
pub open spec fn begins_as_png(file: Seq<u8>) -> bool {
    file.len() >= 16 && file.subrange(0, 16) == png_start()
}

/// What the header of the image file `file` says of it: whether it is a PNG
/// image, its width and its height. `None` where the file is no image that is
/// known.
pub uninterp spec fn image_header(file: Seq<u8>) -> Option<(bool, u32, u32)>;

/// `bytes` in base 64, with the standard alphabet and with padding.
pub uninterp spec fn base64_standard(bytes: Seq<u8>) -> Seq<char>;

/// Reads the header of an image with `image_meta::load_from_buf`. The result is
/// named, not described. Only files that begin as a PNG file does are handed
/// to it: its readers of other formats leave such a file at their signature
/// test, and its PNG reader reads a header chunk of thirteen bytes and then
/// walks the chunks. On other files its JPEG reader can subtract from a length
/// of zero.
#[verifier::external_body]
fn read_image_header(file: &[u8]) -> (header: Option<(bool, u32, u32)>)
    requires
        begins_as_png(file@),
    ensures
        header == image_header(file@),
{
    let meta = image_meta::load_from_buf(file).ok()?;
    Some((matches!(meta.format, Format::Png), meta.dimensions.width, meta.dimensions.height))
}

/// Encodes `bytes` with `base64::engine::general_purpose::STANDARD.encode`.
/// The result is named, not described. The engine cannot size its output for
/// inputs near the largest length, which are left out.
#[verifier::external_body]
fn base64_encode(bytes: &[u8]) -> (text: String)
    requires
        bytes@.len() <= ICON_MAX_BYTES,
    ensures
        text@ == base64_standard(bytes@),
{
    STANDARD.encode(bytes)
}

/// How the data URI of a PNG image begins.
pub open spec fn png_uri_start() -> Seq<char> {
    "data:image/png;base64,"@
}

/// Whether `icon` is a data URI of a PNG image, by its beginning.
pub open spec fn is_png_uri(icon: Seq<char>) -> bool {
    icon.len() >= png_uri_start().len() && icon.subrange(0, png_uri_start().len() as int)
        == png_uri_start()
}

/// What the status shows for the icon file `file`, `None` where there is no
/// file: a data URI of the file, if it begins as a PNG file does, is a PNG
/// image of 64 by 64 pixels and is no longer than `ICON_MAX_BYTES`.
pub open spec fn favicon_of(file: Option<Seq<u8>>) -> Option<Seq<char>> {
    match file {
        None => None,
        Some(bytes) => if bytes.len() <= ICON_MAX_BYTES && begins_as_png(bytes) && image_header(
            bytes,
        ) == Some((true, ICON_SIDE, ICON_SIDE)) {
            Some(png_uri_start() + base64_standard(bytes))
        } else {
            None
        },
    }
}

/// The plain value of a file that may be missing.
pub open spec fn file_view(file: Option<&[u8]>) -> Option<Seq<u8>> {
    match file {
        Some(bytes) => Some(bytes@),
        None => None,
    }
}

/// The plain value of a text that may be missing.
pub open spec fn text_view(text: Option<String>) -> Option<Seq<char>> {
    match text {
        Some(s) => Some(s@),
        None => None,
    }
}

/// Whether `file` begins as a PNG file does.
pub fn is_png_start(file: &[u8]) -> (png: bool)
    ensures
        png == begins_as_png(file@),
{
    if file.len() < 16 {
        return false;
    }
    let start: [u8; 16] = [137, 80, 78, 71, 13, 10, 26, 10, 0, 0, 0, 13, 73, 72, 68, 82];
    let mut i: usize = 0;
    while i < 16
        invariant
            i <= 16,
            file@.len() >= 16,
            start@ == png_start(),
            forall|j: int| 0 <= j < i ==> file@[j] == png_start()[j],
        decreases 16 - i,
    {
        if file[i] != start[i] {
            assert(file@.subrange(0, 16)[i as int] != png_start()[i as int]);
            return false;
        }
        i = i + 1;
    }
    assert(file@.subrange(0, 16) =~= png_start());
    true
}

/// The data URI under which the status shows the icon file `file`, where the
/// file is there and is a PNG image of 64 by 64 pixels.
pub fn read_favicon(file: Option<&[u8]>) -> (favicon: Option<String>)
    ensures
        text_view(favicon) == favicon_of(file_view(file)),
        favicon matches Some(icon) ==> is_png_uri(icon@),
{
    proof {
        if let Some(bytes) = file_view(file) {
            let whole = png_uri_start() + base64_standard(bytes);
            assert(whole.subrange(0, png_uri_start().len() as int) =~= png_uri_start());
        }
    }
    let bytes = match file {
        Some(bytes) => bytes,
        None => {
            return None;
        },
    };
    if bytes.len() > ICON_MAX_BYTES || !is_png_start(bytes) {
        return None;
    }
    match read_image_header(bytes) {
        Some((png, width, height)) => {
            if png && width == ICON_SIDE && height == ICON_SIDE {
                let encoded = base64_encode(bytes);
                Some("data:image/png;base64,".to_owned().concat(encoded.as_str()))
            } else {
                None
            }
        },
        None => None,
    }
}

} // verus!
