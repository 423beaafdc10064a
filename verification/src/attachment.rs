//! The one-slot pending image attachment: what a turn will carry, how a
//! new image replaces it (never silently), how image bytes become an
//! attachment, and how an attachment's payload is decoded again.
use base64::Engine;
use image::ImageFormat as F;
use vstd::prelude::*;

use crate::api::ImageAttachment;
use crate::text::{chars_of, has_prefix_at, push_str_chars, string_of};
use crate::transcript::{BlockKind, Severity, Transcript};
use self::ImageFormatCode as C;

verus! {

// ---------------------------------------------------------------------
// Base64
// ---------------------------------------------------------------------
/// The standard base64 text of `bytes`.
pub uninterp spec fn base64_text(bytes: Seq<u8>) -> Seq<char>;

/// The bytes standard base64 `text` decodes to, or `None` when it is not
/// valid base64.
pub uninterp spec fn base64_bytes(text: Seq<char>) -> Option<Seq<u8>>;

/// `base64::engine::general_purpose::STANDARD.encode`. Its result is
/// named, and decoding it again gives back the bytes, as the engine
/// promises of its own output.
#[verifier::external_body]
fn base64_encode(bytes: &[u8]) -> (s: String)
    ensures
        s@ == base64_text(bytes@),
        base64_bytes(s@) == Some(bytes@),
{
    base64::engine::general_purpose::STANDARD.encode(bytes)
}

/// `base64::engine::general_purpose::STANDARD.decode`, its error dropped.
/// Its result is named.
#[verifier::external_body]
fn base64_decode(text: &str) -> (r: Option<Vec<u8>>)
    ensures
        match r {
            Some(v) => base64_bytes(text@) == Some(v@),
            None => base64_bytes(text@) is None,
        },
{
    base64::engine::general_purpose::STANDARD.decode(text).ok()
}

/// Decode an attachment's base64 payload into the raw image bytes, or
/// `None` when the payload is not valid base64.
pub fn decode_image_bytes(image: &ImageAttachment) -> (r: Option<Vec<u8>>)
    ensures
        match r {
            Some(v) => base64_bytes(image.data@) == Some(v@),
            None => base64_bytes(image.data@) is None,
        },
{
    base64_decode(image.data.as_str())
}

// ---------------------------------------------------------------------
// Image formats
// ---------------------------------------------------------------------
/// The formats `image::ImageFormat` names, one for one.
#[derive(Debug, Clone, Copy, PartialEq, Eq, Structural)]
pub enum ImageFormatCode {
    Png,
    Jpeg,
    Gif,
    WebP,
    Pnm,
    Tiff,
    Tga,
    Dds,
    Bmp,
    Ico,
    Hdr,
    OpenExr,
    Farbfeld,
    Avif,
    Qoi,
    Pcx,
}

/// The image formats an attachment names by MIME type, and all others.
#[derive(Debug, Clone, Copy, PartialEq, Eq, Structural)]
pub enum ImageKind {
    Png,
    Jpeg,
    Bmp,
    Other,
}

/// The format `image::guess_format` finds at the start of `bytes`, or
/// `None` when it finds none: a function of the bytes alone.
pub uninterp spec fn guessed_format(bytes: Seq<u8>) -> Option<ImageFormatCode>;

/// `image::guess_format`, its error dropped and the format mapped one for
/// one onto `ImageFormatCode`. Its result is named. (A format a later
/// version of the crate might add, which this one does not name, would
/// count as none.)
#[verifier::external_body]
#[allow(deprecated)]
fn guess_image_format(bytes: &[u8]) -> (r: Option<ImageFormatCode>)
    ensures
        r == guessed_format(bytes@),
{
    Some(match image::guess_format(bytes).ok()? {
        F::Png => C::Png, F::Jpeg => C::Jpeg, F::Gif => C::Gif, F::WebP => C::WebP, F::Pnm => C::Pnm,
        F::Tiff => C::Tiff, F::Tga => C::Tga, F::Dds => C::Dds, F::Bmp => C::Bmp, F::Ico => C::Ico,
        F::Hdr => C::Hdr, F::OpenExr => C::OpenExr, F::Farbfeld => C::Farbfeld, F::Avif => C::Avif,
        F::Qoi => C::Qoi, F::Pcx => C::Pcx, _ => return None,
    })
}

/// The kind an attachment names a format by.
pub open spec fn kind_of(format: ImageFormatCode) -> ImageKind {
    match format {
        ImageFormatCode::Png => ImageKind::Png,
        ImageFormatCode::Jpeg => ImageKind::Jpeg,
        ImageFormatCode::Bmp => ImageKind::Bmp,
        _ => ImageKind::Other,
    }
}

/// PNG, JPEG and BMP told apart from every other format.
pub fn image_kind(format: ImageFormatCode) -> (k: ImageKind)
    ensures
        k == kind_of(format),
{
    match format {
        ImageFormatCode::Png => ImageKind::Png,
        ImageFormatCode::Jpeg => ImageKind::Jpeg,
        ImageFormatCode::Bmp => ImageKind::Bmp,
        _ => ImageKind::Other,
    }
}

/// The display text of the error `image::load_from_memory_with_format`
/// gives for `bytes` read as `format`, or `None` when they decode: a
/// function of the two alone.
pub uninterp spec fn decode_error_of(bytes: Seq<u8>, format: ImageFormatCode) -> Option<Seq<char>>;

/// `image::load_from_memory_with_format`, the format mapped one for one
/// from `ImageFormatCode`, the decoded image dropped and its error kept as
/// display text. Its result is named.
#[verifier::external_body]
#[allow(deprecated)]
fn image_decode_error(bytes: &[u8], format: ImageFormatCode) -> (r: Option<String>)
    ensures
        match r {
            Some(e) => decode_error_of(bytes@, format) == Some(e@),
            None => decode_error_of(bytes@, format) is None,
        },
{
    let f = match format {
        C::Png => F::Png, C::Jpeg => F::Jpeg, C::Gif => F::Gif, C::WebP => F::WebP, C::Pnm => F::Pnm,
        C::Tiff => F::Tiff, C::Tga => F::Tga, C::Dds => F::Dds, C::Bmp => F::Bmp, C::Ico => F::Ico,
        C::Hdr => F::Hdr, C::OpenExr => F::OpenExr, C::Farbfeld => F::Farbfeld, C::Avif => F::Avif,
        C::Qoi => F::Qoi, C::Pcx => F::Pcx,
    };
    image::load_from_memory_with_format(bytes, f).err().map(|e| e.to_string())
}

/// The MIME type for each format with a decoder in this build.
pub open spec fn mime_text(kind: ImageKind) -> Seq<char> {
    match kind {
        ImageKind::Png => "image/png"@,
        ImageKind::Jpeg => "image/jpeg"@,
        ImageKind::Bmp => "image/bmp"@,
        ImageKind::Other => "application/octet-stream"@,
    }
}

/// The MIME type an attachment carries for an image format: PNG, JPEG and
/// BMP by name, anything else as an octet stream.
pub fn mime_for_image_format(kind: ImageKind) -> (r: &'static str)
    ensures
        r@ == mime_text(kind),
{
    match kind {
        ImageKind::Png => "image/png",
        ImageKind::Jpeg => "image/jpeg",
        ImageKind::Bmp => "image/bmp",
        ImageKind::Other => "application/octet-stream",
    }
}

/// The formats this build has a decoder for: PNG, JPEG and BMP.
pub open spec fn has_decoder(format: ImageFormatCode) -> bool {
    format == ImageFormatCode::Png || format == ImageFormatCode::Jpeg || format == ImageFormatCode::Bmp
}

/// Every format with a decoder is named as an image (`image/...`), never
/// as an octet stream, and no two of them share a name; every other
/// format is an octet stream. So an accepted attachment of a decodable
/// format says which format it is.
pub proof fn lemma_each_decodable_format_has_its_own_image_type(f: ImageFormatCode, g: ImageFormatCode)
    ensures
        has_decoder(f) ==> has_prefix_at(mime_text(kind_of(f)), 0, "image/"@),
        has_decoder(f) ==> mime_text(kind_of(f)) != "application/octet-stream"@,
        has_decoder(f) && has_decoder(g) && f != g ==> mime_text(kind_of(f)) != mime_text(kind_of(g)),
        !has_decoder(f) ==> mime_text(kind_of(f)) == "application/octet-stream"@,
{
    reveal_strlit("image/");
    reveal_strlit("image/png");
    reveal_strlit("image/jpeg");
    reveal_strlit("image/bmp");
    reveal_strlit("application/octet-stream");
    if has_decoder(f) {
        assert(mime_text(kind_of(f)).subrange(0, 6) =~= "image/"@);
        assert(mime_text(kind_of(f))[0] != "application/octet-stream"@[0]);
    }
    if has_decoder(f) && has_decoder(g) && f != g {
        assert(mime_text(kind_of(f)).len() != mime_text(kind_of(g)).len()
            || mime_text(kind_of(f))[6] != mime_text(kind_of(g))[6]);
    }
}

/// An accepted attachment of bytes guessed as a decodable format carries
/// that format's own image type: one no other format is given.
pub proof fn lemma_accepted_attachment_names_its_format(
    bytes: Seq<u8>,
    label: Seq<char>,
    a: ImageAttachment,
    f: ImageFormatCode,
    g: ImageFormatCode,
)
    requires
        attachment_result(bytes, label, Ok(a)),
        guessed_format(bytes) == Some(f),
        has_decoder(f),
        g != f,
    ensures
        has_prefix_at(a.media_type@, 0, "image/"@),
        a.media_type@ != mime_text(kind_of(g)),
{
    lemma_each_decodable_format_has_its_own_image_type(f, g);
    lemma_each_decodable_format_has_its_own_image_type(g, f);
    reveal_strlit("image/");
    reveal_strlit("application/octet-stream");
    if !has_decoder(g) {
        assert(mime_text(kind_of(g))[0] == 'a');
        assert(a.media_type@ == mime_text(kind_of(f)));
        assert(a.media_type@.subrange(0, 6)[0] == a.media_type@[0]);
        assert("image/"@[0] == 'i');
        assert(a.media_type@[0] == 'i');
    }
}

/// What turning `bytes` (from a source named `label`) into an attachment
/// gives: refused when the bytes are no known image format; refused with
/// the decoder's reason when they do not decode as the format found;
/// otherwise accepted, the given bytes in base64 and the MIME type of
/// that format.
pub open spec fn attachment_result(bytes: Seq<u8>, label: Seq<char>, r: Result<ImageAttachment, String>) -> bool {
    match guessed_format(bytes) {
        None => r matches Err(e) && e@ == label + " is not a recognized image format"@,
        Some(format) => match decode_error_of(bytes, format) {
            Some(why) => r matches Err(e) && e@ == label + " could not be decoded: "@ + why,
            None => r matches Ok(a) && {
                &&& a.data@ == base64_text(bytes)
                &&& base64_bytes(a.data@) == Some(bytes)
                &&& a.media_type@ == mime_text(kind_of(format))
            },
        },
    }
}

/// Check that `bytes` are a real, decodable image and wrap them as an
/// attachment, keeping the given bytes rather than re-encoding.
pub fn attachment_from_image_bytes(bytes: &[u8], label: &str) -> (r: Result<ImageAttachment, String>)
    ensures
        attachment_result(bytes@, label@, r),
{
    let format = match guess_image_format(bytes) {
        Some(f) => f,
        None => {
            let mut msg = chars_of(label);
            push_str_chars(&mut msg, " is not a recognized image format");
            return Err(string_of(msg.as_slice()));
        },
    };
    match image_decode_error(bytes, format) {
        Some(why) => {
            let mut msg = chars_of(label);
            push_str_chars(&mut msg, " could not be decoded: ");
            push_str_chars(&mut msg, why.as_str());
            let r = string_of(msg.as_slice());
            assert(r@ == label@ + " could not be decoded: "@ + why@);
            Err(r)
        },
        None => {
            let kind = image_kind(format);
            let a = ImageAttachment {
                data: base64_encode(bytes),
                media_type: mime_for_image_format(kind).to_owned(),
            };
            assert(a.media_type@ == mime_text(kind_of(format)));
            Ok(a)
        },
    }
}

// ---------------------------------------------------------------------
// Clipboard images
// ---------------------------------------------------------------------
/// Raw clipboard pixels: `width` by `height`, four bytes (RGBA) each.
#[derive(Debug, Clone, PartialEq, Eq)]
pub struct ClipboardImage {
    pub width: usize,
    pub height: usize,
    pub bytes: Vec<u8>,
}

/// The PNG file the `image` crate writes for an RGBA image of the given
/// size holding `pixels`, or `None` when it writes none.
pub uninterp spec fn png_of_rgba(width: u32, height: u32, pixels: Seq<u8>) -> Option<Seq<u8>>;

/// `image::RgbaImage::from_raw` then `DynamicImage::write_to` a buffer as
/// `ImageFormat::Png`. Its result is named.
#[verifier::external_body]
fn encode_rgba_png(width: u32, height: u32, pixels: Vec<u8>) -> (r: Option<Vec<u8>>)
    ensures
        match r {
            Some(v) => png_of_rgba(width, height, pixels@) == Some(v@),
            None => png_of_rgba(width, height, pixels@) is None,
        },
{
    let buffer = image::RgbaImage::from_raw(width, height, pixels)?;
    let mut png = Vec::new();
    image::DynamicImage::ImageRgba8(buffer)
        .write_to(&mut std::io::Cursor::new(&mut png), image::ImageFormat::Png)
        .ok()?;
    Some(png)
}

/// What a clipboard image becomes: nothing for an empty image or a buffer
/// whose length is not four bytes per pixel; else, when the encoder
/// writes a PNG, an attachment holding it in base64.
pub open spec fn clipboard_attachment(image: ClipboardImage, r: Option<ImageAttachment>) -> bool {
    if image.width == 0 || image.height == 0 || image.bytes@.len() != image.width * image.height * 4 {
        r is None
    } else {
        match png_of_rgba(image.width as u32, image.height as u32, image.bytes@) {
            None => r is None,
            Some(png) => r matches Some(a) && a.data@ == base64_text(png) && a.media_type@ == "image/png"@,
        }
    }
}

/// Encode raw RGBA clipboard pixels as a PNG attachment. The pixels are
/// not a file format, so there is nothing to check beyond the buffer's
/// length.
pub fn attachment_from_clipboard_image(image: &ClipboardImage) -> (r: Option<ImageAttachment>)
    requires
        image.width * image.height * 4 <= usize::MAX,
    ensures
        clipboard_attachment(*image, r),
{
    if image.width == 0 || image.height == 0 {
        return None;
    }
    proof {
        assert(image.width * image.height <= image.width * image.height * 4) by (nonlinear_arith)
            requires image.width * image.height * 4 <= usize::MAX;
    }
    if image.bytes.len() != image.width * image.height * 4 {
        return None;
    }
    let mut pixels: Vec<u8> = Vec::new();
    let mut i: usize = 0;
    while i < image.bytes.len()
        invariant
            i <= image.bytes@.len(),
            pixels@ == image.bytes@.take(i as int),
        decreases image.bytes.len() - i,
    {
        pixels.push(image.bytes[i]);
        assert(pixels@ =~= image.bytes@.take(i + 1));
        i = i + 1;
    }
    assert(pixels@ =~= image.bytes@);
    let png = match encode_rgba_png(image.width as u32, image.height as u32, pixels) {
        Some(p) => p,
        None => return None,
    };
    Some(ImageAttachment { data: base64_encode(png.as_slice()), media_type: "image/png".to_owned() })
}

/// What a file dropped on the window becomes: without a path on disk, a
/// warning; unreadable, the read error; else what its bytes give.
pub fn attachment_from_dropped_file(path: Option<&str>, contents: Result<Vec<u8>, String>) -> (r: Result<ImageAttachment, String>)
    ensures
        path is None ==> (r matches Err(e) && e@ == "A dropped file carried no filesystem path and was ignored."@),
        path matches Some(p) ==> match contents {
            Err(why) => r matches Err(e) && e@ == "could not read "@ + p@ + ": "@ + why@,
            Ok(bytes) => attachment_result(bytes@, p@, r),
        },
{
    let p = match path {
        Some(p) => p,
        None => return Err("A dropped file carried no filesystem path and was ignored.".to_owned()),
    };
    match contents {
        Err(why) => {
            let mut msg = chars_of("could not read ");
            push_str_chars(&mut msg, p);
            push_str_chars(&mut msg, ": ");
            push_str_chars(&mut msg, why.as_str());
            Err(string_of(msg.as_slice()))
        },
        Ok(bytes) => attachment_from_image_bytes(bytes.as_slice(), p),
    }
}

// ---------------------------------------------------------------------
// The slot
// ---------------------------------------------------------------------
/// The notice posted when a new image replaces a pending one.
pub open spec fn replaced_notice() -> Seq<char> {
    "Only one image can be attached per turn; replacing the pending image."@
}

/// The pending image a turn will carry, and the last key state seen for
/// Ctrl+V.
#[derive(Debug)]
pub struct AttachmentSlot {
    pub pending: Option<ImageAttachment>,
    pub ctrl_v_prev_down: bool,
}

impl AttachmentSlot {
    /// An empty slot.
    pub fn new() -> (s: AttachmentSlot)
        ensures
            s.pending is None,
            !s.ctrl_v_prev_down,
    {
        AttachmentSlot { pending: None, ctrl_v_prev_down: false }
    }

    /// True while no image is waiting to be sent.
    pub fn is_empty(&self) -> (b: bool)
        ensures
            b == self.pending is None,
    {
        self.pending.is_none()
    }

    /// Hand over the pending image and leave the slot empty.
    pub fn take(&mut self) -> (r: Option<ImageAttachment>)
        ensures
            r == old(self).pending,
            final(self).pending is None,
            final(self).ctrl_v_prev_down == old(self).ctrl_v_prev_down,
    {
        self.pending.take()
    }

    /// Discard the pending image without sending it.
    pub fn clear(&mut self)
        ensures
            final(self).pending is None,
            final(self).ctrl_v_prev_down == old(self).ctrl_v_prev_down,
    {
        self.pending = None;
    }

    /// Put `attachment` in the slot, replacing whatever was there. A
    /// replacement is never silent: an info notice says so in the
    /// transcript. A first attachment posts nothing.
    pub fn set(&mut self, attachment: ImageAttachment, transcript: &mut Transcript)
        requires
            old(transcript).state().next_id < u64::MAX,
        ensures
            final(self).pending == Some(attachment),
            final(self).ctrl_v_prev_down == old(self).ctrl_v_prev_down,
            old(self).pending is None ==> final(transcript).state() == old(transcript).state(),
            old(self).pending is Some ==> final(transcript).state().blocks.len() == old(transcript).state().blocks.len() + 1,
            old(self).pending is Some ==> final(transcript).state().blocks.drop_last() == old(transcript).state().blocks,
            old(self).pending is Some ==> (final(transcript).state().blocks.last().kind matches BlockKind::Notice { text, severity }
                && text@ == replaced_notice() && severity == Severity::Info),
    {
        if self.pending.is_some() {
            let text = "Only one image can be attached per turn; replacing the pending image.".to_owned();
            let ghost tv = text@;
            let ghost before = transcript.state();
            transcript.push(BlockKind::Notice { text, severity: Severity::Info });
            proof {
                assert(transcript.state().blocks.drop_last() =~= before.blocks);
            }
        }
        self.pending = Some(attachment);
    }

    /// Take in what a dropped file or a paste gave: an attachment goes in
    /// the slot (as `set` does), a refusal becomes a warning notice.
    pub fn accept(&mut self, outcome: Result<ImageAttachment, String>, transcript: &mut Transcript)
        requires
            old(transcript).state().next_id < u64::MAX,
        ensures
            match outcome {
                Ok(a) => final(self).pending == Some(a),
                Err(message) => {
                    &&& final(self).pending == old(self).pending
                    &&& final(transcript).state().blocks.len() == old(transcript).state().blocks.len() + 1
                    &&& final(transcript).state().blocks.drop_last() == old(transcript).state().blocks
                    &&& final(transcript).state().blocks.last().kind == (BlockKind::Notice { text: message, severity: Severity::Warning })
                },
            },
    {
        match outcome {
            Ok(a) => self.set(a, transcript),
            Err(message) => {
                let ghost before = transcript.state();
                transcript.push(BlockKind::Notice { text: message, severity: Severity::Warning });
                proof {
                    assert(transcript.state().blocks.drop_last() =~= before.blocks);
                }
            },
        }
    }
}

/// True exactly once per press: on the step from up to down, with
/// `prev_down` carrying the state last seen.
pub fn edge_trigger(down: bool, prev_down: &mut bool) -> (fired: bool)
    ensures
        fired == (down && !*old(prev_down)),
        *final(prev_down) == down,
{
    let just_pressed = down && !*prev_down;
    *prev_down = down;
    just_pressed
}

} // verus!
