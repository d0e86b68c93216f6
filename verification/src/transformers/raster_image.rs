//! Raster image shapes, with the image embedded as Base64.
use base64::Engine;
use vstd::prelude::*;
use crate::text::{decimal, usize_to_string};
use crate::transformers::ellipse::{translation, translation_text};
use crate::xml_builder::{XmlBuilder, XmlDoc, spec_open, spec_close, spec_inline, attr_views};

verus! {

/// The Base64 digit for a 6-bit value (RFC 4648, standard alphabet).
pub open spec fn b64_digit(v: nat) -> char {
    if v < 26 {
        ((v + 65) as int) as char
    } else if v < 52 {
        ((v - 26 + 97) as int) as char
    } else if v < 62 {
        ((v - 52 + 48) as int) as char
    } else if v == 62 {
        '+'
    } else {
        '/'
    }
}

/// The Base64 encoding of `s` (RFC 4648, standard alphabet, `=` padding):
/// every three bytes become four digits; a last group of one or two bytes
/// becomes two or three digits and is padded to four with `=`.
pub open spec fn base64_of(s: Seq<u8>) -> Seq<char>
    decreases s.len(),
{
    if s.len() == 0 {
        Seq::empty()
    } else if s.len() == 1 {
        seq![b64_digit(s[0] as nat / 4), b64_digit((s[0] as nat % 4) * 16), '=', '=']
    } else if s.len() == 2 {
        seq![
            b64_digit(s[0] as nat / 4),
            b64_digit((s[0] as nat % 4) * 16 + s[1] as nat / 16),
            b64_digit((s[1] as nat % 16) * 4),
            '=',
        ]
    } else {
        seq![
            b64_digit(s[0] as nat / 4),
            b64_digit((s[0] as nat % 4) * 16 + s[1] as nat / 16),
            b64_digit((s[1] as nat % 16) * 4 + s[2] as nat / 64),
            b64_digit(s[2] as nat % 64),
        ] + base64_of(s.skip(3))
    }
}

/// The Base64 text of some bytes.
///
/// Trusted: calls `base64::engine::general_purpose::STANDARD.encode`, the
/// standard alphabet with padding, which the base64 crate documents as the
/// encoding of RFC 4648; it panics when the encoded length exceeds `usize`,
/// which `requires` excludes.
#[verifier::external_body]
fn encode_base64(bytes: &[u8]) -> (res: String)
    requires
        4 * ((bytes@.len() + 2) / 3) <= usize::MAX,
    ensures
        res@ == base64_of(bytes@),
{
    base64::engine::general_purpose::STANDARD.encode(bytes)
}

/// A raster image placed in the drawing: its size, adjustments and centre as
/// text, the file it came from, and the image's bytes.
pub struct BitmapData {
    pub width: String,
    pub height: String,
    pub contrast: String,
    pub brightness: String,
    pub enhance: String,
    pub x: String,
    pub y: String,
    pub file: String,
    pub png: Vec<u8>,
}

/// The document after a `Bitmap` shape.
pub open spec fn spec_bitmap(
    doc: XmlDoc,
    cut_index: nat,
    w: Seq<char>,
    h: Seq<char>,
    contrast: Seq<char>,
    brightness: Seq<char>,
    enhance: Seq<char>,
    x: Seq<char>,
    y: Seq<char>,
    file: Seq<char>,
    png: Seq<u8>,
) -> XmlDoc {
    let attrs = seq![
        ("Type"@, "Bitmap"@),
        ("CutIndex"@, decimal(cut_index)),
        ("W"@, w),
        ("H"@, h),
        ("Gamma"@, "1"@),
        ("Contrast"@, contrast),
        ("Brightness"@, brightness),
        ("EnhanceAmount"@, enhance),
        ("EnhanceRadius"@, "0"@),
        ("EnhanceDenoise"@, "0"@),
        ("File"@, file),
        ("SourceHash"@, "0"@),
        ("Data"@, base64_of(png)),
    ];
    spec_close(spec_inline(spec_open(doc, "Shape"@, attrs), "XForm"@, translation_text(x, y)), "Shape"@)
}

/// Writes raster image shapes.
pub struct RasterImageTransformer {
    objects_path: String,
}

impl RasterImageTransformer {
    /// A writer for images kept under the directory `objects_path`.
    pub fn new(objects_path: String) -> (res: Self)
        ensures
            res.objects_dir() == objects_path@,
    {
        Self { objects_path }
    }

    pub closed spec fn objects_dir(&self) -> Seq<char> {
        self.objects_path@
    }

    /// The directory the images are kept under.
    pub fn objects_path(&self) -> (res: &str)
        ensures
            res@ == self.objects_dir(),
    {
        self.objects_path.as_str()
    }

    /// Writes a raster image with its bytes embedded as Base64.
    pub fn transform(&self, xml: &mut XmlBuilder, cut_index: usize, image: &BitmapData)
        requires
            old(xml)@.depth + 1 < usize::MAX,
            4 * ((image.png@.len() + 2) / 3) <= usize::MAX,
        ensures
            final(xml)@ == spec_bitmap(
                old(xml)@,
                cut_index as nat,
                image.width@,
                image.height@,
                image.contrast@,
                image.brightness@,
                image.enhance@,
                image.x@,
                image.y@,
                image.file@,
                image.png@,
            ),
    {
        let cut_s = usize_to_string(cut_index);
        let data = encode_base64(image.png.as_slice());
        let attrs: [(&str, &str); 13] = [
            ("Type", "Bitmap"),
            ("CutIndex", cut_s.as_str()),
            ("W", image.width.as_str()),
            ("H", image.height.as_str()),
            ("Gamma", "1"),
            ("Contrast", image.contrast.as_str()),
            ("Brightness", image.brightness.as_str()),
            ("EnhanceAmount", image.enhance.as_str()),
            ("EnhanceRadius", "0"),
            ("EnhanceDenoise", "0"),
            ("File", image.file.as_str()),
            ("SourceHash", "0"),
            ("Data", data.as_str()),
        ];
        xml.open("Shape", &attrs);
        let t = translation(image.x.as_str(), image.y.as_str());
        xml.inline("XForm", t.as_str());
        xml.close("Shape");
        assert(attr_views(attrs@) =~= seq![
            ("Type"@, "Bitmap"@),
            ("CutIndex"@, decimal(cut_index as nat)),
            ("W"@, image.width@),
            ("H"@, image.height@),
            ("Gamma"@, "1"@),
            ("Contrast"@, image.contrast@),
            ("Brightness"@, image.brightness@),
            ("EnhanceAmount"@, image.enhance@),
            ("EnhanceRadius"@, "0"@),
            ("EnhanceDenoise"@, "0"@),
            ("File"@, image.file@),
            ("SourceHash"@, "0"@),
            ("Data"@, base64_of(image.png@)),
        ]);
    }
}

} // verus!
