//! Ellipse shapes.
use vstd::prelude::*;
use crate::text::{decimal, push_char, push_str, usize_to_string};
use crate::xml_builder::{XmlBuilder, XmlDoc, spec_open, spec_close, spec_inline, attr_views};

verus! {

/// The placement of a shape whose centre is at `(x, y)`: `1 0 0 1 x y`.
pub open spec fn translation_text(x: Seq<char>, y: Seq<char>) -> Seq<char> {
    "1 0 0 1 "@ + x + seq![' '] + y
}

/// `1 0 0 1 x y`.
pub fn translation(x: &str, y: &str) -> (res: String)
    ensures
        res@ == translation_text(x@, y@),
{
    let mut s = String::from_str("1 0 0 1 ");
    push_str(&mut s, x);
    push_char(&mut s, ' ');
    push_str(&mut s, y);
    s
}

/// The document after an `Ellipse` shape with radii `rx`, `ry` centred at
/// `(x, y)`.
pub open spec fn spec_ellipse(doc: XmlDoc, cut_index: nat, rx: Seq<char>, ry: Seq<char>, x: Seq<char>, y: Seq<char>) -> XmlDoc {
    let attrs = seq![
        ("Type"@, "Ellipse"@),
        ("CutIndex"@, decimal(cut_index)),
        ("Rx"@, rx),
        ("Ry"@, ry),
    ];
    spec_close(spec_inline(spec_open(doc, "Shape"@, attrs), "XForm"@, translation_text(x, y)), "Shape"@)
}

/// Writes ellipse shapes.
pub struct EllipseTransformer;

impl EllipseTransformer {
    pub fn new() -> (res: Self) {
        EllipseTransformer
    }

    /// Writes an ellipse; the radii and the centre, placed in the drawing,
    /// come as text.
    pub fn transform(&self, xml: &mut XmlBuilder, cut_index: usize, rx: &str, ry: &str, x: &str, y: &str)
        requires
            old(xml)@.depth + 1 < usize::MAX,
        ensures
            final(xml)@ == spec_ellipse(old(xml)@, cut_index as nat, rx@, ry@, x@, y@),
    {
        let cut_s = usize_to_string(cut_index);
        let attrs: [(&str, &str); 4] = [("Type", "Ellipse"), ("CutIndex", cut_s.as_str()), ("Rx", rx), ("Ry", ry)];
        xml.open("Shape", &attrs);
        let t = translation(x, y);
        xml.inline("XForm", t.as_str());
        xml.close("Shape");
        assert(attr_views(attrs@) =~= seq![
            ("Type"@, "Ellipse"@),
            ("CutIndex"@, decimal(cut_index as nat)),
            ("Rx"@, rx@),
            ("Ry"@, ry@),
        ]);
    }
}

} // verus!
