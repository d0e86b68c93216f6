//! Path shapes: one LightBurn `Path` shape per subpath that draws something.
use vstd::prelude::*;
use crate::json::{JsonView, field, str_of, bool_of};
use crate::path_parser::parse_spec;
use crate::scene_builder::Instance;
use crate::subpath_converter::{convert, convert_spec, convertible};
use crate::text::{decimal, usize_to_string};
use crate::types::{Segment, SegmentSpec, segs_view, subpaths_view};
use crate::xml_builder::{XmlBuilder, XmlDoc, spec_open, spec_close, spec_inline, attr_views};

verus! {

/// The document after one `Path` shape with the given identifiers and lists.
pub open spec fn spec_path_shape(doc: XmlDoc, cut_index: nat, vert_id: nat, prim_id: nat, verts: Seq<char>, prims: Seq<char>) -> XmlDoc {
    let attrs = seq![
        ("Type"@, "Path"@),
        ("CutIndex"@, decimal(cut_index)),
        ("VertID"@, decimal(vert_id)),
        ("PrimID"@, decimal(prim_id)),
    ];
    spec_close(
        spec_inline(
            spec_inline(spec_inline(spec_open(doc, "Shape"@, attrs), "XForm"@, "1 0 0 1 0 0"@), "VertList"@, verts),
            "PrimList"@,
            prims,
        ),
        "Shape"@,
    )
}

/// The document and next identifiers after writing the subpaths `sps`: each
/// subpath that converts gets a shape and takes the next identifiers.
pub open spec fn spec_path_shapes(
    doc: XmlDoc,
    vert_id: nat,
    prim_id: nat,
    cut_index: nat,
    sps: Seq<Seq<SegmentSpec>>,
    is_closed: bool,
) -> (XmlDoc, nat, nat)
    decreases sps.len(),
{
    if sps.len() == 0 {
        (doc, vert_id, prim_id)
    } else {
        let (d, v, p) = spec_path_shapes(doc, vert_id, prim_id, cut_index, sps.drop_last(), is_closed);
        match convert_spec(sps.last(), is_closed) {
            Some((verts, prims)) => (spec_path_shape(d, cut_index, v, p, verts, prims), v + 1, p + 1),
            None => (d, v, p),
        }
    }
}

/// Whether a path object is closed: its `is_closed` flag, false when absent.
pub open spec fn is_closed_of(obj: JsonView) -> bool {
    match bool_of(field(obj, "is_closed"@)) {
        Some(b) => b,
        None => false,
    }
}

/// The document and next identifiers after writing a path object whose
/// subpaths, with their points placed in the drawing, are `placed`. An object
/// without path data writes nothing.
pub open spec fn spec_path_transform(
    doc: XmlDoc,
    vert_id: nat,
    prim_id: nat,
    obj: JsonView,
    cut_index: nat,
    placed: Seq<Seq<SegmentSpec>>,
) -> (XmlDoc, nat, nat) {
    if str_of(field(obj, "path_data"@)) is None {
        (doc, vert_id, prim_id)
    } else {
        spec_path_shapes(doc, vert_id, prim_id, cut_index, placed, is_closed_of(obj))
    }
}

pub proof fn lemma_path_shapes_depth(doc: XmlDoc, v: nat, p: nat, c: nat, sps: Seq<Seq<SegmentSpec>>, closed: bool)
    ensures
        spec_path_shapes(doc, v, p, c, sps, closed).0.depth == doc.depth,
        spec_path_shapes(doc, v, p, c, sps, closed).1 <= v + sps.len(),
        spec_path_shapes(doc, v, p, c, sps, closed).2 <= p + sps.len(),
    decreases sps.len(),
{
    if sps.len() > 0 {
        lemma_path_shapes_depth(doc, v, p, c, sps.drop_last(), closed);
    }
}

/// `placed` has the shape of `parsed`: as many subpaths, and in each as many
/// segments, of the same kinds and with as many numbers. Placing the points
/// of parsed subpaths in the drawing keeps this shape.
pub open spec fn shaped_like(placed: Seq<Seq<SegmentSpec>>, parsed: Seq<Seq<SegmentSpec>>) -> bool {
    &&& placed.len() == parsed.len()
    &&& forall|k: int|
        0 <= k < placed.len() ==> {
            &&& (#[trigger] placed[k]).len() == parsed[k].len()
            &&& forall|j: int|
                0 <= j < placed[k].len() ==> (#[trigger] placed[k][j]).kind == parsed[k][j].kind
                    && placed[k][j].params.len() == parsed[k][j].params.len()
        }
}

/// Subpaths shaped like those the parser yields can be converted.
pub proof fn lemma_shaped_like_convertible(placed: Seq<Seq<SegmentSpec>>, path: Seq<char>)
    requires
        shaped_like(placed, parse_spec(path)),
    ensures
        forall|k: int| 0 <= k < placed.len() ==> convertible(#[trigger] placed[k]),
{
    crate::subpath_converter::law_parsed_subpaths_convertible(path);
    crate::path_parser::law_parse_yields_well_formed_subpaths(path);
    let parsed = parse_spec(path);
    assert forall|k: int| 0 <= k < placed.len() implies convertible(#[trigger] placed[k]) by {
        let sp = placed[k];
        let pp = parsed[k];
        assert(crate::path_parser::is_well_formed_subpath(pp));
        assert(sp.len() == pp.len());
        if sp.len() >= 2 {
            assert(sp[0].params.len() == pp[0].params.len());
            assert forall|j: int| 1 <= j < sp.len() implies {
                &&& (#[trigger] sp[j]).kind == crate::types::SegmentKind::Line ==> sp[j].params.len() >= 2
                &&& sp[j].kind == crate::types::SegmentKind::Bezier ==> sp[j].params.len() >= 6
            } by {
                assert(sp[j] == placed[k][j]);
                assert(crate::path_parser::is_continuation(pp[j]));
            }
        }
    }
}

/// Writes path shapes, numbering them.
pub struct PathTransformer {
    vert_id: usize,
    prim_id: usize,
}

impl PathTransformer {
    pub fn new() -> (res: Self)
        ensures
            res.vert_id() == 0,
            res.prim_id() == 0,
    {
        Self { vert_id: 0, prim_id: 0 }
    }

    /// The identifier the next shape's vertex list gets.
    pub closed spec fn vert_id(&self) -> nat {
        self.vert_id as nat
    }

    /// The identifier the next shape's primitive list gets.
    pub closed spec fn prim_id(&self) -> nat {
        self.prim_id as nat
    }

    /// Writes the shapes of a path object; `placed` holds its subpaths (as
    /// the path parser yields them from the object's path data) with their
    /// points placed in the drawing and written as text, so they have the
    /// shape of the parsed path data.
    pub fn transform(&mut self, instance: &Instance, placed: &[Vec<Segment>], xml: &mut XmlBuilder, cut_index: usize)
        requires
            old(xml)@.depth + 1 < usize::MAX,
            str_of(field(instance@.obj, "path_data"@)) matches Some(d) ==> shaped_like(
                subpaths_view(placed@),
                parse_spec(d),
            ),
            old(self).vert_id() + placed@.len() <= usize::MAX,
            old(self).prim_id() + placed@.len() <= usize::MAX,
        ensures
            (final(xml)@, final(self).vert_id(), final(self).prim_id()) == spec_path_transform(
                old(xml)@,
                old(self).vert_id(),
                old(self).prim_id(),
                instance@.obj,
                cut_index as nat,
                subpaths_view(placed@),
            ),
    {
        let data = match instance.obj.get("path_data") {
            Some(v) => v.as_str(),
            None => None,
        };
        let d = match data {
            Some(d) => d,
            None => return,
        };
        proof {
            lemma_shaped_like_convertible(subpaths_view(placed@), d@);
            assert forall|k: int| 0 <= k < placed@.len() implies convertible(#[trigger] segs_view(placed@[k]@)) by {
                assert(subpaths_view(placed@)[k] == segs_view(placed@[k]@));
            }
        }
        let is_closed = match instance.obj.get("is_closed") {
            Some(v) => match v.as_bool() {
                Some(b) => b,
                None => false,
            },
            None => false,
        };
        let ghost sps = subpaths_view(placed@);
        let ghost start = (old(xml)@, old(self).vert_id(), old(self).prim_id());
        let cut_s = usize_to_string(cut_index);
        let n = placed.len();
        proof {
            assert(sps.take(0) =~= Seq::<Seq<SegmentSpec>>::empty());
        }
        for k in 0..n
            invariant
                n == placed@.len(),
                sps == subpaths_view(placed@),
                forall|k: int| 0 <= k < placed@.len() ==> convertible(#[trigger] segs_view(placed@[k]@)),
                old(xml)@.depth + 1 < usize::MAX,
                self.vert_id() <= old(self).vert_id() + k,
                self.prim_id() <= old(self).prim_id() + k,
                old(self).vert_id() + n <= usize::MAX,
                old(self).prim_id() + n <= usize::MAX,
                cut_s@ == decimal(cut_index as nat),
                (xml@, self.vert_id(), self.prim_id()) == spec_path_shapes(
                    old(xml)@,
                    old(self).vert_id(),
                    old(self).prim_id(),
                    cut_index as nat,
                    sps.take(k as int),
                    is_closed,
                ),
        {
            proof {
                assert(sps.take(k + 1).drop_last() =~= sps.take(k as int));
                assert(sps.take(k + 1).last() == segs_view(placed@[k as int]@));
                lemma_path_shapes_depth(old(xml)@, old(self).vert_id(), old(self).prim_id(), cut_index as nat, sps.take(k as int), is_closed);
            }
            match convert(placed[k].as_slice(), is_closed) {
                Some((vert_list, prim_list)) => {
                    let vid = usize_to_string(self.vert_id);
                    let pid = usize_to_string(self.prim_id);
                    let attrs: [(&str, &str); 4] = [
                        ("Type", "Path"),
                        ("CutIndex", cut_s.as_str()),
                        ("VertID", vid.as_str()),
                        ("PrimID", pid.as_str()),
                    ];
                    let ghost before = xml@;
                    xml.open("Shape", &attrs);
                    xml.inline("XForm", "1 0 0 1 0 0");
                    xml.inline("VertList", vert_list.as_str());
                    xml.inline("PrimList", prim_list.as_str());
                    xml.close("Shape");
                    assert(attr_views(attrs@) =~= seq![
                        ("Type"@, "Path"@),
                        ("CutIndex"@, decimal(cut_index as nat)),
                        ("VertID"@, decimal(self.vert_id as nat)),
                        ("PrimID"@, decimal(self.prim_id as nat)),
                    ]);
                    self.vert_id = self.vert_id + 1;
                    self.prim_id = self.prim_id + 1;
                },
                None => {},
            }
        }
        assert(sps.take(n as int) =~= sps);
    }
}

} // verus!
