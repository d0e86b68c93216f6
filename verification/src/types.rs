//! The data the conversion passes around: path segments as the path parser
//! produces them, with the vertices, instances and process parameters of the
//! modules that build them.
use vstd::prelude::*;
pub use crate::converter::ProcessParams;
pub use crate::scene_builder::Instance;
pub use crate::subpath_converter::Vertex;

verus! {

/// What a path segment draws.
#[derive(Debug, Clone, Copy, PartialEq, Eq, Structural)]
pub enum SegmentKind {
    Move,
    Line,
    Bezier,
}

/// One segment of a subpath.
///
/// `params` holds the numbers of the segment as text: two for a move or a
/// line (`x y`), six for a bezier (`cp1x cp1y cp2x cp2y x y`). The parser
/// fills them with the number tokens of the path data; a caller that has
/// placed the points in the drawing fills them with the formatted coordinates.
#[derive(Debug, Clone)]
pub struct Segment {
    pub kind: SegmentKind,
    pub params: Vec<String>,
}

/// The abstract value of a [`Segment`].
pub ghost struct SegmentSpec {
    pub kind: SegmentKind,
    pub params: Seq<Seq<char>>,
}

impl View for Segment {
    type V = SegmentSpec;

    open spec fn view(&self) -> SegmentSpec {
        SegmentSpec { kind: self.kind, params: self.params@.map_values(|p: String| p@) }
    }
}

/// The abstract value of a sequence of segments.
pub open spec fn segs_view(segs: Seq<Segment>) -> Seq<SegmentSpec> {
    segs.map_values(|s: Segment| s@)
}

/// The abstract value of a sequence of subpaths.
pub open spec fn subpaths_view(sps: Seq<Vec<Segment>>) -> Seq<Seq<SegmentSpec>> {
    sps.map_values(|v: Vec<Segment>| segs_view(v@))
}

impl Segment {
    pub fn new(kind: SegmentKind, params: Vec<String>) -> (res: Self)
        ensures
            res.kind == kind,
            res.params == params,
    {
        Self { kind, params }
    }
}

} // verus!
