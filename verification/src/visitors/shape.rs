//! The shapes of a project: each instance is written by the writer of its
//! object's type, on the layer of its process type.
use vstd::prelude::*;
use crate::assoc::{assoc_map, assoc_get};
use crate::converter::{instance_process_type, process_type_of};
use crate::json::{field, str_of};
use crate::scene_builder::{Instance, InstanceSpec, instances_view};
use crate::path_parser::parse_spec;
use crate::text::str_eq;
use crate::transformers::ellipse::{EllipseTransformer, spec_ellipse};
use crate::transformers::path::{PathTransformer, spec_path_transform, lemma_path_shapes_depth, shaped_like};
use crate::transformers::raster_image::{BitmapData, RasterImageTransformer, spec_bitmap};
use crate::types::{Segment, SegmentSpec, segs_view, subpaths_view};
use crate::xml_builder::{XmlBuilder, XmlDoc, indent, attr_text, attrs_text, lemma_attrs_text_append};
use crate::text::decimal;
use crate::transformers::path::{spec_path_shapes, spec_path_shape, is_closed_of};
use crate::subpath_converter::convert_spec;

verus! {

/// What an instance is drawn as, with its geometry placed in the drawing and
/// written as text.
pub enum ShapeData {
    /// The subpaths of a path object, as the path parser yields them from the
    /// object's path data, with their points placed.
    Path(Vec<Vec<Segment>>),
    /// The radii and centre of an ellipse.
    Ellipse { rx: String, ry: String, x: String, y: String },
    /// A raster image.
    Bitmap(BitmapData),
    /// Nothing is drawn (such as an image whose file could not be read).
    Skip,
}

/// The abstract value of a raster image.
pub ghost struct BitmapSpec {
    pub texts: Seq<Seq<char>>,
    pub png: Seq<u8>,
}

/// The abstract value of a [`ShapeData`].
pub ghost enum ShapeView {
    Path(Seq<Seq<SegmentSpec>>),
    Ellipse(Seq<char>, Seq<char>, Seq<char>, Seq<char>),
    Bitmap(BitmapSpec),
    Skip,
}

pub open spec fn bitmap_view(b: BitmapData) -> BitmapSpec {
    BitmapSpec {
        texts: seq![b.width@, b.height@, b.contrast@, b.brightness@, b.enhance@, b.x@, b.y@, b.file@],
        png: b.png@,
    }
}

impl View for ShapeData {
    type V = ShapeView;

    open spec fn view(&self) -> ShapeView {
        match self {
            ShapeData::Path(sps) => ShapeView::Path(subpaths_view(sps@)),
            ShapeData::Ellipse { rx, ry, x, y } => ShapeView::Ellipse(rx@, ry@, x@, y@),
            ShapeData::Bitmap(b) => ShapeView::Bitmap(bitmap_view(*b)),
            ShapeData::Skip => ShapeView::Skip,
        }
    }
}

pub open spec fn shapes_view(s: Seq<ShapeData>) -> Seq<ShapeView> {
    s.map_values(|d: ShapeData| d@)
}

/// The layer an instance is drawn on: the index of its process type, 0 when
/// it has none.
pub open spec fn cut_index_of(idx: Map<Seq<char>, usize>, inst: InstanceSpec) -> nat {
    match process_type_of(inst) {
        Some(pt) => if idx.contains_key(pt) {
            idx[pt] as nat
        } else {
            0
        },
        None => 0,
    }
}

/// The document and next path identifiers after drawing one instance.
pub open spec fn spec_shape(
    state: (XmlDoc, nat, nat),
    idx: Map<Seq<char>, usize>,
    inst: InstanceSpec,
    shape: ShapeView,
) -> (XmlDoc, nat, nat) {
    let (doc, v, p) = state;
    let cut = cut_index_of(idx, inst);
    match str_of(field(inst.obj, "type"@)) {
        Some(t) => if t == "PathObject"@ {
            match shape {
                ShapeView::Path(sps) => spec_path_transform(doc, v, p, inst.obj, cut, sps),
                _ => state,
            }
        } else if t == "EllipseObject"@ {
            match shape {
                ShapeView::Ellipse(rx, ry, x, y) => (spec_ellipse(doc, cut, rx, ry, x, y), v, p),
                _ => state,
            }
        } else if t == "RasterImage"@ {
            match shape {
                ShapeView::Bitmap(b) => (
                    spec_bitmap(
                        doc,
                        cut,
                        b.texts[0],
                        b.texts[1],
                        b.texts[2],
                        b.texts[3],
                        b.texts[4],
                        b.texts[5],
                        b.texts[6],
                        b.texts[7],
                        b.png,
                    ),
                    v,
                    p,
                ),
                _ => state,
            }
        } else {
            state
        },
        None => state,
    }
}

/// The document and next path identifiers after drawing the first `n`
/// instances in turn.
pub open spec fn spec_shapes(
    state: (XmlDoc, nat, nat),
    idx: Map<Seq<char>, usize>,
    insts: Seq<InstanceSpec>,
    shapes: Seq<ShapeView>,
    n: nat,
) -> (XmlDoc, nat, nat)
    decreases n,
{
    if n == 0 {
        state
    } else {
        spec_shape(spec_shapes(state, idx, insts, shapes, (n - 1) as nat), idx, insts[n - 1], shapes[n - 1])
    }
}

/// The number of subpaths among the first `n` shapes.
pub open spec fn subpath_count(shapes: Seq<ShapeView>, n: nat) -> nat
    decreases n,
{
    if n == 0 {
        0
    } else {
        subpath_count(shapes, (n - 1) as nat) + match shapes[n - 1] {
            ShapeView::Path(sps) => sps.len(),
            _ => 0,
        }
    }
}

/// The shapes can be written: the subpaths drawn for a path object with path
/// data have the shape of that data as the path parser reads it, and images
/// are small enough to encode.
pub open spec fn drawable(insts: Seq<InstanceSpec>, shapes: Seq<ShapeView>) -> bool {
    forall|i: int|
        0 <= i < shapes.len() ==> match #[trigger] shapes[i] {
            ShapeView::Path(sps) => str_of(field(insts[i].obj, "path_data"@)) matches Some(d) ==> shaped_like(
                sps,
                parse_spec(d),
            ),
            ShapeView::Bitmap(b) => 4 * ((b.png.len() + 2) / 3) <= usize::MAX,
            _ => true,
        }
}

/// Drawing shapes keeps the depth.
pub proof fn lemma_shapes_depth(
    state: (XmlDoc, nat, nat),
    idx: Map<Seq<char>, usize>,
    insts: Seq<InstanceSpec>,
    shapes: Seq<ShapeView>,
    n: nat,
)
    requires
        n <= shapes.len(),
    ensures
        spec_shapes(state, idx, insts, shapes, n).0.depth == state.0.depth,
{
    lemma_shapes_state(state, idx, insts, shapes, n);
}

proof fn lemma_shapes_state(
    state: (XmlDoc, nat, nat),
    idx: Map<Seq<char>, usize>,
    insts: Seq<InstanceSpec>,
    shapes: Seq<ShapeView>,
    n: nat,
)
    requires
        n <= shapes.len(),
    ensures
        spec_shapes(state, idx, insts, shapes, n).0.depth == state.0.depth,
        spec_shapes(state, idx, insts, shapes, n).1 <= state.1 + subpath_count(shapes, n),
        spec_shapes(state, idx, insts, shapes, n).2 <= state.2 + subpath_count(shapes, n),
    decreases n,
{
    if n > 0 {
        lemma_shapes_state(state, idx, insts, shapes, (n - 1) as nat);
        let s = spec_shapes(state, idx, insts, shapes, (n - 1) as nat);
        let inst = insts[n - 1];
        match shapes[n - 1] {
            ShapeView::Path(sps) => {
                lemma_path_shapes_depth(s.0, s.1, s.2, cut_index_of(idx, inst), sps, crate::transformers::path::is_closed_of(inst.obj));
            },
            _ => {},
        }
    }
}

/// Draws every instance with the writer of its object's type.
pub struct ShapeVisitor {
    process_type_to_idx: Vec<(String, usize)>,
    path: PathTransformer,
    ellipse: EllipseTransformer,
    raster: RasterImageTransformer,
}

impl ShapeVisitor {
    pub fn new(process_type_to_idx: Vec<(String, usize)>, objects_path: String) -> (res: Self)
        ensures
            res.layer_indices() == assoc_map(process_type_to_idx@),
            res.next_ids() == (0nat, 0nat),
            res.objects_dir() == objects_path@,
    {
        Self {
            process_type_to_idx,
            path: PathTransformer::new(),
            ellipse: EllipseTransformer::new(),
            raster: RasterImageTransformer::new(objects_path),
        }
    }

    pub closed spec fn layer_indices(&self) -> Map<Seq<char>, usize> {
        assoc_map(self.process_type_to_idx@)
    }

    pub closed spec fn next_ids(&self) -> (nat, nat) {
        (self.path.vert_id(), self.path.prim_id())
    }

    pub closed spec fn objects_dir(&self) -> Seq<char> {
        self.raster.objects_dir()
    }

    /// The directory the images are kept under.
    pub fn objects_path(&self) -> (res: &str)
        ensures
            res@ == self.objects_dir(),
    {
        self.raster.objects_path()
    }

    /// Draws `instances[i]` as `shapes[i]`, in turn. Nothing is reported.
    pub fn visit(&mut self, instances: &[Instance], shapes: &[ShapeData], xml: &mut XmlBuilder) -> (res: Vec<String>)
        requires
            shapes@.len() == instances@.len(),
            drawable(instances_view(instances@), shapes_view(shapes@)),
            old(xml)@.depth + 1 < usize::MAX,
            old(self).next_ids().0 + subpath_count(shapes_view(shapes@), shapes@.len() as nat) <= usize::MAX,
            old(self).next_ids().1 + subpath_count(shapes_view(shapes@), shapes@.len() as nat) <= usize::MAX,
        ensures
            res@.len() == 0,
            final(self).layer_indices() == old(self).layer_indices(),
            final(self).objects_dir() == old(self).objects_dir(),
            (final(xml)@, final(self).next_ids().0, final(self).next_ids().1) == spec_shapes(
                (old(xml)@, old(self).next_ids().0, old(self).next_ids().1),
                old(self).layer_indices(),
                instances_view(instances@),
                shapes_view(shapes@),
                shapes@.len() as nat,
            ),
    {
        let ghost start = (old(xml)@, old(self).next_ids().0, old(self).next_ids().1);
        let ghost idx = self.layer_indices();
        let ghost iv = instances_view(instances@);
        let ghost sv = shapes_view(shapes@);
        let n = instances.len();
        for i in 0..n
            invariant
                n == instances@.len(),
                n == shapes@.len(),
                iv == instances_view(instances@),
                sv == shapes_view(shapes@),
                drawable(iv, sv),
                idx == self.layer_indices(),
                self.objects_dir() == old(self).objects_dir(),
                start == (old(xml)@, old(self).next_ids().0, old(self).next_ids().1),
                old(xml)@.depth + 1 < usize::MAX,
                start.1 + subpath_count(sv, n as nat) <= usize::MAX,
                start.2 + subpath_count(sv, n as nat) <= usize::MAX,
                (xml@, self.next_ids().0, self.next_ids().1) == spec_shapes(start, idx, iv, sv, i as nat),
        {
            proof {
                lemma_shapes_state(start, idx, iv, sv, i as nat);
                lemma_subpath_count_mono(sv, (i + 1) as nat, n as nat);
            }
            let inst = &instances[i];
            let cut_index: usize = match instance_process_type(inst) {
                Some(pt) => match assoc_get(&self.process_type_to_idx, pt) {
                    Some(v) => *v,
                    None => 0,
                },
                None => 0,
            };
            assert(cut_index as nat == cut_index_of(idx, iv[i as int]));
            let kind = match inst.obj.get("type") {
                Some(t) => t.as_str(),
                None => None,
            };
            let shape = &shapes[i];
            assert(sv[i as int] == shape@);
            match kind {
                Some(k) => {
                    if str_eq(k, "PathObject") {
                        match shape {
                            ShapeData::Path(sps) => {
                                assert(iv[i as int] == inst@);
                                self.path.transform(inst, sps.as_slice(), xml, cut_index);
                            },
                            _ => {},
                        }
                    } else if str_eq(k, "EllipseObject") {
                        match shape {
                            ShapeData::Ellipse { rx, ry, x, y } => {
                                self.ellipse.transform(xml, cut_index, rx.as_str(), ry.as_str(), x.as_str(), y.as_str());
                            },
                            _ => {},
                        }
                    } else if str_eq(k, "RasterImage") {
                        match shape {
                            ShapeData::Bitmap(b) => {
                                self.raster.transform(xml, cut_index, b);
                            },
                            _ => {},
                        }
                    }
                },
                None => {},
            }
        }
        Vec::new()
    }
}

proof fn lemma_subpath_count_mono(shapes: Seq<ShapeView>, a: nat, b: nat)
    requires
        a <= b,
    ensures
        subpath_count(shapes, a) <= subpath_count(shapes, b),
    decreases b - a,
{
    if a < b {
        lemma_subpath_count_mono(shapes, a, (b - 1) as nat);
    }
}

// ---------------------------------------------------------------------------
// Every shape is written on the layer of its instance
// ---------------------------------------------------------------------------

/// Whether `line` begins with `p`.
pub open spec fn starts_with(line: Seq<char>, p: Seq<char>) -> bool {
    p.len() <= line.len() && line.subrange(0, p.len() as int) == p
}

/// The beginning of a line that opens a `Shape` element at `depth`.
pub open spec fn shape_open_prefix(depth: nat) -> Seq<char> {
    indent(depth) + seq!['<'] + "Shape"@
}

/// The beginning of a line that opens a `Shape` of type `kind` on layer `cut`.
pub open spec fn shape_on_layer_prefix(depth: nat, kind: Seq<char>, cut: nat) -> Seq<char> {
    shape_open_prefix(depth) + attr_text("Type"@, kind) + attr_text("CutIndex"@, decimal(cut))
}

/// The shape type an object is drawn as.
pub open spec fn shape_kind(obj: crate::json::JsonView) -> Seq<char> {
    match str_of(field(obj, "type"@)) {
        Some(t) => if t == "PathObject"@ {
            "Path"@
        } else if t == "EllipseObject"@ {
            "Ellipse"@
        } else if t == "RasterImage"@ {
            "Bitmap"@
        } else {
            Seq::empty()
        },
        None => Seq::empty(),
    }
}

/// `after` keeps the lines of `before` and returns to its depth, and every
/// line it adds that opens a `Shape` at that depth opens one of type `kind`
/// on layer `cut`.
pub open spec fn shapes_on_layer(before: XmlDoc, after: XmlDoc, kind: Seq<char>, cut: nat) -> bool {
    &&& after.depth == before.depth
    &&& after.lines.len() >= before.lines.len()
    &&& forall|j: int| 0 <= j < before.lines.len() ==> #[trigger] after.lines[j] == before.lines[j]
    &&& forall|j: int|
        before.lines.len() <= j < after.lines.len() && starts_with(
            #[trigger] after.lines[j],
            shape_open_prefix(before.depth),
        ) ==> starts_with(after.lines[j], shape_on_layer_prefix(before.depth, kind, cut))
}

proof fn lemma_shapes_on_layer_refl(doc: XmlDoc, kind: Seq<char>, cut: nat)
    ensures
        shapes_on_layer(doc, doc, kind, cut),
{
}

proof fn lemma_shapes_on_layer_trans(a: XmlDoc, b: XmlDoc, c: XmlDoc, kind: Seq<char>, cut: nat)
    requires
        shapes_on_layer(a, b, kind, cut),
        shapes_on_layer(b, c, kind, cut),
    ensures
        shapes_on_layer(a, c, kind, cut),
{
    assert forall|j: int| a.lines.len() <= j < c.lines.len() && starts_with(#[trigger] c.lines[j], shape_open_prefix(a.depth))
        implies starts_with(c.lines[j], shape_on_layer_prefix(a.depth, kind, cut)) by {
        if j < b.lines.len() {
            assert(c.lines[j] == b.lines[j]);
        }
    }
}

/// A line indented one level deeper does not open a `Shape` at `depth`.
proof fn lemma_deeper_line_opens_no_shape(depth: nat, rest: Seq<char>)
    requires
        rest.len() > 0,
    ensures
        !starts_with(indent(depth + 1) + rest, shape_open_prefix(depth)),
{
    let line = indent(depth + 1) + rest;
    let p = shape_open_prefix(depth);
    reveal_strlit("Shape");
    let i: int = 4 * (depth as int);
    assert(line[i] == ' ');
    assert(p[i] == '<');
    if starts_with(line, p) {
        assert(line.subrange(0, p.len() as int)[i] == line[i]);
    }
}

/// A closing tag does not open a `Shape`.
proof fn lemma_close_line_opens_no_shape(depth: nat, name: Seq<char>)
    ensures
        !starts_with(indent(depth) + seq!['<', '/'] + name + seq!['>'], shape_open_prefix(depth)),
{
    let line = indent(depth) + seq!['<', '/'] + name + seq!['>'];
    let p = shape_open_prefix(depth);
    reveal_strlit("Shape");
    let i: int = 4 * (depth as int) + 1;
    assert(line[i] == '/');
    assert(p[i] == 'S');
    if starts_with(line, p) {
        assert(line.subrange(0, p.len() as int)[i] == line[i]);
    }
}

/// The opening line of a `Shape` whose first attributes are its type and
/// layer begins with the layer prefix.
proof fn lemma_open_line_on_layer(depth: nat, kind: Seq<char>, cut: nat, rest: Seq<(Seq<char>, Seq<char>)>)
    ensures
        starts_with(
            indent(depth) + seq!['<'] + "Shape"@ + attrs_text(
                seq![("Type"@, kind), ("CutIndex"@, decimal(cut))] + rest,
            ) + seq!['>'],
            shape_on_layer_prefix(depth, kind, cut),
        ),
{
    let two = seq![("Type"@, kind), ("CutIndex"@, decimal(cut))];
    lemma_attrs_text_append(two, rest);
    lemma_attrs_text_append(seq![("Type"@, kind)], seq![("CutIndex"@, decimal(cut))]);
    assert(seq![("Type"@, kind)] + seq![("CutIndex"@, decimal(cut))] =~= two);
    assert(attrs_text(Seq::<(Seq<char>, Seq<char>)>::empty()) =~= Seq::<char>::empty());
    assert(seq![("Type"@, kind)].drop_last() =~= Seq::<(Seq<char>, Seq<char>)>::empty());
    assert(seq![("Type"@, kind)].last() == ("Type"@, kind));
    assert(attrs_text(seq![("Type"@, kind)]) =~= attr_text("Type"@, kind));
    assert(seq![("CutIndex"@, decimal(cut))].drop_last() =~= Seq::<(Seq<char>, Seq<char>)>::empty());
    assert(seq![("CutIndex"@, decimal(cut))].last() == ("CutIndex"@, decimal(cut)));
    assert(attrs_text(seq![("CutIndex"@, decimal(cut))]) =~= attr_text("CutIndex"@, decimal(cut)));
    let p = shape_on_layer_prefix(depth, kind, cut);
    let line = indent(depth) + seq!['<'] + "Shape"@ + attrs_text(two + rest) + seq!['>'];
    assert(line =~= p + attrs_text(rest) + seq!['>']);
    assert(line.subrange(0, p.len() as int) =~= p);
}

proof fn lemma_path_shape_on_layer(doc: XmlDoc, cut: nat, v: nat, p: nat, verts: Seq<char>, prims: Seq<char>)
    ensures
        shapes_on_layer(doc, spec_path_shape(doc, cut, v, p, verts, prims), "Path"@, cut),
{
    reveal_strlit("XForm");
    reveal_strlit("VertList");
    reveal_strlit("PrimList");
    let after = spec_path_shape(doc, cut, v, p, verts, prims);
    let n = doc.lines.len();
    let d = doc.depth;
    lemma_open_line_on_layer(d, "Path"@, cut, seq![("VertID"@, decimal(v)), ("PrimID"@, decimal(p))]);
    assert(seq![("Type"@, "Path"@), ("CutIndex"@, decimal(cut)), ("VertID"@, decimal(v)), ("PrimID"@, decimal(p))]
        =~= seq![("Type"@, "Path"@), ("CutIndex"@, decimal(cut))] + seq![("VertID"@, decimal(v)), ("PrimID"@, decimal(p))]);
    lemma_deeper_line_opens_no_shape(d, seq!['<'] + "XForm"@ + seq!['>'] + crate::xml_builder::escaped("1 0 0 1 0 0"@) + seq!['<', '/'] + "XForm"@ + seq!['>']);
    lemma_deeper_line_opens_no_shape(d, seq!['<'] + "VertList"@ + seq!['>'] + crate::xml_builder::escaped(verts) + seq!['<', '/'] + "VertList"@ + seq!['>']);
    lemma_deeper_line_opens_no_shape(d, seq!['<'] + "PrimList"@ + seq!['>'] + crate::xml_builder::escaped(prims) + seq!['<', '/'] + "PrimList"@ + seq!['>']);
    lemma_close_line_opens_no_shape(d, "Shape"@);
    assert(after.lines.len() == n + 5);
    assert forall|j: int| 0 <= j < n implies #[trigger] after.lines[j] == doc.lines[j] by {}
    assert forall|j: int| n <= j < after.lines.len() && starts_with(#[trigger] after.lines[j], shape_open_prefix(d))
        implies starts_with(after.lines[j], shape_on_layer_prefix(d, "Path"@, cut)) by {
        if j == n + 1 {
            assert(after.lines[j] =~= indent(d + 1) + (seq!['<'] + "XForm"@ + seq!['>'] + crate::xml_builder::escaped("1 0 0 1 0 0"@) + seq!['<', '/'] + "XForm"@ + seq!['>']));
        } else if j == n + 2 {
            assert(after.lines[j] =~= indent(d + 1) + (seq!['<'] + "VertList"@ + seq!['>'] + crate::xml_builder::escaped(verts) + seq!['<', '/'] + "VertList"@ + seq!['>']));
        } else if j == n + 3 {
            assert(after.lines[j] =~= indent(d + 1) + (seq!['<'] + "PrimList"@ + seq!['>'] + crate::xml_builder::escaped(prims) + seq!['<', '/'] + "PrimList"@ + seq!['>']));
        } else if j == n + 4 {
            assert(after.lines[j] == indent(d) + seq!['<', '/'] + "Shape"@ + seq!['>']);
        }
    }
}

proof fn lemma_path_shapes_on_layer(doc: XmlDoc, v: nat, p: nat, cut: nat, sps: Seq<Seq<SegmentSpec>>, closed: bool)
    ensures
        shapes_on_layer(doc, spec_path_shapes(doc, v, p, cut, sps, closed).0, "Path"@, cut),
    decreases sps.len(),
{
    if sps.len() == 0 {
        lemma_shapes_on_layer_refl(doc, "Path"@, cut);
    } else {
        lemma_path_shapes_on_layer(doc, v, p, cut, sps.drop_last(), closed);
        let (d, v2, p2) = spec_path_shapes(doc, v, p, cut, sps.drop_last(), closed);
        match convert_spec(sps.last(), closed) {
            Some((verts, prims)) => {
                lemma_path_shape_on_layer(d, cut, v2, p2, verts, prims);
                lemma_shapes_on_layer_trans(doc, d, spec_path_shape(d, cut, v2, p2, verts, prims), "Path"@, cut);
            },
            None => {},
        }
    }
}

proof fn lemma_ellipse_on_layer(doc: XmlDoc, cut: nat, rx: Seq<char>, ry: Seq<char>, x: Seq<char>, y: Seq<char>)
    ensures
        shapes_on_layer(doc, spec_ellipse(doc, cut, rx, ry, x, y), "Ellipse"@, cut),
{
    reveal_strlit("XForm");
    let after = spec_ellipse(doc, cut, rx, ry, x, y);
    let n = doc.lines.len();
    let d = doc.depth;
    let xf = seq!['<'] + "XForm"@ + seq!['>'] + crate::xml_builder::escaped(crate::transformers::ellipse::translation_text(x, y)) + seq!['<', '/'] + "XForm"@ + seq!['>'];
    lemma_open_line_on_layer(d, "Ellipse"@, cut, seq![("Rx"@, rx), ("Ry"@, ry)]);
    assert(seq![("Type"@, "Ellipse"@), ("CutIndex"@, decimal(cut)), ("Rx"@, rx), ("Ry"@, ry)]
        =~= seq![("Type"@, "Ellipse"@), ("CutIndex"@, decimal(cut))] + seq![("Rx"@, rx), ("Ry"@, ry)]);
    lemma_deeper_line_opens_no_shape(d, xf);
    lemma_close_line_opens_no_shape(d, "Shape"@);
    assert forall|j: int| 0 <= j < n implies #[trigger] after.lines[j] == doc.lines[j] by {}
    assert forall|j: int| n <= j < after.lines.len() && starts_with(#[trigger] after.lines[j], shape_open_prefix(d))
        implies starts_with(after.lines[j], shape_on_layer_prefix(d, "Ellipse"@, cut)) by {
        if j == n + 1 {
            assert(after.lines[j] =~= indent(d + 1) + xf);
        } else if j == n + 2 {
            assert(after.lines[j] == indent(d) + seq!['<', '/'] + "Shape"@ + seq!['>']);
        }
    }
}

proof fn lemma_bitmap_on_layer(doc: XmlDoc, cut: nat, b: BitmapSpec)
    requires
        b.texts.len() == 8,
    ensures
        shapes_on_layer(
            doc,
            spec_bitmap(doc, cut, b.texts[0], b.texts[1], b.texts[2], b.texts[3], b.texts[4], b.texts[5], b.texts[6], b.texts[7], b.png),
            "Bitmap"@,
            cut,
        ),
{
    reveal_strlit("XForm");
    let t = b.texts;
    let after = spec_bitmap(doc, cut, t[0], t[1], t[2], t[3], t[4], t[5], t[6], t[7], b.png);
    let n = doc.lines.len();
    let d = doc.depth;
    let xf = seq!['<'] + "XForm"@ + seq!['>'] + crate::xml_builder::escaped(crate::transformers::ellipse::translation_text(t[5], t[6])) + seq!['<', '/'] + "XForm"@ + seq!['>'];
    let rest = seq![
        ("W"@, t[0]),
        ("H"@, t[1]),
        ("Gamma"@, "1"@),
        ("Contrast"@, t[2]),
        ("Brightness"@, t[3]),
        ("EnhanceAmount"@, t[4]),
        ("EnhanceRadius"@, "0"@),
        ("EnhanceDenoise"@, "0"@),
        ("File"@, t[7]),
        ("SourceHash"@, "0"@),
        ("Data"@, crate::transformers::raster_image::base64_of(b.png)),
    ];
    lemma_open_line_on_layer(d, "Bitmap"@, cut, rest);
    assert(seq![
        ("Type"@, "Bitmap"@),
        ("CutIndex"@, decimal(cut)),
        ("W"@, t[0]),
        ("H"@, t[1]),
        ("Gamma"@, "1"@),
        ("Contrast"@, t[2]),
        ("Brightness"@, t[3]),
        ("EnhanceAmount"@, t[4]),
        ("EnhanceRadius"@, "0"@),
        ("EnhanceDenoise"@, "0"@),
        ("File"@, t[7]),
        ("SourceHash"@, "0"@),
        ("Data"@, crate::transformers::raster_image::base64_of(b.png)),
    ] =~= seq![("Type"@, "Bitmap"@), ("CutIndex"@, decimal(cut))] + rest);
    lemma_deeper_line_opens_no_shape(d, xf);
    lemma_close_line_opens_no_shape(d, "Shape"@);
    assert forall|j: int| 0 <= j < n implies #[trigger] after.lines[j] == doc.lines[j] by {}
    assert forall|j: int| n <= j < after.lines.len() && starts_with(#[trigger] after.lines[j], shape_open_prefix(d))
        implies starts_with(after.lines[j], shape_on_layer_prefix(d, "Bitmap"@, cut)) by {
        if j == n + 1 {
            assert(after.lines[j] =~= indent(d + 1) + xf);
        } else if j == n + 2 {
            assert(after.lines[j] == indent(d) + seq!['<', '/'] + "Shape"@ + seq!['>']);
        }
    }
}

/// Every shape written for an instance, whatever its type, opens with the
/// type it is drawn as and the layer index of the instance's process type
/// (0 when it has none); the lines before are kept and the depth returns.
pub proof fn law_shapes_on_their_layer(
    state: (XmlDoc, nat, nat),
    idx: Map<Seq<char>, usize>,
    inst: InstanceSpec,
    shape: ShapeView,
)
    requires
        shape matches ShapeView::Bitmap(b) ==> b.texts.len() == 8,
    ensures
        shapes_on_layer(state.0, spec_shape(state, idx, inst, shape).0, shape_kind(inst.obj), cut_index_of(idx, inst)),
{
    let (doc, v, p) = state;
    let cut = cut_index_of(idx, inst);
    let kind = shape_kind(inst.obj);
    lemma_shapes_on_layer_refl(doc, kind, cut);
    match str_of(field(inst.obj, "type"@)) {
        Some(t) => if t == "PathObject"@ {
            match shape {
                ShapeView::Path(sps) => {
                    if str_of(field(inst.obj, "path_data"@)) is Some {
                        lemma_path_shapes_on_layer(doc, v, p, cut, sps, is_closed_of(inst.obj));
                    }
                },
                _ => {},
            }
        } else if t == "EllipseObject"@ {
            match shape {
                ShapeView::Ellipse(rx, ry, x, y) => lemma_ellipse_on_layer(doc, cut, rx, ry, x, y),
                _ => {},
            }
        } else if t == "RasterImage"@ {
            match shape {
                ShapeView::Bitmap(b) => lemma_bitmap_on_layer(doc, cut, b),
                _ => {},
            }
        },
        None => {},
    }
}

} // verus!
