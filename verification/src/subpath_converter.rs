//! Turns one subpath into LightBurn's vertex list and primitive list.
//!
//! The segments given here carry their points already placed in the drawing
//! and written as text (see [`Segment`]); this module decides which vertices
//! and control points exist and how they are numbered.
use vstd::prelude::*;
use crate::text::{push_char, push_str, push_decimal, decimal};
use crate::types::{Segment, SegmentKind, SegmentSpec, segs_view};

verus! {

/// A vertex of a LightBurn path with its optional control points.
pub struct Vertex {
    pub x: String,
    pub y: String,
    pub c0: Option<(String, String)>,
    pub c1: Option<(String, String)>,
}

/// The abstract value of a [`Vertex`].
pub ghost struct VertexSpec {
    pub x: Seq<char>,
    pub y: Seq<char>,
    pub c0: Option<(Seq<char>, Seq<char>)>,
    pub c1: Option<(Seq<char>, Seq<char>)>,
}

pub open spec fn point_view(p: Option<(String, String)>) -> Option<(Seq<char>, Seq<char>)> {
    match p {
        Some((a, b)) => Some((a@, b@)),
        None => None,
    }
}

impl View for Vertex {
    type V = VertexSpec;

    open spec fn view(&self) -> VertexSpec {
        VertexSpec { x: self.x@, y: self.y@, c0: point_view(self.c0), c1: point_view(self.c1) }
    }
}

impl Vertex {
    /// A vertex at `(x, y)` without control points.
    pub fn new(x: String, y: String) -> (res: Self)
        ensures
            res@ == (VertexSpec { x: x@, y: y@, c0: None, c1: None }),
    {
        Vertex { x, y, c0: None, c1: None }
    }
}

/// The segments after the first that draw something: lines and beziers.
pub open spec fn drawing(segs: Seq<SegmentSpec>) -> Seq<SegmentSpec> {
    segs.skip(1).filter(|s: SegmentSpec| s.kind != SegmentKind::Move)
}

/// The end point of a drawing segment.
pub open spec fn end_point(seg: SegmentSpec) -> (Seq<char>, Seq<char>) {
    if seg.kind == SegmentKind::Bezier {
        (seg.params[4], seg.params[5])
    } else {
        (seg.params[0], seg.params[1])
    }
}

/// Vertex `j` of a subpath whose first segment is `first` and whose drawing
/// segments are `d`: vertex 0 is the start point, vertex `j + 1` the end of
/// `d[j]`. A vertex's outgoing control point `c0` is the first control point
/// of the bezier that leaves it; its incoming control point `c1` is the second
/// control point of the bezier that reaches it.
pub open spec fn vertex_at(first: SegmentSpec, d: Seq<SegmentSpec>, j: int) -> VertexSpec {
    let (x, y) = if j == 0 { (first.params[0], first.params[1]) } else { end_point(d[j - 1]) };
    VertexSpec {
        x,
        y,
        c0: if j < d.len() && d[j].kind == SegmentKind::Bezier {
            Some((d[j].params[0], d[j].params[1]))
        } else {
            None
        },
        c1: if j >= 1 && d[j - 1].kind == SegmentKind::Bezier {
            Some((d[j - 1].params[2], d[j - 1].params[3]))
        } else {
            None
        },
    }
}

/// The vertices of a subpath that starts with `first` and draws `d`.
pub open spec fn vertices_from(first: SegmentSpec, d: Seq<SegmentSpec>) -> Seq<VertexSpec> {
    Seq::new((d.len() + 1) as nat, |j: int| vertex_at(first, d, j))
}

/// All vertices of a subpath.
pub open spec fn vertices_of(segs: Seq<SegmentSpec>) -> Seq<VertexSpec> {
    vertices_from(segs[0], drawing(segs))
}

/// A control point written `c{n}x{x}c{n}y{y}`, or `c{n}x1` when absent.
pub open spec fn control_text(n: char, p: Option<(Seq<char>, Seq<char>)>) -> Seq<char> {
    match p {
        Some((x, y)) => seq!['c', n, 'x'] + x + seq!['c', n, 'y'] + y,
        None => seq!['c', n, 'x', '1'],
    }
}

/// A vertex written `V{x} {y}` followed by its two control points.
pub open spec fn vertex_text(v: VertexSpec) -> Seq<char> {
    seq!['V'] + v.x + seq![' '] + v.y + control_text('0', v.c0) + control_text('1', v.c1)
}

/// The vertex texts of `vs`, concatenated.
pub open spec fn vertices_text(vs: Seq<VertexSpec>) -> Seq<char>
    decreases vs.len(),
{
    if vs.len() == 0 {
        Seq::empty()
    } else {
        vertices_text(vs.drop_last()) + vertex_text(vs.last())
    }
}

/// The primitive joining vertex `j` to vertex `j + 1`: `L` for a line, `B`
/// for a bezier.
pub open spec fn prim_text(kind: SegmentKind, j: nat) -> Seq<char> {
    seq![if kind == SegmentKind::Bezier { 'B' } else { 'L' }] + decimal(j) + seq![' '] + decimal(j + 1)
}

/// The primitives of the first `n` drawing segments, concatenated.
pub open spec fn prims_text(d: Seq<SegmentSpec>, n: nat) -> Seq<char>
    decreases n,
{
    if n == 0 {
        Seq::empty()
    } else {
        prims_text(d, (n - 1) as nat) + prim_text(d[n - 1].kind, (n - 1) as nat)
    }
}

/// The primitive list: one per drawing segment, and for a closed path a line
/// from the last vertex back to vertex 0.
pub open spec fn prim_list(segs: Seq<SegmentSpec>, is_closed: bool) -> Seq<char> {
    let d = drawing(segs);
    prims_text(d, d.len()) + if is_closed && d.len() > 0 {
        seq!['L'] + decimal(d.len()) + seq![' ', '0']
    } else {
        Seq::empty()
    }
}

/// What [`convert`] reads of the segments: a start point, and for every later
/// segment the numbers its kind uses.
pub open spec fn convertible(segs: Seq<SegmentSpec>) -> bool {
    segs.len() >= 2 ==> {
        &&& segs[0].params.len() >= 2
        &&& forall|j: int|
            1 <= j < segs.len() ==> {
                &&& (#[trigger] segs[j]).kind == SegmentKind::Line ==> segs[j].params.len() >= 2
                &&& segs[j].kind == SegmentKind::Bezier ==> segs[j].params.len() >= 6
            }
    }
}

/// The vertex list and primitive list of a subpath; `None` when it has fewer
/// than two segments or nothing after the start draws.
pub open spec fn convert_spec(segs: Seq<SegmentSpec>, is_closed: bool) -> Option<(Seq<char>, Seq<char>)> {
    if segs.len() < 2 || drawing(segs).len() == 0 {
        None
    } else {
        Some((vertices_text(vertices_of(segs)), prim_list(segs, is_closed)))
    }
}

/// The vertex text of `v`.
pub fn fmt_vertex(v: &Vertex) -> (res: String)
    ensures
        res@ == vertex_text(v@),
{
    let mut s = String::new();
    push_char(&mut s, 'V');
    push_str(&mut s, v.x.as_str());
    push_char(&mut s, ' ');
    push_str(&mut s, v.y.as_str());
    push_control(&mut s, '0', &v.c0);
    push_control(&mut s, '1', &v.c1);
    s
}

fn push_control(s: &mut String, n: char, p: &Option<(String, String)>)
    ensures
        final(s)@ == old(s)@ + control_text(n, point_view(*p)),
{
    match p {
        Some((x, y)) => {
            push_char(s, 'c');
            push_char(s, n);
            push_char(s, 'x');
            push_str(s, x.as_str());
            push_char(s, 'c');
            push_char(s, n);
            push_char(s, 'y');
            push_str(s, y.as_str());
        },
        None => {
            push_char(s, 'c');
            push_char(s, n);
            push_char(s, 'x');
            push_char(s, '1');
        },
    }
}

pub open spec fn verts_view(vs: Seq<Vertex>) -> Seq<VertexSpec> {
    vs.map_values(|v: Vertex| v@)
}

proof fn lemma_drawing_step(sv: Seq<SegmentSpec>, k: int)
    requires
        1 <= k < sv.len(),
    ensures
        drawing(sv.take(k + 1)) == if sv[k].kind != SegmentKind::Move {
            drawing(sv.take(k)).push(sv[k])
        } else {
            drawing(sv.take(k))
        },
{
    assert(sv.take(k + 1).skip(1) =~= sv.take(k).skip(1).push(sv[k]));
    sv.take(k).skip(1).lemma_filter_push(sv[k], |s: SegmentSpec| s.kind != SegmentKind::Move);
}

proof fn lemma_prims_prefix(d: Seq<SegmentSpec>, seg: SegmentSpec, n: nat)
    requires
        n <= d.len(),
    ensures
        prims_text(d.push(seg), n) == prims_text(d, n),
    decreases n,
{
    if n > 0 {
        lemma_prims_prefix(d, seg, (n - 1) as nat);
    }
}

proof fn lemma_vertices_line(first: SegmentSpec, d: Seq<SegmentSpec>, seg: SegmentSpec)
    requires
        seg.kind == SegmentKind::Line,
    ensures
        vertices_from(first, d.push(seg)) =~= vertices_from(first, d).push(
            VertexSpec { x: seg.params[0], y: seg.params[1], c0: None, c1: None },
        ),
{
    let d2 = d.push(seg);
    assert forall|j: int| 0 <= j <= d.len() implies vertex_at(first, d2, j) == vertex_at(first, d, j) by {
        if j >= 1 {
            assert(d2[j - 1] == d[j - 1]);
        }
        if j < d.len() {
            assert(d2[j] == d[j]);
        }
    }
}

proof fn lemma_vertices_bezier(first: SegmentSpec, d: Seq<SegmentSpec>, seg: SegmentSpec)
    requires
        seg.kind == SegmentKind::Bezier,
    ensures
        ({
            let old_vs = vertices_from(first, d);
            let last = old_vs[d.len() as int];
            vertices_from(first, d.push(seg)) =~= old_vs.update(
                d.len() as int,
                VertexSpec { c0: Some((seg.params[0], seg.params[1])), ..last },
            ).push(
                VertexSpec {
                    x: seg.params[4],
                    y: seg.params[5],
                    c0: None,
                    c1: Some((seg.params[2], seg.params[3])),
                },
            )
        }),
{
    let d2 = d.push(seg);
    assert forall|j: int| 0 <= j < d.len() implies vertex_at(first, d2, j) == vertex_at(first, d, j) by {
        if j >= 1 {
            assert(d2[j - 1] == d[j - 1]);
        }
        assert(d2[j] == d[j]);
    }
    if d.len() >= 1 {
        assert(d2[d.len() - 1] == d[d.len() - 1]);
    }
}

proof fn lemma_vertices_text_push(vs: Seq<VertexSpec>, v: VertexSpec)
    ensures
        vertices_text(vs.push(v)) == vertices_text(vs) + vertex_text(v),
{
    assert(vs.push(v).drop_last() =~= vs);
}

/// The vertex list and primitive list of one subpath.
///
/// The first segment gives the start point; every later line or bezier adds a
/// vertex and a primitive; moves after the first segment are ignored. A closed
/// path gets a closing line back to vertex 0.
pub fn convert(segments: &[Segment], is_closed: bool) -> (res: Option<(String, String)>)
    requires
        convertible(segs_view(segments@)),
    ensures
        match res {
            Some((v, p)) => convert_spec(segs_view(segments@), is_closed) == Some((v@, p@)),
            None => convert_spec(segs_view(segments@), is_closed) is None,
        },
{
    let ghost sv = segs_view(segments@);
    let n = segments.len();
    if n < 2 {
        return None;
    }
    assert(sv[0] == segments@[0]@);
    let first = &segments[0];
    let mut vertices: Vec<Vertex> = Vec::new();
    vertices.push(Vertex::new(first.params[0].clone(), first.params[1].clone()));
    let mut prims = String::new();
    proof {
        assert(sv.take(1).skip(1) =~= Seq::<SegmentSpec>::empty());
        reveal(Seq::filter);
        assert(drawing(sv.take(1)) =~= Seq::<SegmentSpec>::empty());
        assert(verts_view(vertices@) =~= vertices_from(sv[0], drawing(sv.take(1))));
    }
    for k in 1..n
        invariant
            n == segments@.len(),
            sv == segs_view(segments@),
            convertible(sv),
            n >= 2,
            vertices@.len() == drawing(sv.take(k as int)).len() + 1,
            verts_view(vertices@) == vertices_from(sv[0], drawing(sv.take(k as int))),
            prims@ == prims_text(drawing(sv.take(k as int)), drawing(sv.take(k as int)).len()),
            drawing(sv.take(k as int)).len() < k,
    {
        let ghost d = drawing(sv.take(k as int));
        let ghost sk = sv[k as int];
        assert(sk == segments@[k as int]@);
        proof {
            lemma_drawing_step(sv, k as int);
        }
        let seg = &segments[k];
        let vi = vertices.len();
        match seg.kind {
            SegmentKind::Line => {
                let v = Vertex::new(seg.params[0].clone(), seg.params[1].clone());
                vertices.push(v);
                proof {
                    lemma_vertices_line(sv[0], d, sk);
                    lemma_prims_prefix(d, sk, d.len());
                }
                assert(verts_view(vertices@) =~= vertices_from(sv[0], d).push(v@));
                push_char(&mut prims, 'L');
                push_decimal(&mut prims, (vi - 1) as u64);
                push_char(&mut prims, ' ');
                push_decimal(&mut prims, vi as u64);
                assert(prims@ =~= prims_text(d.push(sk), d.len() + 1));
            },
            SegmentKind::Bezier => {
                let last = vertices.pop().unwrap();
                let ghost last_view = last@;
                assert(last_view == vertices_from(sv[0], d)[d.len() as int]);
                let updated = Vertex {
                    x: last.x,
                    y: last.y,
                    c0: Some((seg.params[0].clone(), seg.params[1].clone())),
                    c1: last.c1,
                };
                vertices.push(updated);
                let mut v = Vertex::new(seg.params[4].clone(), seg.params[5].clone());
                v.c1 = Some((seg.params[2].clone(), seg.params[3].clone()));
                vertices.push(v);
                proof {
                    lemma_vertices_bezier(sv[0], d, sk);
                    lemma_prims_prefix(d, sk, d.len());
                }
                assert(verts_view(vertices@) =~= vertices_from(sv[0], d).update(d.len() as int, updated@).push(v@));
                push_char(&mut prims, 'B');
                push_decimal(&mut prims, (vi - 1) as u64);
                push_char(&mut prims, ' ');
                push_decimal(&mut prims, vi as u64);
                assert(prims@ =~= prims_text(d.push(sk), d.len() + 1));
            },
            SegmentKind::Move => {},
        }
    }
    assert(sv.take(n as int) =~= sv);
    let count = vertices.len();
    if count == 1 {
        return None;
    }
    if is_closed {
        push_char(&mut prims, 'L');
        push_decimal(&mut prims, (count - 1) as u64);
        push_char(&mut prims, ' ');
        push_char(&mut prims, '0');
    }
    let mut vert_list = String::new();
    for i in 0..count
        invariant
            count == vertices@.len(),
            vert_list@ == vertices_text(verts_view(vertices@).take(i as int)),
    {
        let t = fmt_vertex(&vertices[i]);
        push_str(&mut vert_list, t.as_str());
        proof {
            lemma_vertices_text_push(verts_view(vertices@).take(i as int), vertices@[i as int]@);
            assert(verts_view(vertices@).take(i + 1) =~= verts_view(vertices@).take(i as int).push(vertices@[i as int]@));
        }
    }
    assert(verts_view(vertices@).take(count as int) =~= verts_view(vertices@));
    assert(prims@ =~= prim_list(sv, is_closed));
    Some((vert_list, prims))
}

/// Every subpath the path parser yields can be converted.
pub proof fn law_parsed_subpaths_convertible(path: Seq<char>)
    ensures
        forall|k: int|
            0 <= k < crate::path_parser::parse_spec(path).len() ==> convertible(
                #[trigger] crate::path_parser::parse_spec(path)[k],
            ),
{
    crate::path_parser::law_parse_yields_well_formed_subpaths(path);
    assert forall|k: int| 0 <= k < crate::path_parser::parse_spec(path).len() implies convertible(
        #[trigger] crate::path_parser::parse_spec(path)[k],
    ) by {
        let sp = crate::path_parser::parse_spec(path)[k];
        assert(crate::path_parser::is_well_formed_subpath(sp));
        assert forall|j: int| 1 <= j < sp.len() implies {
            &&& (#[trigger] sp[j]).kind == SegmentKind::Line ==> sp[j].params.len() >= 2
            &&& sp[j].kind == SegmentKind::Bezier ==> sp[j].params.len() >= 6
        } by {
            assert(crate::path_parser::is_continuation(sp[j]));
        }
    }
}

/// Closing a subpath adds exactly one primitive: the line from the last vertex
/// back to vertex 0, numbered by how many segments draw, however many there
/// are. The vertices are the same either way.
pub proof fn law_closed_path_adds_closing_line(segs: Seq<SegmentSpec>)
    requires
        convert_spec(segs, false) is Some,
    ensures
        drawing(segs).len() >= 1,
        convert_spec(segs, true) is Some,
        convert_spec(segs, true).unwrap().0 == convert_spec(segs, false).unwrap().0,
        convert_spec(segs, true).unwrap().1 == convert_spec(segs, false).unwrap().1 + seq!['L'] + decimal(
            drawing(segs).len(),
        ) + seq![' ', '0'],
{
    assert(convert_spec(segs, false).unwrap().1 == prims_text(drawing(segs), drawing(segs).len()) + Seq::<char>::empty());
    assert(prims_text(drawing(segs), drawing(segs).len()) + Seq::<char>::empty() =~= prims_text(drawing(segs), drawing(segs).len()));
}

} // verus!
