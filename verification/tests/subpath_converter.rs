use lac_to_lbrn2::subpath_converter::{convert, fmt_vertex, Vertex};
use lac_to_lbrn2::types::{Segment, SegmentKind};

fn s(v: &str) -> String {
    v.to_string()
}

fn move_seg(x: &str, y: &str) -> Segment {
    Segment::new(SegmentKind::Move, vec![s(x), s(y)])
}

fn line_seg(x: &str, y: &str) -> Segment {
    Segment::new(SegmentKind::Line, vec![s(x), s(y)])
}

fn bezier_seg(cp1x: &str, cp1y: &str, cp2x: &str, cp2y: &str, ex: &str, ey: &str) -> Segment {
    Segment::new(
        SegmentKind::Bezier,
        vec![s(cp1x), s(cp1y), s(cp2x), s(cp2y), s(ex), s(ey)],
    )
}

#[test]
fn empty_segments_returns_none() {
    assert!(convert(&[], false).is_none());
}

#[test]
fn single_segment_returns_none() {
    // Need at least a Move + one other segment to emit a primitive
    let segs = vec![move_seg("0", "0")];
    assert!(convert(&segs, false).is_none());
}

#[test]
fn move_plus_line_produces_l_primitive() {
    let segs = vec![move_seg("0", "0"), line_seg("10", "0")];
    let (verts, prims) = convert(&segs, false).unwrap();
    assert!(verts.contains("V0 0"));
    assert!(verts.contains("V10 0"));
    assert!(prims.contains("L0 1"));
}

#[test]
fn closed_path_appends_closing_primitive() {
    let segs = vec![move_seg("0", "0"), line_seg("10", "0")];
    let (_, prims) = convert(&segs, true).unwrap();
    // Closing line from last vertex back to vertex 0
    assert!(prims.contains("L1 0"));
}

#[test]
fn bezier_segment_produces_b_primitive() {
    let segs = vec![move_seg("0", "0"), bezier_seg("1", "0", "2", "1", "3", "0")];
    let (_, prims) = convert(&segs, false).unwrap();
    assert!(prims.contains("B0 1"));
}

#[test]
fn vertex_and_primitive_lists_exact() {
    let segs = vec![
        move_seg("0", "0"),
        bezier_seg("1", "0", "2", "1", "3", "0"),
        line_seg("3", "5"),
    ];
    let (verts, prims) = convert(&segs, true).unwrap();
    assert_eq!(
        verts,
        "V0 0c0x1c0y0c1x1V3 0c0x1c1x2c1y1V3 5c0x1c1x1"
    );
    assert_eq!(prims, "B0 1L1 2L2 0");
}

#[test]
fn later_moves_draw_nothing() {
    let segs = vec![move_seg("0", "0"), move_seg("5", "5")];
    assert!(convert(&segs, true).is_none());
    let segs = vec![move_seg("0", "0"), move_seg("5", "5"), line_seg("1", "2")];
    let (verts, prims) = convert(&segs, false).unwrap();
    assert_eq!(verts, "V0 0c0x1c1x1V1 2c0x1c1x1");
    assert_eq!(prims, "L0 1");
}

#[test]
fn vertex_text_with_both_control_points() {
    let v = Vertex {
        x: s("1"),
        y: s("2"),
        c0: Some((s("3"), s("4"))),
        c1: Some((s("5"), s("6"))),
    };
    assert_eq!(fmt_vertex(&v), "V1 2c0x3c0y4c1x5c1y6");
    assert_eq!(fmt_vertex(&Vertex::new(s("7"), s("8"))), "V7 8c0x1c1x1");
}

#[test]
fn many_segments_number_primitives_in_decimal() {
    let mut segs = vec![move_seg("0", "0")];
    for i in 1..=11 {
        segs.push(line_seg(&i.to_string(), "0"));
    }
    let (_, prims) = convert(&segs, false).unwrap();
    assert!(prims.ends_with("L9 10L10 11"));
}
