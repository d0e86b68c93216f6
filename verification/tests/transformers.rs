use lac_to_lbrn2::json::JsonValue;
use lac_to_lbrn2::scene_builder::Instance;
use lac_to_lbrn2::transformers::ellipse::{translation, EllipseTransformer};
use lac_to_lbrn2::transformers::path::PathTransformer;
use lac_to_lbrn2::transformers::raster_image::{BitmapData, RasterImageTransformer};
use lac_to_lbrn2::types::{Segment, SegmentKind};
use lac_to_lbrn2::xml_builder::XmlBuilder;

fn st(s: &str) -> JsonValue {
    JsonValue::String(s.to_string())
}

fn obj(members: Vec<(&str, JsonValue)>) -> JsonValue {
    JsonValue::Object(members.into_iter().map(|(k, v)| (k.to_string(), v)).collect())
}

fn body(xml: XmlBuilder) -> String {
    let out = xml.to_xml();
    out.splitn(2, '\n').nth(1).unwrap().to_string()
}

fn seg(kind: SegmentKind, params: &[&str]) -> Segment {
    Segment::new(kind, params.iter().map(|p| p.to_string()).collect())
}

fn bitmap(png: &[u8]) -> BitmapData {
    BitmapData {
        width: "10".to_string(),
        height: "20".to_string(),
        contrast: "0.5".to_string(),
        brightness: "-0.1".to_string(),
        enhance: "0".to_string(),
        x: "3".to_string(),
        y: "4".to_string(),
        file: "/tmp/o/a&b.png".to_string(),
        png: png.to_vec(),
    }
}

#[test]
fn translation_text() {
    assert_eq!(translation("1.5", "-2"), "1 0 0 1 1.5 -2");
}

#[test]
fn ellipse_shape() {
    let mut xml = XmlBuilder::new();
    EllipseTransformer::new().transform(&mut xml, 2, "5", "6", "7", "8");
    assert_eq!(
        body(xml),
        "<Shape Type=\"Ellipse\" CutIndex=\"2\" Rx=\"5\" Ry=\"6\">\n    <XForm>1 0 0 1 7 8</XForm>\n</Shape>\n"
    );
}

#[test]
fn bitmap_embeds_the_image_as_base64() {
    let mut xml = XmlBuilder::new();
    let r = RasterImageTransformer::new("/tmp/o".to_string());
    assert_eq!(r.objects_path(), "/tmp/o");
    r.transform(&mut xml, 1, &bitmap(b"hello"));
    assert_eq!(
        body(xml),
        "<Shape Type=\"Bitmap\" CutIndex=\"1\" W=\"10\" H=\"20\" Gamma=\"1\" Contrast=\"0.5\" Brightness=\"-0.1\" EnhanceAmount=\"0\" EnhanceRadius=\"0\" EnhanceDenoise=\"0\" File=\"/tmp/o/a&amp;b.png\" SourceHash=\"0\" Data=\"aGVsbG8=\">\n    <XForm>1 0 0 1 3 4</XForm>\n</Shape>\n"
    );
}

#[test]
fn base64_padding_and_empty_image() {
    for (bytes, text) in [
        (&b""[..], ""),
        (&b"f"[..], "Zg=="),
        (&b"fo"[..], "Zm8="),
        (&b"foo"[..], "Zm9v"),
        (&[0xffu8, 0xfe, 0x00, 0x3f][..], "//4APw=="),
    ] {
        let mut xml = XmlBuilder::new();
        RasterImageTransformer::new(String::new()).transform(&mut xml, 0, &bitmap(bytes));
        assert!(body(xml).contains(&format!(" Data=\"{}\">", text)), "{:?}", bytes);
    }
}

#[test]
fn path_shapes_are_numbered_across_objects() {
    let inst = Instance {
        obj: obj(vec![
            ("path_data", st("M 0 0 L 1 1 M 5 5 M 2 2 L 3 3")),
            ("is_closed", JsonValue::Bool(true)),
        ]),
        transforms: vec![],
    };
    let first = Instance {
        obj: obj(vec![("path_data", st("M 0 0 L 1 1")), ("is_closed", JsonValue::Bool(true))]),
        transforms: vec![],
    };
    let placed = vec![
        vec![seg(SegmentKind::Move, &["0", "0"]), seg(SegmentKind::Line, &["1", "1"])],
        vec![seg(SegmentKind::Move, &["5", "5"])],
        vec![seg(SegmentKind::Move, &["2", "2"]), seg(SegmentKind::Line, &["3", "3"])],
    ];
    let mut t = PathTransformer::new();
    let mut xml = XmlBuilder::new();
    t.transform(&inst, &placed, &mut xml, 4);
    t.transform(&first, &placed[..1], &mut xml, 4);
    let out = body(xml);
    assert!(out.starts_with("<Shape Type=\"Path\" CutIndex=\"4\" VertID=\"0\" PrimID=\"0\">\n    <XForm>1 0 0 1 0 0</XForm>\n    <VertList>V0 0c0x1c1x1V1 1c0x1c1x1</VertList>\n    <PrimList>L0 1L1 0</PrimList>\n</Shape>\n"));
    assert!(out.contains("VertID=\"1\" PrimID=\"1\""));
    assert!(out.contains("VertID=\"2\" PrimID=\"2\""));
    assert!(!out.contains("VertID=\"3\""));
}

#[test]
fn path_object_without_path_data_draws_nothing() {
    let inst = Instance { obj: obj(vec![("path_data", JsonValue::Null)]), transforms: vec![] };
    let placed = vec![vec![seg(SegmentKind::Move, &["0", "0"]), seg(SegmentKind::Line, &["1", "1"])]];
    let mut xml = XmlBuilder::new();
    PathTransformer::new().transform(&inst, &placed, &mut xml, 0);
    assert_eq!(body(xml), "");
}
