use lac_to_lbrn2::json::JsonValue;
use lac_to_lbrn2::scene_builder::Instance;
use lac_to_lbrn2::visitors::cut_setting::{sort_by_layer, CutSettingVisitor, LayerParams};
use lac_to_lbrn2::xml_builder::XmlBuilder;

fn st(s: &str) -> JsonValue {
    JsonValue::String(s.to_string())
}

fn obj(members: Vec<(&str, JsonValue)>) -> JsonValue {
    JsonValue::Object(members.into_iter().map(|(k, v)| (k.to_string(), v)).collect())
}

fn strings(v: &[&str]) -> Vec<String> {
    v.iter().map(|s| s.to_string()).collect()
}

fn body(xml: XmlBuilder) -> String {
    let out = xml.to_xml();
    out.splitn(2, '\n').nth(1).unwrap().to_string()
}

#[test]
fn layers_are_sorted_by_index_keeping_order_among_equal_keys() {
    let pts = strings(&["b", "x", "a", "y", "c"]);
    let idx = vec![("a".to_string(), 0), ("b".to_string(), 5), ("c".to_string(), 2)];
    let sorted = sort_by_layer(&pts, &idx);
    assert_eq!(sorted, strings(&["a", "c", "b", "x", "y"]));
}

#[test]
fn cut_and_numbered_layers() {
    let pts = strings(&["Custom", "LaserFillEngrave"]);
    let insts = vec![Instance { obj: obj(vec![("type", st("PathObject"))]), transforms: vec![] }];
    let firsts = vec![("Custom".to_string(), 0usize)];
    let idx = vec![("Custom".to_string(), 3usize), ("LaserFillEngrave".to_string(), 1usize)];
    let params = vec![(
        "LaserFillEngrave".to_string(),
        LayerParams { max_power: Some("35".to_string()), speed: None },
    )];
    let v = CutSettingVisitor::new(&pts, &firsts, &insts, &idx, &params);
    let mut xml = XmlBuilder::new();
    v.visit(&mut xml);
    let expected = "<CutSetting type=\"Scan\">\n    <index Value=\"1\"/>\n    <name Value=\"Fill\"/>\n    <maxPower Value=\"35\"/>\n    <maxPower2 Value=\"35\"/>\n    <speed Value=\"0\"/>\n    <priority Value=\"1\"/>\n</CutSetting>\n<CutSetting type=\"Cut\">\n    <index Value=\"3\"/>\n    <name Value=\"C03\"/>\n    <maxPower Value=\"0\"/>\n    <maxPower2 Value=\"0\"/>\n    <speed Value=\"0\"/>\n    <priority Value=\"3\"/>\n</CutSetting>\n";
    assert_eq!(body(xml), expected);
}

#[test]
fn image_layer_takes_the_dither_of_its_first_image() {
    let pts = strings(&["LaserFillEngrave"]);
    let image = obj(vec![
        ("type", st("RasterImage")),
        ("image_settings", obj(vec![("filtering_type", st("IF_Dither"))])),
    ]);
    let insts = vec![Instance { obj: image, transforms: vec![] }];
    let firsts = vec![("LaserFillEngrave".to_string(), 0usize)];
    let idx = vec![("LaserFillEngrave".to_string(), 1usize)];
    let params = vec![(
        "LaserFillEngrave".to_string(),
        LayerParams { max_power: Some("20".to_string()), speed: Some("3000".to_string()) },
    )];
    let v = CutSettingVisitor::new(&pts, &firsts, &insts, &idx, &params);
    let mut xml = XmlBuilder::new();
    v.visit(&mut xml);
    let expected = "<CutSetting_Img type=\"Image\">\n    <index Value=\"1\"/>\n    <name Value=\"C01\"/>\n    <maxPower Value=\"20\"/>\n    <maxPower2 Value=\"20\"/>\n    <speed Value=\"3000\"/>\n    <priority Value=\"1\"/>\n    <ditherMode Value=\"floyd\"/>\n</CutSetting_Img>\n";
    assert_eq!(body(xml), expected);
}

#[test]
fn large_layer_index_is_not_cut_to_two_digits() {
    let pts = strings(&["Other"]);
    let idx = vec![("Other".to_string(), 123usize)];
    let v = CutSettingVisitor::new(&pts, &[], &[], &idx, &[]);
    let mut xml = XmlBuilder::new();
    v.visit(&mut xml);
    assert!(body(xml).contains("<name Value=\"C123\"/>"));
}
