use lac_to_lbrn2::converter::{
    batch_materials, collect_process_types, default_output, emit_header, first_instance_per_type,
    get_canvas_setting, inject_process_types, is_material_config, is_scene_entry,
    merge_process_params, safe_join, Converter, ProcessParams,
};
use lac_to_lbrn2::json::{JsonNumber, JsonValue};
use lac_to_lbrn2::scene_builder::{Instance, ObjectMap};
use lac_to_lbrn2::types::{Segment, SegmentKind};
use lac_to_lbrn2::visitors::cut_setting::LayerParams;
use lac_to_lbrn2::visitors::shape::ShapeData;
use lac_to_lbrn2::xml_builder::XmlBuilder;

fn st(s: &str) -> JsonValue {
    JsonValue::String(s.to_string())
}

fn num(n: u64) -> JsonValue {
    JsonValue::Number(JsonNumber::PosInt(n))
}

fn obj(members: Vec<(&str, JsonValue)>) -> JsonValue {
    JsonValue::Object(members.into_iter().map(|(k, v)| (k.to_string(), v)).collect())
}

fn settings_with(key: &str, list: Vec<JsonValue>) -> JsonValue {
    obj(vec![(
        "canvas_settings",
        JsonValue::Array(vec![obj(vec![(key, JsonValue::Array(list))])]),
    )])
}

fn instance(process_type: Option<&str>, kind: &str) -> Instance {
    let mut members = vec![("type", st(kind)), ("color", st("#000000"))];
    if let Some(pt) = process_type {
        members.push(("process_type", st(pt)));
    }
    Instance { obj: obj(members), transforms: vec![] }
}

fn names(v: &[String]) -> Vec<&str> {
    v.iter().map(|s| s.as_str()).collect()
}

#[test]
fn converter_keeps_its_arguments() {
    let c = Converter::new("in.lac".to_string(), "out.lbrn2".to_string(), true);
    assert_eq!(c.input_path(), "in.lac");
    assert_eq!(c.output_path(), "out.lbrn2");
    assert!(c.normalizes());
}

#[test]
fn known_process_types_get_table_indices_and_others_count_from_three() {
    let c = Converter::new(String::new(), String::new(), false);
    let pts: Vec<String> = ["Custom", "LaserLineCut", "Other", "LaserLineEngrave", "LaserFillEngrave"]
        .iter()
        .map(|s| s.to_string())
        .collect();
    let map = c.build_index_map(&pts);
    let got: Vec<(&str, usize)> = map.iter().map(|(k, v)| (k.as_str(), *v)).collect();
    assert_eq!(
        got,
        vec![
            ("Custom", 3),
            ("LaserLineCut", 2),
            ("Other", 4),
            ("LaserLineEngrave", 0),
            ("LaserFillEngrave", 1),
        ]
    );
}

#[test]
fn index_map_of_no_process_types_is_empty() {
    let c = Converter::new(String::new(), String::new(), false);
    assert!(c.build_index_map(&[]).is_empty());
}

#[test]
fn process_types_are_collected_once_in_order_of_appearance() {
    let insts = vec![
        instance(Some("LaserLineCut"), "PathObject"),
        instance(None, "PathObject"),
        instance(Some("LaserFillEngrave"), "EllipseObject"),
        instance(Some("LaserLineCut"), "PathObject"),
    ];
    assert_eq!(names(&collect_process_types(&insts)), vec!["LaserLineCut", "LaserFillEngrave"]);
    let firsts = first_instance_per_type(&insts);
    let got: Vec<(&str, usize)> = firsts.iter().map(|(k, v)| (k.as_str(), *v)).collect();
    assert_eq!(got, vec![("LaserLineCut", 0), ("LaserFillEngrave", 2)]);
}

#[test]
fn non_string_process_type_is_ignored() {
    let insts = vec![Instance {
        obj: obj(vec![("process_type", num(3))]),
        transforms: vec![],
    }];
    assert!(collect_process_types(&insts).is_empty());
    assert!(first_instance_per_type(&insts).is_empty());
}

#[test]
fn canvas_setting_reads_the_first_canvas() {
    let settings = settings_with("object_settings", vec![num(1)]);
    match get_canvas_setting(&settings, "object_settings") {
        Some(JsonValue::Array(items)) => assert_eq!(items.len(), 1),
        _ => panic!("expected the list"),
    }
    assert!(get_canvas_setting(&settings, "missing").is_none());
    assert!(get_canvas_setting(&JsonValue::Null, "object_settings").is_none());
    let keyed = obj(vec![(
        "canvas_settings",
        obj(vec![("0", obj(vec![("k", st("v"))]))]),
    )]);
    assert!(matches!(get_canvas_setting(&keyed, "k"), Some(JsonValue::String(s)) if s == "v"));
}

#[test]
fn object_settings_assign_process_types() {
    let canvas = obj(vec![(
        "obj_list",
        JsonValue::Array(vec![
            obj(vec![("obj_id", st("7")), ("type", st("PathObject"))]),
            obj(vec![("obj_id", num(8)), ("type", st("PathObject"))]),
        ]),
    )]);
    let mut map = ObjectMap::from_canvas(&canvas);
    let settings = settings_with(
        "object_settings",
        vec![
            obj(vec![("obj_id", num(7)), ("process_type", st("LaserLineCut"))]),
            obj(vec![("obj_id", st("8")), ("process_type", st("LaserFillEngrave"))]),
            obj(vec![("obj_id", st("9")), ("process_type", st("LaserLineEngrave"))]),
            obj(vec![("obj_id", st("8")), ("process_type", num(1))]),
        ],
    );
    inject_process_types(&mut map, &settings);
    let pt = |id: &str| match map.get(id).and_then(|o| o.get("process_type")) {
        Some(JsonValue::String(s)) => Some(s.clone()),
        _ => None,
    };
    assert_eq!(pt("7"), Some("LaserLineCut".to_string()));
    assert_eq!(pt("8"), Some("LaserFillEngrave".to_string()));
    assert!(map.get("9").is_none());
}

#[test]
fn settings_without_object_settings_change_nothing() {
    let canvas = obj(vec![(
        "obj_list",
        JsonValue::Array(vec![obj(vec![("obj_id", st("1"))])]),
    )]);
    let mut map = ObjectMap::from_canvas(&canvas);
    inject_process_types(&mut map, &JsonValue::Null);
    assert!(map.get("1").unwrap().get("process_type").is_none());
}

#[test]
fn batch_materials_skip_missing_and_empty_names() {
    let settings = settings_with(
        "making_batch_list",
        vec![
            obj(vec![("material_settings_name", st("Basswood 3mm"))]),
            obj(vec![("material_settings_name", st(""))]),
            obj(vec![]),
            obj(vec![("material_settings_name", st("Acrylic"))]),
        ],
    );
    assert_eq!(names(&batch_materials(&settings)), vec!["Basswood 3mm", "Acrylic"]);
    assert!(batch_materials(&JsonValue::Null).is_empty());
}

#[test]
fn material_config_file_names() {
    assert!(is_material_config("Basswood 3mm Process @BBL.config", "Basswood 3mm"));
    assert!(!is_material_config("Basswood 3mm Process @BBL.json", "Basswood 3mm"));
    assert!(!is_material_config("Acrylic Process @BBL.config", "Basswood 3mm"));
    assert!(!is_material_config("Basswood 3mm.config", "Basswood 3mm"));
    assert!(is_material_config("A Process @.config", "A"));
}

fn number(v: &Option<JsonNumber>) -> Option<f64> {
    match v {
        Some(JsonNumber::PosInt(n)) => Some(*n as f64),
        Some(JsonNumber::NegInt(n)) => Some(*n as f64),
        Some(JsonNumber::Float(b)) => Some(f64::from_bits(*b)),
        None => None,
    }
}

#[test]
fn first_material_with_a_section_wins() {
    let first = obj(vec![
        (
            "LaserLineCut",
            obj(vec![("max_power", num(80)), ("speed", JsonValue::Number(JsonNumber::Float(12.5f64.to_bits())))]),
        ),
        ("Unrelated", obj(vec![("max_power", num(1))])),
    ]);
    let second = obj(vec![
        ("LaserLineCut", obj(vec![("max_power", num(10)), ("speed", num(10))])),
        ("LaserFillEngrave", obj(vec![("speed", st("fast"))])),
    ]);
    let mut params: Vec<(String, ProcessParams)> = Vec::new();
    merge_process_params(&mut params, &first);
    merge_process_params(&mut params, &second);
    let got: Vec<(&str, Option<f64>, Option<f64>)> = params
        .iter()
        .map(|(k, p)| (k.as_str(), number(&p.max_power), number(&p.speed)))
        .collect();
    assert_eq!(
        got,
        vec![("LaserLineCut", Some(80.0), Some(12.5)), ("LaserFillEngrave", None, None)]
    );
}

#[test]
fn archive_entries_of_the_scene() {
    assert!(is_scene_entry("2D/2dmodel.json"));
    assert!(is_scene_entry("Metadata2D/project_settings.json"));
    assert!(!is_scene_entry("3D/model.json"));
    assert!(!is_scene_entry("2D"));
    assert!(!is_scene_entry("metadata2D/x"));
}

#[test]
fn safe_join_drops_empty_and_parent_parts() {
    assert_eq!(names(&safe_join("2D/Objects/a.png")), vec!["2D", "Objects", "a.png"]);
    assert_eq!(names(&safe_join("../../etc//passwd")), vec!["etc", "passwd"]);
    assert_eq!(names(&safe_join("2D/./x/..a/")), vec!["2D", ".", "x", "..a"]);
    assert!(safe_join("").is_empty());
    assert!(safe_join("/../").is_empty());
}

#[test]
fn default_output_replaces_lac_extension() {
    assert_eq!(default_output("input.lac"), "input.lbrn2");
    assert_eq!(default_output("dir/INPUT.LaC"), "dir/INPUT.lbrn2");
    assert_eq!(default_output("input.zip"), "input.zip.lbrn2");
    assert_eq!(default_output(".lac"), ".lbrn2");
    assert_eq!(default_output("lac"), "lac.lbrn2");
}

#[test]
fn header_settings_are_written_in_order() {
    let mut xml = XmlBuilder::new();
    emit_header(&mut xml);
    let out = xml.to_xml();
    assert!(out.starts_with(
        "<?xml version=\"1.0\" encoding=\"UTF-8\"?>\n<VariableText>\n    <Start Value=\"0\"/>\n    <End Value=\"999\"/>\n"
    ));
    assert!(out.contains("</VariableText>\n<UIPrefs>\n    <Optimize_ByLayer Value=\"0\"/>\n    <Optimize_ByGroup Value=\"-1\"/>\n"));
    assert!(out.ends_with("    <Optimize_OverlapDist Value=\"0.025\"/>\n</UIPrefs>\n"));
}

fn seg(kind: SegmentKind, params: &[&str]) -> Segment {
    Segment::new(kind, params.iter().map(|p| p.to_string()).collect())
}

#[test]
fn render_writes_a_whole_project() {
    let path = Instance {
        obj: obj(vec![
            ("type", st("PathObject")),
            ("color", st("#000000")),
            ("process_type", st("LaserLineCut")),
            ("path_data", st("M 0 0 L 10 0")),
        ]),
        transforms: vec![],
    };
    let insts = vec![path, instance(Some("LaserLineEngrave"), "EllipseObject")];
    let shapes = vec![
        ShapeData::Path(vec![vec![
            seg(SegmentKind::Move, &["0", "0"]),
            seg(SegmentKind::Line, &["10", "0"]),
        ]]),
        ShapeData::Ellipse {
            rx: "2".to_string(),
            ry: "3".to_string(),
            x: "4".to_string(),
            y: "5".to_string(),
        },
    ];
    let params = vec![(
        "LaserLineCut".to_string(),
        LayerParams { max_power: Some("50".to_string()), speed: Some("100".to_string()) },
    )];
    let c = Converter::new("a.lac".to_string(), "a.lbrn2".to_string(), false);
    let out = c.render(&insts, &shapes, &params, "/tmp/x/2D/Objects".to_string());
    let expected = [
        "<?xml version=\"1.0\" encoding=\"UTF-8\"?>",
        "<LightBurnProject AppVersion=\"2.1.00\" DeviceName=\"LaserPecker_LX1_Rotation\" FormatVersion=\"1\" MaterialHeight=\"0\" MirrorX=\"False\" MirrorY=\"True\" AskForSendName=\"True\">",
        "    <VariableText>",
        "        <Start Value=\"0\"/>",
        "        <End Value=\"999\"/>",
        "        <Current Value=\"0\"/>",
        "        <Increment Value=\"1\"/>",
        "        <AutoAdvance Value=\"0\"/>",
        "    </VariableText>",
        "    <UIPrefs>",
        "        <Optimize_ByLayer Value=\"0\"/>",
        "        <Optimize_ByGroup Value=\"-1\"/>",
        "        <Optimize_ByPriority Value=\"1\"/>",
        "        <Optimize_WhichDirection Value=\"0\"/>",
        "        <Optimize_InnerToOuter Value=\"1\"/>",
        "        <Optimize_ByDirection Value=\"0\"/>",
        "        <Optimize_ReduceTravel Value=\"1\"/>",
        "        <Optimize_HideBacklash Value=\"0\"/>",
        "        <Optimize_ReduceDirChanges Value=\"0\"/>",
        "        <Optimize_ChooseCorners Value=\"0\"/>",
        "        <Optimize_AllowReverse Value=\"1\"/>",
        "        <Optimize_RemoveOverlaps Value=\"0\"/>",
        "        <Optimize_OptimalEntryPoint Value=\"0\"/>",
        "        <Optimize_OverlapDist Value=\"0.025\"/>",
        "    </UIPrefs>",
        "    <CutSetting type=\"Cut\">",
        "        <index Value=\"0\"/>",
        "        <name Value=\"Line\"/>",
        "        <maxPower Value=\"0\"/>",
        "        <maxPower2 Value=\"0\"/>",
        "        <speed Value=\"0\"/>",
        "        <priority Value=\"0\"/>",
        "    </CutSetting>",
        "    <CutSetting type=\"Cut\">",
        "        <index Value=\"2\"/>",
        "        <name Value=\"Cut\"/>",
        "        <maxPower Value=\"50\"/>",
        "        <maxPower2 Value=\"50\"/>",
        "        <speed Value=\"100\"/>",
        "        <priority Value=\"2\"/>",
        "    </CutSetting>",
        "    <Shape Type=\"Path\" CutIndex=\"2\" VertID=\"0\" PrimID=\"0\">",
        "        <XForm>1 0 0 1 0 0</XForm>",
        "        <VertList>V0 0c0x1c1x1V10 0c0x1c1x1</VertList>",
        "        <PrimList>L0 1</PrimList>",
        "    </Shape>",
        "    <Shape Type=\"Ellipse\" CutIndex=\"0\" Rx=\"2\" Ry=\"3\">",
        "        <XForm>1 0 0 1 4 5</XForm>",
        "    </Shape>",
        "    <Notes ShowOnLoad=\"0\" Notes=\"\"/>",
        "</LightBurnProject>",
    ]
    .join("\n")
        + "\n";
    assert_eq!(out, expected);
}

#[test]
fn render_of_an_empty_scene_has_no_layers_or_shapes() {
    let c = Converter::new(String::new(), String::new(), false);
    let out = c.render(&[], &[], &[], String::new());
    assert!(!out.contains("CutSetting"));
    assert!(!out.contains("<Shape"));
    assert!(out.ends_with("    <Notes ShowOnLoad=\"0\" Notes=\"\"/>\n</LightBurnProject>\n"));
}
