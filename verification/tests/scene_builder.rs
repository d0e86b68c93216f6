use lac_to_lbrn2::json::{JsonNumber, JsonValue};
use lac_to_lbrn2::scene_builder::{ObjectMap, SceneBuilder};

fn st(s: &str) -> JsonValue {
    JsonValue::String(s.to_string())
}

fn obj(members: Vec<(&str, JsonValue)>) -> JsonValue {
    JsonValue::Object(members.into_iter().map(|(k, v)| (k.to_string(), v)).collect())
}

fn comp(id: &str, transform: Option<&str>) -> JsonValue {
    let mut m = vec![("obj_id", st(id))];
    if let Some(t) = transform {
        m.push(("transform", st(t)));
    }
    obj(m)
}

fn canvas(components: Vec<JsonValue>, objects: Vec<JsonValue>) -> JsonValue {
    obj(vec![
        ("components", JsonValue::Array(components)),
        ("obj_list", JsonValue::Array(objects)),
    ])
}

fn leaf(id: &str, kind: &str, color: JsonValue) -> JsonValue {
    obj(vec![("obj_id", st(id)), ("type", st(kind)), ("color", color)])
}

fn group(id: &str, children: Vec<JsonValue>) -> JsonValue {
    obj(vec![
        ("obj_id", st(id)),
        ("type", st("AttachedGroup")),
        ("components", JsonValue::Array(children)),
    ])
}

fn id_of(v: &JsonValue) -> String {
    match v.get("obj_id") {
        Some(JsonValue::String(s)) => s.clone(),
        _ => String::new(),
    }
}

#[test]
fn groups_are_walked_depth_first_with_their_transforms() {
    let c = canvas(
        vec![comp("g", Some("1 0 0 1 5 5")), comp("e", None)],
        vec![
            group("g", vec![comp("p", Some("2 0 0 2 0 0")), comp("r", None)]),
            leaf("p", "PathObject", st("#ff0000")),
            leaf("r", "RasterImage", st("#000000")),
            leaf("e", "EllipseObject", st("#00ff00")),
        ],
    );
    let map = ObjectMap::from_canvas(&c);
    let insts = SceneBuilder::new(&c, &map).build();
    let ids: Vec<String> = insts.iter().map(|i| id_of(&i.obj)).collect();
    assert_eq!(ids, vec!["p", "r", "e"]);
    assert_eq!(
        insts[0].transforms,
        vec![Some("1 0 0 1 5 5".to_string()), Some("2 0 0 2 0 0".to_string())]
    );
    assert_eq!(insts[1].transforms, vec![Some("1 0 0 1 5 5".to_string()), None]);
    assert_eq!(insts[2].transforms, vec![None]);
}

#[test]
fn objects_without_colour_unknown_or_of_other_types_are_skipped() {
    let c = canvas(
        vec![comp("a", None), comp("b", None), comp("missing", None), comp("t", None), obj(vec![])],
        vec![
            leaf("a", "PathObject", JsonValue::Null),
            obj(vec![("obj_id", st("b")), ("type", st("PathObject"))]),
            leaf("t", "TextObject", st("#000000")),
        ],
    );
    let map = ObjectMap::from_canvas(&c);
    assert!(SceneBuilder::new(&c, &map).build().is_empty());
}

#[test]
fn numeric_identifiers_match_string_ones() {
    let c = canvas(
        vec![obj(vec![("obj_id", JsonValue::Number(JsonNumber::PosInt(12)))])],
        vec![leaf("12", "EllipseObject", st("#000000"))],
    );
    let map = ObjectMap::from_canvas(&c);
    assert_eq!(SceneBuilder::new(&c, &map).build().len(), 1);
}

#[test]
fn later_objects_replace_earlier_ones_with_the_same_identifier() {
    let c = canvas(
        vec![comp("x", None)],
        vec![leaf("x", "PathObject", JsonValue::Null), leaf("x", "PathObject", st("#000000"))],
    );
    let map = ObjectMap::from_canvas(&c);
    assert!(map.get("x").is_some());
    assert_eq!(SceneBuilder::new(&c, &map).build().len(), 1);
}

#[test]
fn canvas_without_components_has_no_instances() {
    let c = obj(vec![("obj_list", JsonValue::Array(vec![leaf("x", "PathObject", st("#0"))]))]);
    let map = ObjectMap::from_canvas(&c);
    assert!(SceneBuilder::new(&c, &map).build().is_empty());
    assert!(ObjectMap::from_canvas(&JsonValue::Null).get("x").is_none());
}

#[test]
fn bounded_walk_refuses_groups_nested_too_deeply() {
    let c = canvas(
        vec![comp("outer", None)],
        vec![
            group("outer", vec![comp("inner", None)]),
            group("inner", vec![comp("p", None)]),
            leaf("p", "PathObject", st("#000000")),
        ],
    );
    let map = ObjectMap::from_canvas(&c);
    let b = SceneBuilder::new(&c, &map);
    assert!(b.build_within(1).is_none());
    let insts = b.build_within(2).unwrap();
    assert_eq!(insts.len(), 1);
    assert_eq!(insts[0].transforms, vec![None, None, None]);
}

#[test]
fn cyclic_groups_never_fit() {
    let c = canvas(vec![comp("g", None)], vec![group("g", vec![comp("g", None)])]);
    let map = ObjectMap::from_canvas(&c);
    assert!(SceneBuilder::new(&c, &map).build_within(64).is_none());
}

#[test]
fn the_object_table_holds_only_objects_with_identifiers() {
    let c = obj(vec![(
        "obj_list",
        JsonValue::Array(vec![st("1"), obj(vec![("type", st("PathObject"))]), leaf("2", "PathObject", st("#0"))]),
    )]);
    let map = ObjectMap::from_canvas(&c);
    assert!(map.get("1").is_none());
    assert!(map.get("2").is_some());
}
