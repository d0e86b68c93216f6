//! The conversion's own decisions: which layers a scene needs and which index
//! each gets, the fixed header of a LightBurn project, which files of the
//! archive are used and where they go, and the name of the output file.
use vstd::prelude::*;
use crate::constants::{get_process_type_info, process_type_table};
use crate::json::{JsonValue, JsonView, JsonNumber, field, str_of, array_of, element, id_of, json_views, with_field};
use crate::scene_builder::ObjectMap;
use crate::scene_builder::{Instance, InstanceSpec, instances_view};
use crate::utils::id_str;
use crate::text::{push_char, push_str, str_eq, string_of, chars_of};
use crate::xml_builder::{XmlBuilder, XmlDoc, spec_open, spec_close, spec_leaf};

verus! {

/// A conversion job: the archive to read, the project to write, and whether to
/// move the drawing to the origin.
pub struct Converter {
    input: String,
    output: String,
    normalize: bool,
}

impl Converter {
    pub fn new(input: String, output: String, normalize: bool) -> (res: Self)
        ensures
            res.input() == input@,
            res.output() == output@,
            res.normalize() == normalize,
    {
        Self { input, output, normalize }
    }

    pub closed spec fn input(&self) -> Seq<char> {
        self.input@
    }

    pub closed spec fn output(&self) -> Seq<char> {
        self.output@
    }

    pub closed spec fn normalize(&self) -> bool {
        self.normalize
    }

    /// The archive to read.
    pub fn input_path(&self) -> (res: &str)
        ensures
            res@ == self.input(),
    {
        self.input.as_str()
    }

    /// The project file to write.
    pub fn output_path(&self) -> (res: &str)
        ensures
            res@ == self.output(),
    {
        self.output.as_str()
    }

    /// Whether the drawing is moved to the origin.
    pub fn normalizes(&self) -> (res: bool)
        ensures
            res == self.normalize(),
    {
        self.normalize
    }

    /// The layer index of each process type, in the order given: a known
    /// process type gets its table index, every other one the next free index
    /// from 3 on.
    pub fn build_index_map(&self, process_types: &[String]) -> (res: Vec<(String, usize)>)
        requires
            process_types@.len() + 3 <= usize::MAX,
        ensures
            res@.len() == process_types@.len(),
            forall|i: int|
                0 <= i < res@.len() ==> (#[trigger] res@[i]).0@ == process_types@[i]@
                    && res@[i].1 == layer_index(strings_of(process_types@), i),
            crate::assoc::assoc_map(res@) == index_map_upto(strings_of(process_types@), process_types@.len() as nat),
    {
        let mut map: Vec<(String, usize)> = Vec::new();
        let mut next_free: usize = 3;
        let n = process_types.len();
        for i in 0..n
            invariant
                n == process_types@.len(),
                n + 3 <= usize::MAX,
                map@.len() == i,
                next_free == 3 + unknown_count(strings_of(process_types@).take(i as int)),
                unknown_count(strings_of(process_types@).take(i as int)) <= i,
                forall|k: int|
                    0 <= k < i ==> (#[trigger] map@[k]).0@ == process_types@[k]@
                        && map@[k].1 == layer_index(strings_of(process_types@), k),
                crate::assoc::assoc_map(map@) == index_map_upto(strings_of(process_types@), i as nat),
        {
            let ghost old_map = map@;
            let pt = &process_types[i];
            let ghost pts = strings_of(process_types@);
            assert(pts.take(i + 1).drop_last() =~= pts.take(i as int));
            assert(pts.take(i + 1).last() == pts[i as int]);
            match get_process_type_info(pt.as_str()) {
                Some(info) => {
                    map.push((pt.clone(), info.index));
                },
                None => {
                    map.push((pt.clone(), next_free));
                    next_free = next_free + 1;
                },
            }
            assert(map@.drop_last() =~= old_map);
        }
        map
    }
}

pub open spec fn strings_of(v: Seq<String>) -> Seq<Seq<char>> {
    v.map_values(|s: String| s@)
}

/// How many of `pts` are not known process types.
pub open spec fn unknown_count(pts: Seq<Seq<char>>) -> nat
    decreases pts.len(),
{
    if pts.len() == 0 {
        0
    } else {
        unknown_count(pts.drop_last()) + if process_type_table(pts.last()) is None {
            1nat
        } else {
            0nat
        }
    }
}

/// The layer index given to `pts[i]`: its table index when it is a known
/// process type, otherwise 3 plus the number of unknown ones before it.
pub open spec fn layer_index(pts: Seq<Seq<char>>, i: int) -> nat {
    match process_type_table(pts[i]) {
        Some((_, _, index)) => index,
        None => 3 + unknown_count(pts.take(i)),
    }
}

/// The layer index map of the first `n` process types of `pts`.
pub open spec fn index_map_upto(pts: Seq<Seq<char>>, n: nat) -> Map<Seq<char>, usize>
    decreases n,
{
    if n == 0 {
        Map::empty()
    } else {
        index_map_upto(pts, (n - 1) as nat).insert(pts[n - 1], layer_index(pts, n - 1) as usize)
    }
}

proof fn lemma_unknown_count_mono(pts: Seq<Seq<char>>, i: int, j: int)
    requires
        0 <= i < j <= pts.len(),
        process_type_table(pts[i]) is None,
    ensures
        unknown_count(pts.take(i)) < unknown_count(pts.take(j)),
    decreases j - i,
{
    assert(pts.take(j).drop_last() =~= pts.take(j - 1));
    if j - 1 > i {
        lemma_unknown_count_mono(pts, i, j - 1);
        lemma_unknown_count_le(pts, j - 1);
    } else {
        assert(pts.take(j).last() == pts[i]);
    }
}

proof fn lemma_unknown_count_le(pts: Seq<Seq<char>>, j: int)
    requires
        1 <= j <= pts.len(),
    ensures
        unknown_count(pts.take(j - 1)) <= unknown_count(pts.take(j)),
{
    assert(pts.take(j).drop_last() =~= pts.take(j - 1));
}

/// Distinct process types get distinct layer indices.
pub proof fn law_layer_indices_distinct(pts: Seq<Seq<char>>, i: int, j: int)
    requires
        0 <= i < j < pts.len(),
        pts[i] != pts[j],
    ensures
        layer_index(pts, i) != layer_index(pts, j),
{
    match (process_type_table(pts[i]), process_type_table(pts[j])) {
        (None, None) => {
            lemma_unknown_count_mono(pts, i, j);
        },
        _ => {},
    }
}

/// The process type an instance is assigned.
pub open spec fn process_type_of(inst: InstanceSpec) -> Option<Seq<char>> {
    str_of(field(inst.obj, "process_type"@))
}

/// The process types of `insts`, each once, in order of first appearance.
pub open spec fn process_types_spec(insts: Seq<InstanceSpec>) -> Seq<Seq<char>>
    decreases insts.len(),
{
    if insts.len() == 0 {
        Seq::empty()
    } else {
        let r = process_types_spec(insts.drop_last());
        match process_type_of(insts.last()) {
            Some(pt) => if r.contains(pt) {
                r
            } else {
                r.push(pt)
            },
            None => r,
        }
    }
}

fn contains_string(v: &Vec<String>, s: &str) -> (res: bool)
    ensures
        res == strings_of(v@).contains(s@),
{
    let n = v.len();
    for i in 0..n
        invariant
            n == v@.len(),
            forall|k: int| 0 <= k < i ==> strings_of(v@)[k] != s@,
    {
        if str_eq(v[i].as_str(), s) {
            assert(strings_of(v@)[i as int] == s@);
            return true;
        }
    }
    false
}

/// The process type an instance is assigned, if it has one.
pub fn instance_process_type(inst: &Instance) -> (res: Option<&str>)
    ensures
        match res {
            Some(pt) => process_type_of(inst@) == Some(pt@),
            None => process_type_of(inst@) is None,
        },
{
    match inst.obj.get("process_type") {
        Some(v) => v.as_str(),
        None => None,
    }
}

/// The process types of the instances, each once, in order of first appearance.
pub fn collect_process_types(instances: &[Instance]) -> (res: Vec<String>)
    ensures
        strings_of(res@) == process_types_spec(instances_view(instances@)),
{
    let mut res: Vec<String> = Vec::new();
    let n = instances.len();
    for i in 0..n
        invariant
            n == instances@.len(),
            strings_of(res@) == process_types_spec(instances_view(instances@).take(i as int)),
    {
        let ghost iv = instances_view(instances@);
        assert(iv.take(i + 1).drop_last() =~= iv.take(i as int));
        assert(iv.take(i + 1).last() == instances@[i as int]@);
        match instance_process_type(&instances[i]) {
            Some(pt) => {
                if !contains_string(&res, pt) {
                    let ghost before = strings_of(res@);
                    res.push(String::from_str(pt));
                    assert(strings_of(res@) =~= before.push(pt@));
                }
            },
            None => {},
        }
    }
    assert(instances_view(instances@).take(n as int) =~= instances_view(instances@));
    res
}

/// For each process type, the first instance (by position) assigned to it.
pub open spec fn first_instances_spec(insts: Seq<InstanceSpec>) -> Map<Seq<char>, nat>
    decreases insts.len(),
{
    if insts.len() == 0 {
        Map::empty()
    } else {
        let m = first_instances_spec(insts.drop_last());
        match process_type_of(insts.last()) {
            Some(pt) => if m.contains_key(pt) {
                m
            } else {
                m.insert(pt, (insts.len() - 1) as nat)
            },
            None => m,
        }
    }
}

/// For each process type, the position of the first instance assigned to it.
pub fn first_instance_per_type(instances: &[Instance]) -> (res: Vec<(String, usize)>)
    ensures
        crate::assoc::assoc_map(res@) == first_instances_spec(instances_view(instances@)).map_values(|i: nat| i as usize),
        forall|k: int| 0 <= k < res@.len() ==> (#[trigger] res@[k]).1 < instances@.len(),
{
    let mut res: Vec<(String, usize)> = Vec::new();
    let n = instances.len();
    proof {
        assert(crate::assoc::assoc_map(res@) =~= first_instances_spec(Seq::empty()).map_values(|i: nat| i as usize));
    }
    for i in 0..n
        invariant
            n == instances@.len(),
            crate::assoc::assoc_map(res@) == first_instances_spec(instances_view(instances@).take(i as int)).map_values(|i: nat| i as usize),
            forall|k: int| 0 <= k < res@.len() ==> (#[trigger] res@[k]).1 < i,
    {
        let ghost iv = instances_view(instances@);
        let ghost before = first_instances_spec(iv.take(i as int));
        assert(iv.take(i + 1).drop_last() =~= iv.take(i as int));
        assert(iv.take(i + 1).last() == instances@[i as int]@);
        match instance_process_type(&instances[i]) {
            Some(pt) => {
                match crate::assoc::assoc_get(&res, pt) {
                    Some(_) => {},
                    None => {
                        let ghost old_res = res@;
                        res.push((String::from_str(pt), i));
                        assert(res@.drop_last() =~= old_res);
                        assert(crate::assoc::assoc_map(res@) =~= before.insert(pt@, i as nat).map_values(|i: nat| i as usize));
                    },
                }
            },
            None => {},
        }
    }
    assert(instances_view(instances@).take(n as int) =~= instances_view(instances@));
    res
}

// ---------------------------------------------------------------------------
// The project header
// ---------------------------------------------------------------------------

/// The document after writing `<name Value="value"/>`.
pub open spec fn spec_value_leaf(doc: XmlDoc, name: Seq<char>, value: Seq<char>) -> XmlDoc {
    XmlDoc {
        lines: doc.lines.push(
            crate::xml_builder::indent(doc.depth) + seq!['<'] + name + crate::xml_builder::attr_text(
                "Value"@,
                value,
            ) + seq!['/', '>'],
        ),
        depth: doc.depth,
    }
}

/// The document after writing a `Value` leaf for each pair, in order.
pub open spec fn spec_value_leaves(doc: XmlDoc, pairs: Seq<(Seq<char>, Seq<char>)>) -> XmlDoc
    decreases pairs.len(),
{
    if pairs.len() == 0 {
        doc
    } else {
        spec_value_leaf(spec_value_leaves(doc, pairs.drop_last()), pairs.last().0, pairs.last().1)
    }
}


/// The settings of the `VariableText` element.
pub open spec fn variable_text_values() -> Seq<(Seq<char>, Seq<char>)> {
    seq![
        ("Start"@, "0"@),
        ("End"@, "999"@),
        ("Current"@, "0"@),
        ("Increment"@, "1"@),
        ("AutoAdvance"@, "0"@),
    ]
}

/// The settings of the `UIPrefs` element.
pub open spec fn ui_prefs_values() -> Seq<(Seq<char>, Seq<char>)> {
    seq![
        ("Optimize_ByLayer"@, "0"@),
        ("Optimize_ByGroup"@, "-1"@),
        ("Optimize_ByPriority"@, "1"@),
        ("Optimize_WhichDirection"@, "0"@),
        ("Optimize_InnerToOuter"@, "1"@),
        ("Optimize_ByDirection"@, "0"@),
        ("Optimize_ReduceTravel"@, "1"@),
        ("Optimize_HideBacklash"@, "0"@),
        ("Optimize_ReduceDirChanges"@, "0"@),
        ("Optimize_ChooseCorners"@, "0"@),
        ("Optimize_AllowReverse"@, "1"@),
        ("Optimize_RemoveOverlaps"@, "0"@),
        ("Optimize_OptimalEntryPoint"@, "0"@),
        ("Optimize_OverlapDist"@, "0.025"@),
    ]
}

/// The element `name` holding one `Value` leaf per pair.
pub open spec fn spec_settings_block(doc: XmlDoc, name: Seq<char>, pairs: Seq<(Seq<char>, Seq<char>)>) -> XmlDoc {
    spec_close(spec_value_leaves(spec_open(doc, name, Seq::empty()), pairs), name)
}

/// The document after the project header: the `VariableText` and `UIPrefs`
/// settings.
pub open spec fn spec_header(doc: XmlDoc) -> XmlDoc {
    spec_settings_block(
        spec_settings_block(doc, "VariableText"@, variable_text_values()),
        "UIPrefs"@,
        ui_prefs_values(),
    )
}

pub fn value_leaves(xml: &mut XmlBuilder, pairs: &[(&str, &str)])
    ensures
        final(xml)@ == spec_value_leaves(old(xml)@, crate::xml_builder::attr_views(pairs@)),
{
    let n = pairs.len();
    for i in 0..n
        invariant
            n == pairs@.len(),
            xml@ == spec_value_leaves(old(xml)@, crate::xml_builder::attr_views(pairs@).take(i as int)),
    {
        let (name, value) = pairs[i];
        let attrs: [(&str, &str); 1] = [("Value", value)];
        let ghost before = xml@;
        xml.leaf(name, &attrs);
        proof {
            let a = crate::xml_builder::attr_views(attrs@);
            assert(attrs@.len() == 1);
            assert(attrs@[0] == ("Value", value));
            assert(a.last() == ("Value"@, value@));
            assert(a.drop_last() =~= Seq::<(Seq<char>, Seq<char>)>::empty());
            assert(crate::xml_builder::attrs_text(a.drop_last()) =~= Seq::<char>::empty());
            assert(crate::xml_builder::attrs_text(a) == crate::xml_builder::attrs_text(a.drop_last()) + crate::xml_builder::attr_text(a.last().0, a.last().1));
            assert(crate::xml_builder::attrs_text(a) =~= crate::xml_builder::attr_text("Value"@, value@));
            assert(crate::xml_builder::attr_views(pairs@).take(i + 1).drop_last() =~= crate::xml_builder::attr_views(pairs@).take(i as int));
        }
    }
    assert(crate::xml_builder::attr_views(pairs@).take(n as int) =~= crate::xml_builder::attr_views(pairs@));
}

pub fn settings_block(xml: &mut XmlBuilder, name: &str, pairs: &[(&str, &str)])
    requires
        old(xml)@.depth + 1 < usize::MAX,
    ensures
        final(xml)@ == spec_settings_block(old(xml)@, name@, crate::xml_builder::attr_views(pairs@)),
{
    let empty: [(&str, &str); 0] = [];
    xml.open(name, &empty);
    assert(crate::xml_builder::attr_views(empty@) =~= Seq::<(Seq<char>, Seq<char>)>::empty());
    value_leaves(xml, pairs);
    proof {
        lemma_value_leaves_depth(spec_open(old(xml)@, name@, Seq::empty()), crate::xml_builder::attr_views(pairs@));
    }
    xml.close(name);
}

/// Value leaves keep the depth.
pub proof fn lemma_value_leaves_depth(doc: XmlDoc, pairs: Seq<(Seq<char>, Seq<char>)>)
    ensures
        spec_value_leaves(doc, pairs).depth == doc.depth,
    decreases pairs.len(),
{
    if pairs.len() > 0 {
        lemma_value_leaves_depth(doc, pairs.drop_last());
    }
}

/// Writes the `VariableText` and `UIPrefs` settings of a LightBurn project.
pub fn emit_header(xml: &mut XmlBuilder)
    requires
        old(xml)@.depth + 1 < usize::MAX,
    ensures
        final(xml)@ == spec_header(old(xml)@),
{
    let variable_text: [(&str, &str); 5] = [
        ("Start", "0"),
        ("End", "999"),
        ("Current", "0"),
        ("Increment", "1"),
        ("AutoAdvance", "0"),
    ];
    assert(crate::xml_builder::attr_views(variable_text@) =~= variable_text_values());
    settings_block(xml, "VariableText", &variable_text);
    let ui_prefs: [(&str, &str); 14] = [
        ("Optimize_ByLayer", "0"),
        ("Optimize_ByGroup", "-1"),
        ("Optimize_ByPriority", "1"),
        ("Optimize_WhichDirection", "0"),
        ("Optimize_InnerToOuter", "1"),
        ("Optimize_ByDirection", "0"),
        ("Optimize_ReduceTravel", "1"),
        ("Optimize_HideBacklash", "0"),
        ("Optimize_ReduceDirChanges", "0"),
        ("Optimize_ChooseCorners", "0"),
        ("Optimize_AllowReverse", "1"),
        ("Optimize_RemoveOverlaps", "0"),
        ("Optimize_OptimalEntryPoint", "0"),
        ("Optimize_OverlapDist", "0.025"),
    ];
    assert(crate::xml_builder::attr_views(ui_prefs@) =~= ui_prefs_values());
    proof {
        lemma_value_leaves_depth(spec_open(old(xml)@, "VariableText"@, Seq::empty()), variable_text_values());
    }
    settings_block(xml, "UIPrefs", &ui_prefs);
}

// ---------------------------------------------------------------------------
// Project settings
// ---------------------------------------------------------------------------

/// `v/0`: the first element of an array, or the member named `0` of an object.
pub open spec fn step_zero(v: JsonView) -> JsonView {
    match v {
        JsonView::Array(_) => element(v, 0),
        JsonView::Object(_) => field(v, "0"@),
        _ => JsonView::Null,
    }
}

/// `settings/canvas_settings/0/<key>`, null where a step is missing.
pub open spec fn canvas_setting(settings: JsonView, key: Seq<char>) -> JsonView {
    field(step_zero(field(settings, "canvas_settings"@)), key)
}

/// The list under `settings/canvas_settings/0/<key>`; empty when there is none.
pub open spec fn canvas_setting_list(settings: JsonView, key: Seq<char>) -> Seq<JsonView> {
    match array_of(canvas_setting(settings, key)) {
        Some(items) => items,
        None => Seq::empty(),
    }
}

/// The member `key` of the first canvas's settings.
pub fn get_canvas_setting<'a>(settings: &'a JsonValue, key: &str) -> (res: Option<&'a JsonValue>)
    ensures
        match res {
            Some(v) => canvas_setting(settings@, key@) == v@,
            None => canvas_setting(settings@, key@) == JsonView::Null,
        },
{
    let canvases = match settings.get("canvas_settings") {
        Some(c) => c,
        None => return None,
    };
    let first = match canvases {
        JsonValue::Array(_) => canvases.at(0),
        JsonValue::Object(_) => canvases.get("0"),
        _ => None,
    };
    match first {
        Some(f) => f.get(key),
        None => None,
    }
}

/// The map after the object settings `list`: each entry with an `obj_id` and a
/// string `process_type` assigns that process type to the object with that
/// identifier, if the map has it.
pub open spec fn inject_spec(map: Map<Seq<char>, JsonView>, list: Seq<JsonView>) -> Map<Seq<char>, JsonView>
    decreases list.len(),
{
    if list.len() == 0 {
        map
    } else {
        let m = inject_spec(map, list.drop_last());
        let s = list.last();
        match (id_of(field(s, "obj_id"@)), str_of(field(s, "process_type"@))) {
            (Some(id), Some(pt)) => if m.contains_key(id) {
                m.insert(id, with_field(m[id], "process_type"@, JsonView::String(pt)))
            } else {
                m
            },
            _ => m,
        }
    }
}

/// Assigns the process types the project settings name to the objects.
pub fn inject_process_types(obj_map: &mut ObjectMap, settings: &JsonValue)
    requires
        old(obj_map).holds_objects(),
    ensures
        final(obj_map).holds_objects(),
        final(obj_map)@ == inject_spec(old(obj_map)@, canvas_setting_list(settings@, "object_settings"@)),
{
    let list = match get_canvas_setting(settings, "object_settings") {
        Some(v) => v.as_array(),
        None => None,
    };
    let items = match list {
        Some(items) => items,
        None => {
            return;
        },
    };
    let ghost lv = json_views(items@);
    let n = items.len();
    for i in 0..n
        invariant
            n == items@.len(),
            lv == json_views(items@),
            obj_map.holds_objects(),
            obj_map@ == inject_spec(old(obj_map)@, lv.take(i as int)),
    {
        let s = &items[i];
        assert(lv.take(i + 1).drop_last() =~= lv.take(i as int));
        assert(lv.take(i + 1).last() == s@);
        let id = match s.get("obj_id") {
            Some(v) => id_str(v),
            None => None,
        };
        let pt = match s.get("process_type") {
            Some(v) => v.as_str(),
            None => None,
        };
        match (id, pt) {
            (Some(id), Some(pt)) => {
                let val = JsonValue::String(String::from_str(pt));
                obj_map.set_field_of(id.as_str(), "process_type", val);
            },
            _ => {},
        }
    }
    assert(lv.take(n as int) =~= lv);
}

/// The power and speed a material's settings give a process type, as the
/// numbers were written.
pub struct ProcessParams {
    pub max_power: Option<JsonNumber>,
    pub speed: Option<JsonNumber>,
}

/// The number a value holds.
pub open spec fn number_of(v: JsonView) -> Option<JsonNumber> {
    match v {
        JsonView::Number(n) => Some(n),
        _ => None,
    }
}

fn number_at(v: &JsonValue, key: &str) -> (res: Option<JsonNumber>)
    ensures
        res == number_of(field(v@, key@)),
{
    match v.get(key) {
        Some(JsonValue::Number(n)) => Some(*n),
        _ => None,
    }
}

/// Whether an object has a member named `key`.
pub open spec fn has_member(v: JsonView, key: Seq<char>) -> bool {
    match v {
        JsonView::Object(entries) => crate::json::member_index(entries, key) is Some,
        _ => false,
    }
}

/// The parameters after reading one material's settings: every known process
/// type not yet in `params` whose section the settings have gets that
/// section's `max_power` and `speed`.
pub open spec fn merge_spec(params: Map<Seq<char>, (Option<JsonNumber>, Option<JsonNumber>)>, config: JsonView, keys: Seq<Seq<char>>) -> Map<Seq<char>, (Option<JsonNumber>, Option<JsonNumber>)>
    decreases keys.len(),
{
    if keys.len() == 0 {
        params
    } else {
        let m = merge_spec(params, config, keys.drop_last());
        let pt = keys.last();
        if !m.contains_key(pt) && has_member(config, pt) {
            let section = field(config, pt);
            m.insert(pt, (number_of(field(section, "max_power"@)), number_of(field(section, "speed"@))))
        } else {
            m
        }
    }
}

pub open spec fn params_view(entries: Seq<(String, ProcessParams)>) -> Map<Seq<char>, (Option<JsonNumber>, Option<JsonNumber>)> {
    crate::assoc::assoc_map(entries).map_values(|p: ProcessParams| (p.max_power, p.speed))
}

fn has_member_exec(v: &JsonValue, key: &str) -> (res: bool)
    ensures
        res == has_member(v@, key@),
{
    match v {
        JsonValue::Object(entries) => {
            let r = JsonValue::entry_index(entries, key);
            r.is_some()
        },
        _ => false,
    }
}

/// Adds to `params` the sections of one material's settings that give a
/// process type not yet present.
pub fn merge_process_params(params: &mut Vec<(String, ProcessParams)>, config: &JsonValue)
    ensures
        params_view(final(params)@) == merge_spec(params_view(old(params)@), config@, crate::constants::process_type_names()),
{
    let keys: [&str; 3] = ["LaserLineEngrave", "LaserFillEngrave", "LaserLineCut"];
    let ghost names = crate::constants::process_type_names();
    assert(keys@.map_values(|k: &str| k@) =~= names);
    for i in 0..3
        invariant
            names == crate::constants::process_type_names(),
            keys@.map_values(|k: &str| k@) == names,
            params_view(params@) == merge_spec(params_view(old(params)@), config@, names.take(i as int)),
    {
        let pt = keys[i];
        assert(names.take(i + 1).drop_last() =~= names.take(i as int));
        assert(names.take(i + 1).last() == pt@);
        let present = crate::assoc::assoc_get(params, pt).is_some();
        if !present && has_member_exec(config, pt) {
            let section = config.get(pt);
            let (max_power, speed) = match section {
                Some(sec) => (number_at(sec, "max_power"), number_at(sec, "speed")),
                None => (None, None),
            };
            let ghost old_params = params@;
            params.push((String::from_str(pt), ProcessParams { max_power, speed }));
            assert(params@.drop_last() =~= old_params);
            assert(params_view(params@) =~= params_view(old_params).insert(pt@, (max_power, speed)));
        }
    }
    assert(names.take(3) =~= names);
}

/// The material names of the project's batches, in order, skipping batches
/// without one.
pub open spec fn materials_spec(batches: Seq<JsonView>) -> Seq<Seq<char>>
    decreases batches.len(),
{
    if batches.len() == 0 {
        Seq::empty()
    } else {
        let r = materials_spec(batches.drop_last());
        match str_of(field(batches.last(), "material_settings_name"@)) {
            Some(m) => if m.len() > 0 {
                r.push(m)
            } else {
                r
            },
            None => r,
        }
    }
}

/// The material names of the project's batches, in order.
pub fn batch_materials(settings: &JsonValue) -> (res: Vec<String>)
    ensures
        strings_of(res@) == materials_spec(canvas_setting_list(settings@, "making_batch_list"@)),
{
    let mut res: Vec<String> = Vec::new();
    let list = match get_canvas_setting(settings, "making_batch_list") {
        Some(v) => v.as_array(),
        None => None,
    };
    let items = match list {
        Some(items) => items,
        None => {
            assert(strings_of(res@) =~= Seq::empty());
            return res;
        },
    };
    let ghost lv = json_views(items@);
    let n = items.len();
    assert(strings_of(res@) =~= materials_spec(lv.take(0)));
    for i in 0..n
        invariant
            n == items@.len(),
            lv == json_views(items@),
            strings_of(res@) == materials_spec(lv.take(i as int)),
    {
        let b = &items[i];
        assert(lv.take(i + 1).drop_last() =~= lv.take(i as int));
        assert(lv.take(i + 1).last() == b@);
        let name = match b.get("material_settings_name") {
            Some(v) => v.as_str(),
            None => None,
        };
        match name {
            Some(m) => {
                if !m.is_empty() {
                    let ghost before = strings_of(res@);
                    res.push(String::from_str(m));
                    assert(strings_of(res@) =~= before.push(m@));
                }
            },
            None => {},
        }
    }
    assert(lv.take(n as int) =~= lv);
    res
}

/// Whether a file of the archive holds the process settings of `material`:
/// its name starts with `"<material> Process @"` and ends with `.config`.
pub open spec fn is_material_config_spec(file_name: Seq<char>, material: Seq<char>) -> bool {
    let prefix = material + " Process @"@;
    let suffix = ".config"@;
    &&& prefix.len() <= file_name.len()
    &&& file_name.subrange(0, prefix.len() as int) == prefix
    &&& suffix.len() <= file_name.len()
    &&& file_name.subrange(file_name.len() - suffix.len(), file_name.len() as int) == suffix
}

/// Whether a file of the archive holds the process settings of `material`.
pub fn is_material_config(file_name: &str, material: &str) -> (res: bool)
    ensures
        res == is_material_config_spec(file_name@, material@),
{
    let name = chars_of(file_name);
    let mut prefix = chars_of(material);
    let rest = chars_of(" Process @");
    let mut rest_mut = rest;
    prefix.append(&mut rest_mut);
    let suffix = chars_of(".config");
    let starts = prefix.len() <= name.len() && seq_starts(&name, &prefix, 0);
    let ends = suffix.len() <= name.len() && seq_starts(&name, &suffix, name.len() - suffix.len());
    proof {
        if prefix@.len() <= name@.len() {
            assert(name@.subrange(0, prefix@.len() as int) =~= prefix@ <==> (forall|k: int| 0 <= k < prefix@.len() ==> name@[k] == prefix@[k]));
        }
        if suffix@.len() <= name@.len() {
            let off = name@.len() - suffix@.len();
            assert(name@.subrange(off, name@.len() as int) =~= suffix@ <==> (forall|k: int| 0 <= k < suffix@.len() ==> name@[off + k] == suffix@[k]));
        }
    }
    starts && ends
}

/// Whether `s[at..]` starts with `p`.
fn seq_starts(s: &Vec<char>, p: &Vec<char>, at: usize) -> (res: bool)
    requires
        at + p@.len() <= s@.len(),
    ensures
        res == forall|k: int| 0 <= k < p@.len() ==> s@[at + k] == p@[k],
{
    let n = p.len();
    let sl = s.len();
    for k in 0..n
        invariant
            n == p@.len(),
            sl == s@.len(),
            at + n <= s@.len(),
            forall|j: int| 0 <= j < k ==> s@[at + j] == p@[j],
    {
        if s[at + k] != p[k] {
            return false;
        }
    }
    true
}

// ---------------------------------------------------------------------------
// Files and names
// ---------------------------------------------------------------------------

/// Whether a part of an archive entry's name is kept when it is placed under
/// the extraction directory: empty parts and `..` are dropped.
pub open spec fn keeps_component(c: Seq<char>) -> bool {
    c.len() > 0 && c != seq!['.', '.']
}

/// The parts of `s` between `/` separators, empty ones included.
pub open spec fn slash_parts(s: Seq<char>) -> Seq<Seq<char>>
    decreases s.len(),
{
    if s.len() == 0 {
        seq![Seq::empty()]
    } else {
        let p = slash_parts(s.drop_last());
        if s.last() == '/' {
            p.push(Seq::empty())
        } else {
            p.update(p.len() - 1, p.last().push(s.last()))
        }
    }
}

proof fn lemma_slash_parts_nonempty(s: Seq<char>)
    ensures
        slash_parts(s).len() >= 1,
    decreases s.len(),
{
    if s.len() > 0 {
        lemma_slash_parts_nonempty(s.drop_last());
    }
}

/// The parts of `name` between `/` separators that are kept.
pub open spec fn kept_parts(name: Seq<char>) -> Seq<Seq<char>> {
    slash_parts(name).filter(|c: Seq<char>| keeps_component(c))
}

/// The parts of an archive entry's name that are placed, in order, under the
/// extraction directory; empty parts and `..` are dropped so that the entry
/// cannot land outside it.
pub fn safe_join(name: &str) -> (res: Vec<String>)
    ensures
        strings_of(res@) == kept_parts(name@),
{
    let cs = chars_of(name);
    let n = cs.len();
    let mut res: Vec<String> = Vec::new();
    let mut cur: Vec<char> = Vec::new();
    let ghost keep = |c: Seq<char>| keeps_component(c);
    proof {
        reveal(Seq::filter);
        assert(slash_parts(cs@.take(0)).drop_last() =~= Seq::<Seq<char>>::empty());
        assert(strings_of(res@) =~= Seq::<Seq<char>>::empty().filter(keep));
    }
    for i in 0..n
        invariant
            n == cs@.len(),
            cs@ == name@,
            keep == (|c: Seq<char>| keeps_component(c)),
            slash_parts(cs@.take(i as int)).len() >= 1,
            strings_of(res@) == slash_parts(cs@.take(i as int)).drop_last().filter(keep),
            cur@ == slash_parts(cs@.take(i as int)).last(),
    {
        let c = cs[i];
        let ghost p = slash_parts(cs@.take(i as int));
        assert(cs@.take(i + 1).drop_last() =~= cs@.take(i as int));
        assert(cs@.take(i + 1).last() == c);
        if c == '/' {
            let keep_it = cur.len() > 0 && !(cur.len() == 2 && cur[0] == '.' && cur[1] == '.');
            assert(keep_it == keeps_component(cur@)) by {
                if cur@ == seq!['.', '.'] {
                    assert(cur@.len() == 2 && cur@[0] == '.' && cur@[1] == '.');
                }
                if cur@.len() == 2 && cur@[0] == '.' && cur@[1] == '.' {
                    assert(cur@ =~= seq!['.', '.']);
                }
            }
            proof {
                p.drop_last().lemma_filter_push(p.last(), keep);
                assert(p.drop_last().push(p.last()) =~= p);
                assert(p.push(Seq::empty()).drop_last() =~= p);
            }
            if keep_it {
                let ghost before = strings_of(res@);
                res.push(string_of(cur.as_slice()));
                assert(strings_of(res@) =~= before.push(cur@));
            }
            cur = Vec::new();
            assert(cur@ =~= Seq::<char>::empty());
        } else {
            cur.push(c);
            assert(p.update(p.len() - 1, p.last().push(c)).drop_last() =~= p.drop_last());
        }
    }
    assert(cs@.take(n as int) =~= cs@);
    let ghost p = slash_parts(cs@);
    let keep_it = cur.len() > 0 && !(cur.len() == 2 && cur[0] == '.' && cur[1] == '.');
    assert(keep_it == keeps_component(cur@)) by {
        if cur@ == seq!['.', '.'] {
            assert(cur@.len() == 2 && cur@[0] == '.' && cur@[1] == '.');
        }
        if cur@.len() == 2 && cur@[0] == '.' && cur@[1] == '.' {
            assert(cur@ =~= seq!['.', '.']);
        }
    }
    proof {
        p.drop_last().lemma_filter_push(p.last(), keep);
        assert(p.drop_last().push(p.last()) =~= p);
    }
    if keep_it {
        let ghost before = strings_of(res@);
        res.push(string_of(cur.as_slice()));
        assert(strings_of(res@) =~= before.push(cur@));
    }
    res
}

/// Whether an archive entry belongs to the 2D scene: its name starts with
/// `2D/` or `Metadata2D/`.
pub open spec fn is_scene_entry_spec(name: Seq<char>) -> bool {
    ||| name.len() >= 3 && name.subrange(0, 3) == "2D/"@
    ||| name.len() >= 11 && name.subrange(0, 11) == "Metadata2D/"@
}

/// Whether an archive entry belongs to the 2D scene.
pub fn is_scene_entry(name: &str) -> (res: bool)
    ensures
        res == is_scene_entry_spec(name@),
{
    let cs = chars_of(name);
    let a = chars_of("2D/");
    let b = chars_of("Metadata2D/");
    proof {
        reveal_strlit("2D/");
        reveal_strlit("Metadata2D/");
    }
    let ra = a.len() <= cs.len() && seq_starts(&cs, &a, 0);
    let rb = b.len() <= cs.len() && seq_starts(&cs, &b, 0);
    proof {
        if a@.len() <= cs@.len() {
            assert(cs@.subrange(0, 3) =~= a@ <==> (forall|k: int| 0 <= k < a@.len() ==> cs@[0 + k] == a@[k]));
        }
        if b@.len() <= cs@.len() {
            assert(cs@.subrange(0, 11) =~= b@ <==> (forall|k: int| 0 <= k < b@.len() ==> cs@[0 + k] == b@[k]));
        }
    }
    ra || rb
}

/// ASCII letters in lower case; other characters unchanged.
pub open spec fn ascii_lower(c: char) -> char {
    if 'A' <= c && c <= 'Z' {
        ((c as int) + 32) as char
    } else {
        c
    }
}

/// Whether a name ends in `.lac`, in any mix of letter case.
pub open spec fn has_lac_extension(s: Seq<char>) -> bool {
    &&& s.len() >= 4
    &&& s[s.len() - 4] == '.'
    &&& ascii_lower(s[s.len() - 3]) == 'l'
    &&& ascii_lower(s[s.len() - 2]) == 'a'
    &&& ascii_lower(s[s.len() - 1]) == 'c'
}

/// The project file written for an archive when no output is given: the
/// archive's name with `.lac` replaced by `.lbrn2`, or `.lbrn2` appended.
pub open spec fn default_output_spec(input: Seq<char>) -> Seq<char> {
    if has_lac_extension(input) {
        input.subrange(0, input.len() - 4) + ".lbrn2"@
    } else {
        input + ".lbrn2"@
    }
}

fn is_lower_of(c: char, lower: char) -> (res: bool)
    requires
        'a' <= lower <= 'z',
    ensures
        res == (ascii_lower(c) == lower),
{
    let upper: u32 = (lower as u32) - 32;
    c == lower || (c as u32) == upper
}

/// The project file written for an archive when no output is given.
pub fn default_output(input: &str) -> (res: String)
    ensures
        res@ == default_output_spec(input@),
{
    let cs = chars_of(input);
    let n = cs.len();
    let lac = n >= 4 && cs[n - 4] == '.' && is_lower_of(cs[n - 3], 'l') && is_lower_of(cs[n - 2], 'a')
        && is_lower_of(cs[n - 1], 'c');
    let mut res = if lac {
        let mut s = String::new();
        let mut k: usize = 0;
        while k < n - 4
            invariant
                n == cs@.len(),
                n >= 4,
                k <= n - 4,
                s@ == cs@.subrange(0, k as int),
            decreases n - 4 - k,
        {
            push_char(&mut s, cs[k]);
            assert(cs@.subrange(0, k + 1) =~= cs@.subrange(0, k as int).push(cs@[k as int]));
            k = k + 1;
        }
        s
    } else {
        String::from_str(input)
    };
    push_str(&mut res, ".lbrn2");
    res
}

// ---------------------------------------------------------------------------
// The project
// ---------------------------------------------------------------------------

/// The attributes of the project element.
pub open spec fn project_attrs() -> Seq<(Seq<char>, Seq<char>)> {
    seq![
        ("AppVersion"@, "2.1.00"@),
        ("DeviceName"@, "LaserPecker_LX1_Rotation"@),
        ("FormatVersion"@, "1"@),
        ("MaterialHeight"@, "0"@),
        ("MirrorX"@, "False"@),
        ("MirrorY"@, "True"@),
        ("AskForSendName"@, "True"@),
    ]
}

/// The attributes of the closing `Notes` element.
pub open spec fn notes_attrs() -> Seq<(Seq<char>, Seq<char>)> {
    seq![("ShowOnLoad"@, "0"@), ("Notes"@, Seq::empty())]
}

/// What the layer writer is given for a scene.
pub open spec fn layer_inputs(
    insts: Seq<InstanceSpec>,
    params: Map<Seq<char>, (Option<Seq<char>>, Option<Seq<char>>)>,
) -> crate::visitors::cut_setting::LayerInputs {
    let pts = process_types_spec(insts);
    crate::visitors::cut_setting::LayerInputs {
        idx: index_map_upto(pts, pts.len()),
        first: first_instances_spec(insts).map_values(|i: nat| i as usize),
        insts,
        params,
    }
}

/// The project document for a scene whose layers are written in `order`:
/// the project element holding the header, one layer per process type and
/// the shapes of the instances, then the notes.
pub open spec fn spec_project(
    insts: Seq<InstanceSpec>,
    shapes: Seq<crate::visitors::shape::ShapeView>,
    params: Map<Seq<char>, (Option<Seq<char>>, Option<Seq<char>>)>,
    order: Seq<Seq<char>>,
) -> XmlDoc {
    let inp = layer_inputs(insts, params);
    let s0 = spec_open(
        XmlDoc { lines: seq![crate::xml_builder::declaration()], depth: 0 },
        "LightBurnProject"@,
        project_attrs(),
    );
    let s1 = spec_header(s0);
    let s2 = crate::visitors::cut_setting::spec_layers(s1, inp, order);
    let s3 = crate::visitors::shape::spec_shapes((s2, 0, 0), inp.idx, insts, shapes, insts.len()).0;
    spec_close(spec_leaf(s3, "Notes"@, notes_attrs()), "LightBurnProject"@)
}

proof fn lemma_header_depth(doc: XmlDoc)
    ensures
        spec_header(doc).depth == doc.depth,
{
    lemma_value_leaves_depth(spec_open(doc, "VariableText"@, Seq::empty()), variable_text_values());
    let d1 = spec_settings_block(doc, "VariableText"@, variable_text_values());
    lemma_value_leaves_depth(spec_open(d1, "UIPrefs"@, Seq::empty()), ui_prefs_values());
}

impl Converter {
    /// The LightBurn project text for a scene: `instances` are the scene's
    /// drawable objects, `shapes[i]` what `instances[i]` is drawn as, and
    /// `params` the power and speed text of each process type.
    pub fn render(
        &self,
        instances: &[Instance],
        shapes: &[crate::visitors::shape::ShapeData],
        params: &[(String, crate::visitors::cut_setting::LayerParams)],
        objects_path: String,
    ) -> (res: String)
        requires
            shapes@.len() == instances@.len(),
            instances@.len() + 3 <= usize::MAX,
            crate::visitors::shape::drawable(instances_view(instances@), crate::visitors::shape::shapes_view(shapes@)),
            crate::visitors::shape::subpath_count(crate::visitors::shape::shapes_view(shapes@), shapes@.len() as nat)
                <= usize::MAX,
        ensures
            exists|order: Seq<Seq<char>>|
                crate::visitors::cut_setting::is_layer_order(
                    layer_inputs(instances_view(instances@), crate::visitors::cut_setting::params_map(params@)).idx,
                    process_types_spec(instances_view(instances@)),
                    order,
                ) && res@ == crate::xml_builder::lines_text(
                    spec_project(
                        instances_view(instances@),
                        crate::visitors::shape::shapes_view(shapes@),
                        crate::visitors::cut_setting::params_map(params@),
                        order,
                    ).lines,
                ),
    {
        let ghost iv = instances_view(instances@);
        let ghost pm = crate::visitors::cut_setting::params_map(params@);
        let ghost inp = layer_inputs(iv, pm);
        let process_types = collect_process_types(instances);
        proof {
            lemma_process_types_len(iv);
        }
        let idx = self.build_index_map(process_types.as_slice());
        let pt_to_obj = first_instance_per_type(instances);
        assert(crate::assoc::assoc_map(pt_to_obj@) == inp.first);
        let mut xml = XmlBuilder::new();
        let attrs: [(&str, &str); 7] = [
            ("AppVersion", "2.1.00"),
            ("DeviceName", "LaserPecker_LX1_Rotation"),
            ("FormatVersion", "1"),
            ("MaterialHeight", "0"),
            ("MirrorX", "False"),
            ("MirrorY", "True"),
            ("AskForSendName", "True"),
        ];
        assert(crate::xml_builder::attr_views(attrs@) =~= project_attrs());
        xml.open("LightBurnProject", &attrs);
        let ghost s0 = xml@;
        emit_header(&mut xml);
        proof {
            lemma_header_depth(s0);
        }
        let ghost s1 = xml@;
        let cut = crate::visitors::cut_setting::CutSettingVisitor::new(
            process_types.as_slice(),
            pt_to_obj.as_slice(),
            instances,
            idx.as_slice(),
            params,
        );
        cut.visit(&mut xml);
        let ghost order = choose|order: Seq<Seq<char>>|
            crate::visitors::cut_setting::is_layer_order(inp.idx, process_types_spec(iv), order)
                && xml@ == crate::visitors::cut_setting::spec_layers(s1, inp, order);
        proof {
            crate::visitors::cut_setting::lemma_layers_depth(s1, inp, order);
        }
        let ghost s2 = xml@;
        let mut shapes_visitor = crate::visitors::shape::ShapeVisitor::new(idx, objects_path);
        let _warnings = shapes_visitor.visit(instances, shapes, &mut xml);
        proof {
            crate::visitors::shape::lemma_shapes_depth((s2, 0, 0), inp.idx, iv, crate::visitors::shape::shapes_view(shapes@), shapes@.len() as nat);
        }
        let notes: [(&str, &str); 2] = [("ShowOnLoad", "0"), ("Notes", "")];
        proof {
            reveal_strlit("");
            assert(""@ =~= Seq::<char>::empty());
        }
        assert(crate::xml_builder::attr_views(notes@) =~= notes_attrs());
        xml.leaf("Notes", &notes);
        xml.close("LightBurnProject");
        xml.to_xml()
    }
}

proof fn lemma_process_types_len(insts: Seq<InstanceSpec>)
    ensures
        process_types_spec(insts).len() <= insts.len(),
    decreases insts.len(),
{
    if insts.len() > 0 {
        lemma_process_types_len(insts.drop_last());
    }
}

/// The process types collected from a scene are each listed once, every
/// instance's process type is among them, and each of them is the process
/// type of some instance.
pub proof fn law_process_types_distinct_and_complete(insts: Seq<InstanceSpec>)
    ensures
        process_types_spec(insts).no_duplicates(),
        forall|i: int|
            0 <= i < insts.len() ==> (#[trigger] process_type_of(insts[i]) matches Some(pt)
                ==> process_types_spec(insts).contains(pt)),
        forall|k: int|
            0 <= k < process_types_spec(insts).len() ==> exists|i: int|
                0 <= i < insts.len() && #[trigger] process_type_of(insts[i]) == Some(
                    #[trigger] process_types_spec(insts)[k],
                ),
    decreases insts.len(),
{
    if insts.len() > 0 {
        let prev = insts.drop_last();
        law_process_types_distinct_and_complete(prev);
        let r = process_types_spec(prev);
        let res = process_types_spec(insts);
        assert forall|i: int| 0 <= i < insts.len() implies (#[trigger] process_type_of(insts[i]) matches Some(pt)
            ==> res.contains(pt)) by {
            if i < insts.len() - 1 {
                assert(insts[i] == prev[i]);
                if let Some(pt) = process_type_of(insts[i]) {
                    assert(r.contains(pt));
                    let w = choose|w: int| 0 <= w < r.len() && r[w] == pt;
                    if res != r {
                        assert(res[w] == r[w]);
                    }
                }
            } else {
                if let Some(pt) = process_type_of(insts[i]) {
                    if !r.contains(pt) {
                        assert(res[r.len() as int] == pt);
                    }
                }
            }
        }
        assert forall|k: int| 0 <= k < res.len() implies exists|i: int|
            0 <= i < insts.len() && #[trigger] process_type_of(insts[i]) == Some(#[trigger] res[k]) by {
            if k < r.len() {
                assert(res[k] == r[k]);
                let i = choose|i: int| 0 <= i < prev.len() && #[trigger] process_type_of(prev[i]) == Some(r[k]);
                assert(insts[i] == prev[i]);
            } else {
                assert(insts[insts.len() - 1] == insts.last());
            }
        }
    }
}

proof fn lemma_slash_parts_plain(s: Seq<char>)
    ensures
        forall|k: int, j: int|
            0 <= k < slash_parts(s).len() && 0 <= j < slash_parts(s)[k].len() ==> #[trigger] slash_parts(s)[k][j] != '/',
    decreases s.len(),
{
    if s.len() > 0 {
        lemma_slash_parts_plain(s.drop_last());
        lemma_slash_parts_nonempty(s.drop_last());
        let p = slash_parts(s.drop_last());
        if s.last() != '/' {
            let q = p.update(p.len() - 1, p.last().push(s.last()));
            assert forall|k: int, j: int| 0 <= k < q.len() && 0 <= j < q[k].len() implies #[trigger] q[k][j] != '/' by {
                if k == p.len() - 1 && j == p.last().len() {
                } else if k == p.len() - 1 {
                    assert(q[k][j] == p[k][j]);
                } else {
                    assert(q[k] == p[k]);
                }
            }
        } else {
            let q = p.push(Seq::<char>::empty());
            assert forall|k: int, j: int| 0 <= k < q.len() && 0 <= j < q[k].len() implies #[trigger] q[k][j] != '/' by {
                assert(k < p.len());
                assert(q[k] == p[k]);
            }
        }
    }
}

/// Every part an archive entry is placed under is a plain name: not empty,
/// not `..`, and without `/`; so the entry stays inside the extraction
/// directory.
pub proof fn law_safe_join_parts_are_plain(name: Seq<char>)
    ensures
        forall|k: int|
            0 <= k < kept_parts(name).len() ==> {
                let part = #[trigger] kept_parts(name)[k];
                &&& part.len() > 0
                &&& part != seq!['.', '.']
                &&& forall|j: int| 0 <= j < part.len() ==> part[j] != '/'
            },
{
    let keep = |c: Seq<char>| keeps_component(c);
    let parts = slash_parts(name);
    let f = parts.filter(keep);
    lemma_slash_parts_plain(name);
    assert forall|k: int| 0 <= k < f.len() implies {
        let part = #[trigger] f[k];
        &&& part.len() > 0
        &&& part != seq!['.', '.']
        &&& forall|j: int| 0 <= j < part.len() ==> part[j] != '/'
    } by {
        parts.lemma_filter_pred(keep, k);
        assert(f.contains(f[k]));
        parts.lemma_filter_contains_rev(keep, f[k]);
        let i = choose|i: int| 0 <= i < parts.len() && parts[i] == f[k];
        assert forall|j: int| 0 <= j < f[k].len() implies f[k][j] != '/' by {
            assert(parts[i][j] != '/');
        }
    }
}

/// Reading a later material's settings never changes the power and speed an
/// earlier material gave a process type: the first material that has a
/// section for a process type wins.
pub proof fn law_merge_keeps_earlier_params(
    params: Map<Seq<char>, (Option<JsonNumber>, Option<JsonNumber>)>,
    config: JsonView,
    keys: Seq<Seq<char>>,
)
    ensures
        forall|pt: Seq<char>| #[trigger] params.contains_key(pt) ==> merge_spec(params, config, keys).contains_key(pt)
            && merge_spec(params, config, keys)[pt] == params[pt],
    decreases keys.len(),
{
    if keys.len() > 0 {
        law_merge_keeps_earlier_params(params, config, keys.drop_last());
    }
}

/// The project document is balanced: every element it opens is closed, so it
/// ends at the depth it started from.
pub proof fn law_project_balanced(
    insts: Seq<InstanceSpec>,
    shapes: Seq<crate::visitors::shape::ShapeView>,
    params: Map<Seq<char>, (Option<Seq<char>>, Option<Seq<char>>)>,
    order: Seq<Seq<char>>,
)
    requires
        shapes.len() == insts.len(),
    ensures
        spec_project(insts, shapes, params, order).depth == 0,
{
    let inp = layer_inputs(insts, params);
    let s0 = spec_open(
        XmlDoc { lines: seq![crate::xml_builder::declaration()], depth: 0 },
        "LightBurnProject"@,
        project_attrs(),
    );
    lemma_header_depth(s0);
    let s1 = spec_header(s0);
    crate::visitors::cut_setting::lemma_layers_depth(s1, inp, order);
    let s2 = crate::visitors::cut_setting::spec_layers(s1, inp, order);
    crate::visitors::shape::lemma_shapes_depth((s2, 0, 0), inp.idx, insts, shapes, insts.len());
}

/// Merging one material's settings takes every listed process type that the
/// settings have a section for and that is not yet present, with that
/// section's power and speed; nothing else is added.
pub proof fn law_merge_takes_every_section(
    params: Map<Seq<char>, (Option<JsonNumber>, Option<JsonNumber>)>,
    config: JsonView,
    keys: Seq<Seq<char>>,
)
    ensures
        forall|pt: Seq<char>|
            #[trigger] merge_spec(params, config, keys).contains_key(pt) <==> (params.contains_key(pt) || (
            keys.contains(pt) && has_member(config, pt))),
        forall|pt: Seq<char>|
            !params.contains_key(pt) && keys.contains(pt) && has_member(config, pt) ==> #[trigger] merge_spec(
                params,
                config,
                keys,
            )[pt] == (number_of(field(field(config, pt), "max_power"@)), number_of(
                field(field(config, pt), "speed"@),
            )),
    decreases keys.len(),
{
    if keys.len() > 0 {
        let prev = keys.drop_last();
        law_merge_takes_every_section(params, config, prev);
        let m = merge_spec(params, config, prev);
        let r = merge_spec(params, config, keys);
        assert forall|pt: Seq<char>| #[trigger] r.contains_key(pt) <==> (params.contains_key(pt) || (keys.contains(pt)
            && has_member(config, pt))) by {
            assert(m.contains_key(pt) <==> (params.contains_key(pt) || (prev.contains(pt) && has_member(config, pt))));
            if keys.contains(pt) && !prev.contains(pt) {
                let w = choose|w: int| 0 <= w < keys.len() && keys[w] == pt;
                if w < keys.len() - 1 {
                    assert(prev[w] == pt);
                }
                assert(keys.last() == pt);
            }
            if prev.contains(pt) {
                let w = choose|w: int| 0 <= w < prev.len() && prev[w] == pt;
                assert(keys[w] == pt);
            }
            if pt == keys.last() {
                assert(keys[keys.len() - 1] == pt);
            }
        }
        assert forall|pt: Seq<char>| !params.contains_key(pt) && keys.contains(pt) && has_member(config, pt) implies #[trigger] r[pt]
            == (number_of(field(field(config, pt), "max_power"@)), number_of(field(field(config, pt), "speed"@))) by {
            assert(m.contains_key(pt) <==> (params.contains_key(pt) || (prev.contains(pt) && has_member(config, pt))));
            if !prev.contains(pt) {
                let w = choose|w: int| 0 <= w < keys.len() && keys[w] == pt;
                if w < keys.len() - 1 {
                    assert(prev[w] == pt);
                }
            } else {
                assert(m[pt] == (number_of(field(field(config, pt), "max_power"@)), number_of(field(field(config, pt), "speed"@))));
            }
        }
    } else {
        assert forall|pt: Seq<char>| keys.contains(pt) implies false by {
            let w = choose|w: int| 0 <= w < keys.len() && keys[w] == pt;
        }
    }
}

} // verus!
