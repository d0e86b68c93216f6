//! The layer settings of a project: one `CutSetting` per process type, or a
//! `CutSetting_Img` when the process type's first object is a raster image,
//! written in order of layer index.
use vstd::prelude::*;
use crate::assoc::{assoc_map, assoc_get};
use crate::constants::{dither_table, process_type_table, get_dither, get_process_type_info};
use crate::converter::{strings_of, spec_value_leaves, value_leaves, lemma_value_leaves_depth};
use crate::json::{JsonView, field, str_of};
use crate::scene_builder::{Instance, InstanceSpec, instances_view};
use crate::text::{decimal, decimal_2, push_char, push_str, usize_to_string, usize_to_string_2};
use crate::xml_builder::{XmlBuilder, XmlDoc, spec_open, spec_close, attr_views};

verus! {

/// The sort key of a process type: its layer index, or 99 when it has none.
pub open spec fn layer_key(idx: Map<Seq<char>, usize>, pt: Seq<char>) -> nat {
    if idx.contains_key(pt) {
        idx[pt] as nat
    } else {
        99
    }
}

/// The process types among `pts` whose sort key is `k`, in order.
pub open spec fn with_key(idx: Map<Seq<char>, usize>, pts: Seq<Seq<char>>, k: nat) -> Seq<Seq<char>> {
    pts.filter(|s: Seq<char>| layer_key(idx, s) == k)
}

/// `pts` is in order of sort key.
pub open spec fn sorted_by_key(idx: Map<Seq<char>, usize>, pts: Seq<Seq<char>>) -> bool {
    forall|i: int, j: int| 0 <= i < j < pts.len() ==> layer_key(idx, pts[i]) <= layer_key(idx, pts[j])
}

proof fn lemma_filter_none<A>(s: Seq<A>, pred: spec_fn(A) -> bool)
    requires
        forall|i: int| 0 <= i < s.len() ==> !pred(s[i]),
    ensures
        s.filter(pred) =~= Seq::<A>::empty(),
    decreases s.len(),
{
    reveal(Seq::filter);
    if s.len() > 0 {
        lemma_filter_none(s.drop_last(), pred);
    }
}

proof fn lemma_filter_single<A>(x: A, pred: spec_fn(A) -> bool)
    ensures
        seq![x].filter(pred) == if pred(x) { seq![x] } else { Seq::<A>::empty() },
{
    reveal(Seq::filter);
    assert(seq![x].drop_last() =~= Seq::<A>::empty());
    assert(Seq::<A>::empty().filter(pred) =~= Seq::<A>::empty());
    if pred(x) {
        assert(Seq::<A>::empty().push(x) =~= seq![x]);
    }
}

/// Inserting `x` after every element with a key no greater than its own keeps
/// each key's elements in order, `x` last among its own.
proof fn lemma_insert_filter(idx: Map<Seq<char>, usize>, r: Seq<Seq<char>>, p: int, x: Seq<char>, k: nat)
    requires
        0 <= p <= r.len(),
        forall|j: int| 0 <= j < p ==> layer_key(idx, r[j]) <= layer_key(idx, x),
        forall|j: int| p <= j < r.len() ==> layer_key(idx, r[j]) > layer_key(idx, x),
    ensures
        with_key(idx, r.insert(p, x), k) == if layer_key(idx, x) == k {
            with_key(idx, r, k).push(x)
        } else {
            with_key(idx, r, k)
        },
{
    let pred = |s: Seq<char>| layer_key(idx, s) == k;
    let a = r.take(p);
    let b = r.skip(p);
    assert(r.insert(p, x) =~= a + seq![x] + b);
    assert(r =~= a + b);
    Seq::filter_distributes_over_add(a + seq![x], b, pred);
    Seq::filter_distributes_over_add(a, seq![x], pred);
    Seq::filter_distributes_over_add(a, b, pred);
    lemma_filter_single(x, pred);
    if layer_key(idx, x) == k {
        lemma_filter_none(b, pred);
        assert(a.filter(pred) + seq![x] =~= a.filter(pred).push(x));
        assert(a.filter(pred) + b.filter(pred) =~= a.filter(pred));
    } else {
        assert(a.filter(pred) + Seq::<Seq<char>>::empty() =~= a.filter(pred));
    }
}

/// The process types in order of sort key; those with equal keys keep their
/// relative order.
pub fn sort_by_layer(pts: &[String], idx: &[(String, usize)]) -> (res: Vec<String>)
    ensures
        res@.len() == pts@.len(),
        sorted_by_key(assoc_map(idx@), strings_of(res@)),
        forall|k: nat| #[trigger] with_key(assoc_map(idx@), strings_of(res@), k) == with_key(assoc_map(idx@), strings_of(pts@), k),
{
    let ghost m = assoc_map(idx@);
    let mut r: Vec<String> = Vec::new();
    let mut rk: Vec<usize> = Vec::new();
    let n = pts.len();
    proof {
        reveal(Seq::filter);
        assert(strings_of(r@) =~= Seq::<Seq<char>>::empty());
        assert(strings_of(pts@).take(0) =~= Seq::<Seq<char>>::empty());
    }
    for i in 0..n
        invariant
            n == pts@.len(),
            m == assoc_map(idx@),
            r@.len() == i,
            rk@.len() == i,
            forall|j: int| 0 <= j < i ==> rk@[j] as nat == #[trigger] layer_key(m, r@[j]@),
            sorted_by_key(m, strings_of(r@)),
            forall|k: nat| #[trigger] with_key(m, strings_of(r@), k) == with_key(m, strings_of(pts@).take(i as int), k),
    {
        let x = pts[i].clone();
        let kx: usize = match assoc_get(idx, x.as_str()) {
            Some(v) => *v,
            None => 99,
        };
        assert(kx as nat == layer_key(m, x@));
        let mut p: usize = 0;
        while p < rk.len() && rk[p] <= kx
            invariant
                p <= rk@.len(),
                rk@.len() == i,
                forall|j: int| 0 <= j < p ==> rk@[j] <= kx,
            decreases rk@.len() - p,
        {
            p = p + 1;
        }
        let ghost rv = strings_of(r@);
        proof {
            assert forall|j: int| p <= j < rv.len() implies layer_key(m, rv[j]) > layer_key(m, x@) by {
                assert(rk@[p as int] as nat == layer_key(m, r@[p as int]@));
                if j > p {
                    assert(layer_key(m, rv[p as int]) <= layer_key(m, rv[j]));
                }
            }
            assert forall|j: int| 0 <= j < p implies layer_key(m, rv[j]) <= layer_key(m, x@) by {
                assert(rk@[j] as nat == layer_key(m, r@[j]@));
            }
            assert forall|k: nat| #[trigger] with_key(m, rv.insert(p as int, x@), k) == with_key(m, strings_of(pts@).take(i + 1), k) by {
                lemma_insert_filter(m, rv, p as int, x@, k);
                let pred = |s: Seq<char>| layer_key(m, s) == k;
                assert(strings_of(pts@).take(i + 1) =~= strings_of(pts@).take(i as int).push(x@));
                strings_of(pts@).take(i as int).lemma_filter_push(x@, pred);
            }
        }
        let ghost old_r = r@;
        let ghost old_rk = rk@;
        r.insert(p, x);
        rk.insert(p, kx);
        assert(strings_of(r@) =~= rv.insert(p as int, x@));
        assert forall|j: int| 0 <= j < i + 1 implies rk@[j] as nat == #[trigger] layer_key(m, r@[j]@) by {
            if j < p {
            } else if j > p {
                assert(r@[j] == old_r[j - 1]);
                assert(rk@[j] == old_rk[j - 1]);
            }
        }
    }
    assert(strings_of(pts@).take(n as int) =~= strings_of(pts@));
    r
}

/// The order in which layers are written: sorted by key, equal keys in their
/// given order.
pub open spec fn is_layer_order(idx: Map<Seq<char>, usize>, pts: Seq<Seq<char>>, order: Seq<Seq<char>>) -> bool {
    &&& order.len() == pts.len()
    &&& sorted_by_key(idx, order)
    &&& forall|k: nat| #[trigger] with_key(idx, order, k) == with_key(idx, pts, k)
}

/// The last element of a non-empty order is the last of its own key.
proof fn lemma_with_key_last(idx: Map<Seq<char>, usize>, o: Seq<Seq<char>>, k: nat)
    requires
        o.len() > 0,
    ensures
        with_key(idx, o, k) == if layer_key(idx, o.last()) == k {
            with_key(idx, o.drop_last(), k).push(o.last())
        } else {
            with_key(idx, o.drop_last(), k)
        },
{
    let pred = |s: Seq<char>| layer_key(idx, s) == k;
    assert(o.drop_last().push(o.last()) =~= o);
    o.drop_last().lemma_filter_push(o.last(), pred);
}

/// In a sorted order, every element with key `k` comes no later than the
/// last element, so `k` is at most the last element's key.
proof fn lemma_key_at_most_last(idx: Map<Seq<char>, usize>, o: Seq<Seq<char>>, k: nat)
    requires
        o.len() > 0,
        sorted_by_key(idx, o),
        with_key(idx, o, k).len() > 0,
    ensures
        k <= layer_key(idx, o.last()),
{
    let pred = |s: Seq<char>| layer_key(idx, s) == k;
    let f = o.filter(pred);
    let e = f[0];
    o.lemma_filter_pred(pred, 0);
    assert(f.contains(e));
    o.lemma_filter_contains_rev(pred, e);
    let i = choose|i: int| 0 <= i < o.len() && o[i] == e;
    if i < o.len() - 1 {
        assert(layer_key(idx, o[i]) <= layer_key(idx, o[o.len() - 1]));
    }
}

proof fn lemma_sorted_orders_equal(idx: Map<Seq<char>, usize>, o1: Seq<Seq<char>>, o2: Seq<Seq<char>>)
    requires
        sorted_by_key(idx, o1),
        sorted_by_key(idx, o2),
        forall|k: nat| #[trigger] with_key(idx, o1, k) == with_key(idx, o2, k),
    ensures
        o1 == o2,
    decreases o1.len() + o2.len(),
{
    if o1.len() == 0 && o2.len() == 0 {
        assert(o1 =~= o2);
    } else if o1.len() == 0 || o2.len() == 0 {
        let (a, b) = if o1.len() == 0 { (o2, o1) } else { (o1, o2) };
        let k = layer_key(idx, a.last());
        lemma_with_key_last(idx, a, k);
        let pred = |s: Seq<char>| layer_key(idx, s) == k;
        assert(b =~= Seq::<Seq<char>>::empty());
        reveal(Seq::filter);
        assert(b.filter(pred) =~= Seq::<Seq<char>>::empty());
        assert(with_key(idx, o1, k) == with_key(idx, o2, k));
        assert(false);
    } else {
        let k1 = layer_key(idx, o1.last());
        let k2 = layer_key(idx, o2.last());
        lemma_with_key_last(idx, o1, k1);
        lemma_with_key_last(idx, o2, k2);
        assert(with_key(idx, o1, k1) == with_key(idx, o2, k1));
        assert(with_key(idx, o1, k2) == with_key(idx, o2, k2));
        lemma_key_at_most_last(idx, o2, k1);
        lemma_key_at_most_last(idx, o1, k2);
        let k = k1;
        assert(o1.last() == with_key(idx, o1, k).last());
        assert(o2.last() == with_key(idx, o2, k).last());
        let p1 = o1.drop_last();
        let p2 = o2.drop_last();
        assert forall|j: nat| #[trigger] with_key(idx, p1, j) == with_key(idx, p2, j) by {
            lemma_with_key_last(idx, o1, j);
            lemma_with_key_last(idx, o2, j);
            assert(with_key(idx, o1, j) == with_key(idx, o2, j));
            if j == k {
                assert(with_key(idx, p1, j) =~= with_key(idx, o1, j).drop_last());
                assert(with_key(idx, p2, j) =~= with_key(idx, o2, j).drop_last());
            }
        }
        assert(sorted_by_key(idx, p1)) by {
            assert forall|i: int, j: int| 0 <= i < j < p1.len() implies layer_key(idx, p1[i]) <= layer_key(idx, p1[j]) by {
                assert(p1[i] == o1[i] && p1[j] == o1[j]);
            }
        }
        assert(sorted_by_key(idx, p2)) by {
            assert forall|i: int, j: int| 0 <= i < j < p2.len() implies layer_key(idx, p2[i]) <= layer_key(idx, p2[j]) by {
                assert(p2[i] == o2[i] && p2[j] == o2[j]);
            }
        }
        lemma_sorted_orders_equal(idx, p1, p2);
        assert(o1 =~= p1.push(o1.last()));
        assert(o2 =~= p2.push(o2.last()));
    }
}

/// The layers are written in one order only: the process types sorted by
/// layer index, those with equal keys in the order given.
pub proof fn law_layer_order_unique(idx: Map<Seq<char>, usize>, pts: Seq<Seq<char>>, o1: Seq<Seq<char>>, o2: Seq<Seq<char>>)
    requires
        is_layer_order(idx, pts, o1),
        is_layer_order(idx, pts, o2),
    ensures
        o1 == o2,
{
    assert forall|k: nat| #[trigger] with_key(idx, o1, k) == with_key(idx, o2, k) by {
        assert(with_key(idx, o1, k) == with_key(idx, pts, k));
        assert(with_key(idx, o2, k) == with_key(idx, pts, k));
    }
    lemma_sorted_orders_equal(idx, o1, o2);
}

/// The numbers written for a layer's power and speed.
pub struct LayerParams {
    pub max_power: Option<String>,
    pub speed: Option<String>,
}

pub open spec fn params_map(params: Seq<(String, LayerParams)>) -> Map<Seq<char>, (Option<Seq<char>>, Option<Seq<char>>)> {
    assoc_map(params).map_values(|p: LayerParams| (crate::scene_builder::opt_str_view(p.max_power), crate::scene_builder::opt_str_view(p.speed)))
}

/// The text written for a parameter: the number, or `0` when there is none.
pub open spec fn param_text(p: Option<Seq<char>>) -> Seq<char> {
    match p {
        Some(t) => t,
        None => "0"@,
    }
}

/// The value leaves every layer has.
pub open spec fn layer_values(idx: nat, name: Seq<char>, power: Seq<char>, speed: Seq<char>) -> Seq<(Seq<char>, Seq<char>)> {
    seq![
        ("index"@, decimal(idx)),
        ("name"@, name),
        ("maxPower"@, power),
        ("maxPower2"@, power),
        ("speed"@, speed),
        ("priority"@, decimal(idx)),
    ]
}

/// A layer element `tag` of the given `type`, holding the value leaves.
pub open spec fn spec_layer_block(doc: XmlDoc, tag: Seq<char>, kind: Seq<char>, values: Seq<(Seq<char>, Seq<char>)>) -> XmlDoc {
    spec_close(spec_value_leaves(spec_open(doc, tag, seq![("type"@, kind)]), values), tag)
}

/// The name of a layer that has no name of its own: `C` and the two-digit index.
pub open spec fn numbered_name(idx: nat) -> Seq<char> {
    seq!['C'] + decimal_2(idx)
}

/// What the writer knows of a process type's layer.
pub ghost struct LayerInputs {
    pub idx: Map<Seq<char>, usize>,
    pub first: Map<Seq<char>, usize>,
    pub insts: Seq<InstanceSpec>,
    pub params: Map<Seq<char>, (Option<Seq<char>>, Option<Seq<char>>)>,
}

/// The first object of a process type, if the scene has one.
pub open spec fn first_object(inp: LayerInputs, pt: Seq<char>) -> Option<JsonView> {
    if inp.first.contains_key(pt) && inp.first[pt] < inp.insts.len() {
        Some(inp.insts[inp.first[pt] as int].obj)
    } else {
        None
    }
}

/// The image filtering type of a raster object, empty when it has none.
pub open spec fn filtering_type(obj: JsonView) -> Seq<char> {
    match str_of(field(field(obj, "image_settings"@), "filtering_type"@)) {
        Some(f) => f,
        None => Seq::empty(),
    }
}

/// The document after writing the layer of process type `pt`.
///
/// A process type whose first object is a raster image gets an image layer
/// named by its index with the dither mode of the image's filtering type;
/// any other gets a cut layer with the kind and name of the table, or kind
/// `Cut` and a numbered name for an unknown process type. A process type
/// without a layer index is written with index 0.
pub open spec fn spec_layer(doc: XmlDoc, inp: LayerInputs, pt: Seq<char>) -> XmlDoc {
    let idx: nat = if inp.idx.contains_key(pt) { inp.idx[pt] as nat } else { 0 };
    let (power, speed) = if inp.params.contains_key(pt) {
        (param_text(inp.params[pt].0), param_text(inp.params[pt].1))
    } else {
        ("0"@, "0"@)
    };
    match first_object(inp, pt) {
        Some(obj) if str_of(field(obj, "type"@)) == Some("RasterImage"@) => spec_layer_block(
            doc,
            "CutSetting_Img"@,
            "Image"@,
            layer_values(idx, numbered_name(idx), power, speed).push(("ditherMode"@, dither_table(filtering_type(obj)))),
        ),
        _ => {
            let (kind, name) = match process_type_table(pt) {
                Some((kind, name, _)) => (kind, name),
                None => ("Cut"@, numbered_name(idx)),
            };
            spec_layer_block(doc, "CutSetting"@, kind, layer_values(idx, name, power, speed))
        },
    }
}

/// The document after writing the layers of `order`, in turn.
pub open spec fn spec_layers(doc: XmlDoc, inp: LayerInputs, order: Seq<Seq<char>>) -> XmlDoc
    decreases order.len(),
{
    if order.len() == 0 {
        doc
    } else {
        spec_layer(spec_layers(doc, inp, order.drop_last()), inp, order.last())
    }
}

proof fn lemma_layer_block_depth(doc: XmlDoc, tag: Seq<char>, kind: Seq<char>, values: Seq<(Seq<char>, Seq<char>)>)
    ensures
        spec_layer_block(doc, tag, kind, values).depth == doc.depth,
{
    lemma_value_leaves_depth(spec_open(doc, tag, seq![("type"@, kind)]), values);
}

/// Writing layers keeps the depth.
pub proof fn lemma_layers_depth(doc: XmlDoc, inp: LayerInputs, order: Seq<Seq<char>>)
    ensures
        spec_layers(doc, inp, order).depth == doc.depth,
    decreases order.len(),
{
    if order.len() > 0 {
        lemma_layers_depth(doc, inp, order.drop_last());
        let d = spec_layers(doc, inp, order.drop_last());
        let pt = order.last();
        let idx: nat = if inp.idx.contains_key(pt) { inp.idx[pt] as nat } else { 0 };
        let (power, speed) = if inp.params.contains_key(pt) {
            (param_text(inp.params[pt].0), param_text(inp.params[pt].1))
        } else {
            ("0"@, "0"@)
        };
        match first_object(inp, pt) {
            Some(obj) if str_of(field(obj, "type"@)) == Some("RasterImage"@) => {
                lemma_layer_block_depth(d, "CutSetting_Img"@, "Image"@,
                    layer_values(idx, numbered_name(idx), power, speed).push(("ditherMode"@, dither_table(filtering_type(obj)))));
            },
            _ => {
                let (kind, name) = match process_type_table(pt) {
                    Some((kind, name, _)) => (kind, name),
                    None => ("Cut"@, numbered_name(idx)),
                };
                lemma_layer_block_depth(d, "CutSetting"@, kind, layer_values(idx, name, power, speed));
            },
        }
    }
}

/// Writes the layer settings of a project.
pub struct CutSettingVisitor<'a> {
    process_types: &'a [String],
    process_type_to_obj: &'a [(String, usize)],
    instances: &'a [Instance],
    process_type_to_idx: &'a [(String, usize)],
    process_params: &'a [(String, LayerParams)],
}

impl<'a> CutSettingVisitor<'a> {
    pub fn new(
        process_types: &'a [String],
        process_type_to_obj: &'a [(String, usize)],
        instances: &'a [Instance],
        process_type_to_idx: &'a [(String, usize)],
        process_params: &'a [(String, LayerParams)],
    ) -> (res: Self)
        ensures
            res.process_types() == strings_of(process_types@),
            res.inputs() == (LayerInputs {
                idx: assoc_map(process_type_to_idx@),
                first: assoc_map(process_type_to_obj@),
                insts: instances_view(instances@),
                params: params_map(process_params@),
            }),
    {
        Self { process_types, process_type_to_obj, instances, process_type_to_idx, process_params }
    }

    pub closed spec fn process_types(&self) -> Seq<Seq<char>> {
        strings_of(self.process_types@)
    }

    pub closed spec fn inputs(&self) -> LayerInputs {
        LayerInputs {
            idx: assoc_map(self.process_type_to_idx@),
            first: assoc_map(self.process_type_to_obj@),
            insts: instances_view(self.instances@),
            params: params_map(self.process_params@),
        }
    }

    /// Writes one layer per process type, in order of layer index.
    pub fn visit(&self, xml: &mut XmlBuilder)
        requires
            old(xml)@.depth + 1 < usize::MAX,
        ensures
            exists|order: Seq<Seq<char>>|
                is_layer_order(self.inputs().idx, self.process_types(), order)
                    && final(xml)@ == spec_layers(old(xml)@, self.inputs(), order),
    {
        let sorted = sort_by_layer(self.process_types, self.process_type_to_idx);
        let ghost order = strings_of(sorted@);
        let n = sorted.len();
        proof {
            assert(order.take(0) =~= Seq::<Seq<char>>::empty());
        }
        for i in 0..n
            invariant
                n == sorted@.len(),
                order == strings_of(sorted@),
                xml@.depth == old(xml)@.depth,
                old(xml)@.depth + 1 < usize::MAX,
                xml@ == spec_layers(old(xml)@, self.inputs(), order.take(i as int)),
        {
            proof {
                assert(order.take(i + 1).drop_last() =~= order.take(i as int));
                assert(order.take(i + 1).last() == sorted@[i as int]@);
                lemma_layers_depth(old(xml)@, self.inputs(), order.take(i + 1));
            }
            self.emit_layer(xml, sorted[i].as_str());
        }
        assert(order.take(n as int) =~= order);
        assert(is_layer_order(self.inputs().idx, self.process_types(), order));
    }

    fn emit_layer(&self, xml: &mut XmlBuilder, process_type: &str)
        requires
            old(xml)@.depth + 1 < usize::MAX,
        ensures
            final(xml)@ == spec_layer(old(xml)@, self.inputs(), process_type@),
    {
        let ghost inp = self.inputs();
        let ghost pt = process_type@;
        let obj = match assoc_get(self.process_type_to_obj, process_type) {
            Some(i) => if *i < self.instances.len() {
                Some(&self.instances[*i].obj)
            } else {
                None
            },
            None => None,
        };
        assert(match obj {
            Some(o) => first_object(inp, pt) == Some(o@),
            None => first_object(inp, pt) is None,
        });
        let idx: usize = match assoc_get(self.process_type_to_idx, process_type) {
            Some(v) => *v,
            None => 0,
        };
        let (max_power, speed) = match assoc_get(self.process_params, process_type) {
            Some(p) => (
                match &p.max_power {
                    Some(t) => t.clone(),
                    None => String::from_str("0"),
                },
                match &p.speed {
                    Some(t) => t.clone(),
                    None => String::from_str("0"),
                },
            ),
            None => (String::from_str("0"), String::from_str("0")),
        };
        let is_raster = match obj {
            Some(o) => match o.get("type") {
                Some(t) => match t.as_str() {
                    Some(t) => crate::text::str_eq(t, "RasterImage"),
                    None => false,
                },
                None => false,
            },
            None => false,
        };
        let ghost exp_idx: nat = if inp.idx.contains_key(pt) { inp.idx[pt] as nat } else { 0 };
        assert(idx as nat == exp_idx);
        let ghost exp_power = if inp.params.contains_key(pt) { param_text(inp.params[pt].0) } else { "0"@ };
        let ghost exp_speed = if inp.params.contains_key(pt) { param_text(inp.params[pt].1) } else { "0"@ };
        assert(max_power@ == exp_power);
        assert(speed@ == exp_speed);
        assert(is_raster == (first_object(inp, pt) matches Some(obj) && str_of(field(obj, "type"@)) == Some("RasterImage"@)));
        let idx_s = usize_to_string(idx);
        let mut name = String::new();
        push_char(&mut name, 'C');
        let num = usize_to_string_2(idx);
        push_str(&mut name, num.as_str());
        assert(name@ =~= numbered_name(idx as nat));
        if is_raster {
            let o = obj.unwrap();
            let filtering = match o.get("image_settings") {
                Some(s) => match s.get("filtering_type") {
                    Some(f) => f.as_str(),
                    None => None,
                },
                None => None,
            };
            let arg: &str = match filtering {
                Some(f) => f,
                None => "",
            };
            proof {
                reveal_strlit("");
                assert(""@ =~= Seq::<char>::empty());
                assert(arg@ == filtering_type(o@));
            }
            let dither = get_dither(arg);
            let values: [(&str, &str); 7] = [
                ("index", idx_s.as_str()),
                ("name", name.as_str()),
                ("maxPower", max_power.as_str()),
                ("maxPower2", max_power.as_str()),
                ("speed", speed.as_str()),
                ("priority", idx_s.as_str()),
                ("ditherMode", dither),
            ];
            let kind: [(&str, &str); 1] = [("type", "Image")];
            xml.open("CutSetting_Img", &kind);
            value_leaves(xml, &values);
            proof {
                lemma_value_leaves_depth(spec_open(old(xml)@, "CutSetting_Img"@, attr_views(kind@)), attr_views(values@));
            }
            xml.close("CutSetting_Img");
            assert(attr_views(kind@) =~= seq![("type"@, "Image"@)]);
            assert(attr_views(values@) =~= layer_values(idx as nat, numbered_name(idx as nat), attr_views(values@)[2].1, attr_views(values@)[4].1).push(("ditherMode"@, dither@)));
        } else {
            let (kind, layer_name) = match get_process_type_info(process_type) {
                Some(info) => (info.kind, String::from_str(info.name)),
                None => ("Cut", name),
            };
            let values: [(&str, &str); 6] = [
                ("index", idx_s.as_str()),
                ("name", layer_name.as_str()),
                ("maxPower", max_power.as_str()),
                ("maxPower2", max_power.as_str()),
                ("speed", speed.as_str()),
                ("priority", idx_s.as_str()),
            ];
            let kind_attr: [(&str, &str); 1] = [("type", kind)];
            xml.open("CutSetting", &kind_attr);
            value_leaves(xml, &values);
            proof {
                lemma_value_leaves_depth(spec_open(old(xml)@, "CutSetting"@, attr_views(kind_attr@)), attr_views(values@));
            }
            xml.close("CutSetting");
            assert(attr_views(kind_attr@) =~= seq![("type"@, kind@)]);
            assert(attr_views(values@) =~= layer_values(idx as nat, layer_name@, max_power@, speed@));
        }
    }
}

} // verus!
