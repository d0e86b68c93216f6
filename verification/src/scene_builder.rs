//! The scene graph: the objects of a canvas by identifier, and the walk over
//! the canvas's component tree that yields every drawable object together
//! with the chain of component transforms above it.
use vstd::prelude::*;
use crate::json::{
    JsonValue, JsonView, field, str_of, array_of, id_of, json_views, with_field,
};
use crate::utils::id_str;
use crate::text::str_eq;

verus! {

/// The map that inserting `entries` in order builds: a later entry replaces
/// an earlier one with the same key.
pub open spec fn entries_map(entries: Seq<(Seq<char>, JsonView)>) -> Map<Seq<char>, JsonView>
    decreases entries.len(),
{
    if entries.len() == 0 {
        Map::empty()
    } else {
        entries_map(entries.drop_last()).insert(entries.last().0, entries.last().1)
    }
}

pub open spec fn entry_views(entries: Seq<(String, JsonValue)>) -> Seq<(Seq<char>, JsonView)> {
    entries.map_values(|e: (String, JsonValue)| (e.0@, e.1@))
}

/// The objects of a canvas, keyed by identifier.
pub struct ObjectMap {
    entries: Vec<(String, JsonValue)>,
}

impl View for ObjectMap {
    type V = Map<Seq<char>, JsonView>;

    closed spec fn view(&self) -> Map<Seq<char>, JsonView> {
        entries_map(entry_views(self.entries@))
    }
}

proof fn lemma_entries_map_last(entries: Seq<(Seq<char>, JsonView)>, key: Seq<char>, j: int)
    requires
        0 <= j <= entries.len(),
        forall|k: int| j <= k < entries.len() ==> #[trigger] entries[k].0 != key,
    ensures
        entries_map(entries).contains_key(key) == entries_map(entries.take(j)).contains_key(key),
        entries_map(entries)[key] == entries_map(entries.take(j))[key],
    decreases entries.len(),
{
    if entries.len() > j {
        assert(entries.drop_last().take(j) =~= entries.take(j));
        lemma_entries_map_last(entries.drop_last(), key, j);
    } else {
        assert(entries.take(j) =~= entries);
    }
}

/// The objects of a list that carry an identifier, keyed by it; a later
/// object replaces an earlier one with the same identifier.
pub open spec fn objects_map(objs: Seq<JsonView>) -> Map<Seq<char>, JsonView>
    decreases objs.len(),
{
    if objs.len() == 0 {
        Map::empty()
    } else {
        let m = objects_map(objs.drop_last());
        match id_of(field(objs.last(), "obj_id"@)) {
            Some(id) => m.insert(id, objs.last()),
            None => m,
        }
    }
}

impl ObjectMap {
    /// Every stored value is an object.
    pub closed spec fn holds_objects(&self) -> bool {
        forall|k: int| 0 <= k < self.entries@.len() ==> (#[trigger] self.entries@[k]).1@ is Object
    }

    /// Every value the map holds is an object.
    pub proof fn lemma_values_are_objects(&self, key: Seq<char>)
        requires
            self.holds_objects(),
            self@.contains_key(key),
        ensures
            self@[key] is Object,
    {
        let ev = entry_views(self.entries@);
        lemma_values_in_entries(ev, key);
        let k = choose|k: int| 0 <= k < ev.len() && ev[k].0 == key && ev[k].1 == entries_map(ev)[key];
        assert(ev[k].1 == self.entries@[k].1@);
    }

    /// The objects of `canvas["obj_list"]` that have an identifier.
    pub fn from_canvas(canvas: &JsonValue) -> (res: ObjectMap)
        ensures
            res@ == objects_map(match array_of(field(canvas@, "obj_list"@)) {
                Some(objs) => objs,
                None => Seq::empty(),
            }),
            res.holds_objects(),
    {
        let mut entries: Vec<(String, JsonValue)> = Vec::new();
        let list = match canvas.get("obj_list") {
            Some(l) => l.as_array(),
            None => None,
        };
        proof {
            assert(entry_views(entries@) =~= Seq::empty());
            assert(entries_map(Seq::empty()) =~= objects_map(Seq::empty()));
        }
        match list {
            Some(objs) => {
                let n = objs.len();
                for i in 0..n
                    invariant
                        n == objs@.len(),
                        entries_map(entry_views(entries@)) == objects_map(json_views(objs@).take(i as int)),
                        forall|k: int| 0 <= k < entries@.len() ==> (#[trigger] entries@[k]).1@ is Object,
                {
                    let o = &objs[i];
                    let ghost ov = o@;
                    let id = match o.get("obj_id") {
                        Some(idv) => id_str(idv),
                        None => None,
                    };
                    assert(json_views(objs@).take(i + 1).drop_last() =~= json_views(objs@).take(i as int));
                    assert(json_views(objs@).take(i + 1).last() == ov);
                    match id {
                        Some(id) => {
                            let ghost before = entry_views(entries@);
                            entries.push((id, o.copy()));
                            assert(entry_views(entries@) =~= before.push((id@, ov)));
                            assert(entry_views(entries@).drop_last() =~= before);
                            assert(ov is Object) by {
                                if !(ov is Object) {
                                    assert(field(ov, "obj_id"@) == JsonView::Null);
                                }
                            }
                        },
                        None => {},
                    }
                }
                assert(json_views(objs@).take(n as int) =~= json_views(objs@));
            },
            None => {},
        }
        ObjectMap { entries }
    }

    fn last_index(&self, id: &str) -> (res: Option<usize>)
        ensures
            match res {
                Some(i) => i < self.entries@.len() && self@.contains_key(id@) && self@[id@] == self.entries@[i as int].1@
                    && self.entries@[i as int].0@ == id@
                    && forall|k: int| i < k < self.entries@.len() ==> (#[trigger] self.entries@[k]).0@ != id@,
                None => !self@.contains_key(id@),
            },
    {
        let ghost ev = entry_views(self.entries@);
        let mut j = self.entries.len();
        while j > 0
            invariant
                j <= self.entries@.len(),
                ev == entry_views(self.entries@),
                forall|k: int| j <= k < ev.len() ==> #[trigger] ev[k].0 != id@,
            decreases j,
        {
            if str_eq(self.entries[j - 1].0.as_str(), id) {
                proof {
                    assert forall|k: int| j - 1 < k < self.entries@.len() implies (#[trigger] self.entries@[k]).0@ != id@ by {
                        assert(ev[k].0 == self.entries@[k].0@);
                    }
                    lemma_entries_map_last(ev, id@, j as int);
                    assert(ev.take(j as int).drop_last() =~= ev.take(j - 1));
                }
                return Some(j - 1);
            }
            j = j - 1;
        }
        proof {
            lemma_entries_map_last(ev, id@, 0);
            assert(ev.take(0) =~= Seq::<(Seq<char>, JsonView)>::empty());
        }
        None
    }

    /// The object with identifier `id`.
    pub fn get(&self, id: &str) -> (res: Option<&JsonValue>)
        ensures
            match res {
                Some(o) => self@.contains_key(id@) && self@[id@] == o@,
                None => !self@.contains_key(id@),
            },
    {
        match self.last_index(id) {
            Some(i) => Some(&self.entries[i].1),
            None => None,
        }
    }

    /// Sets member `key` of the object with identifier `id`, if there is one.
    pub fn set_field_of(&mut self, id: &str, key: &str, val: JsonValue)
        requires
            old(self).holds_objects(),
        ensures
            final(self).holds_objects(),
            final(self)@ == if old(self)@.contains_key(id@) {
                old(self)@.insert(id@, with_field(old(self)@[id@], key@, val@))
            } else {
                old(self)@
            },
    {
        match self.last_index(id) {
            Some(i) => {
                let ghost ev = entry_views(self.entries@);
                let ghost val_view = val@;
                let (k, mut obj) = self.entries.remove(i);
                obj.set_field(key, val);
                self.entries.insert(i, (k, obj));
                proof {
                    assert forall|k: int| i < k < ev.len() implies #[trigger] ev[k].0 != ev[i as int].0 by {
                        assert(ev[k].0 == old(self).entries@[k].0@);
                    }
                    let ev2 = entry_views(self.entries@);
                    assert(ev2 =~= ev.update(i as int, (id@, with_field(ev[i as int].1, key@, val_view))));
                    lemma_entries_map_update(ev, i as int, with_field(ev[i as int].1, key@, val_view));
                }
            },
            None => {},
        }
    }
}

proof fn lemma_values_in_entries(ev: Seq<(Seq<char>, JsonView)>, key: Seq<char>)
    requires
        entries_map(ev).contains_key(key),
    ensures
        exists|k: int| 0 <= k < ev.len() && ev[k].0 == key && ev[k].1 == entries_map(ev)[key],
    decreases ev.len(),
{
    if ev.last().0 == key {
        assert(ev[ev.len() - 1].0 == key);
    } else {
        lemma_values_in_entries(ev.drop_last(), key);
        let k = choose|k: int| 0 <= k < ev.drop_last().len() && ev.drop_last()[k].0 == key && ev.drop_last()[k].1 == entries_map(ev.drop_last())[key];
        assert(ev[k] == ev.drop_last()[k]);
    }
}

/// Replacing the value of the last entry with a key replaces the value of
/// that key in the map.
proof fn lemma_entries_map_update(ev: Seq<(Seq<char>, JsonView)>, i: int, v: JsonView)
    requires
        0 <= i < ev.len(),
        forall|k: int| i < k < ev.len() ==> #[trigger] ev[k].0 != ev[i].0,
    ensures
        entries_map(ev.update(i, (ev[i].0, v))) == entries_map(ev).insert(ev[i].0, v),
    decreases ev.len(),
{
    let ev2 = ev.update(i, (ev[i].0, v));
    if i < ev.len() - 1 {
        assert(ev2.drop_last() =~= ev.drop_last().update(i, (ev[i].0, v)));
        lemma_entries_map_update(ev.drop_last(), i, v);
        assert(entries_map(ev2) =~= entries_map(ev).insert(ev[i].0, v));
    } else {
        assert(ev2.drop_last() =~= ev.drop_last());
        assert(entries_map(ev2) =~= entries_map(ev).insert(ev[i].0, v));
    }
}

// ---------------------------------------------------------------------------
// The component tree
// ---------------------------------------------------------------------------

/// A drawable object of the scene and the transforms of the components on the
/// way down to it, outermost first (`None` where a component has no transform
/// text).
pub struct Instance {
    pub obj: JsonValue,
    pub transforms: Vec<Option<String>>,
}

/// The abstract value of an [`Instance`].
pub ghost struct InstanceSpec {
    pub obj: JsonView,
    pub transforms: Seq<Option<Seq<char>>>,
}

pub open spec fn opt_str_view(o: Option<String>) -> Option<Seq<char>> {
    match o {
        Some(s) => Some(s@),
        None => None,
    }
}

pub open spec fn chain_view(c: Seq<Option<String>>) -> Seq<Option<Seq<char>>> {
    c.map_values(|o: Option<String>| opt_str_view(o))
}

impl View for Instance {
    type V = InstanceSpec;

    open spec fn view(&self) -> InstanceSpec {
        InstanceSpec { obj: self.obj@, transforms: chain_view(self.transforms@) }
    }
}

pub open spec fn instances_view(v: Seq<Instance>) -> Seq<InstanceSpec> {
    v.map_values(|i: Instance| i@)
}

/// The object types that are drawn.
pub open spec fn is_leaf_type(t: Seq<char>) -> bool {
    t == "PathObject"@ || t == "EllipseObject"@ || t == "RasterImage"@
}

/// The instances under component `comp`, whose ancestors' transforms are
/// `chain`, exploring at most `fuel` levels of groups; `None` when the groups
/// go deeper than that.
///
/// A component names an object by `obj_id`; a component without a known
/// object yields nothing. A group (`AttachedGroup`) yields the instances of
/// its `components`; a path, ellipse or raster image yields itself when its
/// `color` is not null; any other object yields nothing.
pub open spec fn walk_spec(
    map: Map<Seq<char>, JsonView>,
    comp: JsonView,
    chain: Seq<Option<Seq<char>>>,
    fuel: nat,
) -> Option<Seq<InstanceSpec>>
    decreases fuel, 0nat,
{
    match id_of(field(comp, "obj_id"@)) {
        None => Some(Seq::empty()),
        Some(id) => if !map.contains_key(id) {
            Some(Seq::empty())
        } else {
            let obj = map[id];
            let total = chain.push(str_of(field(comp, "transform"@)));
            match str_of(field(obj, "type"@)) {
                Some(t) => if t == "AttachedGroup"@ {
                    match array_of(field(obj, "components"@)) {
                        Some(children) => if fuel == 0 {
                            None
                        } else {
                            walk_list(map, children, total, (fuel - 1) as nat)
                        },
                        None => Some(Seq::empty()),
                    }
                } else if is_leaf_type(t) && field(obj, "color"@) != JsonView::Null {
                    Some(seq![InstanceSpec { obj, transforms: total }])
                } else {
                    Some(Seq::empty())
                },
                None => Some(Seq::empty()),
            }
        },
    }
}

/// The instances under each of `comps` in turn.
pub open spec fn walk_list(
    map: Map<Seq<char>, JsonView>,
    comps: Seq<JsonView>,
    chain: Seq<Option<Seq<char>>>,
    fuel: nat,
) -> Option<Seq<InstanceSpec>>
    decreases fuel, comps.len() + 1,
{
    if comps.len() == 0 {
        Some(Seq::empty())
    } else {
        match (walk_list(map, comps.drop_last(), chain, fuel), walk_spec(map, comps.last(), chain, fuel)) {
            (Some(a), Some(b)) => Some(a + b),
            _ => None,
        }
    }
}

/// The instances of a canvas: those under each of its `components`.
pub open spec fn build_spec(map: Map<Seq<char>, JsonView>, canvas: JsonView, fuel: nat) -> Option<Seq<InstanceSpec>> {
    match array_of(field(canvas, "components"@)) {
        Some(comps) => walk_list(map, comps, Seq::empty(), fuel),
        None => Some(Seq::empty()),
    }
}

/// The groups of the canvas nest finitely: every group is reached through
/// finitely many enclosing groups.
pub open spec fn finitely_nested(map: Map<Seq<char>, JsonView>, canvas: JsonView) -> bool {
    exists|fuel: nat| build_spec(map, canvas, fuel) is Some
}

proof fn lemma_walk_fuel(map: Map<Seq<char>, JsonView>, comp: JsonView, chain: Seq<Option<Seq<char>>>, fuel: nat)
    requires
        walk_spec(map, comp, chain, fuel) is Some,
    ensures
        walk_spec(map, comp, chain, fuel + 1) == walk_spec(map, comp, chain, fuel),
    decreases fuel, 0nat,
{
    match id_of(field(comp, "obj_id"@)) {
        None => {},
        Some(id) => if map.contains_key(id) {
            let obj = map[id];
            let total = chain.push(str_of(field(comp, "transform"@)));
            match str_of(field(obj, "type"@)) {
                Some(t) => if t == "AttachedGroup"@ {
                    match array_of(field(obj, "components"@)) {
                        Some(children) => {
                            lemma_walk_list_fuel(map, children, total, (fuel - 1) as nat);
                        },
                        None => {},
                    }
                },
                None => {},
            }
        },
    }
}

proof fn lemma_walk_list_fuel(map: Map<Seq<char>, JsonView>, comps: Seq<JsonView>, chain: Seq<Option<Seq<char>>>, fuel: nat)
    requires
        walk_list(map, comps, chain, fuel) is Some,
    ensures
        walk_list(map, comps, chain, fuel + 1) == walk_list(map, comps, chain, fuel),
    decreases fuel, comps.len() + 1,
{
    if comps.len() > 0 {
        lemma_walk_list_fuel(map, comps.drop_last(), chain, fuel);
        lemma_walk_fuel(map, comps.last(), chain, fuel);
    }
}

proof fn lemma_build_fuel_mono(map: Map<Seq<char>, JsonView>, canvas: JsonView, f1: nat, f2: nat)
    requires
        build_spec(map, canvas, f1) is Some,
        f1 <= f2,
    ensures
        build_spec(map, canvas, f2) == build_spec(map, canvas, f1),
    decreases f2 - f1,
{
    if f1 < f2 {
        match array_of(field(canvas, "components"@)) {
            Some(comps) => lemma_walk_list_fuel(map, comps, Seq::empty(), f1),
            None => {},
        }
        lemma_build_fuel_mono(map, canvas, f1 + 1, f2);
    }
}

/// The walk gives the same instances whatever fuel lets it finish.
pub proof fn lemma_build_fuel_irrelevant(map: Map<Seq<char>, JsonView>, canvas: JsonView, f1: nat, f2: nat)
    requires
        build_spec(map, canvas, f1) is Some,
        build_spec(map, canvas, f2) is Some,
    ensures
        build_spec(map, canvas, f1) == build_spec(map, canvas, f2),
{
    if f1 <= f2 {
        lemma_build_fuel_mono(map, canvas, f1, f2);
    } else {
        lemma_build_fuel_mono(map, canvas, f2, f1);
    }
}

proof fn lemma_walk_list_prefix(map: Map<Seq<char>, JsonView>, comps: Seq<JsonView>, chain: Seq<Option<Seq<char>>>, fuel: nat, k: int)
    requires
        walk_list(map, comps, chain, fuel) is Some,
        0 <= k <= comps.len(),
    ensures
        walk_list(map, comps.take(k), chain, fuel) is Some,
        k < comps.len() ==> walk_spec(map, comps[k], chain, fuel) is Some,
    decreases comps.len(),
{
    if k < comps.len() {
        assert(comps.drop_last().take(k) =~= comps.take(k));
        if k < comps.len() - 1 {
            lemma_walk_list_prefix(map, comps.drop_last(), chain, fuel, k);
            assert(comps.drop_last()[k] == comps[k]);
        } else {
            assert(comps.drop_last() =~= comps.take(k));
        }
    } else {
        assert(comps.take(k) =~= comps);
    }
}

/// `x` was reached below the components whose transforms are `chain`: its
/// own chain starts with `chain` and goes on further.
pub open spec fn extends_chain(x: InstanceSpec, chain: Seq<Option<Seq<char>>>) -> bool {
    &&& x.transforms.len() > chain.len()
    &&& x.transforms.subrange(0, chain.len() as int) == chain
}

/// Every instance found under a component carries the chain it was reached
/// with, followed by that component's own transform, at any depth of
/// nesting.
pub proof fn law_walk_keeps_component_transform(
    map: Map<Seq<char>, JsonView>,
    comp: JsonView,
    chain: Seq<Option<Seq<char>>>,
    fuel: nat,
)
    requires
        walk_spec(map, comp, chain, fuel) is Some,
    ensures
        forall|n: int|
            0 <= n < walk_spec(map, comp, chain, fuel)->0.len() ==> extends_chain(
                #[trigger] walk_spec(map, comp, chain, fuel)->0[n],
                chain,
            ) && walk_spec(map, comp, chain, fuel)->0[n].transforms[chain.len() as int] == str_of(
                field(comp, "transform"@),
            ),
    decreases fuel, 0nat,
{
    let res = walk_spec(map, comp, chain, fuel)->0;
    let t = str_of(field(comp, "transform"@));
    let total = chain.push(t);
    match id_of(field(comp, "obj_id"@)) {
        None => {},
        Some(id) => if map.contains_key(id) {
            let obj = map[id];
            match str_of(field(obj, "type"@)) {
                Some(ty) => if ty == "AttachedGroup"@ {
                    match array_of(field(obj, "components"@)) {
                        Some(children) => {
                            law_walk_list_keeps_chain(map, children, total, (fuel - 1) as nat);
                            assert forall|n: int| 0 <= n < res.len() implies extends_chain(#[trigger] res[n], chain)
                                && res[n].transforms[chain.len() as int] == t by {
                                let x = res[n];
                                assert(extends_chain(x, total));
                                assert(x.transforms.subrange(0, chain.len() as int) =~= total.subrange(0, chain.len() as int));
                                assert(total.subrange(0, chain.len() as int) =~= chain);
                                assert(x.transforms[chain.len() as int] == x.transforms.subrange(0, total.len() as int)[chain.len() as int]);
                            }
                        },
                        None => {},
                    }
                } else if is_leaf_type(ty) && field(obj, "color"@) != JsonView::Null {
                    assert(res == seq![InstanceSpec { obj, transforms: total }]);
                    assert(total.subrange(0, chain.len() as int) =~= chain);
                },
                None => {},
            }
        },
    }
}

/// Every instance found under a list of components carries the chain it was
/// reached with, followed by the transform of one of those components.
pub proof fn law_walk_list_keeps_chain(
    map: Map<Seq<char>, JsonView>,
    comps: Seq<JsonView>,
    chain: Seq<Option<Seq<char>>>,
    fuel: nat,
)
    requires
        walk_list(map, comps, chain, fuel) is Some,
    ensures
        forall|n: int|
            0 <= n < walk_list(map, comps, chain, fuel)->0.len() ==> extends_chain(
                #[trigger] walk_list(map, comps, chain, fuel)->0[n],
                chain,
            ) && exists|k: int|
                0 <= k < comps.len() && walk_list(map, comps, chain, fuel)->0[n].transforms[chain.len() as int]
                    == str_of(field(#[trigger] comps[k], "transform"@)),
    decreases fuel, comps.len() + 1,
{
    if comps.len() > 0 {
        let prev = comps.drop_last();
        law_walk_list_keeps_chain(map, prev, chain, fuel);
        law_walk_keeps_component_transform(map, comps.last(), chain, fuel);
        let a = walk_list(map, prev, chain, fuel)->0;
        let b = walk_spec(map, comps.last(), chain, fuel)->0;
        let res = walk_list(map, comps, chain, fuel)->0;
        assert(res == a + b);
        assert forall|n: int| 0 <= n < res.len() implies extends_chain(#[trigger] res[n], chain) && exists|k: int|
            0 <= k < comps.len() && res[n].transforms[chain.len() as int] == str_of(field(#[trigger] comps[k], "transform"@)) by {
            if n < a.len() {
                assert(res[n] == a[n]);
                let k = choose|k: int| 0 <= k < prev.len() && a[n].transforms[chain.len() as int] == str_of(field(#[trigger] prev[k], "transform"@));
                assert(comps[k] == prev[k]);
            } else {
                assert(res[n] == b[n - a.len()]);
                assert(comps[comps.len() - 1] == comps.last());
            }
        }
    }
}

/// Every instance of a canvas is reached through one of the canvas's own
/// components, whose transform comes first in its chain.
pub proof fn law_build_starts_at_canvas_components(map: Map<Seq<char>, JsonView>, canvas: JsonView, fuel: nat)
    requires
        build_spec(map, canvas, fuel) is Some,
    ensures
        forall|n: int|
            0 <= n < build_spec(map, canvas, fuel)->0.len() ==> (#[trigger] build_spec(map, canvas, fuel)->0[n]).transforms.len()
                >= 1 && exists|k: int|
                0 <= k < array_of(field(canvas, "components"@))->0.len()
                    && build_spec(map, canvas, fuel)->0[n].transforms[0] == str_of(
                    field(#[trigger] array_of(field(canvas, "components"@))->0[k], "transform"@),
                ),
{
    match array_of(field(canvas, "components"@)) {
        Some(comps) => {
            law_walk_list_keeps_chain(map, comps, Seq::empty(), fuel);
        },
        None => {},
    }
}

proof fn lemma_walk_list_prefix_none(map: Map<Seq<char>, JsonView>, comps: Seq<JsonView>, chain: Seq<Option<Seq<char>>>, fuel: nat, k: int)
    requires
        0 <= k <= comps.len(),
        walk_list(map, comps.take(k), chain, fuel) is None,
    ensures
        walk_list(map, comps, chain, fuel) is None,
    decreases comps.len(),
{
    if k < comps.len() {
        assert(comps.drop_last().take(k) =~= comps.take(k));
        lemma_walk_list_prefix_none(map, comps.drop_last(), chain, fuel, k);
    } else {
        assert(comps.take(k) =~= comps);
    }
}

fn copy_chain(chain: &Vec<Option<String>>) -> (res: Vec<Option<String>>)
    ensures
        chain_view(res@) == chain_view(chain@),
{
    let mut res: Vec<Option<String>> = Vec::new();
    let n = chain.len();
    for i in 0..n
        invariant
            n == chain@.len(),
            chain_view(res@) == chain_view(chain@).take(i as int),
    {
        let e = match &chain[i] {
            Some(s) => Some(s.clone()),
            None => None,
        };
        assert(opt_str_view(e) == opt_str_view(chain@[i as int]));
        let ghost before = chain_view(res@);
        res.push(e);
        assert(chain_view(res@) =~= before.push(opt_str_view(e)));
        assert(chain_view(res@) =~= chain_view(chain@).take(i + 1));
    }
    assert(chain_view(chain@).take(n as int) =~= chain_view(chain@));
    res
}

/// Walks the component tree of a canvas.
pub struct SceneBuilder<'a> {
    canvas: &'a JsonValue,
    obj_map: &'a ObjectMap,
}

impl<'a> SceneBuilder<'a> {
    pub fn new(canvas: &'a JsonValue, obj_map: &'a ObjectMap) -> (res: Self)
        ensures
            res.canvas() == canvas@,
            res.objects() == obj_map@,
    {
        Self { canvas, obj_map }
    }

    pub closed spec fn canvas(&self) -> JsonView {
        self.canvas@
    }

    pub closed spec fn objects(&self) -> Map<Seq<char>, JsonView> {
        self.obj_map@
    }

    /// Every drawable object of the canvas, in the order of a depth-first
    /// walk, each with the transforms of the components above it.
    pub fn build(&self) -> (res: Vec<Instance>)
        requires
            finitely_nested(self.objects(), self.canvas()),
        ensures
            forall|fuel: nat| #[trigger] build_spec(self.objects(), self.canvas(), fuel) is Some
                ==> instances_view(res@) == build_spec(self.objects(), self.canvas(), fuel)->0,
    {
        let ghost map = self.objects();
        let ghost fuel = choose|fuel: nat| build_spec(map, self.canvas(), fuel) is Some;
        let mut instances: Vec<Instance> = Vec::new();
        let root: Vec<Option<String>> = Vec::new();
        match self.canvas.get("components") {
            Some(c) => match c.as_array() {
                Some(comps) => {
                    proof {
                        assert(chain_view(root@) =~= Seq::empty());
                    }
                    self.walk_all(comps, &root, &mut instances, Ghost(fuel));
                    assert(instances_view(instances@) =~= Seq::empty() + walk_list(map, json_views(comps@), Seq::empty(), fuel)->0);
                },
                None => {},
            },
            None => {},
        }
        proof {
            assert forall|f: nat| #[trigger] build_spec(map, self.canvas(), f) is Some
                implies instances_view(instances@) == build_spec(map, self.canvas(), f)->0 by {
                lemma_build_fuel_irrelevant(map, self.canvas(), fuel, f);
            }
        }
        instances
    }

    /// Every drawable object of the canvas, as [`SceneBuilder::build`] gives
    /// them, when no group lies more than `max_depth` groups deep; `None`
    /// otherwise.
    pub fn build_within(&self, max_depth: usize) -> (res: Option<Vec<Instance>>)
        ensures
            match res {
                Some(v) => build_spec(self.objects(), self.canvas(), max_depth as nat) is Some
                    && instances_view(v@) == build_spec(self.objects(), self.canvas(), max_depth as nat)->0,
                None => build_spec(self.objects(), self.canvas(), max_depth as nat) is None,
            },
    {
        let fits = match self.canvas.get("components") {
            Some(c) => match c.as_array() {
                Some(comps) => self.walk_all_fits(comps, Ghost(Seq::empty()), max_depth),
                None => true,
            },
            None => true,
        };
        if fits {
            let res = self.build();
            Some(res)
        } else {
            None
        }
    }

    fn walk_all_fits(&self, comps: &Vec<JsonValue>, Ghost(chain): Ghost<Seq<Option<Seq<char>>>>, fuel: usize) -> (res: bool)
        ensures
            res == walk_list(self.objects(), json_views(comps@), chain, fuel as nat) is Some,
        decreases fuel, json_views(comps@).len() + 1,
    {
        let ghost map = self.objects();
        let ghost cs = json_views(comps@);
        let n = comps.len();
        for k in 0..n
            invariant
                n == comps@.len(),
                cs == json_views(comps@),
                map == self.objects(),
                walk_list(map, cs.take(k as int), chain, fuel as nat) is Some,
        {
            assert(cs.take(k + 1).drop_last() =~= cs.take(k as int));
            assert(cs.take(k + 1).last() == comps@[k as int]@);
            if !self.walk_fits(&comps[k], Ghost(chain), fuel) {
                proof {
                    lemma_walk_list_prefix_none(map, cs, chain, fuel as nat, k + 1);
                }
                return false;
            }
        }
        assert(cs.take(n as int) =~= cs);
        true
    }

    fn walk_fits(&self, comp: &JsonValue, Ghost(chain): Ghost<Seq<Option<Seq<char>>>>, fuel: usize) -> (res: bool)
        ensures
            res == walk_spec(self.objects(), comp@, chain, fuel as nat) is Some,
        decreases fuel, 0nat,
    {
        let id = match comp.get("obj_id") {
            Some(v) => id_str(v),
            None => None,
        };
        let id = match id {
            Some(id) => id,
            None => return true,
        };
        let obj = match self.obj_map.get(id.as_str()) {
            Some(o) => o,
            None => return true,
        };
        let ghost total = chain.push(str_of(field(comp@, "transform"@)));
        let kind = match obj.get("type") {
            Some(v) => v.as_str(),
            None => None,
        };
        match kind {
            Some(k) => {
                if str_eq(k, "AttachedGroup") {
                    match obj.get("components") {
                        Some(c) => match c.as_array() {
                            Some(children) => {
                                if fuel == 0 {
                                    false
                                } else {
                                    self.walk_all_fits(children, Ghost(total), fuel - 1)
                                }
                            },
                            None => true,
                        },
                        None => true,
                    }
                } else {
                    true
                }
            },
            None => true,
        }
    }

    fn walk_all(
        &self,
        comps: &Vec<JsonValue>,
        chain: &Vec<Option<String>>,
        instances: &mut Vec<Instance>,
        Ghost(fuel): Ghost<nat>,
    )
        requires
            walk_list(self.objects(), json_views(comps@), chain_view(chain@), fuel) is Some,
        ensures
            instances_view(final(instances)@) == instances_view(old(instances)@)
                + walk_list(self.objects(), json_views(comps@), chain_view(chain@), fuel)->0,
        decreases fuel, json_views(comps@).len() + 1,
    {
        let ghost map = self.objects();
        let ghost cs = json_views(comps@);
        let ghost cv = chain_view(chain@);
        let n = comps.len();
        for k in 0..n
            invariant
                n == comps@.len(),
                cs == json_views(comps@),
                map == self.objects(),
                cv == chain_view(chain@),
                walk_list(map, cs, cv, fuel) is Some,
                walk_list(map, cs.take(k as int), cv, fuel) is Some,
                instances_view(instances@) == instances_view(old(instances)@) + walk_list(map, cs.take(k as int), cv, fuel)->0,
        {
            proof {
                lemma_walk_list_prefix(map, cs, cv, fuel, k as int);
                lemma_walk_list_prefix(map, cs, cv, fuel, k + 1);
                assert(cs.take(k + 1).drop_last() =~= cs.take(k as int));
                assert(cs.take(k + 1).last() == comps@[k as int]@);
            }
            self.walk(&comps[k], chain, instances, Ghost(fuel));
        }
        assert(cs.take(n as int) =~= cs);
    }

    fn walk(
        &self,
        comp: &JsonValue,
        chain: &Vec<Option<String>>,
        instances: &mut Vec<Instance>,
        Ghost(fuel): Ghost<nat>,
    )
        requires
            walk_spec(self.objects(), comp@, chain_view(chain@), fuel) is Some,
        ensures
            instances_view(final(instances)@) == instances_view(old(instances)@)
                + walk_spec(self.objects(), comp@, chain_view(chain@), fuel)->0,
        decreases fuel, 0nat,
    {
        let ghost map = self.objects();
        let ghost expected = walk_spec(map, comp@, chain_view(chain@), fuel)->0;
        let id = match comp.get("obj_id") {
            Some(v) => id_str(v),
            None => None,
        };
        let id = match id {
            Some(id) => id,
            None => {
                assert(instances_view(instances@) =~= instances_view(instances@) + expected);
                return;
            },
        };
        let obj = match self.obj_map.get(id.as_str()) {
            Some(o) => o,
            None => {
                assert(instances_view(instances@) =~= instances_view(instances@) + expected);
                return;
            },
        };
        let t = match comp.get("transform") {
            Some(v) => match v.as_str() {
                Some(s) => Some(String::from_str(s)),
                None => None,
            },
            None => None,
        };
        let mut total = copy_chain(chain);
        total.push(t);
        let ghost total_view = chain_view(chain@).push(str_of(field(comp@, "transform"@)));
        assert(chain_view(total@) =~= total_view);
        let kind = match obj.get("type") {
            Some(v) => v.as_str(),
            None => None,
        };
        match kind {
            Some(k) => {
                if str_eq(k, "AttachedGroup") {
                    match obj.get("components") {
                        Some(c) => match c.as_array() {
                            Some(children) => {
                                self.walk_all(children, &total, instances, Ghost((fuel - 1) as nat));
                            },
                            None => {
                                assert(instances_view(instances@) =~= instances_view(instances@) + expected);
                            },
                        },
                        None => {
                            assert(instances_view(instances@) =~= instances_view(instances@) + expected);
                        },
                    }
                } else if (str_eq(k, "PathObject") || str_eq(k, "EllipseObject") || str_eq(k, "RasterImage"))
                    && !match obj.get("color") {
                        Some(c) => c.is_null(),
                        None => true,
                    } {
                    let ghost before = instances_view(instances@);
                    let inst = Instance { obj: obj.copy(), transforms: total };
                    instances.push(inst);
                    assert(instances_view(instances@) =~= before + seq![inst@]);
                } else {
                    assert(instances_view(instances@) =~= instances_view(instances@) + expected);
                }
            },
            None => {
                assert(instances_view(instances@) =~= instances_view(instances@) + expected);
            },
        }
    }
}

} // verus!
