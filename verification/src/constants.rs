//! The fixed tables of the format: BambuStudio process types with the
//! LightBurn layer each maps to, and image filtering types with their
//! LightBurn dither mode.
use vstd::prelude::*;
use crate::text::str_eq;

verus! {

/// The LightBurn layer a BambuStudio process type maps to.
#[derive(Clone, Copy, Debug)]
pub struct ProcessTypeInfo {
    pub kind: &'static str,
    pub name: &'static str,
    pub index: usize,
}

/// The layer table: for each known process type, the layer's kind, name and index.
pub open spec fn process_type_table(pt: Seq<char>) -> Option<(Seq<char>, Seq<char>, nat)> {
    if pt == "LaserLineEngrave"@ {
        Some(("Cut"@, "Line"@, 0))
    } else if pt == "LaserFillEngrave"@ {
        Some(("Scan"@, "Fill"@, 1))
    } else if pt == "LaserLineCut"@ {
        Some(("Cut"@, "Cut"@, 2))
    } else {
        None
    }
}

/// The known process types, in table order.
pub open spec fn process_type_names() -> Seq<Seq<char>> {
    seq!["LaserLineEngrave"@, "LaserFillEngrave"@, "LaserLineCut"@]
}

/// The dither mode for an image filtering type; `stucki` for unknown ones.
pub open spec fn dither_table(filtering_type: Seq<char>) -> Seq<char> {
    if filtering_type == "IF_Relief"@ {
        "stucki"@
    } else if filtering_type == "IF_Threshold"@ {
        "threshold"@
    } else if filtering_type == "IF_Ordered"@ {
        "ordered"@
    } else if filtering_type == "IF_Dither"@ {
        "floyd"@
    } else {
        "stucki"@
    }
}

/// The layer of a known process type; `None` for any other name.
pub fn get_process_type_info(pt: &str) -> (res: Option<ProcessTypeInfo>)
    ensures
        match process_type_table(pt@) {
            Some((kind, name, index)) => res matches Some(info) && info.kind@ == kind
                && info.name@ == name && info.index == index,
            None => res is None,
        },
{
    if str_eq(pt, "LaserLineEngrave") {
        Some(ProcessTypeInfo { kind: "Cut", name: "Line", index: 0 })
    } else if str_eq(pt, "LaserFillEngrave") {
        Some(ProcessTypeInfo { kind: "Scan", name: "Fill", index: 1 })
    } else if str_eq(pt, "LaserLineCut") {
        Some(ProcessTypeInfo { kind: "Cut", name: "Cut", index: 2 })
    } else {
        None
    }
}

/// The dither mode for an image filtering type.
pub fn get_dither(filtering_type: &str) -> (res: &'static str)
    ensures
        res@ == dither_table(filtering_type@),
{
    if str_eq(filtering_type, "IF_Relief") {
        "stucki"
    } else if str_eq(filtering_type, "IF_Threshold") {
        "threshold"
    } else if str_eq(filtering_type, "IF_Ordered") {
        "ordered"
    } else if str_eq(filtering_type, "IF_Dither") {
        "floyd"
    } else {
        "stucki"
    }
}

/// The known process types, in table order.
pub fn process_type_keys() -> (res: std::vec::IntoIter<&'static str>)
    ensures
        vstd::std_specs::iter::IteratorSpec::remaining(&res).map_values(|k: &str| k@) == process_type_names(),
{
    let v: Vec<&'static str> = vec!["LaserLineEngrave", "LaserFillEngrave", "LaserLineCut"];
    let res = v.into_iter();
    assert(vstd::std_specs::iter::IteratorSpec::remaining(&res).map_values(|k: &str| k@) =~= process_type_names());
    res
}

/// Every key that `process_type_keys` yields is a known process type, and its
/// layer index is its position among the keys.
pub proof fn law_keys_are_known(i: int)
    requires
        0 <= i < process_type_names().len(),
    ensures
        process_type_table(process_type_names()[i]) matches Some((_, _, index)) && index == i,
{
    reveal_strlit("LaserLineEngrave");
    reveal_strlit("LaserFillEngrave");
    reveal_strlit("LaserLineCut");
    assert("LaserFillEngrave"@ != "LaserLineEngrave"@ ) by {
        assert("LaserFillEngrave"@[5] != "LaserLineEngrave"@[5]);
    }
    assert("LaserLineCut"@ != "LaserLineEngrave"@) by {
        assert("LaserLineCut"@.len() != "LaserLineEngrave"@.len());
    }
    assert("LaserLineCut"@ != "LaserFillEngrave"@) by {
        assert("LaserLineCut"@.len() != "LaserFillEngrave"@.len());
    }
}

} // verus!
