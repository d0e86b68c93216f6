use lac_to_lbrn2::constants::{get_dither, get_process_type_info, process_type_keys};

#[test]
fn laser_line_engrave_has_correct_info() {
    let info = get_process_type_info("LaserLineEngrave").expect("should be present");
    assert_eq!(info.kind, "Cut");
    assert_eq!(info.name, "Line");
    assert_eq!(info.index, 0);
}

#[test]
fn laser_fill_engrave_has_correct_info() {
    let info = get_process_type_info("LaserFillEngrave").expect("should be present");
    assert_eq!(info.kind, "Scan");
    assert_eq!(info.name, "Fill");
    assert_eq!(info.index, 1);
}

#[test]
fn laser_line_cut_has_correct_info() {
    let info = get_process_type_info("LaserLineCut").expect("should be present");
    assert_eq!(info.kind, "Cut");
    assert_eq!(info.name, "Cut");
    assert_eq!(info.index, 2);
}

#[test]
fn unknown_process_type_returns_none() {
    assert!(get_process_type_info("UnknownType").is_none());
}

#[test]
fn dither_if_relief_maps_to_stucki() {
    assert_eq!(get_dither("IF_Relief"), "stucki");
}

#[test]
fn dither_if_threshold_maps_correctly() {
    assert_eq!(get_dither("IF_Threshold"), "threshold");
}

#[test]
fn dither_if_ordered_maps_correctly() {
    assert_eq!(get_dither("IF_Ordered"), "ordered");
}

#[test]
fn dither_if_dither_maps_to_floyd() {
    assert_eq!(get_dither("IF_Dither"), "floyd");
}

#[test]
fn unknown_dither_type_defaults_to_stucki() {
    assert_eq!(get_dither("UnknownDither"), "stucki");
}

#[test]
fn process_type_keys_contains_all_three_variants() {
    let keys: Vec<&str> = process_type_keys().collect();
    assert!(keys.contains(&"LaserLineEngrave"));
    assert!(keys.contains(&"LaserFillEngrave"));
    assert!(keys.contains(&"LaserLineCut"));
    assert_eq!(keys.len(), 3);
}

#[test]
fn every_key_has_process_type_info() {
    for k in process_type_keys() {
        assert!(get_process_type_info(k).is_some());
    }
}

#[test]
fn process_type_lookup_is_case_sensitive() {
    assert!(get_process_type_info("laserlineengrave").is_none());
    assert!(get_process_type_info("").is_none());
    assert_eq!(get_dither("if_relief"), "stucki");
    assert_eq!(get_dither(""), "stucki");
}

#[test]
fn each_key_is_known_with_its_position_as_index() {
    for (i, key) in process_type_keys().enumerate() {
        assert_eq!(get_process_type_info(key).map(|info| info.index), Some(i));
    }
}
