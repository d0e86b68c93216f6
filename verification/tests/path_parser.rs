use lac_to_lbrn2::path_parser::{is_cmd, parse, tokenize};
use lac_to_lbrn2::types::{Segment, SegmentKind};

/// The numbers of a segment, read as the conversion reads them.
fn nums(seg: &Segment) -> Vec<f64> {
    seg.params.iter().map(|t| t.parse::<f64>().unwrap_or(0.0)).collect()
}

#[test]
fn empty_input_returns_empty() {
    assert!(parse("").is_empty());
}

#[test]
fn lone_m_with_no_coordinates_returns_empty() {
    // The parser breaks immediately when fewer than 2 tokens follow M
    assert!(parse("M").is_empty());
}

#[test]
fn move_command_creates_one_subpath_with_one_segment() {
    let result = parse("M 10 20");
    assert_eq!(result.len(), 1);
    assert_eq!(result[0].len(), 1);
    assert_eq!(result[0][0].kind, SegmentKind::Move);
    assert_eq!(nums(&result[0][0]), vec![10.0, 20.0]);
}

#[test]
fn line_command_appends_segment_to_current_subpath() {
    let result = parse("M 0 0 L 10 20");
    assert_eq!(result.len(), 1);
    assert_eq!(result[0].len(), 2);
    assert_eq!(result[0][1].kind, SegmentKind::Line);
    assert_eq!(nums(&result[0][1]), vec![10.0, 20.0]);
}

#[test]
fn bezier_command_stores_params_as_cp1_cp2_endpoint() {
    // C reads: ex ey cp1x cp1y cp2x cp2y, stores as [cp1x, cp1y, cp2x, cp2y, ex, ey]
    let result = parse("M 0 0 C 1 2 3 4 5 6");
    assert_eq!(result[0].len(), 2);
    assert_eq!(result[0][1].kind, SegmentKind::Bezier);
    assert_eq!(nums(&result[0][1]), vec![3.0, 4.0, 5.0, 6.0, 1.0, 2.0]);
}

#[test]
fn close_command_consumed_without_adding_segment() {
    let result = parse("M 0 0 L 10 10 Z");
    assert_eq!(result[0].len(), 2); // only Move + Line
}

#[test]
fn lowercase_z_also_consumed() {
    let result = parse("M 0 0 L 5 5 z");
    assert_eq!(result[0].len(), 2);
}

#[test]
fn second_move_starts_new_subpath() {
    let result = parse("M 0 0 L 5 5 M 10 10 L 15 15");
    assert_eq!(result.len(), 2);
    assert_eq!(nums(&result[0][0]), vec![0.0, 0.0]);
    assert_eq!(nums(&result[1][0]), vec![10.0, 10.0]);
}

#[test]
fn negative_coordinates_parsed_correctly() {
    let result = parse("M -5 -3");
    assert_eq!(nums(&result[0][0]), vec![-5.0, -3.0]);
}

#[test]
fn scientific_notation_parsed_correctly() {
    let result = parse("M 1.5e+2 -3.14e-1");
    assert!((nums(&result[0][0])[0] - 150.0).abs() < 1e-9);
    assert!((nums(&result[0][0])[1] - (-0.314)).abs() < 1e-9);
}

#[test]
fn implicit_lines_after_move_coordinates() {
    // Additional coordinate pairs after M become L segments
    let result = parse("M 0 0 10 20");
    assert_eq!(result[0].len(), 2);
    assert_eq!(result[0][1].kind, SegmentKind::Line);
    assert_eq!(nums(&result[0][1]), vec![10.0, 20.0]);
}

#[test]
fn multiple_line_pairs_all_parsed() {
    let result = parse("M 0 0 L 1 2 3 4 5 6");
    assert_eq!(result[0].len(), 4); // Move + 3 Lines
}

#[test]
fn truncated_bezier_with_only_4_tokens_skipped() {
    // Only 4 tokens after C — not enough for a full bezier (need 6); loop skips it
    let result = parse("M 0 0 C 1 2 3 4");
    // bezier loop condition i+5 < len is not met → no bezier added
    assert_eq!(result[0].len(), 1); // just the Move
}

#[test]
fn tokens_keep_number_text() {
    assert_eq!(
        tokenize("M1.5e+2,-3L.5 -.25e-1z"),
        vec!["M", "1.5e+2", "-3", "L", ".5", "-.25e-1", "z"]
    );
}

#[test]
fn lone_minus_is_dropped_and_other_characters_separate() {
    assert_eq!(tokenize("- x 7 -- Q8"), vec!["7", "8"]);
}

#[test]
fn lines_before_any_move_are_dropped() {
    let result = parse("L 1 2 M 3 4 L 5 6");
    assert_eq!(result.len(), 1);
    assert_eq!(result[0].len(), 2);
    assert_eq!(result[0][0].params, vec!["3", "4"]);
}

#[test]
fn is_cmd_recognises_only_command_letters() {
    for c in ["M", "C", "L", "Z", "z"] {
        assert!(is_cmd(c));
    }
    for c in ["m", "l", "c", "", "MM", "1"] {
        assert!(!is_cmd(c));
    }
}

#[test]
fn move_coordinates_are_taken_even_when_they_are_commands() {
    let result = parse("M L 5 L 1 1");
    assert_eq!(result.len(), 1);
    assert_eq!(result[0][0].params, vec!["L", "5"]);
    assert_eq!(result[0][1].params, vec!["1", "1"]);
}

#[test]
fn every_subpath_starts_with_a_move_and_converts() {
    let result = parse("L 9 9 M 1 2 C 1 2 3 4 5 6 L 7 8 M 9 9 z M 3 4 5 6 C 1 2");
    assert_eq!(result.len(), 3);
    for sp in &result {
        assert_eq!(sp[0].kind, SegmentKind::Move);
        assert_eq!(sp[0].params.len(), 2);
        for seg in &sp[1..] {
            match seg.kind {
                SegmentKind::Line => assert_eq!(seg.params.len(), 2),
                SegmentKind::Bezier => assert_eq!(seg.params.len(), 6),
                SegmentKind::Move => panic!("a move inside a subpath"),
            }
        }
        let _ = lac_to_lbrn2::subpath_converter::convert(sp, true);
    }
    assert_eq!(result[2].len(), 2);
    assert_eq!(nums(&result[2][1]), vec![5.0, 6.0]);
}

#[test]
fn a_command_letter_in_the_second_slot_of_a_pair_is_read_as_a_number() {
    let result = parse("M 0 0 L 1 M 2 3");
    assert_eq!(result.len(), 1);
    assert_eq!(result[0].len(), 3);
    assert_eq!(result[0][1].params, vec!["1".to_string(), "M".to_string()]);
    assert_eq!(nums(&result[0][1]), vec![1.0, 0.0]);
    assert_eq!(nums(&result[0][2]), vec![2.0, 3.0]);
}
