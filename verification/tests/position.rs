use dependable_core::parsers::position::{line_starts, offset_to_line_col};

#[test]
fn maps_offsets_across_lines() {
    let src = "ab\ncde\nf";
    let starts = line_starts(src);
    assert_eq!(starts, vec![0, 3, 7]);
    assert_eq!(offset_to_line_col(&starts, 0), (0, 0));
    assert_eq!(offset_to_line_col(&starts, 1), (0, 1));
    assert_eq!(offset_to_line_col(&starts, 3), (1, 0));
    assert_eq!(offset_to_line_col(&starts, 5), (1, 2));
    assert_eq!(offset_to_line_col(&starts, 7), (2, 0));
}
