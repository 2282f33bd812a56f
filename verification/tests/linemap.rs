use circuit::linemap::LineMap;
use circuit::util::Pos;

#[test]
fn lines_start_after_each_newline() {
    let m = LineMap::new("ab\ncd\n\nef");
    assert_eq!(m.starts(), &[0, 3, 6, 7]);
    assert_eq!(m.length(), 9);
}

#[test]
fn line_starts_count_bytes() {
    let m = LineMap::new("é\nx");
    assert_eq!(m.starts(), &[0, 3]);
    assert_eq!(m.length(), 4);
}

#[test]
fn search_finds_the_line_of_an_offset() {
    let m = LineMap::new("ab\ncd\n\nef");
    assert_eq!(m.search_linemap(0), 0);
    assert_eq!(m.search_linemap(2), 0);
    assert_eq!(m.search_linemap(3), 1);
    assert_eq!(m.search_linemap(6), 2);
    assert_eq!(m.search_linemap(8), 3);
}

#[test]
fn get_line_gives_start_and_length_without_newline() {
    let m = LineMap::new("ab\ncd\n\nef");
    assert_eq!(m.get_line(0), (0, 2));
    assert_eq!(m.get_line(1), (3, 2));
    assert_eq!(m.get_line(2), (6, 0));
    // The last line has no newline: it runs to the end of the text.
    assert_eq!(m.get_line(3), (7, 2));
    let m = LineMap::new("ab\n");
    assert_eq!(m.get_line(1), (3, 0));
}

#[test]
fn line_count_spans_lines() {
    let m = LineMap::new("ab\ncd\n\nef");
    assert_eq!(m.line_count(Pos::new(0, 1, 1, 3, 4)), 3);
    assert_eq!(m.line_count(Pos::new(0, 0, 1, 0, 1)), 1);
}
