use hecto::annotation::{Annotation, AnnotationType};
use hecto::line::{columns_for_width, Line};

#[test]
fn clusters_are_counted_not_chars() {
    let line = Line::from_str("ae\u{301}\u{1F600}");
    assert_eq!(line.grapheme_count(), 3);
    assert_eq!(line.get_a_grapheme(1), Some("e\u{301}".to_string()));
    assert_eq!(line.get_a_grapheme(3), None);
}

#[test]
fn width_counts_wide_clusters_twice() {
    let line = Line::from_str("a\u{4F60}b");
    assert_eq!(line.width_until(0), 0);
    assert_eq!(line.width_until(1), 1);
    assert_eq!(line.width_until(2), 3);
    assert_eq!(line.width_until(3), 4);
    assert_eq!(line.width_until(99), 4);
}

#[test]
fn insert_and_delete_single_clusters() {
    let mut line = Line::from_str("ac");
    line.insert_char('b', 1);
    assert_eq!(line.text(), "abc");
    line.insert_char('d', 10);
    assert_eq!(line.text(), "abcd");
    line.delete(0);
    assert_eq!(line.text(), "bcd");
    line.delete(7);
    assert_eq!(line.text(), "bcd");
}

#[test]
fn split_and_append() {
    let mut line = Line::from_str("hello");
    let tail = line.split(2);
    assert_eq!(line.text(), "he");
    assert_eq!(tail.text(), "llo");
    line.append(&tail);
    assert_eq!(line.text(), "hello");
    let empty = line.split(9);
    assert_eq!(empty.grapheme_count(), 0);
}

#[test]
fn grapheme_range_is_clamped() {
    let line = Line::from_str("abcdef");
    assert_eq!(line.get_grapheme_range(1, 4), "bcd");
    assert_eq!(line.get_grapheme_range(4, 100), "ef");
    assert_eq!(line.get_grapheme_range(5, 2), "");
}

#[test]
fn line_search_forward_and_backward() {
    let line = Line::from_str("abcabc");
    assert_eq!(line.search_forward("bc", 0), Some(1));
    assert_eq!(line.search_forward("bc", 2), Some(4));
    assert_eq!(line.search_forward("bc", 5), None);
    assert_eq!(line.search_forward("x", 0), None);
    assert_eq!(line.search_backward("bc", 6), Some(4));
    assert_eq!(line.search_backward("bc", 5), Some(1));
    assert_eq!(line.search_backward("bc", 2), None);
    assert_eq!(line.search_backward("abc", 100), Some(3));
}

#[test]
fn search_does_not_match_inside_a_cluster() {
    // "e\u{301}" is one cluster: a match of "\u{301}" would start inside it.
    let line = Line::from_str("e\u{301}x");
    assert_eq!(line.search_forward("\u{301}", 0), None);
    assert_eq!(line.search_forward("e\u{301}x", 0), Some(0));
}

#[test]
fn visible_window_reexpresses_annotations() {
    let line = Line::from_str("0123456789");
    let anns = vec![
        Annotation { annotation_type: AnnotationType::Syntax(7), start: 1, end: 4 },
        Annotation { annotation_type: AnnotationType::Select, start: 5, end: 20 },
        Annotation { annotation_type: AnnotationType::Syntax(8), start: 8, end: 9 },
    ];
    let s = line.get_annotated_visible_substr(3..7, &anns);
    assert_eq!(s.graphemes.concat(), "3456");
    assert_eq!(
        s.annotations,
        vec![
            Annotation { annotation_type: AnnotationType::Syntax(7), start: 0, end: 1 },
            Annotation { annotation_type: AnnotationType::Select, start: 2, end: 4 },
        ]
    );
}

#[test]
fn columns_from_display_width() {
    assert_eq!(columns_for_width(0), 1);
    assert_eq!(columns_for_width(1), 1);
    assert_eq!(columns_for_width(2), 2);
}
