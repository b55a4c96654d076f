use hecto::annotation::{Annotation, AnnotationType};
use hecto::buffer::{Buffer, SaveError};
use hecto::highlighter::{Highlighter, SelectHighlighter};
use hecto::line::Line;
use hecto::location::Location;

fn loc(line_idx: usize, grapheme_idx: usize) -> Location {
    Location { grapheme_idx, line_idx }
}

fn buffer(text: &str) -> Buffer {
    Buffer::from_text(text, "doc.txt")
}

#[test]
fn typing_into_an_empty_buffer() {
    let mut b = Buffer::new();
    assert!(!b.is_dirty());
    for (i, c) in "abc".chars().enumerate() {
        b.insert_char(c, loc(0, i));
    }
    assert_eq!(b.height(), 1);
    assert_eq!(b.contents(), "abc\n");
    assert!(b.is_dirty());
}

#[test]
fn delete_at_end_of_line_joins_lines() {
    let mut b = buffer("ab\ncd\n");
    assert_eq!(b.height(), 2);
    b.delete(loc(0, 2));
    assert_eq!(b.height(), 1);
    assert_eq!(b.contents(), "abcd\n");
    assert!(b.is_dirty());
}

#[test]
fn delete_out_of_range_is_a_no_op() {
    let mut b = buffer("ab\n");
    b.delete(loc(0, 2));
    b.delete(loc(5, 0));
    assert_eq!(b.contents(), "ab\n");
    assert!(!b.is_dirty());
    b.delete(loc(0, 0));
    assert_eq!(b.contents(), "b\n");
    assert!(b.is_dirty());
}

#[test]
fn forward_search_wraps_around() {
    let b = buffer("abc\ndef");
    assert_eq!(b.search_forward("abc", loc(1, 0)), Some(loc(0, 0)));
}

#[test]
fn forward_search_revisits_origin_line_from_start() {
    let b = buffer("xab\nzzz");
    assert_eq!(b.search_forward("ab", loc(0, 2)), Some(loc(0, 1)));
    assert_eq!(b.search_forward("zz", loc(0, 1)), Some(loc(1, 0)));
    assert_eq!(b.search_forward("q", loc(0, 0)), None);
}

#[test]
fn backward_search_wraps_around() {
    let b = buffer("abc\ndef\nghi");
    assert_eq!(b.search_backward("ef", loc(0, 3)), Some(loc(1, 1)));
    assert_eq!(b.search_backward("ab", loc(0, 3)), Some(loc(0, 0)));
    assert_eq!(b.search_backward("hi", loc(2, 1)), Some(loc(2, 1)));
    assert_eq!(b.search_backward("q", loc(1, 1)), None);
}

#[test]
fn empty_query_never_matches() {
    let b = buffer("abc\ndef");
    assert_eq!(b.search_forward("", loc(0, 0)), None);
    assert_eq!(b.search_backward("", loc(1, 2)), None);
    assert_eq!(Buffer::new().search_forward("a", loc(0, 0)), None);
}

#[test]
fn delete_range_is_direction_independent() {
    let text = "hello\nbig\nworld\n";
    let mut forward = buffer(text);
    let mut backward = buffer(text);
    forward.delete_range((loc(0, 2), loc(2, 3)));
    backward.delete_range((loc(2, 3), loc(0, 2)));
    assert_eq!(forward.contents(), "held\n");
    assert_eq!(backward.contents(), forward.contents());
    assert!(forward.is_dirty() && backward.is_dirty());
}

#[test]
fn delete_range_on_one_line() {
    let mut b = buffer("abcdef\n");
    b.delete_range((loc(0, 4), loc(0, 1)));
    assert_eq!(b.contents(), "aef\n");
    let mut c = buffer("abc\n");
    c.delete_range((loc(0, 1), loc(0, 1)));
    assert_eq!(c.contents(), "abc\n");
    assert!(!c.is_dirty());
}

#[test]
fn save_then_load_gives_the_same_lines() {
    let b = buffer("first\n\nthird line\n  indented\n");
    let written = b.contents();
    let again = buffer(&written);
    assert_eq!(again.height(), 4);
    assert_eq!(again.contents(), written);
}

#[test]
fn load_splits_on_any_line_break() {
    let b = buffer("a\r\nb\nc");
    assert_eq!(b.height(), 3);
    assert_eq!(b.contents(), "a\nb\nc\n");
    assert_eq!(buffer("").height(), 0);
    assert!(buffer("").is_empty());
    assert_eq!(buffer("\n").height(), 1);
}

#[test]
fn get_a_grapheme_returns_line_break_at_end() {
    let b = buffer("ab\ncd");
    assert_eq!(b.get_a_grapheme(loc(0, 1)), Some("b".to_string()));
    assert_eq!(b.get_a_grapheme(loc(0, 2)), Some("\n".to_string()));
    assert_eq!(b.get_a_grapheme(loc(0, 3)), None);
    assert_eq!(b.get_a_grapheme(loc(2, 0)), None);
}

#[test]
fn range_text_across_lines() {
    let b = buffer("hello\nbig\nworld");
    assert_eq!(b.get_range_grapheme((loc(2, 3), loc(0, 2))), "llo\nbig\nwor");
    assert_eq!(b.get_range_grapheme((loc(1, 0), loc(1, 2))), "bi");
    assert_eq!(b.get_range_grapheme((loc(0, 5), loc(1, 0))), "\n");
}

#[test]
fn insert_newline_splits_and_appends() {
    let mut b = buffer("abcd");
    b.insert_newline(loc(0, 1));
    assert_eq!(b.contents(), "a\nbcd\n");
    b.insert_newline(loc(2, 0));
    assert_eq!(b.contents(), "a\nbcd\n\n");
    b.insert_newline(loc(9, 0));
    assert_eq!(b.height(), 3);
}

#[test]
fn counts_and_widths_per_line() {
    let b = buffer("a\u{4F60}\nxyz");
    assert_eq!(b.grapheme_count(0), 2);
    assert_eq!(b.grapheme_count(1), 3);
    assert_eq!(b.grapheme_count(7), 0);
    assert_eq!(b.width_until(0, 2), 3);
    assert_eq!(b.width_until(3, 2), 0);
}

#[test]
fn saving_tracks_file_and_dirty_flag() {
    let mut b = Buffer::new();
    assert!(!b.is_file_loaded());
    b.insert_char('x', loc(0, 0));
    assert_eq!(b.save(), Err(SaveError::NoFilePath));
    assert!(b.is_dirty());
    b.save_as("out.txt");
    assert!(!b.is_dirty());
    assert!(b.is_file_loaded());
    assert_eq!(b.get_file_info().path, Some("out.txt".to_string()));
    b.insert_char('y', loc(0, 1));
    assert_eq!(b.save(), Ok(()));
    assert!(!b.is_dirty());
}

#[test]
fn selection_highlight_per_line() {
    let b = buffer("hello\nbig\nworld");
    let mut h = Highlighter::new((loc(2, 2), loc(0, 3)));
    h.set_syntax(1, vec![Annotation { annotation_type: AnnotationType::Syntax(5), start: 0, end: 1 }]);
    for idx in 0..3 {
        b.highlight(idx, &mut h);
    }
    assert_eq!(
        h.get_annotations(0),
        vec![Annotation { annotation_type: AnnotationType::Select, start: 3, end: 5 }]
    );
    assert_eq!(
        h.get_annotations(1),
        vec![
            Annotation { annotation_type: AnnotationType::Syntax(5), start: 0, end: 1 },
            Annotation { annotation_type: AnnotationType::Select, start: 0, end: 3 },
        ]
    );
    assert_eq!(
        h.get_annotations(2),
        vec![Annotation { annotation_type: AnnotationType::Select, start: 0, end: 2 }]
    );
    let s = b.get_highlighted_substring(2, 1..5, &h).unwrap();
    assert_eq!(s.graphemes.concat(), "orld");
    assert_eq!(
        s.annotations,
        vec![Annotation { annotation_type: AnnotationType::Select, start: 0, end: 1 }]
    );
    assert!(b.get_highlighted_substring(3, 0..1, &h).is_none());
}

#[test]
fn select_highlighter_caches_by_line() {
    let line = Line::from_str("abcdef");
    let mut s = SelectHighlighter::new((loc(1, 1), loc(1, 4)));
    assert!(s.get_annotations(1).is_none());
    s.highlight(0, &line);
    s.highlight(1, &line);
    assert_eq!(s.get_annotations(0), Some(&vec![]));
    assert_eq!(
        s.get_annotations(1),
        Some(&vec![Annotation { annotation_type: AnnotationType::Select, start: 1, end: 4 }])
    );
}

#[test]
fn lines_from_given_clusters() {
    let gs: Vec<String> = ["a", "e\u{301}", "\r\n", "\n", "b"].iter().map(|s| s.to_string()).collect();
    let b = Buffer::from_graphemes(&gs, "x");
    assert_eq!(b.height(), 3);
    assert_eq!(b.grapheme_count(0), 2);
    assert_eq!(b.grapheme_count(1), 0);
    assert_eq!(b.contents(), "ae\u{301}\n\nb\n");
    let trailing: Vec<String> = ["x", "\n"].iter().map(|s| s.to_string()).collect();
    assert_eq!(Buffer::from_graphemes(&trailing, "x").height(), 1);
}
