use hecto::annotatedstring::{AnnotatedString, AnnotatedStringIterator, AnnotatedStringPart};
use hecto::annotation::{Annotation, AnnotationType};
use hecto::line::Line;

fn ann(annotation_type: AnnotationType, start: usize, end: usize) -> Annotation {
    Annotation { annotation_type, start, end }
}

fn merge(text: &str, annotations: Vec<Annotation>) -> Vec<AnnotatedStringPart> {
    let line = Line::from_str(text);
    let n = line.grapheme_count();
    line.get_annotated_visible_substr(0..n, &annotations).parts()
}

fn summary(parts: &[AnnotatedStringPart]) -> Vec<(String, Vec<AnnotationType>)> {
    parts.iter().map(|p| (p.string.clone(), p.annotation_types.clone())).collect()
}

const SYNTAX: AnnotationType = AnnotationType::Syntax(1);

#[test]
fn selection_over_syntax_splits_into_four_parts() {
    let parts = merge(
        "Hello World",
        vec![ann(SYNTAX, 0, 5), ann(AnnotationType::Select, 2, 8)],
    );
    assert_eq!(
        summary(&parts),
        vec![
            ("He".to_string(), vec![SYNTAX]),
            ("llo".to_string(), vec![SYNTAX, AnnotationType::Select]),
            (" Wo".to_string(), vec![AnnotationType::Select]),
            ("rld".to_string(), vec![]),
        ]
    );
}

#[test]
fn no_annotations_gives_one_plain_part() {
    let parts = merge("plain text", vec![]);
    assert_eq!(summary(&parts), vec![("plain text".to_string(), vec![])]);
}

#[test]
fn empty_text_gives_no_parts() {
    let parts = merge("", vec![ann(SYNTAX, 0, 3)]);
    assert!(parts.is_empty());
}

#[test]
fn parts_reassemble_the_text() {
    let text = "fn main() { let x = 42; }";
    let parts = merge(
        text,
        vec![
            ann(AnnotationType::Syntax(2), 0, 2),
            ann(AnnotationType::Syntax(3), 20, 22),
            ann(AnnotationType::Select, 1, 21),
            ann(AnnotationType::Syntax(4), 10, 30),
        ],
    );
    let joined: String = parts.iter().map(|p| p.string.as_str()).collect();
    assert_eq!(joined, text);
    assert!(parts.iter().all(|p| !p.string.is_empty()));
}

#[test]
fn syntax_changes_stay_visible_inside_selection() {
    let parts = merge(
        "abcdefgh",
        vec![ann(AnnotationType::Select, 0, 8), ann(SYNTAX, 3, 5)],
    );
    assert_eq!(
        summary(&parts),
        vec![
            ("abc".to_string(), vec![AnnotationType::Select]),
            ("de".to_string(), vec![AnnotationType::Select, SYNTAX]),
            ("fgh".to_string(), vec![AnnotationType::Select]),
        ]
    );
}

#[test]
fn annotation_past_the_text_is_cut_at_its_end() {
    let parts = merge("abc", vec![ann(SYNTAX, 1, 10)]);
    assert_eq!(
        summary(&parts),
        vec![("a".to_string(), vec![]), ("bc".to_string(), vec![SYNTAX])]
    );
}

#[test]
fn iterator_stops_after_the_last_part() {
    let line = Line::from_str("xy");
    let s: AnnotatedString = line.get_annotated_visible_substr(0..2, &vec![]);
    let mut it = AnnotatedStringIterator::new(s);
    let first = it.next().unwrap();
    assert_eq!(first.string, "xy");
    assert_eq!(it.current_idx, 2);
    assert!(it.next().is_none());
    assert!(it.next().is_none());
}

#[test]
fn grapheme_offsets_keep_clusters_whole() {
    // "e" followed by a combining acute accent is one cluster.
    let parts = merge("ae\u{301}b", vec![ann(SYNTAX, 1, 2)]);
    assert_eq!(
        summary(&parts),
        vec![
            ("a".to_string(), vec![]),
            ("e\u{301}".to_string(), vec![SYNTAX]),
            ("b".to_string(), vec![]),
        ]
    );
}
