use std::collections::HashMap;
use vstd::prelude::*;

use crate::annotation::{Annotation, AnnotationType};
use crate::line::Line;
use crate::location::{normalize, normalized, SelectRange};

verus! {

broadcast use vstd::std_specs::hash::group_hash_axioms;

/// The selection annotation of a line of `count` clusters with index `idx`,
/// if the selection reaches that line.
pub open spec fn selection_on_line(range: SelectRange, idx: int, count: int) -> Option<Annotation> {
    let (s, e) = normalize(range);
    if s.line_idx <= idx <= e.line_idx {
        Some(
            Annotation {
                annotation_type: AnnotationType::Select,
                start: if idx > s.line_idx {
                    0
                } else {
                    s.grapheme_idx
                },
                end: if idx < e.line_idx {
                    count as usize
                } else {
                    e.grapheme_idx
                },
            },
        )
    } else {
        None
    }
}

/// Marks the selected part of each line it is asked about.
pub struct SelectHighlighter {
    selected_range: SelectRange,
    highlights: HashMap<usize, Vec<Annotation>>,
}

impl SelectHighlighter {
    pub closed spec fn range_spec(&self) -> SelectRange {
        self.selected_range
    }

    /// The annotations computed for each line so far.
    pub closed spec fn cache(&self) -> Map<usize, Seq<Annotation>> {
        self.highlights@.map_values(|v: Vec<Annotation>| v@)
    }

    pub fn new(selected_range: SelectRange) -> (r: SelectHighlighter)
        ensures
            r.range_spec() == selected_range,
            r.cache() == Map::<usize, Seq<Annotation>>::empty(),
    {
        let r = SelectHighlighter { selected_range, highlights: HashMap::new() };
        assert(r.cache() =~= Map::<usize, Seq<Annotation>>::empty());
        r
    }

    /// Adds to `result` the selection annotation of line `idx`, if the
    /// selection reaches it.
    fn highlight_selected_words(&self, idx: usize, line: &Line, result: &mut Vec<Annotation>)
        ensures
            final(result)@ == match selection_on_line(self.range_spec(), idx as int, line@.len() as int) {
                Some(a) => old(result)@.push(a),
                None => old(result)@,
            },
    {
        let (start, end) = normalized(self.selected_range);
        if start.line_idx <= idx && idx <= end.line_idx {
            let highlight_start = if idx > start.line_idx {
                0
            } else {
                start.grapheme_idx
            };
            let highlight_end = if idx < end.line_idx {
                line.grapheme_count()
            } else {
                end.grapheme_idx
            };
            result.push(
                Annotation {
                    annotation_type: AnnotationType::Select,
                    start: highlight_start,
                    end: highlight_end,
                },
            );
        }
    }

    /// Computes and keeps the annotations of line `idx`.
    pub fn highlight(&mut self, idx: usize, line: &Line)
        ensures
            final(self).range_spec() == old(self).range_spec(),
            final(self).cache() == old(self).cache().insert(
                idx,
                match selection_on_line(old(self).range_spec(), idx as int, line@.len() as int) {
                    Some(a) => seq![a],
                    None => seq![],
                },
            ),
    {
        let mut result: Vec<Annotation> = Vec::new();
        self.highlight_selected_words(idx, line, &mut result);
        let ghost rv = result@;
        self.highlights.insert(idx, result);
        assert(final(self).cache() =~= old(self).cache().insert(idx, rv));
    }

    /// The annotations kept for line `idx`, if it was highlighted.
    pub fn get_annotations(&self, idx: usize) -> (r: Option<&Vec<Annotation>>)
        ensures
            match r {
                Some(v) => self.cache().contains_key(idx) && v@ == self.cache()[idx],
                None => !self.cache().contains_key(idx),
            },
    {
        self.highlights.get(&idx)
    }
}

/// Copies the annotations of `src` to the end of `dst`.
fn extend_annotations(dst: &mut Vec<Annotation>, src: &Vec<Annotation>)
    ensures
        final(dst)@ == old(dst)@ + src@,
{
    let mut i: usize = 0;
    while i < src.len()
        invariant
            i <= src@.len(),
            dst@ == old(dst)@ + src@.subrange(0, i as int),
        decreases src@.len() - i,
    {
        dst.push(src[i]);
        assert(src@.subrange(0, i + 1) =~= src@.subrange(0, i as int).push(src@[i as int]));
        i = i + 1;
    }
    assert(src@.subrange(0, src@.len() as int) =~= src@);
}

/// The annotations of each line: syntax classes supplied from outside,
/// and the selection.
pub struct Highlighter {
    syntax: HashMap<usize, Vec<Annotation>>,
    selection: SelectHighlighter,
}

impl Highlighter {
    pub closed spec fn syntax_spec(&self) -> Map<usize, Seq<Annotation>> {
        self.syntax@.map_values(|v: Vec<Annotation>| v@)
    }

    pub closed spec fn selection_spec(&self) -> SelectHighlighter {
        self.selection
    }

    /// What `get_annotations` returns for line `idx`: its syntax annotations,
    /// then its selection annotations.
    pub open spec fn annotations_spec(&self, idx: int) -> Seq<Annotation> {
        let syn = if self.syntax_spec().contains_key(idx as usize) {
            self.syntax_spec()[idx as usize]
        } else {
            seq![]
        };
        let sel = if self.selection_spec().cache().contains_key(idx as usize) {
            self.selection_spec().cache()[idx as usize]
        } else {
            seq![]
        };
        syn + sel
    }

    /// `self` is `old` after highlighting line `idx` holding `line`.
    pub open spec fn highlighted(self, old: Highlighter, idx: int, line: Seq<Seq<char>>) -> bool {
        &&& self.syntax_spec() == old.syntax_spec()
        &&& self.selection_spec().range_spec() == old.selection_spec().range_spec()
        &&& self.selection_spec().cache() == old.selection_spec().cache().insert(
            idx as usize,
            match selection_on_line(old.selection_spec().range_spec(), idx, line.len() as int) {
                Some(a) => seq![a],
                None => seq![],
            },
        )
    }

    pub fn new(selected_range: SelectRange) -> (r: Highlighter)
        ensures
            r.syntax_spec() == Map::<usize, Seq<Annotation>>::empty(),
            r.selection_spec().range_spec() == selected_range,
            r.selection_spec().cache() == Map::<usize, Seq<Annotation>>::empty(),
    {
        let r = Highlighter { syntax: HashMap::new(), selection: SelectHighlighter::new(selected_range) };
        assert(r.syntax_spec() =~= Map::<usize, Seq<Annotation>>::empty());
        r
    }

    /// Records the syntax annotations of line `idx`, computed by a tokenizer.
    pub fn set_syntax(&mut self, idx: usize, annotations: Vec<Annotation>)
        ensures
            final(self).syntax_spec() == old(self).syntax_spec().insert(idx, annotations@),
            final(self).selection_spec() == old(self).selection_spec(),
    {
        let ghost av = annotations@;
        self.syntax.insert(idx, annotations);
        assert(final(self).syntax_spec() =~= old(self).syntax_spec().insert(idx, av));
    }

    pub fn highlight(&mut self, idx: usize, line: &Line)
        ensures
            final(self).highlighted(*old(self), idx as int, line@),
    {
        self.selection.highlight(idx, line);
    }

    pub fn get_annotations(&self, idx: usize) -> (r: Vec<Annotation>)
        ensures
            r@ == self.annotations_spec(idx as int),
    {
        let mut r: Vec<Annotation> = Vec::new();
        match self.syntax.get(&idx) {
            Some(v) => extend_annotations(&mut r, v),
            None => {},
        }
        match self.selection.get_annotations(idx) {
            Some(v) => extend_annotations(&mut r, v),
            None => {},
        }
        assert(r@ =~= self.annotations_spec(idx as int));
        r
    }
}

} // verus!
