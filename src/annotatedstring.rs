use vstd::prelude::*;
use vstd::string::StringExecFns;

use crate::annotation::{
    active_types, any_active, boundary, lemma_boundary_bounds, least_limit, limit, merged,
    select_active, Annotation, AnnotationType,
};

verus! {

/// The text of one renderable unit, as grapheme clusters, with the annotations
/// that apply to it (offsets are grapheme indices into `graphemes`).
pub struct AnnotatedString {
    pub graphemes: Vec<String>,
    pub annotations: Vec<Annotation>,
}

impl AnnotatedString {
    pub open spec fn text(&self) -> Seq<Seq<char>> {
        self.graphemes@.map_values(|g: String| g@)
    }

    /// The text cut into parts of constant annotation, in order.
    pub fn parts(self) -> (r: Vec<AnnotatedStringPart>)
        ensures
            part_views(r@) == merged(self.text(), self.annotations@, 0),
    {
        let ghost text = self.text();
        let ghost anns = self.annotations@;
        let mut it = AnnotatedStringIterator::new(self);
        let mut out: Vec<AnnotatedStringPart> = Vec::new();
        assert(part_views(out@) + merged(text, anns, 0) =~= merged(
            text,
            anns,
            0,
        ));
        loop
            invariant
                it.annotated_string.text() == text,
                it.annotated_string.annotations@ == anns,
                text == self.text(),
                anns == self.annotations@,
                part_views(out@) + merged(text, anns, it.current_idx as int)
                    == merged(text, anns, 0),
            decreases text.len() - it.current_idx,
        {
            let ghost c = it.current_idx as int;
            match it.next() {
                None => {
                    assert(merged(text, anns, c) =~= Seq::<
                        (Seq<char>, Seq<AnnotationType>),
                    >::empty());
                    assert(part_views(out@) =~= merged(text, anns, 0));
                    return out;
                },
                Some(part) => {
                    let ghost b = it.current_idx as int;
                    let ghost before = part_views(out@);
                    out.push(part);
                    assert(part_views(out@) =~= before.push(part@));
                    assert(merged(text, anns, c) == seq![part@] + merged(text, anns, b));
                    assert(before.push(part@) + merged(text, anns, b) =~= before + merged(
                        text,
                        anns,
                        c,
                    ));
                },
            }
        }
    }
}

/// One span of an annotated string: its text and the tags active over it.
pub struct AnnotatedStringPart {
    pub string: String,
    pub annotation_types: Vec<AnnotationType>,
}

impl View for AnnotatedStringPart {
    type V = (Seq<char>, Seq<AnnotationType>);

    open spec fn view(&self) -> Self::V {
        (self.string@, self.annotation_types@)
    }
}

/// What a sequence of parts holds, part by part.
pub open spec fn part_views(parts: Seq<AnnotatedStringPart>) -> Seq<(Seq<char>, Seq<AnnotationType>)> {
    parts.map_values(|p: AnnotatedStringPart| p@)
}

/// Walks an annotated string span by span.
pub struct AnnotatedStringIterator {
    pub annotated_string: AnnotatedString,
    pub current_idx: usize,
}

impl AnnotatedStringIterator {
    pub fn new(annotated_string: AnnotatedString) -> (r: Self)
        ensures
            r.annotated_string == annotated_string,
            r.current_idx == 0,
    {
        AnnotatedStringIterator { annotated_string, current_idx: 0 }
    }

    /// The next maximal span from the cursor on, or `None` once the text is
    /// exhausted.
    pub fn next(&mut self) -> (r: Option<AnnotatedStringPart>)
        ensures
            final(self).annotated_string == old(self).annotated_string,
            ({
                let text = old(self).annotated_string.text();
                let anns = old(self).annotated_string.annotations@;
                let c = old(self).current_idx as int;
                if c < text.len() {
                    let b = boundary(anns, text.len() as int, c);
                    &&& final(self).current_idx == b
                    &&& r is Some
                    &&& merged(text, anns, c) == seq![r->0@] + merged(text, anns, b)
                } else {
                    &&& r is None
                    &&& final(self).current_idx == c
                }
            }),
    {
        let n = self.annotated_string.graphemes.len();
        let c = self.current_idx;
        if c >= n {
            return None;
        }
        let ghost text = self.annotated_string.text();
        let ghost anns = self.annotated_string.annotations@;
        let anns_vec = &self.annotated_string.annotations;
        // Which annotations are active here, and their tags.
        let mut sel = false;
        let mut act = false;
        let mut types: Vec<AnnotationType> = Vec::new();
        let mut i: usize = 0;
        while i < anns_vec.len()
            invariant
                anns == anns_vec@,
                i <= anns.len(),
                types@ == active_types(anns.subrange(0, i as int), c as int),
                sel == exists|j: int|
                    0 <= j < i && (#[trigger] anns[j]).covers(c as int) && anns[j].is_select(),
                act == exists|j: int| 0 <= j < i && (#[trigger] anns[j]).covers(c as int),
            decreases anns.len() - i,
        {
            let a = anns_vec[i];
            assert(anns.subrange(0, i + 1).drop_last() =~= anns.subrange(0, i as int));
            if a.start <= c && c < a.end {
                types.push(a.annotation_type);
                act = true;
                if a.annotation_type == AnnotationType::Select {
                    sel = true;
                }
            }
            i = i + 1;
        }
        assert(anns.subrange(0, anns.len() as int) =~= anns);
        assert(sel == select_active(anns, c as int));
        assert(act == any_active(anns, c as int));
        // The nearest offset that ends the span.
        let mut end = n;
        let mut k: usize = 0;
        while k < anns_vec.len()
            invariant
                anns == anns_vec@,
                k <= anns.len(),
                end == least_limit(anns.subrange(0, k as int), c as int, sel, act, n as int),
            decreases anns.len() - k,
        {
            let a = anns_vec[k];
            assert(anns.subrange(0, k + 1).drop_last() =~= anns.subrange(0, k as int));
            if a.start <= c && c < a.end {
                if a.end < end {
                    end = a.end;
                }
            } else if c < a.start && (sel || !act || a.annotation_type == AnnotationType::Select) {
                if a.start < end {
                    end = a.start;
                }
            }
            assert(limit(a, c as int, sel, act) == limit(anns.subrange(0, k + 1).last(), c as int, sel, act));
            k = k + 1;
        }
        proof {
            lemma_boundary_bounds(anns, n as int, c as int);
        }
        // The text of the span.
        let mut s = String::new();
        let mut g: usize = c;
        while g < end
            invariant
                end <= n == self.annotated_string.graphemes.len(),
                text == self.annotated_string.text(),
                c <= g <= end,
                s@ == text.subrange(c as int, g as int).flatten(),
            decreases end - g,
        {
            let piece = self.annotated_string.graphemes[g].as_str();
            proof {
                text.subrange(c as int, g as int).lemma_flatten_push(text[g as int]);
                assert(text.subrange(c as int, g + 1) =~= text.subrange(c as int, g as int).push(
                    text[g as int],
                ));
            }
            s.append(piece);
            g = g + 1;
        }
        self.current_idx = end;
        let part = AnnotatedStringPart { string: s, annotation_types: types };
        proof {
            let b = end as int;
            assert(merged(text, anns, c as int) == seq![
                (text.subrange(c as int, b).flatten(), active_types(anns, c as int)),
            ] + merged(text, anns, b));
        }
        Some(part)
    }
}

} // verus!
