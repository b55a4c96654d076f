use vstd::prelude::*;
use vstd::seq_lib::lemma_flatten_concat;

verus! {

/// The reason a range of a line is rendered distinctly: the selection, or one
/// of the syntax classes supplied by an outside tokenizer.
#[derive(Clone, Copy, Debug, PartialEq, Eq, Structural)]
pub enum AnnotationType {
    Select,
    Syntax(u32),
}

/// A tagged half-open range `[start, end)` of grapheme indices of one line.
#[derive(Clone, Copy, Debug, PartialEq, Eq, Structural)]
pub struct Annotation {
    pub annotation_type: AnnotationType,
    pub start: usize,
    pub end: usize,
}

impl Annotation {
    pub open spec fn covers(self, c: int) -> bool {
        self.start <= c < self.end
    }

    pub open spec fn is_select(self) -> bool {
        self.annotation_type is Select
    }
}

/// The tags of the annotations that cover offset `c`, in registration order.
pub open spec fn active_types(anns: Seq<Annotation>, c: int) -> Seq<AnnotationType>
    decreases anns.len(),
{
    if anns.len() == 0 {
        seq![]
    } else {
        let rest = active_types(anns.drop_last(), c);
        if anns.last().covers(c) {
            rest.push(anns.last().annotation_type)
        } else {
            rest
        }
    }
}

/// Some annotation covering `c` is a selection.
pub open spec fn select_active(anns: Seq<Annotation>, c: int) -> bool {
    exists|j: int| 0 <= j < anns.len() && (#[trigger] anns[j]).covers(c) && anns[j].is_select()
}

/// Some annotation covers `c`.
pub open spec fn any_active(anns: Seq<Annotation>, c: int) -> bool {
    exists|j: int| 0 <= j < anns.len() && (#[trigger] anns[j]).covers(c)
}

/// The offset past `c` at which annotation `a` ends the span that starts at `c`,
/// if it ends it at all. An active annotation ends it where the annotation ends.
/// Under a selection every later start cuts the span; without a selection only a
/// later selection start does; outside every annotation any later start does.
pub open spec fn limit(a: Annotation, c: int, sel: bool, act: bool) -> Option<int> {
    if a.covers(c) {
        Some(a.end as int)
    } else if c < a.start && (sel || !act || a.is_select()) {
        Some(a.start as int)
    } else {
        None
    }
}

/// The least limit of the annotations in `anns`, or `n` if none is smaller.
pub open spec fn least_limit(anns: Seq<Annotation>, c: int, sel: bool, act: bool, n: int) -> int
    decreases anns.len(),
{
    if anns.len() == 0 {
        n
    } else {
        let rest = least_limit(anns.drop_last(), c, sel, act, n);
        match limit(anns.last(), c, sel, act) {
            Some(x) => if x < rest {
                x
            } else {
                rest
            },
            None => rest,
        }
    }
}

/// Where the span that starts at `c` ends, in a text of `n` graphemes.
pub open spec fn boundary(anns: Seq<Annotation>, n: int, c: int) -> int {
    least_limit(anns, c, select_active(anns, c), any_active(anns, c), n)
}

/// The parts, from offset `c` on, of a text of graphemes under `anns`: each
/// part is the text of a maximal span and the tags active over it.
pub open spec fn merged(text: Seq<Seq<char>>, anns: Seq<Annotation>, c: int) -> Seq<
    (Seq<char>, Seq<AnnotationType>),
>
    decreases text.len() - c,
{
    if 0 <= c < text.len() {
        let b = boundary(anns, text.len() as int, c);
        if c < b <= text.len() {
            seq![(text.subrange(c, b).flatten(), active_types(anns, c))] + merged(text, anns, b)
        } else {
            seq![]
        }
    } else {
        seq![]
    }
}

pub proof fn lemma_least_limit_bounds(anns: Seq<Annotation>, c: int, sel: bool, act: bool, n: int)
    requires
        c < n,
    ensures
        c < least_limit(anns, c, sel, act, n) <= n,
    decreases anns.len(),
{
    if anns.len() > 0 {
        lemma_least_limit_bounds(anns.drop_last(), c, sel, act, n);
    }
}

pub proof fn lemma_boundary_bounds(anns: Seq<Annotation>, n: int, c: int)
    requires
        c < n,
    ensures
        c < boundary(anns, n, c) <= n,
{
    lemma_least_limit_bounds(anns, c, select_active(anns, c), any_active(anns, c), n);
}

proof fn lemma_merged_concat(text: Seq<Seq<char>>, anns: Seq<Annotation>, c: int)
    requires
        0 <= c <= text.len(),
    ensures
        merged(text, anns, c).map_values(|p: (Seq<char>, Seq<AnnotationType>)| p.0).flatten()
            == text.subrange(c, text.len() as int).flatten(),
    decreases text.len() - c,
{
    let m = merged(text, anns, c);
    let f = |p: (Seq<char>, Seq<AnnotationType>)| p.0;
    if c == text.len() {
        assert(m.map_values(f) =~= Seq::<Seq<char>>::empty());
        assert(text.subrange(c, text.len() as int) =~= Seq::<Seq<char>>::empty());
    } else {
        let n = text.len() as int;
        let b = boundary(anns, n, c);
        lemma_boundary_bounds(anns, n, c);
        lemma_merged_concat(text, anns, b);
        let head = seq![(text.subrange(c, b).flatten(), active_types(anns, c))];
        assert(m == head + merged(text, anns, b));
        assert(m.map_values(f) =~= seq![text.subrange(c, b).flatten()] + merged(
            text,
            anns,
            b,
        ).map_values(f));
        lemma_flatten_concat(seq![text.subrange(c, b).flatten()], merged(text, anns, b).map_values(f));
        seq![text.subrange(c, b).flatten()].lemma_flatten_one_element();
        assert(text.subrange(c, n) =~= text.subrange(c, b) + text.subrange(b, n));
        lemma_flatten_concat(text.subrange(c, b), text.subrange(b, n));
    }
}

/// Merging never loses or repeats text: the parts, concatenated, are the
/// whole text, whatever the annotations.
pub proof fn lemma_parts_reassemble(text: Seq<Seq<char>>, anns: Seq<Annotation>)
    ensures
        merged(text, anns, 0).map_values(|p: (Seq<char>, Seq<AnnotationType>)| p.0).flatten()
            == text.flatten(),
{
    lemma_merged_concat(text, anns, 0);
    assert(text.subrange(0, text.len() as int) =~= text);
}

/// Without annotations a non-empty text is a single part with no tags.
pub proof fn lemma_no_annotations_one_part(text: Seq<Seq<char>>)
    requires
        text.len() > 0,
    ensures
        merged(text, seq![], 0) == seq![(text.flatten(), Seq::<AnnotationType>::empty())],
{
    let anns = Seq::<Annotation>::empty();
    let n = text.len() as int;
    assert(boundary(anns, n, 0) == n);
    assert(text.subrange(0, n) =~= text);
    assert(merged(text, anns, n) == Seq::<(Seq<char>, Seq<AnnotationType>)>::empty());
    assert(active_types(anns, 0) == Seq::<AnnotationType>::empty());
    assert(merged(text, anns, 0) =~= seq![(text.flatten(), Seq::<AnnotationType>::empty())]);
}

} // verus!
