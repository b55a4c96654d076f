use vstd::prelude::*;

verus! {

/// A position in a buffer: a line index and a grapheme index within that line.
#[derive(Clone, Copy, Debug, Default, PartialEq, Eq, Structural)]
pub struct Location {
    pub grapheme_idx: usize,
    pub line_idx: usize,
}

/// The two ends of a selection, in either order.
pub type SelectRange = (Location, Location);

/// `a` comes after `b` in the document.
pub open spec fn is_after(a: Location, b: Location) -> bool {
    a.line_idx > b.line_idx || (a.line_idx == b.line_idx && a.grapheme_idx > b.grapheme_idx)
}

/// The ends of a selection, the earlier one first.
pub open spec fn normalize(range: SelectRange) -> SelectRange {
    if is_after(range.0, range.1) {
        (range.1, range.0)
    } else {
        range
    }
}

/// The ends of `range`, the earlier one first.
pub fn normalized(range: SelectRange) -> (r: SelectRange)
    ensures
        r == normalize(range),
{
    let (a, b) = range;
    if a.line_idx > b.line_idx || (a.line_idx == b.line_idx && a.grapheme_idx > b.grapheme_idx) {
        (b, a)
    } else {
        (a, b)
    }
}

/// A selection has the same ends, earlier one first, whichever way round it
/// was made.
pub proof fn lemma_normalize_symmetric(a: Location, b: Location)
    ensures
        normalize((a, b)) == normalize((b, a)),
{
}

} // verus!
