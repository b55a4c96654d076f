use vstd::prelude::*;
use vstd::string::{StrSliceExecFns, StringExecFns};

use crate::annotatedstring::AnnotatedString;
use crate::annotation::Annotation;
use crate::unicode::{char_string, display_width, grapheme_split, split_graphemes, str_width, views};

verus! {

/// Columns a cluster takes on screen: narrow clusters one, wide ones two.
pub open spec fn cluster_width(g: Seq<char>) -> nat {
    if display_width(g) <= 1 {
        1
    } else {
        2
    }
}

/// Columns a cluster of display width `w` takes: one if it is narrow (or of
/// no width), two if it is wide.
pub fn columns_for_width(w: usize) -> (r: usize)
    ensures
        r == if w <= 1 {
            1usize
        } else {
            2usize
        },
{
    if w <= 1 {
        1
    } else {
        2
    }
}

/// Columns taken by the first `n` clusters of a line.
pub open spec fn columns(line: Seq<Seq<char>>, n: int) -> nat
    decreases n,
{
    if n <= 0 {
        0
    } else {
        columns(line, n - 1) + cluster_width(line[n - 1])
    }
}

/// Index, in characters, where cluster `g` of a line starts.
pub open spec fn char_offset(line: Seq<Seq<char>>, g: int) -> int {
    line.subrange(0, g).flatten().len() as int
}

/// The text of the line read from cluster `g` on starts with `q`.
pub open spec fn matches_at(line: Seq<Seq<char>>, q: Seq<char>, g: int) -> bool {
    let t = line.flatten();
    let o = char_offset(line, g);
    o + q.len() <= t.len() && t.subrange(o, o + q.len()) == q
}

/// A match at cluster `g` that ends no later than where cluster `lim` starts.
pub open spec fn matches_before(line: Seq<Seq<char>>, q: Seq<char>, g: int, lim: int) -> bool {
    matches_at(line, q, g) && char_offset(line, g) + q.len() <= char_offset(line, lim)
}

pub open spec fn min(a: int, b: int) -> int {
    if a <= b {
        a
    } else {
        b
    }
}

/// The clusters of `[start, end)` clamped to a line of `len` clusters.
pub open spec fn clamp_range(start: int, end: int, len: int) -> (int, int) {
    let e = min(end, len);
    (min(start, e), e)
}

/// Annotations re-expressed relative to the window `[s, e)`: each one that
/// meets the window is cut to it and shifted by `s`, the others are dropped.
pub open spec fn window_annotations(anns: Seq<Annotation>, s: int, e: int) -> Seq<Annotation>
    decreases anns.len(),
{
    if anns.len() == 0 {
        seq![]
    } else {
        let rest = window_annotations(anns.drop_last(), s, e);
        let a = anns.last();
        if a.start < e && s < a.end && a.start < a.end {
            let lo = if a.start < s {
                s
            } else {
                a.start as int
            };
            let hi = if a.end > e {
                e
            } else {
                a.end as int
            };
            rest.push(
                Annotation {
                    annotation_type: a.annotation_type,
                    start: (lo - s) as usize,
                    end: (hi - s) as usize,
                },
            )
        } else {
            rest
        }
    }
}

proof fn lemma_prefix_flatten(line: Seq<Seq<char>>, g: int)
    requires
        0 <= g < line.len(),
    ensures
        line.subrange(0, g + 1).flatten() == line.subrange(0, g).flatten() + line[g],
{
    line.subrange(0, g).lemma_flatten_push(line[g]);
    assert(line.subrange(0, g + 1) =~= line.subrange(0, g).push(line[g]));
}

/// One line of text, held as its grapheme clusters.
pub struct Line {
    fragments: Vec<String>,
}

impl View for Line {
    type V = Seq<Seq<char>>;

    closed spec fn view(&self) -> Seq<Seq<char>> {
        views(self.fragments@)
    }
}

impl Line {
    pub fn new() -> (r: Line)
        ensures
            r@ == Seq::<Seq<char>>::empty(),
    {
        let r = Line { fragments: Vec::new() };
        assert(r@ =~= Seq::<Seq<char>>::empty());
        r
    }

    /// The line holding the grapheme clusters of `s`.
    pub fn from_str(s: &str) -> (r: Line)
        ensures
            r@ == grapheme_split(s@),
            r@.flatten() == s@,
    {
        Line { fragments: split_graphemes(s) }
    }

    pub fn grapheme_count(&self) -> (r: usize)
        ensures
            r == self@.len(),
    {
        self.fragments.len()
    }

    /// The whole text of the line.
    pub fn text(&self) -> (r: String)
        ensures
            r@ == self@.flatten(),
    {
        let n = self.fragments.len();
        assert(self@.subrange(0, n as int) =~= self@);
        self.get_grapheme_range(0, n)
    }

    /// Columns taken by the first `until` clusters (all of them if the line is
    /// shorter), saturating at `usize::MAX`.
    pub fn width_until(&self, until: usize) -> (r: usize)
        ensures
            r == min(columns(self@, min(until as int, self@.len() as int)) as int, usize::MAX as int),
    {
        let n = if until < self.fragments.len() {
            until
        } else {
            self.fragments.len()
        };
        let mut w: usize = 0;
        let mut i: usize = 0;
        while i < n
            invariant
                n <= self.fragments.len(),
                n == min(until as int, self@.len() as int),
                i <= n,
                w == min(columns(self@, i as int) as int, usize::MAX as int),
            decreases n - i,
        {
            let cw = columns_for_width(str_width(self.fragments[i].as_str()));
            assert(self@[i as int] == self.fragments@[i as int]@);
            w = w.saturating_add(cw);
            i = i + 1;
        }
        w
    }

    /// Inserts `c` as a cluster of its own at index `at`, or at the end of the
    /// line if `at` is past it.
    pub fn insert_char(&mut self, c: char, at: usize)
        ensures
            final(self)@ == old(self)@.insert(min(at as int, old(self)@.len() as int), seq![c]),
    {
        let s = char_string(c);
        let at = if at < self.fragments.len() {
            at
        } else {
            self.fragments.len()
        };
        self.fragments.insert(at, s);
        assert(final(self)@ =~= old(self)@.insert(at as int, seq![c]));
    }

    /// Removes the cluster at `at`; does nothing if there is none.
    pub fn delete(&mut self, at: usize)
        ensures
            at < old(self)@.len() ==> final(self)@ == old(self)@.remove(at as int),
            at >= old(self)@.len() ==> final(self)@ == old(self)@,
    {
        if at < self.fragments.len() {
            self.fragments.remove(at);
            assert(final(self)@ =~= old(self)@.remove(at as int));
        }
    }

    /// Keeps the clusters before `at` and returns the rest as a new line.
    pub fn split(&mut self, at: usize) -> (r: Line)
        ensures
            ({
                let k = min(at as int, old(self)@.len() as int);
                &&& final(self)@ == old(self)@.subrange(0, k)
                &&& r@ == old(self)@.subrange(k, old(self)@.len() as int)
            }),
    {
        let at = if at < self.fragments.len() {
            at
        } else {
            self.fragments.len()
        };
        let rest = self.fragments.split_off(at);
        let r = Line { fragments: rest };
        assert(final(self)@ =~= old(self)@.subrange(0, at as int));
        assert(r@ =~= old(self)@.subrange(at as int, old(self)@.len() as int));
        r
    }

    /// Adds cluster `g` at the end.
    pub(crate) fn push_grapheme(&mut self, g: String)
        ensures
            final(self)@ == old(self)@.push(g@),
    {
        self.fragments.push(g);
        assert(self@ =~= old(self)@.push(g@));
    }

    /// Adds the clusters of `other` at the end.
    pub fn append(&mut self, other: &Line)
        ensures
            final(self)@ == old(self)@ + other@,
    {
        let mut i: usize = 0;
        while i < other.fragments.len()
            invariant
                i <= other@.len(),
                self@ == old(self)@ + other@.subrange(0, i as int),
            decreases other@.len() - i,
        {
            let ghost before = self@;
            let g = other.fragments[i].clone();
            self.fragments.push(g);
            assert(self@ =~= before.push(other@[i as int]));
            assert(other@.subrange(0, i + 1) =~= other@.subrange(0, i as int).push(other@[i as int]));
            i = i + 1;
        }
        assert(other@.subrange(0, other@.len() as int) =~= other@);
    }

    /// The cluster at `at`, if there is one.
    pub fn get_a_grapheme(&self, at: usize) -> (r: Option<String>)
        ensures
            at < self@.len() ==> r is Some && r->0@ == self@[at as int],
            at >= self@.len() ==> r is None,
    {
        if at < self.fragments.len() {
            Some(self.fragments[at].clone())
        } else {
            None
        }
    }

    /// The text of clusters `[start, end)`, clamped to the line.
    pub fn get_grapheme_range(&self, start: usize, end: usize) -> (r: String)
        ensures
            ({
                let (s, e) = clamp_range(start as int, end as int, self@.len() as int);
                r@ == self@.subrange(s, e).flatten()
            }),
    {
        let e = if end < self.fragments.len() {
            end
        } else {
            self.fragments.len()
        };
        let s = if start < e {
            start
        } else {
            e
        };
        let mut out = String::new();
        let mut g: usize = s;
        while g < e
            invariant
                e <= self@.len(),
                s <= g <= e,
                out@ == self@.subrange(s as int, g as int).flatten(),
            decreases e - g,
        {
            proof {
                self@.subrange(s as int, g as int).lemma_flatten_push(self@[g as int]);
                assert(self@.subrange(s as int, g + 1) =~= self@.subrange(s as int, g as int).push(
                    self@[g as int],
                ));
            }
            out.append(self.fragments[g].as_str());
            g = g + 1;
        }
        assert(self@.subrange(s as int, e as int).flatten() == out@);
        out
    }

    /// The text of the line and, for each cluster index up to the count, the
    /// character index where it starts.
    fn char_layout(&self) -> (r: (String, Vec<usize>))
        ensures
            r.0@ == self@.flatten(),
            r.1@.len() == self@.len() + 1,
            forall|g: int| 0 <= g <= self@.len() ==> r.1@[g] == char_offset(self@, g),
    {
        let n = self.fragments.len();
        let mut text = String::new();
        let mut offsets: Vec<usize> = Vec::new();
        offsets.push(0);
        let mut g: usize = 0;
        assert(self@.subrange(0, 0) =~= Seq::<Seq<char>>::empty());
        while g < n
            invariant
                n == self@.len(),
                g <= n,
                text@ == self@.subrange(0, g as int).flatten(),
                offsets@.len() == g + 1,
                forall|h: int| 0 <= h <= g ==> offsets@[h] == char_offset(self@, h),
            decreases n - g,
        {
            let piece = self.fragments[g].as_str();
            proof {
                lemma_prefix_flatten(self@, g as int);
            }
            text.append(piece);
            offsets.push(text.as_str().unicode_len());
            g = g + 1;
        }
        assert(self@.subrange(0, n as int) =~= self@);
        (text, offsets)
    }

    /// Whether `q` occurs in `text` at character index `o`.
    fn occurs_at(text: &str, q: &str, o: usize) -> (r: bool)
        ensures
            r == (o + q@.len() <= text@.len() && text@.subrange(o as int, o + q@.len()) == q@),
    {
        let tl = text.unicode_len();
        let ql = q.unicode_len();
        if o > tl || ql > tl - o {
            return false;
        }
        let mut k: usize = 0;
        while k < ql
            invariant
                ql == q@.len(),
                tl == text@.len(),
                o + ql <= tl,
                k <= ql,
                forall|j: int| 0 <= j < k ==> text@[o + j] == q@[j],
            decreases ql - k,
        {
            if text.get_char(o + k) != q.get_char(k) {
                assert(text@.subrange(o as int, o + q@.len())[k as int] != q@[k as int]);
                return false;
            }
            k = k + 1;
        }
        assert(text@.subrange(o as int, o + q@.len()) =~= q@);
        true
    }

    /// The first cluster index at or after `from` where `query` starts.
    pub fn search_forward(&self, query: &str, from: usize) -> (r: Option<usize>)
        ensures
            match r {
                Some(g) => from <= g < self@.len() && matches_at(self@, query@, g as int) && forall|
                    h: int,
                | from <= h < g ==> !matches_at(self@, query@, h),
                None => forall|h: int|
                    from <= h < self@.len() ==> !matches_at(self@, query@, h),
            },
    {
        let (text, offsets) = self.char_layout();
        let n = self.fragments.len();
        let mut g: usize = from;
        while g < n
            invariant
                n == self@.len(),
                text@ == self@.flatten(),
                offsets@.len() == n + 1,
                forall|h: int| 0 <= h <= n ==> offsets@[h] == char_offset(self@, h),
                from <= g,
                forall|h: int| from <= h < g ==> !matches_at(self@, query@, h),
            decreases n - g,
        {
            assert(offsets@[g as int] == char_offset(self@, g as int));
            if Self::occurs_at(text.as_str(), query, offsets[g]) {
                return Some(g);
            }
            g = g + 1;
        }
        None
    }

    /// The last cluster index where `query` starts and ends no later than
    /// cluster `from` (the end of the line if `from` is past it).
    pub fn search_backward(&self, query: &str, from: usize) -> (r: Option<usize>)
        ensures
            ({
                let lim = min(from as int, self@.len() as int);
                match r {
                    Some(g) => g < self@.len() && matches_before(self@, query@, g as int, lim)
                        && forall|h: int|
                        g < h < self@.len() ==> !matches_before(self@, query@, h, lim),
                    None => forall|h: int|
                        0 <= h < self@.len() ==> !matches_before(self@, query@, h, lim),
                }
            }),
    {
        let (text, offsets) = self.char_layout();
        let n = self.fragments.len();
        let lim = if from < n {
            from
        } else {
            n
        };
        let limit_offset = offsets[lim];
        let ql = query.unicode_len();
        let mut found: Option<usize> = None;
        let mut g: usize = 0;
        while g < n
            invariant
                n == self@.len(),
                text@ == self@.flatten(),
                offsets@.len() == n + 1,
                forall|h: int| 0 <= h <= n ==> offsets@[h] == char_offset(self@, h),
                limit_offset == char_offset(self@, lim as int),
                lim == min(from as int, n as int),
                ql == query@.len(),
                g <= n,
                match found {
                    Some(f) => f < g && matches_before(self@, query@, f as int, lim as int)
                        && forall|h: int| f < h < g ==> !matches_before(self@, query@, h, lim as int),
                    None => forall|h: int| 0 <= h < g ==> !matches_before(self@, query@, h, lim as int),
                },
            decreases n - g,
        {
            let o = offsets[g];
            if o <= limit_offset && ql <= limit_offset - o && Self::occurs_at(text.as_str(), query, o) {
                found = Some(g);
            }
            g = g + 1;
        }
        found
    }

    /// The clusters `[range.start, range.end)` (clamped to the line) with the
    /// annotations that meet them, re-expressed relative to the window.
    pub fn get_annotated_visible_substr(&self, range: std::ops::Range<usize>, annotations: &Vec<Annotation>) -> (r: AnnotatedString)
        ensures
            ({
                let (s, e) = clamp_range(range.start as int, range.end as int, self@.len() as int);
                &&& r.text() == self@.subrange(s, e)
                &&& r.annotations@ == window_annotations(annotations@, s, e)
            }),
    {
        let e = if range.end < self.fragments.len() {
            range.end
        } else {
            self.fragments.len()
        };
        let s = if range.start < e {
            range.start
        } else {
            e
        };
        let mut graphemes: Vec<String> = Vec::new();
        let mut g: usize = s;
        while g < e
            invariant
                e <= self@.len(),
                s <= g <= e,
                views(graphemes@) == self@.subrange(s as int, g as int),
            decreases e - g,
        {
            let ghost before = graphemes@;
            graphemes.push(self.fragments[g].clone());
            assert(views(graphemes@) =~= views(before).push(self@[g as int]));
            assert(self@.subrange(s as int, g + 1) =~= self@.subrange(s as int, g as int).push(
                self@[g as int],
            ));
            g = g + 1;
        }
        let mut anns: Vec<Annotation> = Vec::new();
        let mut i: usize = 0;
        while i < annotations.len()
            invariant
                s <= e,
                i <= annotations@.len(),
                anns@ == window_annotations(annotations@.subrange(0, i as int), s as int, e as int),
            decreases annotations@.len() - i,
        {
            let a = annotations[i];
            assert(annotations@.subrange(0, i + 1).drop_last() =~= annotations@.subrange(0, i as int));
            if a.start < e && s < a.end && a.start < a.end {
                let lo = if a.start < s {
                    s
                } else {
                    a.start
                };
                let hi = if a.end > e {
                    e
                } else {
                    a.end
                };
                anns.push(Annotation { annotation_type: a.annotation_type, start: lo - s, end: hi - s });
            }
            i = i + 1;
        }
        assert(annotations@.subrange(0, annotations@.len() as int) =~= annotations@);
        AnnotatedString { graphemes, annotations: anns }
    }
}

} // verus!
