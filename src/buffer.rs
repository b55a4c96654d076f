use vstd::prelude::*;
use vstd::seq_lib::lemma_flatten_concat;
use vstd::string::StringExecFns;

use crate::annotatedstring::AnnotatedString;
use crate::highlighter::Highlighter;
use crate::line::{clamp_range, matches_at, matches_before, min, window_annotations, Line};
use crate::location::{normalize, Location, SelectRange};
use crate::unicode::{grapheme_split, split_graphemes, views};
use vstd::string::StrSliceExecFns;

verus! {

/// The content of a buffer: its lines, each a sequence of grapheme clusters.
pub type Text = Seq<Seq<Seq<char>>>;

pub open spec fn line_views(v: Seq<Line>) -> Text {
    v.map_values(|l: Line| l@)
}

/// Where a buffer was loaded from or saved to, if anywhere.
#[derive(Debug)]
pub struct FileInfo {
    pub path: Option<String>,
}

impl FileInfo {
    pub fn from(file_name: &str) -> (r: FileInfo)
        ensures
            r.path is Some && r.path->0@ == file_name@,
    {
        FileInfo { path: Some(String::from_str(file_name)) }
    }

    pub fn has_path(&self) -> (r: bool)
        ensures
            r == self.path is Some,
    {
        self.path.is_some()
    }
}

/// The text of clusters `[a, z)` of a line, clamped to it.
pub open spec fn segment(line: Seq<Seq<char>>, a: int, z: int) -> Seq<char> {
    let (x, y) = clamp_range(a, z, line.len() as int);
    line.subrange(x, y).flatten()
}

/// The content after deleting the unit at `at`: the cluster there, or the
/// line break at the end of the line (joining the next line to it).
pub open spec fn deleted(b: Text, at: Location) -> Text {
    if at.line_idx < b.len() {
        let line = b[at.line_idx as int];
        if at.grapheme_idx >= line.len() && at.line_idx + 1 < b.len() {
            b.update(at.line_idx as int, line + b[at.line_idx + 1]).remove(at.line_idx + 1)
        } else if at.grapheme_idx < line.len() {
            b.update(at.line_idx as int, line.remove(at.grapheme_idx as int))
        } else {
            b
        }
    } else {
        b
    }
}

/// Deleting at `at` changes the content.
pub open spec fn deletes_something(b: Text, at: Location) -> bool {
    at.line_idx < b.len() && (at.grapheme_idx < b[at.line_idx as int].len() || at.line_idx + 1
        < b.len())
}

/// The content after `k` deletions at `at`.
pub open spec fn deleted_times(b: Text, at: Location, k: nat) -> Text
    decreases k,
{
    if k == 0 {
        b
    } else {
        deleted_times(deleted(b, at), at, (k - 1) as nat)
    }
}

/// Some of `k` deletions at `at` changes the content.
pub open spec fn some_deletion(b: Text, at: Location, k: nat) -> bool
    decreases k,
{
    if k == 0 {
        false
    } else {
        deletes_something(b, at) || some_deletion(deleted(b, at), at, (k - 1) as nat)
    }
}

pub open spec fn line_len(b: Text, l: int) -> int {
    if 0 <= l < b.len() {
        b[l].len() as int
    } else {
        0
    }
}

/// Clusters in lines `[from, to)` (lines past the end count none).
pub open spec fn clusters_between(b: Text, from: int, to: int) -> int
    decreases to - from,
{
    if to <= from {
        0
    } else {
        clusters_between(b, from, to - 1) + line_len(b, to - 1)
    }
}

/// Units to delete from `s` to `e` (with `s` before `e`): the clusters
/// covered plus one per line break crossed.
pub open spec fn deletion_count(b: Text, s: Location, e: Location) -> int {
    if s.line_idx == e.line_idx {
        if e.grapheme_idx > s.grapheme_idx {
            e.grapheme_idx - s.grapheme_idx
        } else {
            0
        }
    } else {
        let first = line_len(b, s.line_idx as int) - s.grapheme_idx;
        (if first > 0 {
            first
        } else {
            0
        }) + clusters_between(b, s.line_idx + 1, e.line_idx as int) + e.grapheme_idx + (
        e.line_idx - s.line_idx)
    }
}

/// What deleting a range leaves: the deletions at its start, as many as its
/// units (counted up to `usize::MAX`).
pub open spec fn range_deleted(b: Text, range: SelectRange) -> Text {
    let (s, e) = normalize(range);
    deleted_times(b, s, min(deletion_count(b, s, e), usize::MAX as int) as nat)
}

pub open spec fn range_deletes_something(b: Text, range: SelectRange) -> bool {
    let (s, e) = normalize(range);
    some_deletion(b, s, min(deletion_count(b, s, e), usize::MAX as int) as nat)
}

/// The text of whole lines `[from, to)`, each followed by a line break.
pub open spec fn lines_text(b: Text, from: int, to: int) -> Seq<char>
    decreases to - from,
{
    if to <= from {
        seq![]
    } else {
        lines_text(b, from, to - 1) + if 0 <= to - 1 < b.len() {
            b[to - 1].flatten().push('\n')
        } else {
            seq![]
        }
    }
}

/// The text between `s` and `e` (with `s` before `e`), a line break standing
/// for each line boundary crossed.
pub open spec fn range_text(b: Text, s: Location, e: Location) -> Seq<char> {
    if s.line_idx == e.line_idx {
        if s.line_idx < b.len() {
            segment(b[s.line_idx as int], s.grapheme_idx as int, e.grapheme_idx as int)
        } else {
            seq![]
        }
    } else {
        let first = if s.line_idx < b.len() {
            let l = b[s.line_idx as int];
            segment(l, s.grapheme_idx as int, l.len() as int)
        } else {
            seq![]
        };
        let last = if e.line_idx < b.len() {
            segment(b[e.line_idx as int], 0, e.grapheme_idx as int)
        } else {
            seq![]
        };
        first.push('\n') + lines_text(b, s.line_idx + 1, e.line_idx as int) + last
    }
}

/// Line visited `k`-th by a forward ring search from line `from` over `n`
/// lines: `from` (wrapped), then the following ones, wrapping to the first.
pub open spec fn ring_forward(from: int, n: int, k: int) -> int {
    let s = from % n;
    if k < n - s {
        s + k
    } else {
        k - (n - s)
    }
}

/// Line visited `k`-th by a backward ring search from line `from` over `n`
/// lines: `from` (the last line if past it), then the preceding ones,
/// wrapping to the last.
pub open spec fn ring_backward(from: int, n: int, k: int) -> int {
    let s = min(from, n - 1);
    if k <= s {
        s - k
    } else {
        s + n - k
    }
}

/// `r` is the outcome of a forward search of `line` from cluster `from`.
pub open spec fn first_forward(line: Seq<Seq<char>>, q: Seq<char>, from: int, r: Option<int>) -> bool {
    match r {
        Some(g) => from <= g < line.len() && matches_at(line, q, g) && forall|h: int|
            from <= h < g ==> !matches_at(line, q, h),
        None => forall|h: int| from <= h < line.len() ==> !matches_at(line, q, h),
    }
}

/// `r` is the outcome of a backward search of `line` from cluster `from`.
pub open spec fn first_backward(line: Seq<Seq<char>>, q: Seq<char>, from: int, r: Option<int>) -> bool {
    let lim = min(from, line.len() as int);
    match r {
        Some(g) => 0 <= g < line.len() && matches_before(line, q, g, lim) && forall|h: int|
            g < h < line.len() ==> !matches_before(line, q, h, lim),
        None => forall|h: int| 0 <= h < line.len() ==> !matches_before(line, q, h, lim),
    }
}

/// The `k`-th visit of a forward ring search gives `r`: the origin line is
/// searched from the origin first and from its start at the last visit.
pub open spec fn forward_visit(b: Text, q: Seq<char>, from: Location, k: int, r: Option<int>) -> bool {
    let l = ring_forward(from.line_idx as int, b.len() as int, k);
    first_forward(b[l], q, if k == 0 { from.grapheme_idx as int } else { 0 }, r)
}

/// The `k`-th visit of a backward ring search gives `r`: the origin line is
/// searched back from the origin first and from its end at the last visit.
pub open spec fn backward_visit(b: Text, q: Seq<char>, from: Location, k: int, r: Option<int>) -> bool {
    let l = ring_backward(from.line_idx as int, b.len() as int, k);
    first_backward(b[l], q, if k == 0 { from.grapheme_idx as int } else { b[l].len() as int }, r)
}

/// A cluster that ends a line.
pub open spec fn is_break(g: Seq<char>) -> bool {
    g == seq!['\n'] || g == seq!['\r', '\n']
}

/// The lines finished so far while reading clusters `gs`, and the line in
/// progress.
pub open spec fn split_state(gs: Seq<Seq<char>>) -> (Text, Seq<Seq<char>>)
    decreases gs.len(),
{
    if gs.len() == 0 {
        (seq![], seq![])
    } else {
        let (done, cur) = split_state(gs.drop_last());
        if is_break(gs.last()) {
            (done.push(cur), seq![])
        } else {
            (done, cur.push(gs.last()))
        }
    }
}

/// The lines of a text given as clusters: a line ends at each break, and a
/// last line without a break counts only if it is not empty.
pub open spec fn split_lines(gs: Seq<Seq<char>>) -> Text {
    let (done, cur) = split_state(gs);
    if cur.len() > 0 {
        done.push(cur)
    } else {
        done
    }
}

/// The clusters that saving writes: each line followed by a line break.
pub open spec fn joined(b: Text) -> Seq<Seq<char>>
    decreases b.len(),
{
    if b.len() == 0 {
        seq![]
    } else {
        joined(b.drop_last()) + b.last().push(seq!['\n'])
    }
}

proof fn lemma_split_state_extend(gs: Seq<Seq<char>>, xs: Seq<Seq<char>>)
    requires
        forall|i: int| 0 <= i < xs.len() ==> !is_break(#[trigger] xs[i]),
    ensures
        split_state(gs + xs) == (split_state(gs).0, split_state(gs).1 + xs),
    decreases xs.len(),
{
    if xs.len() == 0 {
        assert(gs + xs =~= gs);
        assert(split_state(gs).1 + xs =~= split_state(gs).1);
    } else {
        let ys = xs.drop_last();
        assert forall|i: int| 0 <= i < ys.len() implies !is_break(#[trigger] ys[i]) by {
            assert(ys[i] == xs[i]);
        }
        lemma_split_state_extend(gs, ys);
        assert((gs + xs).drop_last() =~= gs + ys);
        assert((gs + xs).last() == xs[xs.len() - 1]);
        assert(split_state(gs).1 + ys.push(xs.last()) =~= split_state(gs).1 + xs);
        assert((split_state(gs).1 + ys).push(xs.last()) =~= split_state(gs).1 + xs);
    }
}

proof fn lemma_split_joined(b: Text)
    requires
        forall|l: int, i: int| 0 <= l < b.len() && 0 <= i < b[l].len() ==> !is_break(#[trigger] b[l][i]),
    ensures
        split_state(joined(b)) == (b, Seq::<Seq<char>>::empty()),
    decreases b.len(),
{
    if b.len() == 0 {
        assert(split_state(joined(b)).0 =~= b);
    } else {
        let p = b.drop_last();
        let l = b.last();
        assert forall|k: int, i: int| 0 <= k < p.len() && 0 <= i < p[k].len() implies !is_break(
            #[trigger] p[k][i],
        ) by {
            assert(p[k] == b[k]);
        }
        lemma_split_joined(p);
        assert forall|i: int| 0 <= i < l.len() implies !is_break(#[trigger] l[i]) by {
            assert(l == b[b.len() - 1]);
        }
        lemma_split_state_extend(joined(p), l);
        let gs = joined(p) + l;
        assert(joined(b) =~= gs.push(seq!['\n']));
        assert(gs.push(seq!['\n']).drop_last() =~= gs);
        assert(Seq::<Seq<char>>::empty() + l =~= l);
        assert(p.push(l) =~= b);
    }
}

/// Splitting into lines the clusters that saving writes gives back the same
/// lines, provided no line holds a line-break cluster.
pub proof fn lemma_save_then_load(b: Text)
    requires
        forall|l: int, i: int| 0 <= l < b.len() && 0 <= i < b[l].len() ==> !is_break(#[trigger] b[l][i]),
    ensures
        split_lines(joined(b)) == b,
{
    lemma_split_joined(b);
}

/// Deleting a selection gives the same content whichever way round the
/// selection was made.
pub proof fn lemma_delete_range_direction(b: Text, x: Location, y: Location)
    ensures
        range_deleted(b, (x, y)) == range_deleted(b, (y, x)),
        range_deletes_something(b, (x, y)) == range_deletes_something(b, (y, x)),
{
    crate::location::lemma_normalize_symmetric(x, y);
}

/// Whether cluster `g` ends a line.
fn is_line_break(g: &str) -> (r: bool)
    ensures
        r == is_break(g@),
{
    let n = g.unicode_len();
    if n == 1 {
        let r = g.get_char(0) == '\n';
        if r {
            assert(g@ =~= seq!['\n']);
        }
        r
    } else if n == 2 {
        let r = g.get_char(0) == '\r' && g.get_char(1) == '\n';
        if r {
            assert(g@ =~= seq!['\r', '\n']);
        }
        r
    } else {
        false
    }
}

/// Errors of bookkeeping a save.
#[derive(Clone, Copy, Debug, PartialEq, Eq, Structural)]
pub enum SaveError {
    /// The buffer has no file to be saved to.
    NoFilePath,
}

/// A document: its lines, where it lives on disk, and whether it holds
/// changes not yet saved.
pub struct Buffer {
    lines: Vec<Line>,
    file_info: FileInfo,
    dirty: bool,
}

impl View for Buffer {
    type V = Text;

    closed spec fn view(&self) -> Text {
        line_views(self.lines@)
    }
}

impl Buffer {
    pub closed spec fn dirty_spec(&self) -> bool {
        self.dirty
    }

    pub closed spec fn file_spec(&self) -> FileInfo {
        self.file_info
    }

    pub fn new() -> (r: Buffer)
        ensures
            r@ == Seq::<Seq<Seq<char>>>::empty(),
            !r.dirty_spec(),
            r.file_spec().path is None,
    {
        let r = Buffer { lines: Vec::new(), file_info: FileInfo { path: None }, dirty: false };
        assert(r@ =~= Seq::<Seq<Seq<char>>>::empty());
        r
    }

    /// The document read from `contents`, split into lines at line breaks,
    /// belonging to file `file_name`.
    pub fn from_text(contents: &str, file_name: &str) -> (r: Buffer)
        ensures
            r@ == split_lines(grapheme_split(contents@)),
            !r.dirty_spec(),
            r.file_spec().path is Some && r.file_spec().path->0@ == file_name@,
    {
        let gs = split_graphemes(contents);
        Self::from_graphemes(&gs, file_name)
    }

    /// The document whose text is the clusters `gs`, split into lines at line
    /// breaks, belonging to file `file_name`.
    pub fn from_graphemes(gs: &Vec<String>, file_name: &str) -> (r: Buffer)
        ensures
            r@ == split_lines(views(gs@)),
            !r.dirty_spec(),
            r.file_spec().path is Some && r.file_spec().path->0@ == file_name@,
    {
        let ghost g = views(gs@);
        let mut lines: Vec<Line> = Vec::new();
        let mut cur = Line::new();
        let mut i: usize = 0;
        assert(g.subrange(0, 0) =~= Seq::<Seq<char>>::empty());
        assert(line_views(lines@) =~= Seq::<Seq<Seq<char>>>::empty());
        while i < gs.len()
            invariant
                g == views(gs@),
                i <= gs@.len(),
                (line_views(lines@), cur@) == split_state(g.subrange(0, i as int)),
            decreases gs@.len() - i,
        {
            assert(g.subrange(0, i + 1).drop_last() =~= g.subrange(0, i as int));
            assert(g.subrange(0, i + 1).last() == gs@[i as int]@);
            if is_line_break(gs[i].as_str()) {
                let ghost before = lines@;
                let ghost done = cur@;
                lines.push(cur);
                cur = Line::new();
                assert(line_views(lines@) =~= line_views(before).push(done));
            } else {
                cur.push_grapheme(gs[i].clone());
            }
            i = i + 1;
        }
        assert(g.subrange(0, gs@.len() as int) =~= g);
        if cur.grapheme_count() > 0 {
            let ghost before = lines@;
            lines.push(cur);
            assert(line_views(lines@) =~= line_views(before).push(cur@));
        }
        Buffer { lines, file_info: FileInfo::from(file_name), dirty: false }
    }

    /// What saving writes: every line followed by a line break.
    pub fn contents(&self) -> (r: String)
        ensures
            r@ == joined(self@).flatten(),
    {
        let mut out = String::new();
        let mut i: usize = 0;
        assert(self@.subrange(0, 0) =~= Seq::<Seq<Seq<char>>>::empty());
        while i < self.lines.len()
            invariant
                i <= self@.len(),
                out@ == joined(self@.subrange(0, i as int)).flatten(),
            decreases self@.len() - i,
        {
            let ghost p = self@.subrange(0, i as int);
            let ghost l = self@[i as int];
            assert(self@.subrange(0, i + 1).drop_last() =~= p);
            assert(self.lines@[i as int]@ == l);
            let t = self.lines[i].text();
            out.append(t.as_str());
            proof {
                reveal_strlit("\n");
                lemma_flatten_concat(joined(p), l.push(seq!['\n']));
                l.lemma_flatten_push(seq!['\n']);
            }
            out.append("\n");
            assert(out@ =~= joined(self@.subrange(0, i + 1)).flatten());
            i = i + 1;
        }
        assert(self@.subrange(0, self@.len() as int) =~= self@);
        out
    }

    /// Records that the content was written to `file_name`, which becomes the
    /// buffer's file.
    pub fn save_as(&mut self, file_name: &str)
        ensures
            final(self)@ == old(self)@,
            !final(self).dirty_spec(),
            final(self).file_spec().path is Some && final(self).file_spec().path->0@ == file_name@,
    {
        self.file_info = FileInfo::from(file_name);
        self.dirty = false;
    }

    /// Records that the content was written to the buffer's file; fails,
    /// changing nothing, if the buffer has no file.
    pub fn save(&mut self) -> (r: Result<(), SaveError>)
        ensures
            final(self)@ == old(self)@,
            final(self).file_spec() == old(self).file_spec(),
            old(self).file_spec().path is Some ==> r is Ok && !final(self).dirty_spec(),
            old(self).file_spec().path is None ==> r == Err::<(), SaveError>(SaveError::NoFilePath)
                && final(self).dirty_spec() == old(self).dirty_spec(),
    {
        if self.file_info.has_path() {
            self.dirty = false;
            Ok(())
        } else {
            Err(SaveError::NoFilePath)
        }
    }

    pub fn is_dirty(&self) -> (r: bool)
        ensures
            r == self.dirty_spec(),
    {
        self.dirty
    }

    pub fn get_file_info(&self) -> (r: &FileInfo)
        ensures
            *r == self.file_spec(),
    {
        &self.file_info
    }

    pub fn is_file_loaded(&self) -> (r: bool)
        ensures
            r == self.file_spec().path is Some,
    {
        self.file_info.has_path()
    }

    pub fn height(&self) -> (r: usize)
        ensures
            r == self@.len(),
    {
        self.lines.len()
    }

    pub fn is_empty(&self) -> (r: bool)
        ensures
            r == (self@.len() == 0),
    {
        self.lines.len() == 0
    }

    /// Clusters in line `idx`, or 0 if there is no such line.
    pub fn grapheme_count(&self, idx: usize) -> (r: usize)
        ensures
            r == line_len(self@, idx as int),
    {
        if idx < self.lines.len() {
            self.lines[idx].grapheme_count()
        } else {
            0
        }
    }

    /// Columns taken by the first `until` clusters of line `idx`, or 0 if
    /// there is no such line.
    pub fn width_until(&self, idx: usize, until: usize) -> (r: usize)
        ensures
            idx < self@.len() ==> r == min(
                crate::line::columns(self@[idx as int], min(until as int, self@[idx as int].len() as int))
                    as int,
                usize::MAX as int,
            ),
            idx >= self@.len() ==> r == 0,
    {
        if idx < self.lines.len() {
            self.lines[idx].width_until(until)
        } else {
            0
        }
    }

    /// The window `range` of line `line_idx` with the annotations that the
    /// highlighter holds for that line, or `None` if there is no such line.
    pub fn get_highlighted_substring(
        &self,
        line_idx: usize,
        range: std::ops::Range<usize>,
        highlighter: &Highlighter,
    ) -> (r: Option<AnnotatedString>)
        ensures
            line_idx >= self@.len() ==> r is None,
            line_idx < self@.len() ==> r is Some && ({
                let line = self@[line_idx as int];
                let (s, e) = clamp_range(range.start as int, range.end as int, line.len() as int);
                &&& r->0.text() == line.subrange(s, e)
                &&& r->0.annotations@ == window_annotations(
                    highlighter.annotations_spec(line_idx as int),
                    s,
                    e,
                )
            }),
    {
        if line_idx < self.lines.len() {
            let anns = highlighter.get_annotations(line_idx);
            Some(self.lines[line_idx].get_annotated_visible_substr(range, &anns))
        } else {
            None
        }
    }

    /// Has the highlighter compute the annotations of line `idx`, if there is
    /// such a line.
    pub fn highlight(&self, idx: usize, highlighter: &mut Highlighter)
        ensures
            idx < self@.len() ==> final(highlighter).highlighted(*old(highlighter), idx as int, self@[idx as int]),
            idx >= self@.len() ==> *final(highlighter) == *old(highlighter),
    {
        if idx < self.lines.len() {
            highlighter.highlight(idx, &self.lines[idx]);
        }
    }

    /// Inserts `c` at `at`: as a new line if `at` is the line after the last,
    /// within the addressed line otherwise; nothing happens past that.
    pub fn insert_char(&mut self, c: char, at: Location)
        ensures
            at.line_idx == old(self)@.len() ==> final(self)@ == old(self)@.push(seq![seq![c]])
                && final(self).dirty_spec(),
            at.line_idx < old(self)@.len() ==> final(self)@ == old(self)@.update(
                at.line_idx as int,
                old(self)@[at.line_idx as int].insert(
                    min(at.grapheme_idx as int, old(self)@[at.line_idx as int].len() as int),
                    seq![c],
                ),
            ) && final(self).dirty_spec(),
            at.line_idx > old(self)@.len() ==> *final(self) == *old(self),
            final(self).file_spec() == old(self).file_spec(),
    {
        if at.line_idx == self.lines.len() {
            let mut line = Line::new();
            line.insert_char(c, 0);
            assert(line@ =~= seq![seq![c]]);
            self.lines.push(line);
            self.dirty = true;
            assert(final(self)@ =~= old(self)@.push(seq![seq![c]]));
        } else if at.line_idx < self.lines.len() {
            let mut line = self.lines.remove(at.line_idx);
            line.insert_char(c, at.grapheme_idx);
            self.lines.insert(at.line_idx, line);
            self.dirty = true;
            assert(final(self)@ =~= old(self)@.update(at.line_idx as int, line@));
        }
    }

    /// Splits the addressed line at `at`, the tail becoming the next line; at
    /// the line after the last, adds an empty line; nothing happens past that.
    pub fn insert_newline(&mut self, at: Location)
        ensures
            at.line_idx == old(self)@.len() ==> final(self)@ == old(self)@.push(seq![])
                && final(self).dirty_spec(),
            at.line_idx < old(self)@.len() ==> ({
                let line = old(self)@[at.line_idx as int];
                let k = min(at.grapheme_idx as int, line.len() as int);
                &&& final(self)@ == old(self)@.update(at.line_idx as int, line.subrange(0, k)).insert(
                    at.line_idx + 1,
                    line.subrange(k, line.len() as int),
                )
                &&& final(self).dirty_spec()
            }),
            at.line_idx > old(self)@.len() ==> *final(self) == *old(self),
            final(self).file_spec() == old(self).file_spec(),
    {
        if at.line_idx == self.lines.len() {
            self.lines.push(Line::new());
            self.dirty = true;
            assert(final(self)@ =~= old(self)@.push(seq![]));
        } else if at.line_idx < self.lines.len() {
            let mut line = self.lines.remove(at.line_idx);
            let tail = line.split(at.grapheme_idx);
            self.lines.insert(at.line_idx, line);
            let ghost mid = self@;
            let ghost tv = tail@;
            assert(mid =~= old(self)@.update(at.line_idx as int, line@));
            self.lines.insert(at.line_idx + 1, tail);
            assert(self@ =~= mid.insert(at.line_idx + 1, tv));
            self.dirty = true;
        }
    }

    /// Deletes the cluster at `at`, or, at or past the end of a line that has
    /// a next line, the line break (joining the two lines).
    pub fn delete(&mut self, at: Location)
        ensures
            final(self)@ == deleted(old(self)@, at),
            final(self).dirty_spec() == (old(self).dirty_spec() || deletes_something(old(self)@, at)),
            final(self).file_spec() == old(self).file_spec(),
    {
        if at.line_idx < self.lines.len() {
            let count = self.lines[at.line_idx].grapheme_count();
            if at.grapheme_idx >= count && at.line_idx + 1 < self.lines.len() {
                let next = self.lines.remove(at.line_idx + 1);
                let mut line = self.lines.remove(at.line_idx);
                line.append(&next);
                self.lines.insert(at.line_idx, line);
                self.dirty = true;
                assert(final(self)@ =~= deleted(old(self)@, at));
            } else if at.grapheme_idx < count {
                let mut line = self.lines.remove(at.line_idx);
                line.delete(at.grapheme_idx);
                self.lines.insert(at.line_idx, line);
                self.dirty = true;
                assert(final(self)@ =~= deleted(old(self)@, at));
            }
        }
    }

    /// Deletes the text between the two ends of `range`, in either order, one
    /// unit at a time at its start.
    pub fn delete_range(&mut self, range: SelectRange)
        ensures
            final(self)@ == range_deleted(old(self)@, range),
            final(self).dirty_spec() == (old(self).dirty_spec() || range_deletes_something(
                old(self)@,
                range,
            )),
            final(self).file_spec() == old(self).file_spec(),
    {
        let (start, end) = crate::location::normalized(range);
        let ghost b = self@;
        let count: usize = if start.line_idx == end.line_idx {
            end.grapheme_idx.saturating_sub(start.grapheme_idx)
        } else {
            let mut count = self.grapheme_count(start.line_idx).saturating_sub(start.grapheme_idx);
            let mut l: usize = start.line_idx + 1;
            assert(clusters_between(b, start.line_idx + 1, l as int) == 0);
            while l < end.line_idx
                invariant
                    self@ == b,
                    start.line_idx < l <= end.line_idx,
                    count == min(
                        (if line_len(b, start.line_idx as int) - start.grapheme_idx > 0 {
                            line_len(b, start.line_idx as int) - start.grapheme_idx
                        } else {
                            0
                        }) + clusters_between(b, start.line_idx + 1, l as int),
                        usize::MAX as int,
                    ),
                decreases end.line_idx - l,
            {
                count = count.saturating_add(self.grapheme_count(l));
                l = l + 1;
            }
            count = count.saturating_add(end.grapheme_idx);
            count.saturating_add(end.line_idx - start.line_idx)
        };
        assert(count == min(deletion_count(b, start, end), usize::MAX as int));
        let mut i: usize = 0;
        while i < count
            invariant
                i <= count,
                deleted_times(self@, start, (count - i) as nat) == range_deleted(b, range),
                (self.dirty_spec() || some_deletion(self@, start, (count - i) as nat)) == (
                old(self).dirty_spec() || range_deletes_something(b, range)),
                self.file_spec() == old(self).file_spec(),
                b == old(self)@,
                (start, end) == normalize(range),
                count == min(deletion_count(b, start, end), usize::MAX as int),
            decreases count - i,
        {
            self.delete(start);
            i = i + 1;
        }
    }

    /// The unit that a deletion at `at` would remove: the cluster there, or a
    /// line break at the end of the line; `None` past it or past the last line.
    pub fn get_a_grapheme(&self, at: Location) -> (r: Option<String>)
        ensures
            at.line_idx < self@.len() && at.grapheme_idx < self@[at.line_idx as int].len() ==> r
                is Some && r->0@ == self@[at.line_idx as int][at.grapheme_idx as int],
            at.line_idx < self@.len() && at.grapheme_idx == self@[at.line_idx as int].len() ==> r
                is Some && r->0@ == seq!['\n'],
            at.line_idx >= self@.len() || at.grapheme_idx > self@[at.line_idx as int].len() ==> r
                is None,
    {
        if at.line_idx < self.lines.len() {
            let count = self.lines[at.line_idx].grapheme_count();
            if at.grapheme_idx < count {
                return self.lines[at.line_idx].get_a_grapheme(at.grapheme_idx);
            } else if at.grapheme_idx == count {
                proof {
                    reveal_strlit("\n");
                }
                return Some(String::from_str("\n"));
            }
        }
        None
    }

    /// The text between the two ends of `range`, in either order.
    pub fn get_range_grapheme(&self, range: SelectRange) -> (r: String)
        ensures
            ({
                let (s, e) = normalize(range);
                r@ == range_text(self@, s, e)
            }),
    {
        let (start, end) = crate::location::normalized(range);
        let ghost b = self@;
        proof {
            reveal_strlit("\n");
        }
        if start.line_idx == end.line_idx {
            if start.line_idx < self.lines.len() {
                return self.lines[start.line_idx].get_grapheme_range(start.grapheme_idx, end.grapheme_idx);
            }
            return String::new();
        }
        let mut out = String::new();
        if start.line_idx < self.lines.len() {
            let first = &self.lines[start.line_idx];
            out = first.get_grapheme_range(start.grapheme_idx, first.grapheme_count());
        }
        out.append("\n");
        let ghost head = out@;
        let mut l: usize = start.line_idx + 1;
        assert(head + lines_text(b, start.line_idx + 1, l as int) =~= head);
        while l < end.line_idx
            invariant
                self@ == b,
                start.line_idx < l <= end.line_idx,
                out@ == head + lines_text(b, start.line_idx + 1, l as int),
            decreases end.line_idx - l,
        {
            if l < self.lines.len() {
                assert(b[l as int] == self.lines@[l as int]@);
                let t = self.lines[l].text();
                out.append(t.as_str());
                proof {
                    reveal_strlit("\n");
                }
                out.append("\n");
            }
            assert(out@ =~= head + lines_text(b, start.line_idx + 1, l + 1));
            l = l + 1;
        }
        if end.line_idx < self.lines.len() {
            let t = self.lines[end.line_idx].get_grapheme_range(0, end.grapheme_idx);
            out.append(t.as_str());
        }
        assert(out@ =~= range_text(b, start, end));
        out
    }

    /// Searches for `query` forward from `from`, line after line round the
    /// document, coming back to the origin line from its start last.
    pub fn search_forward(&self, query: &str, from: Location) -> (r: Option<Location>)
        ensures
            query@.len() == 0 || self@.len() == 0 ==> r is None,
            query@.len() > 0 && self@.len() > 0 ==> match r {
                Some(loc) => exists|k: int|
                    0 <= k <= self@.len() && loc.line_idx == ring_forward(
                        from.line_idx as int,
                        self@.len() as int,
                        k,
                    ) && forward_visit(self@, query@, from, k, Some(loc.grapheme_idx as int))
                        && forall|j: int| 0 <= j < k ==> forward_visit(self@, query@, from, j, None),
                None => forall|k: int|
                    0 <= k <= self@.len() ==> forward_visit(self@, query@, from, k, None),
            },
    {
        let n = self.lines.len();
        if query.is_empty() || n == 0 {
            proof {
                assert(query@.len() == 0 || n == 0);
            }
            return None;
        }
        let s = from.line_idx % n;
        let mut k: usize = 0;
        loop
            invariant
                n == self@.len() > 0,
                s == from.line_idx % n,
                query@.len() > 0,
                k <= n,
                forall|j: int| 0 <= j < k ==> forward_visit(self@, query@, from, j, None),
            decreases n + 1 - k,
        {
            let l = if k < n - s {
                s + k
            } else {
                k - (n - s)
            };
            let g = if k == 0 {
                from.grapheme_idx
            } else {
                0
            };
            let found = self.lines[l].search_forward(query, g);
            assert(self@[l as int] == self.lines@[l as int]@);
            match found {
                Some(h) => {
                    assert(forward_visit(self@, query@, from, k as int, Some(h as int)));
                    return Some(Location { grapheme_idx: h, line_idx: l });
                },
                None => {
                    assert(forward_visit(self@, query@, from, k as int, None));
                },
            }
            if k == n {
                return None;
            }
            k = k + 1;
        }
    }

    /// Searches for `query` backward from `from`, line before line round the
    /// document, coming back to the origin line from its end last.
    pub fn search_backward(&self, query: &str, from: Location) -> (r: Option<Location>)
        ensures
            query@.len() == 0 || self@.len() == 0 ==> r is None,
            query@.len() > 0 && self@.len() > 0 ==> match r {
                Some(loc) => exists|k: int|
                    0 <= k <= self@.len() && loc.line_idx == ring_backward(
                        from.line_idx as int,
                        self@.len() as int,
                        k,
                    ) && backward_visit(self@, query@, from, k, Some(loc.grapheme_idx as int))
                        && forall|j: int| 0 <= j < k ==> backward_visit(self@, query@, from, j, None),
                None => forall|k: int|
                    0 <= k <= self@.len() ==> backward_visit(self@, query@, from, k, None),
            },
    {
        let n = self.lines.len();
        if query.is_empty() || n == 0 {
            return None;
        }
        let s = if from.line_idx < n - 1 {
            from.line_idx
        } else {
            n - 1
        };
        let mut k: usize = 0;
        loop
            invariant
                n == self@.len() > 0,
                s == min(from.line_idx as int, n - 1),
                query@.len() > 0,
                k <= n,
                forall|j: int| 0 <= j < k ==> backward_visit(self@, query@, from, j, None),
            decreases n + 1 - k,
        {
            let l = if k <= s {
                s - k
            } else {
                s + (n - k)
            };
            let g = if k == 0 {
                from.grapheme_idx
            } else {
                self.lines[l].grapheme_count()
            };
            let found = self.lines[l].search_backward(query, g);
            assert(self@[l as int] == self.lines@[l as int]@);
            match found {
                Some(h) => {
                    assert(backward_visit(self@, query@, from, k as int, Some(h as int)));
                    return Some(Location { grapheme_idx: h, line_idx: l });
                },
                None => {
                    assert(backward_visit(self@, query@, from, k as int, None));
                },
            }
            if k == n {
                return None;
            }
            k = k + 1;
        }
    }
}

} // verus!
