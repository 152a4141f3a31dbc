//! Paragraphs: runs of wrapped lines that are edited as one block.
use crate::text::{clusters_wf, graphemes_of, joined, lemma_joined_split, GraphemeRange, Text, TextBuf};
use crate::wrap::{
    lemma_joined_concat, lemma_joined_single, lemma_wrapped_joined, lemma_wrapped_nonempty, wrap,
    wrapped,
};
use vstd::prelude::*;
use vstd::string::*;

verus! {

/// The characters of each line, given the clusters of each line.
pub open spec fn line_texts(v: Seq<Seq<Seq<char>>>) -> Seq<Seq<char>> {
    v.map_values(|l: Seq<Seq<char>>| joined(l))
}

/// The lines of `text` wrapped at `width`, each segmented anew.
pub open spec fn wrapped_para(text: Seq<char>, width: int) -> Seq<Seq<Seq<char>>> {
    wrapped(graphemes_of(text), width).map_values(|l: Seq<char>| graphemes_of(l))
}

/// The number of clusters in the lines before line `k`.
pub open spec fn lens_before(v: Seq<Seq<Seq<char>>>, k: int) -> int
    decreases k,
{
    if k <= 0 {
        0
    } else {
        lens_before(v, k - 1) + v[k - 1].len()
    }
}

/// The number of clusters in all lines.
pub open spec fn total_len(v: Seq<Seq<Seq<char>>>) -> int {
    lens_before(v, v.len() as int)
}

/// The position, counted in clusters across lines, of column `col` of
/// line `line`.
pub open spec fn idx_of(v: Seq<Seq<Seq<char>>>, line: int, col: int) -> int {
    lens_before(v, line) + col
}

/// The line and column of position `idx`, searching from line `line`: the
/// first line that reaches `idx`, so that a position at the end of a line
/// stays on that line.
pub open spec fn coords_from(v: Seq<Seq<Seq<char>>>, idx: int, line: int) -> (int, int)
    decreases v.len() - line,
{
    if line >= v.len() || idx <= lens_before(v, line) {
        (line, 0)
    } else if idx <= lens_before(v, line + 1) {
        (line, idx - lens_before(v, line))
    } else {
        coords_from(v, idx, line + 1)
    }
}

/// The line and column of position `idx`.
pub open spec fn coords_of(v: Seq<Seq<Seq<char>>>, idx: int) -> (int, int) {
    coords_from(v, idx, 0)
}

/// Counts are additive and never decrease from line to line.
pub proof fn lemma_lens_before_mono(v: Seq<Seq<Seq<char>>>, a: int, b: int)
    requires
        0 <= a <= b <= v.len(),
    ensures
        lens_before(v, a) <= lens_before(v, b),
    decreases b - a,
{
    if a < b {
        lemma_lens_before_mono(v, a, b - 1);
    }
}

proof fn lemma_coords_from(v: Seq<Seq<Seq<char>>>, idx: int, line: int)
    requires
        0 <= line < v.len(),
        0 <= idx <= total_len(v),
        line == 0 || idx > lens_before(v, line),
    ensures
        ({
            let (l, c) = coords_from(v, idx, line);
            &&& line <= l < v.len()
            &&& 0 <= c <= v[l].len()
            &&& idx_of(v, l, c) == idx
        }),
    decreases v.len() - line,
{
    if idx <= lens_before(v, line) {
        if line == 0 {
        }
    } else if idx <= lens_before(v, line + 1) {
    } else {
        if line + 1 >= v.len() {
            assert(total_len(v) == lens_before(v, line + 1));
        } else {
            lemma_coords_from(v, idx, line + 1);
        }
    }
}

/// Every position within the paragraph has coordinates on one of its
/// lines, and they lead back to it.
pub proof fn lemma_coords_of(v: Seq<Seq<Seq<char>>>, idx: int)
    requires
        v.len() >= 1,
        0 <= idx <= total_len(v),
    ensures
        0 <= coords_of(v, idx).0 < v.len(),
        0 <= coords_of(v, idx).1 <= v[coords_of(v, idx).0].len(),
        idx_of(v, coords_of(v, idx).0, coords_of(v, idx).1) == idx,
{
    lemma_coords_from(v, idx, 0);
}

/// A position given by coordinates within the paragraph lies in it.
pub proof fn lemma_idx_of_bound(v: Seq<Seq<Seq<char>>>, line: int, col: int)
    requires
        0 <= line < v.len(),
        0 <= col <= v[line].len(),
    ensures
        0 <= idx_of(v, line, col) <= total_len(v),
{
    lemma_lens_before_mono(v, 0, line);
    lemma_lens_before_mono(v, line + 1, v.len() as int);
}

/// A run of non-empty strings has no more strings than characters.
pub proof fn lemma_count_le_chars(gs: Seq<Seq<char>>)
    requires
        clusters_wf(gs),
    ensures
        gs.len() <= joined(gs).len(),
    decreases gs.len(),
{
    if gs.len() > 0 {
        lemma_count_le_chars(gs.drop_last());
    }
}

/// The clusters of all lines number no more than their characters.
pub proof fn lemma_total_len_le_chars(v: Seq<Seq<Seq<char>>>, k: int)
    requires
        0 <= k <= v.len(),
        forall|i: int| 0 <= i < v.len() ==> clusters_wf(#[trigger] v[i]),
    ensures
        lens_before(v, k) <= joined(line_texts(v).take(k)).len(),
    decreases k,
{
    if k > 0 {
        lemma_total_len_le_chars(v, k - 1);
        lemma_count_le_chars(v[k - 1]);
        assert(line_texts(v).take(k).drop_last() =~= line_texts(v).take(k - 1));
    }
}

/// Lines after the first that hold characters number no more than the
/// characters plus one.
pub proof fn lemma_lines_le_chars(ls: Seq<Seq<char>>)
    requires
        forall|i: int| 1 <= i < ls.len() ==> (#[trigger] ls[i]).len() > 0,
    ensures
        ls.len() <= joined(ls).len() + 1,
    decreases ls.len(),
{
    if ls.len() > 1 {
        lemma_lines_le_chars(ls.drop_last());
    }
}

/// Non-empty clusters, at least one, hold characters.
pub proof fn lemma_joined_nonempty(gs: Seq<Seq<char>>)
    requires
        clusters_wf(gs),
        gs.len() > 0,
    ensures
        joined(gs).len() > 0,
{
    assert(gs.last().len() > 0);
}

/// One paragraph: at least one line, each a grapheme-indexed text.
#[derive(Debug, PartialEq)]
pub struct Paragraph {
    lines: Vec<TextBuf>,
}

impl View for Paragraph {
    type V = Seq<Seq<Seq<char>>>;

    /// The clusters of each line.
    closed spec fn view(&self) -> Seq<Seq<Seq<char>>> {
        self.lines@.map_values(|l: TextBuf| l@)
    }
}

impl Paragraph {
    /// At least one line, each well formed.
    pub closed spec fn lines_wf(&self) -> bool {
        &&& self.lines@.len() >= 1
        &&& forall|i: int| 0 <= i < self.lines@.len() ==> (#[trigger] self.lines@[i]).wf()
    }

    /// Well formed lines, every line but the first holds characters, and
    /// the characters fit in memory.
    pub open spec fn wf(&self) -> bool {
        &&& self.lines_wf()
        &&& forall|i: int| 1 <= i < self@.len() ==> (#[trigger] joined(self@[i])).len() > 0
        &&& self.text().len() <= usize::MAX
    }

    /// The characters of the paragraph.
    pub open spec fn text(&self) -> Seq<char> {
        joined(line_texts(self@))
    }

    /// What well-formed lines offer their callers.
    pub proof fn lemma_lines_wf(&self)
        requires
            self.lines_wf(),
        ensures
            self@.len() >= 1,
            forall|i: int| 0 <= i < self@.len() ==> clusters_wf(#[trigger] self@[i]),
            forall|i: int| 0 <= i < self@.len() ==> (#[trigger] self@[i]).len() <= usize::MAX,
    {
        assert forall|i: int| 0 <= i < self@.len() implies clusters_wf(#[trigger] self@[i]) && self@[i].len() <= usize::MAX by {
            self.lines@[i].lemma_wf();
            lemma_count_le_chars(self@[i]);
        }
    }

    /// What a well-formed paragraph offers its callers.
    pub proof fn lemma_wf(&self)
        requires
            self.wf(),
        ensures
            total_len(self@) <= self.text().len(),
            self@.len() <= self.text().len() + 1,
    {
        self.lemma_lines_wf();
        lemma_total_len_le_chars(self@, self@.len() as int);
        assert(line_texts(self@).take(self@.len() as int) =~= line_texts(self@));
        lemma_lines_le_chars(line_texts(self@));
    }

    /// A paragraph of one empty line.
    pub fn new() -> (r: Self)
        ensures
            r.wf(),
            r@ == seq![Seq::<Seq<char>>::empty()],
    {
        let mut lines: Vec<TextBuf> = Vec::new();
        lines.push(TextBuf::default());
        let r = Paragraph { lines };
        assert(r@ =~= seq![Seq::<Seq<char>>::empty()]);
        assert(line_texts(r@) =~= seq![Seq::<char>::empty()]);
        proof {
            crate::wrap::lemma_joined_single(Seq::<char>::empty());
        }
        r
    }

    /// A paragraph of the given lines.
    pub fn from_lines(lines: Vec<TextBuf>) -> (r: Self)
        requires
            lines@.len() >= 1,
            forall|i: int| 0 <= i < lines@.len() ==> (#[trigger] lines@[i]).wf(),
        ensures
            r.lines_wf(),
            r@ == lines@.map_values(|l: TextBuf| l@),
    {
        Paragraph { lines }
    }

    /// Joins the lines and wraps the result at `width` columns.
    pub fn rewrap(&mut self, width: usize)
        requires
            old(self).lines_wf(),
        ensures
            final(self).wf(),
            final(self).text() == old(self).text(),
            line_texts(final(self)@) == wrapped(graphemes_of(old(self).text()), width as int),
            forall|i: int| 0 <= i < final(self)@.len() ==> #[trigger] final(self)@[i] == graphemes_of(
                joined(final(self)@[i]),
            ),
            final(self)@ == wrapped_para(old(self).text(), width as int),
    {
        let ghost lt = line_texts(self@);
        let mut joined_text = String::new();
        let mut i: usize = 0;
        proof {
            assert(lt.take(0) =~= Seq::<Seq<char>>::empty());
        }
        while i < self.lines.len()
            invariant
                self.lines_wf(),
                lt == line_texts(self@),
                i <= self.lines@.len(),
                joined_text@ == joined(lt.take(i as int)),
            decreases self.lines@.len() - i,
        {
            proof {
                assert(lt.take(i + 1).drop_last() =~= lt.take(i as int));
            }
            joined_text.append(self.lines[i].as_str());
            i = i + 1;
        }
        proof {
            assert(lt.take(lt.len() as int) =~= lt);
        }
        let text = Text::new(joined_text.as_str());
        proof {
            text.lemma_wf();
            lemma_wrapped_joined(text@, width as int);
            lemma_wrapped_nonempty(text@, width as int);
        }
        let lines = wrap(&text, width);
        self.lines = lines;
        proof {
            let w = wrapped(text@, width as int);
            assert(line_texts(self@) =~= w);
            assert(self@ =~= wrapped_para(old(self).text(), width as int));
        }
    }

    /// The position, counted in clusters across lines, of column `column`
    /// of line `line`.
    pub fn idx_of_coords(&self, line: usize, column: usize) -> (r: usize)
        requires
            self.wf(),
            line < self@.len(),
            column <= self@[line as int].len(),
        ensures
            r == idx_of(self@, line as int, column as int),
    {
        proof {
            self.lemma_wf();
            lemma_idx_of_bound(self@, line as int, column as int);
        }
        let mut num_before: usize = 0;
        let mut i: usize = 0;
        while i < line
            invariant
                self.lines_wf(),
                i <= line < self@.len(),
                num_before == lens_before(self@, i as int),
                lens_before(self@, line as int) <= usize::MAX,
            decreases line - i,
        {
            proof {
                lemma_lens_before_mono(self@, i + 1, line as int);
            }
            num_before = num_before + self.lines[i].len();
            i = i + 1;
        }
        num_before + column
    }

    /// The line and column of position `idx`.
    pub fn coords_of_idx(&self, idx: usize) -> (r: (usize, usize))
        requires
            self.wf(),
            idx <= total_len(self@),
        ensures
            r.0 == coords_of(self@, idx as int).0,
            r.1 == coords_of(self@, idx as int).1,
            r.0 < self@.len(),
            r.1 <= self@[r.0 as int].len(),
    {
        proof {
            self.lemma_wf();
            lemma_coords_of(self@, idx as int);
        }
        let n = self.lines.len();
        let mut line: usize = 0;
        let mut num_before: usize = 0;
        loop
            invariant
                self.lines_wf(),
                n == self@.len(),
                line < n,
                idx <= total_len(self@),
                total_len(self@) <= usize::MAX,
                num_before == lens_before(self@, line as int),
                line == 0 || idx > num_before,
                coords_from(self@, idx as int, line as int) == coords_of(self@, idx as int),
            decreases n - line,
        {
            if idx <= num_before {
                return (line, 0);
            }
            proof {
                lemma_lens_before_mono(self@, line + 1, n as int);
            }
            let len = self.lines[line].len();
            if idx <= num_before + len {
                return (line, idx - num_before);
            }
            num_before = num_before + len;
            line = line + 1;
        }
    }

    /// Cuts the paragraph at column `column` of line `line`: what comes
    /// before stays, what comes after is returned.
    pub fn split_off(&mut self, line: usize, column: usize) -> (r: Self)
        requires
            old(self).lines_wf(),
            line < old(self)@.len(),
            column <= old(self)@[line as int].len(),
        ensures
            final(self).lines_wf(),
            r.lines_wf(),
            final(self)@ == old(self)@.take(line as int).push(old(self)@[line as int].take(column as int)),
            r@ == seq![old(self)@[line as int].skip(column as int)] + old(self)@.skip(line + 1),
            final(self).text() + r.text() == old(self).text(),
            old(self).wf() ==> r.wf(),
            old(self).wf() && (column > 0 || line == 0) ==> final(self).wf(),
    {
        let ghost v = self@;
        let mut other_lines = self.lines.split_off(line);
        let first = other_lines.remove(0);
        let before = first.slice(..column).into_text_buf();
        let after = first.slice(column..).into_text_buf();
        self.lines.push(before);
        other_lines.insert(0, after);
        let r = Paragraph { lines: other_lines };
        proof {
            assert(self@ =~= v.take(line as int).push(v[line as int].take(column as int)));
            assert(r@ =~= seq![v[line as int].skip(column as int)] + v.skip(line + 1));
            let lt = line_texts(v);
            let x = v[line as int];
            lemma_joined_split(x, column as int);
            assert(lt =~= lt.take(line as int) + seq![joined(x)] + lt.skip(line + 1));
            assert(line_texts(self@) =~= lt.take(line as int) + seq![joined(x.take(column as int))]);
            assert(line_texts(r@) =~= seq![joined(x.skip(column as int))] + lt.skip(line + 1));
            lemma_joined_concat(lt.take(line as int) + seq![joined(x)], lt.skip(line + 1));
            lemma_joined_concat(lt.take(line as int), seq![joined(x)]);
            lemma_joined_concat(lt.take(line as int), seq![joined(x.take(column as int))]);
            lemma_joined_concat(seq![joined(x.skip(column as int))], lt.skip(line + 1));
            lemma_joined_single(joined(x));
            lemma_joined_single(joined(x.take(column as int)));
            lemma_joined_single(joined(x.skip(column as int)));
            assert(self.text() + r.text() =~= joined(lt));
            assert forall|i: int| 0 <= i < self.lines@.len() implies (#[trigger] self.lines@[i]).wf() by {
                if i < line {
                    assert(self.lines@[i] == old(self).lines@[i]);
                }
            }
            assert forall|i: int| 0 <= i < r.lines@.len() implies (#[trigger] r.lines@[i]).wf() by {
                if i > 0 {
                    assert(r.lines@[i] == old(self).lines@[line + i]);
                }
            }
            if old(self).wf() {
                assert forall|i: int| 1 <= i < r@.len() implies (#[trigger] joined(r@[i])).len() > 0 by {
                    assert(r@[i] == v[line + i]);
                }
                if column > 0 {
                    old(self).lemma_lines_wf();
                    lemma_joined_nonempty(x.take(column as int));
                }
                if column > 0 || line == 0 {
                    assert forall|i: int| 1 <= i < self@.len() implies (#[trigger] joined(
                        self@[i],
                    )).len() > 0 by {
                        if i < line {
                            assert(self@[i] == v[i]);
                        }
                    }
                }
            }
        }
        r
    }

    /// Appends the lines of `p`.
    pub fn join(&mut self, p: Self)
        requires
            old(self).lines_wf(),
            p.lines_wf(),
        ensures
            final(self).lines_wf(),
            final(self)@ == old(self)@ + p@,
            final(self).text() == old(self).text() + p.text(),
    {
        let ghost a = self@;
        let ghost b = p@;
        let mut other = p;
        self.lines.append(&mut other.lines);
        proof {
            assert(self@ =~= a + b);
            assert(line_texts(self@) =~= line_texts(a) + line_texts(b));
            lemma_joined_concat(line_texts(a), line_texts(b));
            assert forall|i: int| 0 <= i < self.lines@.len() implies (#[trigger] self.lines@[i]).wf() by {
                if i < a.len() {
                    assert(self.lines@[i] == old(self).lines@[i]);
                } else {
                    assert(self.lines@[i] == p.lines@[i - a.len()]);
                }
            }
        }
    }

    /// Inserts `s` before column `column` of line `line`.
    pub fn insert(&mut self, s: &str, line: usize, column: usize)
        requires
            old(self).lines_wf(),
            line < old(self)@.len(),
            column <= old(self)@[line as int].len(),
        ensures
            final(self).lines_wf(),
            final(self)@.len() == old(self)@.len(),
            forall|i: int| 0 <= i < final(self)@.len() && i != line ==> #[trigger] final(self)@[i] == old(self)@[i],
            joined(final(self)@[line as int]) == joined(old(self)@[line as int].take(column as int)) + s@
                + joined(old(self)@[line as int].skip(column as int)),
            final(self)@[line as int] == graphemes_of(joined(final(self)@[line as int])),
    {
        let mut l = self.lines.remove(line);
        l.insert(column, s);
        self.lines.insert(line, l);
        proof {
            assert forall|i: int| 0 <= i < self.lines@.len() implies (#[trigger] self.lines@[i]).wf() by {
                if i < line {
                    assert(self.lines@[i] == old(self).lines@[i]);
                } else if i > line {
                    assert(self.lines@[i] == old(self).lines@[i]);
                }
            }
            assert forall|i: int| 0 <= i < self@.len() && i != line implies #[trigger] self@[i] == old(self)@[i] by {
                assert(self.lines@[i] == old(self).lines@[i]);
            }
        }
    }

    /// Removes the cluster at column `column` of line `line`.
    pub fn remove(&mut self, line: usize, column: usize)
        requires
            old(self).lines_wf(),
            line < old(self)@.len(),
            column < old(self)@[line as int].len(),
        ensures
            final(self).lines_wf(),
            final(self)@.len() == old(self)@.len(),
            forall|i: int| 0 <= i < final(self)@.len() && i != line ==> #[trigger] final(self)@[i] == old(self)@[i],
            joined(final(self)@[line as int]) == joined(old(self)@[line as int].take(column as int))
                + joined(old(self)@[line as int].skip(column + 1)),
            final(self)@[line as int] == graphemes_of(joined(final(self)@[line as int])),
    {
        let mut l = self.lines.remove(line);
        let _removed = l.remove(column);
        self.lines.insert(line, l);
        proof {
            assert forall|i: int| 0 <= i < self.lines@.len() implies (#[trigger] self.lines@[i]).wf() by {
                if i < line {
                    assert(self.lines@[i] == old(self).lines@[i]);
                } else if i > line {
                    assert(self.lines@[i] == old(self).lines@[i]);
                }
            }
            assert forall|i: int| 0 <= i < self@.len() && i != line implies #[trigger] self@[i] == old(self)@[i] by {
                assert(self.lines@[i] == old(self).lines@[i]);
            }
        }
    }

    /// The lines, as borrowed texts.
    pub fn lines(&self) -> (r: Vec<Text<'_>>)
        requires
            self.lines_wf(),
        ensures
            r@.len() == self@.len(),
            forall|i: int| 0 <= i < r@.len() ==> (#[trigger] r@[i]).wf() && r@[i]@ == self@[i],
    {
        let mut out: Vec<Text<'_>> = Vec::new();
        let mut i: usize = 0;
        while i < self.lines.len()
            invariant
                self.lines_wf(),
                i <= self@.len(),
                out@.len() == i,
                forall|j: int| 0 <= j < i ==> (#[trigger] out@[j]).wf() && out@[j]@ == self@[j],
            decreases self@.len() - i,
        {
            out.push(self.lines[i].as_text());
            i = i + 1;
        }
        out
    }

    /// The number of lines.
    pub fn num_lines(&self) -> (r: usize)
        ensures
            r == self@.len(),
    {
        self.lines.len()
    }

    /// Line `index`.
    pub fn line(&self, index: usize) -> (r: &TextBuf)
        requires
            index < self@.len(),
            self.lines_wf(),
        ensures
            r.wf(),
            r@ == self@[index as int],
    {
        &self.lines[index]
    }
}

} // verus!
