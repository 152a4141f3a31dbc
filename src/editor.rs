//! A multi-paragraph, word-wrapping editor with a cursor and a viewport.
//!
//! The buffer is a run of paragraphs, each a run of wrapped lines. The
//! cursor is a paragraph, a line within it and a column counted in grapheme
//! clusters. On screen, paragraphs are separated by one empty row, and the
//! viewport scrolls to keep the cursor visible.
use crate::para::{
    coords_of, idx_of, lemma_coords_of, lemma_idx_of_bound, lemma_lens_before_mono,
    lemma_count_le_chars, line_texts, total_len, wrapped_para, Paragraph,
};
use crate::text::{clusters_wf, graphemes_of, joined, lemma_joined_split, lemma_joined_take_next, width_of, GraphemeRange, Text};
use crate::wrap::lemma_joined_single;
use vstd::prelude::*;

verus! {

/// The lines of paragraphs, as clusters per line.
pub type Paras = Seq<Seq<Seq<Seq<char>>>>;

/// The number of lines in the paragraphs before paragraph `k`.
pub open spec fn lines_before(ps: Paras, k: int) -> int
    decreases k,
{
    if k <= 0 {
        0
    } else {
        lines_before(ps, k - 1) + ps[k - 1].len()
    }
}

/// The number of characters in paragraph `i`.
pub open spec fn para_chars(ps: Paras, i: int) -> int {
    joined(line_texts(ps[i])).len() as int
}

/// A measure of the size of the paragraphs before paragraph `k`: their
/// characters, plus two for each.
pub open spec fn size_before(ps: Paras, k: int) -> int
    decreases k,
{
    if k <= 0 {
        0
    } else {
        size_before(ps, k - 1) + para_chars(ps, k - 1) + 2
    }
}

/// The size measure of all paragraphs.
pub open spec fn size(ps: Paras) -> int {
    size_before(ps, ps.len() as int)
}

/// The row on screen, before scrolling, of line `l` of paragraph `p`.
pub open spec fn visual_line_of(ps: Paras, p: int, l: int) -> int {
    lines_before(ps, p) + p + l
}

/// The number of rows that the whole buffer takes on screen.
pub open spec fn num_visual_lines_of(ps: Paras) -> int {
    lines_before(ps, ps.len() as int) + ps.len() - 1
}

/// The rows that the whole buffer shows: the lines of each paragraph, with
/// an empty row between paragraphs.
pub open spec fn visual_lines(ps: Paras) -> Seq<Seq<char>>
    decreases ps.len(),
{
    if ps.len() == 0 {
        Seq::empty()
    } else if ps.len() == 1 {
        line_texts(ps[0])
    } else {
        visual_lines(ps.drop_last()) + seq![Seq::<char>::empty()] + line_texts(ps.last())
    }
}

/// The scroll offset after adjusting to the cursor at line `l` of
/// paragraph `p`: none when everything fits, else the least change that
/// shows the cursor, pulled up so that no row past the end shows.
pub open spec fn adjusted(ps: Paras, p: int, l: int, scroll: int, height: int) -> int {
    let vl = visual_line_of(ps, p, l);
    let n = num_visual_lines_of(ps);
    if n <= height {
        0
    } else {
        let s1 = if vl < scroll {
            vl
        } else if vl + 1 > scroll + height {
            vl - height + 1
        } else {
            scroll
        };
        if s1 > n - height {
            n - height
        } else {
            s1
        }
    }
}

/// The line before line `l` of paragraph `p`, across paragraphs.
pub open spec fn prev_line(ps: Paras, p: int, l: int) -> (int, int) {
    if l > 0 {
        (p, l - 1)
    } else {
        (p - 1, ps[p - 1].len() - 1)
    }
}

/// The line after line `l` of paragraph `p`, across paragraphs.
pub open spec fn next_line(ps: Paras, p: int, l: int) -> (int, int) {
    if l + 1 < ps[p].len() {
        (p, l + 1)
    } else {
        (p + 1, 0)
    }
}

/// The characters of paragraph `v` with `s` inserted at column `c` of line
/// `l`.
pub open spec fn inserted_text(v: Seq<Seq<Seq<char>>>, l: int, c: int, s: Seq<char>) -> Seq<char> {
    joined(line_texts(v).take(l)) + joined(v[l].take(c)) + s + joined(v[l].skip(c)) + joined(
        line_texts(v).skip(l + 1),
    )
}

/// The characters of paragraph `v` with the cluster at column `c` of line
/// `l` removed.
pub open spec fn removed_text(v: Seq<Seq<Seq<char>>>, l: int, c: int) -> Seq<char> {
    joined(line_texts(v).take(l)) + joined(v[l].take(c)) + joined(v[l].skip(c + 1)) + joined(
        line_texts(v).skip(l + 1),
    )
}

proof fn lemma_lines_before_mono(ps: Paras, a: int, b: int)
    requires
        0 <= a <= b <= ps.len(),
    ensures
        lines_before(ps, a) <= lines_before(ps, b),
    decreases b - a,
{
    if a < b {
        lemma_lines_before_mono(ps, a, b - 1);
    }
}

/// Rows on screen number no more than the size measure.
proof fn lemma_rows_le_size(ps: Paras, k: int)
    requires
        0 <= k <= ps.len(),
        forall|i: int| 0 <= i < ps.len() ==> ps[i].len() <= para_chars(ps, i) + 1,
    ensures
        lines_before(ps, k) + k <= size_before(ps, k),
    decreases k,
{
    if k > 0 {
        lemma_rows_le_size(ps, k - 1);
    }
}

proof fn lemma_size_mono(ps: Paras, a: int, b: int)
    requires
        0 <= a <= b <= ps.len(),
    ensures
        size_before(ps, a) <= size_before(ps, b),
        forall|i: int| a <= i < b ==> para_chars(ps, i) + 2 <= size_before(ps, b) - size_before(ps, a),
    decreases b - a,
{
    if a < b {
        lemma_size_mono(ps, a, b - 1);
    }
}

/// The cursor's row lies within the rows on screen.
proof fn lemma_visual_line_bound(ps: Paras, p: int, l: int)
    requires
        0 <= p < ps.len(),
        0 <= l < ps[p].len(),
    ensures
        0 <= visual_line_of(ps, p, l) < num_visual_lines_of(ps),
{
    lemma_lines_before_mono(ps, 0, p);
    lemma_lines_before_mono(ps, p + 1, ps.len() as int);
}

/// Changing one paragraph changes the size measure by the change in its
/// characters.
proof fn lemma_size_update(ps: Paras, p: int, v: Seq<Seq<Seq<char>>>, k: int)
    requires
        0 <= p < ps.len(),
        0 <= k <= ps.len(),
    ensures
        size_before(ps.update(p, v), k) == size_before(ps, k) + (if p < k {
            joined(line_texts(v)).len() - para_chars(ps, p)
        } else {
            0
        }),
    decreases k,
{
    if k > 0 {
        lemma_size_update(ps, p, v, k - 1);
    }
}

/// An adjusted scroll offset shows the cursor and no row past the end.
proof fn lemma_adjusted(ps: Paras, p: int, l: int, scroll: int, height: int)
    requires
        0 <= p < ps.len(),
        0 <= l < ps[p].len(),
        height >= 1,
        scroll >= 0,
    ensures
        scroll_ok(ps, p, l, adjusted(ps, p, l, scroll, height), height),
{
    lemma_visual_line_bound(ps, p, l);
}

/// The viewport shows the cursor, and scrolls only when the buffer does not
/// fit, never past the last row.
pub open spec fn scroll_ok(ps: Paras, p: int, l: int, scroll: int, height: int) -> bool {
    let vl = visual_line_of(ps, p, l);
    let n = num_visual_lines_of(ps);
    &&& 0 <= scroll
    &&& n <= height ==> scroll == 0
    &&& n > height ==> scroll <= n - height && scroll <= vl < scroll + height
}

/// The characters of a paragraph, around one of its lines.
proof fn lemma_text_around_line(v: Seq<Seq<Seq<char>>>, l: int)
    requires
        0 <= l < v.len(),
    ensures
        joined(line_texts(v)) == joined(line_texts(v).take(l)) + joined(v[l]) + joined(
            line_texts(v).skip(l + 1),
        ),
{
    let lt = line_texts(v);
    lemma_joined_split(lt, l);
    lemma_joined_split(lt.skip(l), 1);
    assert(lt.skip(l).take(1) =~= seq![joined(v[l])]);
    assert(lt.skip(l).skip(1) =~= lt.skip(l + 1));
    lemma_joined_single(joined(v[l]));
}

/// The size measure after a paragraph is inserted.
proof fn lemma_size_insert(ps: Paras, k: int, v: Seq<Seq<Seq<char>>>, j: int)
    requires
        0 <= k <= ps.len(),
        0 <= j <= ps.len() + 1,
    ensures
        size_before(ps.insert(k, v), j) == if j <= k {
            size_before(ps, j)
        } else {
            size_before(ps, j - 1) + joined(line_texts(v)).len() + 2
        },
    decreases j,
{
    if j > 0 {
        lemma_size_insert(ps, k, v, j - 1);
    }
}

/// The size measure after a paragraph is removed.
proof fn lemma_size_remove(ps: Paras, k: int)
    requires
        0 <= k < ps.len(),
    ensures
        size(ps.remove(k)) == size(ps) - para_chars(ps, k) - 2,
{
    let r = ps.remove(k);
    assert(r.insert(k, ps[k]) =~= ps);
    lemma_size_insert(r, k, ps[k], r.len() + 1int);
}

/// The size measure depends on the characters of each paragraph alone.
proof fn lemma_size_same_chars(a: Paras, b: Paras, k: int)
    requires
        a.len() == b.len(),
        0 <= k <= a.len(),
        forall|i: int| 0 <= i < a.len() ==> para_chars(a, i) == para_chars(b, i),
    ensures
        size_before(a, k) == size_before(b, k),
    decreases k,
{
    if k > 0 {
        lemma_size_same_chars(a, b, k - 1);
    }
}

/// The buffer shows as many rows as [`num_visual_lines_of`] counts.
proof fn lemma_visual_lines_len(ps: Paras)
    requires
        ps.len() >= 1,
    ensures
        visual_lines(ps).len() == num_visual_lines_of(ps),
    decreases ps.len(),
{
    if ps.len() > 1 {
        lemma_visual_lines_len(ps.drop_last());
        assert(lines_before(ps.drop_last(), ps.len() - 1) == lines_before(ps, ps.len() - 1)) by {
            lemma_lines_before_prefix(ps, ps.len() - 1, ps.len() - 1);
        }
    } else {
        assert(lines_before(ps, 0) == 0);
    }
}

proof fn lemma_lines_before_prefix(ps: Paras, n: int, k: int)
    requires
        0 <= k <= n <= ps.len(),
    ensures
        lines_before(ps.take(n), k) == lines_before(ps, k),
    decreases k,
{
    if k > 0 {
        lemma_lines_before_prefix(ps, n, k - 1);
    }
}

/// The text of the whole buffer: paragraphs separated by line breaks.
pub open spec fn contents_of(texts: Seq<Seq<char>>) -> Seq<char>
    decreases texts.len(),
{
    if texts.len() == 0 {
        Seq::empty()
    } else if texts.len() == 1 {
        texts[0]
    } else {
        contents_of(texts.drop_last()) + seq!['\n'] + texts.last()
    }
}

/// The editor: paragraphs, the cursor, the viewport's scroll offset and the
/// size of the screen area.
#[derive(Debug)]
pub struct Editor {
    buffer: Vec<Paragraph>,
    para_idx: usize,
    line: usize,
    column: usize,
    lines_scrolled: usize,
    width: usize,
    height: usize,
}

impl Editor {
    /// The clusters of each line of each paragraph.
    pub closed spec fn paras(&self) -> Paras {
        self.buffer@.map_values(|p: Paragraph| p@)
    }

    /// The cursor: paragraph, line within it and column in clusters.
    pub closed spec fn pos(&self) -> (int, int, int) {
        (self.para_idx as int, self.line as int, self.column as int)
    }

    /// The number of rows scrolled off the top.
    pub closed spec fn scroll(&self) -> int {
        self.lines_scrolled as int
    }

    /// The width that lines wrap at.
    pub closed spec fn spec_width(&self) -> int {
        self.width as int
    }

    /// The number of rows on screen.
    pub closed spec fn spec_height(&self) -> int {
        self.height as int
    }

    /// Every paragraph is well formed, there is at least one, and the size
    /// measure fits in memory.
    pub closed spec fn paras_ok(&self) -> bool {
        &&& self.buffer@.len() >= 1
        &&& forall|i: int| 0 <= i < self.buffer@.len() ==> (#[trigger] self.buffer@[i]).wf()
        &&& size(self.paras()) <= usize::MAX
    }

    /// The cursor is on a line of a paragraph, within or at the end of it.
    pub open spec fn pos_ok(&self) -> bool {
        let (p, l, c) = self.pos();
        &&& 0 <= p < self.paras().len()
        &&& 0 <= l < self.paras()[p].len()
        &&& 0 <= c <= self.paras()[p][l].len()
    }

    /// The editor's invariant.
    pub open spec fn wf(&self) -> bool {
        &&& self.paras_ok()
        &&& self.pos_ok()
        &&& self.spec_height() >= 1
        &&& scroll_ok(self.paras(), self.pos().0, self.pos().1, self.scroll(), self.spec_height())
    }

    /// The characters of each line of paragraph `p`.
    pub open spec fn para_lines(&self, p: int) -> Seq<Seq<char>> {
        line_texts(self.paras()[p])
    }

    /// The cursor's position within its paragraph, in clusters.
    pub open spec fn para_cursor_idx(&self) -> int {
        idx_of(self.paras()[self.pos().0], self.pos().1, self.pos().2)
    }

    proof fn lemma_paras_ok(&self)
        requires
            self.paras_ok(),
        ensures
            forall|i: int| 0 <= i < self.paras().len() ==> (#[trigger] self.paras()[i]).len() <= para_chars(self.paras(), i) + 1,
            forall|i: int| 0 <= i < self.paras().len() ==> total_len(#[trigger] self.paras()[i]) <= para_chars(self.paras(), i),
            forall|i: int| 0 <= i < self.paras().len() ==> (#[trigger] self.paras()[i]).len() >= 1,
            forall|i: int, j: int| 0 <= i < self.paras().len() && 0 <= j < self.paras()[i].len() ==> clusters_wf(#[trigger] self.paras()[i][j]),
            num_visual_lines_of(self.paras()) < size(self.paras()),
            forall|i: int| 0 <= i < self.paras().len() ==> para_chars(self.paras(), i) + 2 <= size(self.paras()),
    {
        let ps = self.paras();
        assert forall|i: int| 0 <= i < ps.len() implies (#[trigger] ps[i]).len() <= para_chars(ps, i) + 1 && total_len(ps[i]) <= para_chars(ps, i) && ps[i].len() >= 1 by {
            assert(ps[i] == self.buffer@[i]@);
            self.buffer@[i].lemma_wf();
            self.buffer@[i].lemma_lines_wf();
        }
        assert forall|i: int, j: int| 0 <= i < ps.len() && 0 <= j < ps[i].len() implies clusters_wf(#[trigger] ps[i][j]) by {
            assert(ps[i] == self.buffer@[i]@);
            self.buffer@[i].lemma_lines_wf();
        }
        lemma_rows_le_size(ps, ps.len() as int);
        lemma_size_mono(ps, 0, ps.len() as int);
    }

    /// An empty buffer: one paragraph of one empty line.
    pub fn new(width: usize, height: usize) -> (r: Self)
        requires
            height >= 1,
        ensures
            r.wf(),
            r.paras() == seq![seq![Seq::<Seq<char>>::empty()]],
            r.pos() == (0int, 0int, 0int),
            r.scroll() == 0,
            r.spec_width() == width,
            r.spec_height() == height,
    {
        let mut buffer: Vec<Paragraph> = Vec::new();
        buffer.push(Paragraph::new());
        let r = Self { buffer, para_idx: 0, line: 0, column: 0, lines_scrolled: 0, width, height };
        proof {
            assert(r.paras() =~= seq![seq![Seq::<Seq<char>>::empty()]]);
            assert(line_texts(r.paras()[0]) =~= seq![Seq::<char>::empty()]);
            crate::wrap::lemma_joined_single(Seq::<char>::empty());
            assert(size(r.paras()) == 2) by {
                assert(size_before(r.paras(), 0) == 0);
            }
        }
        r
    }

    /// The number of lines in the paragraphs before paragraph `k`.
    fn lines_before_para(&self, k: usize) -> (r: usize)
        requires
            self.paras_ok(),
            k <= self.paras().len(),
        ensures
            r == lines_before(self.paras(), k as int),
            r + k <= size(self.paras()),
    {
        proof {
            self.lemma_paras_ok();
            lemma_rows_le_size(self.paras(), k as int);
            lemma_size_mono(self.paras(), k as int, self.paras().len() as int);
        }
        let mut sum: usize = 0;
        let mut i: usize = 0;
        while i < k
            invariant
                self.paras_ok(),
                i <= k <= self.paras().len(),
                sum == lines_before(self.paras(), i as int),
                lines_before(self.paras(), k as int) + k <= usize::MAX,
            decreases k - i,
        {
            proof {
                lemma_lines_before_mono(self.paras(), i + 1, k as int);
                assert(self.paras()[i as int] == self.buffer@[i as int]@);
            }
            sum = sum + self.buffer[i].num_lines();
            i = i + 1;
        }
        sum
    }

    /// The cursor's row on screen before scrolling.
    fn visual_line(&self) -> (r: usize)
        requires
            self.paras_ok(),
            self.pos_ok(),
        ensures
            r == visual_line_of(self.paras(), self.pos().0, self.pos().1),
            r < num_visual_lines_of(self.paras()),
    {
        proof {
            self.lemma_paras_ok();
            lemma_visual_line_bound(self.paras(), self.pos().0, self.pos().1);
        }
        let before = self.lines_before_para(self.para_idx);
        before + self.para_idx + self.line
    }

    /// The number of rows that the whole buffer takes on screen.
    fn num_visual_lines(&self) -> (r: usize)
        requires
            self.paras_ok(),
        ensures
            r == num_visual_lines_of(self.paras()),
    {
        let n = self.buffer.len();
        let all = self.lines_before_para(n);
        all + n - 1
    }

    /// Whether the whole buffer fits on screen.
    fn can_entire_document_fit_on_screen(&self) -> (r: bool)
        requires
            self.paras_ok(),
        ensures
            r == (num_visual_lines_of(self.paras()) <= self.spec_height()),
    {
        self.num_visual_lines() <= self.height
    }

    /// Whether the cursor is above the top row shown.
    fn cursor_above_top(&self) -> (r: bool)
        requires
            self.paras_ok(),
            self.pos_ok(),
        ensures
            r == (visual_line_of(self.paras(), self.pos().0, self.pos().1) < self.scroll()),
    {
        self.visual_line() < self.lines_scrolled
    }

    /// Whether the cursor is below the bottom row shown.
    fn cursor_below_bottom(&self) -> (r: bool)
        requires
            self.paras_ok(),
            self.pos_ok(),
        ensures
            r == (visual_line_of(self.paras(), self.pos().0, self.pos().1) + 1 > self.scroll()
                + self.spec_height()),
    {
        let vl = self.visual_line();
        vl >= self.lines_scrolled && vl - self.lines_scrolled >= self.height
    }

    /// Whether rows past the end of the buffer are shown.
    fn scrolled_past_bottom(&self) -> (r: bool)
        requires
            self.paras_ok(),
            num_visual_lines_of(self.paras()) > self.spec_height(),
        ensures
            r == (self.scroll() > num_visual_lines_of(self.paras()) - self.spec_height()),
    {
        self.lines_scrolled > self.num_visual_lines() - self.height
    }

    /// Scrolls so that the cursor is on the top row.
    fn scroll_cursor_to_top(&mut self)
        requires
            old(self).paras_ok(),
            old(self).pos_ok(),
        ensures
            final(self).scroll() == visual_line_of(old(self).paras(), old(self).pos().0, old(self).pos().1),
            final(self).paras() == old(self).paras(),
            final(self).pos() == old(self).pos(),
            final(self).paras_ok(),
            final(self).spec_height() == old(self).spec_height(),
            final(self).spec_width() == old(self).spec_width(),
    {
        self.lines_scrolled = self.visual_line();
    }

    /// Scrolls so that the cursor is on the bottom row.
    fn scroll_cursor_to_bottom(&mut self)
        requires
            old(self).paras_ok(),
            old(self).pos_ok(),
            visual_line_of(old(self).paras(), old(self).pos().0, old(self).pos().1) + 1 >= old(self).spec_height(),
        ensures
            final(self).scroll() == visual_line_of(old(self).paras(), old(self).pos().0, old(self).pos().1) - old(self).spec_height() + 1,
            final(self).paras() == old(self).paras(),
            final(self).pos() == old(self).pos(),
            final(self).paras_ok(),
            final(self).spec_height() == old(self).spec_height(),
            final(self).spec_width() == old(self).spec_width(),
    {
        proof {
            self.lemma_paras_ok();
        }
        self.lines_scrolled = self.visual_line() + 1 - self.height;
    }

    /// Scrolls to the cursor, as [`adjusted`] says.
    fn adjust_scroll(&mut self)
        requires
            old(self).paras_ok(),
            old(self).pos_ok(),
            old(self).spec_height() >= 1,
        ensures
            final(self).wf(),
            final(self).scroll() == adjusted(old(self).paras(), old(self).pos().0, old(self).pos().1, old(self).scroll(), old(self).spec_height()),
            final(self).paras() == old(self).paras(),
            final(self).pos() == old(self).pos(),
            final(self).spec_height() == old(self).spec_height(),
            final(self).spec_width() == old(self).spec_width(),
    {
        proof {
            lemma_adjusted(self.paras(), self.pos().0, self.pos().1, self.scroll(), self.spec_height());
        }
        if self.can_entire_document_fit_on_screen() {
            self.lines_scrolled = 0;
        } else {
            if self.cursor_above_top() {
                self.scroll_cursor_to_top();
            } else if self.cursor_below_bottom() {
                self.scroll_cursor_to_bottom();
            }
            if self.scrolled_past_bottom() {
                self.lines_scrolled = self.num_visual_lines() - self.height;
            }
        }
    }

    /// The display width of the cursor's line up to the cursor.
    fn visual_column(&self) -> (r: usize)
        requires
            self.paras_ok(),
            self.pos_ok(),
        ensures
            r as nat == width_of(joined(self.paras()[self.pos().0][self.pos().1].take(self.pos().2))),
    {
        proof {
            assert(self.paras()[self.pos().0] == self.buffer@[self.pos().0]@);
        }
        let line = self.buffer[self.para_idx].line(self.line);
        let before_cursor = line.slice(..self.column);
        proof {
            assert(before_cursor@ =~= self.paras()[self.pos().0][self.pos().1].take(self.pos().2));
        }
        before_cursor.width()
    }

    /// The characters of paragraph `p`.
    pub open spec fn para_text(&self, p: int) -> Seq<char> {
        joined(line_texts(self.paras()[p]))
    }

    fn at_start_of_line(&self) -> (r: bool)
        ensures
            r == (self.pos().2 == 0),
    {
        self.column == 0
    }

    fn at_end_of_line(&self) -> (r: bool)
        requires
            self.paras_ok(),
            self.pos_ok(),
        ensures
            r == (self.pos().2 == self.paras()[self.pos().0][self.pos().1].len()),
    {
        proof {
            assert(self.paras()[self.pos().0] == self.buffer@[self.pos().0]@);
        }
        self.buffer[self.para_idx].line(self.line).len() == self.column
    }

    fn at_first_line_of_para(&self) -> (r: bool)
        ensures
            r == (self.pos().1 == 0),
    {
        self.line == 0
    }

    fn at_last_line_of_para(&self) -> (r: bool)
        requires
            self.paras_ok(),
            self.pos_ok(),
        ensures
            r == (self.pos().1 == self.paras()[self.pos().0].len() - 1),
    {
        proof {
            assert(self.paras()[self.pos().0] == self.buffer@[self.pos().0]@);
        }
        self.line == self.buffer[self.para_idx].num_lines() - 1
    }

    fn at_first_para(&self) -> (r: bool)
        ensures
            r == (self.pos().0 == 0),
    {
        self.para_idx == 0
    }

    fn at_last_para(&self) -> (r: bool)
        requires
            self.paras_ok(),
        ensures
            r == (self.pos().0 == self.paras().len() - 1),
    {
        self.para_idx == self.buffer.len() - 1
    }

    fn at_first_line(&self) -> (r: bool)
        ensures
            r == (self.pos().0 == 0 && self.pos().1 == 0),
    {
        self.at_first_line_of_para() && self.at_first_para()
    }

    fn at_last_line(&self) -> (r: bool)
        requires
            self.paras_ok(),
            self.pos_ok(),
        ensures
            r == (self.pos().0 == self.paras().len() - 1 && self.pos().1 == self.paras()[self.pos().0].len() - 1),
    {
        self.at_last_line_of_para() && self.at_last_para()
    }

    fn at_start_of_para(&self) -> (r: bool)
        ensures
            r == (self.pos().1 == 0 && self.pos().2 == 0),
    {
        self.at_first_line_of_para() && self.at_start_of_line()
    }

    fn at_start_of_buffer(&self) -> (r: bool)
        ensures
            r == (self.pos().0 == 0 && self.pos().1 == 0 && self.pos().2 == 0),
    {
        self.at_first_line() && self.at_start_of_line()
    }

    fn at_end_of_buffer(&self) -> (r: bool)
        requires
            self.paras_ok(),
            self.pos_ok(),
        ensures
            r == (self.pos().0 == self.paras().len() - 1 && self.pos().1 == self.paras()[self.pos().0].len() - 1
                && self.pos().2 == self.paras()[self.pos().0][self.pos().1].len()),
    {
        self.at_last_line() && self.at_end_of_line()
    }

    /// Moves the cursor to the end of its line.
    fn move_to_end_of_line(&mut self)
        requires
            old(self).paras_ok(),
            0 <= old(self).pos().0 < old(self).paras().len(),
            0 <= old(self).pos().1 < old(self).paras()[old(self).pos().0].len(),
        ensures
            final(self).pos() == (old(self).pos().0, old(self).pos().1, old(self).paras()[old(self).pos().0][old(self).pos().1].len() as int),
            final(self).paras() == old(self).paras(),
            final(self).paras_ok(),
            final(self).scroll() == old(self).scroll(),
            final(self).spec_height() == old(self).spec_height(),
            final(self).spec_width() == old(self).spec_width(),
    {
        proof {
            assert(self.paras()[self.pos().0] == self.buffer@[self.pos().0]@);
        }
        self.column = self.buffer[self.para_idx].line(self.line).len();
    }

    /// Moves the cursor to the last line of its paragraph.
    fn move_to_last_line_of_para(&mut self)
        requires
            old(self).paras_ok(),
            0 <= old(self).pos().0 < old(self).paras().len(),
        ensures
            final(self).pos() == (old(self).pos().0, old(self).paras()[old(self).pos().0].len() - 1, old(self).pos().2),
            final(self).paras() == old(self).paras(),
            final(self).paras_ok(),
            final(self).scroll() == old(self).scroll(),
            final(self).spec_height() == old(self).spec_height(),
            final(self).spec_width() == old(self).spec_width(),
    {
        proof {
            self.lemma_paras_ok();
            assert(self.paras()[self.pos().0] == self.buffer@[self.pos().0]@);
        }
        self.line = self.buffer[self.para_idx].num_lines() - 1;
    }

    /// Moves the cursor to the end of its paragraph.
    fn move_to_end_of_para(&mut self)
        requires
            old(self).paras_ok(),
            0 <= old(self).pos().0 < old(self).paras().len(),
        ensures
            final(self).pos() == (old(self).pos().0, old(self).paras()[old(self).pos().0].len() - 1,
                old(self).paras()[old(self).pos().0].last().len() as int),
            final(self).paras() == old(self).paras(),
            final(self).paras_ok(),
            final(self).scroll() == old(self).scroll(),
            final(self).spec_height() == old(self).spec_height(),
            final(self).spec_width() == old(self).spec_width(),
    {
        proof {
            self.lemma_paras_ok();
        }
        self.move_to_last_line_of_para();
        self.move_to_end_of_line();
    }

    /// Clamps the column to the length of the cursor's line.
    fn clamp(&mut self)
        requires
            old(self).paras_ok(),
            0 <= old(self).pos().0 < old(self).paras().len(),
            0 <= old(self).pos().1 < old(self).paras()[old(self).pos().0].len(),
        ensures
            final(self).pos() == (old(self).pos().0, old(self).pos().1, if old(self).pos().2 <= old(self).paras()[old(self).pos().0][old(self).pos().1].len() {
                old(self).pos().2
            } else {
                old(self).paras()[old(self).pos().0][old(self).pos().1].len() as int
            }),
            final(self).paras() == old(self).paras(),
            final(self).paras_ok(),
            final(self).pos_ok(),
            final(self).scroll() == old(self).scroll(),
            final(self).spec_height() == old(self).spec_height(),
            final(self).spec_width() == old(self).spec_width(),
    {
        proof {
            assert(self.paras()[self.pos().0] == self.buffer@[self.pos().0]@);
        }
        let len = self.buffer[self.para_idx].line(self.line).len();
        if self.column > len {
            self.column = len;
        }
    }

    /// The cursor's position within its paragraph, in clusters.
    fn save_para_cursor_idx(&self) -> (r: usize)
        requires
            self.paras_ok(),
            self.pos_ok(),
        ensures
            r == self.para_cursor_idx(),
            r <= total_len(self.paras()[self.pos().0]),
    {
        proof {
            assert(self.paras()[self.pos().0] == self.buffer@[self.pos().0]@);
            lemma_idx_of_bound(self.paras()[self.pos().0], self.pos().1, self.pos().2);
        }
        self.buffer[self.para_idx].idx_of_coords(self.line, self.column)
    }

    /// Puts the cursor at position `idx` of its paragraph, or at the end of
    /// the paragraph when it holds fewer clusters, and scrolls to it.
    fn restore_para_cursor_pos(&mut self, para_cursor_idx: usize)
        requires
            old(self).paras_ok(),
            0 <= old(self).pos().0 < old(self).paras().len(),
            old(self).spec_height() >= 1,
        ensures
            final(self).wf(),
            final(self).paras() == old(self).paras(),
            ({
                let v = old(self).paras()[old(self).pos().0];
                let k = if para_cursor_idx <= total_len(v) { para_cursor_idx as int } else { total_len(v) };
                &&& final(self).pos() == (old(self).pos().0, coords_of(v, k).0, coords_of(v, k).1)
                &&& final(self).para_cursor_idx() == k
            }),
            final(self).scroll() == adjusted(final(self).paras(), final(self).pos().0, final(self).pos().1, old(self).scroll(), old(self).spec_height()),
            final(self).spec_height() == old(self).spec_height(),
            final(self).spec_width() == old(self).spec_width(),
    {
        let ghost v = self.paras()[self.pos().0];
        proof {
            self.lemma_paras_ok();
            assert(v == self.buffer@[self.pos().0]@);
        }
        let para = &self.buffer[self.para_idx];
        let last = para.num_lines() - 1;
        let total = para.idx_of_coords(last, para.line(last).len());
        proof {
            assert(total_len(v) == idx_of(v, last as int, v[last as int].len() as int));
        }
        let idx = if para_cursor_idx <= total {
            para_cursor_idx
        } else {
            total
        };
        let (line, column) = para.coords_of_idx(idx);
        proof {
            lemma_coords_of(v, idx as int);
        }
        self.line = line;
        self.column = column;
        self.adjust_scroll();
    }

    /// Rewraps the cursor's paragraph and puts the cursor at position `idx`
    /// of it.
    fn rewrap_para_at(&mut self, para_cursor_idx: usize)
        requires
            old(self).buffer@.len() >= 1,
            0 <= old(self).pos().0 < old(self).buffer@.len(),
            forall|i: int| 0 <= i < old(self).buffer@.len() && i != old(self).pos().0 ==> (#[trigger] old(self).buffer@[i]).wf(),
            old(self).buffer@[old(self).pos().0].lines_wf(),
            size(old(self).paras()) <= usize::MAX,
            old(self).spec_height() >= 1,
        ensures
            final(self).wf(),
            ({
                let p = old(self).pos().0;
                let nv = wrapped_para(old(self).para_text(p), old(self).spec_width());
                let k = if para_cursor_idx <= total_len(nv) { para_cursor_idx as int } else { total_len(nv) };
                &&& final(self).paras() == old(self).paras().update(p, nv)
                &&& final(self).pos() == (p, coords_of(nv, k).0, coords_of(nv, k).1)
                &&& final(self).para_cursor_idx() == k
            }),
            final(self).scroll() == adjusted(final(self).paras(), final(self).pos().0, final(self).pos().1, old(self).scroll(), old(self).spec_height()),
            final(self).spec_height() == old(self).spec_height(),
            final(self).spec_width() == old(self).spec_width(),
    {
        let ghost ps = self.paras();
        let ghost p = self.pos().0;
        let mut para = self.buffer.remove(self.para_idx);
        para.rewrap(self.width);
        self.buffer.insert(self.para_idx, para);
        proof {
            assert(self.paras() =~= ps.update(p, wrapped_para(old(self).para_text(p), old(self).spec_width())));
            lemma_size_update(ps, p, self.paras()[p], ps.len() as int);
            assert forall|i: int| 0 <= i < self.buffer@.len() implies (#[trigger] self.buffer@[i]).wf() by {
                if i != p {
                    assert(self.buffer@[i] == old(self).buffer@[i]);
                }
            }
        }
        self.restore_para_cursor_pos(para_cursor_idx);
    }

    /// Rewraps the cursor's paragraph, keeping the cursor's position within
    /// it.
    fn rewrap_current_para(&mut self)
        requires
            old(self).paras_ok(),
            old(self).pos_ok(),
            old(self).spec_height() >= 1,
        ensures
            final(self).wf(),
            ({
                let p = old(self).pos().0;
                let nv = wrapped_para(old(self).para_text(p), old(self).spec_width());
                let idx = old(self).para_cursor_idx();
                let k = if idx <= total_len(nv) { idx } else { total_len(nv) };
                &&& final(self).paras() == old(self).paras().update(p, nv)
                &&& final(self).pos() == (p, coords_of(nv, k).0, coords_of(nv, k).1)
                &&& final(self).para_cursor_idx() == k
            }),
            final(self).scroll() == adjusted(final(self).paras(), final(self).pos().0, final(self).pos().1, old(self).scroll(), old(self).spec_height()),
            final(self).spec_height() == old(self).spec_height(),
            final(self).spec_width() == old(self).spec_width(),
    {
        let para_cursor_idx = self.save_para_cursor_idx();
        self.rewrap_para_at(para_cursor_idx);
    }

    /// Moves the cursor up a line; on the first line, to its start. The
    /// column is clamped to the new line.
    pub fn move_up(&mut self)
        requires
            old(self).wf(),
        ensures
            final(self).wf(),
            final(self).paras() == old(self).paras(),
            final(self).spec_height() == old(self).spec_height(),
            final(self).spec_width() == old(self).spec_width(),
            ({
                let ps = old(self).paras();
                let (p, l, c) = old(self).pos();
                if p == 0 && l == 0 {
                    final(self).pos() == (0int, 0int, 0int) && final(self).scroll() == old(self).scroll()
                } else {
                    let (p2, l2) = prev_line(ps, p, l);
                    let c2 = if c <= ps[p2][l2].len() { c } else { ps[p2][l2].len() as int };
                    final(self).pos() == (p2, l2, c2) && final(self).scroll() == adjusted(ps, p2, l2, old(self).scroll(), old(self).spec_height())
                }
            }),
    {
        proof {
            self.lemma_paras_ok();
        }
        if self.at_first_line() {
            self.column = 0;
            return;
        }
        if self.at_first_line_of_para() {
            self.para_idx = self.para_idx - 1;
            self.move_to_last_line_of_para();
        } else {
            self.line = self.line - 1;
        }
        self.clamp();
        self.adjust_scroll();
    }

    /// Moves the cursor down a line; on the last line, to its end. The
    /// column is clamped to the new line.
    pub fn move_down(&mut self)
        requires
            old(self).wf(),
        ensures
            final(self).wf(),
            final(self).paras() == old(self).paras(),
            final(self).spec_height() == old(self).spec_height(),
            final(self).spec_width() == old(self).spec_width(),
            ({
                let ps = old(self).paras();
                let (p, l, c) = old(self).pos();
                if p == ps.len() - 1 && l == ps[p].len() - 1 {
                    final(self).pos() == (p, l, ps[p][l].len() as int) && final(self).scroll() == old(self).scroll()
                } else {
                    let (p2, l2) = next_line(ps, p, l);
                    let c2 = if c <= ps[p2][l2].len() { c } else { ps[p2][l2].len() as int };
                    final(self).pos() == (p2, l2, c2) && final(self).scroll() == adjusted(ps, p2, l2, old(self).scroll(), old(self).spec_height())
                }
            }),
    {
        proof {
            self.lemma_paras_ok();
        }
        if self.at_last_line() {
            self.move_to_end_of_line();
            return;
        }
        let _num_paras = self.buffer.len();
        if self.at_last_line_of_para() {
            self.para_idx = self.para_idx + 1;
            self.line = 0;
        } else {
            self.line = self.line + 1;
        }
        self.clamp();
        self.adjust_scroll();
    }

    /// Moves the cursor one cluster left; at the start of a line, to the end
    /// of the line before it.
    pub fn move_left(&mut self)
        requires
            old(self).wf(),
        ensures
            final(self).wf(),
            final(self).paras() == old(self).paras(),
            final(self).spec_height() == old(self).spec_height(),
            final(self).spec_width() == old(self).spec_width(),
            ({
                let ps = old(self).paras();
                let (p, l, c) = old(self).pos();
                if p == 0 && l == 0 && c == 0 {
                    final(self).pos() == old(self).pos() && final(self).scroll() == old(self).scroll()
                } else if c == 0 {
                    let (p2, l2) = prev_line(ps, p, l);
                    final(self).pos() == (p2, l2, ps[p2][l2].len() as int) && final(self).scroll() == adjusted(ps, p2, l2, old(self).scroll(), old(self).spec_height())
                } else {
                    final(self).pos() == (p, l, c - 1) && final(self).scroll() == old(self).scroll()
                }
            }),
    {
        if self.at_start_of_buffer() {
            return;
        }
        if self.at_start_of_line() {
            self.move_up();
            self.move_to_end_of_line();
            return;
        }
        self.column = self.column - 1;
    }

    /// Moves the cursor one cluster right; at the end of a line, to the start
    /// of the line after it.
    pub fn move_right(&mut self)
        requires
            old(self).wf(),
        ensures
            final(self).wf(),
            final(self).paras() == old(self).paras(),
            final(self).spec_height() == old(self).spec_height(),
            final(self).spec_width() == old(self).spec_width(),
            ({
                let ps = old(self).paras();
                let (p, l, c) = old(self).pos();
                if p == ps.len() - 1 && l == ps[p].len() - 1 && c == ps[p][l].len() {
                    final(self).pos() == old(self).pos() && final(self).scroll() == old(self).scroll()
                } else if c == ps[p][l].len() {
                    let (p2, l2) = next_line(ps, p, l);
                    final(self).pos() == (p2, l2, 0int) && final(self).scroll() == adjusted(ps, p2, l2, old(self).scroll(), old(self).spec_height())
                } else {
                    final(self).pos() == (p, l, c + 1) && final(self).scroll() == old(self).scroll()
                }
            }),
    {
        if self.at_end_of_buffer() {
            return;
        }
        if self.at_end_of_line() {
            self.move_down();
            self.column = 0;
            return;
        }
        proof {
            assert(self.paras()[self.pos().0] == self.buffer@[self.pos().0]@);
        }
        let _len = self.buffer[self.para_idx].line(self.line).len();
        self.column = self.column + 1;
    }

    /// Inserts `s` at the cursor, moves the cursor past it and rewraps the
    /// paragraph.
    pub fn add(&mut self, s: &str)
        requires
            old(self).wf(),
            size(old(self).paras()) + s@.len() <= usize::MAX,
        ensures
            final(self).wf(),
            final(self).spec_height() == old(self).spec_height(),
            final(self).spec_width() == old(self).spec_width(),
            ({
                let (p, l, c) = old(self).pos();
                let v = old(self).paras()[p];
                let nv = wrapped_para(inserted_text(v, l, c, s@), old(self).spec_width());
                let idx = old(self).para_cursor_idx() + graphemes_of(s@).len();
                let k = if idx <= total_len(nv) { idx } else { total_len(nv) };
                &&& final(self).paras() == old(self).paras().update(p, nv)
                &&& final(self).pos() == (p, coords_of(nv, k).0, coords_of(nv, k).1)
                &&& final(self).para_cursor_idx() == k
                &&& final(self).scroll() == adjusted(final(self).paras(), p, final(self).pos().1, old(self).scroll(), old(self).spec_height())
            }),
    {
        let ghost ps = self.paras();
        let ghost p = self.pos().0;
        let ghost v = ps[p];
        proof {
            self.lemma_paras_ok();
            assert(v == self.buffer@[p]@);
        }
        let idx = self.save_para_cursor_idx();
        let mut para = self.buffer.remove(self.para_idx);
        para.insert(s, self.line, self.column);
        let ghost nv0 = para@;
        self.buffer.insert(self.para_idx, para);
        let text = Text::new(s);
        let n = text.len();
        proof {
            let l = self.pos().1;
            let c = self.pos().2;
            text.lemma_wf();
            lemma_count_le_chars(text@);
            lemma_text_around_line(v, l);
            lemma_text_around_line(nv0, l);
            assert(line_texts(nv0).take(l) =~= line_texts(v).take(l));
            assert(line_texts(nv0).skip(l + 1) =~= line_texts(v).skip(l + 1));
            assert(joined(line_texts(nv0)) =~= inserted_text(v, l, c, s@));
            lemma_joined_split(v[l], c);
            assert(self.paras() =~= ps.update(p, nv0));
            lemma_size_update(ps, p, nv0, ps.len() as int);
            assert forall|i: int| 0 <= i < self.buffer@.len() && i != p implies (#[trigger] self.buffer@[i]).wf() by {
                assert(self.buffer@[i] == old(self).buffer@[i]);
            }
        }
        self.rewrap_para_at(idx + n);
    }

    /// Joins the cursor's paragraph onto the one before it, with the cursor
    /// at the join.
    fn join_paras(&mut self)
        requires
            old(self).wf(),
            old(self).pos().0 > 0,
        ensures
            final(self).wf(),
            final(self).spec_height() == old(self).spec_height(),
            final(self).spec_width() == old(self).spec_width(),
            ({
                let ps = old(self).paras();
                let p = old(self).pos().0;
                let nv = wrapped_para(old(self).para_text(p - 1) + old(self).para_text(p), old(self).spec_width());
                let idx = total_len(ps[p - 1]);
                let k = if idx <= total_len(nv) { idx } else { total_len(nv) };
                &&& final(self).paras() == ps.update(p - 1, nv).remove(p)
                &&& final(self).pos() == (p - 1, coords_of(nv, k).0, coords_of(nv, k).1)
                &&& final(self).scroll() == adjusted(final(self).paras(), p - 1, final(self).pos().1, old(self).scroll(), old(self).spec_height())
            }),
    {
        let ghost ps = self.paras();
        let ghost p = self.pos().0;
        proof {
            self.lemma_paras_ok();
        }
        self.para_idx = self.para_idx - 1;
        self.move_to_end_of_para();
        let idx = self.save_para_cursor_idx();
        let ghost b2 = self.buffer@;
        proof {
            assert(idx == total_len(ps[p - 1]));
        }
        let next = self.buffer.remove(self.para_idx + 1);
        let mut current = self.buffer.remove(self.para_idx);
        proof {
            assert(current@ == ps[p - 1]);
            assert(next@ == ps[p]);
        }
        current.join(next);
        let ghost joined_v = current@;
        self.buffer.insert(self.para_idx, current);
        proof {
            assert(self.paras() =~= ps.update(p - 1, joined_v).remove(p));
            lemma_size_update(ps, p - 1, joined_v, ps.len() as int);
            lemma_size_remove(ps.update(p - 1, joined_v), p);
            assert forall|i: int| 0 <= i < self.buffer@.len() && i != p - 1 implies (#[trigger] self.buffer@[i]).wf() by {
                if i < p - 1 {
                    assert(self.buffer@[i] == b2[i]);
                } else {
                    assert(self.buffer@[i] == b2[i + 1]);
                }
            }
        }
        self.rewrap_para_at(idx);
        proof {
            assert(ps.update(p - 1, joined_v).remove(p).update(p - 1, wrapped_para(old(self).para_text(p - 1) + old(self).para_text(p), old(self).spec_width())) =~= ps.update(p - 1, wrapped_para(old(self).para_text(p - 1) + old(self).para_text(p), old(self).spec_width())).remove(p));
        }
    }

    /// Removes the cluster in the cursor's paragraph just before the cursor
    /// and rewraps the paragraph.
    fn remove_before_cursor(&mut self)
        requires
            old(self).wf(),
            old(self).pos().2 > 0,
        ensures
            final(self).wf(),
            final(self).spec_height() == old(self).spec_height(),
            final(self).spec_width() == old(self).spec_width(),
            ({
                let (p, l, c) = old(self).pos();
                let v = old(self).paras()[p];
                let nv = wrapped_para(removed_text(v, l, c - 1), old(self).spec_width());
                let idx = old(self).para_cursor_idx() - 1;
                let k = if idx <= total_len(nv) { idx } else { total_len(nv) };
                &&& final(self).paras() == old(self).paras().update(p, nv)
                &&& final(self).pos() == (p, coords_of(nv, k).0, coords_of(nv, k).1)
                &&& final(self).para_cursor_idx() == k
                &&& final(self).scroll() == adjusted(final(self).paras(), p, final(self).pos().1, old(self).scroll(), old(self).spec_height())
            }),
    {
        let ghost ps = self.paras();
        let ghost p = self.pos().0;
        let ghost v = ps[p];
        proof {
            self.lemma_paras_ok();
            assert(v == self.buffer@[p]@);
        }
        let idx = self.save_para_cursor_idx();
        let mut para = self.buffer.remove(self.para_idx);
        para.remove(self.line, self.column - 1);
        let ghost nv0 = para@;
        self.buffer.insert(self.para_idx, para);
        self.column = self.column - 1;
        proof {
            let l = self.pos().1;
            let c = self.pos().2;
            lemma_text_around_line(v, l);
            lemma_text_around_line(nv0, l);
            assert(line_texts(nv0).take(l) =~= line_texts(v).take(l));
            assert(line_texts(nv0).skip(l + 1) =~= line_texts(v).skip(l + 1));
            assert(joined(line_texts(nv0)) =~= removed_text(v, l, c));
            lemma_joined_split(v[l], c);
            lemma_joined_split(v[l], c + 1);
            lemma_joined_take_next(v[l], c);
            assert(self.paras() =~= ps.update(p, nv0));
            lemma_size_update(ps, p, nv0, ps.len() as int);
            assert forall|i: int| 0 <= i < self.buffer@.len() && i != p implies (#[trigger] self.buffer@[i]).wf() by {
                assert(self.buffer@[i] == old(self).buffer@[i]);
            }
        }
        proof {
            lemma_lens_before_mono(v, 0, self.pos().1);
        }
        self.rewrap_para_at(idx - 1);
    }

    /// Deletes the cluster before the cursor. At the start of a paragraph,
    /// joins it onto the one before; at the start of any other line, steps
    /// to the end of the line before first.
    pub fn backspace(&mut self)
        requires
            old(self).wf(),
        ensures
            final(self).wf(),
            final(self).spec_height() == old(self).spec_height(),
            final(self).spec_width() == old(self).spec_width(),
            ({
                let ps = old(self).paras();
                let (p, l, c) = old(self).pos();
                let w = old(self).spec_width();
                let h = old(self).spec_height();
                if p == 0 && l == 0 && c == 0 {
                    final(self).paras() == ps && final(self).pos() == old(self).pos() && final(self).scroll() == old(self).scroll()
                } else if c == 0 && (l == 0 || ps[p][l - 1].len() == 0) {
                    let s0 = if l == 0 { old(self).scroll() } else { adjusted(ps, p, l - 1, old(self).scroll(), h) };
                    if p == 0 {
                        final(self).paras() == ps && final(self).pos() == (0int, 0int, 0int) && final(self).scroll() == s0
                    } else {
                        let nv = wrapped_para(old(self).para_text(p - 1) + old(self).para_text(p), w);
                        let idx = total_len(ps[p - 1]);
                        let k = if idx <= total_len(nv) { idx } else { total_len(nv) };
                        &&& final(self).paras() == ps.update(p - 1, nv).remove(p)
                        &&& final(self).pos() == (p - 1, coords_of(nv, k).0, coords_of(nv, k).1)
                        &&& final(self).scroll() == adjusted(final(self).paras(), p - 1, final(self).pos().1, s0, h)
                    }
                } else {
                    let l2 = if c == 0 { l - 1 } else { l };
                    let c2 = if c == 0 { ps[p][l - 1].len() as int } else { c };
                    let s0 = if c == 0 { adjusted(ps, p, l - 1, old(self).scroll(), h) } else { old(self).scroll() };
                    let nv = wrapped_para(removed_text(ps[p], l2, c2 - 1), w);
                    let idx = idx_of(ps[p], l2, c2) - 1;
                    let k = if idx <= total_len(nv) { idx } else { total_len(nv) };
                    &&& final(self).paras() == ps.update(p, nv)
                    &&& final(self).pos() == (p, coords_of(nv, k).0, coords_of(nv, k).1)
                    &&& final(self).para_cursor_idx() == k
                    &&& final(self).scroll() == adjusted(final(self).paras(), p, final(self).pos().1, s0, h)
                }
            }),
    {
        let ghost l0 = self.pos().1;
        if self.at_start_of_buffer() {
            return;
        }
        if self.at_start_of_para() {
            self.join_paras();
            return;
        }
        if self.at_start_of_line() {
            self.move_up();
            self.move_to_end_of_line();
            proof {
                let q = self.pos().0;
                assert(self.paras()[q] == self.buffer@[q]@);
                if self.pos().2 == 0 && l0 - 1 > 0 {
                    assert(joined(self.paras()[q][l0 - 1]).len() > 0);
                    assert(self.paras()[q][l0 - 1] =~= Seq::<Seq<char>>::empty());
                    assert(joined(Seq::<Seq<char>>::empty()) == Seq::<char>::empty());
                }
            }
            if self.at_start_of_line() {
                // the line stepped onto is an empty first line
                if self.at_first_para() {
                    return;
                }
                self.join_paras();
                return;
            }
        }
        self.remove_before_cursor();
    }

    /// Starts a new paragraph. At the start of a line, an empty paragraph
    /// goes before the cursor's; elsewhere the paragraph is cut at the
    /// cursor and the cursor moves to the start of the second half.
    pub fn enter(&mut self)
        requires
            old(self).wf(),
            size(old(self).paras()) + 2 <= usize::MAX,
        ensures
            final(self).wf(),
            final(self).spec_height() == old(self).spec_height(),
            final(self).spec_width() == old(self).spec_width(),
            final(self).pos() == (old(self).pos().0 + 1, 0int, 0int),
            final(self).scroll() == adjusted(final(self).paras(), old(self).pos().0 + 1, 0, old(self).scroll(), old(self).spec_height()),
            ({
                let ps = old(self).paras();
                let (p, l, c) = old(self).pos();
                if c == 0 {
                    final(self).paras() == ps.insert(p, seq![Seq::<Seq<char>>::empty()])
                } else {
                    let v = ps[p];
                    let first = v.take(l).push(v[l].take(c));
                    let second = seq![v[l].skip(c)] + v.skip(l + 1);
                    final(self).paras() == ps.update(p, first).insert(p + 1, wrapped_para(joined(line_texts(second)), old(self).spec_width()))
                }
            }),
    {
        let ghost ps = self.paras();
        let ghost p = self.pos().0;
        proof {
            self.lemma_paras_ok();
        }
        let _num_paras = self.buffer.len();
        if self.at_start_of_line() {
            let para = Paragraph::new();
            let ghost pv = para@;
            self.buffer.insert(self.para_idx, para);
            self.line = 0;
            self.para_idx = self.para_idx + 1;
            proof {
                assert(self.paras() =~= ps.insert(p, pv));
                lemma_size_insert(ps, p, pv, ps.len() + 1int);
                lemma_joined_single(Seq::<char>::empty());
                assert(line_texts(pv) =~= seq![Seq::<char>::empty()]);
                assert forall|i: int| 0 <= i < self.buffer@.len() implies (#[trigger] self.buffer@[i]).wf() by {
                    if i < p {
                        assert(self.buffer@[i] == old(self).buffer@[i]);
                    } else if i > p {
                        assert(self.buffer@[i] == old(self).buffer@[i - 1]);
                    }
                }
                assert(self.paras()[p + 1] == ps[p]);
            }
            self.adjust_scroll();
            return;
        }
        let mut current = self.buffer.remove(self.para_idx);
        proof {
            assert(current@ == ps[p]);
        }
        let after_cursor = current.split_off(self.line, self.column);
        let ghost first = current@;
        let ghost second = after_cursor@;
        self.buffer.insert(self.para_idx, current);
        self.buffer.insert(self.para_idx + 1, after_cursor);
        self.line = 0;
        self.column = 0;
        self.para_idx = self.para_idx + 1;
        proof {
            assert(self.paras() =~= ps.update(p, first).insert(p + 1, second));
            lemma_size_update(ps, p, first, ps.len() as int);
            lemma_size_insert(ps.update(p, first), p + 1, second, ps.len() + 1int);
            assert forall|i: int| 0 <= i < self.buffer@.len() implies (#[trigger] self.buffer@[i]).wf() by {
                if i < p {
                    assert(self.buffer@[i] == old(self).buffer@[i]);
                } else if i > p + 1 {
                    assert(self.buffer@[i] == old(self).buffer@[i - 1]);
                }
            }
            assert(self.paras()[p + 1] == second);
            assert(second.len() >= 1);
        }
        self.rewrap_current_para();
        proof {
            let nv = wrapped_para(joined(line_texts(second)), old(self).spec_width());
            assert(idx_of(second, 0, 0) == 0);
            assert(coords_of(nv, 0) == (0int, 0int));
        }
    }

    /// The paragraphs rewrapped at `width`, with their characters kept.
    pub open spec fn rewrapped(&self, width: int) -> Paras {
        Seq::new(self.paras().len(), |i: int| wrapped_para(self.para_text(i), width))
    }

    /// Rewraps every paragraph, keeping the cursor's position within its
    /// paragraph.
    fn rewrap(&mut self)
        requires
            old(self).paras_ok(),
            old(self).pos_ok(),
            old(self).spec_height() >= 1,
        ensures
            final(self).wf(),
            final(self).paras() == old(self).rewrapped(old(self).spec_width()),
            ({
                let p = old(self).pos().0;
                let nv = final(self).paras()[p];
                let idx = old(self).para_cursor_idx();
                let k = if idx <= total_len(nv) { idx } else { total_len(nv) };
                &&& final(self).pos() == (p, coords_of(nv, k).0, coords_of(nv, k).1)
                &&& final(self).para_cursor_idx() == k
            }),
            final(self).scroll() == adjusted(final(self).paras(), final(self).pos().0, final(self).pos().1, old(self).scroll(), old(self).spec_height()),
            final(self).spec_height() == old(self).spec_height(),
            final(self).spec_width() == old(self).spec_width(),
    {
        let ghost ps = self.paras();
        let ghost target = self.rewrapped(self.spec_width());
        let para_cursor_idx = self.save_para_cursor_idx();
        let mut i: usize = 0;
        while i < self.buffer.len()
            invariant
                self.buffer@.len() == ps.len(),
                ps.len() >= 1,
                i <= ps.len(),
                0 <= self.pos().0 < ps.len(),
                self.spec_height() >= 1,
                self.spec_height() == old(self).spec_height(),
                self.spec_width() == old(self).spec_width(),
                self.pos() == old(self).pos(),
                self.scroll() == old(self).scroll(),
                target == old(self).rewrapped(old(self).spec_width()),
                ps == old(self).paras(),
                forall|j: int| 0 <= j < ps.len() ==> (#[trigger] self.buffer@[j]).wf(),
                forall|j: int| 0 <= j < i ==> #[trigger] self.paras()[j] == target[j],
                forall|j: int| i <= j < ps.len() ==> #[trigger] self.paras()[j] == ps[j],
                forall|j: int| 0 <= j < ps.len() ==> para_chars(self.paras(), j) == para_chars(ps, j),
            decreases ps.len() - i,
        {
            let ghost b0 = self.buffer@;
            let ghost pv0 = self.paras();
            proof {
                assert(self.paras()[i as int] == self.buffer@[i as int]@);
            }
            let mut para = self.buffer.remove(i);
            proof {
                assert(para@ == ps[i as int]);
            }
            para.rewrap(self.width);
            self.buffer.insert(i, para);
            i = i + 1;
            proof {
                assert forall|j: int| 0 <= j < ps.len() implies (#[trigger] self.buffer@[j]).wf() by {
                    if j != i - 1 {
                        assert(self.buffer@[j] == b0[j]);
                    }
                }
                assert forall|j: int| 0 <= j < ps.len() && j != i - 1 implies #[trigger] self.paras()[j] == b0[j]@ by {
                    assert(self.buffer@[j] == b0[j]);
                }
                assert(self.paras()[i - 1] == self.buffer@[i - 1]@);
                assert(target[i - 1] == wrapped_para(old(self).para_text(i - 1), old(self).spec_width()));
                assert forall|j: int| 0 <= j < i implies #[trigger] self.paras()[j] == target[j] by {
                    if j < i - 1 {
                        assert(self.paras()[j] == b0[j]@);
                        assert(pv0[j] == b0[j]@);
                    }
                }
                assert forall|j: int| i <= j < ps.len() implies #[trigger] self.paras()[j] == ps[j] by {
                    assert(self.paras()[j] == b0[j]@);
                    assert(pv0[j] == b0[j]@);
                    assert(pv0[j] == ps[j]);
                }
                assert forall|j: int| 0 <= j < ps.len() implies para_chars(self.paras(), j) == para_chars(ps, j) by {
                    if j != i - 1 {
                        assert(self.paras()[j] == b0[j]@);
                    }
                }
            }
        }
        proof {
            assert(self.paras() =~= target);
            lemma_size_same_chars(self.paras(), ps, ps.len() as int);
            assert(self.paras_ok());
        }
        self.restore_para_cursor_pos(para_cursor_idx);
    }

    /// Changes the width that lines wrap at and rewraps everything.
    pub fn resize_width(&mut self, width: usize)
        requires
            old(self).wf(),
        ensures
            final(self).wf(),
            final(self).spec_width() == width,
            final(self).spec_height() == old(self).spec_height(),
            final(self).paras() == old(self).rewrapped(width as int),
            ({
                let p = old(self).pos().0;
                let nv = final(self).paras()[p];
                let idx = old(self).para_cursor_idx();
                let k = if idx <= total_len(nv) { idx } else { total_len(nv) };
                &&& final(self).pos() == (p, coords_of(nv, k).0, coords_of(nv, k).1)
                &&& final(self).para_cursor_idx() == k
            }),
            final(self).scroll() == adjusted(final(self).paras(), final(self).pos().0, final(self).pos().1, old(self).scroll(), old(self).spec_height()),
    {
        self.width = width;
        self.rewrap();
    }

    /// Changes the number of rows on screen.
    pub fn resize_height(&mut self, height: usize)
        requires
            old(self).wf(),
            height >= 1,
        ensures
            final(self).wf(),
            final(self).spec_height() == height,
            final(self).spec_width() == old(self).spec_width(),
            final(self).paras() == old(self).paras(),
            final(self).pos() == old(self).pos(),
            final(self).scroll() == adjusted(old(self).paras(), old(self).pos().0, old(self).pos().1, old(self).scroll(), height as int),
    {
        self.height = height;
        self.adjust_scroll();
    }

    /// The cursor on screen: its row after scrolling and its display column.
    pub fn cursor(&self) -> (r: (usize, usize))
        requires
            self.wf(),
        ensures
            r.0 == visual_line_of(self.paras(), self.pos().0, self.pos().1) - self.scroll(),
            r.1 as nat == width_of(joined(self.paras()[self.pos().0][self.pos().1].take(self.pos().2))),
    {
        (self.visual_line() - self.lines_scrolled, self.visual_column())
    }

    /// Every row of the buffer, before scrolling.
    fn render_entire_buffer(&self) -> (r: Vec<&str>)
        requires
            self.paras_ok(),
        ensures
            r@.map_values(|t: &str| t@) == visual_lines(self.paras()),
    {
        let ghost ps = self.paras();
        let mut out: Vec<&str> = Vec::new();
        let mut i: usize = 0;
        proof {
            reveal_strlit("");
            assert(ps.take(0) =~= Seq::<Seq<Seq<Seq<char>>>>::empty());
            assert(out@.map_values(|t: &str| t@) =~= visual_lines(ps.take(0)));
        }
        while i < self.buffer.len()
            invariant
                self.paras_ok(),
                ps == self.paras(),
                i <= ps.len(),
                out@.map_values(|t: &str| t@) == visual_lines(ps.take(i as int)),
            decreases ps.len() - i,
        {
            proof {
                assert(ps.take(i + 1).drop_last() =~= ps.take(i as int));
                assert(ps[i as int] == self.buffer@[i as int]@);
            }
            if i > 0 {
                proof {
                    reveal_strlit("");
                }
                out.push("");
                proof {
                    assert(""@ =~= Seq::<char>::empty());
                }
            }
            let ghost before = out@.map_values(|t: &str| t@);
            let para = &self.buffer[i];
            proof {
                assert(self.buffer@[i as int].wf());
            }
            let mut j: usize = 0;
            while j < para.num_lines()
                invariant
                    self.paras_ok(),
                    ps == self.paras(),
                    i < ps.len(),
                    i < self.buffer@.len(),
                    para.lines_wf(),
                    para == &self.buffer@[i as int],
                    ps[i as int] == para@,
                    j <= ps[i as int].len(),
                    out@.map_values(|t: &str| t@) == before + line_texts(ps[i as int]).take(j as int),
                decreases ps[i as int].len() - j,
            {
                proof {
                    para.lemma_lines_wf();
                }
                let line = para.line(j).as_str();
                let ghost prev = out@;
                out.push(line);
                j = j + 1;
                proof {
                    assert(out@.map_values(|t: &str| t@).last() == line@);
                    assert(out@.map_values(|t: &str| t@).drop_last() =~= prev.map_values(|t: &str| t@));
                    assert(line_texts(ps[i as int])[j - 1] == line@);
                    assert(line_texts(ps[i as int]).take(j as int) =~= line_texts(ps[i as int]).take(j - 1).push(line@));
                    assert(out@.map_values(|t: &str| t@) =~= prev.map_values(|t: &str| t@).push(line@));
                    assert(before + line_texts(ps[i as int]).take(j as int) =~= (before + line_texts(ps[i as int]).take(j - 1)).push(line@));
                }
                proof {
                    assert(out@.map_values(|t: &str| t@) =~= before + line_texts(ps[i as int]).take(j as int));
                }
            }
            i = i + 1;
            proof {
                assert(line_texts(ps[i - 1]).take(ps[i - 1].len() as int) =~= line_texts(ps[i - 1]));
                if i == 1 {
                    assert(ps.take(1) =~= seq![ps[0]]);
                    assert(before =~= Seq::<Seq<char>>::empty());
                    assert(out@.map_values(|t: &str| t@) =~= visual_lines(ps.take(i as int)));
                } else {
                    assert(ps.take(i as int).last() == ps[i - 1]);
                    assert(out@.map_values(|t: &str| t@) =~= visual_lines(ps.take(i as int)));
                }
            }
        }
        proof {
            assert(ps.take(ps.len() as int) =~= ps);
        }
        out
    }

    /// The rows on screen: all of them when the buffer fits, else `height`
    /// rows from the scroll offset.
    pub fn render(&self) -> (r: Vec<&str>)
        requires
            self.wf(),
        ensures
            r@.map_values(|t: &str| t@) == if num_visual_lines_of(self.paras()) <= self.spec_height() {
                visual_lines(self.paras())
            } else {
                visual_lines(self.paras()).subrange(self.scroll(), self.scroll() + self.spec_height())
            },
            r@.len() == if num_visual_lines_of(self.paras()) <= self.spec_height() {
                num_visual_lines_of(self.paras())
            } else {
                self.spec_height()
            },
    {
        let lines = self.render_entire_buffer();
        proof {
            lemma_visual_lines_len(self.paras());
        }
        if self.can_entire_document_fit_on_screen() {
            return lines;
        }
        let ghost all = lines@.map_values(|t: &str| t@);
        proof {
            self.lemma_paras_ok();
        }
        let mut out: Vec<&str> = Vec::new();
        let mut i: usize = self.lines_scrolled;
        let end = self.lines_scrolled + self.height;
        while i < end
            invariant
                self.lines_scrolled <= i <= end,
                end == self.lines_scrolled + self.height,
                end <= lines@.len(),
                all == lines@.map_values(|t: &str| t@),
                out@.map_values(|t: &str| t@) == all.subrange(self.lines_scrolled as int, i as int),
            decreases end - i,
        {
            let ghost prev = out@;
            out.push(lines[i]);
            i = i + 1;
            proof {
                assert(all[i - 1] == lines@[i - 1]@);
                assert(out@.map_values(|t: &str| t@).drop_last() =~= prev.map_values(|t: &str| t@));
                assert(out@.map_values(|t: &str| t@) =~= all.subrange(self.lines_scrolled as int, i as int));
            }
        }
        out
    }

    /// The text of the buffer, with a line break between paragraphs.
    pub fn contents(&self) -> (r: String)
        requires
            self.wf(),
        ensures
            r@ == contents_of(Seq::new(self.paras().len(), |i: int| self.para_text(i))),
    {
        let ghost texts = Seq::new(self.paras().len(), |i: int| self.para_text(i));
        let mut out = String::new();
        let mut i: usize = 0;
        proof {
            reveal_strlit("\n");
        }
        while i < self.buffer.len()
            invariant
                self.paras_ok(),
                texts == Seq::new(self.paras().len(), |i: int| self.para_text(i)),
                i <= texts.len(),
                out@ == contents_of(texts.take(i as int)),
            decreases texts.len() - i,
        {
            if i > 0 {
                proof {
                    reveal_strlit("\n");
                    assert("\n"@ =~= seq!['\n']);
                }
                out.append("\n");
            }
            let ghost before = out@;
            let para = &self.buffer[i];
            let n = para.num_lines();
            let mut j: usize = 0;
            proof {
                assert(self.paras()[i as int] == para@);
                assert(self.buffer@[i as int].wf());
                assert(line_texts(para@).take(0) =~= Seq::<Seq<char>>::empty());
            }
            while j < n
                invariant
                    self.paras_ok(),
                    i < self.buffer@.len(),
                    para.lines_wf(),
                    para == &self.buffer@[i as int],
                    self.paras()[i as int] == para@,
                    n == para@.len(),
                    j <= n,
                    out@ == before + joined(line_texts(para@).take(j as int)),
                decreases n - j,
            {
                proof {
                    para.lemma_lines_wf();
                    assert(line_texts(para@).take(j + 1).drop_last() =~= line_texts(para@).take(j as int));
                }
                out.append(para.line(j).as_str());
                j = j + 1;
            }
            i = i + 1;
            proof {
                assert(line_texts(para@).take(n as int) =~= line_texts(para@));
                assert(texts[i - 1] == joined(line_texts(para@)));
                assert(texts.take(i as int).drop_last() =~= texts.take(i - 1));
                if i == 1 {
                    assert(before =~= Seq::<char>::empty());
                }
                assert(out@ =~= contents_of(texts.take(i as int)));
            }
        }
        proof {
            assert(texts.take(texts.len() as int) =~= texts);
        }
        out
    }

    /// The number of characters in paragraph `i`.
    fn para_char_count(&self, i: usize) -> (r: usize)
        requires
            self.paras_ok(),
            i < self.paras().len(),
        ensures
            r == para_chars(self.paras(), i as int),
    {
        proof {
            self.lemma_paras_ok();
            assert(self.paras()[i as int] == self.buffer@[i as int]@);
            assert(self.buffer@[i as int].wf());
        }
        let para = &self.buffer[i];
        let ghost lt = line_texts(para@);
        let n = para.num_lines();
        let mut sum: usize = 0;
        let mut j: usize = 0;
        proof {
            assert(lt.take(0) =~= Seq::<Seq<char>>::empty());
        }
        while j < n
            invariant
                para.lines_wf(),
                lt == line_texts(para@),
                n == para@.len(),
                j <= n,
                sum == joined(lt.take(j as int)).len(),
                joined(lt).len() <= usize::MAX,
            decreases n - j,
        {
            proof {
                para.lemma_lines_wf();
                lemma_joined_take_next(lt, j as int);
                lemma_joined_split(lt, j + 1);
            }
            let len = para.line(j).as_str().unicode_len();
            sum = sum + len;
            j = j + 1;
        }
        proof {
            assert(lt.take(n as int) =~= lt);
        }
        sum
    }

    /// Whether the size measure leaves room for `extra` more: what
    /// [`Editor::add`] asks of the characters it inserts, and
    /// [`Editor::enter`] of a new paragraph.
    pub fn has_room(&self, extra: usize) -> (r: bool)
        requires
            self.wf(),
        ensures
            r == (size(self.paras()) + extra <= usize::MAX),
    {
        let ghost ps = self.paras();
        let n = self.buffer.len();
        let mut total: usize = 0;
        let mut i: usize = 0;
        proof {
            lemma_size_mono(ps, 0, ps.len() as int);
        }
        while i < n
            invariant
                self.wf(),
                ps == self.paras(),
                n == ps.len(),
                i <= n,
                total == size_before(ps, i as int),
                size(ps) <= usize::MAX,
            decreases n - i,
        {
            proof {
                lemma_size_mono(ps, i + 1, ps.len() as int);
            }
            let chars = self.para_char_count(i);
            total = total + chars + 2;
            i = i + 1;
        }
        extra <= usize::MAX - total
    }

}

/// Whatever the editor has been through, its cursor is on a line of a
/// paragraph, within or at the end of that line.
pub proof fn lemma_cursor_in_bounds(e: &Editor)
    requires
        e.wf(),
    ensures
        0 <= e.pos().0 < e.paras().len(),
        0 <= e.pos().1 < e.paras()[e.pos().0].len(),
        0 <= e.pos().2 <= e.paras()[e.pos().0][e.pos().1].len(),
{
}

} // verus!
