//! Word wrapping of grapheme-indexed text.
//!
//! Text is cut into words, each ending just after its first space, or
//! forced to a break when no space comes within `width` clusters. Words are
//! then packed greedily into lines whose display width stays within
//! `width` where the words allow it.
use crate::text::{
    graphemes_of, lemma_joined_take_next,
    clusters_wf, cluster_offset, first_match_at, joined, lemma_joined_split, width_of, GraphemeRange,
    Text, TextBuf,
};
use vstd::prelude::*;

verus! {

/// The space character, as a string.
pub open spec fn space() -> Seq<char> {
    seq![' ']
}

/// Whether a cluster starting with the first space of the text is at `k`.
pub open spec fn space_at(gs: Seq<Seq<char>>, k: int) -> bool {
    0 <= k < gs.len() && first_match_at(joined(gs), space(), cluster_offset(gs, k))
}

/// The number of clusters up to and including the first space, or all of
/// them when the first space does not start a cluster.
pub open spec fn space_boundary(gs: Seq<Seq<char>>) -> int {
    if exists|k: int| space_at(gs, k) {
        (choose|k: int| space_at(gs, k)) + 1
    } else {
        gs.len() as int
    }
}

/// The length of a forced chunk, grown one cluster at a time from `j`
/// while the next prefix still fits in `width` columns.
pub open spec fn chunk_len_from(gs: Seq<Seq<char>>, width: int, j: int) -> int
    decreases gs.len() - j,
{
    if j >= gs.len() || width_of(joined(gs.take(j + 1))) > width {
        j
    } else {
        chunk_len_from(gs, width, j + 1)
    }
}

/// The length of a forced chunk: at least one cluster.
pub open spec fn chunk_len(gs: Seq<Seq<char>>, width: int) -> int {
    chunk_len_from(gs, width, 1)
}

/// The number of clusters in the next word of `gs`.
pub open spec fn word_len(gs: Seq<Seq<char>>, width: int) -> int {
    if space_boundary(gs) > width {
        chunk_len(gs, width)
    } else {
        space_boundary(gs)
    }
}

/// The words of `gs`, each as its clusters.
pub open spec fn words(gs: Seq<Seq<char>>, width: int) -> Seq<Seq<Seq<char>>>
    decreases gs.len(),
{
    let k = word_len(gs, width);
    if gs.len() == 0 || k < 1 || k > gs.len() {
        Seq::empty()
    } else {
        seq![gs.take(k)] + words(gs.skip(k), width)
    }
}

/// The characters of each word of `gs`.
pub open spec fn word_texts(gs: Seq<Seq<char>>, width: int) -> Seq<Seq<char>> {
    words(gs, width).map_values(|w: Seq<Seq<char>>| joined(w))
}

/// Greedy packing of words into lines: a word goes on the current line
/// when both fit in `width` columns together, else it starts a new line.
pub open spec fn pack(ws: Seq<Seq<char>>, width: int) -> Seq<Seq<char>>
    decreases ws.len(),
{
    if ws.len() == 0 {
        seq![Seq::empty()]
    } else {
        let prev = pack(ws.drop_last(), width);
        let word = ws.last();
        if width_of(prev.last()) + width_of(word) > width {
            prev.push(word)
        } else {
            prev.update(prev.len() - 1, prev.last() + word)
        }
    }
}

/// The lines that wrapping the clusters `gs` at `width` gives.
pub open spec fn wrapped(gs: Seq<Seq<char>>, width: int) -> Seq<Seq<char>> {
    pack(word_texts(gs, width), width)
}

proof fn lemma_chunk_len_from(gs: Seq<Seq<char>>, width: int, j: int)
    requires
        1 <= j <= gs.len(),
    ensures
        j <= chunk_len_from(gs, width, j) <= gs.len(),
    decreases gs.len() - j,
{
    if j < gs.len() && width_of(joined(gs.take(j + 1))) <= width {
        lemma_chunk_len_from(gs, width, j + 1);
    }
}

/// A word of a non-empty text holds at least one cluster and at most all.
pub proof fn lemma_word_len(gs: Seq<Seq<char>>, width: int)
    requires
        gs.len() > 0,
        clusters_wf(gs),
    ensures
        1 <= word_len(gs, width) <= gs.len(),
{
    lemma_chunk_len_from(gs, width, 1);
    if exists|k: int| space_at(gs, k) {
        let k = choose|k: int| space_at(gs, k);
        assert(0 <= k < gs.len());
    }
}

/// A packing has at least one line.
pub proof fn lemma_pack_len(ws: Seq<Seq<char>>, width: int)
    ensures
        pack(ws, width).len() >= 1,
    decreases ws.len(),
{
    if ws.len() > 0 {
        lemma_pack_len(ws.drop_last(), width);
    }
}

/// Packing keeps the characters of the words, in order.
pub proof fn lemma_pack_joined(ws: Seq<Seq<char>>, width: int)
    ensures
        joined(pack(ws, width)) == joined(ws),
    decreases ws.len(),
{
    if ws.len() == 0 {
        lemma_joined_single(Seq::empty());
    } else {
        let prev = pack(ws.drop_last(), width);
        lemma_pack_joined(ws.drop_last(), width);
        lemma_pack_len(ws.drop_last(), width);
        let word = ws.last();
        if width_of(prev.last()) + width_of(word) > width {
            assert(prev.push(word).drop_last() =~= prev);
        } else {
            let next = prev.update(prev.len() - 1, prev.last() + word);
            assert(next.drop_last() =~= prev.drop_last());
            assert(joined(prev) == joined(prev.drop_last()) + prev.last());
            assert(joined(next) =~= joined(prev) + word);
        }
    }
}

/// The words of a text concatenate to the text.
pub proof fn lemma_words_joined(gs: Seq<Seq<char>>, width: int)
    requires
        clusters_wf(gs),
    ensures
        joined(word_texts(gs, width)) == joined(gs),
    decreases gs.len(),
{
    if gs.len() == 0 {
        assert(word_texts(gs, width) =~= Seq::<Seq<char>>::empty());
    } else {
        lemma_word_len(gs, width);
        let k = word_len(gs, width);
        let rest = gs.skip(k);
        assert(clusters_wf(rest));
        lemma_words_joined(rest, width);
        lemma_joined_split(gs, k);
        lemma_joined_concat(seq![joined(gs.take(k))], word_texts(rest, width));
        assert(word_texts(gs, width) =~= seq![joined(gs.take(k))] + word_texts(rest, width));
        lemma_joined_single(joined(gs.take(k)));
    }
}

/// The concatenation of a single string.
pub proof fn lemma_joined_single(x: Seq<char>)
    ensures
        joined(seq![x]) == x,
{
    assert(seq![x].drop_last() =~= Seq::<Seq<char>>::empty());
    assert(joined(Seq::<Seq<char>>::empty()) == Seq::<char>::empty());
    assert(Seq::<char>::empty() + x =~= x);
}

/// The concatenation of two runs of strings.
pub proof fn lemma_joined_concat(a: Seq<Seq<char>>, b: Seq<Seq<char>>)
    ensures
        joined(a + b) == joined(a) + joined(b),
    decreases b.len(),
{
    if b.len() == 0 {
        assert(a + b =~= a);
        assert(joined(a) + joined(b) =~= joined(a));
    } else {
        lemma_joined_concat(a, b.drop_last());
        assert((a + b).drop_last() =~= a + b.drop_last());
        assert(joined(a) + joined(b) =~= joined(a) + joined(b.drop_last()) + b.last());
    }
}

/// Wrapping keeps the characters of the text, in order.
pub proof fn lemma_wrapped_joined(gs: Seq<Seq<char>>, width: int)
    requires
        clusters_wf(gs),
    ensures
        joined(wrapped(gs, width)) == joined(gs),
        wrapped(gs, width).len() >= 1,
{
    lemma_pack_joined(word_texts(gs, width), width);
    lemma_words_joined(gs, width);
    lemma_pack_len(word_texts(gs, width), width);
}

/// Every word holds characters.
pub proof fn lemma_word_texts_nonempty(gs: Seq<Seq<char>>, width: int)
    requires
        clusters_wf(gs),
    ensures
        forall|i: int| 0 <= i < word_texts(gs, width).len() ==> (#[trigger] word_texts(gs, width)[i]).len() > 0,
    decreases gs.len(),
{
    if gs.len() > 0 {
        lemma_word_len(gs, width);
        let k = word_len(gs, width);
        let rest = gs.skip(k);
        assert(clusters_wf(rest));
        lemma_word_texts_nonempty(rest, width);
        assert(word_texts(gs, width) =~= seq![joined(gs.take(k))] + word_texts(rest, width));
        lemma_joined_split(gs.take(k), 1);
        assert(gs.take(k).take(1) =~= seq![gs[0]]);
        lemma_joined_single(gs[0]);
    }
}

/// Lines of a packing after the first hold characters when every word does.
pub proof fn lemma_pack_nonempty(ws: Seq<Seq<char>>, width: int)
    requires
        forall|i: int| 0 <= i < ws.len() ==> (#[trigger] ws[i]).len() > 0,
    ensures
        forall|i: int| 1 <= i < pack(ws, width).len() ==> (#[trigger] pack(ws, width)[i]).len() > 0,
    decreases ws.len(),
{
    if ws.len() > 0 {
        lemma_pack_nonempty(ws.drop_last(), width);
        lemma_pack_len(ws.drop_last(), width);
        assert(ws.last().len() > 0);
    }
}

/// Wrapped lines after the first hold characters.
pub proof fn lemma_wrapped_nonempty(gs: Seq<Seq<char>>, width: int)
    requires
        clusters_wf(gs),
    ensures
        forall|i: int| 1 <= i < wrapped(gs, width).len() ==> (#[trigger] wrapped(gs, width)[i]).len() > 0,
{
    lemma_word_texts_nonempty(gs, width);
    lemma_pack_nonempty(word_texts(gs, width), width);
}

/// Cuts a text into words, one at a time.
pub struct WordSplitter<'a> {
    text: Text<'a>,
    grapheme_pos: usize,
    width: usize,
}

impl<'a> WordSplitter<'a> {
    /// The splitter is over a well-formed text and within it.
    pub closed spec fn wf(&self) -> bool {
        self.text.wf() && self.grapheme_pos <= self.text@.len()
    }

    /// The clusters not yet handed out.
    pub closed spec fn rest(&self) -> Seq<Seq<char>> {
        self.text@.skip(self.grapheme_pos as int)
    }

    /// The width that words are cut to.
    pub closed spec fn spec_width(&self) -> int {
        self.width as int
    }

    /// A splitter at the start of `text`.
    pub fn new(text: Text<'a>, width: usize) -> (r: Self)
        requires
            text.wf(),
        ensures
            r.wf(),
            r.rest() == text@,
            r.spec_width() == width,
    {
        let r = WordSplitter { text, grapheme_pos: 0, width };
        assert(r.rest() =~= text@);
        r
    }

    /// The next word, or none at the end of the text.
    pub fn next(&mut self) -> (r: Option<Text<'a>>)
        requires
            old(self).wf(),
        ensures
            final(self).wf(),
            final(self).spec_width() == old(self).spec_width(),
            match r {
                None => old(self).rest().len() == 0 && final(self).rest() == old(self).rest(),
                Some(w) => {
                    &&& old(self).rest().len() > 0
                    &&& w.wf()
                    &&& w@ == old(self).rest().take(word_len(old(self).rest(), old(self).spec_width()))
                    &&& final(self).rest() == old(self).rest().skip(
                        word_len(old(self).rest(), old(self).spec_width()),
                    )
                },
            },
    {
        if self.at_end() {
            return None;
        }
        let _total = self.text.len();
        let current = self.current_text();
        let ghost gs = current@;
        proof {
            current.lemma_wf();
            lemma_word_len(gs, self.width as int);
            reveal_strlit(" ");
            assert(" "@ =~= space());
        }
        let n = current.len();
        let found = current.find(" ");
        let next_word_boundary = match found {
            Some(space_idx) => space_idx + 1,
            None => n,
        };
        proof {
            if let Some(k) = found {
                assert(space_at(gs, k as int));
                assert forall|j: int| space_at(gs, j) implies j == k by {
                    if j < k {
                        lemma_offsets_distinct(gs, j, k as int);
                    } else if k < j {
                        lemma_offsets_distinct(gs, k as int, j);
                    }
                }
            } else {
                assert(!exists|j: int| space_at(gs, j));
            }
            assert(next_word_boundary == space_boundary(gs));
        }
        let word = if next_word_boundary > self.width {
            self.chunk()
        } else {
            current.slice(..next_word_boundary)
        };
        proof {
            assert(self.text@.skip(self.grapheme_pos + word@.len()) =~= gs.skip(word@.len() as int));
        }
        self.grapheme_pos = self.grapheme_pos + word.len();
        Some(word)
    }

    /// A forced chunk: the clusters from the current position while their
    /// display width stays within the width, at least one.
    fn chunk(&self) -> (r: Text<'a>)
        requires
            self.wf(),
            self.rest().len() > 0,
        ensures
            r.wf(),
            r@ == self.rest().take(chunk_len(self.rest(), self.spec_width())),
    {
        let current = self.current_text();
        let ghost gs = current@;
        let n = current.len();
        let mut num_graphemes: usize = 1;
        let mut stop = false;
        while num_graphemes < n && !stop
            invariant
                stop ==> num_graphemes < n && width_of(joined(gs.take(num_graphemes + 1))) > self.width,
                current.wf(),
                current@ == gs,
                n == gs.len(),
                1 <= num_graphemes <= n,
                chunk_len_from(gs, self.width as int, num_graphemes as int) == chunk_len(
                    gs,
                    self.width as int,
                ),
            decreases n - num_graphemes + (if stop { 0int } else { 1int }),
        {
            let text = current.slice(..num_graphemes + 1);
            assert(text@ =~= gs.take(num_graphemes + 1));
            let is_too_wide = text.width() > self.width;
            if is_too_wide {
                stop = true;
            } else {
                num_graphemes = num_graphemes + 1;
            }
        }
        assert(chunk_len_from(gs, self.width as int, num_graphemes as int) == num_graphemes);
        let r = current.slice(..num_graphemes);
        assert(r@ =~= gs.take(num_graphemes as int));
        r
    }

    /// The clusters not yet handed out, as a text.
    fn current_text(&self) -> (r: Text<'a>)
        requires
            self.wf(),
        ensures
            r.wf(),
            r@ == self.rest(),
    {
        let r = self.text.slice(self.grapheme_pos..);
        assert(r@ =~= self.rest());
        r
    }

    /// Whether every cluster has been handed out.
    fn at_end(&self) -> (r: bool)
        requires
            self.wf(),
        ensures
            r == (self.rest().len() == 0),
    {
        self.grapheme_pos == self.text.len()
    }
}

/// Two clusters of well-formed clusters start at different offsets.
proof fn lemma_offsets_distinct(gs: Seq<Seq<char>>, j: int, k: int)
    requires
        clusters_wf(gs),
        0 <= j < k <= gs.len(),
    ensures
        cluster_offset(gs, j) < cluster_offset(gs, k),
    decreases k - j,
{
    lemma_joined_take_next(gs, k - 1);
    assert(gs[k - 1].len() > 0);
    if j < k - 1 {
        lemma_offsets_distinct(gs, j, k - 1);
    }
}

/// Cuts `text` into its words at `width`.
pub fn split_into_words<'a>(text: &Text<'a>, width: usize) -> (r: Vec<Text<'a>>)
    requires
        text.wf(),
    ensures
        r@.len() == words(text@, width as int).len(),
        forall|i: int| 0 <= i < r@.len() ==> (#[trigger] r@[i]).wf() && r@[i]@ == words(
            text@,
            width as int,
        )[i],
{
    let mut splitter = WordSplitter::new(text.slice(..), width);
    let mut out: Vec<Text<'a>> = Vec::new();
    let ghost all = text@;
    let ghost mut produced: Seq<Seq<Seq<char>>> = Seq::empty();
    proof {
        text.lemma_wf();
        assert(text@.subrange(0, text@.len() as int) =~= text@);
    }
    loop
        invariant
            splitter.wf(),
            splitter.spec_width() == width,
            clusters_wf(all),
            all == text@,
            clusters_wf(splitter.rest()),
            words(all, width as int) =~= produced + words(splitter.rest(), width as int),
            produced.len() == out@.len(),
            forall|i: int| 0 <= i < out@.len() ==> (#[trigger] out@[i]).wf() && out@[i]@ == produced[i],
        ensures
            words(all, width as int) =~= produced,
            produced.len() == out@.len(),
            forall|i: int| 0 <= i < out@.len() ==> (#[trigger] out@[i]).wf() && out@[i]@ == produced[i],
        decreases splitter.rest().len(),
    {
        let ghost before = splitter.rest();
        proof {
            if before.len() > 0 {
                lemma_word_len(before, width as int);
            }
        }
        match splitter.next() {
            None => {
                assert(words(before, width as int) =~= Seq::<Seq<Seq<char>>>::empty());
                assert(produced + words(before, width as int) =~= produced);
                assert(words(all, width as int) =~= produced);
                break;
            },
            Some(word) => {
                proof {
                    let k = word_len(before, width as int);
                    assert(words(before, width as int) =~= seq![before.take(k)] + words(
                        before.skip(k),
                        width as int,
                    ));
                    assert(clusters_wf(before.skip(k)));
                }
                proof {
                    produced = produced.push(word@);
                }
                out.push(word);
            },
        }
    }
    out
}

/// Wraps `text` into lines at `width` columns.
pub fn wrap(text: &Text<'_>, width: usize) -> (r: Vec<TextBuf>)
    requires
        text.wf(),
    ensures
        r@.len() == wrapped(text@, width as int).len(),
        forall|i: int| 0 <= i < r@.len() ==> (#[trigger] r@[i]).wf() && r@[i].text() == wrapped(
            text@,
            width as int,
        )[i] && r@[i]@ == graphemes_of(r@[i].text()),
{
    let words = split_into_words(text, width);
    let ghost ws = word_texts(text@, width as int);
    let mut lines: Vec<TextBuf> = Vec::new();
    lines.push(TextBuf::new(String::new()));
    let mut current_line: usize = 0;
    let mut i: usize = 0;
    proof {
        assert(pack(ws.take(0), width as int) =~= seq![Seq::<char>::empty()]);
    }
    while i < words.len()
        invariant
            words@.len() == ws.len(),
            ws == word_texts(text@, width as int),
            forall|j: int| 0 <= j < words@.len() ==> (#[trigger] words@[j]).wf() && words@[j].text() == ws[j],
            i <= words@.len(),
            lines@.len() == current_line + 1,
            current_line <= i,
            lines@.len() == pack(ws.take(i as int), width as int).len(),
            forall|j: int| 0 <= j < lines@.len() ==> (#[trigger] lines@[j]).wf() && lines@[j].text() == pack(
                ws.take(i as int),
                width as int,
            )[j] && lines@[j]@ == graphemes_of(lines@[j].text()),
        decreases words@.len() - i,
    {
        let word = &words[i];
        let line_width = lines[current_line].width();
        let word_width = word.width();
        proof {
            assert(ws.take(i + 1).drop_last() =~= ws.take(i as int));
            assert(ws.take(i + 1).last() == ws[i as int]);
        }
        if line_width > width || word_width > width - line_width {
            lines.push(TextBuf::new(String::from_str(word.as_str())));
            current_line = current_line + 1;
        } else {
            let mut line = lines.remove(current_line);
            line.push(word.as_str());
            lines.push(line);
        }
        i = i + 1;
        proof {
            assert forall|j: int| 0 <= j < lines@.len() implies (#[trigger] lines@[j]).wf()
                && lines@[j].text() == pack(ws.take(i as int), width as int)[j] && lines@[j]@
                == graphemes_of(lines@[j].text()) by {}
        }
    }
    proof {
        assert(ws.take(ws.len() as int) =~= ws);
    }
    lines
}

} // verus!
