//! A single-line text field that scrolls horizontally.
use crate::para::lemma_count_le_chars;
use crate::text::{graphemes_of, joined, width_of, GraphemeRange, Text, TextBuf};
use vstd::prelude::*;

verus! {

/// The scroll offset after adjusting to the cursor: none when the text
/// fits, else the least change that shows the cursor, pulled left so that
/// no position past the end shows.
pub open spec fn field_adjusted(len: int, cursor: int, scroll: int, width: int) -> int {
    if len <= width {
        0
    } else {
        let s1 = if cursor < scroll {
            cursor
        } else if cursor > scroll + width {
            cursor - width
        } else {
            scroll
        };
        if s1 > len - width {
            len - width
        } else {
            s1
        }
    }
}

/// The viewport shows the cursor, and scrolls only when the text does not
/// fit, never past the end.
pub open spec fn field_scroll_ok(len: int, cursor: int, scroll: int, width: int) -> bool {
    &&& 0 <= scroll
    &&& len <= width ==> scroll == 0
    &&& len > width ==> scroll <= len - width && scroll <= cursor <= scroll + width
}

/// What typing `s` does to a field.
pub open spec fn added(old: TextField, new: TextField, s: Seq<char>) -> bool {
    let gs = old.clusters();
    let c = old.pos();
    let t = joined(gs.take(c)) + s + joined(gs.skip(c));
    let moved = c + graphemes_of(s).len();
    &&& new.spec_width() == old.spec_width()
    &&& new.text() == t
    &&& new.clusters() == graphemes_of(t)
    &&& new.pos() == if moved <= graphemes_of(t).len() { moved } else { graphemes_of(t).len() as int }
    &&& new.scroll() == field_adjusted(graphemes_of(t).len() as int, new.pos(), old.scroll(), old.spec_width())
}

/// What deleting the cluster before the cursor does to a field.
pub open spec fn backspaced(old: TextField, new: TextField) -> bool {
    let gs = old.clusters();
    let c = old.pos();
    let t = joined(gs.take(c - 1)) + joined(gs.skip(c));
    &&& new.spec_width() == old.spec_width()
    &&& if c == 0 {
        new.clusters() == gs && new.pos() == 0 && new.scroll() == old.scroll()
    } else {
        &&& new.text() == t
        &&& new.clusters() == graphemes_of(t)
        &&& new.pos() == if c - 1 <= graphemes_of(t).len() { c - 1 } else { graphemes_of(t).len() as int }
        &&& new.scroll() == field_adjusted(graphemes_of(t).len() as int, new.pos(), old.scroll(), old.spec_width())
    }
}

/// What moving the cursor to `pos`, where it lands when it can move,
/// does to a field; `moves` says whether it can.
pub open spec fn moved_to(old: TextField, new: TextField, moves: bool, pos: int) -> bool {
    &&& new.clusters() == old.clusters()
    &&& new.spec_width() == old.spec_width()
    &&& if moves {
        new.pos() == pos && new.scroll() == field_adjusted(old.clusters().len() as int, pos, old.scroll(), old.spec_width())
    } else {
        new.pos() == old.pos() && new.scroll() == old.scroll()
    }
}

/// A one-line editable text with a cursor and a horizontal scroll offset.
#[derive(Debug)]
pub struct TextField {
    buffer: TextBuf,
    cursor: usize,
    amount_scrolled: usize,
    width: usize,
}

impl TextField {
    /// The clusters of the text.
    pub closed spec fn clusters(&self) -> Seq<Seq<char>> {
        self.buffer@
    }

    /// The cursor, in clusters from the start.
    pub closed spec fn pos(&self) -> int {
        self.cursor as int
    }

    /// The number of clusters scrolled off the left.
    pub closed spec fn scroll(&self) -> int {
        self.amount_scrolled as int
    }

    /// The number of clusters shown.
    pub closed spec fn spec_width(&self) -> int {
        self.width as int
    }

    /// The field's invariant.
    pub closed spec fn wf(&self) -> bool {
        &&& self.buffer.wf()
        &&& self.cursor <= self.buffer@.len()
        &&& field_scroll_ok(self.buffer@.len() as int, self.cursor as int, self.amount_scrolled as int, self.width as int)
    }

    /// The characters of the text.
    pub open spec fn text(&self) -> Seq<char> {
        joined(self.clusters())
    }

    /// What a well-formed field offers its callers.
    pub proof fn lemma_wf(&self)
        requires
            self.wf(),
        ensures
            self.pos() <= self.clusters().len(),
            field_scroll_ok(self.clusters().len() as int, self.pos(), self.scroll(), self.spec_width()),
    {
    }

    /// An empty field `width` clusters wide.
    pub fn new(width: usize) -> (r: Self)
        ensures
            r.wf(),
            r.clusters() == Seq::<Seq<char>>::empty(),
            r.pos() == 0,
            r.scroll() == 0,
            r.spec_width() == width,
    {
        TextField { buffer: TextBuf::default(), cursor: 0, amount_scrolled: 0, width }
    }

    /// The characters shown: all of them when they fit, else `width`
    /// clusters from the scroll offset.
    pub fn render(&self) -> (r: &str)
        requires
            self.wf(),
        ensures
            r@ == if self.clusters().len() <= self.spec_width() {
                self.text()
            } else {
                joined(self.clusters().subrange(self.scroll(), self.scroll() + self.spec_width()))
            },
    {
        if self.can_all_text_fit_on_screen() {
            return self.buffer.as_str();
        }
        let _len = self.buffer.len();
        let shown = self.buffer.slice(self.amount_scrolled..self.amount_scrolled + self.width);
        proof {
            shown.lemma_wf();
        }
        shown.as_str()
    }

    /// The characters of the text.
    pub fn contents(&self) -> (r: &str)
        requires
            self.wf(),
        ensures
            r@ == self.text(),
    {
        self.buffer.as_str()
    }

    /// The display column of the cursor within the shown characters.
    pub fn cursor(&self) -> (r: usize)
        requires
            self.wf(),
        ensures
            r as nat == width_of(joined(self.clusters().subrange(self.scroll(), self.pos()))),
    {
        let before_cursor = self.buffer.slice(self.amount_scrolled..self.cursor);
        before_cursor.width()
    }

    /// Changes the number of clusters shown.
    pub fn resize(&mut self, width: usize)
        requires
            old(self).wf(),
        ensures
            final(self).wf(),
            final(self).clusters() == old(self).clusters(),
            final(self).pos() == old(self).pos(),
            final(self).spec_width() == width,
            final(self).scroll() == field_adjusted(old(self).clusters().len() as int, old(self).pos(), old(self).scroll(), width as int),
    {
        self.width = width;
        self.adjust_scroll();
    }

    /// Inserts `s` at the cursor and moves the cursor past it, to the end
    /// of the text at most.
    pub fn add(&mut self, s: &str)
        requires
            old(self).wf(),
        ensures
            final(self).wf(),
            added(*old(self), *final(self), s@),
    {
        let ghost gs = self.buffer@;
        proof {
            self.buffer.lemma_wf();
            lemma_count_le_chars(gs);
            crate::text::lemma_joined_split(gs, self.cursor as int);
            lemma_count_le_chars(gs.take(self.cursor as int));
        }
        self.buffer.insert(self.cursor, s);
        let text = Text::new(s);
        let n = text.len();
        let len = self.buffer.len();
        proof {
            text.lemma_wf();
            lemma_count_le_chars(text@);
            self.buffer.lemma_wf();
        }
        let moved = self.cursor + n;
        self.cursor = if moved <= len {
            moved
        } else {
            len
        };
        self.adjust_scroll();
    }

    /// Deletes the cluster before the cursor, if any.
    pub fn backspace(&mut self)
        requires
            old(self).wf(),
        ensures
            final(self).wf(),
            backspaced(*old(self), *final(self)),
    {
        if self.at_start() {
            return;
        }
        let _removed = self.buffer.remove(self.cursor - 1);
        let len = self.buffer.len();
        let back = self.cursor - 1;
        self.cursor = if back <= len {
            back
        } else {
            len
        };
        self.adjust_scroll();
    }

    /// Moves the cursor one cluster left, if it can.
    pub fn move_left(&mut self)
        requires
            old(self).wf(),
        ensures
            final(self).wf(),
            moved_to(*old(self), *final(self), old(self).pos() > 0, old(self).pos() - 1),
    {
        if self.at_start() {
            return;
        }
        self.cursor = self.cursor - 1;
        self.adjust_scroll();
    }

    /// Moves the cursor one cluster right, if it can.
    pub fn move_right(&mut self)
        requires
            old(self).wf(),
        ensures
            final(self).wf(),
            moved_to(*old(self), *final(self), old(self).pos() < old(self).clusters().len(), old(self).pos() + 1),
    {
        if self.at_end() {
            return;
        }
        let _len = self.buffer.len();
        self.cursor = self.cursor + 1;
        self.adjust_scroll();
    }

    /// Moves the cursor to the start of the text.
    pub fn move_up(&mut self)
        requires
            old(self).wf(),
        ensures
            final(self).wf(),
            moved_to(*old(self), *final(self), true, 0),
    {
        self.cursor = 0;
        self.adjust_scroll();
    }

    /// Moves the cursor to the end of the text.
    pub fn move_down(&mut self)
        requires
            old(self).wf(),
        ensures
            final(self).wf(),
            moved_to(*old(self), *final(self), true, old(self).clusters().len() as int),
    {
        self.cursor = self.buffer.len();
        self.adjust_scroll();
    }

    /// Scrolls to the cursor, as [`field_adjusted`] says.
    fn adjust_scroll(&mut self)
        requires
            old(self).buffer.wf(),
            old(self).cursor <= old(self).buffer@.len(),
        ensures
            final(self).wf(),
            final(self).buffer == old(self).buffer,
            final(self).cursor == old(self).cursor,
            final(self).width == old(self).width,
            final(self).amount_scrolled == field_adjusted(old(self).buffer@.len() as int, old(self).cursor as int, old(self).amount_scrolled as int, old(self).width as int),
    {
        if self.can_all_text_fit_on_screen() {
            self.amount_scrolled = 0;
        } else {
            if self.cursor_before_left() {
                self.scroll_cursor_to_left();
            } else if self.cursor_after_right() {
                self.scroll_cursor_to_right();
            }
            if self.scrolled_past_right() {
                self.scroll_buffer_to_right();
            }
        }
    }

    fn scroll_cursor_to_left(&mut self)
        ensures
            final(self).amount_scrolled == old(self).cursor,
            final(self).buffer == old(self).buffer,
            final(self).cursor == old(self).cursor,
            final(self).width == old(self).width,
    {
        self.amount_scrolled = self.cursor;
    }

    fn scroll_cursor_to_right(&mut self)
        requires
            old(self).cursor >= old(self).width,
        ensures
            final(self).amount_scrolled == old(self).cursor - old(self).width,
            final(self).buffer == old(self).buffer,
            final(self).cursor == old(self).cursor,
            final(self).width == old(self).width,
    {
        self.amount_scrolled = self.cursor - self.width;
    }

    fn scroll_buffer_to_right(&mut self)
        requires
            old(self).buffer.wf(),
            old(self).buffer@.len() >= old(self).width,
        ensures
            final(self).amount_scrolled == old(self).buffer@.len() - old(self).width,
            final(self).buffer == old(self).buffer,
            final(self).cursor == old(self).cursor,
            final(self).width == old(self).width,
    {
        self.amount_scrolled = self.buffer.len() - self.width;
    }

    fn cursor_before_left(&self) -> (r: bool)
        ensures
            r == (self.cursor < self.amount_scrolled),
    {
        self.cursor < self.amount_scrolled
    }

    fn cursor_after_right(&self) -> (r: bool)
        ensures
            r == (self.cursor > self.amount_scrolled + self.width),
    {
        self.cursor >= self.amount_scrolled && self.cursor - self.amount_scrolled > self.width
    }

    fn scrolled_past_right(&self) -> (r: bool)
        requires
            self.buffer.wf(),
            self.buffer@.len() > self.width,
        ensures
            r == (self.amount_scrolled > self.buffer@.len() - self.width),
    {
        self.amount_scrolled > self.buffer.len() - self.width
    }

    fn can_all_text_fit_on_screen(&self) -> (r: bool)
        requires
            self.buffer.wf(),
        ensures
            r == (self.buffer@.len() <= self.width),
    {
        self.buffer.len() <= self.width
    }

    fn at_start(&self) -> (r: bool)
        ensures
            r == (self.cursor == 0),
    {
        self.cursor == 0
    }

    fn at_end(&self) -> (r: bool)
        requires
            self.buffer.wf(),
        ensures
            r == (self.cursor == self.buffer@.len()),
    {
        self.cursor == self.buffer.len()
    }
}

} // verus!
