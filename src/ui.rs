//! Screen pieces built from the editing cores: a wrapped label, a prompt
//! and the nickname screen.
use crate::text::{graphemes_of, joined, Text, TextBuf};
use crate::text_field::{added, backspaced, moved_to, TextField};
use crate::wrap::{wrap, wrapped};
use vstd::prelude::*;
use vstd::string::*;

verus! {

/// A piece of text with the style it shows in.
#[derive(Debug, Clone, PartialEq, Eq)]
pub enum StyledText<'a> {
    Regular(&'a str),
    Bold(&'a str),
    Red(&'a str),
}

/// The characters of a styled piece.
pub open spec fn styled_view(t: StyledText<'_>) -> (int, Seq<char>) {
    match t {
        StyledText::Regular(s) => (0, s@),
        StyledText::Bold(s) => (1, s@),
        StyledText::Red(s) => (2, s@),
    }
}

/// A fixed text wrapped to a width.
#[derive(Debug)]
pub struct WrappedLabel {
    text: Text<'static>,
    wrapped: Vec<TextBuf>,
    width: usize,
}

impl WrappedLabel {
    /// The label's characters.
    pub closed spec fn text(&self) -> Seq<char> {
        self.text.text()
    }

    /// The width the label wraps at.
    pub closed spec fn spec_width(&self) -> int {
        self.width as int
    }

    /// The characters of each row.
    pub closed spec fn rows(&self) -> Seq<Seq<char>> {
        self.wrapped@.map_values(|l: TextBuf| l.text())
    }

    /// The rows are the text wrapped at the width.
    pub closed spec fn wf(&self) -> bool {
        &&& self.text.wf()
        &&& self.text@ == graphemes_of(self.text.text())
        &&& forall|i: int| 0 <= i < self.wrapped@.len() ==> (#[trigger] self.wrapped@[i]).wf()
        &&& self.rows() == wrapped(self.text@, self.width as int)
    }

    /// What a well-formed label shows.
    pub proof fn lemma_wf(&self)
        requires
            self.wf(),
        ensures
            self.rows() == wrapped(graphemes_of(self.text()), self.spec_width()),
    {
    }

    /// Wraps `text` at `width`.
    pub fn new(text: &'static str, width: usize) -> (r: Self)
        ensures
            r.wf(),
            r.text() == text@,
            r.spec_width() == width,
    {
        let text = Text::new(text);
        let lines = wrap(&text, width);
        let r = Self { text, wrapped: lines, width };
        proof {
            assert(r.rows() =~= wrapped(r.text@, width as int));
        }
        r
    }

    /// The rows.
    pub fn render(&self) -> (r: Vec<&str>)
        requires
            self.wf(),
        ensures
            r@.map_values(|t: &str| t@) == self.rows(),
    {
        let mut out: Vec<&str> = Vec::new();
        let mut i: usize = 0;
        while i < self.wrapped.len()
            invariant
                self.wf(),
                i <= self.wrapped@.len(),
                out@.map_values(|t: &str| t@) == self.rows().take(i as int),
            decreases self.wrapped@.len() - i,
        {
            let ghost prev = out@;
            out.push(self.wrapped[i].as_str());
            i = i + 1;
            proof {
                assert(out@.map_values(|t: &str| t@) =~= prev.map_values(|t: &str| t@).push(self.rows()[i - 1]));
                assert(self.rows().take(i as int) =~= self.rows().take(i - 1).push(self.rows()[i - 1]));
            }
        }
        proof {
            assert(self.rows().take(self.rows().len() as int) =~= self.rows());
        }
        out
    }

    /// The number of rows.
    pub fn num_rows(&self) -> (r: usize)
        requires
            self.wf(),
        ensures
            r == self.rows().len(),
    {
        self.wrapped.len()
    }

    /// Wraps the text anew at `width`.
    pub fn resize(&mut self, width: usize)
        requires
            old(self).wf(),
        ensures
            final(self).wf(),
            final(self).text() == old(self).text(),
            final(self).spec_width() == width,
    {
        self.width = width;
        self.wrapped = wrap(&self.text, self.width);
        proof {
            assert(self.rows() =~= wrapped(self.text@, width as int));
        }
    }
}

/// A bold label above a text field.
#[derive(Debug)]
pub struct Prompt {
    label: WrappedLabel,
    text_field: TextField,
}

impl Prompt {
    /// Both parts are well formed.
    pub closed spec fn wf(&self) -> bool {
        self.label.wf() && self.text_field.wf()
    }

    /// The label.
    pub closed spec fn label(&self) -> WrappedLabel {
        self.label
    }

    /// The text field.
    pub closed spec fn field(&self) -> TextField {
        self.text_field
    }

    /// A prompt with the label `prompt` and an empty field, both `width`
    /// wide.
    pub fn new(prompt: &'static str, width: usize) -> (r: Self)
        ensures
            r.wf(),
            r.label().text() == prompt@,
            r.label().spec_width() == width,
            r.field().clusters() == Seq::<Seq<char>>::empty(),
            r.field().spec_width() == width,
    {
        Self { label: WrappedLabel::new(prompt, width), text_field: TextField::new(width) }
    }

    /// The label's rows in bold, then the field's shown characters.
    pub fn render(&self) -> (r: Vec<StyledText<'_>>)
        requires
            self.wf(),
        ensures
            r@.len() == self.label().rows().len() + 1,
            forall|i: int| 0 <= i < self.label().rows().len() ==> styled_view(#[trigger] r@[i]) == (1int, self.label().rows()[i]),
            styled_view(r@.last()) == (0int, if self.field().clusters().len() <= self.field().spec_width() {
                self.field().text()
            } else {
                joined(self.field().clusters().subrange(self.field().scroll(), self.field().scroll() + self.field().spec_width()))
            }),
    {
        let rows = self.label.render();
        let mut out: Vec<StyledText<'_>> = Vec::new();
        let mut i: usize = 0;
        while i < rows.len()
            invariant
                i <= rows@.len(),
                rows@.map_values(|t: &str| t@) == self.label().rows(),
                out@.len() == i,
                forall|j: int| 0 <= j < i ==> styled_view(#[trigger] out@[j]) == (1int, self.label().rows()[j]),
            decreases rows@.len() - i,
        {
            proof {
                assert(rows@.map_values(|t: &str| t@)[i as int] == rows@[i as int]@);
            }
            out.push(StyledText::Bold(rows[i]));
            i = i + 1;
        }
        out.push(StyledText::Regular(self.text_field.render()));
        out
    }

    /// The characters typed.
    pub fn contents(&self) -> (r: &str)
        requires
            self.wf(),
        ensures
            r@ == self.field().text(),
    {
        self.text_field.contents()
    }

    /// The cursor: the row below the label, and the field's display column.
    pub fn cursor(&self) -> (r: (usize, usize))
        requires
            self.wf(),
        ensures
            r.0 == self.label().rows().len(),
            r.1 as nat == crate::text::width_of(joined(self.field().clusters().subrange(self.field().scroll(), self.field().pos()))),
    {
        (self.label.num_rows(), self.text_field.cursor())
    }

    /// Changes the width of both parts.
    pub fn resize(&mut self, width: usize)
        requires
            old(self).wf(),
        ensures
            final(self).wf(),
            final(self).label().text() == old(self).label().text(),
            final(self).label().spec_width() == width,
            final(self).field().clusters() == old(self).field().clusters(),
            final(self).field().pos() == old(self).field().pos(),
            final(self).field().spec_width() == width,
    {
        self.label.resize(width);
        self.text_field.resize(width);
    }

    /// Types `s` into the field.
    pub fn add(&mut self, s: &str)
        requires
            old(self).wf(),
        ensures
            final(self).wf(),
            final(self).label() == old(self).label(),
            added(old(self).field(), final(self).field(), s@),
    {
        self.text_field.add(s);
    }

    /// Deletes the cluster before the field's cursor.
    pub fn backspace(&mut self)
        requires
            old(self).wf(),
        ensures
            final(self).wf(),
            final(self).label() == old(self).label(),
            backspaced(old(self).field(), final(self).field()),
    {
        self.text_field.backspace();
    }

    /// Moves the field's cursor one cluster left.
    pub fn move_left(&mut self)
        requires
            old(self).wf(),
        ensures
            final(self).wf(),
            final(self).label() == old(self).label(),
            moved_to(old(self).field(), final(self).field(), old(self).field().pos() > 0, old(self).field().pos() - 1),
    {
        self.text_field.move_left();
    }

    /// Moves the field's cursor one cluster right.
    pub fn move_right(&mut self)
        requires
            old(self).wf(),
        ensures
            final(self).wf(),
            final(self).label() == old(self).label(),
            moved_to(old(self).field(), final(self).field(), old(self).field().pos() < old(self).field().clusters().len(), old(self).field().pos() + 1),
    {
        self.text_field.move_right();
    }

    /// Moves the field's cursor to the start.
    pub fn move_up(&mut self)
        requires
            old(self).wf(),
        ensures
            final(self).wf(),
            final(self).label() == old(self).label(),
            moved_to(old(self).field(), final(self).field(), true, 0),
    {
        self.text_field.move_up();
    }

    /// Moves the field's cursor to the end.
    pub fn move_down(&mut self)
        requires
            old(self).wf(),
        ensures
            final(self).wf(),
            final(self).label() == old(self).label(),
            moved_to(old(self).field(), final(self).field(), true, old(self).field().clusters().len() as int),
    {
        self.text_field.move_down();
    }
}

/// What the user asked for: typed text, a key, or a new terminal size.
#[derive(Debug, Clone, PartialEq, Eq)]
pub enum Input {
    Keypresses(String),
    Enter,
    Backspace,
    MoveLeft,
    MoveRight,
    MoveUp,
    MoveDown,
    Resize { width: usize, height: usize },
}

/// Whether a screen goes on after an input, and what it asks of the
/// program.
#[derive(Debug, Clone, PartialEq, Eq)]
pub enum StateChange<Command> {
    Alive { command: Option<Command> },
    Dead,
}

/// The label of the nickname prompt.
pub const NICKNAME_PROMPT: &'static str = "Enter a nickname";

/// The notice shown after a claim was refused.
pub const NICKNAME_TAKEN: &'static str = "nickname is taken";

/// The nickname screen: a prompt, and a red notice after a refused claim
/// until the nickname is edited.
#[derive(Debug)]
pub struct LoggingInView {
    nickname_prompt: Prompt,
    taken: Option<WrappedLabel>,
    width: usize,
}

impl LoggingInView {
    /// The prompt.
    pub closed spec fn prompt(&self) -> Prompt {
        self.nickname_prompt
    }

    /// The notice, when shown.
    pub closed spec fn notice(&self) -> Option<WrappedLabel> {
        self.taken
    }

    /// The width of the screen.
    pub closed spec fn spec_width(&self) -> int {
        self.width as int
    }

    /// The parts are well formed.
    pub closed spec fn wf(&self) -> bool {
        &&& self.nickname_prompt.wf()
        &&& (self.taken matches Some(l) ==> l.wf())
    }

    /// The nickname screen at `width`, with no notice.
    pub fn new(width: usize) -> (r: Self)
        ensures
            r.wf(),
            r.prompt().label().text() == NICKNAME_PROMPT@,
            r.prompt().field().clusters() == Seq::<Seq<char>>::empty(),
            r.notice().is_none(),
            r.spec_width() == width,
    {
        Self { nickname_prompt: Prompt::new(NICKNAME_PROMPT, width), taken: None, width }
    }

    /// The prompt's pieces, then the notice's rows in red.
    pub fn render(&self) -> (r: Vec<StyledText<'_>>)
        requires
            self.wf(),
        ensures
            r@.len() == self.prompt().label().rows().len() + 1 + match self.notice() {
                Some(l) => l.rows().len(),
                None => 0,
            },
            forall|i: int| 0 <= i < self.prompt().label().rows().len() ==> styled_view(#[trigger] r@[i]) == (1int, self.prompt().label().rows()[i]),
            match self.notice() {
                Some(l) => forall|i: int| 0 <= i < l.rows().len() ==> styled_view(#[trigger] r@[self.prompt().label().rows().len() + 1 + i]) == (2int, l.rows()[i]),
                None => true,
            },
    {
        let mut output = self.nickname_prompt.render();
        let ghost base = output@;
        if let Some(label) = &self.taken {
            let rows = label.render();
            let mut i: usize = 0;
            while i < rows.len()
                invariant
                    i <= rows@.len(),
                    rows@.map_values(|t: &str| t@) == label.rows(),
                    output@.len() == base.len() + i,
                    forall|j: int| 0 <= j < base.len() ==> #[trigger] output@[j] == base[j],
                    forall|j: int| 0 <= j < i ==> styled_view(#[trigger] output@[base.len() + j]) == (2int, label.rows()[j]),
                decreases rows@.len() - i,
            {
                proof {
                    assert(rows@.map_values(|t: &str| t@)[i as int] == rows@[i as int]@);
                }
                output.push(StyledText::Red(rows[i]));
                i = i + 1;
            }
        }
        output
    }

    /// Changes the width of the prompt and the notice.
    pub fn resize(&mut self, width: usize)
        requires
            old(self).wf(),
        ensures
            final(self).wf(),
            final(self).spec_width() == width,
            final(self).prompt().field().clusters() == old(self).prompt().field().clusters(),
            final(self).prompt().field().pos() == old(self).prompt().field().pos(),
            final(self).prompt().label().spec_width() == width,
            final(self).notice().is_some() == old(self).notice().is_some(),
            final(self).notice() matches Some(l) ==> l.spec_width() == width,
    {
        self.nickname_prompt.resize(width);
        self.width = width;
        if let Some(label) = self.taken.take() {
            let mut label = label;
            label.resize(width);
            self.taken = Some(label);
        }
    }

    /// Shows the notice that the nickname is taken.
    pub fn mark_nickname_taken(&mut self)
        requires
            old(self).wf(),
        ensures
            final(self).wf(),
            final(self).prompt() == old(self).prompt(),
            final(self).spec_width() == old(self).spec_width(),
            final(self).notice() matches Some(l) && l.text() == NICKNAME_TAKEN@ && l.spec_width() == old(self).spec_width(),
    {
        self.taken = Some(WrappedLabel::new(NICKNAME_TAKEN, self.width));
    }

    /// Types `s` and hides the notice.
    pub fn add(&mut self, s: &str)
        requires
            old(self).wf(),
        ensures
            final(self).wf(),
            final(self).prompt().label() == old(self).prompt().label(),
            added(old(self).prompt().field(), final(self).prompt().field(), s@),
            final(self).notice().is_none(),
            final(self).spec_width() == old(self).spec_width(),
    {
        self.nickname_prompt.add(s);
        self.taken = None;
    }

    /// Deletes the cluster before the cursor and hides the notice.
    pub fn backspace(&mut self)
        requires
            old(self).wf(),
        ensures
            final(self).wf(),
            final(self).prompt().label() == old(self).prompt().label(),
            backspaced(old(self).prompt().field(), final(self).prompt().field()),
            final(self).notice().is_none(),
            final(self).spec_width() == old(self).spec_width(),
    {
        self.nickname_prompt.backspace();
        self.taken = None;
    }

    /// The nickname typed.
    pub fn contents(&self) -> (r: &str)
        requires
            self.wf(),
        ensures
            r@ == self.prompt().field().text(),
    {
        self.nickname_prompt.contents()
    }

    /// The cursor: below the prompt's label, at the field's display column.
    pub fn cursor(&self) -> (r: (usize, usize))
        requires
            self.wf(),
        ensures
            r.0 == self.prompt().label().rows().len(),
            r.1 as nat == crate::text::width_of(joined(self.prompt().field().clusters().subrange(self.prompt().field().scroll(), self.prompt().field().pos()))),
    {
        self.nickname_prompt.cursor()
    }

    /// Moves the cursor one cluster left.
    pub fn move_left(&mut self)
        requires
            old(self).wf(),
        ensures
            final(self).wf(),
            final(self).notice() == old(self).notice(),
            final(self).prompt().label() == old(self).prompt().label(),
            moved_to(old(self).prompt().field(), final(self).prompt().field(), old(self).prompt().field().pos() > 0, old(self).prompt().field().pos() - 1),
    {
        self.nickname_prompt.move_left();
    }

    /// Moves the cursor one cluster right.
    pub fn move_right(&mut self)
        requires
            old(self).wf(),
        ensures
            final(self).wf(),
            final(self).notice() == old(self).notice(),
            final(self).prompt().label() == old(self).prompt().label(),
            moved_to(old(self).prompt().field(), final(self).prompt().field(), old(self).prompt().field().pos() < old(self).prompt().field().clusters().len(), old(self).prompt().field().pos() + 1),
    {
        self.nickname_prompt.move_right();
    }

    /// Moves the cursor to the start.
    pub fn move_up(&mut self)
        requires
            old(self).wf(),
        ensures
            final(self).wf(),
            final(self).notice() == old(self).notice(),
            final(self).prompt().label() == old(self).prompt().label(),
            moved_to(old(self).prompt().field(), final(self).prompt().field(), true, 0),
    {
        self.nickname_prompt.move_up();
    }

    /// Moves the cursor to the end.
    pub fn move_down(&mut self)
        requires
            old(self).wf(),
        ensures
            final(self).wf(),
            final(self).notice() == old(self).notice(),
            final(self).prompt().label() == old(self).prompt().label(),
            moved_to(old(self).prompt().field(), final(self).prompt().field(), true, old(self).prompt().field().clusters().len() as int),
    {
        self.nickname_prompt.move_down();
    }

    /// Takes one input. Enter asks to claim the nickname typed; the other
    /// inputs edit it or resize the screen.
    pub fn update(&mut self, input: Input) -> (r: StateChange<String>)
        requires
            old(self).wf(),
        ensures
            final(self).wf(),
            match input {
                Input::Enter => final(self).prompt() == old(self).prompt() && final(self).notice() == old(self).notice()
                    && (r matches StateChange::Alive { command: Some(c) } && c@ == old(self).prompt().field().text()),
                Input::Keypresses(s) => added(old(self).prompt().field(), final(self).prompt().field(), s@)
                    && final(self).notice().is_none() && r == StateChange::<String>::Alive { command: None },
                Input::Backspace => backspaced(old(self).prompt().field(), final(self).prompt().field())
                    && final(self).notice().is_none() && r == StateChange::<String>::Alive { command: None },
                Input::MoveLeft => moved_to(old(self).prompt().field(), final(self).prompt().field(), old(self).prompt().field().pos() > 0, old(self).prompt().field().pos() - 1)
                    && r == StateChange::<String>::Alive { command: None },
                Input::MoveRight => moved_to(old(self).prompt().field(), final(self).prompt().field(), old(self).prompt().field().pos() < old(self).prompt().field().clusters().len(), old(self).prompt().field().pos() + 1)
                    && r == StateChange::<String>::Alive { command: None },
                Input::MoveUp => moved_to(old(self).prompt().field(), final(self).prompt().field(), true, 0)
                    && r == StateChange::<String>::Alive { command: None },
                Input::MoveDown => moved_to(old(self).prompt().field(), final(self).prompt().field(), true, old(self).prompt().field().clusters().len() as int)
                    && r == StateChange::<String>::Alive { command: None },
                Input::Resize { width, height: _ } => final(self).spec_width() == width
                    && final(self).prompt().field().clusters() == old(self).prompt().field().clusters()
                    && r == StateChange::<String>::Alive { command: None },
            },
    {
        match input {
            Input::Keypresses(s) => self.add(s.as_str()),
            Input::Backspace => self.backspace(),
            Input::MoveLeft => self.move_left(),
            Input::MoveRight => self.move_right(),
            Input::MoveUp => self.move_up(),
            Input::MoveDown => self.move_down(),
            Input::Resize { width, height: _ } => self.resize(width),
            Input::Enter => {
                let nickname = String::from_str(self.contents());
                return StateChange::Alive { command: Some(nickname) };
            },
        }
        StateChange::Alive { command: None }
    }
}

} // verus!
