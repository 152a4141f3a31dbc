//! The sender client's own logic: the line being typed, and the debounce
//! that turns key presses into typing events.
use crate::model::TypingEvent;
use vstd::prelude::*;

verus! {

/// The characters typed so far on the input line.
#[derive(Debug)]
pub struct EditBuffer {
    buffer: Vec<char>,
}

impl EditBuffer {
    /// The characters typed.
    pub closed spec fn chars(&self) -> Seq<char> {
        self.buffer@
    }

    /// An empty line.
    pub fn new() -> (r: Self)
        ensures
            r.chars() == Seq::<char>::empty(),
    {
        EditBuffer { buffer: Vec::new() }
    }

    /// Types one character.
    pub fn add(&mut self, c: char)
        ensures
            final(self).chars() == old(self).chars().push(c),
    {
        self.buffer.push(c);
    }

    /// Types several characters, in order.
    pub fn add_multiple(&mut self, cs: &Vec<char>)
        ensures
            final(self).chars() == old(self).chars() + cs@,
    {
        let mut i: usize = 0;
        while i < cs.len()
            invariant
                i <= cs@.len(),
                self.chars() == old(self).chars() + cs@.take(i as int),
            decreases cs@.len() - i,
        {
            self.buffer.push(cs[i]);
            i = i + 1;
            assert(self.chars() =~= old(self).chars() + cs@.take(i as int));
        }
        assert(cs@.take(cs@.len() as int) =~= cs@);
    }

    /// Deletes the last character, if any.
    pub fn backspace(&mut self)
        ensures
            final(self).chars() == if old(self).chars().len() == 0 {
                old(self).chars()
            } else {
                old(self).chars().drop_last()
            },
    {
        let _last = self.buffer.pop();
    }

    /// The characters typed, as a string.
    pub fn contents(&self) -> (r: String)
        ensures
            r@ == self.chars(),
    {
        let mut out = String::new();
        let mut i: usize = 0;
        while i < self.buffer.len()
            invariant
                i <= self.buffer@.len(),
                out@ == self.buffer@.take(i as int),
            decreases self.buffer@.len() - i,
        {
            let c = self.buffer[i];
            push_char(&mut out, c);
            i = i + 1;
            assert(out@ =~= self.buffer@.take(i as int));
        }
        assert(self.buffer@.take(self.buffer@.len() as int) =~= self.buffer@);
        out
    }
}

/// Relies on `String::push`: it appends one character.
#[verifier::external_body]
fn push_char(s: &mut String, c: char)
    ensures
        final(s)@ == old(s)@.push(c),
{
    s.push(c)
}

/// What the typing debounce learns at each tick.
#[derive(Debug, Clone, Copy, PartialEq, Eq, Structural)]
pub enum Tick {
    /// A key was pressed since the last tick.
    KeyPressed,
    /// No key was pressed for a whole tick.
    Quiet,
    /// The line was read: no more key presses will come.
    Finished,
}

/// The debounce: typing starts with a key press and stops after a quiet
/// tick, and a change is reported only when the state changes.
#[derive(Debug)]
pub struct TypingDebounce {
    current: TypingEvent,
    finished: bool,
}

impl TypingDebounce {
    /// The state last reported.
    pub closed spec fn state(&self) -> TypingEvent {
        self.current
    }

    /// Whether the line has been read.
    pub closed spec fn is_finished(&self) -> bool {
        self.finished
    }

    /// A debounce that starts with typing stopped.
    pub fn new() -> (r: Self)
        ensures
            r.state() == TypingEvent::Stop,
            !r.is_finished(),
    {
        TypingDebounce { current: TypingEvent::Stop, finished: false }
    }

    /// Takes one tick; returns the typing event to send, if the state
    /// changed.
    pub fn tick(&mut self, tick: Tick) -> (r: Option<TypingEvent>)
        ensures
            ({
                let next = if tick == Tick::KeyPressed { TypingEvent::Start } else { TypingEvent::Stop };
                &&& final(self).state() == next
                &&& final(self).is_finished() == (old(self).is_finished() || tick == Tick::Finished)
                &&& r == if next == old(self).state() { None } else { Some(next) }
            }),
    {
        let new_state = match tick {
            Tick::KeyPressed => TypingEvent::Start,
            Tick::Quiet => TypingEvent::Stop,
            Tick::Finished => {
                self.finished = true;
                TypingEvent::Stop
            },
        };
        let changed = match (new_state, self.current) {
            (TypingEvent::Start, TypingEvent::Start) => false,
            (TypingEvent::Stop, TypingEvent::Stop) => false,
            _ => true,
        };
        if changed {
            self.current = new_state;
            Some(new_state)
        } else {
            None
        }
    }

    /// Whether the line has been read.
    pub fn finished(&self) -> (r: bool)
        ensures
            r == self.is_finished(),
    {
        self.finished
    }
}

} // verus!
