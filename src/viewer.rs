//! What a viewer shows: events other than typing, and a scroll window over
//! them.
use crate::model::{user_view, Color, Event as ServerEvent, EventKind as ServerEventKind, Message, Timestamp, User};
use vstd::prelude::*;
use vstd::string::*;

verus! {

/// What happened, as a viewer lists it.
#[derive(Debug, Clone, PartialEq, Eq, Hash)]
pub enum EventKind {
    Message(Message),
    Login,
    Logout,
}

/// An event as a viewer lists it.
#[derive(Debug, Clone, PartialEq, Eq, Hash)]
pub struct Event {
    pub event: EventKind,
    pub user: User,
    pub time_occurred: Timestamp,
}

impl Event {
    /// The listed form of a server event; none for typing events, which are
    /// shown apart.
    pub fn from_server_event(server_event: ServerEvent) -> (r: Option<Self>)
        ensures
            match server_event.event {
                ServerEventKind::Typing(_) => r.is_none(),
                ServerEventKind::Message(m) => r == Some(Event { event: EventKind::Message(m), user: server_event.user, time_occurred: server_event.time_occurred }),
                ServerEventKind::Login => r == Some(Event { event: EventKind::Login, user: server_event.user, time_occurred: server_event.time_occurred }),
                ServerEventKind::Logout => r == Some(Event { event: EventKind::Logout, user: server_event.user, time_occurred: server_event.time_occurred }),
            },
    {
        let event = match server_event.event {
            ServerEventKind::Message(msg) => EventKind::Message(msg),
            ServerEventKind::Login => EventKind::Login,
            ServerEventKind::Logout => EventKind::Logout,
            ServerEventKind::Typing(_) => {
                return None;
            },
        };
        Some(Self { event, user: server_event.user, time_occurred: server_event.time_occurred })
    }
}

/// The window's first index: the last `height` events, or all from the
/// start when they fit.
pub open spec fn bottom_top(len: int, height: int) -> int {
    if len <= height {
        0
    } else {
        len - height
    }
}

/// A scroll window over the listed events.
pub struct Timeline {
    events: Vec<Event>,
    height: usize,
    top_event_idx: usize,
}

impl Timeline {
    /// The events, oldest first.
    pub closed spec fn events(&self) -> Seq<Event> {
        self.events@
    }

    /// The number of events shown at once.
    pub closed spec fn spec_height(&self) -> int {
        self.height as int
    }

    /// The index of the first event shown.
    pub closed spec fn top(&self) -> int {
        self.top_event_idx as int
    }

    /// The window stays within the events, and starts at the first when
    /// they all fit.
    pub open spec fn wf(&self) -> bool {
        &&& self.events().len() <= self.spec_height() ==> self.top() == 0
        &&& self.events().len() > self.spec_height() ==> 0 <= self.top() && self.top() + self.spec_height() <= self.events().len()
    }

    /// The events shown: `height` of them from the top index, or all when
    /// they fit.
    pub open spec fn visible(&self) -> Seq<Event> {
        if self.events().len() <= self.spec_height() {
            self.events()
        } else {
            self.events().subrange(self.top(), self.top() + self.spec_height())
        }
    }

    /// An empty timeline showing `height` events at once.
    pub fn new(height: usize) -> (r: Self)
        ensures
            r.wf(),
            r.events() == Seq::<Event>::empty(),
            r.spec_height() == height,
            r.top() == 0,
    {
        Self { events: Vec::new(), height, top_event_idx: 0 }
    }

    /// Appends an event and scrolls to the bottom.
    pub fn add_event(&mut self, event: Event)
        requires
            old(self).wf(),
        ensures
            final(self).wf(),
            final(self).events() == old(self).events().push(event),
            final(self).spec_height() == old(self).spec_height(),
            final(self).top() == bottom_top(final(self).events().len() as int, old(self).spec_height()),
    {
        self.events.push(event);
        self.move_to_bottom();
    }

    /// The events shown.
    pub fn visible_events(&self) -> (r: &[Event])
        requires
            self.wf(),
        ensures
            r@ == self.visible(),
            r@.len() == if self.events().len() <= self.spec_height() { self.events().len() as int } else { self.spec_height() },
    {
        let end = self.bottom_event_idx();
        vstd::slice::slice_subrange(self.events.as_slice(), self.top_event_idx, end)
    }

    /// Changes how many events show at once; scrolls up when the window
    /// would reach past the last event.
    pub fn resize(&mut self, new_height: usize)
        requires
            old(self).wf(),
        ensures
            final(self).wf(),
            final(self).events() == old(self).events(),
            final(self).spec_height() == new_height,
            final(self).top() == if old(self).top() + new_height > old(self).events().len() {
                bottom_top(old(self).events().len() as int, new_height as int)
            } else {
                old(self).top()
            },
    {
        self.height = new_height;
        if self.past_bottom() {
            self.move_to_bottom();
        }
    }

    /// Scrolls one event up, unless at the top.
    pub fn move_up(&mut self)
        requires
            old(self).wf(),
        ensures
            final(self).wf(),
            final(self).events() == old(self).events(),
            final(self).spec_height() == old(self).spec_height(),
            final(self).top() == if old(self).top() == 0 { 0 } else { old(self).top() - 1 },
    {
        if !self.at_top() {
            self.top_event_idx = self.top_event_idx - 1;
        }
    }

    /// Scrolls one event down, unless at the bottom.
    pub fn move_down(&mut self)
        requires
            old(self).wf(),
        ensures
            final(self).wf(),
            final(self).events() == old(self).events(),
            final(self).spec_height() == old(self).spec_height(),
            final(self).top() == if old(self).events().len() <= old(self).spec_height()
                || old(self).top() + old(self).spec_height() == old(self).events().len() {
                old(self).top()
            } else {
                old(self).top() + 1
            },
    {
        let _len = self.events.len();
        if !self.at_bottom() {
            self.top_event_idx = self.top_event_idx + 1;
        }
    }

    /// Scrolls one event up, unless at the top.
    pub fn scroll_up(&mut self)
        requires
            old(self).wf(),
        ensures
            final(self).wf(),
            final(self).events() == old(self).events(),
            final(self).spec_height() == old(self).spec_height(),
            final(self).top() == if old(self).top() == 0 { 0 } else { old(self).top() - 1 },
    {
        self.move_up();
    }

    /// Scrolls one event down, unless at the bottom.
    pub fn scroll_down(&mut self)
        requires
            old(self).wf(),
        ensures
            final(self).wf(),
            final(self).events() == old(self).events(),
            final(self).spec_height() == old(self).spec_height(),
            final(self).top() == if old(self).events().len() <= old(self).spec_height()
                || old(self).top() + old(self).spec_height() == old(self).events().len() {
                old(self).top()
            } else {
                old(self).top() + 1
            },
    {
        self.move_down();
    }

    fn move_to_bottom(&mut self)
        ensures
            final(self).events == old(self).events,
            final(self).height == old(self).height,
            final(self).top_event_idx == bottom_top(old(self).events@.len() as int, old(self).height as int),
    {
        self.top_event_idx = if self.can_all_events_fit_on_screen() {
            0
        } else {
            self.events.len() - self.height
        };
    }

    fn past_bottom(&self) -> (r: bool)
        ensures
            r == (self.top_event_idx + self.height > self.events@.len()),
    {
        self.top_event_idx > self.events.len() || self.events.len() - self.top_event_idx < self.height
    }

    fn at_top(&self) -> (r: bool)
        ensures
            r == (self.top_event_idx == 0),
    {
        self.top_event_idx == 0
    }

    fn at_bottom(&self) -> (r: bool)
        requires
            self.wf(),
        ensures
            r == (self.events@.len() <= self.height || self.top_event_idx + self.height == self.events@.len()),
    {
        self.bottom_event_idx() == self.events.len()
    }

    fn bottom_event_idx(&self) -> (r: usize)
        requires
            self.wf(),
        ensures
            r == if self.events@.len() <= self.height { self.events@.len() as int } else { self.top_event_idx + self.height },
    {
        let len = self.events.len();
        if self.can_all_events_fit_on_screen() {
            len
        } else {
            self.top_event_idx + self.height
        }
    }

    fn can_all_events_fit_on_screen(&self) -> (r: bool)
        ensures
            r == (self.events@.len() <= self.height),
    {
        self.events.len() <= self.height
    }
}

/// The lines of a rendered screen.
#[derive(Debug, Default)]
pub struct RenderedUi {
    lines: Vec<String>,
}

impl RenderedUi {
    /// The lines so far.
    pub closed spec fn rows(&self) -> Seq<Seq<char>> {
        self.lines@.map_values(|l: String| l@)
    }

    /// A screen with no lines yet.
    pub fn new() -> (r: Self)
        ensures
            r.rows() == Seq::<Seq<char>>::empty(),
    {
        let r = RenderedUi { lines: Vec::new() };
        assert(r.rows() =~= Seq::<Seq<char>>::empty());
        r
    }

    /// Appends an empty line.
    pub fn add_empty_line(&mut self)
        ensures
            final(self).rows() == old(self).rows().push(Seq::<char>::empty()),
    {
        self.lines.push(String::new());
        assert(self.rows() =~= old(self).rows().push(Seq::<char>::empty()));
    }

    /// Appends a line, which holds no line break.
    pub fn add_line(&mut self, line: &str)
        requires
            !line@.contains('\n'),
        ensures
            final(self).rows() == old(self).rows().push(line@),
    {
        self.lines.push(String::from_str(line));
        assert(self.rows() =~= old(self).rows().push(line@));
    }

    /// The lines.
    pub fn lines(&self) -> (r: Vec<&str>)
        ensures
            r@.map_values(|t: &str| t@) == self.rows(),
    {
        let mut out: Vec<&str> = Vec::new();
        let mut i: usize = 0;
        while i < self.lines.len()
            invariant
                i <= self.lines@.len(),
                out@.map_values(|t: &str| t@) == self.rows().take(i as int),
            decreases self.lines@.len() - i,
        {
            let ghost prev = out@;
            out.push(self.lines[i].as_str());
            i = i + 1;
            assert(out@.map_values(|t: &str| t@) =~= prev.map_values(|t: &str| t@).push(self.rows()[i - 1]));
            assert(self.rows().take(i as int) =~= self.rows().take(i - 1).push(self.rows()[i - 1]));
        }
        assert(self.rows().take(self.rows().len() as int) =~= self.rows());
        out
    }
}

/// The status line for the users typing, given each one's rendered name:
/// empty for none, "`a` is typing..." for one, the names joined by " and "
/// followed by " are typing..." for more.
pub open spec fn typing_line_of(names: Seq<Seq<char>>) -> Seq<char> {
    if names.len() == 0 {
        Seq::empty()
    } else if names.len() == 1 {
        names[0] + " is typing..."@
    } else {
        joined_with_and(names) + " are typing..."@
    }
}

/// Names joined by " and ".
pub open spec fn joined_with_and(names: Seq<Seq<char>>) -> Seq<char>
    decreases names.len(),
{
    if names.len() == 0 {
        Seq::empty()
    } else if names.len() == 1 {
        names[0]
    } else {
        joined_with_and(names.drop_last()) + " and "@ + names.last()
    }
}

/// Renders the status line for the users typing, given each one's
/// rendered name.
pub fn render_currently_typing_users(names: &Vec<String>) -> (r: String)
    ensures
        r@ == typing_line_of(names@.map_values(|n: String| n@)),
{
    let ghost ns = names@.map_values(|n: String| n@);
    let mut out = String::new();
    if names.len() == 0 {
        return out;
    }
    out.append(names[0].as_str());
    if names.len() == 1 {
        out.append(" is typing...");
        return out;
    }
    let mut i: usize = 1;
    proof {
        assert(ns.take(1).drop_last() =~= Seq::<Seq<char>>::empty());
    }
    while i < names.len()
        invariant
            1 <= i <= names@.len(),
            ns == names@.map_values(|n: String| n@),
            out@ == joined_with_and(ns.take(i as int)),
        decreases names@.len() - i,
    {
        out.append(" and ");
        out.append(names[i].as_str());
        i = i + 1;
        proof {
            assert(ns.take(i as int).drop_last() =~= ns.take(i - 1));
        }
    }
    assert(ns.take(ns.len() as int) =~= ns);
    out.append(" are typing...");
    out
}

/// The viewer's screen: the timeline above a status line of who is typing.
pub struct App {
    timeline: Timeline,
    currently_typing_users: Vec<User>,
    terminal_height: usize,
}

impl App {
    /// The timeline.
    pub closed spec fn timeline(&self) -> Timeline {
        self.timeline
    }

    /// The users typing, each once, in the order they started.
    pub closed spec fn typing(&self) -> Seq<(Seq<char>, Option<Color>)> {
        self.currently_typing_users@.map_values(|u: User| user_view(u))
    }

    /// The number of rows on screen.
    pub closed spec fn height(&self) -> int {
        self.terminal_height as int
    }

    /// The timeline takes every row but the status line.
    pub closed spec fn wf(&self) -> bool {
        &&& self.timeline.wf()
        &&& self.terminal_height >= 1
        &&& self.timeline.spec_height() == self.terminal_height - 1
        &&& crate::server::distinct(self.typing())
    }

    /// A screen `terminal_height` rows high with no events.
    pub fn new(terminal_height: usize) -> (r: Self)
        requires
            terminal_height >= 1,
        ensures
            r.wf(),
            r.timeline().events() == Seq::<Event>::empty(),
            r.typing() == Seq::<(Seq<char>, Option<Color>)>::empty(),
            r.height() == terminal_height,
    {
        let r = App { timeline: Timeline::new(terminal_height - 1), currently_typing_users: Vec::new(), terminal_height };
        assert(r.typing() =~= Seq::<(Seq<char>, Option<Color>)>::empty());
        r
    }

    /// The events shown.
    pub fn visible_events(&self) -> (r: &[Event])
        requires
            self.wf(),
        ensures
            r@ == self.timeline().visible(),
    {
        self.timeline.visible_events()
    }

    /// The users typing.
    pub fn typing_users(&self) -> (r: &Vec<User>)
        ensures
            r@.map_values(|u: User| user_view(u)) == self.typing(),
    {
        &self.currently_typing_users
    }

    /// The screen: one line per event shown, given rendered, then empty
    /// lines down to the last row, which holds the status line.
    pub fn render(&self, rendered_events: &Vec<String>, typing_line: &str) -> (r: RenderedUi)
        requires
            self.wf(),
            rendered_events@.len() == self.timeline().visible().len(),
            forall|i: int| 0 <= i < rendered_events@.len() ==> !(#[trigger] rendered_events@[i])@.contains('\n'),
            !typing_line@.contains('\n'),
        ensures
            r.rows() == rendered_events@.map_values(|l: String| l@) + Seq::new(
                (self.height() - 1 - rendered_events@.len()) as nat,
                |i: int| Seq::<char>::empty(),
            ) + seq![typing_line@],
    {
        let ghost evs = rendered_events@.map_values(|l: String| l@);
        let n = rendered_events.len();
        let mut output = RenderedUi::new();
        let mut i: usize = 0;
        while i < n
            invariant
                i <= n,
                n == rendered_events@.len(),
                evs == rendered_events@.map_values(|l: String| l@),
                forall|k: int| 0 <= k < rendered_events@.len() ==> !(#[trigger] rendered_events@[k])@.contains('\n'),
                output.rows() == evs.take(i as int),
            decreases n - i,
        {
            output.add_line(rendered_events[i].as_str());
            i = i + 1;
            assert(output.rows() =~= evs.take(i as int));
        }
        assert(evs.take(n as int) =~= evs);
        let ghost with_events = output.rows();
        let blank = self.terminal_height - 1 - n;
        let mut j: usize = 0;
        while j < blank
            invariant
                j <= blank,
                output.rows() == with_events + Seq::new(j as nat, |i: int| Seq::<char>::empty()),
            decreases blank - j,
        {
            output.add_empty_line();
            j = j + 1;
            assert(output.rows() =~= with_events + Seq::new(j as nat, |i: int| Seq::<char>::empty()));
        }
        output.add_line(typing_line);
        output
    }

    /// Lists a new event and scrolls to the bottom.
    pub fn handle_event(&mut self, event: Event)
        requires
            old(self).wf(),
        ensures
            final(self).wf(),
            final(self).timeline().events() == old(self).timeline().events().push(event),
            final(self).typing() == old(self).typing(),
    {
        self.timeline.add_event(event);
    }

    /// Scrolls the timeline up one event.
    pub fn scroll_up(&mut self)
        requires
            old(self).wf(),
        ensures
            final(self).wf(),
            final(self).timeline().events() == old(self).timeline().events(),
            final(self).timeline().top() == if old(self).timeline().top() == 0 { 0 } else { old(self).timeline().top() - 1 },
    {
        self.timeline.scroll_up();
    }

    /// Scrolls the timeline down one event.
    pub fn scroll_down(&mut self)
        requires
            old(self).wf(),
        ensures
            final(self).wf(),
            final(self).timeline().events() == old(self).timeline().events(),
            final(self).timeline().top() == if old(self).timeline().events().len() <= old(self).timeline().spec_height()
                || old(self).timeline().top() + old(self).timeline().spec_height() == old(self).timeline().events().len() {
                old(self).timeline().top()
            } else {
                old(self).timeline().top() + 1
            },
    {
        self.timeline.scroll_down();
    }

    /// Changes the number of rows on screen.
    pub fn resize(&mut self, new_terminal_height: usize)
        requires
            old(self).wf(),
            new_terminal_height >= 1,
        ensures
            final(self).wf(),
            final(self).height() == new_terminal_height,
            final(self).timeline().events() == old(self).timeline().events(),
    {
        self.terminal_height = new_terminal_height;
        self.timeline.resize(new_terminal_height - 1);
    }

    /// Notes that `user` is typing.
    pub fn start_typing(&mut self, user: User)
        requires
            old(self).wf(),
        ensures
            final(self).wf(),
            final(self).timeline() == old(self).timeline(),
            old(self).typing().contains(user_view(user)) ==> final(self).typing() == old(self).typing(),
            !old(self).typing().contains(user_view(user)) ==> final(self).typing() == old(self).typing().push(user_view(user)),
    {
        if self.position_of(&user).is_none() {
            let ghost before = self.typing();
            let ghost uv = user_view(user);
            self.currently_typing_users.push(user);
            proof {
                assert(self.typing() =~= before.push(uv));
                assert forall|a: int, b: int| 0 <= a < self.typing().len() && 0 <= b < self.typing().len() && a != b implies self.typing()[a] != self.typing()[b] by {
                    if a == before.len() {
                        assert(before.contains(before[b]));
                    } else if b == before.len() {
                        assert(before.contains(before[a]));
                    }
                }
            }
        }
    }

    /// Notes that `user` stopped typing.
    pub fn stop_typing(&mut self, user: &User)
        requires
            old(self).wf(),
        ensures
            final(self).wf(),
            final(self).timeline() == old(self).timeline(),
            !final(self).typing().contains(user_view(*user)),
            forall|u: (Seq<char>, Option<Color>)| u != user_view(*user) ==> (final(self).typing().contains(u) <==> old(self).typing().contains(u)),
    {
        match self.position_of(user) {
            None => {},
            Some(i) => {
                let ghost before = self.typing();
                let ghost uv = user_view(*user);
                self.currently_typing_users.remove(i);
                proof {
                    let now = self.typing();
                    assert(now =~= before.remove(i as int));
                    assert forall|a: int| 0 <= a < now.len() implies #[trigger] now[a] == before[if a < i { a } else { a + 1 }] by {}
                    assert forall|u: (Seq<char>, Option<Color>)| now.contains(u) <==> (before.contains(u) && u != uv) by {
                        if before.contains(u) && u != uv {
                            let k = choose|k: int| 0 <= k < before.len() && before[k] == u;
                            if k < i {
                                assert(now[k] == u);
                            } else {
                                assert(now[k - 1] == u);
                            }
                        }
                        if now.contains(u) {
                            let k = choose|k: int| 0 <= k < now.len() && now[k] == u;
                            let k2 = if k < i { k } else { k + 1 };
                            assert(before[k2] == u);
                            assert(before[k2] != before[i as int]);
                        }
                    }
                    assert forall|a: int, b: int| 0 <= a < now.len() && 0 <= b < now.len() && a != b implies now[a] != now[b] by {
                        let a2 = if a < i { a } else { a + 1 };
                        let b2 = if b < i { b } else { b + 1 };
                        assert(now[a] == before[a2]);
                        assert(now[b] == before[b2]);
                    }
                }
            },
        }
    }

    /// The position of `user` among the users typing.
    fn position_of(&self, user: &User) -> (r: Option<usize>)
        ensures
            match r {
                Some(i) => i < self.typing().len() && self.typing()[i as int] == user_view(*user),
                None => !self.typing().contains(user_view(*user)),
            },
    {
        let mut i: usize = 0;
        while i < self.currently_typing_users.len()
            invariant
                i <= self.currently_typing_users@.len(),
                forall|j: int| 0 <= j < i ==> self.typing()[j] != user_view(*user),
            decreases self.currently_typing_users@.len() - i,
        {
            if same_user(&self.currently_typing_users[i], user) {
                return Some(i);
            }
            assert(self.typing()[i as int] == user_view(self.currently_typing_users@[i as int]));
            i = i + 1;
        }
        None
    }
}

/// Whether two users are the same: same nickname and colour.
fn same_user(a: &User, b: &User) -> (r: bool)
    ensures
        r == (user_view(*a) == user_view(*b)),
{
    let same_color = match (a.color, b.color) {
        (None, None) => true,
        (Some(x), Some(y)) => x == y,
        _ => false,
    };
    let same_nickname = a.nickname == b.nickname;
    same_nickname && same_color
}

} // verus!
