//! The state that the hub keeps, and the decisions it takes on it: which
//! nicknames are in use, the event history, the live viewers, and the
//! course of one sender's connection.
use crate::ids::ViewerId;
use crate::model::{copy_event, Event, User};
use vstd::prelude::*;

verus! {

/// The nicknames of a run of strings.
pub open spec fn name_views(v: Seq<String>) -> Seq<Seq<char>> {
    v.map_values(|s: String| s@)
}

/// No value occurs twice.
pub open spec fn distinct<T>(s: Seq<T>) -> bool {
    forall|i: int, j: int| 0 <= i < s.len() && 0 <= j < s.len() && i != j ==> s[i] != s[j]
}

/// The nicknames in use, each at most once.
#[derive(Debug)]
pub struct NicknameRegistry {
    taken: Vec<String>,
}

impl NicknameRegistry {
    /// The nicknames in use.
    pub closed spec fn names(&self) -> Seq<Seq<char>> {
        name_views(self.taken@)
    }

    /// No nickname is in use twice.
    pub open spec fn wf(&self) -> bool {
        distinct(self.names())
    }

    /// An empty registry.
    pub fn new() -> (r: Self)
        ensures
            r.wf(),
            r.names() == Seq::<Seq<char>>::empty(),
    {
        let r = NicknameRegistry { taken: Vec::new() };
        assert(r.names() =~= Seq::<Seq<char>>::empty());
        r
    }

    /// The position of `nickname`, if in use.
    fn position(&self, nickname: &String) -> (r: Option<usize>)
        ensures
            match r {
                Some(i) => i < self.names().len() && self.names()[i as int] == nickname@,
                None => !self.names().contains(nickname@),
            },
    {
        let mut i: usize = 0;
        while i < self.taken.len()
            invariant
                i <= self.taken@.len(),
                forall|j: int| 0 <= j < i ==> self.names()[j] != nickname@,
            decreases self.taken@.len() - i,
        {
            if self.taken[i] == *nickname {
                return Some(i);
            }
            i = i + 1;
        }
        None
    }

    /// Whether `nickname` is in use.
    pub fn is_taken(&self, nickname: &String) -> (r: bool)
        ensures
            r == self.names().contains(nickname@),
    {
        self.position(nickname).is_some()
    }

    /// Claims `nickname`: returns whether it was already taken, and takes it
    /// when it was not.
    pub fn login(&mut self, nickname: String) -> (taken: bool)
        requires
            old(self).wf(),
        ensures
            final(self).wf(),
            taken == old(self).names().contains(nickname@),
            taken ==> final(self).names() == old(self).names(),
            !taken ==> final(self).names() == old(self).names().push(nickname@),
    {
        if self.is_taken(&nickname) {
            return true;
        }
        let ghost before = self.names();
        let ghost n = nickname@;
        self.taken.push(nickname);
        proof {
            assert(self.names() =~= before.push(n));
            assert forall|i: int, j: int| 0 <= i < self.names().len() && 0 <= j < self.names().len() && i != j implies self.names()[i] != self.names()[j] by {
                if i < before.len() && j < before.len() {
                } else if i == before.len() {
                    assert(before.contains(before[j]));
                } else {
                    assert(before.contains(before[i]));
                }
            }
        }
        false
    }

    /// Releases `nickname`: returns whether it was in use.
    pub fn logout(&mut self, nickname: &String) -> (was_taken: bool)
        requires
            old(self).wf(),
        ensures
            final(self).wf(),
            was_taken == old(self).names().contains(nickname@),
            !final(self).names().contains(nickname@),
            forall|n: Seq<char>| n != nickname@ ==> (final(self).names().contains(n) <==> old(self).names().contains(n)),
            was_taken ==> final(self).names().len() == old(self).names().len() - 1,
            !was_taken ==> final(self).names() == old(self).names(),
    {
        match self.position(nickname) {
            None => false,
            Some(i) => {
                let ghost before = self.names();
                self.taken.remove(i);
                proof {
                    assert(self.names() =~= before.remove(i as int));
                    assert forall|k: int| 0 <= k < self.names().len() implies self.names()[k] != nickname@ by {
                        if k < i {
                        } else {
                            assert(before[k + 1] != before[i as int]);
                        }
                    }
                    assert forall|n: Seq<char>| n != nickname@ implies (self.names().contains(n) <==> before.contains(n)) by {
                        if before.contains(n) {
                            let k = choose|k: int| 0 <= k < before.len() && before[k] == n;
                            if k < i {
                                assert(self.names()[k] == n);
                            } else {
                                assert(k != i);
                                assert(self.names()[k - 1] == n);
                            }
                        }
                    }
                }
                true
            },
        }
    }
}

/// Nicknames in use are distinct: no two logged-in users share one.
pub proof fn lemma_nicknames_unique(r: &NicknameRegistry, i: int, j: int)
    requires
        r.wf(),
        0 <= i < r.names().len(),
        0 <= j < r.names().len(),
        i != j,
    ensures
        r.names()[i] != r.names()[j],
{
}

/// The hub's view of the event stream: the history of every event
/// published, the live viewers, and what each viewer has been sent.
pub struct Hub {
    history: Vec<Event>,
    viewers: Vec<ViewerId>,
    next_viewer: u32,
    sent: Ghost<Map<ViewerId, Seq<Event>>>,
}

impl Hub {
    /// Every event published, in order.
    pub closed spec fn published(&self) -> Seq<Event> {
        self.history@
    }

    /// The live viewers.
    pub closed spec fn live(&self) -> Seq<ViewerId> {
        self.viewers@
    }

    /// What viewer `v` has been sent: its history greeting, then each
    /// event published while it was live.
    pub closed spec fn sent_to(&self, v: ViewerId) -> Seq<Event> {
        self.sent@[v]
    }

    /// The identifier the next viewer gets.
    pub closed spec fn next_id(&self) -> int {
        self.next_viewer as int
    }

    /// Live viewers are distinct, were handed out before, and each has
    /// been sent exactly the whole history.
    pub closed spec fn wf(&self) -> bool {
        &&& distinct(self.viewers@)
        &&& forall|i: int| 0 <= i < self.viewers@.len() ==> (#[trigger] self.viewers@[i]).0 < self.next_viewer
        &&& forall|i: int| 0 <= i < self.viewers@.len() ==> self.sent@.contains_key(#[trigger] self.viewers@[i]) && self.sent@[self.viewers@[i]] == self.history@
    }

    /// A hub with no history and no viewers.
    pub fn new() -> (r: Self)
        ensures
            r.wf(),
            r.published() == Seq::<Event>::empty(),
            r.live() == Seq::<ViewerId>::empty(),
            r.next_id() == 0,
    {
        Hub { history: Vec::new(), viewers: Vec::new(), next_viewer: 0, sent: Ghost(Map::empty()) }
    }

    /// Whether another viewer can get an identifier.
    pub fn can_join(&self) -> (r: bool)
        ensures
            r == (self.next_id() < u32::MAX),
    {
        self.next_viewer < u32::MAX
    }

    /// Registers a new viewer: it gets the next identifier and the whole
    /// history so far as its greeting.
    pub fn join(&mut self) -> (r: (ViewerId, Vec<Event>))
        requires
            old(self).wf(),
            old(self).next_id() < u32::MAX,
        ensures
            final(self).wf(),
            r.0.0 == old(self).next_id(),
            final(self).next_id() == old(self).next_id() + 1,
            r.1@ == old(self).published(),
            final(self).published() == old(self).published(),
            final(self).live() == old(self).live().push(r.0),
            final(self).sent_to(r.0) == old(self).published(),
            forall|v: ViewerId| old(self).live().contains(v) ==> final(self).sent_to(v) == old(self).sent_to(v),
    {
        let id = ViewerId(self.next_viewer);
        let snapshot = self.snapshot();
        proof {
            assert(!old(self).viewers@.contains(id)) by {
                if self.viewers@.contains(id) {
                    let k = choose|k: int| 0 <= k < self.viewers@.len() && self.viewers@[k] == id;
                    assert(self.viewers@[k].0 < self.next_viewer);
                }
            }
        }
        let ghost before = self.viewers@;
        self.viewers.push(id);
        self.next_viewer = self.next_viewer + 1;
        proof {
            self.sent@ = self.sent@.insert(id, self.history@);
            assert forall|i: int, j: int| 0 <= i < self.viewers@.len() && 0 <= j < self.viewers@.len() && i != j implies self.viewers@[i] != self.viewers@[j] by {
                if i == before.len() {
                    assert(before.contains(before[j]));
                } else if j == before.len() {
                    assert(before.contains(before[i]));
                }
            }
            assert forall|i: int| 0 <= i < self.viewers@.len() implies self.sent@.contains_key(#[trigger] self.viewers@[i]) && self.sent@[self.viewers@[i]] == self.history@ by {
                if i < before.len() {
                    assert(self.viewers@[i] == before[i]);
                }
            }
        }
        (id, snapshot)
    }

    /// Publishes an event: it joins the history, and goes to every live
    /// viewer, whose identifiers are returned.
    pub fn publish(&mut self, event: Event) -> (targets: Vec<ViewerId>)
        requires
            old(self).wf(),
        ensures
            final(self).wf(),
            final(self).published() == old(self).published().push(event),
            final(self).live() == old(self).live(),
            final(self).next_id() == old(self).next_id(),
            targets@ == old(self).live(),
            forall|v: ViewerId| old(self).live().contains(v) ==> final(self).sent_to(v) == old(self).sent_to(v).push(event),
    {
        let ghost e = event;
        self.history.push(event);
        proof {
            let old_sent = self.sent@;
            let live = self.viewers@;
            self.sent@ = Map::new(|v: ViewerId| old_sent.contains_key(v), |v: ViewerId| if live.contains(v) { old_sent[v].push(e) } else { old_sent[v] });
            assert forall|i: int| 0 <= i < self.viewers@.len() implies self.sent@.contains_key(#[trigger] self.viewers@[i]) && self.sent@[self.viewers@[i]] == self.history@ by {
                assert(live.contains(live[i]));
            }
        }
        let mut targets: Vec<ViewerId> = Vec::new();
        let mut i: usize = 0;
        while i < self.viewers.len()
            invariant
                i <= self.viewers@.len(),
                targets@ == self.viewers@.take(i as int),
            decreases self.viewers@.len() - i,
        {
            targets.push(self.viewers[i]);
            i = i + 1;
            assert(targets@ =~= self.viewers@.take(i as int));
        }
        assert(self.viewers@.take(self.viewers@.len() as int) =~= self.viewers@);
        targets
    }

    /// The position of viewer `id` among the live ones.
    fn find_viewer(&self, id: ViewerId) -> (r: Option<usize>)
        ensures
            match r {
                Some(i) => i < self.live().len() && self.live()[i as int] == id,
                None => !self.live().contains(id),
            },
    {
        let mut i: usize = 0;
        while i < self.viewers.len()
            invariant
                i <= self.viewers@.len(),
                forall|j: int| 0 <= j < i ==> self.viewers@[j] != id,
            decreases self.viewers@.len() - i,
        {
            if self.viewers[i].0 == id.0 {
                return Some(i);
            }
            i = i + 1;
        }
        None
    }

    /// Removes viewer `id`, if live; returns whether it was.
    pub fn remove_viewer(&mut self, id: ViewerId) -> (was_live: bool)
        requires
            old(self).wf(),
        ensures
            final(self).wf(),
            was_live == old(self).live().contains(id),
            final(self).published() == old(self).published(),
            final(self).next_id() == old(self).next_id(),
            forall|v: ViewerId| final(self).live().contains(v) <==> (old(self).live().contains(v) && v != id),
            forall|v: ViewerId| final(self).live().contains(v) ==> final(self).sent_to(v) == old(self).sent_to(v),
    {
        match self.find_viewer(id) {
            None => false,
            Some(i) => {
                let ghost before = self.viewers@;
                self.viewers.remove(i);
                proof {
                    assert(self.viewers@ =~= before.remove(i as int));
                    assert forall|a: int| 0 <= a < self.viewers@.len() implies #[trigger] self.viewers@[a] == before[if a < i { a } else { a + 1 }] && (if a < i { a } else { a + 1 }) != i by {}
                    assert forall|v: ViewerId| self.viewers@.contains(v) <==> (before.contains(v) && v != id) by {
                        if before.contains(v) && v != id {
                            let k = choose|k: int| 0 <= k < before.len() && before[k] == v;
                            if k < i {
                                assert(self.viewers@[k] == v);
                            } else {
                                assert(k != i);
                                assert(self.viewers@[k - 1] == v);
                            }
                        }
                        if self.viewers@.contains(v) {
                            let k = choose|k: int| 0 <= k < self.viewers@.len() && self.viewers@[k] == v;
                            let k2 = if k < i { k } else { k + 1 };
                            assert(before[k2] == v);
                            assert(before[k2] != before[i as int]);
                        }
                    }
                    assert forall|a: int, b: int| 0 <= a < self.viewers@.len() && 0 <= b < self.viewers@.len() && a != b implies self.viewers@[a] != self.viewers@[b] by {
                        let a2 = if a < i { a } else { a + 1 };
                        let b2 = if b < i { b } else { b + 1 };
                        assert(self.viewers@[a] == before[a2]);
                        assert(self.viewers@[b] == before[b2]);
                    }
                    assert forall|a: int| 0 <= a < self.viewers@.len() implies (#[trigger] self.viewers@[a]).0 < self.next_viewer && self.sent@.contains_key(self.viewers@[a]) && self.sent@[self.viewers@[a]] == self.history@ by {
                        let a2 = if a < i { a } else { a + 1 };
                        assert(self.viewers@[a] == before[a2]);
                    }
                }
                true
            },
        }
    }

    /// Removes the viewers whose connections closed.
    pub fn remove_closed(&mut self, closed: &Vec<ViewerId>)
        requires
            old(self).wf(),
        ensures
            final(self).wf(),
            final(self).published() == old(self).published(),
            final(self).next_id() == old(self).next_id(),
            forall|v: ViewerId| final(self).live().contains(v) <==> (old(self).live().contains(v) && !closed@.contains(v)),
            forall|v: ViewerId| final(self).live().contains(v) ==> final(self).sent_to(v) == old(self).sent_to(v),
    {
        let mut i: usize = 0;
        while i < closed.len()
            invariant
                self.wf(),
                i <= closed@.len(),
                self.published() == old(self).published(),
                self.next_id() == old(self).next_id(),
                forall|v: ViewerId| self.live().contains(v) <==> (old(self).live().contains(v) && !closed@.take(i as int).contains(v)),
                forall|v: ViewerId| self.live().contains(v) ==> self.sent_to(v) == old(self).sent_to(v),
            decreases closed@.len() - i,
        {
            let _was_live = self.remove_viewer(closed[i]);
            i = i + 1;
            proof {
                let c = closed@[i - 1];
                let t = closed@.take(i as int);
                let t0 = closed@.take(i - 1);
                assert(t =~= t0.push(c));
                assert forall|v: ViewerId| t.contains(v) <==> (t0.contains(v) || v == c) by {
                    if t.contains(v) {
                        let k = choose|k: int| 0 <= k < t.len() && t[k] == v;
                        if k < i - 1 {
                            assert(t0[k] == v);
                        }
                    }
                    if t0.contains(v) {
                        let k = choose|k: int| 0 <= k < t0.len() && t0[k] == v;
                        assert(t[k] == v);
                    }
                    if v == c {
                        assert(t[i - 1] == v);
                    }
                }
            }
        }
        proof {
            assert(closed@.take(closed@.len() as int) =~= closed@);
        }
    }

    /// A copy of the history.
    fn snapshot(&self) -> (r: Vec<Event>)
        ensures
            r@ == self.history@,
    {
        let mut out: Vec<Event> = Vec::new();
        let mut i: usize = 0;
        while i < self.history.len()
            invariant
                i <= self.history@.len(),
                out@ == self.history@.take(i as int),
            decreases self.history@.len() - i,
        {
            out.push(copy_event(&self.history[i]));
            i = i + 1;
            assert(out@ =~= self.history@.take(i as int));
        }
        assert(self.history@.take(self.history@.len() as int) =~= self.history@);
        out
    }

    /// A copy of the history, as sent to a new viewer.
    pub fn history(&self) -> (r: Vec<Event>)
        ensures
            r@ == self.published(),
    {
        self.snapshot()
    }
}

/// A viewer that joins finds in its greeting every event that the hub had
/// sent to any live viewer before: the greeting [`Hub::join`] hands out is
/// the history, and whatever a live viewer was sent is in the history.
pub proof fn lemma_greeting_complete(before: &Hub, v: ViewerId, e: Event, greeting: Seq<Event>)
    requires
        before.wf(),
        before.live().contains(v),
        before.sent_to(v).contains(e),
        greeting == before.published(),
    ensures
        greeting.contains(e),
{
    let i = choose|i: int| 0 <= i < before.live().len() && before.live()[i] == v;
    assert(before.sent_to(before.live()[i]) == before.published());
}

/// A live viewer receives the events of each user in the order in which
/// they were published.
pub proof fn lemma_per_sender_order(hub: &Hub, v: ViewerId, u: User)
    requires
        hub.wf(),
        hub.live().contains(v),
    ensures
        hub.sent_to(v).filter(|e: Event| e.user == u) == hub.published().filter(|e: Event| e.user == u),
{
    let i = choose|i: int| 0 <= i < hub.live().len() && hub.live()[i] == v;
    assert(hub.sent_to(hub.live()[i]) == hub.published());
}

} // verus!
