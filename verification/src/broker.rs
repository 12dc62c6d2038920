//! The broker's peer table: which sessions of which user are live.
//!
//! A user may be logged in several times at once. Each login gets a counter
//! from the user's entry, and the pair of user and counter names the
//! session. A message to a user goes to every live session of that user.

use vstd::prelude::*;
use crate::db::User;

verus! {

/// The entry of one user: the counter that the next session gets, and the
/// counters of the live sessions, oldest first.
pub struct Peer {
    user: User,
    next: u64,
    sessions: Vec<u64>,
}

/// The counters are in rising order and all below `next`.
pub open spec fn rising(sessions: Seq<u64>, next: u64) -> bool {
    &&& forall|i: int, j: int| 0 <= i < j < sessions.len() ==> sessions[i] < sessions[j]
    &&& forall|i: int| 0 <= i < sessions.len() ==> sessions[i] < next
}

/// `sessions` without the first occurrence of `counter`.
pub open spec fn without(sessions: Seq<u64>, counter: u64) -> Seq<u64>
    decreases sessions.len(),
{
    if sessions.len() == 0 {
        sessions
    } else if sessions[0] == counter {
        sessions.drop_first()
    } else {
        seq![sessions[0]] + without(sessions.drop_first(), counter)
    }
}

/// Taking out the element at `at` is taking out the first occurrence of the
/// value that stands there, where the value stands nowhere before.
pub proof fn lemma_without_at(sessions: Seq<u64>, at: int)
    requires
        0 <= at < sessions.len(),
        forall|i: int| 0 <= i < at ==> sessions[i] != sessions[at],
    ensures
        without(sessions, sessions[at]) == sessions.remove(at),
    decreases sessions.len(),
{
    if at == 0 {
        assert(sessions.remove(0) =~= sessions.drop_first());
    } else {
        let rest = sessions.drop_first();
        assert(rest[at - 1] == sessions[at]);
        lemma_without_at(rest, at - 1);
        assert(seq![sessions[0]] + rest.remove(at - 1) =~= sessions.remove(at));
    }
}

/// A value that does not occur is not taken out.
pub proof fn lemma_without_absent(sessions: Seq<u64>, counter: u64)
    requires
        !sessions.contains(counter),
    ensures
        without(sessions, counter) == sessions,
    decreases sessions.len(),
{
    if sessions.len() > 0 {
        let rest = sessions.drop_first();
        assert(sessions[0] != counter);
        assert forall|c: u64| rest.contains(c) implies sessions.contains(c) by {
            let i = choose|i: int| 0 <= i < rest.len() && rest[i] == c;
            assert(sessions[i + 1] == c);
        }
        lemma_without_absent(rest, counter);
        assert(seq![sessions[0]] + rest =~= sessions);
    }
}

/// The peer table.
pub struct Broker {
    peers: Vec<Peer>,
}

/// What the broker is told.
pub enum BrokerEvent<M> {
    /// A user has logged in on a new connection.
    NewPeer(User),
    /// A message from one user to another.
    Message { from: User, to: User, message: M },
    /// A session has ended.
    Disconnect { user: User, counter: u64 },
}

/// What is to be done after an event.
pub enum BrokerAction<M> {
    /// The new session has this counter; its mailbox is to be kept under the
    /// pair of user and counter.
    Registered { user: User, counter: u64 },
    /// The user has used up all counters; the connection is to be closed.
    Refused { user: User },
    /// The message is to be put into the mailbox of each of these sessions
    /// of `to`, once each. The list is empty where the recipient has no live
    /// session: the message is then dropped.
    Deliver { to: User, sessions: Vec<u64>, from: User, message: M },
    /// The session's mailbox is to be dropped, where there was such a
    /// session.
    Removed { user: User, counter: u64, existed: bool },
}

impl Broker {
    /// Every user has one entry at most, every entry has a live session, and
    /// the counters of an entry rise and stay below the entry's next one.
    pub closed spec fn wf(&self) -> bool {
        &&& forall|i: int, j: int|
            0 <= i < j < self.peers@.len() ==> self.peers@[i].user@ != self.peers@[j].user@
        &&& forall|i: int|
            0 <= i < self.peers@.len() ==> (#[trigger] self.peers@[i]).sessions@.len() > 0
        &&& forall|i: int|
            0 <= i < self.peers@.len() ==> rising(
                (#[trigger] self.peers@[i]).sessions@,
                self.peers@[i].next,
            )
    }

    /// Whether the user has an entry, which is to say a live session.
    pub closed spec fn has(&self, user: Seq<char>) -> bool {
        exists|i: int| 0 <= i < self.peers@.len() && #[trigger] self.peers@[i].user@ == user
    }

    closed spec fn place(&self, user: Seq<char>) -> int {
        choose|i: int| 0 <= i < self.peers@.len() && #[trigger] self.peers@[i].user@ == user
    }

    /// The counters of the user's live sessions, oldest first.
    pub closed spec fn sessions(&self, user: Seq<char>) -> Seq<u64> {
        if self.has(user) {
            self.peers@[self.place(user)].sessions@
        } else {
            Seq::<u64>::empty()
        }
    }

    /// The counter that the user's next session gets: zero for a user
    /// without a live session.
    pub closed spec fn next_counter(&self, user: Seq<char>) -> u64 {
        if self.has(user) {
            self.peers@[self.place(user)].next
        } else {
            0
        }
    }

    /// The entry at `at` is the entry of its user.
    proof fn lemma_place(&self, at: int)
        requires
            self.wf(),
            0 <= at < self.peers@.len(),
        ensures
            self.has(self.peers@[at].user@),
            self.place(self.peers@[at].user@) == at,
    {
        let user = self.peers@[at].user@;
        assert(self.peers@[at].user@ == user);
        let found = self.place(user);
        if found < at {
            assert(self.peers@[found].user@ != self.peers@[at].user@);
        } else if at < found {
            assert(self.peers@[at].user@ != self.peers@[found].user@);
        }
    }

    /// No session is in a user's list twice, so a message that goes to each
    /// session in the list reaches each live session once.
    pub proof fn lemma_sessions_distinct(&self, user: Seq<char>)
        requires
            self.wf(),
        ensures
            self.sessions(user).no_duplicates(),
            forall|i: int|
                0 <= i < self.sessions(user).len() ==> self.sessions(user)[i] < self.next_counter(
                    user,
                ),
            self.has(user) <==> self.sessions(user).len() > 0,
    {
        if self.has(user) {
            let at = self.place(user);
            let list = self.peers@[at].sessions@;
            assert(rising(list, self.peers@[at].next));
            assert forall|i: int, j: int| 0 <= i < list.len() && 0 <= j < list.len() && i
                != j implies list[i] != list[j] by {
                if i < j {
                    assert(list[i] < list[j]);
                } else {
                    assert(list[j] < list[i]);
                }
            }
        }
    }

    /// A table without sessions.
    pub fn new() -> (broker: Self)
        ensures
            broker.wf(),
            forall|user: Seq<char>| !broker.has(user),
    {
        Self { peers: Vec::new() }
    }

    /// The place of the user's entry.
    fn find(&self, user: &User) -> (at: Option<usize>)
        requires
            self.wf(),
        ensures
            match at {
                Some(i) => i < self.peers@.len() && self.has(user@) && self.place(user@) == i,
                None => !self.has(user@),
            },
    {
        let mut i: usize = 0;
        while i < self.peers.len()
            invariant
                self.wf(),
                i <= self.peers@.len(),
                forall|j: int| 0 <= j < i ==> self.peers@[j].user@ != user@,
            decreases self.peers@.len() - i,
        {
            if self.peers[i].user.is(user) {
                proof {
                    self.lemma_place(i as int);
                }
                return Some(i);
            }
            i = i + 1;
        }
        None
    }

    /// The counters of the user's live sessions, oldest first.
    pub fn sessions_of(&self, user: &User) -> (list: Vec<u64>)
        requires
            self.wf(),
        ensures
            list@ == self.sessions(user@),
    {
        match self.find(user) {
            None => Vec::new(),
            Some(at) => {
                let source = &self.peers[at].sessions;
                let mut list: Vec<u64> = Vec::new();
                let mut i: usize = 0;
                while i < source.len()
                    invariant
                        i <= source@.len(),
                        list@ == source@.take(i as int),
                    decreases source@.len() - i,
                {
                    list.push(source[i]);
                    i = i + 1;
                    assert(list@ =~= source@.take(i as int));
                }
                assert(source@.take(i as int) =~= source@);
                list
            },
        }
    }

    /// Registers a new session of the user and returns its counter: the
    /// user's next one, which then moves up by one. No counter is returned,
    /// and nothing changes, where the user's counters are used up.
    pub fn new_peer(&mut self, user: User) -> (counter: Option<u64>)
        requires
            old(self).wf(),
        ensures
            final(self).wf(),
            counter is Some <==> old(self).next_counter(user@) < u64::MAX,
            counter matches Some(c) ==> {
                &&& c == old(self).next_counter(user@)
                &&& final(self).sessions(user@) == old(self).sessions(user@).push(c)
                &&& final(self).next_counter(user@) == c + 1
            },
            counter is None ==> final(self).sessions(user@) == old(self).sessions(user@)
                && final(self).next_counter(user@) == old(self).next_counter(user@),
            forall|other: Seq<char>|
                other != user@ ==> final(self).sessions(other) == old(self).sessions(other)
                    && final(self).next_counter(other) == old(self).next_counter(other),
    {
        let ghost before = *self;
        match self.find(&user) {
            None => {
                let mut sessions: Vec<u64> = Vec::new();
                sessions.push(0);
                let peer = Peer { user, next: 1, sessions };
                self.peers.push(peer);
                proof {
                    let at = before.peers@.len() as int;
                    assert(self.peers@[at] == peer);
                    assert forall|i: int, j: int| 0 <= i < j < self.peers@.len() implies self.peers@[i].user@
                        != self.peers@[j].user@ by {
                        assert(self.peers@[i] == before.peers@[i]);
                        if j < at {
                            assert(self.peers@[j] == before.peers@[j]);
                        }
                    }
                    assert forall|i: int| 0 <= i < self.peers@.len() implies (
                    #[trigger] self.peers@[i]).sessions@.len() > 0 && rising(
                        self.peers@[i].sessions@,
                        self.peers@[i].next,
                    ) by {
                        if i < at {
                            assert(self.peers@[i] == before.peers@[i]);
                        }
                    }
                    self.lemma_place(at);
                    assert(peer.sessions@ =~= Seq::<u64>::empty().push(0u64));
                    assert forall|other: Seq<char>| other != user@ implies self.sessions(other)
                        == before.sessions(other) && self.next_counter(other)
                        == before.next_counter(other) by {
                        if before.has(other) {
                            let k = before.place(other);
                            assert(self.peers@[k] == before.peers@[k]);
                            self.lemma_place(k);
                        } else if self.has(other) {
                            let k = self.place(other);
                            assert(self.peers@[k] == before.peers@[k]);
                        }
                    }
                }
                Some(0)
            },
            Some(at) => {
                let counter = self.peers[at].next;
                if counter == u64::MAX {
                    return None;
                }
                let ghost held = self.peers@[at as int];
                self.peers[at].sessions.push(counter);
                self.peers[at].next = counter + 1;
                proof {
                    let now = self.peers@[at as int];
                    assert(now.user == held.user);
                    assert(now.sessions@ == held.sessions@.push(counter));
                    assert(rising(held.sessions@, held.next));
                    assert(self.peers@.len() == before.peers@.len());
                    assert forall|i: int| 0 <= i < self.peers@.len() && i != at implies self.peers@[i]
                        == before.peers@[i] by {}
                    assert forall|i: int, j: int| 0 <= i < j < self.peers@.len() implies self.peers@[i].user@
                        != self.peers@[j].user@ by {
                        assert(self.peers@[i].user@ == before.peers@[i].user@);
                        assert(self.peers@[j].user@ == before.peers@[j].user@);
                    }
                    assert forall|i: int| 0 <= i < self.peers@.len() implies (
                    #[trigger] self.peers@[i]).sessions@.len() > 0 && rising(
                        self.peers@[i].sessions@,
                        self.peers@[i].next,
                    ) by {
                        if i != at {
                            assert(self.peers@[i] == before.peers@[i]);
                        }
                    }
                    self.lemma_place(at as int);
                    assert forall|other: Seq<char>| other != user@ implies self.sessions(other)
                        == before.sessions(other) && self.next_counter(other)
                        == before.next_counter(other) by {
                        if before.has(other) {
                            let k = before.place(other);
                            assert(self.peers@[k] == before.peers@[k]);
                            self.lemma_place(k);
                        } else if self.has(other) {
                            let k = self.place(other);
                            assert(before.peers@[k].user@ == other);
                        }
                    }
                }
                Some(counter)
            },
        }
    }

    /// Ends the session of `user` with this counter, where there is one. An
    /// entry that loses its last session is removed, so that the user's
    /// counters start again at zero.
    pub fn disconnect(&mut self, user: &User, counter: u64) -> (existed: bool)
        requires
            old(self).wf(),
        ensures
            final(self).wf(),
            existed == old(self).sessions(user@).contains(counter),
            final(self).sessions(user@) == without(old(self).sessions(user@), counter),
            final(self).next_counter(user@) == if final(self).sessions(user@).len() == 0 {
                0
            } else {
                old(self).next_counter(user@)
            },
            forall|other: Seq<char>|
                other != user@ ==> final(self).sessions(other) == old(self).sessions(other)
                    && final(self).next_counter(other) == old(self).next_counter(other),
    {
        let ghost before = *self;
        let at = match self.find(user) {
            None => {
                proof {
                    lemma_without_absent(before.sessions(user@), counter);
                }
                return false;
            },
            Some(at) => at,
        };
        let ghost held = self.peers@[at as int];
        let ghost list = held.sessions@;
        let mut k: usize = 0;
        let count = self.peers[at].sessions.len();
        while k < count && self.peers[at].sessions[k] != counter
            invariant
                at < self.peers@.len(),
                self.peers@[at as int] == held,
                list == held.sessions@,
                count == list.len(),
                k <= count,
                forall|i: int| 0 <= i < k ==> list[i] != counter,
            decreases count - k,
        {
            k = k + 1;
        }
        if k == count {
            proof {
                lemma_without_absent(list, counter);
            }
            return false;
        }
        proof {
            lemma_without_at(list, k as int);
            assert(rising(list, held.next));
        }
        if count == 1 {
            self.peers.remove(at);
            proof {
                assert(list.remove(0) =~= Seq::<u64>::empty());
                assert forall|i: int| 0 <= i < self.peers@.len() implies self.peers@[i] == (if i
                    < at {
                    before.peers@[i]
                } else {
                    before.peers@[i + 1]
                }) by {}
                assert forall|i: int, j: int| 0 <= i < j < self.peers@.len() implies self.peers@[i].user@
                    != self.peers@[j].user@ by {
                    let a = if i < at { i } else { i + 1 };
                    let b = if j < at { j } else { j + 1 };
                    assert(before.peers@[a].user@ != before.peers@[b].user@);
                }
                assert forall|i: int| 0 <= i < self.peers@.len() implies (
                #[trigger] self.peers@[i]).sessions@.len() > 0 && rising(
                    self.peers@[i].sessions@,
                    self.peers@[i].next,
                ) by {
                    let a = if i < at { i } else { i + 1 };
                    assert(self.peers@[i] == before.peers@[a]);
                }
                if self.has(user@) {
                    let i = self.place(user@);
                    let a = if i < at { i } else { i + 1 };
                    assert(before.peers@[a].user@ == user@);
                    before.lemma_place(a);
                }
                assert forall|other: Seq<char>| other != user@ implies self.sessions(other)
                    == before.sessions(other) && self.next_counter(other) == before.next_counter(
                    other,
                ) by {
                    if before.has(other) {
                        let a = before.place(other);
                        let i = if a < at { a } else { a - 1 };
                        assert(self.peers@[i] == before.peers@[a]);
                        self.lemma_place(i);
                    } else if self.has(other) {
                        let i = self.place(other);
                        let a = if i < at { i } else { i + 1 };
                        assert(before.peers@[a].user@ == other);
                    }
                }
            }
        } else {
            self.peers[at].sessions.remove(k);
            proof {
                let now = self.peers@[at as int];
                assert(now.user == held.user);
                assert(now.next == held.next);
                assert(now.sessions@ == list.remove(k as int));
                assert(self.peers@.len() == before.peers@.len());
                assert forall|i: int, j: int| 0 <= i < j < self.peers@.len() implies self.peers@[i].user@
                    != self.peers@[j].user@ by {
                    assert(self.peers@[i].user@ == before.peers@[i].user@);
                    assert(self.peers@[j].user@ == before.peers@[j].user@);
                }
                assert forall|i: int| 0 <= i < self.peers@.len() implies (
                #[trigger] self.peers@[i]).sessions@.len() > 0 && rising(
                    self.peers@[i].sessions@,
                    self.peers@[i].next,
                ) by {
                    if i != at {
                        assert(self.peers@[i] == before.peers@[i]);
                    } else {
                        let cut = list.remove(k as int);
                        assert forall|x: int, y: int| 0 <= x < y < cut.len() implies cut[x]
                            < cut[y] by {
                            let a = if x < k { x } else { x + 1 };
                            let b = if y < k { y } else { y + 1 };
                            assert(list[a] < list[b]);
                        }
                        assert forall|x: int| 0 <= x < cut.len() implies cut[x] < held.next by {
                            let a = if x < k { x } else { x + 1 };
                            assert(list[a] < held.next);
                        }
                    }
                }
                self.lemma_place(at as int);
                assert forall|other: Seq<char>| other != user@ implies self.sessions(other)
                    == before.sessions(other) && self.next_counter(other) == before.next_counter(
                    other,
                ) by {
                    if before.has(other) {
                        let a = before.place(other);
                        assert(self.peers@[a] == before.peers@[a]);
                        self.lemma_place(a);
                    } else if self.has(other) {
                        let i = self.place(other);
                        assert(before.peers@[i].user@ == other);
                    }
                }
            }
        }
        true
    }

    /// Takes one event and says what is to be done.
    ///
    /// A new peer gets the user's next counter. A message is handed to every
    /// live session of its recipient and changes nothing in the table. A
    /// disconnect takes the session out of the table.
    pub fn handle<M>(&mut self, event: BrokerEvent<M>) -> (action: BrokerAction<M>)
        requires
            old(self).wf(),
        ensures
            final(self).wf(),
            match event {
                BrokerEvent::NewPeer(user) => {
                    &&& forall|other: Seq<char>|
                        other != user@ ==> final(self).sessions(other) == old(self).sessions(other)
                            && final(self).next_counter(other) == old(self).next_counter(other)
                    &&& if old(self).next_counter(user@) < u64::MAX {
                        &&& action matches BrokerAction::Registered { user: named, counter }
                        &&& named@ == user@
                        &&& counter == old(self).next_counter(user@)
                        &&& final(self).sessions(user@) == old(self).sessions(user@).push(counter)
                        &&& final(self).next_counter(user@) == counter + 1
                    } else {
                        &&& action matches BrokerAction::Refused { user: named }
                        &&& named@ == user@
                        &&& final(self).sessions(user@) == old(self).sessions(user@)
                        &&& final(self).next_counter(user@) == old(self).next_counter(user@)
                    }
                },
                BrokerEvent::Message { from, to, message } => {
                    &&& action matches BrokerAction::Deliver {
                        to: recipient,
                        sessions,
                        from: sender,
                        message: carried,
                    }
                    &&& recipient@ == to@
                    &&& sender@ == from@
                    &&& carried == message
                    &&& sessions@ == old(self).sessions(to@)
                    &&& sessions@.no_duplicates()
                    &&& forall|user: Seq<char>|
                        final(self).sessions(user) == old(self).sessions(user)
                            && final(self).next_counter(user) == old(self).next_counter(user)
                },
                BrokerEvent::Disconnect { user, counter } => {
                    &&& action matches BrokerAction::Removed {
                        user: named,
                        counter: ended,
                        existed,
                    }
                    &&& named@ == user@
                    &&& ended == counter
                    &&& existed == old(self).sessions(user@).contains(counter)
                    &&& final(self).sessions(user@) == without(old(self).sessions(user@), counter)
                    &&& final(self).next_counter(user@) == if final(self).sessions(user@).len()
                        == 0 {
                        0
                    } else {
                        old(self).next_counter(user@)
                    }
                    &&& forall|other: Seq<char>|
                        other != user@ ==> final(self).sessions(other) == old(self).sessions(other)
                            && final(self).next_counter(other) == old(self).next_counter(other)
                },
            },
    {
        match event {
            BrokerEvent::NewPeer(user) => {
                let copy = user.duplicate();
                match self.new_peer(copy) {
                    Some(counter) => BrokerAction::Registered { user, counter },
                    None => BrokerAction::Refused { user },
                }
            },
            BrokerEvent::Message { from, to, message } => {
                let sessions = self.sessions_of(&to);
                proof {
                    self.lemma_sessions_distinct(to@);
                }
                BrokerAction::Deliver { to, sessions, from, message }
            },
            BrokerEvent::Disconnect { user, counter } => {
                let existed = self.disconnect(&user, counter);
                BrokerAction::Removed { user, counter, existed }
            },
        }
    }
}

} // verus!
