//! The session registry: sessions by identifier, each with the protocol
//! version it was opened with, its timestamps and at most one push channel.
use vstd::prelude::*;
use crate::stream_updates::McpSocketUpdateEvent;
use crate::text::push_char;
use tokio::sync::mpsc::{Receiver, Sender};

verus! {

#[verifier::external_type_specification]
#[verifier::external_body]
#[verifier::reject_recursive_types(T)]
pub struct ExSender<T>(tokio::sync::mpsc::Sender<T>);

#[verifier::external_type_specification]
#[verifier::external_body]
#[verifier::reject_recursive_types(T)]
pub struct ExReceiver<T>(tokio::sync::mpsc::Receiver<T>);

/// Relies on `uuid::Uuid::new_v4` for a random token, written by its
/// `Display` impl in the 36-character hyphenated form.
#[verifier::external_body]
fn new_session_token() -> (r: String)
    ensures
        r@.len() == 36,
{
    uuid::Uuid::new_v4().to_string()
}

/// Relies on `tokio::sync::mpsc::channel`: a bounded channel holding up to
/// `capacity` events. It panics on a capacity of zero and on one above
/// the semaphore's limit of `usize::MAX >> 3` (that is, `usize::MAX / 8`)
/// permits.
#[verifier::external_body]
fn open_channel(capacity: usize) -> (Sender<McpSocketUpdateEvent>, Receiver<McpSocketUpdateEvent>)
    requires
        0 < capacity <= usize::MAX / 8,
{
    tokio::sync::mpsc::channel(capacity)
}

/// Relies on `tokio::sync::mpsc::Sender::try_send`: hands `event` to the
/// channel without waiting. A full or closed channel drops it.
#[verifier::external_body]
fn notify(sender: &Sender<McpSocketUpdateEvent>, event: McpSocketUpdateEvent) {
    let _ = sender.try_send(event);
}

/// How many events a push channel holds before a send has to wait.
pub const PUSH_CHANNEL_CAPACITY: usize = 32;

/// What the registry knows of a session.
pub struct SessionView {
    pub version: Seq<char>,
    pub create: i64,
    pub last_access: i64,
    pub subscribed: bool,
}

/// A session: the protocol version, when it was opened and last used (in
/// microseconds), and the sender of its push channel once one is open.
pub struct McpSession {
    pub version: String,
    pub create: i64,
    pub last_access: i64,
    pub sender: Option<Sender<McpSocketUpdateEvent>>,
}

impl McpSession {
    pub open spec fn view(&self) -> SessionView {
        SessionView {
            version: self.version@,
            create: self.create,
            last_access: self.last_access,
            subscribed: self.sender is Some,
        }
    }
}

/// Sessions by identifier, identifiers unique.
pub struct McpSessions {
    data: Vec<(String, McpSession)>,
}

impl McpSessions {
    /// The sessions, in order of creation, with their identifiers.
    pub closed spec fn view(&self) -> Seq<(Seq<char>, SessionView)> {
        Seq::new(self.data@.len(), |i: int| (self.data@[i].0@, self.data@[i].1.view()))
    }

    /// No identifier is used twice.
    pub open spec fn well_formed(&self) -> bool {
        forall|i: int, j: int|
            0 <= i < j < self.view().len() ==> #[trigger] self.view()[i].0
                != #[trigger] self.view()[j].0
    }

    /// Whether a session has identifier `id`.
    pub open spec fn has(&self, id: Seq<char>) -> bool {
        exists|i: int| 0 <= i < self.view().len() && #[trigger] self.view()[i].0 == id
    }

    /// The sessions after session `id`, if there is one, was used at `now`.
    pub open spec fn touched(&self, id: Seq<char>, now: i64) -> Seq<(Seq<char>, SessionView)> {
        if self.has(id) {
            let i = choose|i: int| 0 <= i < self.view().len() && #[trigger] self.view()[i].0 == id;
            self.view().update(i, (id, SessionView { last_access: now, ..self.view()[i].1 }))
        } else {
            self.view()
        }
    }

    /// An empty registry.
    pub fn new() -> (r: Self)
        ensures
            r.well_formed(),
            r.view() == Seq::<(Seq<char>, SessionView)>::empty(),
    {
        let r = McpSessions { data: Vec::new() };
        assert(r.view() =~= Seq::<(Seq<char>, SessionView)>::empty());
        r
    }

    /// Number of sessions.
    pub fn len(&self) -> (r: usize)
        ensures
            r == self.view().len(),
    {
        self.data.len()
    }

    fn find(&self, id: &String) -> (r: Option<usize>)
        ensures
            r is Some ==> r->0 < self.view().len() && self.view()[r->0 as int].0 == id@,
            r is None ==> !self.has(id@),
    {
        let mut i: usize = 0;
        while i < self.data.len()
            invariant
                i <= self.data.len(),
                forall|k: int| 0 <= k < i ==> #[trigger] self.view()[k].0 != id@,
            decreases self.data.len() - i,
        {
            assert(self.view()[i as int].0 == self.data@[i as int].0@);
            if self.data[i].0 == *id {
                return Some(i);
            }
            i = i + 1;
        }
        None
    }

    /// Opens a session for protocol `version` at time `now` and returns its
    /// identifier: a random token, lengthened in the unlikely case that it
    /// is already in use, so that it is never the identifier of another
    /// session.
    pub fn generate_session(&mut self, version: String, now: i64) -> (r: String)
        requires
            old(self).well_formed(),
        ensures
            final(self).well_formed(),
            !old(self).has(r@),
            final(self).view() == old(self).view().push(
                (r@, SessionView { version: version@, create: now, last_access: now, subscribed: false }),
            ),
    {
        let mut longest: usize = 0;
        let mut i: usize = 0;
        while i < self.data.len()
            invariant
                i <= self.data.len(),
                forall|k: int| 0 <= k < i ==> (#[trigger] self.view()[k].0).len() <= longest,
            decreases self.data.len() - i,
        {
            assert(self.view()[i as int].0 == self.data@[i as int].0@);
            let n = self.data[i].0.as_str().unicode_len();
            if n > longest {
                longest = n;
            }
            i = i + 1;
        }
        let mut id = new_session_token();
        let mut taken = self.find(&id).is_some();
        while taken
            invariant
                forall|k: int| 0 <= k < self.view().len() ==> (#[trigger] self.view()[k].0).len() <= longest,
                taken ==> self.has(id@),
                !taken ==> !self.has(id@),
            decreases longest + 1 - id@.len(),
        {
            push_char(&mut id, '0');
            taken = self.find(&id).is_some();
        }
        let ghost before = self.view();
        let session = McpSession { version, create: now, last_access: now, sender: None };
        self.data.push((id.clone(), session));
        proof {
            assert(self.view() =~= before.push(
                (id@, SessionView { version: version@, create: now, last_access: now, subscribed: false }),
            ));
            assert forall|a: int, b: int|
                0 <= a < b < self.view().len() implies #[trigger] self.view()[a].0
                    != #[trigger] self.view()[b].0 by {
                if b == before.len() {
                    assert(self.view()[a].0 == before[a].0);
                } else {
                    assert(self.view()[a] == before[a]);
                    assert(self.view()[b] == before[b]);
                }
            }
        }
        id
    }

    /// Whether session `session_id` exists; if it does, its last use
    /// becomes `now`.
    pub fn check_session_and_update_last_used(&mut self, session_id: &str, now: i64) -> (r: bool)
        requires
            old(self).well_formed(),
        ensures
            final(self).well_formed(),
            r == old(self).has(session_id@),
            final(self).view() == old(self).touched(session_id@, now),
    {
        let id = String::from_str(session_id);
        match self.find(&id) {
            None => false,
            Some(i) => {
                let ghost before = self.view();
                let (key, mut session) = self.data.remove(i);
                session.last_access = now;
                self.data.insert(i, (key, session));
                proof {
                    let c = choose|c: int| 0 <= c < before.len() && #[trigger] before[c].0 == session_id@;
                    assert(c == i as int);
                    assert(self.view() =~= before.update(
                        i as int,
                        (session_id@, SessionView { last_access: now, ..before[i as int].1 }),
                    ));
                    assert forall|a: int, b: int|
                        0 <= a < b < self.view().len() implies #[trigger] self.view()[a].0
                            != #[trigger] self.view()[b].0 by {
                        assert(self.view()[a].0 == before[a].0);
                        assert(self.view()[b].0 == before[b].0);
                    }
                }
                true
            },
        }
    }

    /// Opens a push channel for session `session_id` and returns its
    /// receiving end, or `None` when there is no such session. The new
    /// channel replaces one opened before for that session: a session
    /// has at most one.
    pub fn subscribe_to_notifications(&mut self, session_id: &str) -> (r: Option<
        Receiver<McpSocketUpdateEvent>,
    >)
        requires
            old(self).well_formed(),
        ensures
            final(self).well_formed(),
            r is Some <==> old(self).has(session_id@),
            r is None ==> final(self).view() == old(self).view(),
            r is Some ==> exists|i: int|
                0 <= i < old(self).view().len() && old(self).view()[i].0 == session_id@
                    && final(self).view() == old(self).view().update(
                    i,
                    (session_id@, SessionView { subscribed: true, ..old(self).view()[i].1 }),
                ),
    {
        let id = String::from_str(session_id);
        match self.find(&id) {
            None => None,
            Some(i) => {
                let ghost before = self.view();
                let (sender, receiver) = open_channel(PUSH_CHANNEL_CAPACITY);
                let (key, mut session) = self.data.remove(i);
                session.sender = Some(sender);
                self.data.insert(i, (key, session));
                proof {
                    assert(self.view() =~= before.update(
                        i as int,
                        (session_id@, SessionView { subscribed: true, ..before[i as int].1 }),
                    ));
                    assert forall|a: int, b: int|
                        0 <= a < b < self.view().len() implies #[trigger] self.view()[a].0
                            != #[trigger] self.view()[b].0 by {
                        assert(self.view()[a].0 == before[a].0);
                        assert(self.view()[b].0 == before[b].0);
                    }
                }
                Some(receiver)
            },
        }
    }

    /// Evicts session `session_id`, telling its subscriber, if any, that
    /// the session is shut down. Returns whether the session existed.
    pub fn remove_session(&mut self, session_id: &str) -> (r: bool)
        requires
            old(self).well_formed(),
        ensures
            final(self).well_formed(),
            r == old(self).has(session_id@),
            !final(self).has(session_id@),
            !r ==> final(self).view() == old(self).view(),
            r ==> exists|i: int|
                0 <= i < old(self).view().len() && old(self).view()[i].0 == session_id@
                    && final(self).view() == old(self).view().remove(i),
    {
        let id = String::from_str(session_id);
        match self.find(&id) {
            None => false,
            Some(i) => {
                let ghost before = self.view();
                let (_key, session) = self.data.remove(i);
                if let Some(sender) = &session.sender {
                    notify(sender, McpSocketUpdateEvent::Shutdown);
                }
                proof {
                    assert(self.view() =~= before.remove(i as int));
                    assert forall|a: int, b: int|
                        0 <= a < b < self.view().len() implies #[trigger] self.view()[a].0
                            != #[trigger] self.view()[b].0 by {
                        if a >= i {
                            assert(self.view()[a] == before[a + 1]);
                        } else {
                            assert(self.view()[a] == before[a]);
                        }
                        if b >= i {
                            assert(self.view()[b] == before[b + 1]);
                        } else {
                            assert(self.view()[b] == before[b]);
                        }
                    }
                    if self.has(session_id@) {
                        let k = choose|k: int| 0 <= k < self.view().len() && #[trigger] self.view()[k].0 == session_id@;
                        if k >= i {
                            assert(before[k + 1].0 == session_id@);
                        } else {
                            assert(before[k].0 == session_id@);
                        }
                    }
                }
                true
            },
        }
    }

    /// Positions of the sessions that hold a push channel, in increasing
    /// order: the subscribers that a shutdown notifies.
    pub fn subscribed_sessions(&self) -> (r: Vec<usize>)
        ensures
            forall|k: int| 0 <= k < r@.len() ==> #[trigger] r@[k] < self.view().len() && self.view()[r@[k] as int].1.subscribed,
            forall|k: int, l: int| 0 <= k < l < r@.len() ==> #[trigger] r@[k] < #[trigger] r@[l],
            forall|i: int| 0 <= i < self.view().len() && #[trigger] self.view()[i].1.subscribed ==> r@.contains(i as usize),
    {
        let mut r: Vec<usize> = Vec::new();
        let mut i: usize = 0;
        while i < self.data.len()
            invariant
                i <= self.data.len(),
                forall|k: int| 0 <= k < r@.len() ==> #[trigger] r@[k] < i && self.view()[r@[k] as int].1.subscribed,
                forall|k: int, l: int| 0 <= k < l < r@.len() ==> #[trigger] r@[k] < #[trigger] r@[l],
                forall|j: int| 0 <= j < i && #[trigger] self.view()[j].1.subscribed ==> r@.contains(j as usize),
            decreases self.data.len() - i,
        {
            assert(self.view()[i as int].1.subscribed == self.data@[i as int].1.sender is Some);
            let ghost before = r@;
            if self.data[i].1.sender.is_some() {
                r.push(i);
                assert(r@[r@.len() - 1] == i);
                assert forall|j: int| 0 <= j < i && #[trigger] self.view()[j].1.subscribed implies r@.contains(j as usize) by {
                    let k = choose|k: int| 0 <= k < before.len() && before[k] == j as usize;
                    assert(r@[k] == before[k]);
                }
            }
            i = i + 1;
        }
        r
    }

    /// Evicts every session, sending `Shutdown` to the subscriber of each
    /// session in `subscribed_sessions`.
    pub fn shutdown(&mut self)
        ensures
            final(self).well_formed(),
            final(self).view() == Seq::<(Seq<char>, SessionView)>::empty(),
    {
        let targets = self.subscribed_sessions();
        let mut k: usize = 0;
        while k < targets.len()
            invariant
                k <= targets.len(),
                forall|j: int| 0 <= j < targets@.len() ==> #[trigger] targets@[j] < self.view().len(),
            decreases targets.len() - k,
        {
            let i = targets[k];
            if let Some(sender) = &self.data[i].1.sender {
                notify(sender, McpSocketUpdateEvent::Shutdown);
            }
            k = k + 1;
        }
        self.data = Vec::new();
        assert(self.view() =~= Seq::<(Seq<char>, SessionView)>::empty());
    }
}

/// Identifiers handed out by two `generate_session` calls in a row differ,
/// and both sessions remain registered: each call's result is no identifier
/// of the registry it was made on, and the registry grows by that session.
pub proof fn lemma_consecutive_sessions_distinct(
    s0: McpSessions,
    s1: McpSessions,
    s2: McpSessions,
    a: Seq<char>,
    b: Seq<char>,
    va: SessionView,
    vb: SessionView,
)
    requires
        !s0.has(a),
        s1.view() == s0.view().push((a, va)),
        !s1.has(b),
        s2.view() == s1.view().push((b, vb)),
    ensures
        a != b,
        s2.has(a),
        s2.has(b),
        s2.view().len() == s0.view().len() + 2,
{
    assert(s1.view()[s0.view().len() as int].0 == a);
    assert(s2.view()[s0.view().len() as int].0 == a);
    assert(s2.view()[s1.view().len() as int].0 == b);
}

/// In a well-formed registry every identifier names one session.
pub proof fn lemma_session_ids_unique(s: McpSessions, i: int, j: int)
    requires
        s.well_formed(),
        0 <= i < s.view().len(),
        0 <= j < s.view().len(),
        s.view()[i].0 == s.view()[j].0,
    ensures
        i == j,
{
    if i < j {
        assert(s.view()[i].0 != s.view()[j].0);
    } else if j < i {
        assert(s.view()[j].0 != s.view()[i].0);
    }
}


/// Subscribing twice to one session replaces its channel: given what two
/// successful `subscribe_to_notifications` calls on `id` guarantee, both
/// touched the same session, the second left the registry as the first did,
/// and no session was added.
pub proof fn lemma_resubscribe_replaces(
    s0: McpSessions,
    s1: McpSessions,
    s2: McpSessions,
    id: Seq<char>,
    i: int,
    j: int,
)
    requires
        s0.well_formed(),
        0 <= i < s0.view().len(),
        s0.view()[i].0 == id,
        s1.view() == s0.view().update(i, (id, SessionView { subscribed: true, ..s0.view()[i].1 })),
        0 <= j < s1.view().len(),
        s1.view()[j].0 == id,
        s2.view() == s1.view().update(j, (id, SessionView { subscribed: true, ..s1.view()[j].1 })),
    ensures
        i == j,
        s2.view() == s1.view(),
        s2.view().len() == s0.view().len(),
        s2.view()[i].1.subscribed,
{
    if i != j {
        assert(s0.view()[j].0 == id);
        lemma_session_ids_unique(s0, i, j);
    }
    assert(s2.view() =~= s1.view());
}

proof fn lemma_run_keeps_prefix(regs: Seq<McpSessions>, ids: Seq<Seq<char>>, views: Seq<SessionView>, k: int, j: int)
    requires
        regs.len() == ids.len() + 1,
        ids.len() == views.len(),
        forall|n: int| 0 < n <= ids.len() ==> #[trigger] regs[n].view() == regs[n - 1].view().push((ids[n - 1], views[n - 1])),
        0 <= k <= j < regs.len(),
    ensures
        regs[k].view().len() + (j - k) == regs[j].view().len(),
        forall|i: int| 0 <= i < regs[k].view().len() ==> #[trigger] regs[j].view()[i] == regs[k].view()[i],
        forall|n: int| k <= n < j ==> #[trigger] regs[j].view()[regs[k].view().len() + (n - k)].0 == ids[n],
    decreases j - k,
{
    if k < j {
        lemma_run_keeps_prefix(regs, ids, views, k, j - 1);
        assert(regs[j].view() == regs[j - 1].view().push((ids[j - 1], views[j - 1])));
        assert forall|n: int| k <= n < j implies #[trigger] regs[j].view()[regs[k].view().len() + (n - k)].0 == ids[n] by {
            if n < j - 1 {
                assert(regs[j].view()[regs[k].view().len() + (n - k)] == regs[j - 1].view()[regs[k].view().len() + (n - k)]);
            }
        }
    }
}

/// Identifiers handed out by a run of `generate_session` calls are pairwise
/// distinct, and none was in use before the run. `regs[n]` is the registry
/// before call `n`, `ids[n]` what the call returned and `views[n]` the
/// session it added, as `generate_session` guarantees.
pub proof fn lemma_session_run_distinct(regs: Seq<McpSessions>, ids: Seq<Seq<char>>, views: Seq<SessionView>)
    requires
        regs.len() == ids.len() + 1,
        ids.len() == views.len(),
        forall|n: int| 0 <= n < ids.len() ==> !(#[trigger] regs[n]).has(ids[n]),
        forall|n: int| 0 < n <= ids.len() ==> #[trigger] regs[n].view() == regs[n - 1].view().push((ids[n - 1], views[n - 1])),
    ensures
        forall|i: int, j: int| 0 <= i < j < ids.len() ==> #[trigger] ids[i] != #[trigger] ids[j],
        forall|i: int| 0 <= i < ids.len() ==> !regs[0].has(#[trigger] ids[i]),
{
    assert forall|i: int, j: int| 0 <= i < j < ids.len() implies #[trigger] ids[i] != #[trigger] ids[j] by {
        lemma_run_keeps_prefix(regs, ids, views, i, j);
        assert(regs[j].view()[regs[i].view().len() + (i - i)].0 == ids[i]);
        assert(!regs[j].has(ids[j]));
    }
    assert forall|i: int| 0 <= i < ids.len() implies !regs[0].has(#[trigger] ids[i]) by {
        lemma_run_keeps_prefix(regs, ids, views, 0, i);
        if regs[0].has(ids[i]) {
            let k = choose|k: int| 0 <= k < regs[0].view().len() && #[trigger] regs[0].view()[k].0 == ids[i];
            assert(regs[i].view()[k] == regs[0].view()[k]);
            assert(!regs[i].has(ids[i]));
        }
    }
}

} // verus!
