//! Connection sessions: the active ones, and a bounded history of closed
//! ones with the most recent first.
use vstd::prelude::*;

use crate::clock::Clock;
use crate::text::{copy_opt, opt_view, str_eq, views};

verus! {

/// The history keeps at most this many closed sessions.
pub const DEFAULT_CLOSED_HISTORY_LIMIT: usize = 500;

#[derive(PartialEq, Eq, Structural)]
pub enum SessionState {
    Active,
    Closed,
}

/// One relayed connection. Times are milliseconds on the manager's clock.
pub struct Session {
    pub id: String,
    pub source: String,
    pub target: String,
    pub proxy: String,
    pub policy: Option<String>,
    pub matched_rule: Option<String>,
    pub created_at: u64,
    pub closed_at: Option<u64>,
    pub state: SessionState,
    pub upload: u64,
    pub download: u64,
}

/// The value of a session, with texts by their characters.
pub struct SessionView {
    pub id: Seq<char>,
    pub source: Seq<char>,
    pub target: Seq<char>,
    pub proxy: Seq<char>,
    pub policy: Option<Seq<char>>,
    pub matched_rule: Option<Seq<char>>,
    pub created_at: u64,
    pub closed_at: Option<u64>,
    pub state: SessionState,
    pub upload: u64,
    pub download: u64,
}

/// A session as it is after closing at `t`.
pub open spec fn closed_view(s: SessionView, t: u64) -> SessionView {
    SessionView { state: SessionState::Closed, closed_at: Some(t), ..s }
}

impl Session {
    pub open spec fn view(&self) -> SessionView {
        SessionView {
            id: self.id@,
            source: self.source@,
            target: self.target@,
            proxy: self.proxy@,
            policy: opt_view(self.policy),
            matched_rule: opt_view(self.matched_rule),
            created_at: self.created_at,
            closed_at: self.closed_at,
            state: self.state,
            upload: self.upload,
            download: self.download,
        }
    }

    /// A new active session with no traffic, created at `now`.
    pub fn new(
        source: String,
        target: String,
        proxy: String,
        policy: Option<String>,
        matched_rule: Option<String>,
        id: String,
        now: u64,
    ) -> (r: Session)
        ensures
            r.view() == (SessionView {
                id: id@,
                source: source@,
                target: target@,
                proxy: proxy@,
                policy: opt_view(policy),
                matched_rule: opt_view(matched_rule),
                created_at: now,
                closed_at: None,
                state: SessionState::Active,
                upload: 0,
                download: 0,
            }),
    {
        Session {
            id,
            source,
            target,
            proxy,
            policy,
            matched_rule,
            created_at: now,
            closed_at: None,
            state: SessionState::Active,
            upload: 0,
            download: 0,
        }
    }

    /// A copy of the session.
    pub fn copy(&self) -> (r: Session)
        ensures
            r.view() == self.view(),
    {
        Session {
            id: self.id.clone(),
            source: self.source.clone(),
            target: self.target.clone(),
            proxy: self.proxy.clone(),
            policy: copy_opt(&self.policy),
            matched_rule: copy_opt(&self.matched_rule),
            created_at: self.created_at,
            closed_at: self.closed_at,
            state: match self.state {
                SessionState::Active => SessionState::Active,
                SessionState::Closed => SessionState::Closed,
            },
            upload: self.upload,
            download: self.download,
        }
    }

    /// Closes the session at `now`, which is not before its creation.
    pub fn close(&mut self, now: u64)
        requires
            now >= old(self).created_at,
        ensures
            final(self).view() == (SessionView {
                state: SessionState::Closed,
                closed_at: Some(now),
                ..old(self).view()
            }),
    {
        self.state = SessionState::Closed;
        self.closed_at = Some(now);
    }

    /// How long the session lasted, in milliseconds: until it closed, or
    /// until `now` while it is open (never negative).
    pub fn duration(&self, now: u64) -> (r: u64)
        ensures
            r == match self.closed_at {
                Some(c) => if c >= self.created_at {
                    (c - self.created_at) as u64
                } else {
                    0
                },
                None => if now >= self.created_at {
                    (now - self.created_at) as u64
                } else {
                    0
                },
            },
    {
        match self.closed_at {
            Some(c) => c.saturating_sub(self.created_at),
            None => now.saturating_sub(self.created_at),
        }
    }

    /// Bytes sent both ways.
    pub fn total_traffic(&self) -> (r: u64)
        requires
            self.upload + self.download <= u64::MAX,
        ensures
            r == self.upload + self.download,
    {
        self.upload + self.download
    }
}

pub open spec fn session_views(s: Seq<Session>) -> Seq<SessionView> {
    s.map_values(|x: Session| x.view())
}

pub open spec fn session_ids(s: Seq<Session>) -> Seq<Seq<char>> {
    s.map_values(|x: Session| x.id@)
}

pub open spec fn sum_upload(s: Seq<SessionView>) -> nat
    decreases s.len(),
{
    if s.len() == 0 {
        0
    } else {
        (sum_upload(s.drop_last()) + s.last().upload) as nat
    }
}

pub open spec fn sum_download(s: Seq<SessionView>) -> nat
    decreases s.len(),
{
    if s.len() == 0 {
        0
    } else {
        (sum_download(s.drop_last()) + s.last().download) as nat
    }
}

/// The history after `s` closes: `s` in front, the oldest dropped beyond
/// `limit`.
pub open spec fn push_front_bounded(h: Seq<SessionView>, s: SessionView, limit: nat) -> Seq<SessionView> {
    let n = seq![s] + h;
    if n.len() > limit {
        n.take(limit as int)
    } else {
        n
    }
}

/// The active sessions and the bounded history of closed ones.
pub struct SessionManager {
    sessions: Vec<Session>,
    closed_sessions: Vec<Session>,
    closed_history_limit: usize,
    clock: Clock,
}

impl SessionManager {
    pub closed spec fn active(&self) -> Seq<SessionView> {
        session_views(self.sessions@)
    }

    pub closed spec fn history(&self) -> Seq<SessionView> {
        session_views(self.closed_sessions@)
    }

    pub closed spec fn limit(&self) -> nat {
        self.closed_history_limit as nat
    }

    /// Session ids are unique among the active sessions, and the history
    /// holds at most `limit` sessions.
    pub closed spec fn wf(&self) -> bool {
        &&& session_ids(self.sessions@).no_duplicates()
        &&& self.closed_sessions@.len() <= self.closed_history_limit
        &&& self.closed_history_limit > 0
    }

    pub open spec fn active_ids(&self) -> Seq<Seq<char>> {
        self.active().map_values(|s: SessionView| s.id)
    }

    pub open spec fn active_index(&self, id: Seq<char>) -> int {
        crate::text::index_of_name(self.active_ids(), id)
    }

    /// An empty manager with the default history limit.
    pub fn new() -> (r: SessionManager)
        ensures
            r.wf(),
            r.active().len() == 0,
            r.history().len() == 0,
            r.limit() == DEFAULT_CLOSED_HISTORY_LIMIT,
    {
        let r = SessionManager {
            sessions: Vec::new(),
            closed_sessions: Vec::new(),
            closed_history_limit: DEFAULT_CLOSED_HISTORY_LIMIT,
            clock: Clock::new(),
        };
        assert(session_ids(r.sessions@) =~= Seq::empty());
        r
    }

    proof fn lemma_ids(&self)
        ensures
            self.active_ids() == session_ids(self.sessions@),
    {
        assert(self.active_ids() =~= session_ids(self.sessions@));
    }

    fn position(&self, id: &str) -> (r: Option<usize>)
        ensures
            match r {
                Some(i) => i < self.active().len() && self.active_index(id@) == i,
                None => self.active_index(id@) == -1,
            },
    {
        proof {
            self.lemma_ids();
            assert(self.active().len() == self.sessions@.len());
        }
        let mut i: usize = 0;
        while i < self.sessions.len()
            invariant
                i <= self.sessions@.len(),
                forall|j: int| 0 <= j < i ==> #[trigger] session_ids(self.sessions@)[j] != id@,
            decreases self.sessions.len() - i,
        {
            if str_eq(self.sessions[i].id.as_str(), id) {
                proof {
                    crate::text::lemma_index_of_name_exact(session_ids(self.sessions@), id@, i as int);
                    self.lemma_ids();
                    assert(self.active().len() == self.sessions@.len());
                }
                return Some(i);
            }
            i += 1;
        }
        proof {
            crate::text::lemma_index_of_name_exact(session_ids(self.sessions@), id@, -1);
            self.lemma_ids();
        }
        None
    }

    /// Adds a session with the given id, created at `now`; a session with the
    /// same id is replaced. Returns a copy of it.
    pub fn create_with(
        &mut self,
        source: String,
        target: String,
        proxy: String,
        policy: Option<String>,
        matched_rule: Option<String>,
        id: String,
        now: u64,
    ) -> (r: Session)
        requires
            old(self).wf(),
        ensures
            final(self).wf(),
            final(self).history() == old(self).history(),
            final(self).limit() == old(self).limit(),
            r.view() == (SessionView {
                id: id@,
                source: source@,
                target: target@,
                proxy: proxy@,
                policy: opt_view(policy),
                matched_rule: opt_view(matched_rule),
                created_at: now,
                closed_at: None,
                state: SessionState::Active,
                upload: 0,
                download: 0,
            }),
            final(self).active() == crate::outbound::upsert(
                old(self).active(),
                old(self).active_ids(),
                id@,
                r.view(),
            ),
    {
        let ghost old_active = self.active();
        proof {
            self.lemma_ids();
            crate::text::lemma_index_of_name(session_ids(self.sessions@), id@);
        }
        let pos = self.position(id.as_str());
        let session = Session::new(source, target, proxy, policy, matched_rule, id, now);
        let copy = session.copy();
        let ghost sv = session.view();
        let ghost ids = session_ids(self.sessions@);
        match pos {
            Some(k) => {
                self.sessions.set(k, session);
                proof {
                    assert(session_ids(self.sessions@) =~= ids);
                    assert(self.active() =~= old_active.update(k as int, sv));
                }
            },
            None => {
                self.sessions.push(session);
                proof {
                    assert(session_ids(self.sessions@) =~= ids.push(sv.id));
                    assert(self.active() =~= old_active.push(sv));
                    assert forall|a: int, b: int|
                        0 <= a < self.sessions@.len() && 0 <= b < self.sessions@.len() && a != b implies session_ids(
                        self.sessions@,
                    )[a] != session_ids(self.sessions@)[b] by {
                        if a == ids.len() as int {
                            assert(ids[b] != sv.id);
                        } else if b == ids.len() as int {
                            assert(ids[a] != sv.id);
                        }
                    }
                }
            },
        }
        copy
    }

    /// Adds a new session, with a fresh random id, created now.
    pub fn create(
        &mut self,
        source: String,
        target: String,
        proxy: String,
        policy: Option<String>,
        matched_rule: Option<String>,
    ) -> (r: Session)
        requires
            old(self).wf(),
        ensures
            final(self).wf(),
            final(self).history() == old(self).history(),
            r.view().source == source@ && r.view().target == target@ && r.view().proxy == proxy@,
            r.view().state == SessionState::Active && r.upload == 0 && r.download == 0,
            r.closed_at is None,
            final(self).active() == crate::outbound::upsert(
                old(self).active(),
                old(self).active_ids(),
                r.id@,
                r.view(),
            ),
    {
        let id = new_session_id();
        let now = self.clock.now_millis();
        self.create_with(source, target, proxy, policy, matched_rule, id, now)
    }

    /// A copy of the active session with this id.
    pub fn get(&self, id: &str) -> (r: Option<Session>)
        ensures
            match r {
                Some(s) => self.active_index(id@) >= 0 && s.view() == self.active()[self.active_index(id@)],
                None => self.active_index(id@) < 0,
            },
    {
        match self.position(id) {
            Some(k) => Some(self.sessions[k].copy()),
            None => None,
        }
    }

    /// Adds relayed bytes to the active session with this id.
    pub fn update_traffic(&mut self, id: &str, upload: u64, download: u64)
        requires
            old(self).wf(),
            old(self).active_index(id@) >= 0 ==> {
                let s = old(self).active()[old(self).active_index(id@)];
                s.upload + upload <= u64::MAX && s.download + download <= u64::MAX
            },
        ensures
            final(self).wf(),
            final(self).history() == old(self).history(),
            final(self).limit() == old(self).limit(),
            final(self).active() == if old(self).active_index(id@) >= 0 {
                let k = old(self).active_index(id@);
                let s = old(self).active()[k];
                old(self).active().update(
                    k,
                    SessionView { upload: (s.upload + upload) as u64, download: (s.download + download) as u64, ..s },
                )
            } else {
                old(self).active()
            },
    {
        let ghost old_active = self.active();
        match self.position(id) {
            Some(k) => {
                let mut s = self.sessions[k].copy();
                s.upload = s.upload + upload;
                s.download = s.download + download;
                let ghost sv = s.view();
                let ghost ids = session_ids(self.sessions@);
                self.sessions.set(k, s);
                proof {
                    assert(session_ids(self.sessions@) =~= ids);
                    assert(self.active() =~= old_active.update(k as int, sv));
                }
            },
            None => {},
        }
    }

    fn push_closed(&mut self, session: Session)
        requires
            old(self).wf(),
        ensures
            final(self).wf(),
            final(self).active() == old(self).active(),
            final(self).limit() == old(self).limit(),
            final(self).history() == push_front_bounded(old(self).history(), session.view(), old(self).limit()),
    {
        let ghost h = self.history();
        let ghost sv = session.view();
        self.closed_sessions.insert(0, session);
        proof {
            assert(self.history() =~= seq![sv] + h);
        }
        while self.closed_sessions.len() > self.closed_history_limit
            invariant
                self.sessions@ == old(self).sessions@,
                self.closed_history_limit == old(self).closed_history_limit,
                self.closed_history_limit > 0,
                session_ids(self.sessions@).no_duplicates(),
                self.closed_sessions@.len() <= h.len() + 1,
                self.closed_sessions@.len() < h.len() + 1 ==> self.closed_sessions@.len() >= self.closed_history_limit,
                self.history() == (seq![sv] + h).take(self.closed_sessions@.len() as int),
            decreases self.closed_sessions.len(),
        {
            self.closed_sessions.pop();
            assert(self.history() =~= (seq![sv] + h).take(self.closed_sessions@.len() as int));
        }
        proof {
            if self.closed_sessions@.len() == h.len() + 1 {
                assert(self.history() =~= seq![sv] + h);
            }
        }
    }

    /// Closes the active session with this id at `now` and puts it at the
    /// front of the history.
    pub fn close_at(&mut self, id: &str, now: u64)
        requires
            old(self).wf(),
            old(self).active_index(id@) >= 0 ==> now >= old(self).active()[old(self).active_index(id@)].created_at,
        ensures
            final(self).wf(),
            final(self).limit() == old(self).limit(),
            if old(self).active_index(id@) >= 0 {
                let k = old(self).active_index(id@);
                let s = old(self).active()[k];
                &&& final(self).active() == old(self).active().remove(k)
                &&& final(self).history() == push_front_bounded(
                    old(self).history(),
                    SessionView { state: SessionState::Closed, closed_at: Some(now), ..s },
                    old(self).limit(),
                )
            } else {
                &&& final(self).active() == old(self).active()
                &&& final(self).history() == old(self).history()
            },
    {
        match self.position(id) {
            Some(k) => {
                let ghost ids = session_ids(self.sessions@);
                let ghost old_active = self.active();
                let mut s = self.sessions.remove(k);
                proof {
                    assert(session_ids(self.sessions@) =~= ids.remove(k as int));
                    assert(self.active() =~= old_active.remove(k as int));
                    assert forall|a: int, b: int|
                        0 <= a < self.sessions@.len() && 0 <= b < self.sessions@.len() && a != b implies session_ids(
                        self.sessions@,
                    )[a] != session_ids(self.sessions@)[b] by {
                        let a2 = if a < k { a } else { a + 1 };
                        let b2 = if b < k { b } else { b + 1 };
                        assert(session_ids(self.sessions@)[a] == ids[a2]);
                        assert(session_ids(self.sessions@)[b] == ids[b2]);
                    }
                }
                s.close(now);
                self.push_closed(s);
            },
            None => {},
        }
    }

    /// Closes the active session with this id now.
    pub fn close(&mut self, id: &str)
        requires
            old(self).wf(),
        ensures
            final(self).wf(),
            final(self).limit() == old(self).limit(),
            old(self).active_index(id@) < 0 ==> final(self).active() == old(self).active()
                && final(self).history() == old(self).history(),
            old(self).active_index(id@) >= 0 ==> final(self).active() == old(self).active().remove(
                old(self).active_index(id@),
            ),
            old(self).active_index(id@) >= 0 ==> exists|t: u64|
                t >= old(self).active()[old(self).active_index(id@)].created_at && final(self).history()
                    == push_front_bounded(
                    old(self).history(),
                    #[trigger] closed_view(old(self).active()[old(self).active_index(id@)], t),
                    old(self).limit(),
                ),
    {
        let now = self.clock.now_millis();
        match self.position(id) {
            Some(k) => {
                // The clock never goes back, so a reading before the
                // session's creation does not occur; it would count as the
                // creation time.
                let created = self.sessions[k].created_at;
                let ghost before = *self;
                let at = if now < created {
                    created
                } else {
                    now
                };
                proof {
                    assert(before.active()[k as int].created_at == created);
                }
                self.close_at(id, at);
                proof {
                    assert(closed_view(before.active()[k as int], at) == (SessionView {
                        state: SessionState::Closed,
                        closed_at: Some(at),
                        ..before.active()[k as int]
                    }));
                }
            },
            None => {
                self.close_at(id, now);
            },
        }
    }

    /// Closes every active session.
    pub fn close_all(&mut self)
        requires
            old(self).wf(),
        ensures
            final(self).wf(),
            final(self).active().len() == 0,
            final(self).limit() == old(self).limit(),
    {
        while self.sessions.len() > 0
            invariant
                self.wf(),
                self.limit() == old(self).limit(),
            decreases self.sessions.len(),
        {
            let id = self.sessions[0].id.clone();
            proof {
                self.lemma_ids();
                crate::text::lemma_index_of_name(session_ids(self.sessions@), id@);
                assert(session_ids(self.sessions@)[0] == id@);
            }
            self.close(id.as_str());
        }
    }

    /// Empties the history of closed sessions.
    pub fn clear_history(&mut self)
        requires
            old(self).wf(),
        ensures
            final(self).wf(),
            final(self).active() == old(self).active(),
            final(self).history().len() == 0,
            final(self).limit() == old(self).limit(),
    {
        self.closed_sessions.clear();
    }

    /// Copies of the active sessions.
    pub fn get_active(&self) -> (r: Vec<Session>)
        ensures
            session_views(r@) == self.active(),
    {
        copy_sessions(self.sessions.as_slice(), self.sessions.len())
    }

    /// Copies of the active sessions (the same as `get_active`).
    pub fn get_all(&self) -> (r: Vec<Session>)
        ensures
            session_views(r@) == self.active(),
    {
        self.get_active()
    }

    /// Copies of the most recently closed sessions, newest first, at most
    /// `limit` and never more than the history holds.
    pub fn get_recent_closed(&self, limit: usize) -> (r: Vec<Session>)
        ensures
            r@.len() == vstd::math::min(
                vstd::math::min(limit as int, self.limit() as int),
                self.history().len() as int,
            ),
            session_views(r@) == self.history().take(r@.len() as int),
    {
        let n = if limit < self.closed_history_limit {
            limit
        } else {
            self.closed_history_limit
        };
        let m = if n < self.closed_sessions.len() {
            n
        } else {
            self.closed_sessions.len()
        };
        let r = copy_sessions(self.closed_sessions.as_slice(), m);
        r
    }

    /// Number of active sessions.
    pub fn count(&self) -> (r: usize)
        ensures
            r == self.active().len(),
    {
        self.sessions.len()
    }

    /// Bytes sent by the active sessions.
    pub fn total_upload(&self) -> (r: u64)
        requires
            sum_upload(self.active()) <= u64::MAX,
        ensures
            r == sum_upload(self.active()),
    {
        let mut total: u64 = 0;
        let mut i: usize = 0;
        while i < self.sessions.len()
            invariant
                i <= self.sessions@.len(),
                sum_upload(session_views(self.sessions@)) <= u64::MAX,
                total == sum_upload(session_views(self.sessions@).take(i as int)),
            decreases self.sessions.len() - i,
        {
            proof {
                assert(session_views(self.sessions@).take(i + 1).drop_last() =~= session_views(
                    self.sessions@,
                ).take(i as int));
                lemma_sum_upload_prefix(session_views(self.sessions@), i + 1);
            }
            total = total + self.sessions[i].upload;
            i += 1;
        }
        assert(session_views(self.sessions@).take(i as int) =~= session_views(self.sessions@));
        total
    }

    /// Bytes received by the active sessions.
    pub fn total_download(&self) -> (r: u64)
        requires
            sum_download(self.active()) <= u64::MAX,
        ensures
            r == sum_download(self.active()),
    {
        let mut total: u64 = 0;
        let mut i: usize = 0;
        while i < self.sessions.len()
            invariant
                i <= self.sessions@.len(),
                sum_download(session_views(self.sessions@)) <= u64::MAX,
                total == sum_download(session_views(self.sessions@).take(i as int)),
            decreases self.sessions.len() - i,
        {
            proof {
                assert(session_views(self.sessions@).take(i + 1).drop_last() =~= session_views(
                    self.sessions@,
                ).take(i as int));
                lemma_sum_download_prefix(session_views(self.sessions@), i + 1);
            }
            total = total + self.sessions[i].download;
            i += 1;
        }
        assert(session_views(self.sessions@).take(i as int) =~= session_views(self.sessions@));
        total
    }

    /// Whether the byte totals of the active sessions fit in a `u64`.
    pub fn totals_fit(&self) -> (r: bool)
        ensures
            r == (sum_upload(self.active()) <= u64::MAX && sum_download(self.active()) <= u64::MAX),
    {
        let mut up: u128 = 0;
        let mut down: u128 = 0;
        let mut i: usize = 0;
        while i < self.sessions.len()
            invariant
                i <= self.sessions@.len(),
                up == sum_upload(session_views(self.sessions@).take(i as int)),
                down == sum_download(session_views(self.sessions@).take(i as int)),
                up <= i * (u64::MAX as int),
                down <= i * (u64::MAX as int),
                i <= usize::MAX,
            decreases self.sessions.len() - i,
        {
            proof {
                assert(session_views(self.sessions@).take(i + 1).drop_last() =~= session_views(
                    self.sessions@,
                ).take(i as int));
                assert(i * (u64::MAX as int) + u64::MAX as int == (i + 1) * (u64::MAX as int)) by (nonlinear_arith);
                assert((i + 1) * (u64::MAX as int) <= 0x1_0000_0000_0000_0000 * 0x1_0000_0000_0000_0000) by (nonlinear_arith)
                    requires i + 1 <= 0x1_0000_0000_0000_0000;
            }
            up = up + self.sessions[i].upload as u128;
            down = down + self.sessions[i].download as u128;
            i += 1;
        }
        assert(session_views(self.sessions@).take(i as int) =~= session_views(self.sessions@));
        up <= u64::MAX as u128 && down <= u64::MAX as u128
    }
}

proof fn lemma_sum_upload_prefix(s: Seq<SessionView>, k: int)
    requires
        0 <= k <= s.len(),
    ensures
        sum_upload(s.take(k)) <= sum_upload(s),
    decreases s.len() - k,
{
    if k < s.len() {
        lemma_sum_upload_prefix(s, k + 1);
        assert(s.take(k + 1).drop_last() =~= s.take(k));
    } else {
        assert(s.take(k) =~= s);
    }
}

proof fn lemma_sum_download_prefix(s: Seq<SessionView>, k: int)
    requires
        0 <= k <= s.len(),
    ensures
        sum_download(s.take(k)) <= sum_download(s),
    decreases s.len() - k,
{
    if k < s.len() {
        lemma_sum_download_prefix(s, k + 1);
        assert(s.take(k + 1).drop_last() =~= s.take(k));
    } else {
        assert(s.take(k) =~= s);
    }
}

/// Copies the first `n` sessions.
fn copy_sessions(s: &[Session], n: usize) -> (r: Vec<Session>)
    requires
        n <= s.len(),
    ensures
        r@.len() == n,
        session_views(r@) == session_views(s@).take(n as int),
{
    let mut r: Vec<Session> = Vec::new();
    let mut i: usize = 0;
    while i < n
        invariant
            n <= s.len(),
            i <= n,
            r@.len() == i,
            forall|j: int| 0 <= j < i ==> (#[trigger] r@[j]).view() == s@[j].view(),
        decreases n - i,
    {
        r.push(s[i].copy());
        i += 1;
    }
    assert(session_views(r@) =~= session_views(s@).take(n as int));
    r
}

/// A fresh random session id (`uuid::Uuid::new_v4`, hyphenated). Nothing is
/// claimed of it: it is random.
#[verifier::external_body]
fn new_session_id() -> String {
    uuid::Uuid::new_v4().to_string()
}

/// Closing puts the closed session first in the history, keeps the earlier
/// closed sessions after it in their order, and keeps at most `limit`
/// sessions, dropping the oldest; the closed session is marked closed at
/// `t` and otherwise unchanged.
pub proof fn law_history_after_close(h: Seq<SessionView>, s: SessionView, t: u64, limit: nat)
    requires
        limit > 0,
    ensures
        ({
            let r = push_front_bounded(h, closed_view(s, t), limit);
            let c = closed_view(s, t);
            &&& r.len() == if h.len() + 1 > limit { limit as int } else { h.len() + 1int }
            &&& r[0] == c
            &&& forall|k: int| 0 <= k < r.len() - 1 ==> #[trigger] r[k + 1] == h[k]
            &&& c.state == SessionState::Closed && c.closed_at == Some(t)
            &&& c.id == s.id && c.source == s.source && c.target == s.target && c.proxy == s.proxy
            &&& c.policy == s.policy && c.matched_rule == s.matched_rule && c.created_at == s.created_at
            &&& c.upload == s.upload && c.download == s.download
        }),
{
}
} // verus!
