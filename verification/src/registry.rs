//! The orchestration manager: the single mutation and query facade over the
//! registry of sessions, windows, agents and projects.
//!
//! Identifier uniqueness is a proved invariant: `wf` states that session
//! identifiers are unique in the registry, window identifiers are unique
//! within their session, and agent identifiers are unique across the whole
//! registry, and every creating operation preserves it.

use vstd::prelude::*;
use vstd::string::StringExecFns;
use crate::entities::{
    spec_has_agent_id, spec_has_window_id, Agent, AgentModel, AgentState, BunshinSession, Project,
    Window,
};
use crate::errors::OrchestratorError;
use crate::ident;
use crate::strutil::{str_eq, str_views, lemma_str_views_push};

verus! {

/// Whether some session in `ss` carries the identifier `id`.
pub open spec fn spec_has_session_id(ss: Seq<BunshinSession>, id: Seq<char>) -> bool {
    exists|i: int| 0 <= i < ss.len() && ss[i].id@ == id
}

/// Whether some project in `ps` carries the name `name`.
pub open spec fn spec_has_project_name(ps: Seq<Project>, name: Seq<char>) -> bool {
    exists|i: int| 0 <= i < ps.len() && ps[i].name@ == name
}

/// The registry of sessions and projects, plus the current context.
#[derive(Debug, Clone, PartialEq)]
pub struct BunshinManager {
    pub sessions: Vec<BunshinSession>,
    pub projects: Vec<Project>,
    pub current_session_id: Option<String>,
    pub current_window_id: Option<String>,
}

impl BunshinManager {
    /// Whether `(i, j, k)` addresses an agent of this registry.
    pub open spec fn spec_valid_agent_idx(&self, i: int, j: int, k: int) -> bool {
        &&& 0 <= i < self.sessions@.len()
        &&& 0 <= j < self.sessions@[i].windows@.len()
        &&& 0 <= k < self.sessions@[i].windows@[j].agents@.len()
    }

    /// The agent addressed by `(i, j, k)`.
    pub open spec fn spec_agent_at(&self, i: int, j: int, k: int) -> Agent {
        self.sessions@[i].windows@[j].agents@[k]
    }

    /// Whether some agent anywhere in the registry carries the identifier
    /// `id`.
    pub open spec fn spec_has_agent(&self, id: Seq<char>) -> bool {
        exists|i: int, j: int, k: int|
            self.spec_valid_agent_idx(i, j, k) && self.spec_agent_at(i, j, k).id@ == id
    }

    /// Session identifiers are unique in the registry.
    pub open spec fn spec_sessions_unique(&self) -> bool {
        forall|i1: int, i2: int|
            0 <= i1 < self.sessions@.len() && 0 <= i2 < self.sessions@.len()
                && (#[trigger] self.sessions@[i1]).id@ == (#[trigger] self.sessions@[i2]).id@
                ==> i1 == i2
    }

    /// Window identifiers are unique within each session.
    pub open spec fn spec_windows_unique(&self) -> bool {
        forall|i: int, j1: int, j2: int|
            0 <= i < self.sessions@.len() && 0 <= j1 < self.sessions@[i].windows@.len() && 0 <= j2
                < self.sessions@[i].windows@.len() && (#[trigger] self.sessions@[i].windows@[j1]).id@
                == (#[trigger] self.sessions@[i].windows@[j2]).id@ ==> j1 == j2
    }

    /// Agent identifiers are unique across the whole registry.
    pub open spec fn spec_agents_unique(&self) -> bool {
        forall|i1: int, j1: int, k1: int, i2: int, j2: int, k2: int|
            #![trigger self.spec_agent_at(i1, j1, k1), self.spec_agent_at(i2, j2, k2)]
            self.spec_valid_agent_idx(i1, j1, k1) && self.spec_valid_agent_idx(i2, j2, k2)
                && self.spec_agent_at(i1, j1, k1).id@ == self.spec_agent_at(i2, j2, k2).id@ ==> i1
                == i2 && j1 == j2 && k1 == k2
    }

    /// Every window and agent names the entities that own it.
    pub open spec fn spec_owners_consistent(&self) -> bool {
        &&& forall|i: int, j: int|
            0 <= i < self.sessions@.len() && 0 <= j < self.sessions@[i].windows@.len() ==> (
            #[trigger] self.sessions@[i].windows@[j]).session_id@ == self.sessions@[i].id@
        &&& forall|i: int, j: int, k: int|
            self.spec_valid_agent_idx(i, j, k) ==> (#[trigger] self.spec_agent_at(
                i,
                j,
                k,
            )).window_id@ == self.sessions@[i].windows@[j].id@ && self.spec_agent_at(
                i,
                j,
                k,
            ).session_id@ == self.sessions@[i].id@
    }

    /// Project names are unique in the registry.
    pub open spec fn spec_projects_unique(&self) -> bool {
        forall|i1: int, i2: int|
            0 <= i1 < self.projects@.len() && 0 <= i2 < self.projects@.len()
                && (#[trigger] self.projects@[i1]).name@ == (#[trigger] self.projects@[i2]).name@
                ==> i1 == i2
    }

    /// The registry's well-formedness: unique identifiers at every scope and
    /// consistent ownership references.
    pub open spec fn wf(&self) -> bool {
        &&& self.spec_sessions_unique()
        &&& self.spec_windows_unique()
        &&& self.spec_agents_unique()
        &&& self.spec_owners_consistent()
        &&& self.spec_projects_unique()
    }

    /// An empty registry with no current context.
    pub fn new() -> (m: BunshinManager)
        ensures
            m.sessions@ == Seq::<BunshinSession>::empty(),
            m.projects@ == Seq::<Project>::empty(),
            m.current_session_id is None,
            m.current_window_id is None,
            m.wf(),
    {
        let m = BunshinManager {
            sessions: Vec::new(),
            projects: Vec::new(),
            current_session_id: None,
            current_window_id: None,
        };
        proof {
            assert(m.sessions@ =~= Seq::<BunshinSession>::empty());
            assert(m.projects@ =~= Seq::<Project>::empty());
        }
        m
    }

    /// The identifiers of all sessions, in order.
    fn session_ids(&self) -> (ids: Vec<String>)
        ensures
            ids@.len() == self.sessions@.len(),
            forall|j: int| 0 <= j < ids@.len() ==> (#[trigger] ids@[j])@ == self.sessions@[j].id@,
    {
        let mut ids: Vec<String> = Vec::new();
        let mut i: usize = 0;
        while i < self.sessions.len()
            invariant
                i <= self.sessions@.len(),
                ids@.len() == i,
                forall|j: int| 0 <= j < i ==> (#[trigger] ids@[j])@ == self.sessions@[j].id@,
            decreases self.sessions@.len() - i,
        {
            ids.push(self.sessions[i].id.clone());
            i += 1;
        }
        ids
    }

    /// Where the session with identifier `session_id` sits in the registry.
    pub fn session_index(&self, session_id: &str) -> (r: Option<usize>)
        ensures
            match r {
                Some(i) => i < self.sessions@.len() && self.sessions@[i as int].id@ == session_id@,
                None => !spec_has_session_id(self.sessions@, session_id@),
            },
    {
        let mut i: usize = 0;
        while i < self.sessions.len()
            invariant
                i <= self.sessions@.len(),
                forall|j: int| 0 <= j < i ==> self.sessions@[j].id@ != session_id@,
            decreases self.sessions@.len() - i,
        {
            if str_eq(self.sessions[i].id.as_str(), session_id) {
                return Some(i);
            }
            i += 1;
        }
        None
    }

    /// The session with identifier `session_id`, if present.
    pub fn get_session(&self, session_id: &str) -> (r: Option<&BunshinSession>)
        ensures
            match r {
                Some(s) => exists|i: int|
                    0 <= i < self.sessions@.len() && *s == self.sessions@[i] && s.id@
                        == session_id@,
                None => !spec_has_session_id(self.sessions@, session_id@),
            },
    {
        match self.session_index(session_id) {
            Some(i) => Some(&self.sessions[i]),
            None => None,
        }
    }

    /// What `create_session` does: a session with a fresh identifier and one
    /// window named `main` is appended, and becomes the current context.
    pub open spec fn spec_create_session_post(
        pre: BunshinManager,
        post: BunshinManager,
        name: String,
        now: i64,
        sid: String,
    ) -> bool {
        let s = post.sessions@.last();
        &&& !spec_has_session_id(pre.sessions@, sid@)
        &&& sid@.len() >= 10
        &&& sid@.subrange(0, 2) == "s-"@
        &&& post.sessions@.len() == pre.sessions@.len() + 1
        &&& post.sessions@ == pre.sessions@.push(s)
        &&& s.id == sid
        &&& s.name == name
        &&& s.created_at == now
        &&& s.last_accessed == now
        &&& !s.is_active
        &&& s.windows@.len() == 1
        &&& s.windows@[0].name@ == "main"@
        &&& s.windows@[0].session_id@ == sid@
        &&& s.windows@[0].agents@ == Seq::<Agent>::empty()
        &&& post.projects == pre.projects
        &&& post.current_session_id matches Some(c) && c@ == sid@
        &&& post.current_window_id matches Some(w) && w@ == s.windows@[0].id@
    }

    /// Allocate a session with one default window, register it and make it
    /// the current context. Always succeeds; names need not be unique, the
    /// identifier is the real key. The second argument is kept for
    /// compatibility and ignored.
    pub fn create_session(&mut self, name: String, _worktree_path: String, now: i64) -> (sid:
        String)
        ensures
            Self::spec_create_session_post(*old(self), *final(self), name, now, sid),
            old(self).wf() ==> final(self).wf(),
    {
        let ids = self.session_ids();
        let sid = ident::fresh_id("s-", 8, &ids);
        proof {
            reveal_strlit("s-");
            if spec_has_session_id(self.sessions@, sid@) {
                let j = choose|j: int|
                    0 <= j < self.sessions@.len() && self.sessions@[j].id@ == sid@;
                assert(ids@[j]@ == sid@);
                assert(ident::spec_contains_string(ids@, sid@));
            }
        }
        let mut session = BunshinSession::new(name, now);
        session.id = sid.clone();
        let wid = session.add_window(String::from_str("main"), now);
        let ghost pre = *self;
        self.sessions.push(session);
        self.current_session_id = Some(sid.clone());
        self.current_window_id = Some(wid);
        proof {
            if pre.wf() {
                lemma_push_session_preserves_wf(pre, *self);
            }
        }
        sid
    }
}

/// Whether the position list holds `(a, b, c)`.
pub open spec fn spec_tr_covers(tr: Seq<(int, int, int)>, a: int, b: int, c: int) -> bool {
    exists|t: int| 0 <= t < tr.len() && #[trigger] tr[t] == (a, b, c)
}

/// Membership survives appending another position.
proof fn lemma_tr_covers_push(tr: Seq<(int, int, int)>, x: (int, int, int), a: int, b: int, c: int)
    requires
        spec_tr_covers(tr, a, b, c),
    ensures
        spec_tr_covers(tr.push(x), a, b, c),
{
    let t = choose|t: int| 0 <= t < tr.len() && #[trigger] tr[t] == (a, b, c);
    assert(tr.push(x)[t] == (a, b, c));
}

impl BunshinManager {
    /// The identifiers of all agents anywhere in the registry, with the
    /// position of each one's agent: the positions enumerate every agent
    /// exactly once, in scan order.
    fn all_agent_ids(&self) -> (r: (Vec<String>, Ghost<Seq<(int, int, int)>>))
        ensures
            r.1@.len() == r.0@.len(),
            forall|t: int| #![trigger r.1@[t]]
                0 <= t < r.1@.len() ==> self.spec_valid_agent_idx(
                    r.1@[t].0,
                    r.1@[t].1,
                    r.1@[t].2,
                ) && self.spec_agent_at(r.1@[t].0, r.1@[t].1, r.1@[t].2).id@ == r.0@[t]@,
            forall|a: int, b: int, c: int| #![trigger self.spec_valid_agent_idx(a, b, c)]
                self.spec_valid_agent_idx(a, b, c) ==> spec_tr_covers(r.1@, a, b, c),
            forall|t1: int, t2: int|
                0 <= t1 < t2 < r.1@.len() ==> (#[trigger] r.1@[t1]) != (#[trigger] r.1@[t2]),
    {
        let mut ids: Vec<String> = Vec::new();
        let ghost mut tr: Seq<(int, int, int)> = Seq::empty();
        let mut i: usize = 0;
        while i < self.sessions.len()
            invariant
                i <= self.sessions@.len(),
                tr.len() == ids@.len(),
                forall|t: int| #![trigger tr[t]]
                    0 <= t < tr.len() ==> self.spec_valid_agent_idx(tr[t].0, tr[t].1, tr[t].2)
                        && self.spec_agent_at(tr[t].0, tr[t].1, tr[t].2).id@ == ids@[t]@,
                forall|a: int, b: int, c: int| #![trigger self.spec_valid_agent_idx(a, b, c)]
                    0 <= a < i && self.spec_valid_agent_idx(a, b, c) ==> spec_tr_covers(
                        tr,
                        a,
                        b,
                        c,
                    ),
                forall|t: int|
                    0 <= t < tr.len() ==> spec_lex_lt(
                        (#[trigger] tr[t]).0,
                        tr[t].1,
                        tr[t].2,
                        i as int,
                        0,
                        0,
                    ),
                forall|t1: int, t2: int|
                    0 <= t1 < t2 < tr.len() ==> (#[trigger] tr[t1]) != (#[trigger] tr[t2]),
            decreases self.sessions@.len() - i,
        {
            let mut j: usize = 0;
            while j < self.sessions[i].windows.len()
                invariant
                    i < self.sessions@.len(),
                    j <= self.sessions@[i as int].windows@.len(),
                    tr.len() == ids@.len(),
                    forall|t: int| #![trigger tr[t]]
                        0 <= t < tr.len() ==> self.spec_valid_agent_idx(tr[t].0, tr[t].1, tr[t].2)
                            && self.spec_agent_at(tr[t].0, tr[t].1, tr[t].2).id@ == ids@[t]@,
                    forall|a: int, b: int, c: int| #![trigger self.spec_valid_agent_idx(a, b, c)]
                        (0 <= a < i || (a == i && 0 <= b < j)) && self.spec_valid_agent_idx(a, b, c)
                            ==> spec_tr_covers(tr, a, b, c),
                    forall|t: int|
                        0 <= t < tr.len() ==> spec_lex_lt(
                            (#[trigger] tr[t]).0,
                            tr[t].1,
                            tr[t].2,
                            i as int,
                            j as int,
                            0,
                        ),
                    forall|t1: int, t2: int|
                        0 <= t1 < t2 < tr.len() ==> (#[trigger] tr[t1]) != (#[trigger] tr[t2]),
                decreases self.sessions@[i as int].windows@.len() - j,
            {
                let mut k: usize = 0;
                while k < self.sessions[i].windows[j].agents.len()
                    invariant
                        i < self.sessions@.len(),
                        j < self.sessions@[i as int].windows@.len(),
                        k <= self.sessions@[i as int].windows@[j as int].agents@.len(),
                        tr.len() == ids@.len(),
                        forall|t: int| #![trigger tr[t]]
                            0 <= t < tr.len() ==> self.spec_valid_agent_idx(
                                tr[t].0,
                                tr[t].1,
                                tr[t].2,
                            ) && self.spec_agent_at(tr[t].0, tr[t].1, tr[t].2).id@ == ids@[t]@,
                        forall|a: int, b: int, c: int| #![trigger self.spec_valid_agent_idx(a, b, c)]
                            (0 <= a < i || (a == i && 0 <= b < j) || (a == i && b == j && 0 <= c
                                < k)) && self.spec_valid_agent_idx(a, b, c) ==> spec_tr_covers(
                                tr,
                                a,
                                b,
                                c,
                            ),
                        forall|t: int|
                            0 <= t < tr.len() ==> spec_lex_lt(
                                (#[trigger] tr[t]).0,
                                tr[t].1,
                                tr[t].2,
                                i as int,
                                j as int,
                                k as int,
                            ),
                        forall|t1: int, t2: int|
                            0 <= t1 < t2 < tr.len() ==> (#[trigger] tr[t1]) != (
                            #[trigger] tr[t2]),
                    decreases self.sessions@[i as int].windows@[j as int].agents@.len() - k,
                {
                    let ghost tr0 = tr;
                    ids.push(self.sessions[i].windows[j].agents[k].id.clone());
                    proof {
                        tr = tr.push((i as int, j as int, k as int));
                        assert forall|a: int, b: int, c: int|
                            #![trigger self.spec_valid_agent_idx(a, b, c)]
                            (0 <= a < i || (a == i && 0 <= b < j) || (a == i && b == j && 0 <= c < k
                                + 1)) && self.spec_valid_agent_idx(a, b, c) implies spec_tr_covers(
                            tr,
                            a,
                            b,
                            c,
                        ) by {
                            let ag = self.spec_agent_at(a, b, c);
                            if a == i && b == j && c == k {
                                assert(tr[tr.len() - 1] == (a, b, c));
                            } else {
                                assert(spec_tr_covers(tr0, a, b, c));
                                lemma_tr_covers_push(tr0, (i as int, j as int, k as int), a, b, c);
                            }
                        }
                    }
                    k += 1;
                }
                proof {
                    assert forall|a: int, b: int, c: int|
                        #![trigger self.spec_valid_agent_idx(a, b, c)]
                        (0 <= a < i || (a == i && 0 <= b < j + 1)) && self.spec_valid_agent_idx(
                            a,
                            b,
                            c,
                        ) implies spec_tr_covers(tr, a, b, c) by {
                        let ag = self.spec_agent_at(a, b, c);
                        assert((0 <= a < i || (a == i && 0 <= b < j) || (a == i && b == j && 0 <= c
                            < self.sessions@[i as int].windows@[j as int].agents@.len())));
                    }
                }
                j += 1;
            }
            proof {
                assert forall|a: int, b: int, c: int|
                    #![trigger self.spec_valid_agent_idx(a, b, c)]
                    0 <= a < i + 1 && self.spec_valid_agent_idx(a, b, c) implies spec_tr_covers(
                    tr,
                    a,
                    b,
                    c,
                ) by {
                    let ag = self.spec_agent_at(a, b, c);
                    assert((0 <= a < i || (a == i && 0 <= b
                        < self.sessions@[i as int].windows@.len())));
                }
            }
            i += 1;
        }
        proof {
            assert forall|a: int, b: int, c: int|
                #![trigger self.spec_valid_agent_idx(a, b, c)]
                self.spec_valid_agent_idx(a, b, c) implies spec_tr_covers(tr, a, b, c) by {
                let ag = self.spec_agent_at(a, b, c);
                assert(0 <= a < self.sessions@.len());
            }
        }
        (ids, Ghost(tr))
    }

    /// What `create_window` does: when the session exists, a fresh empty
    /// window is appended to it; otherwise nothing changes.
    pub open spec fn spec_create_window_post(
        pre: BunshinManager,
        post: BunshinManager,
        session_id: Seq<char>,
        name: String,
        now: i64,
        r: Result<String, OrchestratorError>,
    ) -> bool {
        match r {
            Ok(wid) => exists|si: int|
                {
                    &&& 0 <= si < pre.sessions@.len()
                    &&& (#[trigger] pre.sessions@[si]).id@ == session_id
                    &&& post.sessions@ == pre.sessions@.update(si, post.sessions@[si])
                    &&& post.sessions@[si] == (BunshinSession {
                        windows: post.sessions@[si].windows,
                        ..pre.sessions@[si]
                    })
                    &&& post.sessions@[si].windows@ == pre.sessions@[si].windows@.push(
                        post.sessions@[si].windows@.last(),
                    )
                    &&& !spec_has_window_id(pre.sessions@[si].windows@, wid@)
                    &&& post.sessions@[si].windows@.last().id == wid
                    &&& post.sessions@[si].windows@.last().name == name
                    &&& post.sessions@[si].windows@.last().session_id@ == session_id
                    &&& post.sessions@[si].windows@.last().agents@ == Seq::<Agent>::empty()
                    &&& post.sessions@[si].windows@.last().project is None
                    &&& post.sessions@[si].windows@.last().labels@ == Seq::<String>::empty()
                    &&& post.sessions@[si].windows@.last().worktree_path is None
                    &&& post.sessions@[si].windows@.last().branch is None
                    &&& post.sessions@[si].windows@.last().created_at == now
                    &&& post.projects == pre.projects
                    &&& post.current_session_id == pre.current_session_id
                    &&& post.current_window_id == pre.current_window_id
                },
            Err(e) => {
                &&& post == pre
                &&& !spec_has_session_id(pre.sessions@, session_id)
                &&& e matches OrchestratorError::NotFound(s) && s@ == session_id
            },
        }
    }

    /// Allocate a fresh window in the given session; fails if and only if
    /// the session is absent.
    pub fn create_window(&mut self, session_id: &str, name: String, now: i64) -> (r: Result<
        String,
        OrchestratorError,
    >)
        ensures
            Self::spec_create_window_post(*old(self), *final(self), session_id@, name, now, r),
            old(self).wf() ==> final(self).wf(),
    {
        match self.session_index(session_id) {
            None => Err(OrchestratorError::NotFound(session_id.to_owned())),
            Some(si) => {
                let ghost pre = *self;
                let session = &mut self.sessions[si];
                let wid = session.add_window(name, now);
                proof {
                    assert(Self::spec_create_window_post(
                        pre,
                        *self,
                        session_id@,
                        name,
                        now,
                        Ok(wid),
                    )) by {
                        assert(pre.sessions@[si as int].id@ == session_id@);
                    }
                    if pre.wf() {
                        lemma_session_push_window_preserves_wf(pre, *self, si as int);
                    }
                }
                Ok(wid)
            },
        }
    }

    /// What `spawn_agent` does: when the session and window exist, a fresh
    /// stopped agent whose identifier is new across the whole registry is
    /// appended to that window; otherwise nothing changes.
    pub open spec fn spec_spawn_ok_at(
        pre: BunshinManager,
        post: BunshinManager,
        session_id: Seq<char>,
        window_id: Seq<char>,
        name: String,
        model: AgentModel,
        now: i64,
        aid: String,
        si: int,
        wi: int,
    ) -> bool {
        &&& 0 <= si < pre.sessions@.len()
        &&& pre.sessions@[si].id@ == session_id
        &&& 0 <= wi < pre.sessions@[si].windows@.len()
        &&& pre.sessions@[si].windows@[wi].id@ == window_id
        &&& !pre.spec_has_agent(aid@)
        &&& post.sessions@ == pre.sessions@.update(si, post.sessions@[si])
        &&& post.sessions@[si] == (BunshinSession {
            windows: post.sessions@[si].windows,
            ..pre.sessions@[si]
        })
        &&& post.sessions@[si].windows@ == pre.sessions@[si].windows@.update(
            wi,
            post.sessions@[si].windows@[wi],
        )
        &&& post.sessions@[si].windows@[wi] == (Window {
            agents: post.sessions@[si].windows@[wi].agents,
            ..pre.sessions@[si].windows@[wi]
        })
        &&& post.sessions@[si].windows@[wi].agents@
            == pre.sessions@[si].windows@[wi].agents@.push(
            post.sessions@[si].windows@[wi].agents@.last(),
        )
        &&& post.sessions@[si].windows@[wi].agents@.last().id == aid
        &&& post.sessions@[si].windows@[wi].agents@.last().spec_fresh_data(name, model, now)
        &&& post.sessions@[si].windows@[wi].agents@.last().window_id@ == window_id
        &&& post.sessions@[si].windows@[wi].agents@.last().session_id@ == session_id
        &&& post.projects == pre.projects
        &&& post.current_session_id == pre.current_session_id
        &&& post.current_window_id == pre.current_window_id
    }

    pub open spec fn spec_spawn_agent_post(
        pre: BunshinManager,
        post: BunshinManager,
        session_id: Seq<char>,
        window_id: Seq<char>,
        name: String,
        model: AgentModel,
        now: i64,
        r: Result<String, OrchestratorError>,
    ) -> bool {
        match r {
            Ok(aid) => exists|si: int, wi: int|
                #![trigger pre.sessions@[si].windows@[wi]]
                Self::spec_spawn_ok_at(
                    pre,
                    post,
                    session_id,
                    window_id,
                    name,
                    model,
                    now,
                    aid,
                    si,
                    wi,
                ),
            Err(e) => {
                &&& post == pre
                &&& if !spec_has_session_id(pre.sessions@, session_id) {
                    e matches OrchestratorError::NotFound(s) && s@ == session_id
                } else {
                    &&& exists|si: int|
                        {
                            &&& 0 <= si < pre.sessions@.len()
                            &&& (#[trigger] pre.sessions@[si]).id@ == session_id
                            &&& !spec_has_window_id(pre.sessions@[si].windows@, window_id)
                        }
                    &&& (e matches OrchestratorError::NotFound(s) && s@ == window_id)
                }
            },
        }
    }

    /// Allocate a fresh stopped agent in the given window. The identifier is
    /// new across the whole registry; creating the entity never starts a
    /// process. Fails if and only if the session or window is absent.
    pub fn spawn_agent(
        &mut self,
        session_id: &str,
        window_id: &str,
        name: String,
        model: AgentModel,
        now: i64,
    ) -> (r: Result<String, OrchestratorError>)
        ensures
            Self::spec_spawn_agent_post(
                *old(self),
                *final(self),
                session_id@,
                window_id@,
                name,
                model,
                now,
                r,
            ),
            old(self).wf() ==> final(self).wf(),
    {
        let (ids, tr) = self.all_agent_ids();
        match self.session_index(session_id) {
            None => Err(OrchestratorError::NotFound(session_id.to_owned())),
            Some(si) => {
                match self.sessions[si].window_index(window_id) {
                    None => Err(OrchestratorError::NotFound(window_id.to_owned())),
                    Some(wi) => {
                        let aid = ident::fresh_id("a-", 4, &ids);
                        proof {
                            if self.spec_has_agent(aid@) {
                                let (a, b, c) = choose|a: int, b: int, c: int|
                                    self.spec_valid_agent_idx(a, b, c) && self.spec_agent_at(
                                        a,
                                        b,
                                        c,
                                    ).id@ == aid@;
                                assert(self.spec_valid_agent_idx(a, b, c));
                                assert(spec_tr_covers(tr@, a, b, c));
                                let t = choose|t: int|
                                    0 <= t < tr@.len() && #[trigger] tr@[t] == (a, b, c);
                                assert(ids@[t]@ == aid@);
                                assert(ident::spec_contains_string(ids@, aid@));
                            }
                        }
                        let ghost pre = *self;
                        let agent = Agent::with_id(
                            aid.clone(),
                            name,
                            self.sessions[si].windows[wi].id.clone(),
                            self.sessions[si].id.clone(),
                            model,
                            now,
                        );
                        let session = &mut self.sessions[si];
                        let window = &mut session.windows[wi];
                        window.agents.push(agent);
                        proof {
                            assert(Self::spec_spawn_agent_post(
                                pre,
                                *self,
                                session_id@,
                                window_id@,
                                name,
                                model,
                                now,
                                Ok(aid),
                            )) by {
                                assert(pre.sessions@[si as int].id@ == session_id@);
                                assert(pre.sessions@[si as int].windows@[wi as int].id@
                                    == window_id@);
                                assert(Self::spec_spawn_ok_at(
                                    pre,
                                    *self,
                                    session_id@,
                                    window_id@,
                                    name,
                                    model,
                                    now,
                                    aid,
                                    si as int,
                                    wi as int,
                                ));
                            }
                            if pre.wf() {
                                lemma_push_agent_preserves_wf(pre, *self, si as int, wi as int);
                            }
                        }
                        Ok(aid)
                    },
                }
            },
        }
    }
}

impl BunshinManager {
    /// Where the agent with identifier `agent_id` sits: session, window and
    /// agent position, scanning sessions in order.
    pub fn find_agent_loc(&self, agent_id: &str) -> (r: Option<(usize, usize, usize)>)
        ensures
            match r {
                Some(loc) => self.spec_valid_agent_idx(
                    loc.0 as int,
                    loc.1 as int,
                    loc.2 as int,
                ) && self.spec_agent_at(loc.0 as int, loc.1 as int, loc.2 as int).id@ == agent_id@,
                None => !self.spec_has_agent(agent_id@),
            },
    {
        let mut i: usize = 0;
        while i < self.sessions.len()
            invariant
                i <= self.sessions@.len(),
                forall|a: int, b: int, c: int| #![trigger self.spec_agent_at(a, b, c)]
                    0 <= a < i && self.spec_valid_agent_idx(a, b, c) ==> self.spec_agent_at(
                        a,
                        b,
                        c,
                    ).id@ != agent_id@,
            decreases self.sessions@.len() - i,
        {
            let mut j: usize = 0;
            while j < self.sessions[i].windows.len()
                invariant
                    i < self.sessions@.len(),
                    j <= self.sessions@[i as int].windows@.len(),
                    forall|a: int, b: int, c: int| #![trigger self.spec_agent_at(a, b, c)]
                        (0 <= a < i || (a == i && 0 <= b < j)) && self.spec_valid_agent_idx(a, b, c)
                            ==> self.spec_agent_at(a, b, c).id@ != agent_id@,
                decreases self.sessions@[i as int].windows@.len() - j,
            {
                let mut k: usize = 0;
                while k < self.sessions[i].windows[j].agents.len()
                    invariant
                        i < self.sessions@.len(),
                        j < self.sessions@[i as int].windows@.len(),
                        k <= self.sessions@[i as int].windows@[j as int].agents@.len(),
                        forall|a: int, b: int, c: int| #![trigger self.spec_agent_at(a, b, c)]
                            (0 <= a < i || (a == i && 0 <= b < j) || (a == i && b == j && 0 <= c
                                < k)) && self.spec_valid_agent_idx(a, b, c) ==> self.spec_agent_at(
                                a,
                                b,
                                c,
                            ).id@ != agent_id@,
                    decreases self.sessions@[i as int].windows@[j as int].agents@.len() - k,
                {
                    if str_eq(self.sessions[i].windows[j].agents[k].id.as_str(), agent_id) {
                        return Some((i, j, k));
                    }
                    k += 1;
                }
                j += 1;
            }
            i += 1;
        }
        None
    }

    /// The agent with identifier `agent_id`, with its owning session and
    /// window identifiers.
    pub fn find_agent(&self, agent_id: &str) -> (r: Option<(&str, &str, &Agent)>)
        ensures
            match r {
                Some(t) => exists|i: int, j: int, k: int|
                    #![trigger self.spec_agent_at(i, j, k)]
                    {
                        &&& self.spec_valid_agent_idx(i, j, k)
                        &&& t.0@ == self.sessions@[i].id@
                        &&& t.1@ == self.sessions@[i].windows@[j].id@
                        &&& *t.2 == self.spec_agent_at(i, j, k)
                        &&& t.2.id@ == agent_id@
                    },
                None => !self.spec_has_agent(agent_id@),
            },
    {
        match self.find_agent_loc(agent_id) {
            Some((i, j, k)) => Some(
                (
                    self.sessions[i].id.as_str(),
                    self.sessions[i].windows[j].id.as_str(),
                    &self.sessions[i].windows[j].agents[k],
                ),
            ),
            None => None,
        }
    }

    /// Whether the three identifiers address an agent: a session with the
    /// first, holding a window with the second, holding an agent with the
    /// third.
    pub open spec fn spec_addresses(
        &self,
        session_id: Seq<char>,
        window_id: Seq<char>,
        agent_id: Seq<char>,
    ) -> bool {
        exists|i: int, j: int, k: int|
            #![trigger self.spec_agent_at(i, j, k)]
            {
                &&& self.spec_valid_agent_idx(i, j, k)
                &&& self.sessions@[i].id@ == session_id
                &&& self.sessions@[i].windows@[j].id@ == window_id
                &&& self.spec_agent_at(i, j, k).id@ == agent_id
            }
    }

    /// The agent addressed by the given identifiers; `None` if and only if
    /// the session is absent, the window is absent in it, or the agent is
    /// absent in that window.
    pub fn get_agent(&self, session_id: &str, window_id: &str, agent_id: &str) -> (r: Option<
        &Agent,
    >)
        requires
            self.wf(),
        ensures
            match r {
                Some(a) => exists|i: int, j: int, k: int|
                    #![trigger self.spec_agent_at(i, j, k)]
                    {
                        &&& self.spec_valid_agent_idx(i, j, k)
                        &&& self.sessions@[i].id@ == session_id@
                        &&& self.sessions@[i].windows@[j].id@ == window_id@
                        &&& *a == self.spec_agent_at(i, j, k)
                        &&& a.id@ == agent_id@
                    },
                None => !self.spec_addresses(session_id@, window_id@, agent_id@),
            },
    {
        match self.session_index(session_id) {
            None => None,
            Some(i) => match self.sessions[i].window_index(window_id) {
                None => {
                    proof {
                        if self.spec_addresses(session_id@, window_id@, agent_id@) {
                            let (a, b, c) = choose|a: int, b: int, c: int|
                                #![trigger self.spec_agent_at(a, b, c)]
                                {
                                    &&& self.spec_valid_agent_idx(a, b, c)
                                    &&& self.sessions@[a].id@ == session_id@
                                    &&& self.sessions@[a].windows@[b].id@ == window_id@
                                    &&& self.spec_agent_at(a, b, c).id@ == agent_id@
                                };
                            assert(a == i as int);
                            assert(spec_has_window_id(
                                self.sessions@[i as int].windows@,
                                window_id@,
                            ));
                        }
                    }
                    None
                },
                Some(j) => match self.sessions[i].windows[j].agent_index(agent_id) {
                    None => {
                        proof {
                            if self.spec_addresses(session_id@, window_id@, agent_id@) {
                                let (a, b, c) = choose|a: int, b: int, c: int|
                                    #![trigger self.spec_agent_at(a, b, c)]
                                    {
                                        &&& self.spec_valid_agent_idx(a, b, c)
                                        &&& self.sessions@[a].id@ == session_id@
                                        &&& self.sessions@[a].windows@[b].id@ == window_id@
                                        &&& self.spec_agent_at(a, b, c).id@ == agent_id@
                                    };
                                assert(a == i as int);
                                assert(b == j as int);
                                assert(spec_has_agent_id(
                                    self.sessions@[i as int].windows@[j as int].agents@,
                                    agent_id@,
                                ));
                            }
                        }
                        None
                    },
                    Some(k) => {
                        proof {
                            assert(self.spec_valid_agent_idx(i as int, j as int, k as int));
                            assert(self.spec_agent_at(i as int, j as int, k as int).id@
                                == agent_id@);
                        }
                        Some(&self.sessions[i].windows[j].agents[k])
                    },
                },
            },
        }
    }

    /// What `kill_agent` does: when the agent exists, it is stopped (pid and
    /// uptime cleared) and its previously recorded pid is returned for the
    /// caller to signal; otherwise nothing changes. Killing is idempotent:
    /// see `lemma_kill_agent_idempotent`.
    pub open spec fn spec_kill_post(
        pre: BunshinManager,
        post: BunshinManager,
        id: Seq<char>,
        r: Result<Option<u32>, OrchestratorError>,
    ) -> bool {
        if pre.spec_has_agent(id) {
            &&& post.projects == pre.projects
            &&& post.current_session_id == pre.current_session_id
            &&& post.current_window_id == pre.current_window_id
            &&& exists|i: int, j: int, k: int|
                #![trigger pre.spec_agent_at(i, j, k)]
                {
                    &&& pre.spec_valid_agent_idx(i, j, k)
                    &&& pre.spec_agent_at(i, j, k).id@ == id
                    &&& r == Ok::<Option<u32>, OrchestratorError>(pre.spec_agent_at(i, j, k).pid)
                    &&& post.sessions@ == pre.sessions@.update(i, post.sessions@[i])
                    &&& post.sessions@[i] == (BunshinSession {
                        windows: post.sessions@[i].windows,
                        ..pre.sessions@[i]
                    })
                    &&& post.sessions@[i].windows@ == pre.sessions@[i].windows@.update(
                        j,
                        post.sessions@[i].windows@[j],
                    )
                    &&& post.sessions@[i].windows@[j] == (Window {
                        agents: post.sessions@[i].windows@[j].agents,
                        ..pre.sessions@[i].windows@[j]
                    })
                    &&& post.sessions@[i].windows@[j].agents@
                        == pre.sessions@[i].windows@[j].agents@.update(
                        k,
                        post.spec_agent_at(i, j, k),
                    )
                    &&& post.spec_agent_at(i, j, k) == (Agent {
                        state: AgentState::Stopped,
                        pid: None,
                        uptime_start: None,
                        ..pre.spec_agent_at(i, j, k)
                    })
                }
        } else {
            &&& post == pre
            &&& r matches Err(OrchestratorError::NotFound(s)) && s@ == id
        }
    }

    /// Stop the agent with identifier `agent_id` and hand back the pid that
    /// was recorded for it, if any, so that the caller can signal the OS
    /// process; the entity transition is authoritative. Fails if and only if
    /// the agent is absent.
    pub fn kill_agent(&mut self, agent_id: &str) -> (r: Result<Option<u32>, OrchestratorError>)
        ensures
            Self::spec_kill_post(*old(self), *final(self), agent_id@, r),
            old(self).wf() ==> final(self).wf(),
    {
        match self.find_agent_loc(agent_id) {
            None => Err(OrchestratorError::NotFound(agent_id.to_owned())),
            Some((i, j, k)) => {
                let ghost pre = *self;
                let pid = self.sessions[i].windows[j].agents[k].pid;
                let session = &mut self.sessions[i];
                let window = &mut session.windows[j];
                let agent = &mut window.agents[k];
                agent.stop();
                proof {
                    assert(Self::spec_kill_post(pre, *self, agent_id@, Ok(pid))) by {
                        assert(pre.spec_valid_agent_idx(i as int, j as int, k as int));
                        assert(pre.spec_agent_at(i as int, j as int, k as int).id@ == agent_id@);
                    }
                    if pre.wf() {
                        assert(spec_same_shape(pre, *self));
                        lemma_same_shape_preserves_wf(pre, *self);
                    }
                }
                Ok(pid)
            },
        }
    }
}

/// The labels after appending each of `add` in order, skipping any label
/// already present: adding is idempotent and never duplicates.
pub open spec fn spec_add_labels(cur: Seq<String>, add: Seq<String>) -> Seq<String>
    decreases add.len(),
{
    if add.len() == 0 {
        cur
    } else {
        let cur2 = if ident::spec_contains_string(cur, add[0]@) {
            cur
        } else {
            cur.push(add[0])
        };
        spec_add_labels(cur2, add.drop_first())
    }
}

/// Processing one more label on the right.
pub proof fn lemma_add_labels_snoc(cur: Seq<String>, s: Seq<String>, x: String)
    ensures
        spec_add_labels(cur, s.push(x)) == {
            let c = spec_add_labels(cur, s);
            if ident::spec_contains_string(c, x@) {
                c
            } else {
                c.push(x)
            }
        },
    decreases s.len(),
{
    if s.len() == 0 {
        assert(s.push(x).drop_first() =~= s);
        assert(s.push(x)[0] == x);
        let cur2 = if ident::spec_contains_string(cur, x@) {
            cur
        } else {
            cur.push(x)
        };
        assert(spec_add_labels(cur, s.push(x)) == spec_add_labels(cur2, s.push(x).drop_first()));
        assert(spec_add_labels(cur2, s) == cur2);
        assert(spec_add_labels(cur, s) == cur);
    } else {
        assert(s.push(x).drop_first() =~= s.drop_first().push(x));
        assert(s.push(x)[0] == s[0]);
        let cur2 = if ident::spec_contains_string(cur, s[0]@) {
            cur
        } else {
            cur.push(s[0])
        };
        assert(spec_add_labels(cur, s.push(x)) == spec_add_labels(cur2, s.drop_first().push(x)));
        assert(spec_add_labels(cur, s) == spec_add_labels(cur2, s.drop_first()));
        lemma_add_labels_snoc(cur2, s.drop_first(), x);
    }
}

/// The labels after removing every label that occurs in `rem`, keeping the
/// order of the rest.
pub open spec fn spec_remove_labels(cur: Seq<String>, rem: Seq<String>) -> Seq<String>
    decreases cur.len(),
{
    if cur.len() == 0 {
        Seq::empty()
    } else {
        spec_remove_labels(cur.drop_last(), rem) + (if ident::spec_contains_string(
            rem,
            cur.last()@,
        ) {
            Seq::empty()
        } else {
            seq![cur.last()]
        })
    }
}

/// Extending the prefix under removal by one element.
pub proof fn lemma_remove_labels_take_step(cur: Seq<String>, rem: Seq<String>, i: int)
    requires
        0 <= i < cur.len(),
    ensures
        spec_remove_labels(cur.take(i + 1), rem) == spec_remove_labels(cur.take(i), rem) + (
        if ident::spec_contains_string(rem, cur[i]@) {
            Seq::<String>::empty()
        } else {
            seq![cur[i]]
        }),
{
    assert(cur.take(i + 1).drop_last() =~= cur.take(i));
    assert(cur.take(i + 1).last() == cur[i]);
}

impl BunshinManager {
    /// Where the project named `name` sits in the registry.
    pub fn project_index(&self, name: &str) -> (r: Option<usize>)
        ensures
            match r {
                Some(i) => i < self.projects@.len() && self.projects@[i as int].name@ == name@,
                None => !spec_has_project_name(self.projects@, name@),
            },
    {
        let mut i: usize = 0;
        while i < self.projects.len()
            invariant
                i <= self.projects@.len(),
                forall|j: int| 0 <= j < i ==> self.projects@[j].name@ != name@,
            decreases self.projects@.len() - i,
        {
            if str_eq(self.projects[i].name.as_str(), name) {
                return Some(i);
            }
            i += 1;
        }
        None
    }

    /// The project named `name`, if present.
    pub fn get_project(&self, name: &str) -> (r: Option<&Project>)
        ensures
            match r {
                Some(p) => exists|i: int|
                    0 <= i < self.projects@.len() && *p == self.projects@[i] && p.name@ == name@,
                None => !spec_has_project_name(self.projects@, name@),
            },
    {
        match self.project_index(name) {
            Some(i) => Some(&self.projects[i]),
            None => None,
        }
    }

    /// Register a project; fails if and only if one of that name exists.
    pub fn create_project(&mut self, project: Project) -> (r: Result<(), OrchestratorError>)
        ensures
            if spec_has_project_name(old(self).projects@, project.name@) {
                &&& *final(self) == *old(self)
                &&& r matches Err(OrchestratorError::AlreadyExists(s)) && s@ == project.name@
            } else {
                &&& r is Ok
                &&& final(self).projects@ == old(self).projects@.push(project)
                &&& final(self).sessions == old(self).sessions
                &&& final(self).current_session_id == old(self).current_session_id
                &&& final(self).current_window_id == old(self).current_window_id
            },
            old(self).wf() ==> final(self).wf(),
    {
        match self.project_index(project.name.as_str()) {
            Some(_) => Err(OrchestratorError::AlreadyExists(project.name.clone())),
            None => {
                let ghost pre = *self;
                self.projects.push(project);
                proof {
                    if pre.wf() {
                        let n = pre.projects@.len() as int;
                        assert(self.spec_projects_unique()) by {
                            assert forall|i1: int, i2: int|
                                0 <= i1 < self.projects@.len() && 0 <= i2 < self.projects@.len()
                                    && (#[trigger] self.projects@[i1]).name@
                                    == (#[trigger] self.projects@[i2]).name@ implies i1 == i2 by {
                                if i1 < n && i2 < n {
                                    assert(self.projects@[i1] == pre.projects@[i1]);
                                    assert(self.projects@[i2] == pre.projects@[i2]);
                                } else if i1 == n && i2 < n {
                                    assert(spec_has_project_name(
                                        pre.projects@,
                                        self.projects@[i2].name@,
                                    ));
                                } else if i2 == n && i1 < n {
                                    assert(spec_has_project_name(
                                        pre.projects@,
                                        self.projects@[i1].name@,
                                    ));
                                }
                            }
                        }
                        assert(self.sessions@ == pre.sessions@);
                        assert(self.spec_sessions_unique());
                        assert(self.spec_windows_unique()) by {
                            assert(forall|i: int|
                                0 <= i < self.sessions@.len() ==> #[trigger] self.sessions@[i]
                                    == pre.sessions@[i]);
                        }
                        assert(self.spec_agents_unique()) by {
                            assert forall|i1: int, j1: int, k1: int, i2: int, j2: int, k2: int|
                                self.spec_valid_agent_idx(i1, j1, k1) && self.spec_valid_agent_idx(
                                    i2,
                                    j2,
                                    k2,
                                ) && (#[trigger] self.spec_agent_at(i1, j1, k1)).id@ == (
                                #[trigger] self.spec_agent_at(i2, j2, k2)).id@ implies i1 == i2
                                && j1 == j2 && k1 == k2 by {
                                assert(pre.spec_valid_agent_idx(i1, j1, k1));
                                assert(pre.spec_valid_agent_idx(i2, j2, k2));
                                assert(pre.spec_agent_at(i1, j1, k1) == self.spec_agent_at(
                                    i1,
                                    j1,
                                    k1,
                                ));
                                assert(pre.spec_agent_at(i2, j2, k2) == self.spec_agent_at(
                                    i2,
                                    j2,
                                    k2,
                                ));
                            }
                        }
                        assert(self.spec_owners_consistent()) by {
                            assert forall|i: int, j: int, k: int|
                                self.spec_valid_agent_idx(i, j, k) implies (
                            #[trigger] self.spec_agent_at(i, j, k)).window_id@
                                == self.sessions@[i].windows@[j].id@ && self.spec_agent_at(
                                i,
                                j,
                                k,
                            ).session_id@ == self.sessions@[i].id@ by {
                                assert(pre.spec_valid_agent_idx(i, j, k));
                                assert(pre.spec_agent_at(i, j, k) == self.spec_agent_at(i, j, k));
                            }
                        }
                    }
                }
                Ok(())
            },
        }
    }

    /// What `update_project` does: when the project exists, explicit fields
    /// replace the old ones, labels in `add_labels` are added without
    /// duplicates and labels in `remove_labels` are removed; otherwise
    /// nothing changes.
    pub open spec fn spec_update_project_post(
        pre: BunshinManager,
        post: BunshinManager,
        name: Seq<char>,
        description: Option<String>,
        repository: Option<String>,
        add: Seq<String>,
        rem: Seq<String>,
        r: Result<(), OrchestratorError>,
    ) -> bool {
        if spec_has_project_name(pre.projects@, name) {
            &&& r is Ok
            &&& post.sessions == pre.sessions
            &&& post.current_session_id == pre.current_session_id
            &&& post.current_window_id == pre.current_window_id
            &&& exists|i: int|
                #![trigger pre.projects@[i]]
                {
                    &&& 0 <= i < pre.projects@.len()
                    &&& pre.projects@[i].name@ == name
                    &&& post.projects@ == pre.projects@.update(i, post.projects@[i])
                    &&& post.projects@[i].name == pre.projects@[i].name
                    &&& post.projects@[i].description == (if description is Some {
                        description
                    } else {
                        pre.projects@[i].description
                    })
                    &&& post.projects@[i].repository == (if repository is Some {
                        repository
                    } else {
                        pre.projects@[i].repository
                    })
                    &&& post.projects@[i].labels@ == spec_remove_labels(
                        spec_add_labels(pre.projects@[i].labels@, add),
                        rem,
                    )
                    &&& post.projects@[i].created_at == pre.projects@[i].created_at
                }
        } else {
            &&& post == pre
            &&& r matches Err(OrchestratorError::NotFound(s)) && s@ == name
        }
    }

    /// Merge the given fields into the project named `name`: adding a label
    /// that is already present is a no-op, removing takes a set difference.
    /// Fails if and only if the project is absent.
    pub fn update_project(
        &mut self,
        name: &str,
        description: Option<String>,
        repository: Option<String>,
        add_labels: Vec<String>,
        remove_labels: Vec<String>,
    ) -> (r: Result<(), OrchestratorError>)
        ensures
            Self::spec_update_project_post(
                *old(self),
                *final(self),
                name@,
                description,
                repository,
                add_labels@,
                remove_labels@,
                r,
            ),
            old(self).wf() ==> final(self).wf(),
    {
        match self.project_index(name) {
            None => Err(OrchestratorError::NotFound(name.to_owned())),
            Some(i) => {
                let ghost pre = *self;
                let mut labels = crate::strutil::clone_string_vec(&self.projects[i].labels);
                let mut t: usize = 0;
                while t < add_labels.len()
                    invariant
                        t <= add_labels@.len(),
                        labels@ == spec_add_labels(
                            pre.projects@[i as int].labels@,
                            add_labels@.take(t as int),
                        ),
                    decreases add_labels@.len() - t,
                {
                    proof {
                        lemma_add_labels_snoc(
                            pre.projects@[i as int].labels@,
                            add_labels@.take(t as int),
                            add_labels@[t as int],
                        );
                        assert(add_labels@.take(t as int).push(add_labels@[t as int])
                            =~= add_labels@.take(t as int + 1));
                    }
                    if !ident::contains_string(&labels, add_labels[t].as_str()) {
                        labels.push(add_labels[t].clone());
                    }
                    t += 1;
                }
                proof {
                    assert(add_labels@.take(add_labels@.len() as int) =~= add_labels@);
                }
                let mut kept: Vec<String> = Vec::new();
                let mut u: usize = 0;
                while u < labels.len()
                    invariant
                        u <= labels@.len(),
                        kept@ == spec_remove_labels(labels@.take(u as int), remove_labels@),
                    decreases labels@.len() - u,
                {
                    proof {
                        lemma_remove_labels_take_step(labels@, remove_labels@, u as int);
                    }
                    if !ident::contains_string(&remove_labels, labels[u].as_str()) {
                        kept.push(labels[u].clone());
                        proof {
                            assert(kept@ =~= spec_remove_labels(
                                labels@.take(u as int),
                                remove_labels@,
                            ).push(labels@[u as int]));
                            assert(spec_remove_labels(labels@.take(u as int), remove_labels@)
                                + seq![labels@[u as int]] =~= spec_remove_labels(
                                labels@.take(u as int),
                                remove_labels@,
                            ).push(labels@[u as int]));
                        }
                    } else {
                        proof {
                            assert(spec_remove_labels(labels@.take(u as int), remove_labels@)
                                + Seq::<String>::empty() =~= spec_remove_labels(
                                labels@.take(u as int),
                                remove_labels@,
                            ));
                        }
                    }
                    u += 1;
                }
                proof {
                    assert(labels@.take(labels@.len() as int) =~= labels@);
                }
                let p = &mut self.projects[i];
                match description {
                    Some(d) => {
                        p.description = Some(d);
                    },
                    None => {},
                }
                match repository {
                    Some(rep) => {
                        p.repository = Some(rep);
                    },
                    None => {},
                }
                p.labels = kept;
                proof {
                    assert(pre.projects@[i as int].name@ == name@);
                    if pre.wf() {
                        assert(spec_same_shape(pre, *self)) by {
                            assert(self.sessions@ == pre.sessions@);
                            assert forall|a: int| 0 <= a < pre.projects@.len() implies (
                            #[trigger] self.projects@[a]).name@ == pre.projects@[a].name@ by {
                                if a != i {
                                    assert(self.projects@[a] == pre.projects@[a]);
                                }
                            }
                        }
                        lemma_same_shape_preserves_wf(pre, *self);
                    }
                }
                Ok(())
            },
        }
    }

    /// Unregister the project named `name`; fails if and only if it is
    /// absent. Agents that reference the project by name keep their tag.
    pub fn delete_project(&mut self, name: &str) -> (r: Result<(), OrchestratorError>)
        ensures
            if spec_has_project_name(old(self).projects@, name@) {
                &&& r is Ok
                &&& exists|i: int|
                    {
                        &&& 0 <= i < old(self).projects@.len()
                        &&& (#[trigger] old(self).projects@[i]).name@ == name@
                        &&& final(self).projects@ == old(self).projects@.remove(i)
                    }
                &&& final(self).sessions == old(self).sessions
                &&& final(self).current_session_id == old(self).current_session_id
                &&& final(self).current_window_id == old(self).current_window_id
            } else {
                &&& *final(self) == *old(self)
                &&& r matches Err(OrchestratorError::NotFound(s)) && s@ == name@
            },
            old(self).wf() ==> final(self).wf(),
    {
        match self.project_index(name) {
            None => Err(OrchestratorError::NotFound(name.to_owned())),
            Some(i) => {
                let ghost pre = *self;
                self.projects.remove(i);
                proof {
                    if pre.wf() {
                        assert(self.spec_projects_unique()) by {
                            assert forall|i1: int, i2: int|
                                0 <= i1 < self.projects@.len() && 0 <= i2 < self.projects@.len()
                                    && (#[trigger] self.projects@[i1]).name@
                                    == (#[trigger] self.projects@[i2]).name@ implies i1 == i2 by {
                                let p1 = if i1 < i { i1 } else { i1 + 1 };
                                let p2 = if i2 < i { i2 } else { i2 + 1 };
                                assert(self.projects@[i1] == pre.projects@[p1]);
                                assert(self.projects@[i2] == pre.projects@[p2]);
                            }
                        }
                        assert(self.sessions@ == pre.sessions@);
                        assert(self.spec_windows_unique()) by {
                            assert(forall|a: int|
                                0 <= a < self.sessions@.len() ==> #[trigger] self.sessions@[a]
                                    == pre.sessions@[a]);
                        }
                        assert(self.spec_agents_unique()) by {
                            assert forall|i1: int, j1: int, k1: int, i2: int, j2: int, k2: int|
                                self.spec_valid_agent_idx(i1, j1, k1) && self.spec_valid_agent_idx(
                                    i2,
                                    j2,
                                    k2,
                                ) && (#[trigger] self.spec_agent_at(i1, j1, k1)).id@ == (
                                #[trigger] self.spec_agent_at(i2, j2, k2)).id@ implies i1 == i2
                                && j1 == j2 && k1 == k2 by {
                                assert(pre.spec_valid_agent_idx(i1, j1, k1));
                                assert(pre.spec_valid_agent_idx(i2, j2, k2));
                                assert(pre.spec_agent_at(i1, j1, k1) == self.spec_agent_at(
                                    i1,
                                    j1,
                                    k1,
                                ));
                                assert(pre.spec_agent_at(i2, j2, k2) == self.spec_agent_at(
                                    i2,
                                    j2,
                                    k2,
                                ));
                            }
                        }
                        assert(self.spec_owners_consistent()) by {
                            assert forall|a: int, b: int, c: int|
                                self.spec_valid_agent_idx(a, b, c) implies (
                            #[trigger] self.spec_agent_at(a, b, c)).window_id@
                                == self.sessions@[a].windows@[b].id@ && self.spec_agent_at(
                                a,
                                b,
                                c,
                            ).session_id@ == self.sessions@[a].id@ by {
                                assert(pre.spec_valid_agent_idx(a, b, c));
                                assert(pre.spec_agent_at(a, b, c) == self.spec_agent_at(a, b, c));
                            }
                        }
                    }
                }
                Ok(())
            },
        }
    }

    /// Point the current context at the given session and window.
    pub fn set_current_context(&mut self, session_id: Option<String>, window_id: Option<String>)
        ensures
            *final(self) == (BunshinManager {
                current_session_id: session_id,
                current_window_id: window_id,
                ..*old(self)
            }),
    {
        self.current_session_id = session_id;
        self.current_window_id = window_id;
    }

    /// The current context: the session and window that commands without an
    /// explicit target act on.
    pub fn get_current_context(&self) -> (r: (Option<&str>, Option<&str>))
        ensures
            match r.0 {
                Some(s) => self.current_session_id matches Some(c) && s@ == c@,
                None => self.current_session_id is None,
            },
            match r.1 {
                Some(s) => self.current_window_id matches Some(c) && s@ == c@,
                None => self.current_window_id is None,
            },
    {
        let sid = match &self.current_session_id {
            Some(s) => Some(s.as_str()),
            None => None,
        };
        let wid = match &self.current_window_id {
            Some(s) => Some(s.as_str()),
            None => None,
        };
        (sid, wid)
    }

    /// Remove the session with identifier `session_id` and hand it back; the
    /// current context is cleared first when it points at that session.
    pub fn remove_session(&mut self, session_id: &str) -> (r: Option<BunshinSession>)
        ensures
            match r {
                Some(s) => {
                    &&& exists|i: int|
                        {
                            &&& 0 <= i < old(self).sessions@.len()
                            &&& s == (#[trigger] old(self).sessions@[i])
                            &&& s.id@ == session_id@
                            &&& final(self).sessions@ == old(self).sessions@.remove(i)
                        }
                    &&& final(self).projects == old(self).projects
                },
                None => {
                    &&& !spec_has_session_id(old(self).sessions@, session_id@)
                    &&& final(self).sessions == old(self).sessions
                    &&& final(self).projects == old(self).projects
                },
            },
            (match old(self).current_session_id {
                Some(c) => if c@ == session_id@ {
                    final(self).current_session_id is None && final(self).current_window_id is None
                } else {
                    final(self).current_session_id == old(self).current_session_id && final(self).current_window_id == old(self).current_window_id
                },
                None => final(self).current_session_id == old(self).current_session_id && final(self).current_window_id == old(self).current_window_id,
            }),
            old(self).wf() ==> final(self).wf(),
    {
        let clear = match &self.current_session_id {
            Some(c) => str_eq(c.as_str(), session_id),
            None => false,
        };
        if clear {
            self.current_session_id = None;
            self.current_window_id = None;
        }
        proof {
            if old(self).wf() {
                lemma_wf_depends_on_entities(*old(self), *self);
            }
        }
        match self.session_index(session_id) {
            None => None,
            Some(i) => {
                let ghost pre = *self;
                let s = self.sessions.remove(i);
                proof {
                    if pre.wf() {
                        lemma_remove_session_preserves_wf(pre, *self, i as int);
                    }
                    assert(s == old(self).sessions@[i as int]);
                    assert(self.sessions@ == old(self).sessions@.remove(i as int));
                    assert(s.id@ == session_id@);
                }
                Some(s)
            },
        }
    }
}

/// A filter over agents: by label intersection or by exact project tag.
pub enum AgentFilter {
    Labels(Vec<String>),
    Project(String),
}

/// The predicate an `AgentFilter` denotes.
pub open spec fn filter_fn(filter: AgentFilter) -> spec_fn(Agent) -> bool {
    match filter {
        AgentFilter::Labels(ls) => label_match_fn(ls@),
        AgentFilter::Project(n) => project_match_fn(n@),
    }
}

/// Whether the agent carries any of the given labels.
fn label_matches(a: &Agent, ls: &Vec<String>) -> (r: bool)
    ensures
        r == spec_label_match(*a, ls@),
{
    let mut x: usize = 0;
    while x < ls.len()
        invariant
            x <= ls@.len(),
            forall|y: int|
                0 <= y < x ==> !ident::spec_contains_string(a.labels@, (#[trigger] ls@[y])@),
        decreases ls@.len() - x,
    {
        if ident::contains_string(&a.labels, ls[x].as_str()) {
            proof {
                assert(ident::spec_contains_string(a.labels@, (ls@[x as int])@));
            }
            return true;
        }
        x += 1;
    }
    false
}

/// Whether the agent passes the filter.
fn agent_matches(a: &Agent, filter: &AgentFilter) -> (r: bool)
    ensures
        r == filter_fn(*filter)(*a),
{
    match filter {
        AgentFilter::Labels(ls) => label_matches(a, ls),
        AgentFilter::Project(n) => match &a.project {
            Some(p) => str_eq(p.as_str(), n.as_str()),
            None => false,
        },
    }
}

/// Whether `(a, b, c)` comes before `(i, j, k)` in scan order.
pub open spec fn spec_lex_lt(a: int, b: int, c: int, i: int, j: int, k: int) -> bool {
    a < i || (a == i && (b < j || (b == j && c < k)))
}

/// Whether the agent carries any of the given labels.
pub open spec fn spec_label_match(a: Agent, labels: Seq<String>) -> bool {
    exists|x: int|
        0 <= x < labels.len() && ident::spec_contains_string(a.labels@, (#[trigger] labels[x])@)
}

/// The label filter as a predicate on agents.
pub open spec fn label_match_fn(labels: Seq<String>) -> spec_fn(Agent) -> bool {
    |a: Agent| spec_label_match(a, labels)
}

/// Whether the agent carries exactly the given project tag.
pub open spec fn spec_project_match(a: Agent, name: Seq<char>) -> bool {
    a.project matches Some(p) && p@ == name
}

/// The project filter as a predicate on agents.
pub open spec fn project_match_fn(name: Seq<char>) -> spec_fn(Agent) -> bool {
    |a: Agent| spec_project_match(a, name)
}

/// The identifier of an agent when it passes the filter, else nothing.
pub open spec fn agent_matched_fn(f: spec_fn(Agent) -> bool) -> spec_fn(Agent) -> Seq<Seq<char>> {
    |a: Agent|
        if f(a) {
            seq![a.id@]
        } else {
            Seq::empty()
        }
}

/// The matched identifiers of one window, in order.
pub open spec fn window_matched_fn(f: spec_fn(Agent) -> bool) -> spec_fn(Window) -> Seq<
    Seq<char>,
> {
    |w: Window| crate::seqsum::flat_by(w.agents@, agent_matched_fn(f))
}

/// The matched identifiers of one session, in order.
pub open spec fn session_matched_fn(f: spec_fn(Agent) -> bool) -> spec_fn(BunshinSession) -> Seq<
    Seq<char>,
> {
    |s: BunshinSession| crate::seqsum::flat_by(s.windows@, window_matched_fn(f))
}

/// The identifiers of all agents of the registry that pass the filter, in
/// scan order.
pub open spec fn spec_matched_ids(m: BunshinManager, f: spec_fn(Agent) -> bool) -> Seq<Seq<char>> {
    crate::seqsum::flat_by(m.sessions@, session_matched_fn(f))
}

/// What touching the matching agents does: every agent that passes the
/// filter gets its activity timestamp set to `now`; everything else is
/// untouched.
pub open spec fn spec_touch_post(
    pre: BunshinManager,
    post: BunshinManager,
    f: spec_fn(Agent) -> bool,
    now: i64,
) -> bool {
    &&& post.sessions@.len() == pre.sessions@.len()
    &&& forall|i: int| #![trigger post.sessions@[i]]
        0 <= i < pre.sessions@.len() ==> post.sessions@[i] == (BunshinSession {
            windows: post.sessions@[i].windows,
            ..pre.sessions@[i]
        }) && post.sessions@[i].windows@.len() == pre.sessions@[i].windows@.len()
    &&& forall|i: int, j: int| #![trigger post.sessions@[i].windows@[j]]
        0 <= i < pre.sessions@.len() && 0 <= j < pre.sessions@[i].windows@.len()
            ==> post.sessions@[i].windows@[j] == (Window {
            agents: post.sessions@[i].windows@[j].agents,
            ..pre.sessions@[i].windows@[j]
        }) && post.sessions@[i].windows@[j].agents@.len()
            == pre.sessions@[i].windows@[j].agents@.len()
    &&& forall|i: int, j: int, k: int| #![trigger post.spec_agent_at(i, j, k)]
        pre.spec_valid_agent_idx(i, j, k) ==> post.spec_agent_at(i, j, k) == (if f(
            pre.spec_agent_at(i, j, k),
        ) {
            Agent { last_activity: now, ..pre.spec_agent_at(i, j, k) }
        } else {
            pre.spec_agent_at(i, j, k)
        })
    &&& post.projects == pre.projects
    &&& post.current_session_id == pre.current_session_id
    &&& post.current_window_id == pre.current_window_id
}

impl BunshinManager {
    /// The identifiers of all agents passing the filter, in scan order.
    fn collect_matches(&self, filter: &AgentFilter) -> (ids: Vec<String>)
        ensures
            str_views(ids@) == spec_matched_ids(*self, filter_fn(*filter)),
    {
        let ghost f = filter_fn(*filter);
        let mut ids: Vec<String> = Vec::new();
        let mut i: usize = 0;
        proof {
            assert(self.sessions@.take(0) =~= Seq::<BunshinSession>::empty());
            assert(str_views(ids@) =~= Seq::<Seq<char>>::empty());
        }
        while i < self.sessions.len()
            invariant
                i <= self.sessions@.len(),
                f == filter_fn(*filter),
                str_views(ids@) == crate::seqsum::flat_by(
                    self.sessions@.take(i as int),
                    session_matched_fn(f),
                ),
            decreases self.sessions@.len() - i,
        {
            let ghost sflat = crate::seqsum::flat_by(
                self.sessions@.take(i as int),
                session_matched_fn(f),
            );
            let mut j: usize = 0;
            proof {
                assert(self.sessions@[i as int].windows@.take(0) =~= Seq::<Window>::empty());
                assert(sflat + Seq::<Seq<char>>::empty() =~= sflat);
            }
            while j < self.sessions[i].windows.len()
                invariant
                    i < self.sessions@.len(),
                    j <= self.sessions@[i as int].windows@.len(),
                    f == filter_fn(*filter),
                    sflat == crate::seqsum::flat_by(
                        self.sessions@.take(i as int),
                        session_matched_fn(f),
                    ),
                    str_views(ids@) == sflat + crate::seqsum::flat_by(
                        self.sessions@[i as int].windows@.take(j as int),
                        window_matched_fn(f),
                    ),
                decreases self.sessions@[i as int].windows@.len() - j,
            {
                let ghost wflat = crate::seqsum::flat_by(
                    self.sessions@[i as int].windows@.take(j as int),
                    window_matched_fn(f),
                );
                let mut k: usize = 0;
                proof {
                    assert(self.sessions@[i as int].windows@[j as int].agents@.take(0)
                        =~= Seq::<Agent>::empty());
                    assert((sflat + wflat) + Seq::<Seq<char>>::empty() =~= sflat + wflat);
                }
                while k < self.sessions[i].windows[j].agents.len()
                    invariant
                        i < self.sessions@.len(),
                        j < self.sessions@[i as int].windows@.len(),
                        k <= self.sessions@[i as int].windows@[j as int].agents@.len(),
                        f == filter_fn(*filter),
                        sflat == crate::seqsum::flat_by(
                            self.sessions@.take(i as int),
                            session_matched_fn(f),
                        ),
                        wflat == crate::seqsum::flat_by(
                            self.sessions@[i as int].windows@.take(j as int),
                            window_matched_fn(f),
                        ),
                        str_views(ids@) == (sflat + wflat) + crate::seqsum::flat_by(
                            self.sessions@[i as int].windows@[j as int].agents@.take(k as int),
                            agent_matched_fn(f),
                        ),
                    decreases self.sessions@[i as int].windows@[j as int].agents@.len() - k,
                {
                    let ghost agents = self.sessions@[i as int].windows@[j as int].agents@;
                    proof {
                        crate::seqsum::lemma_flat_by_take_step(
                            agents,
                            agent_matched_fn(f),
                            k as int,
                        );
                    }
                    if agent_matches(&self.sessions[i].windows[j].agents[k], filter) {
                        let ghost before = ids@;
                        ids.push(self.sessions[i].windows[j].agents[k].id.clone());
                        proof {
                            lemma_str_views_push(before, ids@.last());
                            assert(agent_matched_fn(f)(agents[k as int]) =~= seq![
                                agents[k as int].id@,
                            ]);
                            assert(str_views(ids@) =~= (sflat + wflat) + crate::seqsum::flat_by(
                                agents.take(k as int + 1),
                                agent_matched_fn(f),
                            ));
                        }
                    } else {
                        proof {
                            assert(agent_matched_fn(f)(agents[k as int]) =~= Seq::<
                                Seq<char>,
                            >::empty());
                            assert(str_views(ids@) =~= (sflat + wflat) + crate::seqsum::flat_by(
                                agents.take(k as int + 1),
                                agent_matched_fn(f),
                            ));
                        }
                    }
                    k += 1;
                }
                proof {
                    let agents = self.sessions@[i as int].windows@[j as int].agents@;
                    crate::seqsum::lemma_flat_by_take_all(agents, agent_matched_fn(f));
                    assert(crate::seqsum::flat_by(agents, agent_matched_fn(f))
                        == window_matched_fn(f)(self.sessions@[i as int].windows@[j as int]));
                    crate::seqsum::lemma_flat_by_take_step(
                        self.sessions@[i as int].windows@,
                        window_matched_fn(f),
                        j as int,
                    );
                    assert(str_views(ids@) =~= sflat + crate::seqsum::flat_by(
                        self.sessions@[i as int].windows@.take(j as int + 1),
                        window_matched_fn(f),
                    ));
                }
                j += 1;
            }
            proof {
                let windows = self.sessions@[i as int].windows@;
                crate::seqsum::lemma_flat_by_take_all(windows, window_matched_fn(f));
                assert(crate::seqsum::flat_by(windows, window_matched_fn(f)) == session_matched_fn(
                    f,
                )(self.sessions@[i as int]));
                crate::seqsum::lemma_flat_by_take_step(
                    self.sessions@,
                    session_matched_fn(f),
                    i as int,
                );
                assert(str_views(ids@) =~= crate::seqsum::flat_by(
                    self.sessions@.take(i as int + 1),
                    session_matched_fn(f),
                ));
            }
            i += 1;
        }
        proof {
            crate::seqsum::lemma_flat_by_take_all(self.sessions@, session_matched_fn(f));
            assert(self.sessions@.take(self.sessions@.len() as int) =~= self.sessions@);
        }
        ids
    }

    /// Set the activity timestamp of every agent passing the filter.
    fn touch_matches(&mut self, filter: &AgentFilter, now: i64)
        ensures
            spec_touch_post(*old(self), *final(self), filter_fn(*filter), now),
    {
        let ghost pre = *old(self);
        let ghost f = filter_fn(*filter);
        let mut i: usize = 0;
        while i < self.sessions.len()
            invariant
                i <= pre.sessions@.len(),
                f == filter_fn(*filter),
                self.sessions@.len() == pre.sessions@.len(),
                self.projects == pre.projects,
                self.current_session_id == pre.current_session_id,
                self.current_window_id == pre.current_window_id,
                forall|a: int| #![trigger self.sessions@[a]]
                    0 <= a < pre.sessions@.len() ==> self.sessions@[a] == (BunshinSession {
                        windows: self.sessions@[a].windows,
                        ..pre.sessions@[a]
                    }) && self.sessions@[a].windows@.len() == pre.sessions@[a].windows@.len(),
                forall|a: int, b: int| #![trigger self.sessions@[a].windows@[b]]
                    0 <= a < pre.sessions@.len() && 0 <= b < pre.sessions@[a].windows@.len()
                        ==> self.sessions@[a].windows@[b] == (Window {
                        agents: self.sessions@[a].windows@[b].agents,
                        ..pre.sessions@[a].windows@[b]
                    }) && self.sessions@[a].windows@[b].agents@.len()
                        == pre.sessions@[a].windows@[b].agents@.len(),
                forall|a: int, b: int, c: int| #![trigger self.spec_agent_at(a, b, c)]
                    pre.spec_valid_agent_idx(a, b, c) ==> self.spec_agent_at(a, b, c) == (if a < i
                        && f(pre.spec_agent_at(a, b, c)) {
                        Agent { last_activity: now, ..pre.spec_agent_at(a, b, c) }
                    } else {
                        pre.spec_agent_at(a, b, c)
                    }),
            decreases pre.sessions@.len() - i,
        {
            let mut j: usize = 0;
            while j < self.sessions[i].windows.len()
                invariant
                    i < pre.sessions@.len(),
                    j <= pre.sessions@[i as int].windows@.len(),
                    f == filter_fn(*filter),
                    self.sessions@.len() == pre.sessions@.len(),
                    self.projects == pre.projects,
                    self.current_session_id == pre.current_session_id,
                    self.current_window_id == pre.current_window_id,
                    forall|a: int| #![trigger self.sessions@[a]]
                        0 <= a < pre.sessions@.len() ==> self.sessions@[a] == (BunshinSession {
                            windows: self.sessions@[a].windows,
                            ..pre.sessions@[a]
                        }) && self.sessions@[a].windows@.len() == pre.sessions@[a].windows@.len(),
                    forall|a: int, b: int| #![trigger self.sessions@[a].windows@[b]]
                        0 <= a < pre.sessions@.len() && 0 <= b < pre.sessions@[a].windows@.len()
                            ==> self.sessions@[a].windows@[b] == (Window {
                            agents: self.sessions@[a].windows@[b].agents,
                            ..pre.sessions@[a].windows@[b]
                        }) && self.sessions@[a].windows@[b].agents@.len()
                            == pre.sessions@[a].windows@[b].agents@.len(),
                    forall|a: int, b: int, c: int| #![trigger self.spec_agent_at(a, b, c)]
                        pre.spec_valid_agent_idx(a, b, c) ==> self.spec_agent_at(a, b, c) == (if (a
                            < i || (a == i && b < j)) && f(pre.spec_agent_at(a, b, c)) {
                            Agent { last_activity: now, ..pre.spec_agent_at(a, b, c) }
                        } else {
                            pre.spec_agent_at(a, b, c)
                        }),
                decreases pre.sessions@[i as int].windows@.len() - j,
            {
                let mut k: usize = 0;
                while k < self.sessions[i].windows[j].agents.len()
                    invariant
                        i < pre.sessions@.len(),
                        j < pre.sessions@[i as int].windows@.len(),
                        k <= pre.sessions@[i as int].windows@[j as int].agents@.len(),
                        f == filter_fn(*filter),
                        self.sessions@.len() == pre.sessions@.len(),
                        self.projects == pre.projects,
                        self.current_session_id == pre.current_session_id,
                        self.current_window_id == pre.current_window_id,
                        forall|a: int| #![trigger self.sessions@[a]]
                            0 <= a < pre.sessions@.len() ==> self.sessions@[a] == (BunshinSession {
                                windows: self.sessions@[a].windows,
                                ..pre.sessions@[a]
                            }) && self.sessions@[a].windows@.len()
                                == pre.sessions@[a].windows@.len(),
                        forall|a: int, b: int| #![trigger self.sessions@[a].windows@[b]]
                            0 <= a < pre.sessions@.len() && 0 <= b < pre.sessions@[a].windows@.len()
                                ==> self.sessions@[a].windows@[b] == (Window {
                                agents: self.sessions@[a].windows@[b].agents,
                                ..pre.sessions@[a].windows@[b]
                            }) && self.sessions@[a].windows@[b].agents@.len()
                                == pre.sessions@[a].windows@[b].agents@.len(),
                        forall|a: int, b: int, c: int| #![trigger self.spec_agent_at(a, b, c)]
                            pre.spec_valid_agent_idx(a, b, c) ==> self.spec_agent_at(a, b, c) == (
                            if spec_lex_lt(a, b, c, i as int, j as int, k as int) && f(
                                pre.spec_agent_at(a, b, c),
                            ) {
                                Agent { last_activity: now, ..pre.spec_agent_at(a, b, c) }
                            } else {
                                pre.spec_agent_at(a, b, c)
                            }),
                    decreases pre.sessions@[i as int].windows@[j as int].agents@.len() - k,
                {
                    let ghost snap = *self;
                    let matched = agent_matches(&self.sessions[i].windows[j].agents[k], filter);
                    proof {
                        assert(self.spec_agent_at(i as int, j as int, k as int)
                            == pre.spec_agent_at(i as int, j as int, k as int));
                    }
                    if matched {
                        let session = &mut self.sessions[i];
                        let window = &mut session.windows[j];
                        let agent = &mut window.agents[k];
                        agent.last_activity = now;
                    }
                    proof {
                        assert forall|a: int, b: int, c: int| #![trigger self.spec_agent_at(a, b, c)]
                            pre.spec_valid_agent_idx(a, b, c) implies self.spec_agent_at(a, b, c)
                            == (if spec_lex_lt(a, b, c, i as int, j as int, k as int + 1) && f(
                            pre.spec_agent_at(a, b, c),
                        ) {
                            Agent { last_activity: now, ..pre.spec_agent_at(a, b, c) }
                        } else {
                            pre.spec_agent_at(a, b, c)
                        }) by {
                            if a == i && b == j && c == k {
                            } else {
                                assert(self.spec_agent_at(a, b, c) == snap.spec_agent_at(a, b, c));
                            }
                        }
                    }
                    k += 1;
                }
                j += 1;
            }
            i += 1;
        }
    }

    /// Mark activity on every agent tagged with the given project and hand
    /// back their identifiers in scan order; message delivery itself is the
    /// process supervisor's job. Fails if and only if no agent matches.
    pub fn broadcast_to_project(&mut self, project_name: &str, _message: &str, now: i64) -> (r:
        Result<Vec<String>, OrchestratorError>)
        ensures
            spec_touch_post(*old(self), *final(self), project_match_fn(project_name@), now),
            match r {
                Ok(ids) => str_views(ids@) == spec_matched_ids(
                    *old(self),
                    project_match_fn(project_name@),
                ) && ids@.len() > 0,
                Err(e) => {
                    &&& spec_matched_ids(*old(self), project_match_fn(project_name@)).len() == 0
                    &&& e matches OrchestratorError::NoMatch(s) && s@ == project_name@
                    &&& *final(self) == *old(self)
                },
            },
            old(self).wf() ==> final(self).wf(),
    {
        let filter = AgentFilter::Project(project_name.to_owned());
        let ids = self.collect_matches(&filter);
        if ids.len() == 0 {
            proof {
                assert(str_views(ids@).len() == 0);
                lemma_empty_matched_touch_refl(*self, filter_fn(filter), now);
            }
            Err(OrchestratorError::NoMatch(project_name.to_owned()))
        } else {
            let ghost pre = *self;
            self.touch_matches(&filter, now);
            proof {
                if pre.wf() {
                    lemma_touch_post_preserves_wf(pre, *self, filter_fn(filter), now);
                }
            }
            Ok(ids)
        }
    }

    /// Mark activity on every agent carrying at least one of the given
    /// labels and hand back their identifiers in scan order; message
    /// delivery itself is the process supervisor's job. Fails if and only if
    /// no agent matches.
    pub fn broadcast_to_labels(&mut self, labels: &Vec<String>, _message: &str, now: i64) -> (r:
        Result<Vec<String>, OrchestratorError>)
        ensures
            spec_touch_post(*old(self), *final(self), label_match_fn(labels@), now),
            match r {
                Ok(ids) => str_views(ids@) == spec_matched_ids(
                    *old(self),
                    label_match_fn(labels@),
                ) && ids@.len() > 0,
                Err(e) => {
                    &&& spec_matched_ids(*old(self), label_match_fn(labels@)).len() == 0
                    &&& e matches OrchestratorError::NoMatch(_)
                    &&& *final(self) == *old(self)
                },
            },
            old(self).wf() ==> final(self).wf(),
    {
        let filter = AgentFilter::Labels(crate::strutil::clone_string_vec(labels));
        proof {
            assert(filter_fn(filter) == label_match_fn(labels@));
        }
        let ids = self.collect_matches(&filter);
        if ids.len() == 0 {
            proof {
                assert(str_views(ids@).len() == 0);
                lemma_empty_matched_touch_refl(*self, filter_fn(filter), now);
            }
            Err(OrchestratorError::NoMatch(String::from_str("labels")))
        } else {
            let ghost pre = *self;
            self.touch_matches(&filter, now);
            proof {
                if pre.wf() {
                    lemma_touch_post_preserves_wf(pre, *self, filter_fn(filter), now);
                }
            }
            Ok(ids)
        }
    }
}

/// With no matching agent, touching is a no-op.
proof fn lemma_empty_matched_touch_refl(m: BunshinManager, f: spec_fn(Agent) -> bool, now: i64)
    requires
        spec_matched_ids(m, f).len() == 0,
    ensures
        spec_touch_post(m, m, f, now),
{
    assert forall|i: int, j: int, k: int| #![trigger m.spec_agent_at(i, j, k)]
        m.spec_valid_agent_idx(i, j, k) implies !f(m.spec_agent_at(i, j, k)) by {
        if f(m.spec_agent_at(i, j, k)) {
            let agents = m.sessions@[i].windows@[j].agents@;
            let windows = m.sessions@[i].windows@;
            crate::seqsum::lemma_flat_by_elem_len(agents, agent_matched_fn(f), k);
            assert(agent_matched_fn(f)(agents[k]).len() == 1);
            crate::seqsum::lemma_flat_by_elem_len(windows, window_matched_fn(f), j);
            crate::seqsum::lemma_flat_by_elem_len(m.sessions@, session_matched_fn(f), i);
        }
    }
}

/// Touching agents keeps the registry well-formed.
pub proof fn lemma_touch_post_preserves_wf(
    pre: BunshinManager,
    post: BunshinManager,
    f: spec_fn(Agent) -> bool,
    now: i64,
)
    requires
        pre.wf(),
        spec_touch_post(pre, post, f, now),
    ensures
        post.wf(),
{
    assert(spec_same_shape(pre, post)) by {
        assert forall|i: int, j: int, k: int| #![trigger post.spec_agent_at(i, j, k)]
            pre.spec_valid_agent_idx(i, j, k) implies {
            &&& post.spec_agent_at(i, j, k).id@ == pre.spec_agent_at(i, j, k).id@
            &&& post.spec_agent_at(i, j, k).window_id@ == pre.spec_agent_at(i, j, k).window_id@
            &&& post.spec_agent_at(i, j, k).session_id@ == pre.spec_agent_at(i, j, k).session_id@
        } by {
            assert(pre.spec_valid_agent_idx(i, j, k));
        }
    }
    lemma_same_shape_preserves_wf(pre, post);
}

/// Well-formedness reads only the sessions and the projects: registries that
/// agree on those fields agree on it.
proof fn lemma_wf_depends_on_entities(a: BunshinManager, b: BunshinManager)
    requires
        a.wf(),
        b.sessions == a.sessions,
        b.projects == a.projects,
    ensures
        b.wf(),
{
    assert(b.sessions@ == a.sessions@);
    assert(b.projects@ == a.projects@);
    assert(b.spec_sessions_unique()) by {
        assert forall|i1: int, i2: int|
            0 <= i1 < b.sessions@.len() && 0 <= i2 < b.sessions@.len()
                && (#[trigger] b.sessions@[i1]).id@ == (#[trigger] b.sessions@[i2]).id@ implies i1
            == i2 by {
            assert(b.sessions@[i1] == a.sessions@[i1]);
            assert(b.sessions@[i2] == a.sessions@[i2]);
        }
    }
    assert(b.spec_windows_unique()) by {
        assert forall|i: int, j1: int, j2: int|
            0 <= i < b.sessions@.len() && 0 <= j1 < b.sessions@[i].windows@.len() && 0 <= j2
                < b.sessions@[i].windows@.len() && (#[trigger] b.sessions@[i].windows@[j1]).id@ == (
            #[trigger] b.sessions@[i].windows@[j2]).id@ implies j1 == j2 by {
            assert(b.sessions@[i] == a.sessions@[i]);
        }
    }
    assert(b.spec_agents_unique()) by {
        assert forall|i1: int, j1: int, k1: int, i2: int, j2: int, k2: int|
            b.spec_valid_agent_idx(i1, j1, k1) && b.spec_valid_agent_idx(i2, j2, k2)
                && (#[trigger] b.spec_agent_at(i1, j1, k1)).id@ == (#[trigger] b.spec_agent_at(
                i2,
                j2,
                k2,
            )).id@ implies i1 == i2 && j1 == j2 && k1 == k2 by {
            assert(a.spec_valid_agent_idx(i1, j1, k1));
            assert(a.spec_valid_agent_idx(i2, j2, k2));
            assert(a.spec_agent_at(i1, j1, k1) == b.spec_agent_at(i1, j1, k1));
            assert(a.spec_agent_at(i2, j2, k2) == b.spec_agent_at(i2, j2, k2));
        }
    }
    assert(b.spec_owners_consistent()) by {
        assert forall|i: int, j: int|
            0 <= i < b.sessions@.len() && 0 <= j < b.sessions@[i].windows@.len() implies (
        #[trigger] b.sessions@[i].windows@[j]).session_id@ == b.sessions@[i].id@ by {
            assert(b.sessions@[i] == a.sessions@[i]);
        }
        assert forall|i: int, j: int, k: int|
            b.spec_valid_agent_idx(i, j, k) implies (#[trigger] b.spec_agent_at(i, j, k)).window_id@
            == b.sessions@[i].windows@[j].id@ && b.spec_agent_at(i, j, k).session_id@
            == b.sessions@[i].id@ by {
            assert(a.spec_valid_agent_idx(i, j, k));
            assert(a.spec_agent_at(i, j, k) == b.spec_agent_at(i, j, k));
            assert(a.spec_agent_at(i, j, k).window_id@ == a.sessions@[i].windows@[j].id@);
            assert(a.spec_agent_at(i, j, k).session_id@ == a.sessions@[i].id@);
        }
    }
    assert(b.spec_projects_unique()) by {
        assert forall|i1: int, i2: int|
            0 <= i1 < b.projects@.len() && 0 <= i2 < b.projects@.len()
                && (#[trigger] b.projects@[i1]).name@ == (#[trigger] b.projects@[i2]).name@
            implies i1 == i2 by {
            assert(b.projects@[i1] == a.projects@[i1]);
            assert(b.projects@[i2] == a.projects@[i2]);
        }
    }
}

/// Removing one session keeps the registry well-formed.
proof fn lemma_remove_session_preserves_wf(pre: BunshinManager, post: BunshinManager, i: int)
    requires
        pre.wf(),
        0 <= i < pre.sessions@.len(),
        post.sessions@ == pre.sessions@.remove(i),
        post.projects == pre.projects,
    ensures
        post.wf(),
{
    assert(forall|a: int|
        0 <= a < post.sessions@.len() ==> #[trigger] post.sessions@[a] == pre.sessions@[
        if a < i {
            a
        } else {
            a + 1
        }]);
    assert(post.spec_sessions_unique()) by {
        assert forall|i1: int, i2: int|
            0 <= i1 < post.sessions@.len() && 0 <= i2 < post.sessions@.len()
                && (#[trigger] post.sessions@[i1]).id@ == (#[trigger] post.sessions@[i2]).id@
            implies i1 == i2 by {
            let p1 = if i1 < i { i1 } else { i1 + 1 };
            let p2 = if i2 < i { i2 } else { i2 + 1 };
            assert(post.sessions@[i1] == pre.sessions@[p1]);
            assert(post.sessions@[i2] == pre.sessions@[p2]);
        }
    }
    assert(post.spec_windows_unique()) by {
        assert forall|a: int, j1: int, j2: int|
            0 <= a < post.sessions@.len() && 0 <= j1 < post.sessions@[a].windows@.len() && 0 <= j2
                < post.sessions@[a].windows@.len()
                && (#[trigger] post.sessions@[a].windows@[j1]).id@
                == (#[trigger] post.sessions@[a].windows@[j2]).id@ implies j1 == j2 by {
            let p = if a < i { a } else { a + 1 };
            assert(post.sessions@[a] == pre.sessions@[p]);
        }
    }
    assert(post.spec_agents_unique()) by {
        assert forall|i1: int, j1: int, k1: int, i2: int, j2: int, k2: int|
            post.spec_valid_agent_idx(i1, j1, k1) && post.spec_valid_agent_idx(i2, j2, k2)
                && (#[trigger] post.spec_agent_at(i1, j1, k1)).id@ == (#[trigger] post.spec_agent_at(
                i2,
                j2,
                k2,
            )).id@ implies i1 == i2 && j1 == j2 && k1 == k2 by {
            let p1 = if i1 < i { i1 } else { i1 + 1 };
            let p2 = if i2 < i { i2 } else { i2 + 1 };
            assert(post.sessions@[i1] == pre.sessions@[p1]);
            assert(post.sessions@[i2] == pre.sessions@[p2]);
            assert(pre.spec_valid_agent_idx(p1, j1, k1));
            assert(pre.spec_valid_agent_idx(p2, j2, k2));
            assert(pre.spec_agent_at(p1, j1, k1) == post.spec_agent_at(i1, j1, k1));
            assert(pre.spec_agent_at(p2, j2, k2) == post.spec_agent_at(i2, j2, k2));
        }
    }
    assert(post.spec_owners_consistent()) by {
        assert forall|a: int, b: int|
            0 <= a < post.sessions@.len() && 0 <= b < post.sessions@[a].windows@.len() implies (
        #[trigger] post.sessions@[a].windows@[b]).session_id@ == post.sessions@[a].id@ by {
            let p = if a < i { a } else { a + 1 };
            assert(post.sessions@[a] == pre.sessions@[p]);
        }
        assert forall|a: int, b: int, c: int|
            post.spec_valid_agent_idx(a, b, c) implies (#[trigger] post.spec_agent_at(
            a,
            b,
            c,
        )).window_id@ == post.sessions@[a].windows@[b].id@ && post.spec_agent_at(
            a,
            b,
            c,
        ).session_id@ == post.sessions@[a].id@ by {
            let p = if a < i { a } else { a + 1 };
            assert(post.sessions@[a] == pre.sessions@[p]);
            assert(pre.spec_valid_agent_idx(p, b, c));
            assert(pre.spec_agent_at(p, b, c) == post.spec_agent_at(a, b, c));
            assert(pre.spec_agent_at(p, b, c).window_id@ == pre.sessions@[p].windows@[b].id@);
            assert(pre.spec_agent_at(p, b, c).session_id@ == pre.sessions@[p].id@);
        }
    }
}


/// Whether an agent carries exactly the configuration that a bulk spawn
/// hands out.
pub open spec fn spec_configured_agent(
    a: Agent,
    model: AgentModel,
    project: Option<String>,
    labels: Seq<String>,
    task: Option<String>,
    tools: Seq<String>,
) -> bool {
    &&& crate::entities::spec_same_model(a.model, model)
    &&& a.state == AgentState::Stopped
    &&& a.pid is None
    &&& a.tokens_used == 0
    &&& a.estimated_cost == 0
    &&& a.uptime_start is None
    &&& a.artifacts_path is None
    &&& crate::entities::spec_same_opt_str(a.project, project)
    &&& crate::entities::spec_same_str_seq(a.labels@, labels)
    &&& crate::entities::spec_same_opt_str(a.task_description, task)
    &&& crate::entities::spec_same_str_seq(a.tools@, tools)
}

/// Some agent of `m` carries the identifier `id` and the bulk spawn's
/// configuration.
pub open spec fn spec_id_configured_in(
    m: BunshinManager,
    id: Seq<char>,
    model: AgentModel,
    project: Option<String>,
    labels: Seq<String>,
    task: Option<String>,
    tools: Seq<String>,
) -> bool {
    exists|i: int, j: int, k: int|
        #![trigger m.spec_agent_at(i, j, k)]
        m.spec_valid_agent_idx(i, j, k) && m.spec_agent_at(i, j, k).id@ == id
            && spec_configured_agent(m.spec_agent_at(i, j, k), model, project, labels, task, tools)
}

/// Every collected identifier names an agent of `m` that carries the bulk
/// spawn's configuration.
pub open spec fn spec_ids_configured(
    m: BunshinManager,
    ids: Seq<String>,
    model: AgentModel,
    project: Option<String>,
    labels: Seq<String>,
    task: Option<String>,
    tools: Seq<String>,
) -> bool {
    forall|t: int| #![trigger ids[t]]
        0 <= t < ids.len() ==> spec_id_configured_in(m, ids[t]@, model, project, labels, task, tools)
}

/// Whether some session carries the identifier `sid` and holds a window
/// with the identifier `wid`.
pub open spec fn spec_context_window_valid(
    m: BunshinManager,
    sid: Seq<char>,
    wid: Seq<char>,
) -> bool {
    exists|i: int| #![trigger m.sessions@[i]]
        0 <= i < m.sessions@.len() && m.sessions@[i].id@ == sid && spec_has_window_id(
            m.sessions@[i].windows@,
            wid,
        )
}

/// The collected identifiers are pairwise distinct.
pub open spec fn spec_ids_distinct(ids: Seq<String>) -> bool {
    forall|t1: int, t2: int|
        0 <= t1 < ids.len() && 0 <= t2 < ids.len() && t1 != t2 ==> (#[trigger] ids[t1])@ != (
        #[trigger] ids[t2])@
}

impl BunshinManager {
    /// Allocate `count` fresh stopped agents in the current window, each
    /// configured with the given model, project, labels, task and tools, and
    /// hand back their identifiers, which are distinct and new across the
    /// registry. With no current session, a session named `default` is
    /// provisioned first. Creating the entities never starts a process; the
    /// caller spawns processes separately. Fails only when the current
    /// context is missing or stale.
    pub fn spawn_agents_in_current_window(
        &mut self,
        count: u32,
        model: AgentModel,
        project: Option<String>,
        labels: Vec<String>,
        task: Option<String>,
        tools: Vec<String>,
        now: i64,
    ) -> (r: Result<Vec<String>, OrchestratorError>)
        requires
            old(self).wf(),
        ensures
            final(self).wf(),
            match r {
                Ok(ids) => {
                    &&& ids@.len() == count as int
                    &&& spec_ids_distinct(ids@)
                    &&& spec_ids_configured(
                        *final(self),
                        ids@,
                        model,
                        project,
                        labels@,
                        task,
                        tools@,
                    )
                },
                Err(e) => {
                    &&& *final(self) == *old(self)
                    &&& e matches OrchestratorError::NotFound(_)
                    &&& old(self).current_session_id is Some
                    &&& (match (old(self).current_session_id, old(self).current_window_id) {
                        (Some(c), Some(w)) => !spec_context_window_valid(*old(self), c@, w@),
                        (Some(_), None) => true,
                        (None, _) => false,
                    })
                },
            },
    {
        let sid: String;
        let wid: String;
        match &self.current_session_id {
            Some(s) => {
                let c = s.clone();
                let w = match &self.current_window_id {
                    Some(w) => w.clone(),
                    None => {
                        return Err(
                            OrchestratorError::NotFound(String::from_str("current window")),
                        );
                    },
                };
                match self.session_index(c.as_str()) {
                    None => {
                        proof {
                            if spec_context_window_valid(*self, c@, w@) {
                                let i = choose|i: int|
                                    #![trigger self.sessions@[i]]
                                    0 <= i < self.sessions@.len() && self.sessions@[i].id@ == c@
                                        && spec_has_window_id(self.sessions@[i].windows@, w@);
                                assert(spec_has_session_id(self.sessions@, c@));
                            }
                        }
                        return Err(
                            OrchestratorError::NotFound(String::from_str("current session")),
                        );
                    },
                    Some(si) => {
                        match self.sessions[si].window_index(w.as_str()) {
                            None => {
                                proof {
                                    if spec_context_window_valid(*self, c@, w@) {
                                        let i = choose|i: int|
                                            #![trigger self.sessions@[i]]
                                            0 <= i < self.sessions@.len()
                                                && self.sessions@[i].id@ == c@
                                                && spec_has_window_id(
                                                self.sessions@[i].windows@,
                                                w@,
                                            );
                                        assert(i == si as int);
                                    }
                                }
                                return Err(
                                    OrchestratorError::NotFound(
                                        String::from_str("current window"),
                                    ),
                                );
                            },
                            Some(_) => {
                                proof {
                                    assert(spec_context_window_valid(*self, c@, w@));
                                }
                            },
                        }
                    },
                }
                sid = c;
                wid = w;
            },
            None => {
                let new_sid = self.create_session(
                    String::from_str("default"),
                    String::from_str("/"),
                    now,
                );
                let new_wid = match &self.current_window_id {
                    Some(w) => w.clone(),
                    None => {
                        proof {
                            assert(false);
                        }
                        return Err(
                            OrchestratorError::NotFound(String::from_str("current window")),
                        );
                    },
                };
                proof {
                    let n = self.sessions@.len() as int - 1;
                    assert(self.sessions@[n] == self.sessions@.last());
                    assert(self.sessions@[n].id@ == new_sid@);
                    assert(self.sessions@[n].windows@[0].id@ == new_wid@);
                    assert(spec_has_window_id(self.sessions@[n].windows@, new_wid@));
                    assert(spec_context_window_valid(*self, new_sid@, new_wid@));
                }
                sid = new_sid;
                wid = new_wid;
            },
        }
        let mut ids: Vec<String> = Vec::new();
        let mut n: u32 = 0;
        while n < count
            invariant
                self.wf(),
                n <= count,
                ids@.len() == n as int,
                spec_ids_distinct(ids@),
                spec_ids_configured(*self, ids@, model, project, labels@, task, tools@),
                spec_context_window_valid(*self, sid@, wid@),
            decreases count - n,
        {
            let name = String::from_str("agent-").concat(
                crate::codec::u64_to_string((n + 1) as u64).as_str(),
            );
            let ghost gname = name;
            let m2 = crate::entities::clone_model(&model);
            let ghost gmodel = m2;
            let ghost pre = *self;
            let aid = match self.spawn_agent(sid.as_str(), wid.as_str(), name, m2, now) {
                Ok(aid) => aid,
                Err(e) => {
                    proof {
                        let i = choose|i: int|
                            #![trigger pre.sessions@[i]]
                            0 <= i < pre.sessions@.len() && pre.sessions@[i].id@ == sid@
                                && spec_has_window_id(pre.sessions@[i].windows@, wid@);
                        assert(spec_has_session_id(pre.sessions@, sid@));
                        let i2 = choose|i2: int|
                            {
                                &&& 0 <= i2 < pre.sessions@.len()
                                &&& (#[trigger] pre.sessions@[i2]).id@ == sid@
                                &&& !spec_has_window_id(pre.sessions@[i2].windows@, wid@)
                            };
                        assert(i2 == i);
                        assert(false);
                    }
                    return Err(e);
                },
            };
            proof {
                assert(Self::spec_spawn_agent_post(
                    pre,
                    *self,
                    sid@,
                    wid@,
                    gname,
                    gmodel,
                    now,
                    Ok(aid),
                ));
                assert(exists|a: int, b: int|
                    #![trigger pre.sessions@[a].windows@[b]]
                    Self::spec_spawn_ok_at(pre, *self, sid@, wid@, gname, gmodel, now, aid, a, b));
            }
            let ghost gw = choose|a: int, b: int|
                #![trigger pre.sessions@[a].windows@[b]]
                Self::spec_spawn_ok_at(pre, *self, sid@, wid@, gname, gmodel, now, aid, a, b);
            proof {
                assert(Self::spec_spawn_ok_at(
                    pre,
                    *self,
                    sid@,
                    wid@,
                    gname,
                    gmodel,
                    now,
                    aid,
                    gw.0,
                    gw.1,
                ));
                lemma_spawn_step_transfer(
                    pre,
                    *self,
                    gw.0,
                    gw.1,
                    aid@,
                    ids@,
                    model,
                    project,
                    labels@,
                    task,
                    tools@,
                );
            }
            match self.find_agent_loc(aid.as_str()) {
                Some((i, j, k)) => {
                    let ghost mid = *self;
                    let session = &mut self.sessions[i];
                    let window = &mut session.windows[j];
                    let agent = &mut window.agents[k];
                    agent.project = crate::strutil::clone_opt_string(&project);
                    agent.labels = crate::strutil::clone_string_vec(&labels);
                    agent.task_description = crate::strutil::clone_opt_string(&task);
                    agent.tools = crate::strutil::clone_string_vec(&tools);
                    proof {
                        assert(spec_same_shape(mid, *self)) by {
                            assert forall|a: int, b: int, c: int|
                                #![trigger self.spec_agent_at(a, b, c)]
                                mid.spec_valid_agent_idx(a, b, c) implies {
                                &&& self.spec_agent_at(a, b, c).id@ == mid.spec_agent_at(
                                    a,
                                    b,
                                    c,
                                ).id@
                                &&& self.spec_agent_at(a, b, c).window_id@ == mid.spec_agent_at(
                                    a,
                                    b,
                                    c,
                                ).window_id@
                                &&& self.spec_agent_at(a, b, c).session_id@ == mid.spec_agent_at(
                                    a,
                                    b,
                                    c,
                                ).session_id@
                            } by {
                                if !(a == i && b == j && c == k) {
                                    assert(self.spec_agent_at(a, b, c) == mid.spec_agent_at(
                                        a,
                                        b,
                                        c,
                                    ));
                                }
                            }
                        }
                        lemma_same_shape_preserves_wf(mid, *self);
                        assert forall|t: int| #![trigger ids@[t]]
                            0 <= t < ids@.len() implies spec_id_configured_in(
                            *self,
                            ids@[t]@,
                            model,
                            project,
                            labels@,
                            task,
                            tools@,
                        ) by {
                            assert(spec_id_configured_in(
                                mid,
                                ids@[t]@,
                                model,
                                project,
                                labels@,
                                task,
                                tools@,
                            ));
                            let (a, b, c) = choose|a: int, b: int, c: int|
                                #![trigger mid.spec_agent_at(a, b, c)]
                                mid.spec_valid_agent_idx(a, b, c) && mid.spec_agent_at(
                                    a,
                                    b,
                                    c,
                                ).id@ == ids@[t]@ && spec_configured_agent(
                                    mid.spec_agent_at(a, b, c),
                                    model,
                                    project,
                                    labels@,
                                    task,
                                    tools@,
                                );
                            if a == i && b == j && c == k {
                                assert(mid.spec_agent_at(i as int, j as int, k as int).id@
                                    == aid@);
                                assert(ids@[t]@ != aid@);
                            }
                            assert(self.spec_agent_at(a, b, c) == mid.spec_agent_at(a, b, c));
                            assert(self.spec_valid_agent_idx(a, b, c));
                            assert(spec_id_configured_in(
                                *self,
                                ids@[t]@,
                                model,
                                project,
                                labels@,
                                task,
                                tools@,
                            ));
                        }
                        assert(self.spec_valid_agent_idx(i as int, j as int, k as int));
                        assert(self.spec_agent_at(i as int, j as int, k as int).id@ == aid@);
                        let na = mid.spec_agent_at(i as int, j as int, k as int);
                        assert(na.spec_fresh_data(gname, gmodel, now)) by {
                            let last = (pre.sessions@[gw.0].windows@[gw.1].agents@.len()) as int;
                            assert(mid.spec_valid_agent_idx(gw.0, gw.1, last));
                            assert(mid.spec_agent_at(gw.0, gw.1, last).id@ == aid@);
                            assert(mid.spec_valid_agent_idx(i as int, j as int, k as int));
                            assert(i as int == gw.0 && j as int == gw.1 && k as int == last);
                        }
                        assert(spec_configured_agent(
                            self.spec_agent_at(i as int, j as int, k as int),
                            model,
                            project,
                            labels@,
                            task,
                            tools@,
                        )) by {
                            assert(self.spec_agent_at(i as int, j as int, k as int).model
                                == na.model);
                            assert(na.model == model);
                            assert(self.spec_agent_at(i as int, j as int, k as int).state
                                == na.state);
                            assert(self.spec_agent_at(i as int, j as int, k as int).project
                                == project);
                            assert(self.spec_agent_at(i as int, j as int, k as int).labels@
                                == labels@);
                            assert(self.spec_agent_at(
                                i as int,
                                j as int,
                                k as int,
                            ).task_description == task);
                            assert(self.spec_agent_at(i as int, j as int, k as int).tools@
                                == tools@);
                            lemma_same_model_refl(model);
                        }
                    }
                    let ghost before_ids = ids@;
                    ids.push(aid);
                    proof {
                        assert(spec_ids_distinct(ids@)) by {
                            assert forall|t1: int, t2: int|
                                0 <= t1 < ids@.len() && 0 <= t2 < ids@.len() && t1 != t2 implies (
                            #[trigger] ids@[t1])@ != (#[trigger] ids@[t2])@ by {
                                if t1 == before_ids.len() || t2 == before_ids.len() {
                                    let to = if t1 == before_ids.len() {
                                        t2
                                    } else {
                                        t1
                                    };
                                    assert(before_ids[to]@ != aid@);
                                }
                            }
                        }
                        assert forall|t: int| #![trigger ids@[t]]
                            0 <= t < ids@.len() implies spec_id_configured_in(
                            *self,
                            ids@[t]@,
                            model,
                            project,
                            labels@,
                            task,
                            tools@,
                        ) by {
                            if t < before_ids.len() {
                                assert(before_ids[t] == ids@[t]);
                                assert(spec_id_configured_in(
                                    *self,
                                    before_ids[t]@,
                                    model,
                                    project,
                                    labels@,
                                    task,
                                    tools@,
                                ));
                            } else {
                                assert(ids@[t] == aid);
                                assert(self.spec_valid_agent_idx(i as int, j as int, k as int));
                                assert(self.spec_agent_at(i as int, j as int, k as int).id@
                                    == aid@);
                                assert(spec_id_configured_in(
                                    *self,
                                    aid@,
                                    model,
                                    project,
                                    labels@,
                                    task,
                                    tools@,
                                ));
                            }
                        }
                        let a = choose|a: int|
                            #![trigger pre.sessions@[a]]
                            0 <= a < pre.sessions@.len() && pre.sessions@[a].id@ == sid@
                                && spec_has_window_id(pre.sessions@[a].windows@, wid@);
                        let b = choose|b: int|
                            0 <= b < pre.sessions@[a].windows@.len()
                                && pre.sessions@[a].windows@[b].id@ == wid@;
                        assert(mid.sessions@[a].id@ == pre.sessions@[a].id@) by {
                            if a != gw.0 {
                                assert(mid.sessions@[a] == pre.sessions@[a]);
                            }
                        }
                        assert(mid.sessions@[a].windows@.len()
                            == pre.sessions@[a].windows@.len()) by {
                            if a != gw.0 {
                                assert(mid.sessions@[a] == pre.sessions@[a]);
                            }
                        }
                        assert(mid.sessions@[a].windows@[b].id@
                            == pre.sessions@[a].windows@[b].id@) by {
                            if a != gw.0 {
                                assert(mid.sessions@[a] == pre.sessions@[a]);
                            } else if b != gw.1 {
                                assert(mid.sessions@[a].windows@[b]
                                    == pre.sessions@[a].windows@[b]);
                            }
                        }
                        assert(self.sessions@[a].id@ == mid.sessions@[a].id@);
                        assert(self.sessions@[a].windows@[b].id@
                            == mid.sessions@[a].windows@[b].id@);
                        assert(self.sessions@[a].windows@.len()
                            == mid.sessions@[a].windows@.len());
                        assert(spec_has_window_id(self.sessions@[a].windows@, wid@));
                        assert(spec_context_window_valid(*self, sid@, wid@));
                    }
                },
                None => {
                    proof {
                        let last = pre.sessions@[gw.0].windows@[gw.1].agents@.len() as int;
                        assert(self.spec_valid_agent_idx(gw.0, gw.1, last));
                        assert(self.spec_agent_at(gw.0, gw.1, last).id@ == aid@);
                        assert(self.spec_has_agent(aid@));
                        assert(false);
                    }
                },
            }
            n += 1;
        }
        Ok(ids)
    }
}


/// Every model agrees with itself.
proof fn lemma_same_model_refl(m: AgentModel)
    ensures
        crate::entities::spec_same_model(m, m),
{
}

/// After one spawn, every previously collected agent is still present,
/// unchanged and configured, and the fresh identifier is new. The collected
/// identifiers' witnesses are stated over the pre-state.
proof fn lemma_spawn_step_transfer(
    pre: BunshinManager,
    post: BunshinManager,
    si: int,
    wi: int,
    aid: Seq<char>,
    ids: Seq<String>,
    model: AgentModel,
    project: Option<String>,
    labels: Seq<String>,
    task: Option<String>,
    tools: Seq<String>,
)
    requires
        0 <= si < pre.sessions@.len(),
        0 <= wi < pre.sessions@[si].windows@.len(),
        post.sessions@ == pre.sessions@.update(si, post.sessions@[si]),
        post.sessions@[si] == (crate::entities::BunshinSession {
            windows: post.sessions@[si].windows,
            ..pre.sessions@[si]
        }),
        post.sessions@[si].windows@ == pre.sessions@[si].windows@.update(
            wi,
            post.sessions@[si].windows@[wi],
        ),
        post.sessions@[si].windows@[wi] == (crate::entities::Window {
            agents: post.sessions@[si].windows@[wi].agents,
            ..pre.sessions@[si].windows@[wi]
        }),
        post.sessions@[si].windows@[wi].agents@
            == pre.sessions@[si].windows@[wi].agents@.push(
            post.sessions@[si].windows@[wi].agents@.last(),
        ),
        !pre.spec_has_agent(aid),
        spec_ids_configured(pre, ids, model, project, labels, task, tools),
    ensures
        spec_ids_configured(post, ids, model, project, labels, task, tools),
        forall|t: int| 0 <= t < ids.len() ==> (#[trigger] ids[t])@ != aid,
{
    assert forall|t: int| #![trigger ids[t]] 0 <= t < ids.len() implies spec_id_configured_in(
        post,
        ids[t]@,
        model,
        project,
        labels,
        task,
        tools,
    ) by {
        assert(spec_id_configured_in(pre, ids[t]@, model, project, labels, task, tools));
        let (a, b, c) = choose|a: int, b: int, c: int|
            #![trigger pre.spec_agent_at(a, b, c)]
            pre.spec_valid_agent_idx(a, b, c) && pre.spec_agent_at(a, b, c).id@ == ids[t]@
                && spec_configured_agent(
                pre.spec_agent_at(a, b, c),
                model,
                project,
                labels,
                task,
                tools,
            );
        if a == si && b == wi {
            assert(post.sessions@[a].windows@[b].agents@[c]
                == pre.sessions@[a].windows@[b].agents@[c]);
        } else if a == si {
            assert(post.sessions@[a].windows@[b] == pre.sessions@[a].windows@[b]);
        } else {
            assert(post.sessions@[a] == pre.sessions@[a]);
        }
        assert(post.spec_valid_agent_idx(a, b, c));
        assert(post.spec_agent_at(a, b, c) == pre.spec_agent_at(a, b, c));
        assert(spec_id_configured_in(post, ids[t]@, model, project, labels, task, tools));
    }
    assert forall|t: int| 0 <= t < ids.len() implies (#[trigger] ids[t])@ != aid by {
        assert(spec_ids_configured(pre, ids, model, project, labels, task, tools));
        let (a, b, c) = choose|a: int, b: int, c: int|
            #![trigger pre.spec_agent_at(a, b, c)]
            pre.spec_valid_agent_idx(a, b, c) && pre.spec_agent_at(a, b, c).id@ == ids[t]@
                && spec_configured_agent(
                pre.spec_agent_at(a, b, c),
                model,
                project,
                labels,
                task,
                tools,
            );
        assert(pre.spec_has_agent(ids[t]@));
    }
}


impl BunshinManager {
    /// The names of all projects, in order.
    fn project_names(&self) -> (names: Vec<String>)
        ensures
            names@.len() == self.projects@.len(),
            forall|j: int|
                0 <= j < names@.len() ==> (#[trigger] names@[j])@ == self.projects@[j].name@,
    {
        let mut names: Vec<String> = Vec::new();
        let mut i: usize = 0;
        while i < self.projects.len()
            invariant
                i <= self.projects@.len(),
                names@.len() == i,
                forall|j: int| 0 <= j < i ==> (#[trigger] names@[j])@ == self.projects@[j].name@,
            decreases self.projects@.len() - i,
        {
            names.push(self.projects[i].name.clone());
            i += 1;
        }
        names
    }

    /// Decide well-formedness at run time: every uniqueness and ownership
    /// condition of `wf` is checked; used to validate state loaded from
    /// disk.
    pub fn check_wf(&self) -> (r: bool)
        ensures
            r == self.wf(),
    {
        // session identifiers are unique
        let sids = self.session_ids();
        if !ident::strings_distinct(&sids) {
            proof {
                let (t1, t2) = choose|t1: int, t2: int|
                    0 <= t1 < sids@.len() && 0 <= t2 < sids@.len() && t1 != t2 && (
                    #[trigger] sids@[t1])@ == (#[trigger] sids@[t2])@;
                assert(self.sessions@[t1].id@ == self.sessions@[t2].id@);
                assert(!self.spec_sessions_unique());
            }
            return false;
        }
        proof {
            assert(self.spec_sessions_unique()) by {
                assert forall|i1: int, i2: int|
                    0 <= i1 < self.sessions@.len() && 0 <= i2 < self.sessions@.len()
                        && (#[trigger] self.sessions@[i1]).id@ == (
                    #[trigger] self.sessions@[i2]).id@ implies i1 == i2 by {
                    assert(sids@[i1]@ == self.sessions@[i1].id@);
                    assert(sids@[i2]@ == self.sessions@[i2].id@);
                }
            }
        }
        // window identifiers are unique within each session, and windows
        // name their owning session
        let mut i: usize = 0;
        while i < self.sessions.len()
            invariant
                i <= self.sessions@.len(),
                forall|a: int, j1: int, j2: int|
                    0 <= a < i && 0 <= j1 < self.sessions@[a].windows@.len() && 0 <= j2
                        < self.sessions@[a].windows@.len()
                        && (#[trigger] self.sessions@[a].windows@[j1]).id@
                        == (#[trigger] self.sessions@[a].windows@[j2]).id@ ==> j1 == j2,
                forall|a: int, j: int|
                    0 <= a < i && 0 <= j < self.sessions@[a].windows@.len() ==> (
                    #[trigger] self.sessions@[a].windows@[j]).session_id@
                        == self.sessions@[a].id@,
            decreases self.sessions@.len() - i,
        {
            let wids = self.sessions[i].window_ids();
            if !ident::strings_distinct(&wids) {
                proof {
                    let (t1, t2) = choose|t1: int, t2: int|
                        0 <= t1 < wids@.len() && 0 <= t2 < wids@.len() && t1 != t2 && (
                        #[trigger] wids@[t1])@ == (#[trigger] wids@[t2])@;
                    assert(self.sessions@[i as int].windows@[t1].id@
                        == self.sessions@[i as int].windows@[t2].id@);
                    assert(!self.spec_windows_unique());
                }
                return false;
            }
            let mut j: usize = 0;
            while j < self.sessions[i].windows.len()
                invariant
                    i < self.sessions@.len(),
                    j <= self.sessions@[i as int].windows@.len(),
                    forall|b: int|
                        0 <= b < j ==> (#[trigger] self.sessions@[i as int].windows@[b]).session_id@
                            == self.sessions@[i as int].id@,
                decreases self.sessions@[i as int].windows@.len() - j,
            {
                if !str_eq(
                    self.sessions[i].windows[j].session_id.as_str(),
                    self.sessions[i].id.as_str(),
                ) {
                    proof {
                        assert(!self.spec_owners_consistent());
                    }
                    return false;
                }
                j += 1;
            }
            proof {
                assert forall|j1: int, j2: int|
                    0 <= j1 < self.sessions@[i as int].windows@.len() && 0 <= j2
                        < self.sessions@[i as int].windows@.len()
                        && (#[trigger] self.sessions@[i as int].windows@[j1]).id@
                        == (#[trigger] self.sessions@[i as int].windows@[j2]).id@ implies j1
                    == j2 by {
                    assert(wids@[j1]@ == self.sessions@[i as int].windows@[j1].id@);
                    assert(wids@[j2]@ == self.sessions@[i as int].windows@[j2].id@);
                }
            }
            i += 1;
        }
        // agents name their owners
        let mut i2: usize = 0;
        while i2 < self.sessions.len()
            invariant
                i2 <= self.sessions@.len(),
                forall|a: int, b: int, c: int| #![trigger self.spec_agent_at(a, b, c)]
                    0 <= a < i2 && self.spec_valid_agent_idx(a, b, c) ==> self.spec_agent_at(
                        a,
                        b,
                        c,
                    ).window_id@ == self.sessions@[a].windows@[b].id@ && self.spec_agent_at(
                        a,
                        b,
                        c,
                    ).session_id@ == self.sessions@[a].id@,
            decreases self.sessions@.len() - i2,
        {
            let mut j2: usize = 0;
            while j2 < self.sessions[i2].windows.len()
                invariant
                    i2 < self.sessions@.len(),
                    j2 <= self.sessions@[i2 as int].windows@.len(),
                    forall|a: int, b: int, c: int| #![trigger self.spec_agent_at(a, b, c)]
                        (0 <= a < i2 || (a == i2 && 0 <= b < j2)) && self.spec_valid_agent_idx(
                            a,
                            b,
                            c,
                        ) ==> self.spec_agent_at(a, b, c).window_id@
                            == self.sessions@[a].windows@[b].id@ && self.spec_agent_at(
                            a,
                            b,
                            c,
                        ).session_id@ == self.sessions@[a].id@,
                decreases self.sessions@[i2 as int].windows@.len() - j2,
            {
                let mut k2: usize = 0;
                while k2 < self.sessions[i2].windows[j2].agents.len()
                    invariant
                        i2 < self.sessions@.len(),
                        j2 < self.sessions@[i2 as int].windows@.len(),
                        k2 <= self.sessions@[i2 as int].windows@[j2 as int].agents@.len(),
                        forall|a: int, b: int, c: int| #![trigger self.spec_agent_at(a, b, c)]
                            (0 <= a < i2 || (a == i2 && 0 <= b < j2) || (a == i2 && b == j2 && 0
                                <= c < k2)) && self.spec_valid_agent_idx(a, b, c)
                                ==> self.spec_agent_at(a, b, c).window_id@
                                == self.sessions@[a].windows@[b].id@ && self.spec_agent_at(
                                a,
                                b,
                                c,
                            ).session_id@ == self.sessions@[a].id@,
                    decreases self.sessions@[i2 as int].windows@[j2 as int].agents@.len() - k2,
                {
                    let ok = str_eq(
                        self.sessions[i2].windows[j2].agents[k2].window_id.as_str(),
                        self.sessions[i2].windows[j2].id.as_str(),
                    ) && str_eq(
                        self.sessions[i2].windows[j2].agents[k2].session_id.as_str(),
                        self.sessions[i2].id.as_str(),
                    );
                    if !ok {
                        proof {
                            assert(self.spec_valid_agent_idx(i2 as int, j2 as int, k2 as int));
                            let ag = self.spec_agent_at(i2 as int, j2 as int, k2 as int);
                            assert(ag.window_id@ != self.sessions@[i2 as int].windows@[
                            j2 as int].id@ || ag.session_id@ != self.sessions@[i2 as int].id@);
                            assert(!self.spec_owners_consistent());
                        }
                        return false;
                    }
                    k2 += 1;
                }
                j2 += 1;
            }
            i2 += 1;
        }
        // agent identifiers are unique across the whole registry
        let (aids, tr) = self.all_agent_ids();
        if !ident::strings_distinct(&aids) {
            proof {
                let (t1, t2) = choose|t1: int, t2: int|
                    0 <= t1 < aids@.len() && 0 <= t2 < aids@.len() && t1 != t2 && (
                    #[trigger] aids@[t1])@ == (#[trigger] aids@[t2])@;
                let p1 = tr@[t1];
                let p2 = tr@[t2];
                assert(p1 != p2) by {
                    if t1 < t2 {
                    } else {
                        assert(tr@[t2] != tr@[t1]);
                    }
                }
                assert(self.spec_agent_at(p1.0, p1.1, p1.2).id@ == self.spec_agent_at(
                    p2.0,
                    p2.1,
                    p2.2,
                ).id@);
                assert(!self.spec_agents_unique());
            }
            return false;
        }
        proof {
            assert(self.spec_agents_unique()) by {
                assert forall|i1: int, j1: int, k1: int, i3: int, j3: int, k3: int|
                    self.spec_valid_agent_idx(i1, j1, k1) && self.spec_valid_agent_idx(i3, j3, k3)
                        && (#[trigger] self.spec_agent_at(i1, j1, k1)).id@ == (
                    #[trigger] self.spec_agent_at(i3, j3, k3)).id@ implies i1 == i3 && j1 == j3
                    && k1 == k3 by {
                    assert(spec_tr_covers(tr@, i1, j1, k1));
                    assert(spec_tr_covers(tr@, i3, j3, k3));
                    let t1 = choose|t: int| 0 <= t < tr@.len() && #[trigger] tr@[t] == (i1, j1, k1);
                    let t3 = choose|t: int| 0 <= t < tr@.len() && #[trigger] tr@[t] == (i3, j3, k3);
                    assert(aids@[t1]@ == self.spec_agent_at(i1, j1, k1).id@);
                    assert(aids@[t3]@ == self.spec_agent_at(i3, j3, k3).id@);
                    if t1 != t3 {
                        assert(aids@[t1]@ != aids@[t3]@);
                    }
                }
            }
        }
        // project names are unique
        let pnames = self.project_names();
        if !ident::strings_distinct(&pnames) {
            proof {
                let (t1, t2) = choose|t1: int, t2: int|
                    0 <= t1 < pnames@.len() && 0 <= t2 < pnames@.len() && t1 != t2 && (
                    #[trigger] pnames@[t1])@ == (#[trigger] pnames@[t2])@;
                assert(self.projects@[t1].name@ == self.projects@[t2].name@);
                assert(!self.spec_projects_unique());
            }
            return false;
        }
        proof {
            assert(self.spec_projects_unique()) by {
                assert forall|i1: int, i2: int|
                    0 <= i1 < self.projects@.len() && 0 <= i2 < self.projects@.len()
                        && (#[trigger] self.projects@[i1]).name@ == (
                    #[trigger] self.projects@[i2]).name@ implies i1 == i2 by {
                    assert(pnames@[i1]@ == self.projects@[i1].name@);
                    assert(pnames@[i2]@ == self.projects@[i2].name@);
                }
            }
            assert(self.spec_windows_unique());
            assert(self.spec_owners_consistent()) by {
                assert forall|a: int, b: int, c: int|
                    self.spec_valid_agent_idx(a, b, c) implies (#[trigger] self.spec_agent_at(
                    a,
                    b,
                    c,
                )).window_id@ == self.sessions@[a].windows@[b].id@ && self.spec_agent_at(
                    a,
                    b,
                    c,
                ).session_id@ == self.sessions@[a].id@ by {
                    assert(0 <= a < self.sessions@.len());
                }
            }
        }
        true
    }
}


impl BunshinManager {
    /// What `record_worktree` does: when the agent exists, its isolated
    /// worktree path is recorded and nothing else changes; otherwise nothing
    /// changes.
    pub open spec fn spec_record_worktree_post(
        pre: BunshinManager,
        post: BunshinManager,
        id: Seq<char>,
        path: String,
        r: Result<(), OrchestratorError>,
    ) -> bool {
        if pre.spec_has_agent(id) {
            &&& r is Ok
            &&& post.projects == pre.projects
            &&& post.current_session_id == pre.current_session_id
            &&& post.current_window_id == pre.current_window_id
            &&& exists|i: int, j: int, k: int|
                #![trigger pre.spec_agent_at(i, j, k)]
                {
                    &&& pre.spec_valid_agent_idx(i, j, k)
                    &&& pre.spec_agent_at(i, j, k).id@ == id
                    &&& post.sessions@ == pre.sessions@.update(i, post.sessions@[i])
                    &&& post.sessions@[i] == (BunshinSession {
                        windows: post.sessions@[i].windows,
                        ..pre.sessions@[i]
                    })
                    &&& post.sessions@[i].windows@ == pre.sessions@[i].windows@.update(
                        j,
                        post.sessions@[i].windows@[j],
                    )
                    &&& post.sessions@[i].windows@[j] == (Window {
                        agents: post.sessions@[i].windows@[j].agents,
                        ..pre.sessions@[i].windows@[j]
                    })
                    &&& post.sessions@[i].windows@[j].agents@
                        == pre.sessions@[i].windows@[j].agents@.update(
                        k,
                        post.spec_agent_at(i, j, k),
                    )
                    &&& post.spec_agent_at(i, j, k) == (Agent {
                        artifacts_path: Some(path),
                        ..pre.spec_agent_at(i, j, k)
                    })
                }
        } else {
            &&& post == pre
            &&& r matches Err(OrchestratorError::NotFound(s)) && s@ == id
        }
    }

    /// Record the isolated worktree that was provisioned for the agent: its
    /// processes will run there. The provisioning itself (the git worktree
    /// shell-out) happens outside this crate. Fails if and only if the agent
    /// is absent.
    pub fn record_worktree(&mut self, agent_id: &str, path: String) -> (r: Result<
        (),
        OrchestratorError,
    >)
        ensures
            Self::spec_record_worktree_post(*old(self), *final(self), agent_id@, path, r),
            old(self).wf() ==> final(self).wf(),
    {
        match self.find_agent_loc(agent_id) {
            None => Err(OrchestratorError::NotFound(agent_id.to_owned())),
            Some((i, j, k)) => {
                let ghost pre = *self;
                let session = &mut self.sessions[i];
                let window = &mut session.windows[j];
                let agent = &mut window.agents[k];
                agent.artifacts_path = Some(path);
                proof {
                    assert(Self::spec_record_worktree_post(
                        pre,
                        *self,
                        agent_id@,
                        final(agent).artifacts_path->Some_0,
                        Ok(()),
                    )) by {
                        assert(pre.spec_valid_agent_idx(i as int, j as int, k as int));
                        assert(pre.spec_agent_at(i as int, j as int, k as int).id@ == agent_id@);
                    }
                    if pre.wf() {
                        assert(spec_same_shape(pre, *self));
                        lemma_same_shape_preserves_wf(pre, *self);
                    }
                }
                Ok(())
            },
        }
    }
}

/// Whether two registries agree on everything, comparing strings by their
/// characters.
pub open spec fn spec_same_manager(a: BunshinManager, b: BunshinManager) -> bool {
    &&& a.sessions@.len() == b.sessions@.len()
    &&& forall|i: int|
        0 <= i < a.sessions@.len() ==> crate::entities::spec_same_session(
            #[trigger] a.sessions@[i],
            b.sessions@[i],
        )
    &&& a.projects@.len() == b.projects@.len()
    &&& forall|i: int|
        0 <= i < a.projects@.len() ==> crate::entities::spec_same_project(
            #[trigger] a.projects@[i],
            b.projects@[i],
        )
    &&& crate::entities::spec_same_opt_str(a.current_session_id, b.current_session_id)
    &&& crate::entities::spec_same_opt_str(a.current_window_id, b.current_window_id)
}

/// Every agent agrees with itself.
pub proof fn lemma_same_agent_refl(a: Agent)
    ensures
        crate::entities::spec_same_agent(a, a),
{
}

/// Every window agrees with itself.
pub proof fn lemma_same_window_refl(w: Window)
    ensures
        crate::entities::spec_same_window(w, w),
{
    assert forall|k: int| 0 <= k < w.agents@.len() implies crate::entities::spec_same_agent(
        #[trigger] w.agents@[k],
        w.agents@[k],
    ) by {
        lemma_same_agent_refl(w.agents@[k]);
    }
}

/// Every session agrees with itself.
pub proof fn lemma_same_session_refl(s: BunshinSession)
    ensures
        crate::entities::spec_same_session(s, s),
{
    assert forall|j: int| 0 <= j < s.windows@.len() implies crate::entities::spec_same_window(
        #[trigger] s.windows@[j],
        s.windows@[j],
    ) by {
        lemma_same_window_refl(s.windows@[j]);
    }
}

/// Whether two registries have the same identifier structure: the same
/// sessions, windows, agents and projects in the same places, with the same
/// identifiers and ownership references (other fields free to differ).
pub open spec fn spec_same_shape(pre: BunshinManager, post: BunshinManager) -> bool {
    &&& post.sessions@.len() == pre.sessions@.len()
    &&& forall|i: int| #![trigger post.sessions@[i]]
        0 <= i < pre.sessions@.len() ==> {
            &&& post.sessions@[i].id@ == pre.sessions@[i].id@
            &&& post.sessions@[i].windows@.len() == pre.sessions@[i].windows@.len()
        }
    &&& forall|i: int, j: int| #![trigger post.sessions@[i].windows@[j]]
        0 <= i < pre.sessions@.len() && 0 <= j < pre.sessions@[i].windows@.len() ==> {
            &&& post.sessions@[i].windows@[j].id@ == pre.sessions@[i].windows@[j].id@
            &&& post.sessions@[i].windows@[j].session_id@
                == pre.sessions@[i].windows@[j].session_id@
            &&& post.sessions@[i].windows@[j].agents@.len()
                == pre.sessions@[i].windows@[j].agents@.len()
        }
    &&& forall|i: int, j: int, k: int| #![trigger post.spec_agent_at(i, j, k)]
        pre.spec_valid_agent_idx(i, j, k) ==> {
            &&& post.spec_agent_at(i, j, k).id@ == pre.spec_agent_at(i, j, k).id@
            &&& post.spec_agent_at(i, j, k).window_id@ == pre.spec_agent_at(i, j, k).window_id@
            &&& post.spec_agent_at(i, j, k).session_id@ == pre.spec_agent_at(i, j, k).session_id@
        }
    &&& post.projects@.len() == pre.projects@.len()
    &&& forall|i: int| #![trigger post.projects@[i]]
        0 <= i < pre.projects@.len() ==> post.projects@[i].name@ == pre.projects@[i].name@
}

/// A mutation that leaves the identifier structure alone keeps the registry
/// well-formed.
pub proof fn lemma_same_shape_preserves_wf(pre: BunshinManager, post: BunshinManager)
    requires
        pre.wf(),
        spec_same_shape(pre, post),
    ensures
        post.wf(),
{
    assert(post.spec_sessions_unique()) by {
        assert forall|i1: int, i2: int|
            0 <= i1 < post.sessions@.len() && 0 <= i2 < post.sessions@.len()
                && (#[trigger] post.sessions@[i1]).id@ == (#[trigger] post.sessions@[i2]).id@
            implies i1 == i2 by {
            assert(post.sessions@[i1].id@ == pre.sessions@[i1].id@);
            assert(post.sessions@[i2].id@ == pre.sessions@[i2].id@);
        }
    }
    assert(post.spec_windows_unique()) by {
        assert forall|i: int, j1: int, j2: int|
            0 <= i < post.sessions@.len() && 0 <= j1 < post.sessions@[i].windows@.len() && 0 <= j2
                < post.sessions@[i].windows@.len()
                && (#[trigger] post.sessions@[i].windows@[j1]).id@
                == (#[trigger] post.sessions@[i].windows@[j2]).id@ implies j1 == j2 by {
            assert(post.sessions@[i].windows@[j1].id@ == pre.sessions@[i].windows@[j1].id@);
            assert(post.sessions@[i].windows@[j2].id@ == pre.sessions@[i].windows@[j2].id@);
        }
    }
    assert(post.spec_agents_unique()) by {
        assert forall|i1: int, j1: int, k1: int, i2: int, j2: int, k2: int|
            post.spec_valid_agent_idx(i1, j1, k1) && post.spec_valid_agent_idx(i2, j2, k2)
                && (#[trigger] post.spec_agent_at(i1, j1, k1)).id@ == (#[trigger] post.spec_agent_at(
                i2,
                j2,
                k2,
            )).id@ implies i1 == i2 && j1 == j2 && k1 == k2 by {
            assert(pre.spec_valid_agent_idx(i1, j1, k1));
            assert(pre.spec_valid_agent_idx(i2, j2, k2));
            assert(post.spec_agent_at(i1, j1, k1).id@ == pre.spec_agent_at(i1, j1, k1).id@);
            assert(post.spec_agent_at(i2, j2, k2).id@ == pre.spec_agent_at(i2, j2, k2).id@);
        }
    }
    assert(post.spec_owners_consistent()) by {
        assert forall|i: int, j: int|
            0 <= i < post.sessions@.len() && 0 <= j < post.sessions@[i].windows@.len() implies (
        #[trigger] post.sessions@[i].windows@[j]).session_id@ == post.sessions@[i].id@ by {
            assert(post.sessions@[i].windows@[j].session_id@
                == pre.sessions@[i].windows@[j].session_id@);
            assert(pre.sessions@[i].windows@[j].session_id@ == pre.sessions@[i].id@);
        }
        assert forall|i: int, j: int, k: int|
            post.spec_valid_agent_idx(i, j, k) implies (#[trigger] post.spec_agent_at(
            i,
            j,
            k,
        )).window_id@ == post.sessions@[i].windows@[j].id@ && post.spec_agent_at(
            i,
            j,
            k,
        ).session_id@ == post.sessions@[i].id@ by {
            assert(pre.spec_valid_agent_idx(i, j, k));
            assert(post.spec_agent_at(i, j, k).window_id@ == pre.spec_agent_at(
                i,
                j,
                k,
            ).window_id@);
            assert(post.spec_agent_at(i, j, k).session_id@ == pre.spec_agent_at(
                i,
                j,
                k,
            ).session_id@);
            assert(pre.spec_agent_at(i, j, k).window_id@ == pre.sessions@[i].windows@[j].id@);
            assert(pre.spec_agent_at(i, j, k).session_id@ == pre.sessions@[i].id@);
        }
    }
    assert(post.spec_projects_unique()) by {
        assert forall|i1: int, i2: int|
            0 <= i1 < post.projects@.len() && 0 <= i2 < post.projects@.len()
                && (#[trigger] post.projects@[i1]).name@ == (#[trigger] post.projects@[i2]).name@
            implies i1 == i2 by {
            assert(post.projects@[i1].name@ == pre.projects@[i1].name@);
            assert(post.projects@[i2].name@ == pre.projects@[i2].name@);
        }
    }
}

/// Killing the same agent twice is safe: the second call finds no recorded
/// pid, does not error, and changes nothing, leaving the agent stopped.
pub proof fn lemma_kill_agent_idempotent(
    m0: BunshinManager,
    m1: BunshinManager,
    m2: BunshinManager,
    id: Seq<char>,
    r1: Result<Option<u32>, OrchestratorError>,
    r2: Result<Option<u32>, OrchestratorError>,
)
    requires
        m0.wf(),
        m0.spec_has_agent(id),
        BunshinManager::spec_kill_post(m0, m1, id, r1),
        BunshinManager::spec_kill_post(m1, m2, id, r2),
    ensures
        r2 == Ok::<Option<u32>, OrchestratorError>(None::<u32>),
        spec_same_manager(m1, m2),
        exists|i: int, j: int, k: int|
            #![trigger m2.spec_agent_at(i, j, k)]
            m2.spec_valid_agent_idx(i, j, k) && m2.spec_agent_at(i, j, k).id@ == id
                && m2.spec_agent_at(i, j, k).state == AgentState::Stopped && m2.spec_agent_at(
                i,
                j,
                k,
            ).pid is None,
{
    let (i, j, k) = choose|i: int, j: int, k: int|
        #![trigger m0.spec_agent_at(i, j, k)]
        {
            &&& m0.spec_valid_agent_idx(i, j, k)
            &&& m0.spec_agent_at(i, j, k).id@ == id
            &&& r1 == Ok::<Option<u32>, OrchestratorError>(m0.spec_agent_at(i, j, k).pid)
            &&& m1.sessions@ == m0.sessions@.update(i, m1.sessions@[i])
            &&& m1.sessions@[i] == (BunshinSession {
                windows: m1.sessions@[i].windows,
                ..m0.sessions@[i]
            })
            &&& m1.sessions@[i].windows@ == m0.sessions@[i].windows@.update(
                j,
                m1.sessions@[i].windows@[j],
            )
            &&& m1.sessions@[i].windows@[j] == (Window {
                agents: m1.sessions@[i].windows@[j].agents,
                ..m0.sessions@[i].windows@[j]
            })
            &&& m1.sessions@[i].windows@[j].agents@ == m0.sessions@[i].windows@[j].agents@.update(
                k,
                m1.spec_agent_at(i, j, k),
            )
            &&& m1.spec_agent_at(i, j, k) == (Agent {
                state: AgentState::Stopped,
                pid: None,
                uptime_start: None,
                ..m0.spec_agent_at(i, j, k)
            })
        };
    assert(m1.spec_valid_agent_idx(i, j, k));
    assert(m1.spec_agent_at(i, j, k).id@ == id);
    assert(m1.spec_agent_at(i, j, k).pid is None);
    assert(m1.spec_has_agent(id));
    assert(spec_same_shape(m0, m1)) by {
        assert forall|a: int| #![trigger m1.sessions@[a]] 0 <= a < m0.sessions@.len() implies {
            &&& m1.sessions@[a].id@ == m0.sessions@[a].id@
            &&& m1.sessions@[a].windows@.len() == m0.sessions@[a].windows@.len()
        } by {
            if a != i {
                assert(m1.sessions@[a] == m0.sessions@[a]);
            }
        }
        assert forall|a: int, b: int| #![trigger m1.sessions@[a].windows@[b]]
            0 <= a < m0.sessions@.len() && 0 <= b < m0.sessions@[a].windows@.len() implies {
            &&& m1.sessions@[a].windows@[b].id@ == m0.sessions@[a].windows@[b].id@
            &&& m1.sessions@[a].windows@[b].session_id@ == m0.sessions@[a].windows@[b].session_id@
            &&& m1.sessions@[a].windows@[b].agents@.len()
                == m0.sessions@[a].windows@[b].agents@.len()
        } by {
            if a != i {
                assert(m1.sessions@[a] == m0.sessions@[a]);
            } else if b != j {
                assert(m1.sessions@[a].windows@[b] == m0.sessions@[a].windows@[b]);
            }
        }
        assert forall|a: int, b: int, c: int| #![trigger m1.spec_agent_at(a, b, c)]
            m0.spec_valid_agent_idx(a, b, c) implies {
            &&& m1.spec_agent_at(a, b, c).id@ == m0.spec_agent_at(a, b, c).id@
            &&& m1.spec_agent_at(a, b, c).window_id@ == m0.spec_agent_at(a, b, c).window_id@
            &&& m1.spec_agent_at(a, b, c).session_id@ == m0.spec_agent_at(a, b, c).session_id@
        } by {
            if a != i {
                assert(m1.sessions@[a] == m0.sessions@[a]);
            } else if b != j {
                assert(m1.sessions@[a].windows@[b] == m0.sessions@[a].windows@[b]);
            } else if c != k {
                assert(m1.spec_agent_at(a, b, c) == m0.spec_agent_at(a, b, c));
            }
        }
    }
    lemma_same_shape_preserves_wf(m0, m1);
    let (i2, j2, k2) = choose|i2: int, j2: int, k2: int|
        #![trigger m1.spec_agent_at(i2, j2, k2)]
        {
            &&& m1.spec_valid_agent_idx(i2, j2, k2)
            &&& m1.spec_agent_at(i2, j2, k2).id@ == id
            &&& r2 == Ok::<Option<u32>, OrchestratorError>(m1.spec_agent_at(i2, j2, k2).pid)
            &&& m2.sessions@ == m1.sessions@.update(i2, m2.sessions@[i2])
            &&& m2.sessions@[i2] == (BunshinSession {
                windows: m2.sessions@[i2].windows,
                ..m1.sessions@[i2]
            })
            &&& m2.sessions@[i2].windows@ == m1.sessions@[i2].windows@.update(
                j2,
                m2.sessions@[i2].windows@[j2],
            )
            &&& m2.sessions@[i2].windows@[j2] == (Window {
                agents: m2.sessions@[i2].windows@[j2].agents,
                ..m1.sessions@[i2].windows@[j2]
            })
            &&& m2.sessions@[i2].windows@[j2].agents@
                == m1.sessions@[i2].windows@[j2].agents@.update(
                k2,
                m2.spec_agent_at(i2, j2, k2),
            )
            &&& m2.spec_agent_at(i2, j2, k2) == (Agent {
                state: AgentState::Stopped,
                pid: None,
                uptime_start: None,
                ..m1.spec_agent_at(i2, j2, k2)
            })
        };
    assert(i2 == i && j2 == j && k2 == k);
    assert(m1.spec_agent_at(i2, j2, k2).pid is None);
    assert(m2.spec_agent_at(i2, j2, k2) == m1.spec_agent_at(i2, j2, k2));
    assert(m2.spec_valid_agent_idx(i2, j2, k2));
    assert(m2.spec_agent_at(i2, j2, k2).id@ == id);
    assert(m2.spec_agent_at(i2, j2, k2).state == AgentState::Stopped);
    assert forall|a: int| 0 <= a < m1.sessions@.len() implies
        crate::entities::spec_same_session(#[trigger] m1.sessions@[a], m2.sessions@[a]) by {
        if a != i2 {
            assert(m2.sessions@[a] == m1.sessions@[a]);
            lemma_same_session_refl(m1.sessions@[a]);
        } else {
            assert forall|b: int| 0 <= b < m1.sessions@[a].windows@.len() implies
                crate::entities::spec_same_window(
                #[trigger] m1.sessions@[a].windows@[b],
                m2.sessions@[a].windows@[b],
            ) by {
                if b != j2 {
                    assert(m2.sessions@[a].windows@[b] == m1.sessions@[a].windows@[b]);
                    lemma_same_window_refl(m1.sessions@[a].windows@[b]);
                } else {
                    assert forall|c: int|
                        0 <= c < m1.sessions@[a].windows@[b].agents@.len() implies
                        crate::entities::spec_same_agent(
                        #[trigger] m1.sessions@[a].windows@[b].agents@[c],
                        m2.sessions@[a].windows@[b].agents@[c],
                    ) by {
                        if c != k2 {
                            assert(m2.sessions@[a].windows@[b].agents@[c]
                                == m1.sessions@[a].windows@[b].agents@[c]);
                        }
                        lemma_same_agent_refl(m1.sessions@[a].windows@[b].agents@[c]);
                    }
                }
            }
        }
    }
    assert forall|a: int| 0 <= a < m1.projects@.len() implies
        crate::entities::spec_same_project(#[trigger] m1.projects@[a], m2.projects@[a]) by {
    }
}

/// Appending a window with an identifier fresh in its session and no agents
/// keeps the registry well-formed.
proof fn lemma_session_push_window_preserves_wf(
    pre: BunshinManager,
    post: BunshinManager,
    si: int,
)
    requires
        pre.wf(),
        0 <= si < pre.sessions@.len(),
        post.sessions@.len() == pre.sessions@.len(),
        post.sessions@ == pre.sessions@.update(si, post.sessions@[si]),
        post.sessions@[si] == (BunshinSession {
            windows: post.sessions@[si].windows,
            ..pre.sessions@[si]
        }),
        post.sessions@[si].windows@ == pre.sessions@[si].windows@.push(
            post.sessions@[si].windows@.last(),
        ),
        !spec_has_window_id(
            pre.sessions@[si].windows@,
            post.sessions@[si].windows@.last().id@,
        ),
        post.sessions@[si].windows@.last().session_id@ == pre.sessions@[si].id@,
        post.sessions@[si].windows@.last().agents@.len() == 0,
        post.projects == pre.projects,
    ensures
        post.wf(),
{
    let wn = pre.sessions@[si].windows@.len() as int;
    assert(forall|i: int|
        0 <= i < post.sessions@.len() && i != si ==> post.sessions@[i] == pre.sessions@[i]);
    assert(post.sessions@[si].id@ == pre.sessions@[si].id@);
    assert(post.spec_sessions_unique());
    assert(post.spec_windows_unique()) by {
        assert forall|i: int, j1: int, j2: int|
            0 <= i < post.sessions@.len() && 0 <= j1 < post.sessions@[i].windows@.len() && 0 <= j2
                < post.sessions@[i].windows@.len()
                && (#[trigger] post.sessions@[i].windows@[j1]).id@
                == (#[trigger] post.sessions@[i].windows@[j2]).id@ implies j1 == j2 by {
            if i == si {
                if j1 < wn && j2 < wn {
                    assert(post.sessions@[i].windows@[j1] == pre.sessions@[i].windows@[j1]);
                    assert(post.sessions@[i].windows@[j2] == pre.sessions@[i].windows@[j2]);
                } else if j1 == wn && j2 < wn {
                    assert(spec_has_window_id(
                        pre.sessions@[si].windows@,
                        post.sessions@[si].windows@[j2].id@,
                    ));
                } else if j2 == wn && j1 < wn {
                    assert(spec_has_window_id(
                        pre.sessions@[si].windows@,
                        post.sessions@[si].windows@[j1].id@,
                    ));
                }
            }
        }
    }
    assert(post.spec_agents_unique()) by {
        assert forall|i1: int, j1: int, k1: int, i2: int, j2: int, k2: int|
            post.spec_valid_agent_idx(i1, j1, k1) && post.spec_valid_agent_idx(i2, j2, k2)
                && (#[trigger] post.spec_agent_at(i1, j1, k1)).id@ == (#[trigger] post.spec_agent_at(
                i2,
                j2,
                k2,
            )).id@ implies i1 == i2 && j1 == j2 && k1 == k2 by {
            assert(!(i1 == si && j1 == wn));
            assert(!(i2 == si && j2 == wn));
            assert(pre.spec_valid_agent_idx(i1, j1, k1));
            assert(pre.spec_valid_agent_idx(i2, j2, k2));
            assert(pre.spec_agent_at(i1, j1, k1) == post.spec_agent_at(i1, j1, k1));
            assert(pre.spec_agent_at(i2, j2, k2) == post.spec_agent_at(i2, j2, k2));
        }
    }
    assert(post.spec_owners_consistent()) by {
        assert forall|i: int, j: int|
            0 <= i < post.sessions@.len() && 0 <= j < post.sessions@[i].windows@.len() implies (
        #[trigger] post.sessions@[i].windows@[j]).session_id@ == post.sessions@[i].id@ by {
            if i == si && j < wn {
                assert(post.sessions@[i].windows@[j] == pre.sessions@[i].windows@[j]);
            } else if i != si {
                assert(post.sessions@[i] == pre.sessions@[i]);
            }
        }
        assert forall|i: int, j: int, k: int|
            post.spec_valid_agent_idx(i, j, k) implies (#[trigger] post.spec_agent_at(
            i,
            j,
            k,
        )).window_id@ == post.sessions@[i].windows@[j].id@ && post.spec_agent_at(
            i,
            j,
            k,
        ).session_id@ == post.sessions@[i].id@ by {
            assert(!(i == si && j == wn));
            assert(pre.spec_valid_agent_idx(i, j, k));
            assert(pre.spec_agent_at(i, j, k) == post.spec_agent_at(i, j, k));
            assert(pre.spec_agent_at(i, j, k).window_id@ == pre.sessions@[i].windows@[j].id@);
            assert(pre.spec_agent_at(i, j, k).session_id@ == pre.sessions@[i].id@);
        }
    }
}

/// Appending an agent whose identifier is fresh across the whole registry
/// keeps the registry well-formed.
proof fn lemma_push_agent_preserves_wf(pre: BunshinManager, post: BunshinManager, si: int, wi: int)
    requires
        pre.wf(),
        0 <= si < pre.sessions@.len(),
        0 <= wi < pre.sessions@[si].windows@.len(),
        post.sessions@.len() == pre.sessions@.len(),
        post.sessions@ == pre.sessions@.update(si, post.sessions@[si]),
        post.sessions@[si] == (BunshinSession {
            windows: post.sessions@[si].windows,
            ..pre.sessions@[si]
        }),
        post.sessions@[si].windows@ == pre.sessions@[si].windows@.update(
            wi,
            post.sessions@[si].windows@[wi],
        ),
        post.sessions@[si].windows@[wi] == (Window {
            agents: post.sessions@[si].windows@[wi].agents,
            ..pre.sessions@[si].windows@[wi]
        }),
        post.sessions@[si].windows@[wi].agents@ == pre.sessions@[si].windows@[wi].agents@.push(
            post.sessions@[si].windows@[wi].agents@.last(),
        ),
        !pre.spec_has_agent(post.sessions@[si].windows@[wi].agents@.last().id@),
        post.sessions@[si].windows@[wi].agents@.last().window_id@
            == pre.sessions@[si].windows@[wi].id@,
        post.sessions@[si].windows@[wi].agents@.last().session_id@ == pre.sessions@[si].id@,
        post.projects == pre.projects,
    ensures
        post.wf(),
{
    let an = pre.sessions@[si].windows@[wi].agents@.len() as int;
    let newa = post.sessions@[si].windows@[wi].agents@.last();
    assert(forall|i: int|
        0 <= i < post.sessions@.len() && i != si ==> post.sessions@[i] == pre.sessions@[i]);
    assert(forall|j: int|
        0 <= j < post.sessions@[si].windows@.len() && j != wi ==> post.sessions@[si].windows@[j]
            == pre.sessions@[si].windows@[j]);
    assert(post.sessions@[si].id@ == pre.sessions@[si].id@);
    assert(post.sessions@[si].windows@[wi].id@ == pre.sessions@[si].windows@[wi].id@);
    assert(post.spec_sessions_unique());
    assert(post.spec_windows_unique()) by {
        assert forall|i: int, j1: int, j2: int|
            0 <= i < post.sessions@.len() && 0 <= j1 < post.sessions@[i].windows@.len() && 0 <= j2
                < post.sessions@[i].windows@.len()
                && (#[trigger] post.sessions@[i].windows@[j1]).id@
                == (#[trigger] post.sessions@[i].windows@[j2]).id@ implies j1 == j2 by {
            assert(post.sessions@[i].windows@[j1].id@ == pre.sessions@[i].windows@[j1].id@);
            assert(post.sessions@[i].windows@[j2].id@ == pre.sessions@[i].windows@[j2].id@);
        }
    }
    assert(post.spec_agents_unique()) by {
        assert forall|i1: int, j1: int, k1: int, i2: int, j2: int, k2: int|
            post.spec_valid_agent_idx(i1, j1, k1) && post.spec_valid_agent_idx(i2, j2, k2)
                && (#[trigger] post.spec_agent_at(i1, j1, k1)).id@ == (#[trigger] post.spec_agent_at(
                i2,
                j2,
                k2,
            )).id@ implies i1 == i2 && j1 == j2 && k1 == k2 by {
            let new1 = i1 == si && j1 == wi && k1 == an;
            let new2 = i2 == si && j2 == wi && k2 == an;
            if new1 && new2 {
            } else if new1 && !new2 {
                assert(pre.spec_valid_agent_idx(i2, j2, k2));
                assert(pre.spec_agent_at(i2, j2, k2) == post.spec_agent_at(i2, j2, k2));
                assert(pre.spec_has_agent(post.spec_agent_at(i2, j2, k2).id@));
            } else if !new1 && new2 {
                assert(pre.spec_valid_agent_idx(i1, j1, k1));
                assert(pre.spec_agent_at(i1, j1, k1) == post.spec_agent_at(i1, j1, k1));
                assert(pre.spec_has_agent(post.spec_agent_at(i1, j1, k1).id@));
            } else {
                assert(pre.spec_valid_agent_idx(i1, j1, k1));
                assert(pre.spec_valid_agent_idx(i2, j2, k2));
                assert(pre.spec_agent_at(i1, j1, k1) == post.spec_agent_at(i1, j1, k1));
                assert(pre.spec_agent_at(i2, j2, k2) == post.spec_agent_at(i2, j2, k2));
            }
        }
    }
    assert(post.spec_owners_consistent()) by {
        assert forall|i: int, j: int|
            0 <= i < post.sessions@.len() && 0 <= j < post.sessions@[i].windows@.len() implies (
        #[trigger] post.sessions@[i].windows@[j]).session_id@ == post.sessions@[i].id@ by {
            assert(post.sessions@[i].windows@[j].session_id@
                == pre.sessions@[i].windows@[j].session_id@);
        }
        assert forall|i: int, j: int, k: int|
            post.spec_valid_agent_idx(i, j, k) implies (#[trigger] post.spec_agent_at(
            i,
            j,
            k,
        )).window_id@ == post.sessions@[i].windows@[j].id@ && post.spec_agent_at(
            i,
            j,
            k,
        ).session_id@ == post.sessions@[i].id@ by {
            if i == si && j == wi && k == an {
            } else {
                assert(pre.spec_valid_agent_idx(i, j, k));
                assert(pre.spec_agent_at(i, j, k) == post.spec_agent_at(i, j, k));
                assert(pre.spec_agent_at(i, j, k).window_id@ == pre.sessions@[i].windows@[j].id@);
                assert(pre.spec_agent_at(i, j, k).session_id@ == pre.sessions@[i].id@);
            }
        }
    }
}

/// Appending a session with a fresh identifier and no agents keeps the
/// registry well-formed, provided the new session is internally consistent.
proof fn lemma_push_session_preserves_wf(pre: BunshinManager, post: BunshinManager)
    requires
        pre.wf(),
        post.sessions@ == pre.sessions@.push(post.sessions@.last()),
        post.sessions@.len() == pre.sessions@.len() + 1,
        !spec_has_session_id(pre.sessions@, post.sessions@.last().id@),
        // the new session's own windows are unique and owned by it
        forall|j1: int, j2: int|
            0 <= j1 < post.sessions@.last().windows@.len() && 0 <= j2
                < post.sessions@.last().windows@.len() && (#[trigger] post.sessions@.last().windows@[j1]).id@
                == (#[trigger] post.sessions@.last().windows@[j2]).id@ ==> j1 == j2,
        forall|j: int|
            0 <= j < post.sessions@.last().windows@.len() ==> (
            #[trigger] post.sessions@.last().windows@[j]).session_id@
                == post.sessions@.last().id@ && post.sessions@.last().windows@[j].agents@.len()
                == 0,
        post.projects == pre.projects,
    ensures
        post.wf(),
{
    let n = pre.sessions@.len() as int;
    assert(forall|i: int| 0 <= i < n ==> post.sessions@[i] == pre.sessions@[i]);
    assert(post.spec_sessions_unique()) by {
        assert(forall|i1: int, i2: int|
            0 <= i1 < post.sessions@.len() && 0 <= i2 < post.sessions@.len()
                && (#[trigger] post.sessions@[i1]).id@ == (#[trigger] post.sessions@[i2]).id@
                ==> i1 == i2) by {
            assert forall|i1: int, i2: int|
                0 <= i1 < post.sessions@.len() && 0 <= i2 < post.sessions@.len()
                    && (#[trigger] post.sessions@[i1]).id@ == (#[trigger] post.sessions@[i2]).id@
                implies i1 == i2 by {
                if i1 < n && i2 < n {
                } else if i1 == n && i2 < n {
                    assert(spec_has_session_id(pre.sessions@, post.sessions@[i1].id@));
                } else if i2 == n && i1 < n {
                    assert(spec_has_session_id(pre.sessions@, post.sessions@[i2].id@));
                }
            }
        }
    }
    assert(post.spec_windows_unique()) by {
        assert forall|i: int, j1: int, j2: int|
            0 <= i < post.sessions@.len() && 0 <= j1 < post.sessions@[i].windows@.len() && 0 <= j2
                < post.sessions@[i].windows@.len()
                && (#[trigger] post.sessions@[i].windows@[j1]).id@
                == (#[trigger] post.sessions@[i].windows@[j2]).id@ implies j1 == j2 by {
            if i < n {
                assert(post.sessions@[i] == pre.sessions@[i]);
            }
        }
    }
    assert(post.spec_agents_unique()) by {
        assert forall|i1: int, j1: int, k1: int, i2: int, j2: int, k2: int|
            post.spec_valid_agent_idx(i1, j1, k1) && post.spec_valid_agent_idx(i2, j2, k2)
                && (#[trigger] post.spec_agent_at(i1, j1, k1)).id@ == (#[trigger] post.spec_agent_at(
                i2,
                j2,
                k2,
            )).id@ implies i1 == i2 && j1 == j2 && k1 == k2 by {
            assert(i1 < n && i2 < n);
            assert(pre.spec_valid_agent_idx(i1, j1, k1));
            assert(pre.spec_valid_agent_idx(i2, j2, k2));
            assert(pre.spec_agent_at(i1, j1, k1) == post.spec_agent_at(i1, j1, k1));
            assert(pre.spec_agent_at(i2, j2, k2) == post.spec_agent_at(i2, j2, k2));
        }
    }
    assert(post.spec_owners_consistent()) by {
        assert forall|i: int, j: int|
            0 <= i < post.sessions@.len() && 0 <= j < post.sessions@[i].windows@.len() implies (
        #[trigger] post.sessions@[i].windows@[j]).session_id@ == post.sessions@[i].id@ by {
            if i < n {
                assert(post.sessions@[i] == pre.sessions@[i]);
            }
        }
        assert forall|i: int, j: int, k: int|
            post.spec_valid_agent_idx(i, j, k) implies (#[trigger] post.spec_agent_at(
            i,
            j,
            k,
        )).window_id@ == post.sessions@[i].windows@[j].id@ && post.spec_agent_at(
            i,
            j,
            k,
        ).session_id@ == post.sessions@[i].id@ by {
            if i == n {
                assert(post.sessions@[i] == post.sessions@.last());
                assert(post.sessions@.last().windows@[j].agents@.len() == 0);
            }
            assert(i < n);
            assert(pre.spec_valid_agent_idx(i, j, k));
            assert(pre.spec_agent_at(i, j, k) == post.spec_agent_at(i, j, k));
            assert(pre.spec_agent_at(i, j, k).window_id@ == pre.sessions@[i].windows@[j].id@);
            assert(pre.spec_agent_at(i, j, k).session_id@ == pre.sessions@[i].id@);
        }
    }
}

} // verus!
