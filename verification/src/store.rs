//! The flat session records of the terminal session browser: one worktree
//! checkout per named session, with the pid of the assistant process running
//! in it, if any.

use vstd::prelude::*;
use crate::strutil::str_eq;

verus! {

/// One named worktree session.
#[derive(Debug, Clone, PartialEq)]
pub struct Session {
    pub name: String,
    pub worktree_path: String,
    pub branch: String,
    pub repo_path: String,
    pub assistant_pid: Option<u32>,
    pub created_at: i64,
}

impl Session {
    /// A fresh session record with no process attached.
    pub fn new(
        name: String,
        worktree_path: String,
        branch: String,
        repo_path: String,
        now: i64,
    ) -> (s: Session)
        ensures
            s == (Session {
                name,
                worktree_path,
                branch,
                repo_path,
                assistant_pid: None,
                created_at: now,
            }),
    {
        Session { name, worktree_path, branch, repo_path, assistant_pid: None, created_at: now }
    }

    /// Whether an assistant process is attached.
    pub fn is_active(&self) -> (r: bool)
        ensures
            r == (self.assistant_pid is Some),
    {
        match self.assistant_pid {
            Some(_) => true,
            None => false,
        }
    }
}

/// Whether some session in `s` carries the name `name`.
pub open spec fn spec_has_session_name(s: Seq<Session>, name: Seq<char>) -> bool {
    exists|i: int| 0 <= i < s.len() && s[i].name@ == name
}

/// The ordered collection of session records.
#[derive(Debug, Clone, PartialEq)]
pub struct SessionManager {
    pub sessions: Vec<Session>,
}

impl SessionManager {
    /// An empty collection.
    pub fn new() -> (m: SessionManager)
        ensures
            m.sessions@ == Seq::<Session>::empty(),
    {
        let m = SessionManager { sessions: Vec::new() };
        proof {
            assert(m.sessions@ =~= Seq::<Session>::empty());
        }
        m
    }

    /// Append a session record.
    pub fn add_session(&mut self, session: Session)
        ensures
            final(self).sessions@ == old(self).sessions@.push(session),
    {
        self.sessions.push(session);
    }

    /// Remove every session record named `name`, keeping the order of the
    /// rest.
    pub fn remove_session(&mut self, name: &str)
        ensures
            final(self).sessions@ == old(self).sessions@.filter(
                |s: Session| s.name@ != name@,
            ),
    {
        let ghost pre = self.sessions@;
        let mut kept: Vec<Session> = Vec::new();
        let mut i: usize = 0;
        proof {
            assert(pre.take(0) =~= Seq::<Session>::empty());
            assert(pre.take(0).filter(|s: Session| s.name@ != name@) =~= Seq::<Session>::empty());
            assert(kept@ =~= Seq::<Session>::empty());
        }
        while i < self.sessions.len()
            invariant
                i <= pre.len(),
                self.sessions@ == pre,
                kept@ == pre.take(i as int).filter(|s: Session| s.name@ != name@),
            decreases pre.len() - i,
        {
            proof {
                assert(pre.take(i as int + 1).drop_last() =~= pre.take(i as int));
                assert(pre.take(i as int + 1).last() == pre[i as int]);
            }
            let ghost before = kept@;
            if !str_eq(self.sessions[i].name.as_str(), name) {
                let s = Session {
                    name: self.sessions[i].name.clone(),
                    worktree_path: self.sessions[i].worktree_path.clone(),
                    branch: self.sessions[i].branch.clone(),
                    repo_path: self.sessions[i].repo_path.clone(),
                    assistant_pid: self.sessions[i].assistant_pid,
                    created_at: self.sessions[i].created_at,
                };
                proof {
                    assert(s == pre[i as int]);
                }
                kept.push(s);
            }
            proof {
                reveal(Seq::filter);
                assert(kept@ =~= pre.take(i as int + 1).filter(|s: Session| s.name@ != name@));
            }
            i += 1;
        }
        proof {
            assert(pre.take(pre.len() as int) =~= pre);
        }
        self.sessions = kept;
    }

    /// Where the first session named `name` sits.
    pub fn session_index(&self, name: &str) -> (r: Option<usize>)
        ensures
            match r {
                Some(i) => i < self.sessions@.len() && self.sessions@[i as int].name@ == name@,
                None => !spec_has_session_name(self.sessions@, name@),
            },
    {
        let mut i: usize = 0;
        while i < self.sessions.len()
            invariant
                i <= self.sessions@.len(),
                forall|j: int| 0 <= j < i ==> self.sessions@[j].name@ != name@,
            decreases self.sessions@.len() - i,
        {
            if str_eq(self.sessions[i].name.as_str(), name) {
                return Some(i);
            }
            i += 1;
        }
        None
    }

    /// The first session named `name`, if any.
    pub fn get_session(&self, name: &str) -> (r: Option<&Session>)
        ensures
            match r {
                Some(s) => exists|i: int|
                    0 <= i < self.sessions@.len() && *s == self.sessions@[i] && s.name@ == name@,
                None => !spec_has_session_name(self.sessions@, name@),
            },
    {
        match self.session_index(name) {
            Some(i) => Some(&self.sessions[i]),
            None => None,
        }
    }
}

} // verus!
