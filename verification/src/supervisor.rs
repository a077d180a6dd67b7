//! The process supervisor's decisions: which child may start, with what
//! program, arguments and environment, and the session table that holds the
//! at-most-one-session-per-id invariant.
//!
//! The operating-system spawn and kill happen at the transport edge; it asks
//! this module for a launch plan first and reports lifecycle transitions
//! back, so that every transition is checked against the table's invariant.

use vstd::prelude::*;
use crate::store::{Runtime, ServerRecord};

verus! {

/// The supervisor's failures.
#[derive(Debug, PartialEq)]
pub enum SupervisorError {
    /// The child could not be started; the reason is carried along.
    SpawnFailed(String),
    /// A stdio pipe could not be taken or broke.
    PipeError,
    /// The requested runtime names none of node, python, docker.
    UnsupportedRuntime,
    /// A kill was asked of an id with no live session.
    NotRunning,
    /// The child survived both the termination signal and the forced kill.
    KillFailed,
    /// A session for the id is already live; at most one may exist.
    AlreadyRunning,
}

/// Read a runtime name: exactly node, python or docker; anything else is
/// refused with `UnsupportedRuntime`.
pub fn parse_runtime(s: &String) -> (r: Result<Runtime, SupervisorError>)
    ensures
        match r {
            Ok(rt) => (s@ == "node"@ && rt == Runtime::Node) || (s@ == "python"@ && rt
                == Runtime::Python) || (s@ == "docker"@ && rt == Runtime::Docker),
            Err(e) => e matches SupervisorError::UnsupportedRuntime && s@ != "node"@ && s@
                != "python"@ && s@ != "docker"@,
        },
{
    if *s == "node".to_owned() {
        Ok(Runtime::Node)
    } else if *s == "python".to_owned() {
        Ok(Runtime::Python)
    } else if *s == "docker".to_owned() {
        Ok(Runtime::Docker)
    } else {
        Err(SupervisorError::UnsupportedRuntime)
    }
}

/// The runtime's wire name, as records and catalogs spell it.
pub fn runtime_name(rt: Runtime) -> (r: String)
    ensures
        rt == Runtime::Node ==> r@ == "node"@,
        rt == Runtime::Python ==> r@ == "python"@,
        rt == Runtime::Docker ==> r@ == "docker"@,
{
    match rt {
        Runtime::Node => "node".to_owned(),
        Runtime::Python => "python".to_owned(),
        Runtime::Docker => "docker".to_owned(),
    }
}

/// Everything the edge needs to spawn one child: the program, its argument
/// vector, and the environment entries to lay over the inherited one.
#[derive(Debug, PartialEq)]
pub struct LaunchPlan {
    pub program: String,
    pub args: Vec<String>,
    pub env: Vec<(String, String)>,
}

/// The denotation of a plan's env list.
pub open spec fn plan_env_kv(s: Seq<(String, String)>) -> Seq<(Seq<char>, Seq<char>)> {
    Seq::new(s.len(), |i: int| (s[i].0@, s[i].1@))
}

/// Whether every env entry the record marks required carries a non-empty
/// value — what starting the child demands.
pub open spec fn required_env_filled(rec: ServerRecord) -> bool {
    forall|i: int| 0 <= i < rec@.env.len() ==> ((#[trigger] rec@.env[i]).1.required
        ==> rec@.env[i].1.value.len() > 0)
}

/// Compute the launch plan for an enabled record: its configured command and
/// arguments, and its env map flattened to name–value pairs. Refused up
/// front, with nothing spawned, when a required env entry has an empty
/// value.
pub fn launch_plan(rec: &ServerRecord) -> (r: Result<LaunchPlan, SupervisorError>)
    requires
        rec@.enabled,
        rec@.command.len() > 0,
    ensures
        match r {
            Ok(p) => required_env_filled(*rec) && p.program@ == rec@.command && p.args@.len()
                == rec@.args.len() && (forall|i: int|
                0 <= i < rec@.args.len() ==> p.args@[i]@ == rec@.args[i]) && plan_env_kv(p.env@)
                == Seq::new(rec@.env.len(), |i: int| (rec@.env[i].0, rec@.env[i].1.value)),
            Err(e) => e matches SupervisorError::SpawnFailed(_) && !required_env_filled(*rec),
        },
{
    let mut env: Vec<(String, String)> = Vec::new();
    let mut i: usize = 0;
    while i < rec.env.len()
        invariant
            i <= rec.env@.len(),
            env@.len() == i,
            forall|q: int| 0 <= q < i ==> env@[q].0@ == rec.env@[q].0@ && env@[q].1@
                == rec.env@[q].1@.value,
            forall|q: int| 0 <= q < i ==> (rec.env@[q].1@.required ==> rec.env@[q].1@.value.len()
                > 0),
        decreases rec.env@.len() - i,
    {
        if rec.env[i].1.required && rec.env[i].1.value.as_str().is_empty() {
            proof {
                assert(rec@.env[i as int].1.required && rec@.env[i as int].1.value.len() == 0);
            }
            return Err(
                SupervisorError::SpawnFailed("a required env entry has no value".to_owned()),
            );
        }
        env.push((rec.env[i].0.clone(), rec.env[i].1.value.clone()));
        i += 1;
    }
    let p = LaunchPlan {
        program: rec.command.clone(),
        args: crate::store::clone_args(&rec.args),
        env,
    };
    proof {
        assert(plan_env_kv(p.env@) =~= Seq::new(
            rec@.env.len(),
            |i: int| (rec@.env[i].0, rec@.env[i].1.value),
        ));
    }
    Ok(p)
}

/// The set of live child sessions, one slot per server id.
#[derive(Debug)]
pub struct SessionTable {
    ids: Vec<String>,
}

/// The denotation of the id list.
pub open spec fn ids_view(s: Seq<String>) -> Seq<Seq<char>> {
    Seq::new(s.len(), |i: int| s[i]@)
}

impl View for SessionTable {
    type V = Seq<Seq<char>>;

    closed spec fn view(&self) -> Seq<Seq<char>> {
        ids_view(self.ids@)
    }
}

impl SessionTable {
    /// No id is live twice: at most one session per server record.
    pub closed spec fn wf(self) -> bool {
        forall|i: int, j: int| 0 <= i < j < self@.len() ==> self@[i] != self@[j]
    }

    /// An empty table.
    pub fn new() -> (r: SessionTable)
        ensures
            r@ == Seq::<Seq<char>>::empty(),
            r.wf(),
    {
        let r = SessionTable { ids: Vec::new() };
        proof {
            assert(r@ =~= Seq::<Seq<char>>::empty());
        }
        r
    }

    /// The index holding the id, if any.
    fn find_index(&self, id: &String) -> (r: Option<usize>)
        ensures
            match r {
                Some(i) => i < self@.len() && self@[i as int] == id@,
                None => !self@.contains(id@),
            },
    {
        let mut i: usize = 0;
        while i < self.ids.len()
            invariant
                i <= self.ids@.len(),
                self@.len() == self.ids@.len(),
                forall|q: int| 0 <= q < i ==> self@[q] != id@,
            decreases self.ids@.len() - i,
        {
            if self.ids[i] == *id {
                return Some(i);
            }
            i += 1;
        }
        proof {
            if self@.contains(id@) {
                let w = choose|w: int| 0 <= w < self@.len() && self@[w] == id@;
                assert(self@[w] != id@);
            }
        }
        None
    }

    /// Whether a session for the id is live.
    pub fn is_running(&self, id: &String) -> (b: bool)
        ensures
            b == self@.contains(id@),
    {
        match self.find_index(id) {
            Some(i) => {
                proof {
                    assert(self@[i as int] == id@);
                }
                true
            },
            None => false,
        }
    }

    /// A session came alive. Refused while one is already live for the id:
    /// the old session must be removed before a new one is created.
    pub fn begin_session(&mut self, id: &String) -> (r: Result<(), SupervisorError>)
        requires
            old(self).wf(),
        ensures
            final(self).wf(),
            match r {
                Ok(()) => !old(self)@.contains(id@) && final(self)@ == old(self)@.push(id@),
                Err(e) => e matches SupervisorError::AlreadyRunning && old(self)@.contains(id@)
                    && final(self)@ == old(self)@,
            },
    {
        let ghost pre = self@;
        match self.find_index(id) {
            Some(i) => {
                proof {
                    assert(pre[i as int] == id@);
                }
                Err(SupervisorError::AlreadyRunning)
            },
            None => {
                self.ids.push(id.clone());
                proof {
                    assert(self@ =~= pre.push(id@));
                }
                Ok(())
            },
        }
    }

    /// A session ended: exit, kill or pipe break. `NotRunning` exactly when
    /// no session for the id was live. Afterwards the id is gone and every
    /// other session is untouched.
    pub fn end_session(&mut self, id: &String) -> (r: Result<(), SupervisorError>)
        requires
            old(self).wf(),
        ensures
            final(self).wf(),
            match r {
                Ok(()) => old(self)@.contains(id@) && !final(self)@.contains(id@) && (forall|
                    k: Seq<char>,
                |
                    k != id@ ==> #[trigger] final(self)@.contains(k) == old(self)@.contains(k)),
                Err(e) => e matches SupervisorError::NotRunning && !old(self)@.contains(id@)
                    && final(self)@ == old(self)@,
            },
    {
        let ghost pre = self@;
        match self.find_index(id) {
            Some(i) => {
                self.ids.remove(i);
                proof {
                    assert(self@ =~= pre.remove(i as int));
                    assert(!self@.contains(id@)) by {
                        if self@.contains(id@) {
                            let w = choose|w: int| 0 <= w < self@.len() && self@[w] == id@;
                            if w < i {
                                assert(pre[w] == id@ && pre[i as int] == id@);
                            } else {
                                assert(pre[w + 1] == id@ && pre[i as int] == id@);
                            }
                        }
                    }
                    assert forall|k: Seq<char>| k != id@ implies #[trigger] self@.contains(k)
                        == pre.contains(k) by {
                        if self@.contains(k) {
                            let w = choose|w: int| 0 <= w < self@.len() && self@[w] == k;
                            if w < i {
                                assert(pre[w] == k);
                            } else {
                                assert(pre[w + 1] == k);
                            }
                        }
                        if pre.contains(k) {
                            let w = choose|w: int| 0 <= w < pre.len() && pre[w] == k;
                            if w < i {
                                assert(self@[w] == k);
                            } else {
                                assert(w != i);
                                assert(self@[w - 1] == k);
                            }
                        }
                    }
                }
                Ok(())
            },
            None => Err(SupervisorError::NotRunning),
        }
    }
}

/// At most one session: in a well-formed table any two slots holding the
/// same id are the same slot — no interleaving of restarts, each step of
/// which preserves well-formedness, can leave an id live twice.
pub proof fn lemma_at_most_one_session(t: SessionTable, id: Seq<char>)
    requires
        t.wf(),
    ensures
        forall|i: int, j: int| 0 <= i < t@.len() && 0 <= j < t@.len() && t@[i] == id && t@[j]
            == id ==> i == j,
{
}

/// A completed restart — the old session removed, then a new one begun —
/// leaves the id live, and leaves it live exactly once.
pub proof fn lemma_restart_leaves_one_session(
    t0: SessionTable,
    t1: SessionTable,
    t2: SessionTable,
    id: Seq<char>,
)
    requires
        t1.wf(),
        !t1@.contains(id),
        t2.wf(),
        t2@ == t1@.push(id),
    ensures
        t2@.contains(id),
        forall|i: int, j: int| 0 <= i < t2@.len() && 0 <= j < t2@.len() && t2@[i] == id && t2@[j]
            == id ==> i == j,
{
    assert(t2@[t2@.len() - 1] == id);
}

/// Restart couples the session to the enabled flag: after a completed
/// restart — the old session removed, a new one begun exactly when the
/// record is enabled — a session for the id is live iff the record is
/// enabled, and never more than once. Interleaved restarts go through the
/// same two steps, each of which preserves the table's well-formedness, so
/// whichever completes last leaves this state.
pub proof fn lemma_restart_couples_enabled(
    pre: SessionTable,
    mid: SessionTable,
    post: SessionTable,
    id: Seq<char>,
    enabled: bool,
)
    requires
        // the kill step removed any old session for the id:
        mid.wf(),
        !mid@.contains(id),
        forall|k: Seq<char>| k != id ==> #[trigger] mid@.contains(k) == pre@.contains(k),
        // the start step ran exactly when the record is enabled:
        if enabled {
            post@ == mid@.push(id)
        } else {
            post == mid
        },
    ensures
        post.wf(),
        post@.contains(id) == enabled,
        forall|i: int, j: int|
            0 <= i < post@.len() && 0 <= j < post@.len() && post@[i] == id && post@[j] == id
                ==> i == j,
{
    if enabled {
        assert(post@[post@.len() - 1] == id);
        assert(post@.contains(id));
        assert forall|i: int, j: int| 0 <= i < j < post@.len() implies post@[i] != post@[j] by {
            if j == post@.len() - 1 {
                if post@[i] == id {
                    assert(mid@[i] == id);
                }
            } else {
                assert(post@[i] == mid@[i] && post@[j] == mid@[j]);
            }
        }
    }
}

} // verus!
