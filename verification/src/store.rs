//! The persistence store: the durable source of truth for server records.
//!
//! A server record describes one installed child: its identity, runtime,
//! launch configuration and environment. The store keeps the records keyed by
//! id, with a whole-record replace on upsert — in particular the env map of a
//! replaced record is exactly the new one, with nothing left of the old. The
//! transport edge mirrors these contents to durable storage; what the rest of
//! the library reads and proves about the catalog of installed servers is
//! stated here.

use vstd::prelude::*;
use crate::kv::{
    kv_find, kv_unique, lemma_kv_find_at, lemma_kv_find_none, lemma_kv_find_push,
    lemma_kv_find_remove, lemma_kv_find_update,
};
use crate::text::{contains_char, is_empty_string};

verus! {

/// The runtimes a child can be launched under.
#[derive(Clone, Copy, Debug, PartialEq, Eq, Structural)]
pub enum Runtime {
    Node,
    Python,
    Docker,
}

/// One environment variable of a record: its value, a human-readable
/// description, and whether a non-empty value is needed to start the child.
#[derive(Debug, PartialEq)]
pub struct EnvVar {
    pub value: String,
    pub description: String,
    pub required: bool,
}

/// The mathematical shape of an environment variable.
pub struct EnvVarSpec {
    pub value: Seq<char>,
    pub description: Seq<char>,
    pub required: bool,
}

impl View for EnvVar {
    type V = EnvVarSpec;

    open spec fn view(&self) -> EnvVarSpec {
        EnvVarSpec { value: self.value@, description: self.description@, required: self.required }
    }
}

/// How the installer toolchain obtains the server.
#[derive(Debug, PartialEq)]
pub struct Distribution {
    pub dist_type: String,
    pub package: String,
}

/// The mathematical shape of a distribution.
pub struct DistributionSpec {
    pub dist_type: Seq<char>,
    pub package: Seq<char>,
}

impl View for Distribution {
    type V = DistributionSpec;

    open spec fn view(&self) -> DistributionSpec {
        DistributionSpec { dist_type: self.dist_type@, package: self.package@ }
    }
}

/// The durable description of one installed child.
#[derive(Debug, PartialEq)]
pub struct ServerRecord {
    pub id: String,
    pub name: String,
    pub description: String,
    pub runtime: Runtime,
    pub enabled: bool,
    pub entry_point: Option<String>,
    pub command: String,
    pub args: Vec<String>,
    pub distribution: Option<Distribution>,
    pub env: Vec<(String, EnvVar)>,
}

/// The mathematical shape of a server record.
pub struct RecordSpec {
    pub id: Seq<char>,
    pub name: Seq<char>,
    pub description: Seq<char>,
    pub runtime: Runtime,
    pub enabled: bool,
    pub entry_point: Option<Seq<char>>,
    pub command: Seq<char>,
    pub args: Seq<Seq<char>>,
    pub distribution: Option<DistributionSpec>,
    pub env: Seq<(Seq<char>, EnvVarSpec)>,
}

/// The denotation of an env list, pair by pair.
pub open spec fn env_kv(s: Seq<(String, EnvVar)>) -> Seq<(Seq<char>, EnvVarSpec)> {
    Seq::new(s.len(), |i: int| (s[i].0@, s[i].1@))
}

impl View for ServerRecord {
    type V = RecordSpec;

    open spec fn view(&self) -> RecordSpec {
        RecordSpec {
            id: self.id@,
            name: self.name@,
            description: self.description@,
            runtime: self.runtime,
            enabled: self.enabled,
            entry_point: match self.entry_point {
                Some(s) => Some(s@),
                None => None,
            },
            command: self.command@,
            args: Seq::new(self.args@.len(), |i: int| self.args@[i]@),
            distribution: match self.distribution {
                Some(d) => Some(d@),
                None => None,
            },
            env: env_kv(self.env@),
        }
    }
}

/// A valid record: a non-empty id free of the proxy-id separator, a command
/// wherever the record is enabled, and an env map without repeated keys.
pub open spec fn record_wf(r: RecordSpec) -> bool {
    &&& r.id.len() > 0
    &&& !r.id.contains(':')
    &&& (r.enabled ==> r.command.len() > 0)
    &&& kv_unique(r.env)
}

/// Check validity of a record; exactly `record_wf` of its denotation.
pub fn validate_record(rec: &ServerRecord) -> (b: bool)
    ensures
        b == record_wf(rec@),
{
    if is_empty_string(&rec.id) {
        return false;
    }
    if contains_char(&rec.id, ':') {
        return false;
    }
    if rec.enabled && is_empty_string(&rec.command) {
        return false;
    }
    env_keys_unique(&rec.env)
}

/// Check that no env key repeats; exactly `kv_unique` of the env denotation.
pub fn env_keys_unique(env: &Vec<(String, EnvVar)>) -> (b: bool)
    ensures
        b == kv_unique(env_kv(env@)),
{
    let n = env.len();
    let mut i: usize = 0;
    while i < n
        invariant
            n == env@.len(),
            i <= n,
            forall|p: int, q: int| 0 <= p < q < n && p < i ==> env@[p].0@ != env@[q].0@,
        decreases n - i,
    {
        let mut j: usize = i + 1;
        while j < n
            invariant
                n == env@.len(),
                i < n,
                i < j <= n,
                forall|q: int| i < q < j ==> env@[i as int].0@ != env@[q].0@,
            decreases n - j,
        {
            if env[i].0 == env[j].0 {
                proof {
                    assert(env_kv(env@)[i as int].0 == env_kv(env@)[j as int].0);
                }
                return false;
            }
            j += 1;
        }
        i += 1;
    }
    true
}

/// Copy an env list; the denotation, and every pair, is unchanged.
pub fn clone_env(env: &Vec<(String, EnvVar)>) -> (r: Vec<(String, EnvVar)>)
    ensures
        env_kv(r@) == env_kv(env@),
        r@.len() == env@.len(),
{
    let mut out: Vec<(String, EnvVar)> = Vec::new();
    let mut i: usize = 0;
    while i < env.len()
        invariant
            i <= env@.len(),
            out@.len() == i,
            forall|q: int| 0 <= q < i ==> out@[q].0@ == env@[q].0@ && out@[q].1@ == env@[q].1@,
        decreases env@.len() - i,
    {
        let k = env[i].0.clone();
        let v = EnvVar {
            value: env[i].1.value.clone(),
            description: env[i].1.description.clone(),
            required: env[i].1.required,
        };
        out.push((k, v));
        i += 1;
    }
    proof {
        assert(env_kv(out@) =~= env_kv(env@));
    }
    out
}

/// Copy an argument vector; the denotation is unchanged.
pub fn clone_args(args: &Vec<String>) -> (r: Vec<String>)
    ensures
        r@.len() == args@.len(),
        forall|q: int| 0 <= q < args@.len() ==> r@[q]@ == args@[q]@,
{
    let mut out: Vec<String> = Vec::new();
    let mut i: usize = 0;
    while i < args.len()
        invariant
            i <= args@.len(),
            out@.len() == i,
            forall|q: int| 0 <= q < i ==> out@[q]@ == args@[q]@,
        decreases args@.len() - i,
    {
        out.push(args[i].clone());
        i += 1;
    }
    out
}

/// Copy a whole record; the denotation is unchanged.
pub fn clone_record(rec: &ServerRecord) -> (r: ServerRecord)
    ensures
        r@ == rec@,
{
    let entry_point = match &rec.entry_point {
        Some(s) => Some(s.clone()),
        None => None,
    };
    let distribution = match &rec.distribution {
        Some(d) => Some(Distribution { dist_type: d.dist_type.clone(), package: d.package.clone() }),
        None => None,
    };
    let r = ServerRecord {
        id: rec.id.clone(),
        name: rec.name.clone(),
        description: rec.description.clone(),
        runtime: rec.runtime,
        enabled: rec.enabled,
        entry_point,
        command: rec.command.clone(),
        args: clone_args(&rec.args),
        distribution,
        env: clone_env(&rec.env),
    };
    proof {
        assert(r@.args =~= rec@.args);
        assert(r@.env =~= rec@.env);
        assert(r@ == rec@);
    }
    r
}

/// The store's failures, as the persistence design names them.
#[derive(Clone, Copy, Debug, PartialEq, Eq, Structural)]
pub enum StoreError {
    OpenFailed,
    MigrationFailed,
    Busy,
    ConstraintViolation,
    NotFound,
}

/// The in-memory source of truth for server records, keyed by id.
#[derive(Debug)]
pub struct Store {
    records: Vec<ServerRecord>,
}

/// The contents of a record list as a keyed association list.
pub open spec fn store_kv(rs: Seq<ServerRecord>) -> Seq<(Seq<char>, RecordSpec)> {
    Seq::new(rs.len(), |i: int| (rs[i].id@, rs[i]@))
}

impl View for Store {
    type V = Seq<(Seq<char>, RecordSpec)>;

    closed spec fn view(&self) -> Seq<(Seq<char>, RecordSpec)> {
        store_kv(self.records@)
    }
}

impl Store {
    /// No id occurs twice, and every stored record is valid.
    pub closed spec fn wf(self) -> bool {
        &&& kv_unique(self@)
        &&& forall|i: int| 0 <= i < self@.len() ==> record_wf(#[trigger] self@[i].1)
    }

    /// An empty store.
    pub fn new() -> (r: Store)
        ensures
            r@ == Seq::<(Seq<char>, RecordSpec)>::empty(),
            r.wf(),
    {
        let r = Store { records: Vec::new() };
        proof {
            assert(r@ =~= Seq::<(Seq<char>, RecordSpec)>::empty());
        }
        r
    }

    /// The index holding the id, if any.
    fn find_index(&self, id: &String) -> (r: Option<usize>)
        ensures
            match r {
                Some(i) => i < self.records@.len() && self.records@[i as int].id@ == id@
                    && (forall|q: int| 0 <= q < i ==> self.records@[q].id@ != id@),
                None => forall|q: int| 0 <= q < self.records@.len()
                    ==> self.records@[q].id@ != id@,
            },
    {
        let mut i: usize = 0;
        while i < self.records.len()
            invariant
                i <= self.records@.len(),
                forall|q: int| 0 <= q < i ==> self.records@[q].id@ != id@,
            decreases self.records@.len() - i,
        {
            if self.records[i].id == *id {
                return Some(i);
            }
            i += 1;
        }
        None
    }

    /// Look a record up by id; `NotFound` exactly when no record holds the id.
    pub fn get(&self, id: &String) -> (r: Result<&ServerRecord, StoreError>)
        ensures
            match r {
                Ok(rec) => kv_find(self@, id@) == Some(rec@),
                Err(e) => e == StoreError::NotFound && kv_find(self@, id@) is None,
            },
    {
        match self.find_index(id) {
            Some(i) => {
                proof {
                    lemma_kv_find_at(self@, id@, i as int);
                }
                Ok(&self.records[i])
            },
            None => {
                proof {
                    lemma_kv_find_none(self@, id@);
                }
                Err(StoreError::NotFound)
            },
        }
    }

    /// A copy of every record; the contents are exactly the store's.
    pub fn list(&self) -> (r: Vec<ServerRecord>)
        ensures
            store_kv(r@) == self@,
    {
        let mut out: Vec<ServerRecord> = Vec::new();
        let mut i: usize = 0;
        while i < self.records.len()
            invariant
                i <= self.records@.len(),
                out@.len() == i,
                forall|q: int| 0 <= q < i ==> out@[q]@ == self.records@[q]@
                    && out@[q].id@ == self.records@[q].id@,
            decreases self.records@.len() - i,
        {
            out.push(clone_record(&self.records[i]));
            i += 1;
        }
        proof {
            assert(store_kv(out@) =~= self@);
        }
        out
    }

    /// Whether any record is present.
    pub fn check_exists(&self) -> (b: bool)
        ensures
            b == (self@.len() > 0),
    {
        self.records.len() > 0
    }

    /// Insert or wholly replace the record under its id. A replaced record's
    /// env is exactly the new record's: nothing of the old env survives. An
    /// invalid record is refused up front and the store is unchanged.
    pub fn upsert(&mut self, rec: ServerRecord) -> (r: Result<(), StoreError>)
        requires
            old(self).wf(),
        ensures
            final(self).wf(),
            match r {
                Ok(()) => record_wf(rec@) && forall|k: Seq<char>|
                    #[trigger] kv_find(final(self)@, k) == if k == rec.id@ {
                        Some(rec@)
                    } else {
                        kv_find(old(self)@, k)
                    },
                Err(e) => e == StoreError::ConstraintViolation && !record_wf(rec@)
                    && final(self)@ == old(self)@,
            },
    {
        if !validate_record(&rec) {
            return Err(StoreError::ConstraintViolation);
        }
        let ghost pre = self@;
        match self.find_index(&rec.id) {
            Some(i) => {
                let ghost k0 = self.records@[i as int].id@;
                self.records[i] = rec;
                proof {
                    assert(self@ =~= pre.update(i as int, (k0, rec@)));
                    assert forall|k: Seq<char>|
                        #[trigger] kv_find(self@, k) == if k == rec.id@ {
                            Some(rec@)
                        } else {
                            kv_find(pre, k)
                        } by {
                        lemma_kv_find_update(pre, i as int, rec@, k);
                    }
                    assert(self.wf());
                }
                Ok(())
            },
            None => {
                self.records.push(rec);
                proof {
                    assert(self@ =~= pre.push((rec.id@, rec@)));
                    assert(forall|q: int| 0 <= q < pre.len() ==> pre[q].0 != rec.id@);
                    lemma_kv_find_none(pre, rec.id@);
                    assert forall|k: Seq<char>|
                        #[trigger] kv_find(self@, k) == if k == rec.id@ {
                            Some(rec@)
                        } else {
                            kv_find(pre, k)
                        } by {
                        lemma_kv_find_push(pre, rec.id@, rec@, k);
                    }
                    assert(self.wf());
                }
                Ok(())
            },
        }
    }

    /// Remove the record under the id, env rows and all, in one step. An id
    /// with no record is a no-op: both removals affect nothing and the store
    /// is unchanged.
    pub fn delete(&mut self, id: &String)
        requires
            old(self).wf(),
        ensures
            final(self).wf(),
            forall|k: Seq<char>|
                #[trigger] kv_find(final(self)@, k) == if k == id@ {
                    None::<RecordSpec>
                } else {
                    kv_find(old(self)@, k)
                },
    {
        let ghost pre = self@;
        match self.find_index(id) {
            Some(i) => {
                self.records.remove(i);
                proof {
                    lemma_kv_find_at(pre, id@, i as int);
                    assert(self@ =~= pre.remove(i as int));
                    assert forall|k: Seq<char>|
                        #[trigger] kv_find(self@, k) == if k == id@ {
                            None::<RecordSpec>
                        } else {
                            kv_find(pre, k)
                        } by {
                        lemma_kv_find_remove(pre, i as int, k);
                    }
                    assert(self.wf());
                }
            },
            None => {
                proof {
                    lemma_kv_find_none(pre, id@);
                    assert forall|k: Seq<char>|
                        #[trigger] kv_find(self@, k) == if k == id@ {
                            None::<RecordSpec>
                        } else {
                            kv_find(pre, k)
                        } by {
                        if k == id@ {
                            assert(kv_find(pre, id@) is None);
                        }
                    }
                }
            },
        }
    }

    /// Purge every record.
    pub fn clear(&mut self)
        ensures
            final(self).wf(),
            final(self)@ == Seq::<(Seq<char>, RecordSpec)>::empty(),
    {
        self.records.clear();
        proof {
            assert(self@ =~= Seq::<(Seq<char>, RecordSpec)>::empty());
        }
    }
}

/// A record found under a key carries that key as its id.
pub proof fn lemma_store_key_id(s: Store, k: Seq<char>)
    requires
        kv_find(s@, k) is Some,
    ensures
        kv_find(s@, k)->Some_0.id == k,
{
    crate::kv::lemma_kv_find_index(s@, k);
}

/// Every record a well-formed store hands out is valid.
pub proof fn lemma_store_records_wf(s: Store, k: Seq<char>)
    requires
        s.wf(),
        kv_find(s@, k) is Some,
    ensures
        record_wf(kv_find(s@, k)->Some_0),
{
    crate::kv::lemma_kv_find_index(s@, k);
}

/// Persistence round-trip: a record just stored is retrievable under its id,
/// identical in every field, the complete env map included.
pub proof fn lemma_upsert_round_trip(pre: Store, post: Store, rec: ServerRecord)
    requires
        forall|k: Seq<char>| #[trigger] kv_find(post@, k) == if k == rec.id@ {
            Some(rec@)
        } else {
            kv_find(pre@, k)
        },
    ensures
        kv_find(post@, rec.id@) == Some(rec@),
{
}

/// Env replace semantics: storing a record again under the same id leaves
/// exactly the later env retrievable; no key of the earlier env survives
/// unless the later env holds it.
pub proof fn lemma_env_replace(
    s0: Store,
    s1: Store,
    s2: Store,
    r1: ServerRecord,
    r2: ServerRecord,
)
    requires
        r1.id@ == r2.id@,
        forall|k: Seq<char>| #[trigger] kv_find(s1@, k) == if k == r1.id@ {
            Some(r1@)
        } else {
            kv_find(s0@, k)
        },
        forall|k: Seq<char>| #[trigger] kv_find(s2@, k) == if k == r2.id@ {
            Some(r2@)
        } else {
            kv_find(s1@, k)
        },
    ensures
        kv_find(s2@, r1.id@) == Some(r2@),
        kv_find(s2@, r1.id@)->Some_0.env == r2@.env,
{
}

} // verus!
