//! The tool registry: the aggregate state of the fleet.
//!
//! It owns the authoritative record store, the per-server tool lists learned
//! by discovery, and the session table of live children. Every mutation
//! persists through the store before the in-memory maps reflect it, keeps
//! ids unique, and keeps each server's tool ids unique — which is what makes
//! every proxy id of the flattened namespace unique.

use vstd::prelude::*;
use crate::json::{JsonSpec, JsonValue, lemma_obj_unfold, obj_view};
use crate::kv::{
    kv_find, kv_unique, lemma_kv_find_at, lemma_kv_find_none, lemma_kv_find_push,
    lemma_kv_find_remove, lemma_kv_find_update,
};
use crate::store::{
    clone_record, env_kv, record_wf, EnvVar, EnvVarSpec, RecordSpec, ServerRecord, Store,
    StoreError, lemma_store_key_id, lemma_store_records_wf,
};
use crate::supervisor::{launch_plan, plan_env_kv, LaunchPlan, SessionTable};
use crate::tools::{
    dedup_descriptors, dedup_tools, descriptor_from_doc, spec_all_tools, spec_descriptor,
    spec_server_tools, tool_ids_unique, tools_view, lemma_all_tools_distinct, ProxyTool,
    ProxyToolSpec, ToolDescSpec, ToolDescriptor,
};

verus! {

/// Why a child cannot be started.
#[derive(Clone, Copy, Debug, PartialEq, Eq, Structural)]
pub enum StartError {
    /// No record holds the id.
    NotFound,
    /// The record is disabled; disabled records are never spawned.
    Disabled,
    /// An env entry the record marks required has no value.
    MissingEnv,
}

/// The denotation of the per-server tool table.
pub open spec fn tools_kv(s: Seq<(String, Vec<ToolDescriptor>)>) -> Seq<
    (Seq<char>, Seq<ToolDescSpec>),
> {
    Seq::new(s.len(), |i: int| (s[i].0@, tools_view(s[i].1@)))
}

/// The descriptors a discovery reply's documents describe.
pub open spec fn spec_descriptors(docs: Seq<JsonValue>) -> Seq<ToolDescSpec> {
    Seq::new(docs.len(), |i: int| spec_descriptor(docs[i]@))
}

/// The synthetic descriptor installed when discovery yields nothing: a
/// single `main` tool bearing the server's name and description, so the
/// server stays addressable.
pub open spec fn spec_synthetic_main(name: Seq<char>, description: Seq<char>) -> ToolDescSpec {
    ToolDescSpec {
        id: "main"@,
        name: name,
        doc: JsonSpec::Obj(
            seq![
                ("id"@, JsonSpec::Str("main"@)),
                ("name"@, JsonSpec::Str(name)),
                ("description"@, JsonSpec::Str(description)),
            ],
        ),
    }
}

/// One row of the fleet listing: the record, whether its child is live, and
/// how many tools it reported.
#[derive(Debug)]
pub struct ServerStatus {
    pub record: ServerRecord,
    pub process_running: bool,
    pub tool_count: usize,
}

/// The aggregate state: records, discovered tools, live sessions.
#[derive(Debug)]
pub struct ToolRegistry {
    pub store: Store,
    pub server_tools: Vec<(String, Vec<ToolDescriptor>)>,
    pub sessions: SessionTable,
}

impl ToolRegistry {
    /// The per-server tool table.
    pub open spec fn tools(&self) -> Seq<(Seq<char>, Seq<ToolDescSpec>)> {
        tools_kv(self.server_tools@)
    }

    /// Records valid and unique; sessions unique; tool-table keys unique and
    /// free of the proxy-id separator; each server's tool ids unique.
    pub open spec fn wf(self) -> bool {
        &&& self.store.wf()
        &&& self.sessions.wf()
        &&& kv_unique(self.tools())
        &&& forall|i: int| 0 <= i < self.tools().len() ==> !(#[trigger] self.tools()[i].0).contains(
            ':',
        )
        &&& forall|i: int| 0 <= i < self.tools().len() ==> tool_ids_unique(
            (#[trigger] self.tools()[i]).1,
        )
    }

    /// An empty registry.
    pub fn new() -> (r: ToolRegistry)
        ensures
            r.wf(),
            r.store@ == Seq::<(Seq<char>, RecordSpec)>::empty(),
            r.tools() == Seq::<(Seq<char>, Seq<ToolDescSpec>)>::empty(),
            r.sessions@ == Seq::<Seq<char>>::empty(),
    {
        let r = ToolRegistry {
            store: Store::new(),
            server_tools: Vec::new(),
            sessions: SessionTable::new(),
        };
        proof {
            assert(r.tools() =~= Seq::<(Seq<char>, Seq<ToolDescSpec>)>::empty());
        }
        r
    }

    /// The tool-table index holding the id, if any.
    fn find_tools_index(&self, id: &String) -> (r: Option<usize>)
        ensures
            match r {
                Some(i) => i < self.tools().len() && self.tools()[i as int].0 == id@ && (forall|
                    q: int,
                |
                    0 <= q < i ==> self.tools()[q].0 != id@),
                None => forall|q: int| 0 <= q < self.tools().len() ==> self.tools()[q].0 != id@,
            },
    {
        let mut i: usize = 0;
        while i < self.server_tools.len()
            invariant
                i <= self.server_tools@.len(),
                self.tools().len() == self.server_tools@.len(),
                forall|q: int| 0 <= q < i ==> self.tools()[q].0 != id@,
            decreases self.server_tools@.len() - i,
        {
            if self.server_tools[i].0 == *id {
                return Some(i);
            }
            i += 1;
        }
        None
    }

    /// Install or replace a record: persist it, then give it a fresh, empty
    /// tool list. An invalid record is refused with nothing changed.
    pub fn register_tool(&mut self, rec: ServerRecord) -> (r: Result<(), StoreError>)
        requires
            old(self).wf(),
        ensures
            final(self).wf(),
            final(self).sessions@ == old(self).sessions@,
            match r {
                Ok(()) => record_wf(rec@) && (forall|k: Seq<char>|
                    #[trigger] kv_find(final(self).store@, k) == if k == rec.id@ {
                        Some(rec@)
                    } else {
                        kv_find(old(self).store@, k)
                    }) && (forall|k: Seq<char>|
                    #[trigger] kv_find(final(self).tools(), k) == if k == rec.id@ {
                        Some(Seq::<ToolDescSpec>::empty())
                    } else {
                        kv_find(old(self).tools(), k)
                    }),
                Err(e) => e == StoreError::ConstraintViolation && !record_wf(rec@) && final(self).store@ == old(self).store@ && final(self).tools() == old(self).tools(),
            },
    {
        let ghost pre_tools = self.tools();
        let id = rec.id.clone();
        let ghost idv = rec.id@;
        match self.store.upsert(rec) {
            Ok(()) => {
                match self.find_tools_index(&id) {
                    Some(i) => {
                        proof {
                            assert(pre_tools == self.tools());
                            assert(pre_tools[i as int].0 == idv);
                        }
                        let k = self.server_tools[i].0.clone();
                        self.server_tools[i] = (k, Vec::new());
                        proof {
                            assert(self.tools() =~~= pre_tools.update(
                                i as int,
                                (idv, Seq::<ToolDescSpec>::empty()),
                            ));
                            assert forall|k2: Seq<char>|
                                #[trigger] kv_find(self.tools(), k2) == if k2 == idv {
                                    Some(Seq::<ToolDescSpec>::empty())
                                } else {
                                    kv_find(pre_tools, k2)
                                } by {
                                lemma_kv_find_update(
                                    pre_tools,
                                    i as int,
                                    Seq::<ToolDescSpec>::empty(),
                                    k2,
                                );
                            }
                            assert(self.wf());
                        }
                        Ok(())
                    },
                    None => {
                        proof {
                            assert(pre_tools == self.tools());
                            assert(forall|q: int|
                                0 <= q < pre_tools.len() ==> pre_tools[q].0 != idv);
                        }
                        self.server_tools.push((id, Vec::new()));
                        proof {
                            assert(self.server_tools@.last().0@ == idv);
                            assert(self.tools() =~~= pre_tools.push(
                                (idv, Seq::<ToolDescSpec>::empty()),
                            ));
                            lemma_kv_find_none(pre_tools, idv);
                            assert forall|k2: Seq<char>|
                                #[trigger] kv_find(self.tools(), k2) == if k2 == idv {
                                    Some(Seq::<ToolDescSpec>::empty())
                                } else {
                                    kv_find(pre_tools, k2)
                                } by {
                                lemma_kv_find_push(
                                    pre_tools,
                                    idv,
                                    Seq::<ToolDescSpec>::empty(),
                                    k2,
                                );
                            }
                            assert(self.wf());
                        }
                        Ok(())
                    },
                }
            },
            Err(e) => Err(e),
        }
    }

    /// Remove a record, its tool list and its session slot; the caller kills
    /// the child when one was live, which the result reports. The registry
    /// reports `NotFound` for an id it never held — the store's own removal
    /// is a no-op either way — and then nothing changes.
    pub fn uninstall_tool(&mut self, id: &String) -> (r: Result<bool, StoreError>)
        requires
            old(self).wf(),
        ensures
            final(self).wf(),
            match r {
                Ok(was_running) => {
                    &&& kv_find(old(self).store@, id@) is Some
                    &&& was_running == old(self).sessions@.contains(id@)
                    &&& forall|k: Seq<char>|
                        #[trigger] kv_find(final(self).store@, k) == if k == id@ {
                            None::<RecordSpec>
                        } else {
                            kv_find(old(self).store@, k)
                        }
                    &&& forall|k: Seq<char>|
                        #[trigger] kv_find(final(self).tools(), k) == if k == id@ {
                            None::<Seq<ToolDescSpec>>
                        } else {
                            kv_find(old(self).tools(), k)
                        }
                    &&& !final(self).sessions@.contains(id@)
                    &&& forall|k: Seq<char>|
                        k != id@ ==> #[trigger] final(self).sessions@.contains(k) == old(self).sessions@.contains(k)
                },
                Err(e) => e == StoreError::NotFound && kv_find(old(self).store@, id@) is None
                    && final(self).store@ == old(self).store@ && final(self).tools() == old(self).tools() && final(self).sessions@ == old(self).sessions@,
            },
    {
        match self.store.get(id) {
            Ok(_) => (),
            Err(e) => {
                return Err(e);
            },
        }
        let ghost pre_tools = self.tools();
        {
            self.store.delete(id);
            {
                match self.find_tools_index(id) {
                    Some(i) => {
                        self.server_tools.remove(i);
                        proof {
                            lemma_kv_find_at(pre_tools, id@, i as int);
                            assert(self.tools() =~~= pre_tools.remove(i as int));
                            assert forall|k2: Seq<char>|
                                #[trigger] kv_find(self.tools(), k2) == if k2 == id@ {
                                    None::<Seq<ToolDescSpec>>
                                } else {
                                    kv_find(pre_tools, k2)
                                } by {
                                lemma_kv_find_remove(pre_tools, i as int, k2);
                            }
                        }
                    },
                    None => {
                        proof {
                            assert(self.tools() == pre_tools);
                            assert(forall|q: int|
                                0 <= q < pre_tools.len() ==> pre_tools[q].0 != id@);
                            lemma_kv_find_none(pre_tools, id@);
                        }
                    },
                }
                let was_running = self.sessions.is_running(id);
                if was_running {
                    match self.sessions.end_session(id) {
                        Ok(()) => (),
                        Err(_) => (),
                    }
                }
                Ok(was_running)
            }
        }
    }

    /// Persist a record's enabled flag. The updated record comes back so the
    /// caller can start or stop the child to match. Enabling a record with
    /// no command is a configuration error, refused with nothing changed;
    /// `NotFound` exactly when no record holds the id.
    pub fn update_tool_status(&mut self, id: &String, enabled: bool) -> (r: Result<
        ServerRecord,
        StoreError,
    >)
        requires
            old(self).wf(),
        ensures
            final(self).wf(),
            final(self).sessions@ == old(self).sessions@,
            final(self).tools() == old(self).tools(),
            match r {
                Ok(rec) => {
                    &&& kv_find(old(self).store@, id@) is Some
                    &&& rec@ == RecordSpec {
                        enabled: enabled,
                        ..kv_find(old(self).store@, id@)->Some_0
                    }
                    &&& forall|k: Seq<char>|
                        #[trigger] kv_find(final(self).store@, k) == if k == id@ {
                            Some(rec@)
                        } else {
                            kv_find(old(self).store@, k)
                        }
                },
                Err(e) => final(self).store@ == old(self).store@ && match e {
                    StoreError::NotFound => kv_find(old(self).store@, id@) is None,
                    StoreError::ConstraintViolation => kv_find(old(self).store@, id@) is Some
                        && enabled && kv_find(old(self).store@, id@)->Some_0.command.len() == 0,
                    _ => false,
                },
            },
    {
        let rec = match self.store.get(id) {
            Ok(found) => clone_record(found),
            Err(e) => {
                return Err(e);
            },
        };
        proof {
            lemma_store_records_wf(self.store, id@);
            lemma_store_key_id(self.store, id@);
        }
        let ghost old_spec = rec@;
        let mut rec = rec;
        rec.enabled = enabled;
        let ghost target = rec@;
        proof {
            assert(target.args =~= old_spec.args);
            assert(target.env =~= old_spec.env);
            assert(target == RecordSpec { enabled: enabled, ..old_spec });
            assert(rec.id@ == id@);
        }
        match self.store.upsert(rec) {
            Ok(()) => {
                let back = match self.store.get(id) {
                    Ok(found) => clone_record(found),
                    Err(_) => vstd::pervasive::unreached(),
                };
                proof {
                    assert(back@ == target);
                }
                Ok(back)
            },
            Err(e) => Err(e),
        }
    }

    /// Merge env entries into a record and persist it: a patched key takes
    /// the new value and keeps its description and required mark, an unknown
    /// key is added as a plain optional entry, and unpatched keys survive
    /// unchanged. The updated record and whether the child was live — so the
    /// caller restarts it — come back. `NotFound` exactly when no record
    /// holds the id.
    pub fn update_tool_config(&mut self, id: &String, patch: &Vec<(String, String)>) -> (r: Result<
        (ServerRecord, bool),
        StoreError,
    >)
        requires
            old(self).wf(),
            kv_unique(plan_env_kv(patch@)),
        ensures
            final(self).wf(),
            final(self).sessions@ == old(self).sessions@,
            final(self).tools() == old(self).tools(),
            match r {
                Ok(pair) => {
                    &&& kv_find(old(self).store@, id@) is Some
                    &&& pair.1 == old(self).sessions@.contains(id@)
                    &&& pair.0@ == RecordSpec {
                        env: pair.0@.env,
                        ..kv_find(old(self).store@, id@)->Some_0
                    }
                    &&& kv_unique(pair.0@.env)
                    &&& forall|k: Seq<char>|
                        #[trigger] kv_find(pair.0@.env, k) == spec_env_merge_at(
                            kv_find(old(self).store@, id@)->Some_0.env,
                            plan_env_kv(patch@),
                            k,
                        )
                    &&& forall|k: Seq<char>|
                        #[trigger] kv_find(final(self).store@, k) == if k == id@ {
                            Some(pair.0@)
                        } else {
                            kv_find(old(self).store@, k)
                        }
                },
                Err(e) => e == StoreError::NotFound && kv_find(old(self).store@, id@) is None
                    && final(self).store@ == old(self).store@,
            },
    {
        let rec = match self.store.get(id) {
            Ok(found) => clone_record(found),
            Err(e) => {
                return Err(e);
            },
        };
        proof {
            lemma_store_records_wf(self.store, id@);
            lemma_store_key_id(self.store, id@);
        }
        let ghost old_spec = rec@;
        let merged_env = merge_env(&rec.env, patch);
        let mut rec = rec;
        rec.env = merged_env;
        let ghost target = rec@;
        proof {
            assert(target.args =~= old_spec.args);
            assert(target == RecordSpec { env: target.env, ..old_spec });
            assert(rec.id@ == id@);
            assert(record_wf(target));
        }
        match self.store.upsert(rec) {
            Ok(()) => {
                let back = match self.store.get(id) {
                    Ok(found) => clone_record(found),
                    Err(_) => vstd::pervasive::unreached(),
                };
                let was_running = self.sessions.is_running(id);
                proof {
                    assert(back@ == target);
                }
                Ok((back, was_running))
            },
            Err(_) => vstd::pervasive::unreached(),
        }
    }

    /// Store what discovery reported for a server: the reply's documents
    /// with repeated ids dropped — or, when the reply was empty, the single
    /// synthetic `main` descriptor bearing the record's name and
    /// description, so the server stays addressable. `NotFound` exactly when
    /// no record holds the id.
    pub fn apply_discovery(&mut self, id: &String, docs: Vec<JsonValue>) -> (r: Result<
        (),
        StoreError,
    >)
        requires
            old(self).wf(),
        ensures
            final(self).wf(),
            final(self).store@ == old(self).store@,
            final(self).sessions@ == old(self).sessions@,
            match r {
                Ok(()) => kv_find(old(self).store@, id@) is Some && forall|k: Seq<char>|
                    #[trigger] kv_find(final(self).tools(), k) == if k == id@ {
                        Some(
                            if dedup_tools(spec_descriptors(docs@)).len() == 0 {
                                seq![
                                    spec_synthetic_main(
                                        kv_find(old(self).store@, id@)->Some_0.name,
                                        kv_find(old(self).store@, id@)->Some_0.description,
                                    ),
                                ]
                            } else {
                                dedup_tools(spec_descriptors(docs@))
                            },
                        )
                    } else {
                        kv_find(old(self).tools(), k)
                    },
                Err(e) => e == StoreError::NotFound && kv_find(old(self).store@, id@) is None
                    && final(self).tools() == old(self).tools(),
            },
    {
        let (name, description) = match self.store.get(id) {
            Ok(found) => (found.name.clone(), found.description.clone()),
            Err(e) => {
                return Err(e);
            },
        };
        proof {
            lemma_store_records_wf(self.store, id@);
            lemma_store_key_id(self.store, id@);
            assert(!id@.contains(':'));
        }
        let mut raw: Vec<ToolDescriptor> = Vec::new();
        let mut i: usize = 0;
        while i < docs.len()
            invariant
                i <= docs@.len(),
                raw@.len() == i,
                forall|q: int| 0 <= q < i ==> raw@[q]@ == spec_descriptor(docs@[q]@),
            decreases docs@.len() - i,
        {
            let d = descriptor_from_doc(crate::json::clone_json(&docs[i]));
            raw.push(d);
            i += 1;
        }
        proof {
            assert(tools_view(raw@) =~= spec_descriptors(docs@));
        }
        let mut ds = dedup_descriptors(raw);
        if ds.len() == 0 {
            let synthetic = make_synthetic_main(&name, &description);
            ds.push(synthetic);
            proof {
                assert(tools_view(ds@) =~= seq![spec_synthetic_main(name@, description@)]);
            }
        }
        let ghost new_list = tools_view(ds@);
        let ghost pre_tools = self.tools();
        match self.find_tools_index(id) {
            Some(i) => {
                let k = self.server_tools[i].0.clone();
                self.server_tools[i] = (k, ds);
                proof {
                    assert(tool_ids_unique(new_list));
                    assert(self.tools() =~~= pre_tools.update(i as int, (id@, new_list)));
                    assert forall|k2: Seq<char>|
                        #[trigger] kv_find(self.tools(), k2) == if k2 == id@ {
                            Some(new_list)
                        } else {
                            kv_find(pre_tools, k2)
                        } by {
                        lemma_kv_find_update(pre_tools, i as int, new_list, k2);
                    }
                    assert(self.wf());
                }
                Ok(())
            },
            None => {
                let k = id.clone();
                self.server_tools.push((k, ds));
                proof {
                    assert(tool_ids_unique(new_list));
                    assert(self.tools() =~~= pre_tools.push((id@, new_list)));
                    assert(forall|q: int|
                        0 <= q < pre_tools.len() ==> pre_tools[q].0 != id@);
                    lemma_kv_find_none(pre_tools, id@);
                    assert forall|k2: Seq<char>|
                        #[trigger] kv_find(self.tools(), k2) == if k2 == id@ {
                            Some(new_list)
                        } else {
                            kv_find(pre_tools, k2)
                        } by {
                        lemma_kv_find_push(pre_tools, id@, new_list, k2);
                    }
                    assert(self.wf());
                }
                Ok(())
            },
        }
    }

    /// Decide whether the child for an id may start, and with what plan.
    /// A plan comes back exactly when the record exists, is enabled, and has
    /// every required env entry filled.
    pub fn plan_start(&self, id: &String) -> (r: Result<LaunchPlan, StartError>)
        requires
            self.wf(),
        ensures
            match r {
                Ok(p) => {
                    &&& kv_find(self.store@, id@) is Some
                    &&& kv_find(self.store@, id@)->Some_0.enabled
                    &&& p.program@ == kv_find(self.store@, id@)->Some_0.command
                    &&& p.args@.len() == kv_find(self.store@, id@)->Some_0.args.len()
                    &&& forall|i: int|
                        0 <= i < p.args@.len() ==> p.args@[i]@ == kv_find(
                            self.store@,
                            id@,
                        )->Some_0.args[i]
                    &&& plan_env_kv(p.env@) == Seq::new(
                        kv_find(self.store@, id@)->Some_0.env.len(),
                        |i: int| (
                            kv_find(self.store@, id@)->Some_0.env[i].0,
                            kv_find(self.store@, id@)->Some_0.env[i].1.value,
                        ),
                    )
                },
                Err(e) => match e {
                    StartError::NotFound => kv_find(self.store@, id@) is None,
                    StartError::Disabled => kv_find(self.store@, id@) is Some && !kv_find(
                        self.store@,
                        id@,
                    )->Some_0.enabled,
                    StartError::MissingEnv => kv_find(self.store@, id@) is Some && kv_find(
                        self.store@,
                        id@,
                    )->Some_0.enabled && exists|i: int|
                        0 <= i < kv_find(self.store@, id@)->Some_0.env.len() && (#[trigger] kv_find(
                            self.store@,
                            id@,
                        )->Some_0.env[i]).1.required && kv_find(
                            self.store@,
                            id@,
                        )->Some_0.env[i].1.value.len() == 0,
                },
            },
    {
        let rec = match self.store.get(id) {
            Ok(found) => found,
            Err(_) => {
                return Err(StartError::NotFound);
            },
        };
        proof {
            lemma_store_records_wf(self.store, id@);
        }
        if !rec.enabled {
            return Err(StartError::Disabled);
        }
        match launch_plan(rec) {
            Ok(p) => Ok(p),
            Err(_) => Err(StartError::MissingEnv),
        }
    }

    /// The fleet listing: every record, in store order, with whether its
    /// child is live and how many tools it reported.
    pub fn list_tools(&self) -> (r: Vec<ServerStatus>)
        requires
            self.wf(),
        ensures
            r@.len() == self.store@.len(),
            forall|i: int| 0 <= i < r@.len() ==> (#[trigger] r@[i]).record@ == self.store@[i].1
                && r@[i].process_running == self.sessions@.contains(self.store@[i].0)
                && r@[i].tool_count as int == (match kv_find(self.tools(), self.store@[i].0) {
                Some(ts) => ts.len() as int,
                None => 0,
            }),
    {
        let records = self.store.list();
        let mut out: Vec<ServerStatus> = Vec::new();
        let mut i: usize = 0;
        while i < records.len()
            invariant
                self.wf(),
                i <= records@.len(),
                crate::store::store_kv(records@) == self.store@,
                out@.len() == i,
                forall|q: int| 0 <= q < i ==> (#[trigger] out@[q]).record@ == self.store@[q].1
                    && out@[q].process_running == self.sessions@.contains(self.store@[q].0)
                    && out@[q].tool_count as int == (match kv_find(
                    self.tools(),
                    self.store@[q].0,
                ) {
                    Some(ts) => ts.len() as int,
                    None => 0,
                }),
            decreases records@.len() - i,
        {
            proof {
                assert(crate::store::store_kv(records@)[i as int] == self.store@[i as int]);
            }
            let process_running = self.sessions.is_running(&records[i].id);
            let tool_count = match self.find_tools_index(&records[i].id) {
                Some(t) => {
                    proof {
                        lemma_kv_find_at(self.tools(), records@[i as int].id@, t as int);
                    }
                    self.server_tools[t].1.len()
                },
                None => {
                    proof {
                        lemma_kv_find_none(self.tools(), records@[i as int].id@);
                    }
                    0
                },
            };
            let record = clone_record(&records[i]);
            out.push(ServerStatus { record, process_running, tool_count });
            i += 1;
        }
        out
    }

    /// The flattened namespace: every server's tools in table order, each
    /// under the proxy id `{server_id}:{tool_id}` — and, the registry being
    /// well-formed, no proxy id repeats.
    pub fn list_all_server_tools(&self) -> (r: Vec<ProxyTool>)
        requires
            self.wf(),
        ensures
            proxy_views(r@) == spec_all_tools(self.tools()),
            forall|i: int, j: int| 0 <= i < j < r@.len() ==> (#[trigger] r@[i]).proxy_id@
                != (#[trigger] r@[j]).proxy_id@,
    {
        let mut out: Vec<ProxyTool> = Vec::new();
        let mut i: usize = 0;
        while i < self.server_tools.len()
            invariant
                self.wf(),
                i <= self.server_tools@.len(),
                self.tools().len() == self.server_tools@.len(),
                proxy_views(out@) == spec_all_tools(self.tools().subrange(0, i as int)),
            decreases self.server_tools@.len() - i,
        {
            let ghost done = self.tools().subrange(0, i as int);
            let sid = &self.server_tools[i].0;
            let ts = &self.server_tools[i].1;
            let mut j: usize = 0;
            while j < ts.len()
                invariant
                    self.wf(),
                    i < self.server_tools@.len(),
                    self.tools().len() == self.server_tools@.len(),
                    done == self.tools().subrange(0, i as int),
                    sid@ == self.tools()[i as int].0,
                    tools_view(ts@) == self.tools()[i as int].1,
                    j <= ts@.len(),
                    proxy_views(out@) == spec_all_tools(done) + spec_server_tools(
                        sid@,
                        tools_view(ts@).subrange(0, j as int),
                    ),
                decreases ts@.len() - j,
            {
                let mut proxy_id = sid.clone();
                proxy_id.append(":");
                proxy_id.append(ts[j].id.as_str());
                proof {
                    reveal_strlit(":");
                    assert(proxy_id@ =~= sid@ + seq![':'] + ts@[j as int].id@);
                }
                let entry = ProxyTool {
                    server_id: sid.clone(),
                    proxy_id,
                    tool_id: ts[j].id.clone(),
                    doc: crate::json::clone_json(&ts[j].doc),
                };
                let ghost ev = entry@;
                let ghost pre_views = proxy_views(out@);
                let ghost prefix_entries = spec_server_tools(
                    sid@,
                    tools_view(ts@).subrange(0, j as int),
                );
                let ghost spec_entry = ProxyToolSpec {
                    server_id: sid@,
                    proxy_id: sid@ + seq![':'] + ts@[j as int].id@,
                    tool_id: ts@[j as int].id@,
                    doc: ts@[j as int].doc@,
                };
                out.push(entry);
                proof {
                    assert(ev == spec_entry);
                    assert(proxy_views(out@) =~= pre_views.push(spec_entry));
                    assert(tools_view(ts@).subrange(0, j as int + 1) =~= tools_view(
                        ts@,
                    ).subrange(0, j as int).push(ts@[j as int]@));
                    assert(spec_server_tools(
                        sid@,
                        tools_view(ts@).subrange(0, j as int).push(ts@[j as int]@),
                    ) =~= prefix_entries.push(spec_entry));
                    assert((spec_all_tools(done) + prefix_entries).push(spec_entry)
                        =~= spec_all_tools(done) + prefix_entries.push(spec_entry));
                    assert(proxy_views(out@) =~= spec_all_tools(done) + spec_server_tools(
                        sid@,
                        tools_view(ts@).subrange(0, j as int + 1),
                    ));
                }
                j += 1;
            }
            proof {
                let next = self.tools().subrange(0, i as int + 1);
                assert(next.drop_last() =~= done);
                assert(next.last() == self.tools()[i as int]);
                assert(tools_view(ts@).subrange(0, j as int) =~= tools_view(ts@));
                assert(proxy_views(out@) =~= spec_all_tools(next));
            }
            i += 1;
        }
        proof {
            assert(self.tools().subrange(0, self.tools().len() as int) =~= self.tools());
            lemma_all_tools_distinct(self.tools());
            assert forall|i2: int, j2: int| 0 <= i2 < j2 < out@.len() implies (
            #[trigger] out@[i2]).proxy_id@ != (#[trigger] out@[j2]).proxy_id@ by {
                assert(proxy_views(out@)[i2].proxy_id == out@[i2].proxy_id@);
                assert(proxy_views(out@)[j2].proxy_id == out@[j2].proxy_id@);
            }
        }
        out
    }

    /// The first server, in table order, whose tool list matches the name —
    /// by tool id, or failing that by tool name.
    pub fn find_server_for_tool(&self, name: &String) -> (r: Option<String>)
        requires
            self.wf(),
        ensures
            match r {
                Some(sid) => spec_find_server(self.tools(), name@) == Some(sid@),
                None => spec_find_server(self.tools(), name@) is None,
            },
    {
        let mut i: usize = 0;
        while i < self.server_tools.len()
            invariant
                i <= self.server_tools@.len(),
                self.tools().len() == self.server_tools@.len(),
                forall|q: int| 0 <= q < i ==> !tools_match(self.tools()[q].1, name@),
            decreases self.server_tools@.len() - i,
        {
            let ts = &self.server_tools[i].1;
            let mut j: usize = 0;
            let mut hit = false;
            while j < ts.len()
                invariant
                    i < self.server_tools@.len(),
                    tools_view(ts@) == self.tools()[i as int].1,
                    j <= ts@.len(),
                    hit ==> tools_match(self.tools()[i as int].1, name@),
                    !hit ==> forall|q: int| 0 <= q < j ==> !((#[trigger] tools_view(
                        ts@,
                    )[q]).id == name@ || tools_view(ts@)[q].name == name@),
                decreases ts@.len() - j,
            {
                if ts[j].id == *name || ts[j].name == *name {
                    proof {
                        assert((tools_view(ts@)[j as int]).id == name@ || (tools_view(
                            ts@,
                        )[j as int]).name == name@);
                    }
                    hit = true;
                }
                j += 1;
            }
            if hit {
                proof {
                    lemma_find_server_at(self.tools(), name@, i as int);
                }
                return Some(self.server_tools[i].0.clone());
            }
            i += 1;
        }
        proof {
            lemma_find_server_none(self.tools(), name@);
        }
        None
    }
}

/// The denotations of a namespace entry list.
pub open spec fn proxy_views(s: Seq<ProxyTool>) -> Seq<ProxyToolSpec> {
    Seq::new(s.len(), |i: int| s[i]@)
}

/// Whether a tool list matches a requested name, by id or by name.
pub open spec fn tools_match(ts: Seq<ToolDescSpec>, name: Seq<char>) -> bool {
    exists|i: int| 0 <= i < ts.len() && ((#[trigger] ts[i]).id == name || ts[i].name == name)
}

/// The first server whose tool list matches the name.
pub open spec fn spec_find_server(
    ss: Seq<(Seq<char>, Seq<ToolDescSpec>)>,
    name: Seq<char>,
) -> Option<Seq<char>>
    decreases ss.len(),
{
    if ss.len() == 0 {
        None
    } else if tools_match(ss[0].1, name) {
        Some(ss[0].0)
    } else {
        spec_find_server(ss.drop_first(), name)
    }
}

proof fn lemma_find_server_at(ss: Seq<(Seq<char>, Seq<ToolDescSpec>)>, name: Seq<char>, i: int)
    requires
        0 <= i < ss.len(),
        tools_match(ss[i].1, name),
        forall|q: int| 0 <= q < i ==> !tools_match(ss[q].1, name),
    ensures
        spec_find_server(ss, name) == Some(ss[i].0),
    decreases i,
{
    if i > 0 {
        lemma_find_server_at(ss.drop_first(), name, i - 1);
    }
}

proof fn lemma_find_server_none(ss: Seq<(Seq<char>, Seq<ToolDescSpec>)>, name: Seq<char>)
    requires
        forall|q: int| 0 <= q < ss.len() ==> !tools_match(ss[q].1, name),
    ensures
        spec_find_server(ss, name) is None,
    decreases ss.len(),
{
    if ss.len() > 0 {
        lemma_find_server_none(ss.drop_first(), name);
    }
}

/// What a patched env holds at each key: the patch's value under the kept
/// description and required mark, a fresh optional entry for a new key, and
/// the old entry where the patch is silent.
pub open spec fn spec_env_merge_at(
    base: Seq<(Seq<char>, EnvVarSpec)>,
    patch: Seq<(Seq<char>, Seq<char>)>,
    k: Seq<char>,
) -> Option<EnvVarSpec> {
    match kv_find(patch, k) {
        Some(v) => Some(
            EnvVarSpec {
                value: v,
                description: match kv_find(base, k) {
                    Some(e) => e.description,
                    None => Seq::empty(),
                },
                required: match kv_find(base, k) {
                    Some(e) => e.required,
                    None => false,
                },
            },
        ),
        None => kv_find(base, k),
    }
}

/// The index in an env list holding the key, if any.
fn find_env_index(env: &Vec<(String, EnvVar)>, key: &String) -> (r: Option<usize>)
    ensures
        match r {
            Some(i) => i < env@.len() && env@[i as int].0@ == key@ && (forall|q: int|
                0 <= q < i ==> env@[q].0@ != key@),
            None => forall|q: int| 0 <= q < env@.len() ==> env@[q].0@ != key@,
        },
{
    let mut i: usize = 0;
    while i < env.len()
        invariant
            i <= env@.len(),
            forall|q: int| 0 <= q < i ==> env@[q].0@ != key@,
        decreases env@.len() - i,
    {
        if env[i].0 == *key {
            return Some(i);
        }
        i += 1;
    }
    None
}

/// Merge a patch of name–value pairs into an env list, as
/// `spec_env_merge_at` states, keeping keys unique.
pub fn merge_env(env: &Vec<(String, EnvVar)>, patch: &Vec<(String, String)>) -> (r: Vec<
    (String, EnvVar),
>)
    requires
        kv_unique(env_kv(env@)),
        kv_unique(plan_env_kv(patch@)),
    ensures
        kv_unique(env_kv(r@)),
        forall|k: Seq<char>|
            #[trigger] kv_find(env_kv(r@), k) == spec_env_merge_at(
                env_kv(env@),
                plan_env_kv(patch@),
                k,
            ),
{
    let ghost base = env_kv(env@);
    let ghost full_patch = plan_env_kv(patch@);
    let mut out = crate::store::clone_env(env);
    let mut i: usize = 0;
    while i < patch.len()
        invariant
            kv_unique(base),
            kv_unique(full_patch),
            base == env_kv(env@),
            full_patch == plan_env_kv(patch@),
            i <= patch@.len(),
            kv_unique(env_kv(out@)),
            forall|k: Seq<char>|
                #[trigger] kv_find(env_kv(out@), k) == spec_env_merge_at(
                    base,
                    full_patch.subrange(0, i as int),
                    k,
                ),
        decreases patch@.len() - i,
    {
        let ghost prefix = full_patch.subrange(0, i as int);
        let ghost prefix2 = full_patch.subrange(0, i as int + 1);
        let ghost ki = patch@[i as int].0@;
        let ghost vi = patch@[i as int].1@;
        proof {
            assert(prefix2 =~= prefix.push((ki, vi)));
            assert(full_patch[i as int].0 == ki);
            assert forall|q: int| 0 <= q < prefix.len() implies prefix[q].0 != ki by {
                assert(prefix[q] == full_patch[q]);
            }
            lemma_kv_find_none(prefix, ki);
            assert forall|k: Seq<char>|
                #[trigger] kv_find(prefix2, k) == if k == ki {
                    Some(vi)
                } else {
                    kv_find(prefix, k)
                } by {
                lemma_kv_find_push(prefix, ki, vi, k);
            }
        }
        let ghost pre_out = env_kv(out@);
        match find_env_index(&out, &patch[i].0) {
            Some(idx) => {
                proof {
                    lemma_kv_find_at(pre_out, ki, idx as int);
                }
                let key_copy = out[idx].0.clone();
                let new_var = EnvVar {
                    value: patch[i].1.clone(),
                    description: out[idx].1.description.clone(),
                    required: out[idx].1.required,
                };
                out[idx] = (key_copy, new_var);
                proof {
                    assert(env_kv(out@) =~= pre_out.update(
                        idx as int,
                        (ki, env_kv(out@)[idx as int].1),
                    ));
                    assert forall|k: Seq<char>|
                        #[trigger] kv_find(env_kv(out@), k) == spec_env_merge_at(
                            base,
                            prefix2,
                            k,
                        ) by {
                        lemma_kv_find_update(
                            pre_out,
                            idx as int,
                            env_kv(out@)[idx as int].1,
                            k,
                        );
                    }
                }
            },
            None => {
                proof {
                    lemma_kv_find_none(pre_out, ki);
                }
                let key_copy = patch[i].0.clone();
                let new_var = EnvVar {
                    value: patch[i].1.clone(),
                    description: String::new(),
                    required: false,
                };
                out.push((key_copy, new_var));
                proof {
                    assert(env_kv(out@) =~= pre_out.push((ki, env_kv(out@).last().1)));
                    assert forall|k: Seq<char>|
                        #[trigger] kv_find(env_kv(out@), k) == spec_env_merge_at(
                            base,
                            prefix2,
                            k,
                        ) by {
                        lemma_kv_find_push(pre_out, ki, env_kv(out@).last().1, k);
                    }
                    assert(kv_unique(env_kv(out@)));
                }
            },
        }
        i += 1;
    }
    proof {
        assert(full_patch.subrange(0, patch@.len() as int) =~= full_patch);
    }
    out
}

/// Build the synthetic `main` descriptor for a server.
pub fn make_synthetic_main(name: &String, description: &String) -> (t: ToolDescriptor)
    ensures
        t@ == spec_synthetic_main(name@, description@),
{
    let mut fields: Vec<(String, JsonValue)> = Vec::new();
    fields.push(("id".to_owned(), JsonValue::Str("main".to_owned())));
    fields.push(("name".to_owned(), JsonValue::Str(name.clone())));
    fields.push(("description".to_owned(), JsonValue::Str(description.clone())));
    proof {
        lemma_obj_unfold(fields);
        assert(obj_view(fields@) =~~= spec_synthetic_main(name@, description@).doc->Obj_0);
    }
    let doc = JsonValue::Obj(fields);
    ToolDescriptor { id: "main".to_owned(), name: name.clone(), doc }
}

/// Discovery fallback: a reply listing nothing leaves the server with
/// exactly the synthetic `main` tool bearing its record's name and
/// description.
pub proof fn lemma_discovery_fallback(
    pre: ToolRegistry,
    post: ToolRegistry,
    id: Seq<char>,
    docs: Seq<JsonValue>,
)
    requires
        docs.len() == 0,
        kv_find(pre.store@, id) is Some,
        forall|k: Seq<char>| #[trigger] kv_find(post.tools(), k) == if k == id {
            Some(
                if dedup_tools(spec_descriptors(docs)).len() == 0 {
                    seq![
                        spec_synthetic_main(
                            kv_find(pre.store@, id)->Some_0.name,
                            kv_find(pre.store@, id)->Some_0.description,
                        ),
                    ]
                } else {
                    dedup_tools(spec_descriptors(docs))
                },
            )
        } else {
            kv_find(pre.tools(), k)
        },
    ensures
        kv_find(post.tools(), id) == Some(
            seq![
                spec_synthetic_main(
                    kv_find(pre.store@, id)->Some_0.name,
                    kv_find(pre.store@, id)->Some_0.description,
                ),
            ],
        ),
{
    assert(spec_descriptors(docs) =~= Seq::<ToolDescSpec>::empty());
    assert(dedup_tools(spec_descriptors(docs)).len() == 0);
}

} // verus!
