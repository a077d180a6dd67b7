//! The catalog client: the remote registry document and its cache.
//!
//! The remote registry is a JSON document `{tools: [...]}` naming the
//! servers that can be installed. The transport edge fetches its bytes; this
//! module reads the document into entries, answers installs from it, and
//! holds the one cache: a payload stays fresh for sixty seconds, a fresh
//! cache answers without the network, and a failed refetch stores nothing —
//! the cache is never poisoned.

use vstd::prelude::*;
use crate::json::{spec_get, JsonSpec, JsonValue};
use crate::store::{Distribution, Runtime, ServerRecord};
use crate::supervisor::parse_runtime;
use crate::tools::{get_str_field, spec_str_field};

verus! {

/// How long a fetched payload stays fresh, in milliseconds.
pub const CACHE_FRESH_MS: u64 = 60000;

/// One installable server as the catalog names it.
#[derive(Debug, PartialEq)]
pub struct CatalogEntry {
    pub id: String,
    pub name: String,
    pub description: String,
    pub runtime: String,
    pub command: String,
    pub args: Vec<String>,
    pub distribution: Option<Distribution>,
}

/// The mathematical shape of a catalog entry.
pub struct CatalogEntrySpec {
    pub id: Seq<char>,
    pub name: Seq<char>,
    pub description: Seq<char>,
    pub runtime: Seq<char>,
    pub command: Seq<char>,
    pub args: Seq<Seq<char>>,
    pub distribution: Option<crate::store::DistributionSpec>,
}

impl View for CatalogEntry {
    type V = CatalogEntrySpec;

    open spec fn view(&self) -> CatalogEntrySpec {
        CatalogEntrySpec {
            id: self.id@,
            name: self.name@,
            description: self.description@,
            runtime: self.runtime@,
            command: self.command@,
            args: Seq::new(self.args@.len(), |i: int| self.args@[i]@),
            distribution: match self.distribution {
                Some(d) => Some(d@),
                None => None,
            },
        }
    }
}

/// The denotation of an entry list.
pub open spec fn entries_view(s: Seq<CatalogEntry>) -> Seq<CatalogEntrySpec> {
    Seq::new(s.len(), |i: int| s[i]@)
}

/// The catalog cannot be read.
#[derive(Clone, Copy, Debug, PartialEq, Eq, Structural)]
pub enum CatalogError {
    /// The document carries no `tools` array.
    BadShape,
}

/// A field of a document, `Null` standing in where the object lacks it.
pub open spec fn spec_field_or_null(j: JsonSpec, k: Seq<char>) -> JsonSpec {
    match spec_get(j, k) {
        Some(v) => v,
        None => JsonSpec::Null,
    }
}

/// The string elements of an array, everything else dropped.
pub open spec fn spec_str_items(items: Seq<JsonSpec>) -> Seq<Seq<char>>
    decreases items.len(),
{
    if items.len() == 0 {
        Seq::empty()
    } else {
        spec_str_items(items.drop_last()) + (if items.last() is Str {
            seq![items.last()->Str_0]
        } else {
            Seq::empty()
        })
    }
}

/// The argument vector a document's `args` field carries: its string
/// elements, or nothing where there is no array.
pub open spec fn spec_args_of(config: JsonSpec) -> Seq<Seq<char>> {
    match spec_get(config, "args"@) {
        Some(v) => if v is Arr {
            spec_str_items(v->Arr_0)
        } else {
            Seq::empty()
        },
        None => Seq::empty(),
    }
}

/// The distribution a document carries, if it holds one as an object.
pub open spec fn spec_dist_of(j: JsonSpec) -> Option<crate::store::DistributionSpec> {
    match spec_get(j, "distribution"@) {
        Some(d) => if d is Obj {
            Some(
                crate::store::DistributionSpec {
                    dist_type: spec_str_field(d, "type"@),
                    package: spec_str_field(d, "package"@),
                },
            )
        } else {
            None
        },
        None => None,
    }
}

/// What one catalog document describes.
pub open spec fn spec_entry(j: JsonSpec) -> CatalogEntrySpec {
    CatalogEntrySpec {
        id: spec_str_field(j, "id"@),
        name: spec_str_field(j, "name"@),
        description: spec_str_field(j, "description"@),
        runtime: spec_str_field(j, "runtime"@),
        command: spec_str_field(spec_field_or_null(j, "config"@), "command"@),
        args: spec_args_of(spec_field_or_null(j, "config"@)),
        distribution: spec_dist_of(j),
    }
}

/// Collect the string elements of an array of documents.
pub fn str_items(items: &Vec<JsonValue>) -> (r: Vec<String>)
    ensures
        Seq::new(r@.len(), |i: int| r@[i]@) == spec_str_items(crate::json::arr_view(items@)),
{
    let ghost full = crate::json::arr_view(items@);
    let mut out: Vec<String> = Vec::new();
    let mut i: usize = 0;
    while i < items.len()
        invariant
            i <= items@.len(),
            full == crate::json::arr_view(items@),
            Seq::new(out@.len(), |q: int| out@[q]@) == spec_str_items(
                full.subrange(0, i as int),
            ),
        decreases items@.len() - i,
    {
        let ghost prefix = full.subrange(0, i as int);
        let ghost prefix2 = full.subrange(0, i as int + 1);
        proof {
            assert(prefix2.drop_last() =~= prefix);
            assert(prefix2.last() == full[i as int]);
        }
        match items[i].as_str() {
            Some(s) => {
                out.push(s.clone());
                proof {
                    assert(Seq::new(out@.len(), |q: int| out@[q]@) =~= spec_str_items(prefix2));
                }
            },
            None => {
                proof {
                    assert(spec_str_items(prefix2) =~= spec_str_items(prefix));
                }
            },
        }
        i += 1;
    }
    proof {
        assert(full.subrange(0, items@.len() as int) =~= full);
    }
    out
}

/// Read one catalog document into an entry.
pub fn entry_from_json(j: &JsonValue) -> (r: CatalogEntry)
    ensures
        r@ == spec_entry(j@),
{
    let id_key = "id".to_owned();
    let name_key = "name".to_owned();
    let desc_key = "description".to_owned();
    let runtime_key = "runtime".to_owned();
    let config_key = "config".to_owned();
    let command_key = "command".to_owned();
    let args_key = "args".to_owned();
    let dist_key = "distribution".to_owned();
    let type_key = "type".to_owned();
    let package_key = "package".to_owned();

    let id = get_str_field(j, &id_key);
    let name = get_str_field(j, &name_key);
    let description = get_str_field(j, &desc_key);
    let runtime = get_str_field(j, &runtime_key);
    let (command, args) = match j.get(&config_key) {
        Some(config) => {
            let command = get_str_field(config, &command_key);
            let args = match config.get(&args_key) {
                Some(v) => match v.as_arr() {
                    Some(items) => str_items(items),
                    None => Vec::new(),
                },
                None => Vec::new(),
            };
            (command, args)
        },
        None => {
            proof {
                reveal_strlit("");
            }
            (String::new(), Vec::new())
        },
    };
    let distribution = match j.get(&dist_key) {
        Some(d) => {
            if obj_check(d) {
                Some(
                    Distribution {
                        dist_type: get_str_field(d, &type_key),
                        package: get_str_field(d, &package_key),
                    },
                )
            } else {
                None
            }
        },
        None => None,
    };
    let r = CatalogEntry { id, name, description, runtime, command, args, distribution };
    proof {
        assert(r@.args =~= spec_entry(j@).args);
        assert(r@ == spec_entry(j@));
    }
    r
}

/// Whether a document is an object.
fn obj_check(j: &JsonValue) -> (b: bool)
    ensures
        b == (j@ is Obj),
{
    match j {
        JsonValue::Obj(_) => true,
        _ => false,
    }
}

/// The documents under the catalog's `tools` field.
pub open spec fn spec_catalog_docs(doc: JsonSpec) -> Result<Seq<JsonSpec>, CatalogError> {
    match spec_get(doc, "tools"@) {
        Some(v) => if v is Arr {
            Ok(v->Arr_0)
        } else {
            Err(CatalogError::BadShape)
        },
        None => Err(CatalogError::BadShape),
    }
}

/// Read the catalog document into its entries; a document without a `tools`
/// array is refused.
pub fn catalog_from_json(doc: &JsonValue) -> (r: Result<Vec<CatalogEntry>, CatalogError>)
    ensures
        match r {
            Ok(entries) => spec_catalog_docs(doc@) is Ok && entries_view(entries@) == Seq::new(
                spec_catalog_docs(doc@)->Ok_0.len(),
                |i: int| spec_entry(spec_catalog_docs(doc@)->Ok_0[i]),
            ),
            Err(e) => e == CatalogError::BadShape && spec_catalog_docs(doc@) is Err,
        },
{
    let tools_key = "tools".to_owned();
    let items = match doc.get(&tools_key) {
        Some(v) => match v.as_arr() {
            Some(items) => items,
            None => {
                return Err(CatalogError::BadShape);
            },
        },
        None => {
            return Err(CatalogError::BadShape);
        },
    };
    let ghost docs = spec_catalog_docs(doc@)->Ok_0;
    let mut out: Vec<CatalogEntry> = Vec::new();
    let mut i: usize = 0;
    while i < items.len()
        invariant
            i <= items@.len(),
            docs == crate::json::arr_view(items@),
            out@.len() == i,
            forall|q: int| 0 <= q < i ==> out@[q]@ == spec_entry(docs[q]),
        decreases items@.len() - i,
    {
        let e = entry_from_json(&items[i]);
        out.push(e);
        i += 1;
    }
    proof {
        assert(entries_view(out@) =~= Seq::new(docs.len(), |i: int| spec_entry(docs[i])));
    }
    Ok(out)
}

/// The first entry carrying the id, if any.
pub open spec fn spec_find_entry(
    es: Seq<CatalogEntrySpec>,
    id: Seq<char>,
) -> Option<CatalogEntrySpec>
    decreases es.len(),
{
    if es.len() == 0 {
        None
    } else if es[0].id == id {
        Some(es[0])
    } else {
        spec_find_entry(es.drop_first(), id)
    }
}

/// Look an entry up by id, first match.
pub fn find_entry<'a>(entries: &'a Vec<CatalogEntry>, id: &String) -> (r: Option<
    &'a CatalogEntry,
>)
    ensures
        match r {
            Some(e) => spec_find_entry(entries_view(entries@), id@) == Some(e@),
            None => spec_find_entry(entries_view(entries@), id@) is None,
        },
{
    let mut i: usize = 0;
    while i < entries.len()
        invariant
            i <= entries@.len(),
            forall|q: int| 0 <= q < i ==> entries@[q].id@ != id@,
        decreases entries@.len() - i,
    {
        if entries[i].id == *id {
            proof {
                lemma_find_entry_at(entries_view(entries@), id@, i as int);
            }
            return Some(&entries[i]);
        }
        i += 1;
    }
    proof {
        lemma_find_entry_none(entries_view(entries@), id@);
    }
    None
}

proof fn lemma_find_entry_at(es: Seq<CatalogEntrySpec>, id: Seq<char>, i: int)
    requires
        0 <= i < es.len(),
        es[i].id == id,
        forall|q: int| 0 <= q < i ==> es[q].id != id,
    ensures
        spec_find_entry(es, id) == Some(es[i]),
    decreases i,
{
    if i > 0 {
        lemma_find_entry_at(es.drop_first(), id, i - 1);
    }
}

proof fn lemma_find_entry_none(es: Seq<CatalogEntrySpec>, id: Seq<char>)
    requires
        forall|q: int| 0 <= q < es.len() ==> es[q].id != id,
    ensures
        spec_find_entry(es, id) is None,
    decreases es.len(),
{
    if es.len() > 0 {
        lemma_find_entry_none(es.drop_first(), id);
    }
}

/// Build the server record an entry installs: the entry's identity and
/// launch configuration, enabled, with an empty env map. An entry whose
/// runtime names none of node, python, docker is refused.
pub fn record_from_entry(entry: &CatalogEntry) -> (r: Result<
    ServerRecord,
    crate::supervisor::SupervisorError,
>)
    ensures
        match r {
            Ok(rec) => {
                &&& (entry@.runtime == "node"@ && rec.runtime == Runtime::Node) || (
                entry@.runtime == "python"@ && rec.runtime == Runtime::Python) || (entry@.runtime
                    == "docker"@ && rec.runtime == Runtime::Docker)
                &&& rec@.id == entry@.id
                &&& rec@.name == entry@.name
                &&& rec@.description == entry@.description
                &&& rec@.enabled
                &&& rec@.entry_point is None
                &&& rec@.command == entry@.command
                &&& rec@.args == entry@.args
                &&& rec@.distribution == entry@.distribution
                &&& rec@.env == Seq::<(Seq<char>, crate::store::EnvVarSpec)>::empty()
            },
            Err(e) => e matches crate::supervisor::SupervisorError::UnsupportedRuntime
                && entry@.runtime != "node"@ && entry@.runtime != "python"@ && entry@.runtime
                != "docker"@,
        },
{
    let runtime = match parse_runtime(&entry.runtime) {
        Ok(rt) => rt,
        Err(e) => {
            return Err(e);
        },
    };
    let distribution = match &entry.distribution {
        Some(d) => Some(
            Distribution { dist_type: d.dist_type.clone(), package: d.package.clone() },
        ),
        None => None,
    };
    let r = ServerRecord {
        id: entry.id.clone(),
        name: entry.name.clone(),
        description: entry.description.clone(),
        runtime,
        enabled: true,
        entry_point: None,
        command: entry.command.clone(),
        args: crate::store::clone_args(&entry.args),
        distribution,
        env: Vec::new(),
    };
    proof {
        assert(r@.args =~= entry@.args);
        assert(r@.env =~= Seq::<(Seq<char>, crate::store::EnvVarSpec)>::empty());
    }
    Ok(r)
}

/// The mathematical shape of the cache.
pub struct CatalogCacheSpec {
    pub filled: bool,
    pub fetched_at: u64,
    pub entries: Seq<CatalogEntrySpec>,
}

/// The process-wide catalog cache: the last successful payload and when it
/// was fetched.
#[derive(Debug)]
pub struct CatalogCache {
    filled: bool,
    fetched_at: u64,
    entries: Vec<CatalogEntry>,
}

impl View for CatalogCache {
    type V = CatalogCacheSpec;

    closed spec fn view(&self) -> CatalogCacheSpec {
        CatalogCacheSpec {
            filled: self.filled,
            fetched_at: self.fetched_at,
            entries: entries_view(self.entries@),
        }
    }
}

/// Whether a cache answers at this instant: it holds a payload fetched no
/// longer than the freshness window ago.
pub open spec fn cache_fresh(c: CatalogCacheSpec, now: u64) -> bool {
    c.filled && c.fetched_at <= now && now - c.fetched_at < CACHE_FRESH_MS
}

impl CatalogCache {
    /// An empty cache; nothing is fresh in it.
    pub fn new() -> (r: CatalogCache)
        ensures
            !r@.filled,
    {
        CatalogCache { filled: false, fetched_at: 0, entries: Vec::new() }
    }

    /// The cached payload, exactly when it is fresh now. A `None` is the
    /// caller's instruction to fetch; a `Some` is served without the
    /// network. An instant before the fetch — a wall clock can step back —
    /// is simply not fresh.
    pub fn lookup(&self, now: u64) -> (r: Option<&Vec<CatalogEntry>>)
        ensures
            match r {
                Some(entries) => cache_fresh(self@, now) && entries_view(entries@)
                    == self@.entries,
                None => !cache_fresh(self@, now),
            },
    {
        if self.filled && now >= self.fetched_at && now - self.fetched_at < CACHE_FRESH_MS {
            Some(&self.entries)
        } else {
            None
        }
    }

    /// Store a payload that was just fetched. Only success reaches this: a
    /// failed refetch stores nothing and cannot poison the cache.
    pub fn store_payload(&mut self, entries: Vec<CatalogEntry>, now: u64)
        ensures
            final(self)@.filled,
            final(self)@.fetched_at == now,
            final(self)@.entries == entries_view(entries@),
    {
        self.filled = true;
        self.fetched_at = now;
        self.entries = entries;
    }
}

/// Catalog caching: two reads within the freshness window of one fetch both
/// answer from the cache — the same payload, the network hit at most once.
pub proof fn lemma_catalog_caching(c: CatalogCache, t0: u64, t1: u64, t2: u64)
    requires
        c@.filled,
        c@.fetched_at == t0,
        t0 <= t1,
        t0 <= t2,
        t1 - t0 < CACHE_FRESH_MS,
        t2 - t0 < CACHE_FRESH_MS,
    ensures
        cache_fresh(c@, t1),
        cache_fresh(c@, t2),
{
}

} // verus!
