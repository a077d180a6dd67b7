//! The RPC conduit: one JSON-RPC conversation with one child over stdio.
//!
//! Framing is line-delimited JSON: one document per line, terminated by a
//! single newline. Replies are matched to requests by id, never by arrival
//! order, through a pending-request table; a timed-out request leaves the
//! table so that a late reply is dropped and later requests are untouched.
//! The pipe reads and writes themselves happen at the transport edge; what
//! is written, how lines are cut, and which caller a reply reaches are
//! decided and proved here.

use vstd::prelude::*;
use crate::json::{arr_view, clone_json, lemma_obj_unfold, obj_view, spec_get, JsonSpec, JsonValue};
use crate::kv::{
    kv_contains, kv_find, kv_unique, lemma_kv_find_at, lemma_kv_find_none, lemma_kv_find_push,
    lemma_kv_find_remove, lemma_kv_find_update,
};
use crate::text::contains_char;

verus! {

/// How a conversation with a child can fail.
#[derive(Debug, PartialEq)]
pub enum ConduitError {
    /// The child closed its stdout; every pending request fails with this.
    ServerClosedConnection,
    /// The child wrote an empty line where a reply was due.
    NoResponse,
    /// The caller's wait elapsed before the reply arrived.
    Timeout,
    /// A line from the child was not a JSON document.
    ParseError,
    /// An outbound document held a raw newline and cannot be framed.
    FramingError,
    /// A request id was registered while a request under it was in flight.
    DuplicateRequestId,
    /// The child answered a call with an error object, carried verbatim.
    ToolExecutionError(JsonValue),
    /// The child answered discovery with an error object, carried verbatim.
    ErrorReply(JsonValue),
    /// The child's reply to a call held neither result nor error.
    NoResultField,
}

/// The pending-request table of one child: request id to reply inbox.
/// `None` is a registered request still waiting; `Some` holds the reply
/// that arrived and has not been taken yet.
#[derive(Debug)]
pub struct PendingTable {
    entries: Vec<(String, Option<JsonValue>)>,
}

/// The denotation of the entry list.
pub open spec fn pending_kv(s: Seq<(String, Option<JsonValue>)>) -> Seq<
    (Seq<char>, Option<JsonSpec>),
> {
    Seq::new(
        s.len(),
        |i: int| (
            s[i].0@,
            match s[i].1 {
                Some(j) => Some(j@),
                None => None,
            },
        ),
    )
}

impl View for PendingTable {
    type V = Seq<(Seq<char>, Option<JsonSpec>)>;

    closed spec fn view(&self) -> Seq<(Seq<char>, Option<JsonSpec>)> {
        pending_kv(self.entries@)
    }
}

impl PendingTable {
    /// No request id occurs twice.
    pub closed spec fn wf(self) -> bool {
        kv_unique(self@)
    }

    /// An empty table.
    pub fn new() -> (r: PendingTable)
        ensures
            r@ == Seq::<(Seq<char>, Option<JsonSpec>)>::empty(),
            r.wf(),
    {
        let r = PendingTable { entries: Vec::new() };
        proof {
            assert(r@ =~= Seq::<(Seq<char>, Option<JsonSpec>)>::empty());
        }
        r
    }

    /// The index holding the id, if any.
    fn find_index(&self, id: &String) -> (r: Option<usize>)
        ensures
            match r {
                Some(i) => i < self.entries@.len() && self.entries@[i as int].0@ == id@
                    && (forall|q: int| 0 <= q < i ==> self.entries@[q].0@ != id@),
                None => forall|q: int| 0 <= q < self.entries@.len()
                    ==> self.entries@[q].0@ != id@,
            },
    {
        let mut i: usize = 0;
        while i < self.entries.len()
            invariant
                i <= self.entries@.len(),
                forall|q: int| 0 <= q < i ==> self.entries@[q].0@ != id@,
            decreases self.entries@.len() - i,
        {
            if self.entries[i].0 == *id {
                return Some(i);
            }
            i += 1;
        }
        None
    }

    /// Register a request id with an empty inbox. A live id is refused: two
    /// requests never share an id.
    pub fn register(&mut self, id: String) -> (r: Result<(), ConduitError>)
        requires
            old(self).wf(),
        ensures
            final(self).wf(),
            match r {
                Ok(()) => !kv_contains(old(self)@, id@) && forall|k: Seq<char>|
                    #[trigger] kv_find(final(self)@, k) == if k == id@ {
                        Some(None::<JsonSpec>)
                    } else {
                        kv_find(old(self)@, k)
                    },
                Err(e) => e matches ConduitError::DuplicateRequestId && kv_contains(
                    old(self)@,
                    id@,
                ) && final(self)@ == old(self)@,
            },
    {
        let ghost pre = self@;
        match self.find_index(&id) {
            Some(i) => {
                proof {
                    lemma_kv_find_at(pre, id@, i as int);
                }
                Err(ConduitError::DuplicateRequestId)
            },
            None => {
                proof {
                    lemma_kv_find_none(pre, id@);
                }
                self.entries.push((id, None));
                proof {
                    assert(self@ =~= pre.push((self.entries@.last().0@, None)));
                    assert forall|k: Seq<char>|
                        #[trigger] kv_find(self@, k) == if k == self.entries@.last().0@ {
                            Some(None::<JsonSpec>)
                        } else {
                            kv_find(pre, k)
                        } by {
                        lemma_kv_find_push(pre, self.entries@.last().0@, None, k);
                    }
                    assert(self.wf());
                }
                Ok(())
            },
        }
    }

    /// Deliver a reply read off the wire to the inbox whose id matches.
    /// Delivered exactly when that id is registered and still waiting; an
    /// unmatched or already-answered id is dropped and nothing changes for
    /// any other entry.
    pub fn dispatch(&mut self, id: &String, reply: JsonValue) -> (delivered: bool)
        requires
            old(self).wf(),
        ensures
            final(self).wf(),
            delivered == (kv_find(old(self)@, id@) == Some(None::<JsonSpec>)),
            forall|k: Seq<char>|
                #[trigger] kv_find(final(self)@, k) == if delivered && k == id@ {
                    Some(Some(reply@))
                } else {
                    kv_find(old(self)@, k)
                },
    {
        let ghost pre = self@;
        match self.find_index(id) {
            Some(i) => {
                proof {
                    lemma_kv_find_at(pre, id@, i as int);
                }
                let waiting = self.entries[i].1.is_none();
                if waiting {
                    let k = self.entries[i].0.clone();
                    self.entries[i] = (k, Some(reply));
                    proof {
                        assert(self@ =~= pre.update(i as int, (id@, Some(reply@))));
                        assert forall|k2: Seq<char>|
                            #[trigger] kv_find(self@, k2) == if k2 == id@ {
                                Some(Some(reply@))
                            } else {
                                kv_find(pre, k2)
                            } by {
                            lemma_kv_find_update(pre, i as int, Some(reply@), k2);
                        }
                        assert(self.wf());
                    }
                    true
                } else {
                    false
                }
            },
            None => {
                proof {
                    lemma_kv_find_none(pre, id@);
                }
                false
            },
        }
    }

    /// Take the entry for an id out of the table: the reply if one arrived,
    /// `None` on a timeout or an id never registered. Either way the id is
    /// gone afterwards, so a late reply is dropped, and no other entry moves.
    pub fn take_reply(&mut self, id: &String) -> (r: Option<JsonValue>)
        requires
            old(self).wf(),
        ensures
            final(self).wf(),
            match r {
                Some(reply) => kv_find(old(self)@, id@) == Some(Some(reply@)),
                None => kv_find(old(self)@, id@) is Some ==> kv_find(old(self)@, id@) == Some(
                    None::<JsonSpec>,
                ),
            },
            forall|k: Seq<char>|
                #[trigger] kv_find(final(self)@, k) == if k == id@ {
                    None::<Option<JsonSpec>>
                } else {
                    kv_find(old(self)@, k)
                },
    {
        let ghost pre = self@;
        match self.find_index(id) {
            Some(i) => {
                proof {
                    lemma_kv_find_at(pre, id@, i as int);
                }
                let entry = self.entries.remove(i);
                proof {
                    assert(self@ =~= pre.remove(i as int));
                    assert forall|k: Seq<char>|
                        #[trigger] kv_find(self@, k) == if k == id@ {
                            None::<Option<JsonSpec>>
                        } else {
                            kv_find(pre, k)
                        } by {
                        lemma_kv_find_remove(pre, i as int, k);
                    }
                    assert(self.wf());
                }
                entry.1
            },
            None => {
                proof {
                    lemma_kv_find_none(pre, id@);
                    assert(self@ =~= pre);
                    assert forall|k: Seq<char>|
                        #[trigger] kv_find(self@, k) == if k == id@ {
                            None::<Option<JsonSpec>>
                        } else {
                            kv_find(pre, k)
                        } by {
                        if k == id@ {
                            assert(kv_find(pre, id@) is None);
                        }
                    }
                }
                None
            },
        }
    }

    /// The child's stdout reached end of file: every pending request is
    /// abandoned at once; their callers each fail with
    /// `ServerClosedConnection`.
    pub fn close_all(&mut self)
        ensures
            final(self).wf(),
            final(self)@ == Seq::<(Seq<char>, Option<JsonSpec>)>::empty(),
    {
        self.entries.clear();
        proof {
            assert(self@ =~= Seq::<(Seq<char>, Option<JsonSpec>)>::empty());
        }
    }
}

/// Request correlation: two waiting requests with distinct ids each receive
/// exactly the reply bearing their own id, however the two deliveries
/// interleave; there is no cross-talk.
pub proof fn lemma_request_correlation(
    t0: PendingTable,
    t1: PendingTable,
    t2: PendingTable,
    id1: Seq<char>,
    id2: Seq<char>,
    r1: JsonSpec,
    r2: JsonSpec,
)
    requires
        id1 != id2,
        kv_find(t0@, id1) == Some(None::<JsonSpec>),
        kv_find(t0@, id2) == Some(None::<JsonSpec>),
        forall|k: Seq<char>| #[trigger] kv_find(t1@, k) == if k == id1 {
            Some(Some(r1))
        } else {
            kv_find(t0@, k)
        },
        forall|k: Seq<char>| #[trigger] kv_find(t2@, k) == if k == id2 {
            Some(Some(r2))
        } else {
            kv_find(t1@, k)
        },
    ensures
        kv_find(t2@, id1) == Some(Some(r1)),
        kv_find(t2@, id2) == Some(Some(r2)),
{
}

/// Timeout isolation: after one request times out and leaves the table, a
/// later request on the same child is delivered its own reply as ever, and a
/// late reply to the abandoned id is dropped, not delivered.
pub proof fn lemma_timeout_isolation(
    t0: PendingTable,
    t1: PendingTable,
    t2: PendingTable,
    timed_out: Seq<char>,
    later: Seq<char>,
    r2: JsonSpec,
)
    requires
        // the timed-out caller abandoned its id:
        forall|k: Seq<char>| #[trigger] kv_find(t1@, k) == if k == timed_out {
            None::<Option<JsonSpec>>
        } else {
            kv_find(t0@, k)
        },
        // a later request registered a fresh id and its reply arrived:
        later != timed_out,
        kv_find(t1@, later) == Some(None::<JsonSpec>),
        forall|k: Seq<char>| #[trigger] kv_find(t2@, k) == if k == later {
            Some(Some(r2))
        } else {
            kv_find(t1@, k)
        },
    ensures
        kv_find(t2@, later) == Some(Some(r2)),
        // a late reply to the abandoned id would not be delivered:
        kv_find(t1@, timed_out) != Some(None::<JsonSpec>),
        kv_find(t2@, timed_out) != Some(None::<JsonSpec>),
{
}

/// The discovery request: `tools/list` under the fixed numeric id 1.
pub open spec fn spec_discover_request() -> JsonSpec {
    JsonSpec::Obj(
        seq![
            ("jsonrpc"@, JsonSpec::Str("2.0"@)),
            ("id"@, JsonSpec::Int(1)),
            ("method"@, JsonSpec::Str("tools/list"@)),
            ("params"@, JsonSpec::Obj(Seq::empty())),
        ],
    )
}

/// Build the discovery request document.
pub fn build_discover_request() -> (r: JsonValue)
    ensures
        r@ == spec_discover_request(),
{
    let mut fields: Vec<(String, JsonValue)> = Vec::new();
    fields.push(("jsonrpc".to_owned(), JsonValue::Str("2.0".to_owned())));
    fields.push(("id".to_owned(), JsonValue::Int(1)));
    fields.push(("method".to_owned(), JsonValue::Str("tools/list".to_owned())));
    fields.push(("params".to_owned(), JsonValue::Obj(Vec::new())));
    proof {
        lemma_obj_unfold(fields);
        assert(obj_view(fields@).len() == 4);
        assert(obj_view(fields@)[0] =~~= ("jsonrpc"@, JsonSpec::Str("2.0"@)));
        assert(obj_view(fields@)[1] =~~= ("id"@, JsonSpec::Int(1)));
        assert(obj_view(fields@)[2] =~~= ("method"@, JsonSpec::Str("tools/list"@)));
        assert(obj_view(fields@)[3].0 =~~= "params"@);
        assert(obj_view(fields@)[3].1 is Obj);
        assert(obj_view(fields@)[3].1->Obj_0 =~~= Seq::<(Seq<char>, JsonSpec)>::empty());
        assert(obj_view(fields@) =~~= spec_discover_request()->Obj_0);
    }
    JsonValue::Obj(fields)
}

/// The execution request for one tool call, under the given request id.
pub open spec fn spec_call_request(rid: Seq<char>, tool: Seq<char>, args: JsonSpec) -> JsonSpec {
    JsonSpec::Obj(
        seq![
            ("jsonrpc"@, JsonSpec::Str("2.0"@)),
            ("id"@, JsonSpec::Str(rid)),
            ("method"@, JsonSpec::Str("tools/call"@)),
            (
                "params"@,
                JsonSpec::Obj(seq![("name"@, JsonSpec::Str(tool)), ("arguments"@, args)]),
            ),
        ],
    )
}

/// Build the execution request for a tool call. The request id is the
/// composite `execute_{server}_{tool}`, returned beside the document.
pub fn build_call_request(server_id: &String, tool: &String, args: JsonValue) -> (r: (
    String,
    JsonValue,
))
    ensures
        r.0@ == "execute_"@ + server_id@ + "_"@ + tool@,
        r.1@ == spec_call_request(r.0@, tool@, args@),
{
    let mut rid = "execute_".to_owned();
    rid.append(server_id.as_str());
    rid.append("_");
    rid.append(tool.as_str());

    let mut params: Vec<(String, JsonValue)> = Vec::new();
    params.push(("name".to_owned(), JsonValue::Str(tool.clone())));
    params.push(("arguments".to_owned(), args));
    proof {
        lemma_obj_unfold(params);
    }
    let ghost params_snapshot = params@;
    let params_obj = JsonValue::Obj(params);

    let mut fields: Vec<(String, JsonValue)> = Vec::new();
    fields.push(("jsonrpc".to_owned(), JsonValue::Str("2.0".to_owned())));
    fields.push(("id".to_owned(), JsonValue::Str(rid.clone())));
    fields.push(("method".to_owned(), JsonValue::Str("tools/call".to_owned())));
    fields.push(("params".to_owned(), params_obj));
    proof {
        lemma_obj_unfold(fields);
        assert(obj_view(params_snapshot) =~~= spec_call_request(rid@, tool@, args@)->Obj_0[3].1
            ->Obj_0);
        assert(obj_view(fields@) =~~= spec_call_request(rid@, tool@, args@)->Obj_0);
    }
    let doc = JsonValue::Obj(fields);
    (rid, doc)
}

/// What a call reply means: the error object if one is present, else the
/// result field verbatim, else nothing.
pub open spec fn spec_call_reply(resp: JsonSpec) -> Result<JsonSpec, Option<JsonSpec>> {
    match spec_get(resp, "error"@) {
        Some(e) => Err(Some(e)),
        None => match spec_get(resp, "result"@) {
            Some(v) => Ok(v),
            None => Err(None),
        },
    }
}

/// Read a call reply: the child's error is surfaced verbatim, a result is
/// returned verbatim, and a reply with neither is refused.
pub fn interpret_call_reply(resp: &JsonValue) -> (r: Result<JsonValue, ConduitError>)
    ensures
        match r {
            Ok(v) => spec_call_reply(resp@) == Ok::<JsonSpec, Option<JsonSpec>>(v@),
            Err(e) => match e {
                ConduitError::ToolExecutionError(err) => spec_call_reply(resp@) == Err::<
                    JsonSpec,
                    Option<JsonSpec>,
                >(Some(err@)),
                ConduitError::NoResultField => spec_call_reply(resp@) == Err::<
                    JsonSpec,
                    Option<JsonSpec>,
                >(None),
                _ => false,
            },
        },
{
    let err_key = "error".to_owned();
    match resp.get(&err_key) {
        Some(e) => Err(ConduitError::ToolExecutionError(clone_json(e))),
        None => {
            let res_key = "result".to_owned();
            match resp.get(&res_key) {
                Some(v) => Ok(clone_json(v)),
                None => Err(ConduitError::NoResultField),
            }
        },
    }
}

/// What a discovery reply lists: an error is surfaced; otherwise the result
/// array, or the array under the result's `tools` field, or the whole result
/// as a single entry; without a result, a root `tools` array; and failing
/// all of that, nothing — an empty or unrecognised reply is an empty list,
/// not an error.
pub open spec fn spec_discovery_tools(resp: JsonSpec) -> Result<Seq<JsonSpec>, JsonSpec> {
    match spec_get(resp, "error"@) {
        Some(e) => Err(e),
        None => match spec_get(resp, "result"@) {
            Some(res) => if res is Arr {
                Ok(res->Arr_0)
            } else {
                match spec_get(res, "tools"@) {
                    Some(ts) => if ts is Arr {
                        Ok(ts->Arr_0)
                    } else {
                        Ok(seq![res])
                    },
                    None => Ok(seq![res]),
                }
            },
            None => match spec_get(resp, "tools"@) {
                Some(ts) => if ts is Arr {
                    Ok(ts->Arr_0)
                } else {
                    Ok(Seq::empty())
                },
                None => Ok(Seq::empty()),
            },
        },
    }
}

/// Copy the elements of an array of documents.
fn clone_items(items: &Vec<JsonValue>) -> (r: Vec<JsonValue>)
    ensures
        arr_view(r@) == arr_view(items@),
{
    let mut out: Vec<JsonValue> = Vec::new();
    let mut i: usize = 0;
    while i < items.len()
        invariant
            i <= items@.len(),
            out@.len() == i,
            forall|q: int| 0 <= q < i ==> out@[q]@ == items@[q]@,
        decreases items@.len() - i,
    {
        out.push(clone_json(&items[i]));
        i += 1;
    }
    proof {
        assert(arr_view(out@) =~= arr_view(items@));
    }
    out
}

/// Read a discovery reply into the list of tool documents it carries,
/// tolerating each shape that `spec_discovery_tools` names.
pub fn interpret_discovery_reply(resp: &JsonValue) -> (r: Result<Vec<JsonValue>, ConduitError>)
    ensures
        match r {
            Ok(tools) => spec_discovery_tools(resp@) == Ok::<Seq<JsonSpec>, JsonSpec>(
                arr_view(tools@),
            ),
            Err(e) => match e {
                ConduitError::ErrorReply(err) => spec_discovery_tools(resp@) == Err::<
                    Seq<JsonSpec>,
                    JsonSpec,
                >(err@),
                _ => false,
            },
        },
{
    let err_key = "error".to_owned();
    if let Some(e) = resp.get(&err_key) {
        return Err(ConduitError::ErrorReply(clone_json(e)));
    }
    let res_key = "result".to_owned();
    let tools_key = "tools".to_owned();
    match resp.get(&res_key) {
        Some(res) => {
            if let Some(items) = res.as_arr() {
                return Ok(clone_items(items));
            }
            if let Some(ts) = res.get(&tools_key) {
                if let Some(items) = ts.as_arr() {
                    return Ok(clone_items(items));
                }
            }
            let single = clone_json(res);
            let mut out: Vec<JsonValue> = Vec::new();
            out.push(single);
            proof {
                assert(arr_view(out@) =~= seq![res@]);
            }
            Ok(out)
        },
        None => {
            if let Some(ts) = resp.get(&tools_key) {
                if let Some(items) = ts.as_arr() {
                    return Ok(clone_items(items));
                }
            }
            let out: Vec<JsonValue> = Vec::new();
            proof {
                assert(arr_view(out@) =~= Seq::<JsonSpec>::empty());
            }
            Ok(out)
        },
    }
}

/// Frame one outbound document line: the text followed by a single newline.
/// Text holding a raw newline cannot be framed — it would split into two
/// protocol lines — and is refused.
pub fn frame_line(s: &String) -> (r: Result<String, ConduitError>)
    ensures
        match r {
            Ok(t) => !s@.contains('\n') && t@ == s@ + seq!['\n'],
            Err(e) => e matches ConduitError::FramingError && s@.contains('\n'),
        },
{
    if contains_char(s, '\n') {
        return Err(ConduitError::FramingError);
    }
    let mut t = s.clone();
    t.append("\n");
    proof {
        reveal_strlit("\n");
        assert(t@ =~= s@ + seq!['\n']);
    }
    Ok(t)
}

/// Cut the first line off an inbound buffer: the text before the first
/// newline, and everything after it. A buffer without a newline holds no
/// complete frame yet.
pub fn take_line(buf: &String) -> (r: Option<(String, String)>)
    ensures
        match r {
            Some(lr) => buf@ == lr.0@ + seq!['\n'] + lr.1@ && !lr.0@.contains('\n'),
            None => !buf@.contains('\n'),
        },
{
    let st = buf.as_str();
    let n = st.unicode_len();
    let mut i: usize = 0;
    while i < n
        invariant
            st@ == buf@,
            n == buf@.len(),
            i <= n,
            forall|q: int| 0 <= q < i ==> buf@[q] != '\n',
        decreases n - i,
    {
        if st.get_char(i) == '\n' {
            let line = st.substring_char(0, i).to_owned();
            let rest = st.substring_char(i + 1, n).to_owned();
            proof {
                assert(line@ =~= buf@.subrange(0, i as int));
                assert(buf@ =~= line@ + seq!['\n'] + rest@);
                assert(!line@.contains('\n'));
            }
            return Some((line, rest));
        }
        i += 1;
    }
    proof {
        assert(!buf@.contains('\n'));
    }
    None
}

/// Line framing round-trip: cutting the first line off a framed document
/// yields the document back with nothing left over — one document is one
/// line, exactly.
pub proof fn lemma_frame_round_trip(text: Seq<char>, line: Seq<char>, rest: Seq<char>)
    requires
        !text.contains('\n'),
        // what `take_line` ensures of any cut it makes from `text + "\n"`:
        text + seq!['\n'] == line + seq!['\n'] + rest,
        !line.contains('\n'),
    ensures
        line == text,
        rest == Seq::<char>::empty(),
{
    let whole = text + seq!['\n'];
    if line.len() < text.len() {
        assert(whole[line.len() as int] == text[line.len() as int]);
        assert((line + seq!['\n'] + rest)[line.len() as int] == '\n');
        assert(text.contains('\n'));
    } else if line.len() > text.len() {
        assert((line + seq!['\n'] + rest)[text.len() as int] == line[text.len() as int]);
        assert(whole[text.len() as int] == '\n');
        assert(line.contains('\n'));
    } else {
        assert(line =~= text) by {
            assert(forall|i: int|
                0 <= i < text.len() ==> whole[i] == text[i] && (line + seq!['\n'] + rest)[i]
                    == line[i]);
        }
        assert(rest =~= Seq::<char>::empty());
    }
}

} // verus!
